//! The reorg-aware block stream.
//!
//! The stream tracks the canonical chain it has delivered so far as a
//! sequence of block identities. The consumer pulls one unit at a time and
//! hands each incoming block to [`BlockStream::process_block`], which either
//! delivers it (normal advance), buffers it and asks for its parent (reorg
//! resolution, bounded look-ahead), rolls back to the common ancestor and
//! replays the competing branch, or fails fatally on a reorg deeper than the
//! chain's threshold.

use vstd::prelude::*;
use crate::block::{ChainBlock, ChainBlockView, Block};
use crate::block_ptr::{BlockPtr, BlockPtrView, HASH_LENGTH};
use crate::chain::TriggerFilter;
use crate::errors::StreamError;

verus! {

/// One entry of the stream's delivery history: a delivered block, or a
/// rollback notification naming the common ancestor.
pub enum DeliveryRecord {
    Delivered { block: ChainBlockView },
    Rollback { ancestor: BlockPtrView },
}

/// How one history entry may follow another: a delivered block's parent is
/// the block delivered just before it, or the ancestor named by the rollback
/// notification immediately preceding it.
pub open spec fn links_after(prev: DeliveryRecord, cur: DeliveryRecord) -> bool {
    match cur {
        DeliveryRecord::Delivered { block } => match prev {
            DeliveryRecord::Delivered { block: p } => block.parent == Some(p.ptr),
            DeliveryRecord::Rollback { ancestor } => block.parent == Some(ancestor),
        },
        DeliveryRecord::Rollback { .. } => true,
    }
}

/// Monotonic parent-chain invariant over a delivery history: every delivered
/// block after the first either extends the previously delivered block or is
/// immediately preceded by a rollback naming its parent.
pub open spec fn log_wf(log: Seq<DeliveryRecord>) -> bool {
    forall|i: int| 1 <= i < log.len() ==> #[trigger] links_after(log[i - 1], log[i])
}

/// What the stream decides to do with one incoming block.
pub enum StepDecision {
    /// Append the block to the canonical chain and deliver it.
    Deliver,
    /// Buffer the block and ask for its parent (reorg resolution step).
    Await,
    /// Common ancestor found at chain index `k`: roll back and replay.
    Rollback { k: int },
    /// Reject the block; fatal errors also stop the stream.
    Fail { e: StreamError },
}

/// The stream's decision rule, written over the mathematical state. `chain`
/// is the delivered canonical chain (identities, consecutive heights),
/// `pending` the competing branch buffered so far (highest first), `b` the
/// incoming block.
pub open spec fn decide(
    chain: Seq<BlockPtrView>,
    pending: Seq<ChainBlockView>,
    threshold: u32,
    stopped: bool,
    b: ChainBlockView,
) -> StepDecision {
    let tip = chain.last();
    if stopped {
        StepDecision::Fail { e: StreamError::Stopped }
    } else if pending.len() == 0 && b.ptr.number > tip.number + 1 {
        StepDecision::Fail {
            e: StreamError::NonSequential { tip_number: tip.number, got_number: b.ptr.number },
        }
    } else if pending.len() > 0 && Some(b.ptr) != pending.last().parent {
        StepDecision::Fail { e: StreamError::UnexpectedBlock }
    } else if pending.len() == 0 && b.parent == Some(tip) {
        StepDecision::Deliver
    } else {
        match b.parent {
            None => StepDecision::Fail { e: StreamError::MissingParent { number: b.ptr.number } },
            Some(p) => if tip.number - p.number > threshold {
                StepDecision::Fail {
                    e: StreamError::DeepReorg { tip_number: tip.number, divergence_bound: p.number },
                }
            } else if p.number < chain[0].number {
                StepDecision::Fail { e: StreamError::BeyondRetention { number: p.number } }
            } else {
                let k = p.number - chain[0].number;
                if chain[k] == p {
                    StepDecision::Rollback { k }
                } else if tip.number - p.number >= threshold {
                    StepDecision::Fail {
                        e: StreamError::DeepReorg {
                            tip_number: tip.number,
                            divergence_bound: p.number,
                        },
                    }
                } else {
                    StepDecision::Await
                }
            },
        }
    }
}

/// A canonical chain fragment: non-empty, consecutive heights, well-formed
/// identities.
pub open spec fn chain_wf(chain: Seq<BlockPtrView>) -> bool {
    &&& chain.len() >= 1
    &&& forall|i: int| 0 <= i < chain.len() ==> (#[trigger] chain[i]).number == chain[0].number + i
    &&& forall|i: int| 0 <= i < chain.len() ==> (#[trigger] chain[i]).wf()
}

/// A competing branch in ascending order: non-empty, child of `ancestor`
/// first, each block the parent of the next, all well-formed.
pub open spec fn branch_linked(branch: Seq<ChainBlockView>, ancestor: BlockPtrView) -> bool {
    &&& branch.len() > 0
    &&& branch[0].parent == Some(ancestor)
    &&& forall|j: int| 0 <= j < branch.len() ==> (#[trigger] branch[j]).wf()
    &&& forall|j: int|
        0 <= j && j + 1 < branch.len() ==> (#[trigger] branch[j + 1]).parent == Some(branch[j].ptr)
}

/// Extending a law-abiding delivery history with a rollback notification
/// followed by the re-delivered branch keeps the parent-chain law, provided
/// the branch starts at the named ancestor and is parent-linked.
proof fn lemma_log_extend_rollback(
    log0: Seq<DeliveryRecord>,
    ancestor: BlockPtrView,
    branch: Seq<ChainBlockView>,
)
    requires
        log_wf(log0),
        branch_linked(branch, ancestor),
    ensures
        log_wf(
            log0.push(DeliveryRecord::Rollback { ancestor }) + branch.map_values(
                |x: ChainBlockView| DeliveryRecord::Delivered { block: x },
            ),
        ),
{
    let newlog = log0.push(DeliveryRecord::Rollback { ancestor }) + branch.map_values(
        |x: ChainBlockView| DeliveryRecord::Delivered { block: x },
    );
    let n0 = log0.len() as int;
    assert forall|q: int| 1 <= q < newlog.len() implies #[trigger] links_after(
        newlog[q - 1],
        newlog[q],
    ) by {
        if q < n0 {
            assert(links_after(log0[q - 1], log0[q]));
        } else if q == n0 {
        } else if q == n0 + 1 {
            assert(newlog[q] == DeliveryRecord::Delivered { block: branch[0] });
        } else {
            let j = q - n0 - 2;
            assert(newlog[q] == DeliveryRecord::Delivered { block: branch[j + 1] });
            assert(newlog[q - 1] == DeliveryRecord::Delivered { block: branch[j] });
            assert(branch[j + 1].parent == Some(branch[j].ptr));
        }
    }
}

/// What [`BlockStream::process_block`] hands back to the consumer.
pub enum StreamEvent {
    /// Forward progress: the block extends the canonical chain.
    Delivered(ChainBlock),
    /// Reorg resolution: fetch this parent block and feed it in next.
    AwaitingParent(BlockPtr),
    /// A reorg within the threshold: previously delivered blocks above
    /// `ancestor` are discarded, and `replay` (ascending heights, child of
    /// `ancestor` first) re-delivers the competing branch.
    RolledBack { ancestor: BlockPtr, replay: Vec<ChainBlock> },
}

/// The ordered source of canonical `(block, triggers)` units for one
/// subgraph-chain pairing.
pub struct BlockStream {
    chain: Vec<BlockPtr>,
    pending: Vec<ChainBlock>,
    threshold: u32,
    filter: TriggerFilter,
    stopped: bool,
    log: Ghost<Seq<DeliveryRecord>>,
}

impl BlockStream {
    /// The delivered canonical chain: identities at consecutive heights,
    /// oldest retained block first.
    pub closed spec fn chain_view(&self) -> Seq<BlockPtrView> {
        self.chain@.map_values(|p: BlockPtr| p@)
    }

    /// The buffered competing branch, highest block first.
    pub closed spec fn pending_view(&self) -> Seq<ChainBlockView> {
        self.pending@.map_values(|b: ChainBlock| b@)
    }

    /// The chain's reorg threshold this stream was opened with.
    pub closed spec fn threshold_spec(&self) -> u32 {
        self.threshold
    }

    /// Whether the stream received a stop signal.
    pub closed spec fn stopped_spec(&self) -> bool {
        self.stopped
    }

    /// The kinds of on-chain events this stream's subgraph asked for,
    /// immutable for the stream's lifetime.
    pub closed spec fn filter_spec(&self) -> Seq<u64> {
        self.filter.kinds_spec()
    }

    /// The delivery history (ghost): all delivered blocks and rollback
    /// notifications, in order.
    pub closed spec fn log_view(&self) -> Seq<DeliveryRecord> {
        self.log@
    }

    /// The identity of the current tip.
    pub open spec fn tip_spec(&self) -> BlockPtrView {
        self.chain_view().last()
    }

    /// The height of the oldest retained block.
    pub open spec fn first_number(&self) -> u64 {
        self.chain_view()[0].number
    }

    /// Well-formedness: the chain is non-empty with consecutive heights and
    /// fixed-length hashes; the buffered branch is parent-linked, bounded by
    /// the threshold, and sits within one height of the tip; the delivery
    /// history satisfies the parent-chain invariant and ends at the tip.
    pub closed spec fn wf(&self) -> bool {
        &&& chain_wf(self.chain_view())
        &&& forall|j: int| 0 <= j < self.pending@.len() ==> (#[trigger] self.pending_view()[j]).wf()
        &&& forall|j: int|
            0 <= j < self.pending@.len() ==> (#[trigger] self.pending_view()[j]).parent is Some
        &&& forall|j: int|
            0 <= j && j + 1 < self.pending@.len() ==> (#[trigger] self.pending_view()[j]).parent
                == Some(self.pending_view()[j + 1].ptr)
        &&& self.pending@.len() > 0 ==> self.pending_view()[0].ptr.number <= self.tip_spec().number
            + 1
        &&& self.pending@.len() > 0 ==> self.pending_view().last().ptr.number
            + self.threshold_spec() >= self.tip_spec().number + 1
        &&& self.pending@.len() > 0 ==> self.pending_view()[0].ptr.number
            - self.pending_view().last().ptr.number + 1 == self.pending@.len()
        &&& self.pending@.len() <= self.threshold_spec() + 1
        &&& log_wf(self.log@)
        &&& self.log@.len() == 0 ==> self.chain@.len() == 1
        &&& self.log@.len() > 0 ==> (match self.log@.last() {
            DeliveryRecord::Delivered { block } => block.ptr == self.tip_spec(),
            DeliveryRecord::Rollback { .. } => false,
        })
    }

    /// Opens a stream positioned immediately after `current_head`, for a
    /// chain whose irreversibility threshold is `threshold`. Rejects a head
    /// whose hash is not exactly [`HASH_LENGTH`] bytes.
    pub fn open(current_head: BlockPtr, threshold: u32, filter: TriggerFilter) -> (r: Result<
        BlockStream,
        StreamError,
    >)
        ensures
            (r is Ok) <==> current_head@.wf(),
            r matches Ok(s) ==> s.wf() && s.chain_view() =~= seq![current_head@]
                && s.pending_view().len() == 0 && s.threshold_spec() == threshold
                && !s.stopped_spec() && s.log_view().len() == 0 && s.filter_spec()
                == filter.kinds_spec(),
            r is Err ==> r == Err::<BlockStream, StreamError>(StreamError::InvalidBlock),
    {
        if current_head.hash_bytes().len() != HASH_LENGTH {
            return Err(StreamError::InvalidBlock);
        }
        let mut chain: Vec<BlockPtr> = Vec::new();
        chain.push(current_head);
        let s = BlockStream {
            chain,
            pending: Vec::new(),
            threshold,
            filter,
            stopped: false,
            log: Ghost(Seq::empty()),
        };
        proof {
            assert(s.chain_view() =~= seq![s.chain@[0]@]);
        }
        Ok(s)
    }

    /// The identity of the most recently delivered block.
    pub fn tip(&self) -> (p: &BlockPtr)
        requires
            self.wf(),
        ensures
            p@ == self.tip_spec(),
    {
        &self.chain[self.chain.len() - 1]
    }

    /// How many block identities the stream retains.
    pub fn retained(&self) -> (n: usize)
        ensures
            n == self.chain_view().len(),
    {
        self.chain.len()
    }

    /// How many blocks of a competing branch are buffered right now. Bounded
    /// look-ahead: never more than `threshold + 1` (see
    /// [`lemma_bounded_lookahead`](Self::lemma_bounded_lookahead)).
    pub fn buffered(&self) -> (n: usize)
        ensures
            n == self.pending_view().len(),
    {
        self.pending.len()
    }

    /// The stream's reorg threshold.
    pub fn reorg_threshold(&self) -> (t: u32)
        ensures
            t == self.threshold_spec(),
    {
        self.threshold
    }

    /// Keeps, in order, exactly the raw triggers of one delivered block that
    /// this stream's filter asks for: the trigger half of a delivered
    /// `(block, triggers)` unit.
    pub fn deliverable_triggers(&self, raw: &Vec<crate::chain::TriggerData>) -> (r: Vec<
        crate::chain::TriggerData,
    >)
        ensures
            r@.map_values(|t: crate::chain::TriggerData| t@) == raw@.map_values(
                |t: crate::chain::TriggerData| t@,
            ).filter(|t: (u64, Seq<u8>)| self.filter_spec().contains(t.0)),
    {
        let r = crate::chain::filter_triggers(raw, &self.filter);
        proof {
            let f1 = |t: (u64, Seq<u8>)| self.filter_spec().contains(t.0);
            let f2 = |t: (u64, Seq<u8>)| self.filter.matches_spec(t.0);
            assert forall|t: (u64, Seq<u8>)| #[trigger] f1(t) == f2(t) by {}
            assert(f1 =~= f2);
        }
        r
    }

    /// Stop signal: the in-flight competing branch is discarded and every
    /// later call fails with `Stopped`. The delivered history is untouched.
    pub fn stop(&mut self)
        requires
            old(self).wf(),
        ensures
            final(self).wf(),
            final(self).stopped_spec(),
            final(self).pending_view().len() == 0,
            final(self).chain_view() == old(self).chain_view(),
            final(self).log_view() == old(self).log_view(),
            final(self).threshold_spec() == old(self).threshold_spec(),
            final(self).filter_spec() == old(self).filter_spec(),
    {
        self.stopped = true;
        self.pending.clear();
        proof {
            assert(self.pending_view() =~= Seq::<ChainBlockView>::empty());
            assert(self.chain_view() == old(self).chain_view());
            assert(self.wf());
        }
    }

    /// Hands one incoming block to the stream. The decision is exactly
    /// [`decide`] on the stream's mathematical state:
    ///
    /// - `Deliver`: the block extends the tip; it is appended and delivered.
    /// - `Await`: the block starts or continues a competing branch; it is
    ///   buffered and the stream asks for its parent.
    /// - `Rollback`: the competing branch reached a common ancestor within
    ///   `reorg_threshold` of the tip; the chain is truncated to the
    ///   ancestor and the branch is re-delivered in ascending order.
    /// - `Fail`: the block is rejected; deep reorgs, a missing parent and an
    ///   ancestor beyond retention are fatal and stop the stream.
    #[verifier::loop_isolation(false)]
    #[verifier::rlimit(60)]
    pub fn process_block(&mut self, b: ChainBlock) -> (r: Result<StreamEvent, StreamError>)
        requires
            old(self).wf(),
            b@.wf(),
        ensures
            final(self).wf(),
            final(self).threshold_spec() == old(self).threshold_spec(),
            final(self).filter_spec() == old(self).filter_spec(),
            ({
                let d = decide(
                    old(self).chain_view(),
                    old(self).pending_view(),
                    old(self).threshold_spec(),
                    old(self).stopped_spec(),
                    b@,
                );
                match d {
                    StepDecision::Deliver => (r matches Ok(StreamEvent::Delivered(x)) && x@ == b@)
                        && final(self).chain_view() == old(self).chain_view().push(b@.ptr)
                        && final(self).log_view() == old(self).log_view().push(
                        DeliveryRecord::Delivered { block: b@ },
                    ) && final(self).pending_view().len() == 0 && final(self).stopped_spec()
                        == old(self).stopped_spec(),
                    StepDecision::Await => (r matches Ok(StreamEvent::AwaitingParent(p)) && Some(p@)
                        == b@.parent) && final(self).chain_view() == old(self).chain_view()
                        && final(self).log_view() == old(self).log_view()
                        && final(self).pending_view() == old(self).pending_view().push(b@)
                        && final(self).stopped_spec() == old(self).stopped_spec(),
                    StepDecision::Rollback { k } => {
                        let branch = seq![b@] + old(self).pending_view().reverse();
                        (r matches Ok(StreamEvent::RolledBack { ancestor, replay }) && ancestor@
                            == old(self).chain_view()[k] && replay@.map_values(|x: ChainBlock| x@)
                            == branch) && final(self).chain_view() == old(self).chain_view()
                            .subrange(0, k + 1) + branch.map_values(|x: ChainBlockView| x.ptr)
                            && final(self).log_view() == old(self).log_view().push(
                            DeliveryRecord::Rollback { ancestor: old(self).chain_view()[k] },
                        ) + branch.map_values(|x: ChainBlockView| DeliveryRecord::Delivered {
                            block: x,
                        }) && final(self).pending_view().len() == 0 && final(self).stopped_spec()
                            == old(self).stopped_spec() && old(self).tip_spec().number - old(self).chain_view()[k].number <= old(self).threshold_spec()
                    },
                    StepDecision::Fail { e } => r == Err::<StreamEvent, StreamError>(e) && final(self).chain_view() == old(self).chain_view() && final(self).log_view() == old(self).log_view() && (e.is_fatal() ==> final(self).stopped_spec() && final(self).pending_view().len() == 0) && (!e.is_fatal() ==> final(self).pending_view()
                        == old(self).pending_view() && final(self).stopped_spec() == old(self).stopped_spec()),
                }
            }),
    {
        let ghost bv = b@;
        let ghost d = decide(
            old(self).chain_view(),
            old(self).pending_view(),
            old(self).threshold_spec(),
            old(self).stopped_spec(),
            b@,
        );
        if self.stopped {
            return Err(StreamError::Stopped);
        }
        let n_chain = self.chain.len();
        let tip_number = self.chain[n_chain - 1].number();
        proof {
            assert(tip_number == self.tip_spec().number);
        }
        if self.pending.len() == 0 {
            let bn = b.self_ptr().number();
            if bn >= 1 && bn - 1 > tip_number {
                return Err(
                    StreamError::NonSequential { tip_number, got_number: bn },
                );
            }
        } else {
            let n_pending = self.pending.len();
            let matches_request = match self.pending[n_pending - 1].parent_ref() {
                Some(req) => b.self_ptr().ptr_eq(req),
                None => false,
            };
            proof {
                assert(self.pending_view().last() == self.pending_view()[n_pending - 1]);
            }
            if !matches_request {
                return Err(StreamError::UnexpectedBlock);
            }
        }
        if self.pending.len() == 0 {
            let extends_tip = match b.parent_ref() {
                Some(p) => p.ptr_eq(&self.chain[n_chain - 1]),
                None => false,
            };
            if extends_tip {
                let ghost chain0 = self.chain_view();
                let ptr = b.ptr();
                self.chain.push(ptr);
                self.log = Ghost(self.log@.push(DeliveryRecord::Delivered { block: bv }));
                proof {
                    assert(self.chain_view() =~= chain0.push(bv.ptr));
                    assert(d == StepDecision::Deliver);
                    assert(self.wf());
                }
                return Ok(StreamEvent::Delivered(b));
            }
        }
        // From here on the block belongs to a competing branch (or is a
        // sequencing-legal non-extension); find or approach the common
        // ancestor.
        let parent = match b.parent_ref() {
            Some(p) => p,
            None => {
                let number = b.self_ptr().number();
                self.stopped = true;
                self.pending.clear();
                proof {
                    assert(self.pending_view() =~= Seq::<ChainBlockView>::empty());
                    assert(d == (StepDecision::Fail {
                        e: StreamError::MissingParent { number: bv.ptr.number },
                    }));
                    assert(self.wf());
                }
                return Err(StreamError::MissingParent { number });
            },
        };
        let p_num = parent.number();
        proof {
            if self.pending_view().len() > 0 {
                assert(Some(bv.ptr) == self.pending_view().last().parent);
                assert(self.pending_view().last().ptr.number <= self.pending_view()[0].ptr.number);
                assert(bv.ptr.number == self.pending_view().last().ptr.number - 1);
            }
            assert(p_num <= tip_number);
        }
        let depth = tip_number - p_num;
        if depth > self.threshold as u64 {
            self.stopped = true;
            self.pending.clear();
            proof {
                assert(self.pending_view() =~= Seq::<ChainBlockView>::empty());
                assert(d == (StepDecision::Fail {
                    e: StreamError::DeepReorg { tip_number, divergence_bound: p_num },
                }));
                assert(self.wf());
            }
            return Err(StreamError::DeepReorg { tip_number, divergence_bound: p_num });
        }
        let first_num = self.chain[0].number();
        if p_num < first_num {
            self.stopped = true;
            self.pending.clear();
            proof {
                assert(self.pending_view() =~= Seq::<ChainBlockView>::empty());
                assert(d == (StepDecision::Fail {
                    e: StreamError::BeyondRetention { number: p_num },
                }));
                assert(self.wf());
            }
            return Err(StreamError::BeyondRetention { number: p_num });
        }
        proof {
            assert(p_num - first_num < self.chain@.len());
        }
        let k = (p_num - first_num) as usize;
        if self.chain[k].ptr_eq(parent) {
            let ghost gk = k as int;
            proof {
                assert(d == (StepDecision::Rollback { k: gk }));
            }
            return self.roll_back(b, k);
        } else if depth >= self.threshold as u64 {
            self.stopped = true;
            self.pending.clear();
            proof {
                assert(self.pending_view() =~= Seq::<ChainBlockView>::empty());
                assert(d == (StepDecision::Fail {
                    e: StreamError::DeepReorg { tip_number, divergence_bound: p_num },
                }));
                assert(self.wf());
            }
            return Err(StreamError::DeepReorg { tip_number, divergence_bound: p_num });
        } else {
            let ghost pv = parent@;
            let request = parent.clone();
            let ghost pending0 = self.pending_view();
            self.pending.push(b);
            proof {
                assert(self.pending_view() =~= pending0.push(bv));
                assert(forall|j: int|
                    0 <= j < pending0.len() ==> self.pending_view()[j] == pending0[j]);
                assert(self.pending_view().last() == bv);
                assert(bv.parent == Some(pv));
                assert(bv.ptr.number == p_num + 1);
                assert(p_num + self.threshold > tip_number);
                if pending0.len() > 0 {
                    assert(Some(bv.ptr) == pending0.last().parent);
                    assert(bv.ptr.number == pending0.last().ptr.number - 1);
                } else {
                    assert(self.pending_view()[0] == bv);
                    assert(bv.ptr.number <= tip_number + 1);
                }
                assert(d == StepDecision::Await);
                assert(self.wf());
            }
            return Ok(StreamEvent::AwaitingParent(request));
        }
    }

    /// Truncates the chain to the common ancestor at index `k` and replays
    /// the buffered competing branch (plus `b`, its lowest block) in
    /// ascending order.
    #[verifier::loop_isolation(false)]
    #[verifier::rlimit(100)]
    #[verifier::spinoff_prover]
    fn roll_back(&mut self, b: ChainBlock, k: usize) -> (r: Result<StreamEvent, StreamError>)
        requires
            old(self).wf(),
            b@.wf(),
            k < old(self).chain@.len(),
            b@.parent == Some(old(self).chain_view()[k as int]),
            old(self).tip_spec().number - old(self).chain_view()[k as int].number <= old(self).threshold_spec(),
            old(self).pending_view().len() > 0 ==> Some(b@.ptr) == old(self).pending_view().last().parent,
        ensures
            final(self).wf(),
            final(self).threshold_spec() == old(self).threshold_spec(),
            final(self).filter_spec() == old(self).filter_spec(),
            final(self).stopped_spec() == old(self).stopped_spec(),
            final(self).pending_view().len() == 0,
            ({
                let branch = seq![b@] + old(self).pending_view().reverse();
                &&& (r matches Ok(StreamEvent::RolledBack { ancestor, replay }) && ancestor@ == old(self).chain_view()[k as int] && replay@.map_values(|x: ChainBlock| x@) == branch)
                &&& final(self).chain_view() == old(self).chain_view().subrange(0, k + 1)
                    + branch.map_values(|x: ChainBlockView| x.ptr)
                &&& final(self).log_view() == old(self).log_view().push(
                    DeliveryRecord::Rollback { ancestor: old(self).chain_view()[k as int] },
                ) + branch.map_values(|x: ChainBlockView| DeliveryRecord::Delivered { block: x })
            }),
    {
        let ghost bv = b@;
        let ghost chain0 = self.chain_view();
        let ghost pending0 = self.pending_view();
        let ghost log0 = self.log@;
        let ghost branch = seq![bv] + pending0.reverse();
        let ghost np = pending0.len() as int;

        proof {
            // The competing branch is parent-linked and well-formed.
            assert(branch[0] == bv);
            assert(pending0.reverse().len() == np);
            assert(branch.len() == np + 1);
            assert(forall|q: int|
                0 <= q < np ==> #[trigger] pending0.reverse()[q] == pending0[np - 1 - q]);
            assert forall|j: int| 0 <= j < branch.len() implies (#[trigger] branch[j]).wf() by {
                if j > 0 {
                    assert(branch[j] == pending0.reverse()[j - 1]);
                    assert(branch[j] == pending0[np - j]);
                }
            }
            assert forall|j: int| 0 <= j && j + 1 < branch.len() implies (#[trigger] branch[j + 1]).parent
                == Some(branch[j].ptr) by {
                assert(branch[j + 1] == pending0.reverse()[j]);
                assert(branch[j + 1] == pending0[np - 1 - j]);
                if j == 0 {
                    assert(pending0[np - 1] == pending0.last());
                } else {
                    assert(branch[j] == pending0.reverse()[j - 1]);
                    assert(branch[j] == pending0[np - j]);
                    assert(pending0[np - 1 - j].parent == Some(pending0[np - j].ptr));
                }
            }
        }

        let ancestor = self.chain[k].clone();
        let n_chain = self.chain.len();
        proof {
            assert(k < n_chain);
        }
        self.chain.truncate(k + 1);
        proof {
            assert(self.chain_view() =~= chain0.subrange(0, k + 1));
            assert(chain_wf(self.chain_view()));
            assert(self.chain_view().last() == chain0[k as int]);
            assert(branch_linked(branch, self.chain_view().last()));
        }

        let replay = self.collect_branch(b);
        proof {
            assert(replay@.map_values(|x: ChainBlock| x@) == branch);
        }
        self.append_branch(&replay);

        let ghost newlog = log0.push(DeliveryRecord::Rollback { ancestor: chain0[k as int] })
            + branch.map_values(|x: ChainBlockView| DeliveryRecord::Delivered { block: x });
        self.log = Ghost(newlog);

        proof {
            lemma_log_extend_rollback(log0, chain0[k as int], branch);
            assert(newlog.last() == DeliveryRecord::Delivered { block: branch.last() });
            assert(self.chain_view().last() == branch.last().ptr);
            assert(self.wf());
        }
        Ok(StreamEvent::RolledBack { ancestor, replay })
    }

    /// Empties the buffered branch into a replay sequence in ascending
    /// height order: `b` (the lowest block) first, then the buffered blocks
    /// from lowest to highest.
    #[verifier::loop_isolation(false)]
    fn collect_branch(&mut self, b: ChainBlock) -> (replay: Vec<ChainBlock>)
        ensures
            replay@.map_values(|x: ChainBlock| x@) == seq![b@] + old(self).pending_view().reverse(),
            final(self).pending@.len() == 0,
            final(self).chain@ == old(self).chain@,
            final(self).threshold == old(self).threshold,
            final(self).filter == old(self).filter,
            final(self).stopped == old(self).stopped,
            final(self).log@ == old(self).log@,
    {
        let ghost bv = b@;
        let ghost pending0 = self.pending_view();
        let ghost np = pending0.len() as int;
        let mut replay: Vec<ChainBlock> = Vec::new();
        replay.push(b);
        proof {
            assert(pending0.subrange(np, np).reverse() =~= Seq::<ChainBlockView>::empty());
            assert(replay@.map_values(|x: ChainBlock| x@) =~= seq![bv] + pending0.subrange(
                np,
                np,
            ).reverse());
        }
        while self.pending.len() > 0
            invariant
                self.pending@.len() <= np,
                self.pending_view() =~= pending0.subrange(0, self.pending@.len() as int),
                replay@.map_values(|x: ChainBlock| x@) =~= seq![bv] + pending0.subrange(
                    self.pending@.len() as int,
                    np,
                ).reverse(),
                self.chain@ == old(self).chain@,
                self.threshold == old(self).threshold,
                self.filter == old(self).filter,
                self.stopped == old(self).stopped,
                self.log@ == old(self).log@,
            decreases self.pending@.len(),
        {
            let ghost m = self.pending@.len() as int;
            let ghost pv_pre = self.pending_view();
            let ghost vec_pre = self.pending@;
            let popped = self.pending.pop();
            let x = match popped {
                Some(x) => x,
                None => {
                    proof {
                        assert(false);
                    }
                    return replay;
                },
            };
            proof {
                assert(x == vec_pre.last());
                assert(pv_pre[m - 1] == vec_pre[m - 1]@);
                assert(x@ == pv_pre[m - 1]);
                assert(pv_pre[m - 1] == pending0[m - 1]);
                assert(x@ == pending0[m - 1]);
                assert(self.pending_view() =~= pending0.subrange(0, m - 1));
            }
            let ghost rv_pre = replay@.map_values(|x: ChainBlock| x@);
            replay.push(x);
            proof {
                assert(pending0.subrange(m - 1, np).reverse() =~= pending0.subrange(
                    m,
                    np,
                ).reverse().push(pending0[m - 1]));
                assert(replay@.map_values(|x: ChainBlock| x@) =~= rv_pre.push(pending0[m - 1]));
                assert(rv_pre.push(pending0[m - 1]) =~= seq![bv] + pending0.subrange(
                    m - 1,
                    np,
                ).reverse());
            }
        }
        proof {
            assert(pending0.subrange(0, np) =~= pending0);
            assert(replay@.map_values(|x: ChainBlock| x@) =~= seq![bv] + pending0.reverse());
        }
        replay
    }

    /// Appends the identities of a parent-linked branch to the chain, whose
    /// tip must be the branch's ancestor.
    #[verifier::loop_isolation(false)]
    fn append_branch(&mut self, replay: &Vec<ChainBlock>)
        requires
            chain_wf(old(self).chain_view()),
            branch_linked(
                replay@.map_values(|x: ChainBlock| x@),
                old(self).chain_view().last(),
            ),
        ensures
            ({
                let branch = replay@.map_values(|x: ChainBlock| x@);
                &&& final(self).chain_view() == old(self).chain_view() + branch.map_values(
                    |x: ChainBlockView| x.ptr,
                )
                &&& chain_wf(final(self).chain_view())
                &&& final(self).chain_view().last() == branch.last().ptr
            }),
            final(self).pending@ == old(self).pending@,
            final(self).threshold == old(self).threshold,
            final(self).filter == old(self).filter,
            final(self).stopped == old(self).stopped,
            final(self).log@ == old(self).log@,
    {
        let ghost branch = replay@.map_values(|x: ChainBlock| x@);
        let ghost chain0 = self.chain_view();
        let n_replay = replay.len();
        let mut i: usize = 0;
        proof {
            assert(branch.subrange(0, 0).map_values(|x: ChainBlockView| x.ptr) =~= Seq::<
                BlockPtrView,
            >::empty());
            assert(chain0 + branch.subrange(0, 0).map_values(|x: ChainBlockView| x.ptr)
                =~= chain0);
        }
        while i < n_replay
            invariant
                i <= n_replay,
                n_replay == branch.len(),
                self.chain_view() =~= chain0 + branch.subrange(0, i as int).map_values(
                    |x: ChainBlockView| x.ptr,
                ),
                self.chain_view().last() == if i == 0 {
                    chain0.last()
                } else {
                    branch[i - 1].ptr
                },
                forall|q: int|
                    0 <= q < self.chain@.len() ==> (#[trigger] self.chain_view()[q]).number
                        == chain0[0].number + q,
                forall|q: int| 0 <= q < self.chain@.len() ==> (#[trigger] self.chain_view()[q]).wf(),
                self.pending@ == old(self).pending@,
                self.threshold == old(self).threshold,
                self.filter == old(self).filter,
                self.stopped == old(self).stopped,
                self.log@ == old(self).log@,
            decreases n_replay - i,
        {
            let ghost pre = self.chain_view();
            let ptr = replay[i].ptr();
            proof {
                assert(branch[i as int] == replay@[i as int]@);
                assert(ptr@ == branch[i as int].ptr);
                if i > 0 {
                    let j = i - 1;
                    assert(branch[j + 1].parent == Some(branch[j].ptr));
                }
                assert(branch[i as int].parent == Some(pre.last()));
            }
            self.chain.push(ptr);
            proof {
                assert(self.chain_view() =~= pre.push(branch[i as int].ptr));
                assert(branch.subrange(0, i + 1) =~= branch.subrange(0, i as int).push(
                    branch[i as int],
                ));
                assert(self.chain_view() =~= chain0 + branch.subrange(0, i + 1).map_values(
                    |x: ChainBlockView| x.ptr,
                ));
            }
            i = i + 1;
        }
        proof {
            assert(branch.subrange(0, branch.len() as int) =~= branch);
        }
    }

    /// Bounded retention: keeps only the newest `keep` block identities.
    /// The window must exceed the reorg threshold, so that any reorg within
    /// the threshold still finds its common ancestor locally; a deeper one
    /// fails with `BeyondRetention`.
    #[verifier::loop_isolation(false)]
    pub fn compact(&mut self, keep: usize)
        requires
            old(self).wf(),
            keep > old(self).threshold_spec(),
        ensures
            final(self).wf(),
            final(self).threshold_spec() == old(self).threshold_spec(),
            final(self).filter_spec() == old(self).filter_spec(),
            final(self).stopped_spec() == old(self).stopped_spec(),
            final(self).pending_view() == old(self).pending_view(),
            final(self).log_view() == old(self).log_view(),
            final(self).tip_spec() == old(self).tip_spec(),
            keep >= old(self).chain_view().len() ==> final(self).chain_view() == old(
                self,
            ).chain_view(),
            keep < old(self).chain_view().len() ==> final(self).chain_view() == old(
                self,
            ).chain_view().subrange(
                old(self).chain_view().len() - keep,
                old(self).chain_view().len() as int,
            ),
    {
        let n = self.chain.len();
        if keep >= n {
            return ;
        }
        let ghost chain0 = self.chain_view();
        let start = n - keep;
        let mut kept: Vec<BlockPtr> = Vec::new();
        let mut i: usize = start;
        proof {
            assert(kept@.map_values(|p: BlockPtr| p@) =~= chain0.subrange(
                start as int,
                start as int,
            ));
        }
        while i < n
            invariant
                start <= i <= n,
                self.chain_view() == chain0,
                n == self.chain@.len(),
                kept@.map_values(|p: BlockPtr| p@) =~= chain0.subrange(start as int, i as int),
            decreases n - i,
        {
            let ghost kv = kept@.map_values(|p: BlockPtr| p@);
            kept.push(self.chain[i].clone());
            proof {
                assert(kept@.map_values(|p: BlockPtr| p@) =~= kv.push(chain0[i as int]));
                assert(chain0.subrange(start as int, i + 1) =~= chain0.subrange(
                    start as int,
                    i as int,
                ).push(chain0[i as int]));
            }
            i = i + 1;
        }
        self.chain = kept;
        proof {
            let newchain = self.chain_view();
            assert(newchain =~= chain0.subrange(start as int, n as int));
            assert forall|q: int| 0 <= q < newchain.len() implies (#[trigger] newchain[q]).number
                == newchain[0].number + q && newchain[q].wf() by {
                assert(newchain[q] == chain0[start + q]);
                assert(newchain[0] == chain0[start as int]);
            }
            assert(newchain.last() == chain0.last());
            assert(self.wf());
        }
    }

    /// Backpressure law: the stream never buffers more than `threshold + 1`
    /// blocks, and it only ever learns of blocks one `process_block` call at
    /// a time, so it cannot run ahead of the consumer.
    pub proof fn lemma_bounded_lookahead(&self)
        requires
            self.wf(),
        ensures
            self.pending_view().len() <= self.threshold_spec() + 1,
    {
    }

    /// Monotonic parent-chain law: in the delivery history of a well-formed
    /// stream, every delivered block after the first either has the
    /// previously delivered block as its parent, or is immediately preceded
    /// by a rollback notification naming its parent.
    pub proof fn lemma_parent_chain(&self)
        requires
            self.wf(),
        ensures
            log_wf(self.log_view()),
            forall|i: int|
                1 <= i < self.log_view().len() ==> #[trigger] links_after(
                    self.log_view()[i - 1],
                    self.log_view()[i],
                ),
    {
    }

    /// Canonical-chain law: the retained chain of a well-formed stream has
    /// strictly increasing, consecutive heights.
    pub proof fn lemma_chain_consecutive(&self)
        requires
            self.wf(),
        ensures
            forall|i: int|
                0 <= i < self.chain_view().len() ==> (#[trigger] self.chain_view()[i]).number
                    == self.first_number() + i,
    {
    }
}

} // verus!
