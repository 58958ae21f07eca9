//! The per-chain configuration: reorg threshold, adapter selection by node
//! capabilities, trigger filtering, and opening a block stream.

use vstd::prelude::*;
use vstd::string::StringSliceAdditionalSpecFns;
use crate::block_ptr::BlockPtr;
use crate::block_stream::BlockStream;
use crate::errors::StreamError;

verus! {

/// What a node must support to serve a chain: archive access to historic
/// state, and trace data.
#[derive(Debug, Clone, Copy, PartialEq, Eq, Structural)]
pub struct NodeCapabilities {
    pub archive: bool,
    pub traces: bool,
}

impl NodeCapabilities {
    /// Whether a node with these capabilities can serve a request that
    /// requires `needed`.
    pub open spec fn covers_spec(self, needed: NodeCapabilities) -> bool {
        (needed.archive ==> self.archive) && (needed.traces ==> self.traces)
    }

    /// Whether a node with these capabilities can serve a request that
    /// requires `needed`.
    pub fn covers(&self, needed: &NodeCapabilities) -> (r: bool)
        ensures
            r == self.covers_spec(*needed),
    {
        (!needed.archive || self.archive) && (!needed.traces || self.traces)
    }
}

/// One unit of chain activity, as pulled out of a block by the chain's
/// triggers adapter: a kind tag plus its raw payload bytes.
pub struct TriggerData {
    pub kind: u64,
    pub payload: Vec<u8>,
}

impl View for TriggerData {
    type V = (u64, Seq<u8>);

    open spec fn view(&self) -> (u64, Seq<u8>) {
        (self.kind, self.payload@)
    }
}

impl Clone for TriggerData {
    fn clone(&self) -> (r: Self)
        ensures
            r@ == self@,
    {
        TriggerData { kind: self.kind, payload: crate::block_ptr::copy_bytes(&self.payload) }
    }
}

/// Narrows which on-chain events are of interest: a trigger passes when its
/// kind is listed. Immutable for the lifetime of a block stream.
pub struct TriggerFilter {
    kinds: Vec<u64>,
}

impl TriggerFilter {
    /// The listed kinds.
    pub closed spec fn kinds_spec(&self) -> Seq<u64> {
        self.kinds@
    }

    /// Whether a trigger of kind `kind` passes this filter.
    pub open spec fn matches_spec(&self, kind: u64) -> bool {
        self.kinds_spec().contains(kind)
    }

    /// A filter passing the listed kinds.
    pub fn new(kinds: Vec<u64>) -> (r: TriggerFilter)
        ensures
            r.kinds_spec() == kinds@,
    {
        TriggerFilter { kinds }
    }

    /// Whether a trigger of kind `kind` passes this filter.
    pub fn matches(&self, kind: u64) -> (r: bool)
        ensures
            r == self.matches_spec(kind),
    {
        let mut i: usize = 0;
        while i < self.kinds.len()
            invariant
                i <= self.kinds@.len(),
                forall|k: int| 0 <= k < i ==> self.kinds@[k] != kind,
            decreases self.kinds@.len() - i,
        {
            if self.kinds[i] == kind {
                return true;
            }
            i = i + 1;
        }
        false
    }
}

impl Clone for TriggerFilter {
    fn clone(&self) -> (r: Self)
        ensures
            r.kinds_spec() == self.kinds_spec(),
    {
        let mut kinds: Vec<u64> = Vec::new();
        let mut i: usize = 0;
        while i < self.kinds.len()
            invariant
                i <= self.kinds@.len(),
                kinds@ =~= self.kinds@.subrange(0, i as int),
            decreases self.kinds@.len() - i,
        {
            kinds.push(self.kinds[i]);
            proof {
                assert(self.kinds@.subrange(0, i + 1) =~= self.kinds@.subrange(
                    0,
                    i as int,
                ).push(self.kinds@[i as int]));
            }
            i = i + 1;
        }
        proof {
            assert(self.kinds@.subrange(0, self.kinds@.len() as int) =~= self.kinds@);
        }
        TriggerFilter { kinds }
    }
}

/// Keeps, in order, exactly the triggers whose kind passes the filter.
pub fn filter_triggers(triggers: &Vec<TriggerData>, filter: &TriggerFilter) -> (r: Vec<
    TriggerData,
>)
    ensures
        r@.map_values(|t: TriggerData| t@) == triggers@.map_values(|t: TriggerData| t@).filter(
            |t: (u64, Seq<u8>)| filter.matches_spec(t.0),
        ),
{
    let ghost pred = |t: (u64, Seq<u8>)| filter.matches_spec(t.0);
    let ghost all = triggers@.map_values(|t: TriggerData| t@);
    let mut r: Vec<TriggerData> = Vec::new();
    let mut i: usize = 0;
    while i < triggers.len()
        invariant
            i <= triggers@.len(),
            all == triggers@.map_values(|t: TriggerData| t@),
            pred == (|t: (u64, Seq<u8>)| filter.matches_spec(t.0)),
            r@.map_values(|t: TriggerData| t@) =~= all.subrange(0, i as int).filter(pred),
        decreases triggers@.len() - i,
    {
        let ghost prefix = all.subrange(0, i as int);
        let ghost one = seq![all[i as int]];
        proof {
            assert(all.subrange(0, i + 1) =~= prefix + one);
            Seq::filter_distributes_over_add(prefix, one, pred);
            reveal_with_fuel(Seq::filter, 3);
            assert(one.drop_last() =~= Seq::<(u64, Seq<u8>)>::empty());
            assert(one.drop_last().filter(pred) =~= Seq::<(u64, Seq<u8>)>::empty());
            assert(one.filter(pred) == if pred(one.last()) {
                Seq::<(u64, Seq<u8>)>::empty().push(one.last())
            } else {
                Seq::<(u64, Seq<u8>)>::empty()
            });
        }
        let t = &triggers[i];
        proof {
            assert(all[i as int] == triggers@[i as int]@);
            assert(one.last() == triggers@[i as int]@);
            assert(pred(one.last()) == filter.matches_spec(one.last().0));
            assert(one.last().0 == t.kind);
        }
        if filter.matches(t.kind) {
            let ghost rm0 = r@.map_values(|t: TriggerData| t@);
            r.push(t.clone());
            proof {
                assert(one.filter(pred) =~= Seq::<(u64, Seq<u8>)>::empty().push(one.last()));
                assert(r@.map_values(|t: TriggerData| t@) =~= rm0.push(triggers@[i as int]@));
                assert(r@.map_values(|t: TriggerData| t@) =~= prefix.filter(pred) + one.filter(
                    pred,
                ));
            }
        } else {
            proof {
                assert(one.filter(pred) =~= Seq::<(u64, Seq<u8>)>::empty());
                assert(r@.map_values(|t: TriggerData| t@) =~= prefix.filter(pred) + one.filter(
                    pred,
                ));
            }
        }
        i = i + 1;
    }
    proof {
        assert(all.subrange(0, triggers@.len() as int) =~= all);
    }
    r
}

/// Character-for-character equality of two strings.
pub fn str_eq(a: &str, b: &str) -> (r: bool)
    ensures
        r == (a@ == b@),
{
    let ab = a.as_bytes();
    let bb = b.as_bytes();
    if ab.len() != bb.len() {
        return false;
    }
    let mut i: usize = 0;
    while i < ab.len()
        invariant
            i <= ab@.len(),
            ab@.len() == bb@.len(),
            ab@ == a.spec_bytes(),
            bb@ == b.spec_bytes(),
            forall|k: int| 0 <= k < i ==> ab@[k] == bb@[k],
        decreases ab@.len() - i,
    {
        if ab[i] != bb[i] {
            return false;
        }
        i = i + 1;
    }
    proof {
        assert(ab@ =~= bb@);
        vstd::utf8::encode_utf8_decode_utf8(a@);
        vstd::utf8::encode_utf8_decode_utf8(b@);
    }
    true
}

/// One usable variant of a chain's trigger-extraction adapter, described by
/// the capabilities it offers. The adapter itself (RPC polling, block
/// fetching) is an external collaborator; the core only selects among
/// variants.
#[derive(Debug, Clone, Copy, PartialEq, Eq, Structural)]
pub struct AdapterVariant {
    pub capabilities: NodeCapabilities,
}

/// Per-chain configuration: everything chain-specific the shared pipeline
/// needs, bundled in one record shared read-only across the subgraphs
/// indexing that chain.
pub struct ChainDescriptor {
    network: String,
    reorg_threshold: u32,
    adapters: Vec<AdapterVariant>,
}

impl ChainDescriptor {
    /// The chain's adapter variants, in preference order.
    pub closed spec fn adapters_spec(&self) -> Seq<AdapterVariant> {
        self.adapters@
    }

    /// The name of the network this descriptor serves.
    pub closed spec fn network_spec(&self) -> Seq<char> {
        self.network@
    }

    /// The chain's number of confirmation blocks after which a block is
    /// considered irreversible.
    pub closed spec fn reorg_threshold_spec(&self) -> u32 {
        self.reorg_threshold
    }

    /// Bundles a chain's configuration: its network name, its reorg
    /// threshold and its adapter variants in preference order.
    pub fn new(network: String, reorg_threshold: u32, adapters: Vec<AdapterVariant>) -> (r:
        ChainDescriptor)
        ensures
            r.network_spec() == network@,
            r.reorg_threshold_spec() == reorg_threshold,
            r.adapters_spec() == adapters@,
    {
        ChainDescriptor { network, reorg_threshold, adapters }
    }

    /// The chain's number of confirmation blocks after which a block is
    /// considered irreversible.
    pub fn reorg_threshold(&self) -> (t: u32)
        ensures
            t == self.reorg_threshold_spec(),
    {
        self.reorg_threshold
    }

    /// Selects the first adapter variant able to serve the required node
    /// capabilities on the named network; `None` exactly when the network is
    /// not this descriptor's or no variant covers the capabilities.
    pub fn triggers_adapter(&self, network: &str, capabilities: &NodeCapabilities) -> (r: Option<
        AdapterVariant,
    >)
        ensures
            r matches Some(a) ==> network@ == self.network_spec() && exists|i: int|
                0 <= i < self.adapters_spec().len() && a == self.adapters_spec()[i]
                    && a.capabilities.covers_spec(*capabilities) && forall|j: int|
                    0 <= j < i ==> !(#[trigger] self.adapters_spec()[j]).capabilities.covers_spec(
                        *capabilities,
                    ),
            r is None ==> network@ != self.network_spec() || forall|i: int|
                0 <= i < self.adapters_spec().len() ==> !(#[trigger] self.adapters_spec()[i])
                    .capabilities.covers_spec(*capabilities),
    {
        let own = self.network.as_str();
        let same = str_eq(network, own);
        if !same {
            return None;
        }
        proof {
            assert(network@ == own@);
            assert(own@ == self.network@);
            assert(network@ == self.network_spec());
        }
        let mut i: usize = 0;
        while i < self.adapters.len()
            invariant
                i <= self.adapters@.len(),
                network@ == self.network_spec(),
                forall|j: int|
                    0 <= j < i ==> !(#[trigger] self.adapters_spec()[j]).capabilities.covers_spec(
                        *capabilities,
                    ),
            decreases self.adapters@.len() - i,
        {
            let a = self.adapters[i];
            if a.capabilities.covers(capabilities) {
                proof {
                    assert(a == self.adapters_spec()[i as int]);
                }
                return Some(a);
            }
            i = i + 1;
        }
        None
    }

    /// Opens a block stream positioned immediately after `current_head`,
    /// narrowing trigger extraction to `filter`; fails exactly when the
    /// head's identity is malformed.
    pub fn new_block_stream(&self, current_head: BlockPtr, filter: TriggerFilter) -> (r: Result<
        BlockStream,
        StreamError,
    >)
        ensures
            (r is Ok) <==> current_head@.wf(),
            r matches Ok(s) ==> s.wf() && s.chain_view() =~= seq![current_head@]
                && s.pending_view().len() == 0 && s.threshold_spec()
                == self.reorg_threshold_spec() && !s.stopped_spec() && s.log_view().len() == 0
                && s.filter_spec() == filter.kinds_spec(),
    {
        BlockStream::open(current_head, self.reorg_threshold, filter)
    }
}

} // verus!
