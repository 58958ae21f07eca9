use indexer_core::block::{Block, ChainBlock};
use indexer_core::block_ptr::BlockPtr;
use indexer_core::block_stream::{BlockStream, StreamEvent};
use indexer_core::chain::{
    filter_triggers, AdapterVariant, ChainDescriptor, NodeCapabilities, TriggerData, TriggerFilter,
};
use indexer_core::errors::StreamError;

/// A 32-byte hash determined by a height and a fork tag.
fn hash(number: u64, fork: u8) -> Vec<u8> {
    let mut h = vec![0u8; 32];
    h[0] = fork;
    let n = number.to_le_bytes();
    h[1..9].copy_from_slice(&n);
    h
}

fn ptr(number: u64, fork: u8) -> BlockPtr {
    BlockPtr::new(number, hash(number, fork)).unwrap()
}

/// A block at `number` on branch `fork` whose parent sits on `parent_fork`.
fn block(number: u64, fork: u8, parent_fork: u8) -> ChainBlock {
    let parent = if number == 0 { None } else { Some(ptr(number - 1, parent_fork)) };
    ChainBlock::new(ptr(number, fork), parent).unwrap()
}

/// Opens a stream anchored at block 0 of branch `A` and delivers heights
/// `1..=upto` on that branch.
fn stream_with_chain(threshold: u32, upto: u64) -> BlockStream {
    let mut s = BlockStream::open(ptr(0, b'A'), threshold, TriggerFilter::new(vec![])).unwrap();
    for n in 1..=upto {
        match s.process_block(block(n, b'A', b'A')) {
            Ok(StreamEvent::Delivered(d)) => assert_eq!(d.number(), n),
            other => panic!("expected delivery at height {}: {:?}", n, other.is_ok()),
        }
    }
    s
}

#[test]
fn blocks_deliver_in_order() {
    let s = stream_with_chain(5, 10);
    assert_eq!(s.tip().number(), 10);
    assert_eq!(s.retained(), 11);
    assert_eq!(s.buffered(), 0);
}

#[test]
fn block_accessors_derive_from_ptr() {
    let b = block(7, b'A', b'A');
    assert_eq!(b.number(), 7);
    assert_eq!(b.hash(), hash(7, b'A'));
    assert_eq!(b.ptr().number(), 7);
    let parent = b.parent_ptr().unwrap();
    assert_eq!(parent.number(), 6);
    assert!(block(0, b'A', b'A').parent_ptr().is_none());
}

#[test]
fn malformed_blocks_are_rejected() {
    assert!(BlockPtr::new(3, vec![1, 2, 3]).is_none());
    // A parent two heights below violates the data-model invariant.
    assert!(ChainBlock::new(ptr(5, b'A'), Some(ptr(3, b'A'))).is_none());
    // A non-origin block must carry a parent.
    assert!(ChainBlock::new(ptr(5, b'A'), None).is_none());
}

#[test]
fn reorg_within_threshold_rolls_back_to_ancestor() {
    // Heights 1..10 delivered on branch A; a competing block at height 8 on
    // branch B whose ancestry joins A at height 6 (divergence depth 4).
    let mut s = stream_with_chain(4, 10);

    // Competing block at 8: its parent (7, on B) is unknown locally.
    let c8 = block(8, b'B', b'B');
    match s.process_block(c8) {
        Ok(StreamEvent::AwaitingParent(p)) => {
            assert_eq!(p.number(), 7);
            assert_eq!(p.hash_bytes(), &hash(7, b'B'));
        },
        _ => panic!("expected a parent request"),
    }
    assert_eq!(s.buffered(), 1);

    // Block 7 on the new branch: its parent is the canonical block at
    // height 6 — the common ancestor.
    let c7 = block(7, b'B', b'A');
    match s.process_block(c7) {
        Ok(StreamEvent::RolledBack { ancestor, replay }) => {
            assert_eq!(ancestor.number(), 6);
            assert_eq!(ancestor.hash_bytes(), &hash(6, b'A'));
            // Replay re-delivers the competing branch in ascending order.
            let numbers: Vec<u64> = replay.iter().map(|b| b.number()).collect();
            assert_eq!(numbers, vec![7, 8]);
            assert_eq!(replay[0].hash(), hash(7, b'B'));
            assert_eq!(replay[1].hash(), hash(8, b'B'));
        },
        _ => panic!("expected a rollback"),
    }
    assert_eq!(s.buffered(), 0);
    assert_eq!(s.tip().number(), 8);
    assert_eq!(s.tip().hash_bytes(), &hash(8, b'B'));

    // Forward delivery resumes from the new branch.
    match s.process_block(block(9, b'B', b'B')) {
        Ok(StreamEvent::Delivered(d)) => assert_eq!(d.number(), 9),
        _ => panic!("expected delivery on the new branch"),
    }
}

#[test]
fn deep_reorg_fails_fatally() {
    // Same shape, but the threshold is 3 < divergence depth 4. The
    // competing block's parent sits at height 7 and already diverges, so
    // the true ancestor lies 4 or more behind the tip: fatal at once.
    let mut s = stream_with_chain(3, 10);
    match s.process_block(block(8, b'B', b'B')) {
        Err(StreamError::DeepReorg { tip_number, divergence_bound }) => {
            assert_eq!(tip_number, 10);
            assert_eq!(divergence_bound, 7);
        },
        _ => panic!("expected a fatal deep reorg"),
    }
    // Fatal: the stream is stopped for good.
    assert_eq!(s.buffered(), 0);
    assert!(matches!(s.process_block(block(11, b'A', b'A')), Err(StreamError::Stopped)));
}

#[test]
fn immediate_deep_reorg_is_rejected() {
    // A competing block whose parent already lies more than `threshold`
    // blocks behind the tip fails at once.
    let mut s = stream_with_chain(2, 10);
    match s.process_block(block(5, b'B', b'B')) {
        Err(StreamError::DeepReorg { tip_number, divergence_bound }) => {
            assert_eq!(tip_number, 10);
            assert_eq!(divergence_bound, 4);
        },
        _ => panic!("expected a fatal deep reorg"),
    }
}

#[test]
fn delivered_blocks_are_parent_linked() {
    // Every delivered block after the first extends the block delivered
    // before it, unless a rollback comes between them.
    let mut s = BlockStream::open(ptr(0, b'A'), 5, TriggerFilter::new(vec![])).unwrap();
    let mut last_delivered: Option<BlockPtr> = None;
    let feed = vec![
        block(1, b'A', b'A'),
        block(2, b'A', b'A'),
        block(3, b'A', b'A'),
        block(3, b'B', b'A'), // competing sibling at 3, parent = canonical 2
        block(4, b'B', b'B'),
    ];
    for b in feed {
        match s.process_block(b) {
            Ok(StreamEvent::Delivered(d)) => {
                if let Some(prev) = &last_delivered {
                    assert!(d.parent_ptr().unwrap().ptr_eq(prev));
                }
                last_delivered = Some(d.ptr());
            },
            Ok(StreamEvent::RolledBack { ancestor, replay }) => {
                // The first replayed block links to the announced ancestor,
                // later ones to their predecessor in the replay.
                let mut prev = ancestor;
                for d in &replay {
                    assert!(d.parent_ptr().unwrap().ptr_eq(&prev));
                    prev = d.ptr();
                }
                last_delivered = Some(prev);
            },
            Ok(StreamEvent::AwaitingParent(_)) => {},
            Err(e) => panic!("unexpected stream error: {:?}", e),
        }
    }
    assert_eq!(s.tip().number(), 4);
    assert_eq!(s.tip().hash_bytes(), &hash(4, b'B'));
}

#[test]
fn lookahead_is_bounded_by_threshold() {
    // The stream buffers at most threshold + 1 blocks and asks for exactly
    // one parent per consumer call: it never runs ahead of the consumer.
    let threshold = 4u32;
    let mut s = stream_with_chain(threshold, 10);
    let mut n = 10u64;
    let mut c = block(n, b'B', b'B');
    loop {
        match s.process_block(c) {
            Ok(StreamEvent::AwaitingParent(p)) => {
                assert!(s.buffered() <= threshold as usize + 1);
                n = p.number();
                c = block(n, b'B', b'B');
            },
            Err(StreamError::DeepReorg { .. }) => break,
            _ => panic!("expected parent requests ending in a deep reorg"),
        }
    }
    assert!(n >= 6);
}

#[test]
fn non_sequential_block_is_rejected() {
    let mut s = stream_with_chain(3, 4);
    match s.process_block(block(6, b'A', b'A')) {
        Err(StreamError::NonSequential { tip_number, got_number }) => {
            assert_eq!(tip_number, 4);
            assert_eq!(got_number, 6);
        },
        _ => panic!("expected a sequencing error"),
    }
    // Not fatal: the next block still delivers.
    assert!(matches!(s.process_block(block(5, b'A', b'A')), Ok(StreamEvent::Delivered(_))));
}

#[test]
fn unexpected_block_during_resolution_is_rejected() {
    let mut s = stream_with_chain(4, 10);
    assert!(matches!(
        s.process_block(block(8, b'B', b'B')),
        Ok(StreamEvent::AwaitingParent(_))
    ));
    // The stream asked for (7, B) but gets an unrelated block.
    assert!(matches!(s.process_block(block(5, b'A', b'A')), Err(StreamError::UnexpectedBlock)));
    // The right parent is still accepted afterwards.
    assert!(matches!(
        s.process_block(block(7, b'B', b'A')),
        Ok(StreamEvent::RolledBack { .. })
    ));
}

#[test]
fn ancestor_beyond_retention_is_fatal() {
    // A stream opened at height 100 retains nothing below it.
    let mut s = BlockStream::open(ptr(100, b'A'), 50, TriggerFilter::new(vec![])).unwrap();
    match s.process_block(block(100, b'B', b'B')) {
        Err(StreamError::BeyondRetention { number }) => assert_eq!(number, 99),
        _ => panic!("expected a retention failure"),
    }
    assert!(matches!(s.process_block(block(101, b'A', b'A')), Err(StreamError::Stopped)));
}

#[test]
fn competing_block_without_parent_is_fatal() {
    let mut s = BlockStream::open(ptr(0, b'A'), 3, TriggerFilter::new(vec![])).unwrap();
    // A competing origin block can never name a common ancestor.
    let rival = ChainBlock::new(ptr(0, b'B'), None).unwrap();
    match s.process_block(rival) {
        Err(StreamError::MissingParent { number }) => assert_eq!(number, 0),
        _ => panic!("expected a missing-parent failure"),
    }
    assert!(matches!(s.process_block(block(1, b'A', b'A')), Err(StreamError::Stopped)));
}

#[test]
fn compact_bounds_retention() {
    let mut s = stream_with_chain(3, 10);
    assert_eq!(s.retained(), 11);
    s.compact(5);
    assert_eq!(s.retained(), 5);
    assert_eq!(s.tip().number(), 10);
    // A reorg within the threshold still resolves after compaction.
    match s.process_block(block(9, b'B', b'A')) {
        Ok(StreamEvent::RolledBack { ancestor, replay }) => {
            assert_eq!(ancestor.number(), 8);
            assert_eq!(replay.len(), 1);
        },
        _ => panic!("expected a rollback"),
    }
    // Delivery continues normally on the compacted chain.
    assert!(matches!(s.process_block(block(10, b'B', b'B')), Ok(StreamEvent::Delivered(_))));
    assert_eq!(s.tip().number(), 10);
}

#[test]
fn stop_discards_buffered_branch() {
    let mut s = stream_with_chain(4, 10);
    assert!(matches!(
        s.process_block(block(8, b'B', b'B')),
        Ok(StreamEvent::AwaitingParent(_))
    ));
    assert_eq!(s.buffered(), 1);
    s.stop();
    assert_eq!(s.buffered(), 0);
    assert_eq!(s.tip().number(), 10);
    assert!(matches!(s.process_block(block(11, b'A', b'A')), Err(StreamError::Stopped)));
}

#[test]
fn open_succeeds_on_valid_head() {
    let head = BlockPtr::new(0, hash(0, b'A')).unwrap();
    assert!(BlockStream::open(head, 3, TriggerFilter::new(vec![])).is_ok());
}

#[test]
fn descriptor_opens_stream_with_its_threshold() {
    let chain = ChainDescriptor::new("mainnet".to_string(), 7, Vec::new());
    assert_eq!(chain.reorg_threshold(), 7);
    let s = chain.new_block_stream(ptr(0, b'A'), TriggerFilter::new(vec![5])).unwrap();
    assert_eq!(s.reorg_threshold(), 7);
}

#[test]
fn adapter_selection_respects_capabilities() {
    let plain = AdapterVariant {
        capabilities: NodeCapabilities { archive: false, traces: false },
    };
    let archive = AdapterVariant {
        capabilities: NodeCapabilities { archive: true, traces: false },
    };
    let full = AdapterVariant { capabilities: NodeCapabilities { archive: true, traces: true } };
    let chain = ChainDescriptor::new("mainnet".to_string(), 5, vec![plain, archive, full]);

    let none_needed = NodeCapabilities { archive: false, traces: false };
    assert_eq!(chain.triggers_adapter("mainnet", &none_needed), Some(plain));
    assert_eq!(chain.triggers_adapter("testnet", &none_needed), None);

    let needs_archive = NodeCapabilities { archive: true, traces: false };
    assert_eq!(chain.triggers_adapter("mainnet", &needs_archive), Some(archive));

    let needs_both = NodeCapabilities { archive: true, traces: true };
    assert_eq!(chain.triggers_adapter("mainnet", &needs_both), Some(full));

    let poor = ChainDescriptor::new("mainnet".to_string(), 5, vec![plain]);
    assert_eq!(poor.triggers_adapter("mainnet", &needs_both), None);
}

#[test]
fn trigger_filter_keeps_matching_kinds_in_order() {
    let filter = TriggerFilter::new(vec![2, 5]);
    let triggers = vec![
        TriggerData { kind: 2, payload: vec![10] },
        TriggerData { kind: 3, payload: vec![11] },
        TriggerData { kind: 5, payload: vec![12] },
        TriggerData { kind: 2, payload: vec![13] },
        TriggerData { kind: 9, payload: vec![] },
    ];
    let kept = filter_triggers(&triggers, &filter);
    let kinds: Vec<u64> = kept.iter().map(|t| t.kind).collect();
    assert_eq!(kinds, vec![2, 5, 2]);
    assert_eq!(kept[0].payload, vec![10]);
    assert_eq!(kept[1].payload, vec![12]);
    assert_eq!(kept[2].payload, vec![13]);
    assert!(filter.matches(5));
    assert!(!filter.matches(4));
}
