//! The capability contract every chain's block representation satisfies, and
//! the chain-agnostic block value the stream works on.

use vstd::prelude::*;
use crate::block_ptr::{BlockPtr, BlockPtrView, copy_opt_ptr, HASH_LENGTH};

verus! {

/// The mathematical value of a block: its identity and its parent's.
#[verifier::ext_equal]
pub struct ChainBlockView {
    pub ptr: BlockPtrView,
    pub parent: Option<BlockPtrView>,
}

impl ChainBlockView {
    /// Data-model invariant: hashes have the fixed length, the parent sits
    /// exactly one height below, and only the origin block lacks a parent.
    pub open spec fn wf(self) -> bool {
        &&& self.ptr.wf()
        &&& match self.parent {
            Some(p) => p.wf() && self.ptr.number >= 1 && p.number == self.ptr.number - 1,
            None => self.ptr.number == 0,
        }
    }
}

/// Capability contract for chain-specific block representations: a self
/// pointer, a parent pointer (absent only for the origin block), and the
/// height and hash derived from the self pointer.
pub trait Block: Sized {
    /// The block's identity.
    spec fn ptr_view(&self) -> BlockPtrView;

    /// The parent's identity, absent only for the origin block.
    spec fn parent_view(&self) -> Option<BlockPtrView>;

    /// The block's identity.
    fn ptr(&self) -> (p: BlockPtr)
        ensures
            p@ == self.ptr_view(),
    ;

    /// The parent's identity, absent only for the origin block.
    fn parent_ptr(&self) -> (p: Option<BlockPtr>)
        ensures
            match p {
                Some(q) => self.parent_view() == Some(q@),
                None => self.parent_view() is None,
            },
    ;

    /// The height, derived from the self pointer.
    fn number(&self) -> (n: u64)
        ensures
            n == self.ptr_view().number,
    ;

    /// The hash, derived from the self pointer.
    fn hash(&self) -> (h: Vec<u8>)
        ensures
            h@ == self.ptr_view().hash,
    ;
}

/// A chain-agnostic block value: what the block stream tracks of any chain's
/// block. Chain-specific representations convert into this.
pub struct ChainBlock {
    ptr: BlockPtr,
    parent: Option<BlockPtr>,
}

impl View for ChainBlock {
    type V = ChainBlockView;

    closed spec fn view(&self) -> ChainBlockView {
        ChainBlockView {
            ptr: self.ptr@,
            parent: match self.parent {
                Some(p) => Some(p@),
                None => None,
            },
        }
    }
}

impl ChainBlock {
    /// Builds a block, rejecting one that violates the data-model invariant
    /// (wrong hash length, or a parent not exactly one height below).
    pub fn new(ptr: BlockPtr, parent: Option<BlockPtr>) -> (r: Option<ChainBlock>)
        ensures
            r matches Some(b) ==> b@ == (ChainBlockView {
                ptr: ptr@,
                parent: match parent {
                    Some(p) => Some(p@),
                    None => None,
                },
            }) && b@.wf(),
            r is None ==> !(ChainBlockView {
                ptr: ptr@,
                parent: match parent {
                    Some(p) => Some(p@),
                    None => None,
                },
            }).wf(),
    {
        let ok = match &parent {
            Some(p) => ptr.number() >= 1 && p.number() == ptr.number() - 1 && p.hash_bytes().len()
                == HASH_LENGTH,
            None => ptr.number() == 0,
        };
        if ok && ptr.hash_bytes().len() == HASH_LENGTH {
            Some(ChainBlock { ptr, parent })
        } else {
            None
        }
    }
}

impl ChainBlock {
    /// Borrows the block's identity.
    pub fn self_ptr(&self) -> (p: &BlockPtr)
        ensures
            p@ == self@.ptr,
    {
        &self.ptr
    }

    /// Borrows the parent's identity, absent only for the origin block.
    pub fn parent_ref(&self) -> (p: Option<&BlockPtr>)
        ensures
            match p {
                Some(q) => self@.parent == Some(q@),
                None => self@.parent is None,
            },
    {
        match &self.parent {
            Some(q) => Some(q),
            None => None,
        }
    }
}

impl Block for ChainBlock {
    open spec fn ptr_view(&self) -> BlockPtrView {
        self@.ptr
    }

    open spec fn parent_view(&self) -> Option<BlockPtrView> {
        self@.parent
    }

    fn ptr(&self) -> (p: BlockPtr) {
        self.ptr.clone()
    }

    fn parent_ptr(&self) -> (p: Option<BlockPtr>) {
        copy_opt_ptr(&self.parent)
    }

    fn number(&self) -> (n: u64) {
        self.ptr.number()
    }

    fn hash(&self) -> (h: Vec<u8>) {
        crate::block_ptr::copy_bytes(self.ptr.hash_bytes())
    }
}

impl Clone for ChainBlock {
    fn clone(&self) -> (r: Self)
        ensures
            r@ == self@,
    {
        ChainBlock { ptr: self.ptr.clone(), parent: copy_opt_ptr(&self.parent) }
    }
}

} // verus!
