//! Pairs: the cells of lists.

use vstd::prelude::*;
use crate::allocation::{AllocHeader, AllocObject, HeapData, ArraySize, RawPtr, Tagged};
use crate::codec::{
    get_u32, get_u64, lemma_u32_round_trip, lemma_u64_round_trip, put_u32, put_u64, u32_at, u32_le,
    u64_at, u64_le,
};
use crate::errors::RuntimeError;
use crate::fat_ptr::FatPtr;
use crate::heap::{as_alloc_result, header_for, is_alloc_error};
use crate::mutator_view::MutatorView;
use crate::ptrs::{TaggedCellPtr, TaggedScopedPtr};
use crate::sticky_immix_heap::alloc_spec;
use crate::tagged_ptr::TaggedPtr;
use crate::token::SourcePos;
use crate::type_list::TypeList;

verus! {

/// Two tagged pointers, each with the place in the source that its value
/// came from, if that is known.
#[derive(Copy, Clone, Debug, PartialEq, Eq, Structural)]
pub struct Pair {
    pub first: TaggedCellPtr,
    pub second: TaggedCellPtr,
    pub first_pos: Option<SourcePos>,
    pub second_pos: Option<SourcePos>,
}

/// The number of bytes that a `Pair` takes up.
pub const PAIR_SIZE: ArraySize = 40;

/// The twelve bytes that stand for a source position that may be unknown:
/// whether it is known, its line and its column, four bytes each.
pub open spec fn pos_bytes(pos: Option<SourcePos>) -> Seq<u8> {
    match pos {
        Some(pos) => u32_le(1) + u32_le(pos.line) + u32_le(pos.column),
        None => u32_le(0) + u32_le(0) + u32_le(0),
    }
}

/// The source position that the twelve bytes of `bytes` from the index
/// `at` on stand for, if they stand for one or for an unknown one.
pub open spec fn pos_at(bytes: Seq<u8>, at: int) -> Option<Option<SourcePos>> {
    if u32_at(bytes, at) == 0 {
        Some(None)
    } else if u32_at(bytes, at) == 1 {
        Some(Some(SourcePos { line: u32_at(bytes, at + 4), column: u32_at(bytes, at + 8) }))
    } else {
        None
    }
}

/// A source position is read back from its bytes, wherever they stand in a sequence.
pub proof fn lemma_pos_round_trip(pos: Option<SourcePos>, bytes: Seq<u8>, at: int)
    requires
        0 <= at,
        at + 12 <= bytes.len(),
        bytes.subrange(at, at + 12) == pos_bytes(pos),
    ensures
        pos_at(bytes, at) == Some(pos),
{
    let part = bytes.subrange(at, at + 12);
    assert(bytes.subrange(at, at + 4) =~= part.subrange(0, 4));
    assert(bytes.subrange(at + 4, at + 8) =~= part.subrange(4, 8));
    assert(bytes.subrange(at + 8, at + 12) =~= part.subrange(8, 12));
    match pos {
        Some(pos) => {
            assert(part.subrange(0, 4) =~= u32_le(1));
            assert(part.subrange(4, 8) =~= u32_le(pos.line));
            assert(part.subrange(8, 12) =~= u32_le(pos.column));
            lemma_u32_round_trip(1, bytes, at);
            lemma_u32_round_trip(pos.line, bytes, at + 4);
            lemma_u32_round_trip(pos.column, bytes, at + 8);
        },
        None => {
            assert(part.subrange(0, 4) =~= u32_le(0));
            lemma_u32_round_trip(0, bytes, at);
        },
    }
}

/// Appends the bytes of a source position that may be unknown to `out`.
fn put_pos(out: &mut Vec<u8>, pos: Option<SourcePos>)
    ensures
        final(out)@ == old(out)@ + pos_bytes(pos),
{
    match pos {
        Some(pos) => {
            put_u32(out, 1);
            put_u32(out, pos.line);
            put_u32(out, pos.column);
            assert(out@ =~= old(out)@ + pos_bytes(Some(pos)));
        },
        None => {
            put_u32(out, 0);
            put_u32(out, 0);
            put_u32(out, 0);
            assert(out@ =~= old(out)@ + pos_bytes(None));
        },
    }
}

/// Reads a source position that may be unknown from the twelve bytes of
/// `bytes` from the index `at` on.
fn get_pos(bytes: &Vec<u8>, at: usize) -> (pos: Option<Option<SourcePos>>)
    requires
        at + 12 <= bytes.len(),
    ensures
        pos == pos_at(bytes@, at as int),
{
    let known: u32 = get_u32(bytes, at);
    if known == 0 {
        Some(None)
    } else if known == 1 {
        Some(Some(SourcePos::new(get_u32(bytes, at + 4), get_u32(bytes, at + 8))))
    } else {
        None
    }
}

impl Pair {
    /// A pair of two nils, with no source positions.
    pub open spec fn empty() -> Pair {
        Pair {
            first: TaggedCellPtr::of(TaggedPtr::of_word(0)),
            second: TaggedCellPtr::of(TaggedPtr::of_word(0)),
            first_pos: None,
            second_pos: None,
        }
    }

    /// A pair of two nils, with no source positions.
    pub fn new() -> (pair: Pair)
        ensures
            pair == Self::empty(),
    {
        Pair {
            first: TaggedCellPtr::new_nil(),
            second: TaggedCellPtr::new_nil(),
            first_pos: None,
            second_pos: None,
        }
    }

    /// Allocates a new pair whose first value is `value`, makes it the
    /// second value of this pair, and returns it. If the allocation
    /// fails, this pair is left as it was.
    pub fn append<'guard>(
        &mut self,
        mem: &mut MutatorView<'guard>,
        value: TaggedScopedPtr<'guard>,
    ) -> (r: Result<TaggedScopedPtr<'guard>, RuntimeError>)
        requires
            old(mem).wf(),
        ensures
            final(mem).wf(),
            *final(final(mem).heap) == *final(old(mem).heap),
            final(mem).mem().symbols() == old(mem).mem().symbols(),
            final(self).first == old(self).first,
            final(self).first_pos == old(self).first_pos,
            final(self).second_pos == old(self).second_pos,
            match r {
                Ok(pair) => {
                    let ptr = RawPtr::spec_untag(pair.tagged().word());
                    &&& final(self).second.tagged() == pair.tagged()
                    &&& pair.fat() == FatPtr::Pair(ptr)
                    &&& pair.tagged() == TaggedPtr::of_fat(FatPtr::Pair(ptr))
                    &&& alloc_spec(
                        old(mem).mem().storage().blocks(),
                        final(mem).mem().storage().blocks(),
                        header_for::<Pair>().spec_bytes(),
                        (Pair { first: TaggedCellPtr::of(value.tagged()), ..Pair::empty() }).spec_bytes(),
                        Ok(ptr),
                    )
                },
                Err(e) => {
                    &&& final(self).second == old(self).second
                    &&& is_alloc_error(e)
                    &&& alloc_spec(
                        old(mem).mem().storage().blocks(),
                        final(mem).mem().storage().blocks(),
                        header_for::<Pair>().spec_bytes(),
                        (Pair { first: TaggedCellPtr::of(value.tagged()), ..Pair::empty() }).spec_bytes(),
                        as_alloc_result::<RawPtr>(Err(e)),
                    )
                },
            },
    {
        let mut pair = Pair::new();
        pair.first.set(value);
        proof {
            TaggedCellPtr::lemma_tagged(pair.first);
        }
        let pair = match mem.alloc_tagged(pair) {
            Ok(pair) => pair,
            Err(e) => { return Err(e); },
        };
        self.second.set(pair);
        Ok(pair)
    }

    /// Makes `value` the second value of this pair.
    pub fn dot<'guard>(&mut self, value: TaggedScopedPtr<'guard>)
        ensures
            final(self).second.tagged() == value.tagged(),
            final(self).first == old(self).first,
            final(self).first_pos == old(self).first_pos,
            final(self).second_pos == old(self).second_pos,
    {
        self.second.set(value);
    }
}

impl HeapData for Pair {
    open spec fn spec_size() -> ArraySize {
        PAIR_SIZE
    }

    open spec fn spec_bytes(&self) -> Seq<u8> {
        u64_le(self.first.tagged().word() as u64) + u64_le(self.second.tagged().word() as u64)
            + pos_bytes(self.first_pos) + pos_bytes(self.second_pos)
    }

    open spec fn spec_from_bytes(bytes: Seq<u8>) -> Option<Pair> {
        if bytes.len() == PAIR_SIZE && u64_at(bytes, 0) <= usize::MAX && u64_at(bytes, 8)
            <= usize::MAX {
            match (pos_at(bytes, 16), pos_at(bytes, 28)) {
                (Some(first_pos), Some(second_pos)) => Some(
                    Pair {
                        first: TaggedCellPtr::of(TaggedPtr::of_word(u64_at(bytes, 0) as usize)),
                        second: TaggedCellPtr::of(TaggedPtr::of_word(u64_at(bytes, 8) as usize)),
                        first_pos,
                        second_pos,
                    },
                ),
                _ => None,
            }
        } else {
            None
        }
    }

    fn object_size() -> (size: ArraySize) {
        PAIR_SIZE
    }

    fn to_bytes(&self) -> (bytes: Vec<u8>) {
        let mut bytes: Vec<u8> = Vec::new();
        put_u64(&mut bytes, self.first.get_ptr().as_word() as u64);
        put_u64(&mut bytes, self.second.get_ptr().as_word() as u64);
        put_pos(&mut bytes, self.first_pos);
        put_pos(&mut bytes, self.second_pos);
        bytes
    }

    fn from_bytes(bytes: &Vec<u8>) -> (object: Option<Pair>) {
        if bytes.len() != PAIR_SIZE as usize {
            return None;
        }
        let first: u64 = get_u64(bytes, 0);
        let second: u64 = get_u64(bytes, 8);
        if first > usize::MAX as u64 || second > usize::MAX as u64 {
            return None;
        }
        let first_pos: Option<SourcePos> = match get_pos(bytes, 16) {
            Some(pos) => pos,
            None => { return None; },
        };
        let second_pos: Option<SourcePos> = match get_pos(bytes, 28) {
            Some(pos) => pos,
            None => { return None; },
        };
        Some(
            Pair {
                first: TaggedCellPtr::new_ptr(TaggedPtr::from_word(first as usize)),
                second: TaggedCellPtr::new_ptr(TaggedPtr::from_word(second as usize)),
                first_pos,
                second_pos,
            },
        )
    }

    proof fn lemma_size() {
    }

    #[verifier::rlimit(30)]
    proof fn lemma_round_trip(&self) {
        let bytes = self.spec_bytes();
        assert(bytes.subrange(0, 8) =~= u64_le(self.first.tagged().word() as u64));
        assert(bytes.subrange(8, 16) =~= u64_le(self.second.tagged().word() as u64));
        assert(bytes.subrange(16, 28) =~= pos_bytes(self.first_pos));
        assert(bytes.subrange(28, 40) =~= pos_bytes(self.second_pos));
        lemma_u64_round_trip(self.first.tagged().word() as u64, bytes, 0);
        lemma_u64_round_trip(self.second.tagged().word() as u64, bytes, 8);
        lemma_pos_round_trip(self.first_pos, bytes, 16);
        lemma_pos_round_trip(self.second_pos, bytes, 28);
        TaggedPtr::lemma_of_word(self.first.tagged());
        TaggedPtr::lemma_of_word(self.second.tagged());
        TaggedCellPtr::lemma_tagged(self.first);
        TaggedCellPtr::lemma_tagged(self.second);
    }
}

impl AllocObject<TypeList> for Pair {
    open spec fn spec_type_id() -> TypeList {
        TypeList::Pair
    }

    fn type_id() -> (id: TypeList) {
        TypeList::Pair
    }
}

} // verus!
