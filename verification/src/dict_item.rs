//! The entries of a dictionary.

use vstd::prelude::*;
use crate::allocation::{ArraySize, HeapData};
use crate::codec::{get_u64, lemma_u64_round_trip, put_u64, u64_at, u64_le};
use crate::ptrs::TaggedCellPtr;
use crate::tagged_ptr::TaggedPtr;

verus! {

/// The hash of an entry whose key has been removed.
pub const TOMBSTONE: u64 = 1;

/// An entry of a dictionary: a key, the value that goes with it, and the
/// hash of the key.
#[derive(Copy, Clone, Debug, PartialEq, Eq, Structural)]
pub struct DictItem {
    key: TaggedCellPtr,
    value: TaggedCellPtr,
    hash: u64,
}

/// The number of bytes that a `DictItem` takes up.
pub const DICT_ITEM_SIZE: ArraySize = 24;

impl DictItem {
    /// The key.
    pub closed spec fn key(self) -> TaggedCellPtr {
        self.key
    }

    /// The value.
    pub closed spec fn value(self) -> TaggedCellPtr {
        self.value
    }

    /// The hash of the key.
    pub closed spec fn hash(self) -> u64 {
        self.hash
    }

    /// The entry with these three parts.
    pub closed spec fn with(key: TaggedCellPtr, value: TaggedCellPtr, hash: u64) -> DictItem {
        DictItem { key, value, hash }
    }

    /// An entry is its three parts, and nothing else.
    pub broadcast proof fn lemma_with(key: TaggedCellPtr, value: TaggedCellPtr, hash: u64)
        ensures
            (#[trigger] Self::with(key, value, hash)).key() == key,
            Self::with(key, value, hash).value() == value,
            Self::with(key, value, hash).hash() == hash,
    {
    }

    /// An entry is its three parts, and nothing else.
    pub broadcast proof fn lemma_parts(self)
        ensures
            #[trigger] Self::with(self.key(), self.value(), self.hash()) == self,
    {
    }

    /// The entry that has never been used: no key, no value, and the hash zero.
    pub open spec fn spec_blank() -> DictItem {
        Self::with(
            TaggedCellPtr::of(TaggedPtr::of_word(0)),
            TaggedCellPtr::of(TaggedPtr::of_word(0)),
            0,
        )
    }

    /// Whether the entry has no key.
    pub open spec fn vacant(self) -> bool {
        self.key().tagged().word() == 0
    }

    /// Whether the entry has never been used.
    pub open spec fn is_blank(self) -> bool {
        self.vacant() && self.hash() == 0
    }

    /// Whether the entry had a key that has been removed.
    pub open spec fn is_tombstone(self) -> bool {
        self.hash() == TOMBSTONE && self.vacant()
    }

    /// Whether a search for `hash` ends at the entry: it is no tombstone,
    /// and it has that hash or no key.
    pub open spec fn stops(self, hash: u64) -> bool {
        !self.is_tombstone() && (self.hash() == hash || self.vacant())
    }

    /// The entry that has never been used.
    pub fn blank() -> (item: DictItem)
        ensures
            item == Self::spec_blank(),
            item.is_blank(),
    {
        proof {
            TaggedPtr::lemma_word(0);
            TaggedCellPtr::lemma_of(TaggedPtr::of_word(0));
        }
        DictItem { key: TaggedCellPtr::new_nil(), value: TaggedCellPtr::new_nil(), hash: 0 }
    }

    /// The entry with these three parts.
    pub fn new(key: TaggedCellPtr, value: TaggedCellPtr, hash: u64) -> (item: DictItem)
        ensures
            item == Self::with(key, value, hash),
    {
        DictItem { key, value, hash }
    }

    /// The key.
    pub fn get_key(&self) -> (key: TaggedCellPtr)
        ensures
            key == self.key(),
    {
        self.key
    }

    /// The value.
    pub fn get_value(&self) -> (value: TaggedCellPtr)
        ensures
            value == self.value(),
    {
        self.value
    }

    /// The hash of the key.
    pub fn get_hash(&self) -> (hash: u64)
        ensures
            hash == self.hash(),
    {
        self.hash
    }
}

impl HeapData for DictItem {
    open spec fn spec_size() -> ArraySize {
        DICT_ITEM_SIZE
    }

    open spec fn spec_bytes(&self) -> Seq<u8> {
        u64_le(self.key().tagged().word() as u64) + u64_le(self.value().tagged().word() as u64)
            + u64_le(self.hash())
    }

    open spec fn spec_from_bytes(bytes: Seq<u8>) -> Option<DictItem> {
        if bytes.len() == DICT_ITEM_SIZE && u64_at(bytes, 0) <= usize::MAX && u64_at(bytes, 8)
            <= usize::MAX {
            Some(
                DictItem::with(
                    TaggedCellPtr::of(TaggedPtr::of_word(u64_at(bytes, 0) as usize)),
                    TaggedCellPtr::of(TaggedPtr::of_word(u64_at(bytes, 8) as usize)),
                    u64_at(bytes, 16),
                ),
            )
        } else {
            None
        }
    }

    fn object_size() -> (size: ArraySize) {
        DICT_ITEM_SIZE
    }

    fn to_bytes(&self) -> (bytes: Vec<u8>) {
        let mut bytes: Vec<u8> = Vec::new();
        put_u64(&mut bytes, self.key.get_ptr().as_word() as u64);
        put_u64(&mut bytes, self.value.get_ptr().as_word() as u64);
        put_u64(&mut bytes, self.hash);
        bytes
    }

    fn from_bytes(bytes: &Vec<u8>) -> (object: Option<DictItem>) {
        if bytes.len() != DICT_ITEM_SIZE as usize {
            return None;
        }
        let key: u64 = get_u64(bytes, 0);
        let value: u64 = get_u64(bytes, 8);
        if key > usize::MAX as u64 || value > usize::MAX as u64 {
            return None;
        }
        Some(
            DictItem {
                key: TaggedCellPtr::new_ptr(TaggedPtr::from_word(key as usize)),
                value: TaggedCellPtr::new_ptr(TaggedPtr::from_word(value as usize)),
                hash: get_u64(bytes, 16),
            },
        )
    }

    proof fn lemma_size() {
    }

    proof fn lemma_round_trip(&self) {
        let bytes = self.spec_bytes();
        assert(bytes.subrange(0, 8) =~= u64_le(self.key().tagged().word() as u64));
        assert(bytes.subrange(8, 16) =~= u64_le(self.value().tagged().word() as u64));
        assert(bytes.subrange(16, 24) =~= u64_le(self.hash()));
        lemma_u64_round_trip(self.key().tagged().word() as u64, bytes, 0);
        lemma_u64_round_trip(self.value().tagged().word() as u64, bytes, 8);
        lemma_u64_round_trip(self.hash(), bytes, 16);
        TaggedPtr::lemma_of_word(self.key().tagged());
        TaggedPtr::lemma_of_word(self.value().tagged());
        TaggedCellPtr::lemma_tagged(self.key());
        TaggedCellPtr::lemma_tagged(self.value());
        DictItem::lemma_parts(*self);
    }
}

/// Bytes that are all zero stand for the entry that has never been used.
pub proof fn lemma_zeros_are_blank(bytes: Seq<u8>)
    requires
        bytes.len() == DICT_ITEM_SIZE,
        forall|i: int| 0 <= i < bytes.len() ==> bytes[i] == 0,
    ensures
        DictItem::spec_from_bytes(bytes) == Some(DictItem::spec_blank()),
{
}

} // verus!
