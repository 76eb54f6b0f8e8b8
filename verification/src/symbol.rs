//! Symbols: interned names.

use vstd::prelude::*;
use vstd::pervasive::unreached;
use crate::mutator_view::MutatorView;
use crate::allocation::{AllocObject, HeapData, ArraySize};
use crate::codec::{get_u64, lemma_u64_round_trip, put_u64, u64_at, u64_le};
use crate::type_list::TypeList;

verus! {

/// A name that has been interned: where the name is kept, and its
/// length in bytes. Two symbols are the same name if and only if they
/// are the same object.
#[derive(Copy, Clone, Debug, PartialEq, Eq, Structural)]
pub struct Symbol {
    name_ptr: usize,
    name_len: usize,
}

/// The number of bytes that a `Symbol` takes up.
pub const SYMBOL_SIZE: ArraySize = 16;

impl Symbol {
    /// The place of the name in the table of names of the symbol map.
    pub closed spec fn name_ptr(self) -> usize {
        self.name_ptr
    }

    /// The length of the name in bytes.
    pub closed spec fn name_len(self) -> usize {
        self.name_len
    }

    /// The symbol with these two fields.
    pub closed spec fn with(name_ptr: usize, name_len: usize) -> Symbol {
        Symbol { name_ptr, name_len }
    }

    /// A symbol is made of its two fields.
    pub broadcast proof fn lemma_with(name_ptr: usize, name_len: usize)
        ensures
            (#[trigger] Self::with(name_ptr, name_len)).name_ptr() == name_ptr,
            Self::with(name_ptr, name_len).name_len() == name_len,
    {
    }

    /// A symbol is made of its two fields.
    pub broadcast proof fn lemma_fields(self)
        ensures
            #[trigger] Self::with(self.name_ptr(), self.name_len()) == self,
    {
    }

    /// The symbol whose name is kept at the place `name_ptr` and is `name_len` bytes long.
    pub fn new(name_ptr: usize, name_len: usize) -> (symbol: Symbol)
        ensures
            symbol == Self::with(name_ptr, name_len),
    {
        Symbol { name_ptr, name_len }
    }

    /// The place of the name in the table of names of the symbol map.
    pub fn name_index(&self) -> (index: usize)
        ensures
            index == self.name_ptr(),
    {
        self.name_ptr
    }

    /// The length of the name in bytes.
    pub fn len(&self) -> (len: usize)
        ensures
            len == self.name_len(),
    {
        self.name_len
    }

    /// The name of the symbol, read within the scope of `guard`.
    pub fn as_str<'guard>(&self, guard: &'guard MutatorView) -> (name: &'guard str)
        requires
            self.name_ptr() < guard.mem().symbols().names().len(),
        ensures
            name@ == guard.mem().symbols().names()[self.name_ptr() as int],
    {
        match guard.heap.symbol_map().name(self.name_ptr) {
            Some(name) => name,
            None => unreached(),
        }
    }
}

impl HeapData for Symbol {
    open spec fn spec_size() -> ArraySize {
        SYMBOL_SIZE
    }

    open spec fn spec_bytes(&self) -> Seq<u8> {
        u64_le(self.name_ptr() as u64) + u64_le(self.name_len() as u64)
    }

    open spec fn spec_from_bytes(bytes: Seq<u8>) -> Option<Symbol> {
        if bytes.len() == SYMBOL_SIZE && u64_at(bytes, 0) <= usize::MAX && u64_at(bytes, 8)
            <= usize::MAX {
            Some(Symbol::with(u64_at(bytes, 0) as usize, u64_at(bytes, 8) as usize))
        } else {
            None
        }
    }

    fn object_size() -> (size: ArraySize) {
        SYMBOL_SIZE
    }

    fn to_bytes(&self) -> (bytes: Vec<u8>) {
        let mut bytes: Vec<u8> = Vec::new();
        put_u64(&mut bytes, self.name_ptr as u64);
        put_u64(&mut bytes, self.name_len as u64);
        bytes
    }

    fn from_bytes(bytes: &Vec<u8>) -> (object: Option<Symbol>) {
        if bytes.len() != SYMBOL_SIZE as usize {
            return None;
        }
        let name_ptr: u64 = get_u64(bytes, 0);
        let name_len: u64 = get_u64(bytes, 8);
        if name_ptr > usize::MAX as u64 || name_len > usize::MAX as u64 {
            return None;
        }
        Some(Symbol { name_ptr: name_ptr as usize, name_len: name_len as usize })
    }

    proof fn lemma_size() {
    }

    proof fn lemma_round_trip(&self) {
        let bytes = self.spec_bytes();
        assert(bytes.subrange(0, 8) =~= u64_le(self.name_ptr() as u64));
        assert(bytes.subrange(8, 16) =~= u64_le(self.name_len() as u64));
        lemma_u64_round_trip(self.name_ptr() as u64, bytes, 0);
        lemma_u64_round_trip(self.name_len() as u64, bytes, 8);
    }
}

impl AllocObject<TypeList> for Symbol {
    open spec fn spec_type_id() -> TypeList {
        TypeList::Symbol
    }

    fn type_id() -> (id: TypeList) {
        TypeList::Symbol
    }
}

} // verus!
