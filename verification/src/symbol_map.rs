//! The table of interned names.

use vstd::prelude::*;
use vstd::pervasive::unreached;
use vstd::utf8::encode_utf8;
use crate::allocation::{HeapData, RawPtr};
use crate::arena::Arena;
use crate::block_list::BlockList;
use crate::constants::WORD_SIZE;
use crate::sticky_immix_heap::{alloc_spec, lemma_alloc_keeps, lemma_stored_reads};
use crate::symbol::{Symbol, SYMBOL_SIZE};

verus! {

/// The names that have been interned, each with the pointer to its
/// symbol. The symbols live in an arena of their own, so they are never
/// collected. A name is looked up by going through the table.
pub struct SymbolMap {
    names: Vec<String>,
    ptrs: Vec<RawPtr>,
    arena: Arena,
}

impl SymbolMap {
    /// The names, in the order in which they were interned.
    pub closed spec fn names(self) -> Seq<Seq<char>> {
        Seq::new(self.names@.len(), |i: int| self.names@[i]@)
    }

    /// The pointers to the symbols of the names, in the same order.
    pub closed spec fn ptrs(self) -> Seq<RawPtr> {
        self.ptrs@
    }

    /// The arena that holds the symbols.
    pub closed spec fn arena(self) -> Arena {
        self.arena
    }

    /// Whether `name` has been interned.
    pub open spec fn knows(self, name: Seq<char>) -> bool {
        exists|i: int| 0 <= i < self.names().len() && #[trigger] self.names()[i] == name
    }

    /// Whether `name` has been interned with its symbol at `ptr`.
    pub open spec fn interned(self, name: Seq<char>, ptr: RawPtr) -> bool {
        exists|i: int|
            0 <= i < self.names().len() && #[trigger] self.names()[i] == name && self.ptrs()[i]
                == ptr
    }

    /// The symbol of the name at the place `index` of the table.
    pub open spec fn symbol_at(self, index: int) -> Symbol {
        Symbol::with(index as usize, encode_utf8(self.names()[index]).len() as usize)
    }

    /// Whether the symbol of the name at the place `index` stands in the
    /// arena where its pointer points, on a word boundary.
    pub open spec fn symbol_stored(self, index: int) -> bool {
        let blocks = self.arena().heap().blocks();
        let addr = self.ptrs()[index].addr();
        &&& addr % (WORD_SIZE as int) == 0
        &&& blocks.used_range(addr, SYMBOL_SIZE as int)
        &&& blocks.bytes(addr, SYMBOL_SIZE as int) == self.symbol_at(index).spec_bytes()
    }

    /// Every name has one pointer, no name and no pointer occurs twice,
    /// and every symbol stands in the arena.
    pub open spec fn wf(self) -> bool {
        &&& self.arena().wf()
        &&& self.names().len() == self.ptrs().len()
        &&& forall|i: int, j: int|
            0 <= i < j < self.names().len() ==> #[trigger] self.names()[i] != #[trigger] self.names()[j]
        &&& forall|i: int, j: int|
            0 <= i < j < self.ptrs().len() ==> #[trigger] self.ptrs()[i] != #[trigger] self.ptrs()[j]
        &&& forall|i: int| 0 <= i < self.names().len() ==> #[trigger] self.symbol_stored(i)
    }

    /// Whether `name` can be looked up: it has been interned, or the
    /// arena can take one more symbol.
    pub open spec fn can_intern(self, name: Seq<char>) -> bool {
        self.knows(name) || self.arena().heap().can_take(SYMBOL_SIZE as nat)
    }

    /// In a well-formed table two names have the same pointer if and
    /// only if they are the same name.
    pub proof fn lemma_interning(self, a: Seq<char>, pa: RawPtr, b: Seq<char>, pb: RawPtr)
        requires
            self.wf(),
            self.interned(a, pa),
            self.interned(b, pb),
        ensures
            (a == b) <==> (pa == pb),
    {
        let i = choose|i: int|
            0 <= i < self.names().len() && #[trigger] self.names()[i] == a && self.ptrs()[i] == pa;
        let j = choose|j: int|
            0 <= j < self.names().len() && #[trigger] self.names()[j] == b && self.ptrs()[j] == pb;
        if i < j {
            assert(self.names()[i] != self.names()[j]);
            assert(self.ptrs()[i] != self.ptrs()[j]);
        } else if j < i {
            assert(self.names()[j] != self.names()[i]);
            assert(self.ptrs()[j] != self.ptrs()[i]);
        }
    }

    /// The places of the table can be counted in a word.
    pub proof fn lemma_len_bound(self)
        ensures
            self.names().len() <= usize::MAX,
    {
        vstd::std_specs::vec::axiom_spec_len(&self.names);
    }

    /// A table with no name yet.
    pub fn new() -> (map: SymbolMap)
        ensures
            map.wf(),
            map.names().len() == 0,
            map.ptrs().len() == 0,
            map.arena().heap().blocks().space().end() == crate::arena::ARENA_END,
    {
        SymbolMap { names: Vec::new(), ptrs: Vec::new(), arena: Arena::new() }
    }

    /// The number of names that have been interned.
    pub fn len(&self) -> (len: usize)
        ensures
            len == self.names().len(),
    {
        self.names.len()
    }

    /// The arena that holds the symbols.
    pub fn storage(&self) -> (arena: &Arena)
        ensures
            *arena == self.arena(),
    {
        &self.arena
    }

    /// The name at the place `index` of the table, or `None` if the
    /// table is not that long.
    pub fn name(&self, index: usize) -> (name: Option<&str>)
        ensures
            match name {
                Some(name) => index < self.names().len() && name@ == self.names()[index as int],
                None => index >= self.names().len(),
            },
    {
        if index < self.names.len() {
            Some(self.names[index].as_str())
        } else {
            None
        }
    }

    /// The place of `name` in the table, or `None` if it has not been interned.
    fn find(&self, name: &String) -> (r: Option<usize>)
        ensures
            match r {
                Some(i) => i < self.names().len() && self.names()[i as int] == name@,
                None => !self.knows(name@),
            },
    {
        let mut i: usize = 0;
        while i < self.names.len()
            invariant
                i <= self.names().len(),
                forall|k: int| 0 <= k < i ==> #[trigger] self.names()[k] != name@,
            decreases self.names().len() - i,
        {
            if self.names[i] == *name {
                return Some(i);
            }
            i = i + 1;
        }
        None
    }

    /// The pointer to the symbol of `name`. A name that has not been
    /// interned is interned first: a symbol is allocated for it in the
    /// arena, and the name is kept in the table for good.
    pub fn lookup(&mut self, name: &str) -> (ptr: RawPtr)
        requires
            old(self).wf(),
            old(self).can_intern(name@),
        ensures
            final(self).wf(),
            final(self).interned(name@, ptr),
            ptr.addr() != 0,
            ptr.addr() % (WORD_SIZE as int) == 0,
            forall|other: Seq<char>, p: RawPtr| #[trigger]
                old(self).interned(other, p) ==> final(self).interned(other, p),
            if old(self).knows(name@) {
                &&& final(self).names() == old(self).names()
                &&& final(self).ptrs() == old(self).ptrs()
                &&& BlockList::same(
                    old(self).arena().heap().blocks(),
                    final(self).arena().heap().blocks(),
                )
            } else {
                &&& final(self).names() == old(self).names().push(name@)
                &&& final(self).ptrs() == old(self).ptrs().push(ptr)
                &&& alloc_spec(
                    old(self).arena().heap().blocks(),
                    final(self).arena().heap().blocks(),
                    Seq::empty(),
                    final(self).symbol_at(old(self).names().len() as int).spec_bytes(),
                    Ok(ptr),
                )
            },
    {
        let name: String = name.to_owned();
        if let Some(i) = self.find(&name) {
            proof {
                assert(self.symbol_stored(i as int));
                self.arena().heap().blocks().lemma_mapped(self.ptrs()[i as int].addr());
                assert forall|other: Seq<char>, p: RawPtr| #[trigger]
                    old(self).interned(other, p) implies self.interned(other, p) by {}
            }
            return self.ptrs[i];
        }
        let index: usize = self.names.len();
        let symbol: Symbol = Symbol::new(index, name.as_str().len());
        let ptr: RawPtr = match self.arena.allocate(symbol) {
            Ok(ptr) => ptr,
            Err(_) => unreached(),
        };
        self.names.push(name);
        self.ptrs.push(ptr);
        proof {
            let old_blocks = old(self).arena().heap().blocks();
            let blocks = self.arena().heap().blocks();
            symbol.lemma_round_trip();
            assert(self.names() =~= old(self).names().push(name@));
            assert(self.symbol_at(index as int) == symbol);
            blocks.lemma_range(ptr.addr(), 16, 0);
            blocks.lemma_mapped(ptr.addr());
            lemma_stored_reads(old_blocks, blocks, ptr.addr(), Seq::empty(), symbol.spec_bytes());
            assert(self.symbol_stored(index as int));
            assert forall|i: int| 0 <= i < index implies #[trigger] self.symbol_stored(i) by {
                assert(old(self).symbol_stored(i));
                let addr = old(self).ptrs()[i].addr();
                assert(self.symbol_at(i) == old(self).symbol_at(i));
                lemma_alloc_keeps(
                    old_blocks,
                    blocks,
                    Seq::empty(),
                    symbol.spec_bytes(),
                    ptr,
                    addr,
                    16,
                );
            }
            assert forall|i: int, j: int| 0 <= i < j < self.ptrs().len() implies #[trigger] self.ptrs()[i]
                != #[trigger] self.ptrs()[j] by {
                if j == index {
                    assert(old(self).symbol_stored(i));
                    lemma_alloc_keeps(
                        old_blocks,
                        blocks,
                        Seq::empty(),
                        symbol.spec_bytes(),
                        ptr,
                        old(self).ptrs()[i].addr(),
                        16,
                    );
                    ptr.lemma_addr_bounds();
                }
            }
            assert forall|other: Seq<char>, p: RawPtr| #[trigger]
                old(self).interned(other, p) implies self.interned(other, p) by {
                let i = choose|i: int|
                    0 <= i < old(self).names().len() && #[trigger] old(self).names()[i] == other
                        && old(self).ptrs()[i] == p;
                assert(self.names()[i] == other && self.ptrs()[i] == p);
            }
            assert(self.names()[index as int] == name@ && self.ptrs()[index as int] == ptr);
        }
        ptr
    }
}

} // verus!
