//! The hashes of the keys of a dictionary.

use vstd::prelude::*;
use vstd::pervasive::unreached;
use crate::errors::{ErrorKind, RuntimeError};
use crate::fat_ptr::FatPtr;
use crate::heap::Heap;
use crate::mutator_view::MutatorView;
use crate::ptrs::TaggedScopedPtr;
use crate::symbol::Symbol;
use crate::value::Value;

verus! {

/// The hash that the default hasher of the standard library gives the text `name`.
pub uninterp spec fn default_hash(name: Seq<char>) -> u64;

/// The hash of `name`.
///
/// This calls `hash_one` of the standard library on a `BuildHasherDefault`
/// of `DefaultHasher`. It is taken on trust that the hash depends on the
/// text alone: every such hasher starts out the same, so the same text
/// gets the same hash every time. Nothing else is claimed of the hash.
#[verifier::external_body]
fn hash_name(name: &str) -> (hash: u64)
    ensures
        hash == default_hash(name@),
{
    std::hash::BuildHasher::hash_one(
        &std::hash::BuildHasherDefault::<std::collections::hash_map::DefaultHasher>::default(),
        name,
    )
}

/// The hash of the integer `n`: the integer itself, in two's
/// complement if it is negative.
pub open spec fn number_hash(n: isize) -> u64 {
    if n >= 0 {
        n as u64
    } else {
        (n + 0x1_0000_0000_0000_0000) as u64
    }
}

/// Values that can be keys of a dictionary.
pub trait Hashable {
    /// Whether the hash can be computed in `heap`.
    spec fn spec_hashable(&self, heap: Heap) -> bool;

    /// The hash.
    spec fn spec_hash(&self, heap: Heap) -> u64;

    /// The hash.
    fn hash(&self, guard: &MutatorView) -> (hash: u64)
        requires
            guard.wf(),
            self.spec_hashable(guard.mem()),
        ensures
            hash == self.spec_hash(guard.mem()),
    ;
}

impl Hashable for Symbol {
    open spec fn spec_hashable(&self, heap: Heap) -> bool {
        self.name_ptr() < heap.symbols().names().len()
    }

    open spec fn spec_hash(&self, heap: Heap) -> u64 {
        default_hash(heap.symbols().names()[self.name_ptr() as int])
    }

    fn hash(&self, guard: &MutatorView) -> (hash: u64) {
        hash_name(self.as_str(guard))
    }
}

/// The hash of the key `key`, if it is a key that can be hashed: a
/// symbol is hashed by its name, an integer is its own hash, and
/// nothing else can be hashed.
pub open spec fn key_hash(heap: Heap, key: FatPtr) -> Option<u64> {
    match key {
        FatPtr::Symbol(raw) => match heap.object_at::<Symbol>(raw) {
            Some(symbol) => Some(symbol.spec_hash(heap)),
            None => None,
        },
        FatPtr::Number(n) => Some(number_hash(n)),
        _ => None,
    }
}

/// Whether the hash of the key `key` can be computed in `heap`: if it
/// is a symbol, the symbol is found where it points, and has a name.
pub open spec fn key_readable(heap: Heap, key: FatPtr) -> bool {
    key matches FatPtr::Symbol(raw) ==> heap.object_at::<Symbol>(raw) matches Some(symbol)
        && symbol.spec_hashable(heap)
}

/// The hash of `key`. Fails with an unhashable error if the key is
/// neither a symbol nor an integer.
pub fn hash_key(guard: &MutatorView, key: TaggedScopedPtr) -> (r: Result<u64, RuntimeError>)
    requires
        guard.wf(),
        key_readable(guard.mem(), key.fat()),
    ensures
        match r {
            Ok(hash) => key_hash(guard.mem(), key.fat()) == Some(hash),
            Err(e) => {
                &&& !(key.fat() is Symbol)
                &&& !(key.fat() is Number)
                &&& e.kind() == ErrorKind::UnhashableError
                &&& e.pos() is None
            },
        },
{
    match key.value() {
        Value::Symbol(s) => {
            let symbol: Symbol = match s.get::<Symbol>(guard) {
                Some(symbol) => symbol,
                None => unreached(),
            };
            Ok(symbol.hash(guard))
        },
        Value::Number(n) => {
            let hash: u64 = if n >= 0 {
                n as u64
            } else {
                u64::MAX - ((-(n + 1)) as u64)
            };
            Ok(hash)
        },
        _ => Err(RuntimeError::new(ErrorKind::UnhashableError)),
    }
}

} // verus!
