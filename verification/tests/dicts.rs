use stickyimmix::containers::Container;
use stickyimmix::dict_item::{DictItem, TOMBSTONE};
use stickyimmix::dicts::{
    fill_with_blank_entries, find_entry, needs_to_grow, Dict, HashIndexedAnyContainer,
};
use stickyimmix::hashing::hash_key;
use stickyimmix::errors::{ErrorKind, RuntimeError};
use stickyimmix::memory::Memory;
use stickyimmix::mutator_view::MutatorView;
use stickyimmix::ptrs::{TaggedCellPtr, TaggedScopedPtr};
use stickyimmix::raw_array::RawArray;
use stickyimmix::tagged_ptr::TaggedPtr;
use stickyimmix::traits::Mutator;
use stickyimmix::value::Value;

struct Script<F>(F);

impl<F: Fn(&mut MutatorView) -> Result<(), RuntimeError>> Mutator for Script<F> {
    type Input = ();
    type Output = ();

    fn run(&self, mem: &mut MutatorView, _input: ()) -> Result<(), RuntimeError> {
        (self.0)(mem)
    }
}

fn script(f: impl Fn(&mut MutatorView) -> Result<(), RuntimeError>) {
    let mut memory = Memory::new();
    memory.mutate(&Script(f), ()).unwrap();
}

fn num<'a>(mem: &MutatorView<'a>, n: isize) -> TaggedScopedPtr<'a> {
    TaggedScopedPtr::new(mem, TaggedPtr::number(n))
}

fn as_num(p: TaggedScopedPtr) -> isize {
    match p.value() {
        Value::Number(n) => n,
        _ => panic!("not a number"),
    }
}

#[test]
fn load_factor_is_four_fifths() {
    assert!(!needs_to_grow(0, 0));
    assert!(needs_to_grow(1, 0));
    assert!(!needs_to_grow(4, 5));
    assert!(needs_to_grow(5, 5));
    assert!(!needs_to_grow(6, 8));
    assert!(needs_to_grow(7, 8));
    assert!(!needs_to_grow(8, 10));
    assert!(needs_to_grow(9, 10));
}

#[test]
fn keys_are_hashed() {
    script(|mem| {
        assert_eq!(hash_key(mem, num(mem, 0)), Ok(0));
        assert_eq!(hash_key(mem, num(mem, 42)), Ok(42));
        assert_eq!(hash_key(mem, num(mem, -1)), Ok(u64::MAX));
        let foo = mem.lookup_sym("foo");
        let bar = mem.lookup_sym("bar");
        let foo_again = mem.lookup_sym("foo");
        assert_eq!(hash_key(mem, foo), hash_key(mem, foo_again));
        assert_ne!(hash_key(mem, foo), hash_key(mem, bar));
        let nil = TaggedScopedPtr::new(mem, TaggedPtr::nil());
        assert_eq!(hash_key(mem, nil).unwrap_err().error_kind(), &ErrorKind::UnhashableError);
        Ok(())
    });
}

#[test]
fn an_empty_dict_has_no_table() {
    script(|mem| {
        let mut dict = Dict::new();
        assert_eq!(dict.length(), 0);
        assert_eq!(dict.lookup(mem, num(mem, 1)).err().unwrap().error_kind(), &ErrorKind::BoundsError);
        assert_eq!(dict.exists_key(mem, num(mem, 1)).unwrap_err().error_kind(), &ErrorKind::BoundsError);
        assert_eq!(dict.clear(mem).unwrap_err().error_kind(), &ErrorKind::BoundsError);
        Ok(())
    });
}

#[test]
fn dict_keeps_what_is_put_in() {
    script(|mem| {
        let mut dict = Dict::new();
        for i in 0..100isize {
            dict.assoc(mem, num(mem, i + 1), num(mem, i * i))?;
            assert_eq!(dict.length(), i as u32 + 1);
        }
        for i in 0..100isize {
            assert_eq!(as_num(dict.lookup(mem, num(mem, i + 1))?), i * i);
            assert_eq!(dict.exists_key(mem, num(mem, i + 1)), Ok(true));
        }
        assert_eq!(dict.exists_key(mem, num(mem, 1000)), Ok(false));
        assert_eq!(dict.lookup(mem, num(mem, 1000)).err().unwrap().error_kind(), &ErrorKind::KeyError);
        // a key that is put in again keeps its place
        dict.assoc(mem, num(mem, 7), num(mem, -7))?;
        assert_eq!(dict.length(), 100);
        assert_eq!(as_num(dict.lookup(mem, num(mem, 7))?), -7);
        // keys are taken out
        for i in 0..50isize {
            assert_eq!(as_num(dict.dissoc(mem, num(mem, 2 * i + 2))?), (2 * i + 1) * (2 * i + 1));
        }
        assert_eq!(dict.length(), 50);
        assert_eq!(dict.dissoc(mem, num(mem, 2)).err().unwrap().error_kind(), &ErrorKind::KeyError);
        for i in 0..50isize {
            assert_eq!(dict.exists_key(mem, num(mem, 2 * i + 2)), Ok(false));
            assert_eq!(dict.exists_key(mem, num(mem, 2 * i + 1)), Ok(true));
        }
        dict.clear(mem)?;
        assert_eq!(dict.length(), 0);
        assert_eq!(dict.exists_key(mem, num(mem, 1)), Ok(false));
        Ok(())
    });
}

#[test]
fn dict_is_indexed_by_symbols() {
    script(|mem| {
        let mut dict = Dict::with_capacity(mem, 16)?;
        assert_eq!(dict.capacity(), 16);
        let foo = mem.lookup_sym("foo");
        let bar = mem.lookup_sym("bar");
        dict.assoc(mem, foo, num(mem, 1))?;
        dict.assoc(mem, bar, num(mem, 2))?;
        let foo_again = mem.lookup_sym("foo");
        let bar_again = mem.lookup_sym("bar");
        let baz = mem.lookup_sym("baz");
        assert_eq!(as_num(dict.lookup(mem, foo_again)?), 1);
        assert_eq!(as_num(dict.lookup(mem, bar_again)?), 2);
        assert_eq!(dict.exists_key(mem, baz), Ok(false));
        let pair = mem.alloc_tagged(stickyimmix::pair::Pair::new())?;
        assert_eq!(dict.assoc(mem, pair, num(mem, 3)).unwrap_err().error_kind(), &ErrorKind::UnhashableError);
        assert_eq!(dict.length(), 2);
        Ok(())
    });
}

#[test]
fn a_search_finds_the_entry_or_the_slot_for_it() {
    script(|mem| {
        let data: RawArray<DictItem> = RawArray::with_capacity(mem, 4)?;
        fill_with_blank_entries(mem, &data)?;
        for i in 0..4 {
            assert_eq!(data.get(mem, i), Some(DictItem::blank()));
        }
        let key = TaggedCellPtr::new_ptr(TaggedPtr::number(5));
        // hash 6 starts at slot 2; slots 2 and 3 hold other hashes, slot 0 is a tombstone
        assert!(data.set(mem, 2, &DictItem::new(key, key, 2)));
        assert!(data.set(mem, 3, &DictItem::new(key, key, 3)));
        assert!(data.set(mem, 0, &DictItem::new(TaggedCellPtr::new_nil(), key, TOMBSTONE)));
        let entry = data.get(mem, 2).unwrap();
        assert_eq!(entry.get_key(), key);
        assert_eq!(entry.get_value(), key);
        assert_eq!(entry.get_hash(), 2);
        // the search passes the tombstone, ends at the blank slot 1, and gives the tombstone
        assert_eq!(find_entry(mem, &data, 6), Ok(0));
        assert_eq!(find_entry(mem, &data, 2), Ok(2));
        assert_eq!(find_entry(mem, &data, 3), Ok(3));
        assert_eq!(find_entry(mem, &data, 5), Ok(1));
        let none: RawArray<DictItem> = RawArray::new();
        assert_eq!(find_entry(mem, &none, 6).unwrap_err().error_kind(), &ErrorKind::BoundsError);
        assert_eq!(fill_with_blank_entries(mem, &none).unwrap_err().error_kind(), &ErrorKind::BoundsError);
        Ok(())
    });
}

#[test]
fn a_dict_lives_in_the_heap() {
    script(|mem| {
        let ptr = Dict::alloc_with_capacity(mem, 8)?;
        let mut dict: Dict = ptr.get(mem).unwrap();
        assert_eq!(dict.capacity(), 8);
        dict.assoc(mem, num(mem, 9), num(mem, 90))?;
        assert!(mem.store(ptr.as_raw(), &dict));
        let again: Dict = ptr.get(mem).unwrap();
        assert_eq!(again.length(), 1);
        assert_eq!(as_num(again.lookup(mem, num(mem, 9))?), 90);
        let empty = Dict::allocate(mem)?;
        let dict: Dict = empty.get(mem).unwrap();
        assert_eq!(dict.length(), 0);
        assert_eq!(dict.capacity(), 0);
        let made: Dict = Container::new();
        assert_eq!(made.length(), 0);
        Ok(())
    });
}

#[test]
fn a_dict_clears_as_a_container_does() {
    script(|mem| {
        let mut dict = <Dict as Container<DictItem>>::with_capacity(mem, 8)?;
        dict.assoc(mem, num(mem, 3), num(mem, 30))?;
        assert_eq!(dict.length(), 1);
        assert_eq!(<Dict as Container<DictItem>>::clear(&mut dict, mem), Ok(()));
        assert_eq!(dict.length(), 0);
        assert_eq!(dict.capacity(), 8);
        assert_eq!(dict.exists_key(mem, num(mem, 3)), Ok(false));
        let mut bare = <Dict as Container<DictItem>>::new();
        let refused = <Dict as Container<DictItem>>::clear(&mut bare, mem);
        assert_eq!(refused.unwrap_err().error_kind(), &ErrorKind::BoundsError);
        assert_eq!(bare.length(), 0);
        Ok(())
    });
}
