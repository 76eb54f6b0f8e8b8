use stickyimmix::allocation::{RawPtr, Tagged};
use stickyimmix::array::{ArrayU16, ArrayU32, ArrayU8, List};
use stickyimmix::dicts::Dict;
use stickyimmix::errors::RuntimeError;
use stickyimmix::fat_ptr::FatPtr;
use stickyimmix::heap::Heap;
use stickyimmix::memory::Memory;
use stickyimmix::mutator_view::MutatorView;
use stickyimmix::pair::Pair;
use stickyimmix::ptrs::TaggedScopedPtr;
use stickyimmix::symbol::Symbol;
use stickyimmix::tagged_ptr::{get_tag, TaggedPtr, TAG_NUMBER, TAG_OBJECT, TAG_PAIR, TAG_SYMBOL};
use stickyimmix::traits::Mutator;
use stickyimmix::value::Value;

#[test]
fn integers_decode_exactly() {
    let heap = Heap::new();
    for n in [0isize, 1, -1, 42, -(1 << 20), isize::MAX / 4, isize::MIN / 4] {
        let tagged = TaggedPtr::number(n);
        assert_eq!(get_tag(tagged.as_word()), TAG_NUMBER);
        assert_eq!(tagged.as_word(), ((n << 2) | 3) as usize);
        assert_eq!(tagged.into_fat_ptr(heap.objects()), FatPtr::Number(n));
        assert_eq!(TaggedPtr::from(FatPtr::Number(n)), tagged);
    }
}

#[test]
fn integers_that_do_not_fit_lose_their_high_bits() {
    let heap = Heap::new();
    for n in [isize::MAX, isize::MIN, isize::MAX / 4 + 1, isize::MIN / 4 - 1] {
        let tagged = TaggedPtr::number(n);
        assert_eq!(tagged.as_word(), ((n << 2) | 3) as usize);
        assert_eq!(
            tagged.into_fat_ptr(heap.objects()),
            FatPtr::Number((tagged.as_word() as isize) >> 2)
        );
        assert_ne!(tagged.into_fat_ptr(heap.objects()), FatPtr::Number(n));
    }
}

#[test]
fn nil_is_the_zero_word() {
    let heap = Heap::new();
    assert_eq!(TaggedPtr::from_word(0).into_fat_ptr(heap.objects()), FatPtr::Nil);
    assert_eq!(TaggedPtr::from(FatPtr::Nil).as_word(), 0);
    assert_eq!(TaggedPtr::nil().as_word(), 0);
    assert!(TaggedPtr::nil().is_nil());
}

#[test]
fn tags_are_the_two_low_bits() {
    assert_eq!(get_tag(0b1000), TAG_SYMBOL);
    assert_eq!(get_tag(0b1001), TAG_PAIR);
    assert_eq!(get_tag(0b1010), TAG_OBJECT);
    assert_eq!(get_tag(0b1011), TAG_NUMBER);
    assert_eq!(RawPtr::untag(0b1011).as_word(), 0b1000);
    assert_eq!(RawPtr::untag(0b1000).tag(TAG_PAIR), 0b1001);
}

#[test]
fn symbols_are_interned() {
    let mut heap = Heap::new();
    let foo = heap.lookup_sym("foo");
    let bar = heap.lookup_sym("bar");
    let foo_again = heap.lookup_sym("foo");
    assert_eq!(foo, foo_again);
    assert_ne!(foo, bar);
    assert_eq!(heap.symbol_map().len(), 2);
    assert_eq!(get_tag(foo.as_word()), TAG_SYMBOL);
}

struct NameOf;

impl Mutator for NameOf {
    type Input = &'static str;
    type Output = String;

    fn run(&self, mem: &mut MutatorView, input: &'static str) -> Result<String, RuntimeError> {
        let scoped = mem.lookup_sym(input);
        match scoped.value() {
            Value::Symbol(ptr) => {
                let symbol: Symbol = ptr.get(mem).unwrap();
                Ok(String::from(symbol.as_str(mem)))
            }
            _ => panic!("not a symbol"),
        }
    }
}

#[test]
fn a_symbol_decodes_to_its_name() {
    let mut memory = Memory::new();
    assert_eq!(memory.mutate(&NameOf, "foo"), Ok(String::from("foo")));
    assert_eq!(memory.mutate(&NameOf, "a longer name, with spaces"), Ok(String::from("a longer name, with spaces")));
    assert_eq!(memory.mutate(&NameOf, "foo"), Ok(String::from("foo")));
}

struct BuildList;

impl Mutator for BuildList {
    type Input = isize;
    type Output = Vec<isize>;

    fn run(&self, mem: &mut MutatorView, input: isize) -> Result<Vec<isize>, RuntimeError> {
        // a list of the integers from 1 to `input`, built from the head down
        let mut head = Pair::new();
        head.first.set(TaggedScopedPtr::new(mem, TaggedPtr::number(1)));
        let head_ptr = mem.alloc_tagged(head)?;
        let mut last = head;
        let mut last_ptr = head_ptr;
        for n in 2..=input {
            let value = TaggedScopedPtr::new(mem, TaggedPtr::number(n));
            let next_ptr = last.append(mem, value)?;
            let raw = match last_ptr.value() {
                Value::Pair(ptr) => ptr.as_raw(),
                _ => panic!("not a pair"),
            };
            assert!(mem.store(raw, &last));
            last = match next_ptr.value() {
                Value::Pair(ptr) => ptr.get(mem).unwrap(),
                _ => panic!("not a pair"),
            };
            last_ptr = next_ptr;
        }
        // walk the list
        let mut seen = Vec::new();
        let mut at = head_ptr.get_ptr();
        while !at.is_nil() {
            let pair: Pair = match at.into_fat_ptr(mem.heap.objects()) {
                FatPtr::Pair(raw) => mem.load(raw).unwrap(),
                _ => panic!("not a pair"),
            };
            match pair.first.get(mem).value() {
                Value::Number(n) => seen.push(n),
                _ => panic!("not a number"),
            }
            at = pair.second.get_ptr();
        }
        Ok(seen)
    }
}

#[test]
fn pairs_make_a_list() {
    let mut memory = Memory::new();
    assert_eq!(memory.mutate(&BuildList, 5), Ok(vec![1, 2, 3, 4, 5]));
    assert_eq!(memory.mutate(&BuildList, 1), Ok(vec![1]));
}

struct TagObjects;

impl Mutator for TagObjects {
    type Input = ();
    type Output = ();

    fn run(&self, mem: &mut MutatorView, _input: ()) -> Result<(), RuntimeError> {
        // each object is tagged by its type, and found again with its type
        let list = mem.alloc_tagged(List::new())?;
        let bytes = mem.alloc_tagged(ArrayU8::new())?;
        let shorts = mem.alloc_tagged(ArrayU16::new())?;
        let words = mem.alloc_tagged(ArrayU32::new())?;
        let dict = mem.alloc_tagged(Dict::new())?;
        let pair = mem.alloc_tagged(Pair::new())?;
        let symbol = mem.lookup_sym("sym");
        assert!(matches!(list.value(), Value::List(_)));
        assert!(matches!(bytes.value(), Value::ArrayU8(_)));
        assert!(matches!(shorts.value(), Value::ArrayU16(_)));
        assert!(matches!(words.value(), Value::ArrayU32(_)));
        assert!(matches!(dict.value(), Value::Dict(_)));
        assert!(matches!(pair.value(), Value::Pair(_)));
        assert!(matches!(symbol.value(), Value::Symbol(_)));
        for scoped in [list, bytes, shorts, words, dict, pair, symbol] {
            let tagged = scoped.get_ptr();
            let fat = tagged.into_fat_ptr(mem.heap.objects());
            assert_eq!(TaggedPtr::from(fat), tagged);
            assert_eq!(fat.as_value(mem).as_fat_ptr(), fat);
            assert_eq!(tagged.try_into_fat_ptr(mem.heap.objects()), Some(fat));
        }
        assert_eq!(get_tag(list.get_ptr().as_word()), TAG_OBJECT);
        assert_eq!(get_tag(dict.get_ptr().as_word()), TAG_OBJECT);
        assert_eq!(get_tag(pair.get_ptr().as_word()), TAG_PAIR);
        assert_eq!(get_tag(symbol.get_ptr().as_word()), TAG_SYMBOL);
        // a pointer with the tag of an object and no header before it stands for nothing
        let stray = TaggedPtr::from_word(0x1000 | TAG_OBJECT);
        assert_eq!(stray.try_into_fat_ptr(mem.heap.objects()), None);
        // code has a header, but no tagged pointer stands for code
        let code = mem.allocate(stickyimmix::opcodes::ByteCode::new())?;
        let tagged = TaggedPtr::object(code.as_raw());
        assert_eq!(tagged.try_into_fat_ptr(mem.heap.objects()), None);
        Ok(())
    }
}

#[test]
fn objects_are_tagged_by_their_type() {
    let mut memory = Memory::new();
    assert_eq!(memory.mutate(&TagObjects, ()), Ok(()));
}

struct Misc;

impl Mutator for Misc {
    type Input = ();
    type Output = ();

    fn run(&self, mem: &mut MutatorView, _input: ()) -> Result<(), RuntimeError> {
        // a dotted pair
        let mut pair = Pair::new();
        assert!(pair.first.is_nil() && pair.second.is_nil());
        pair.first.set(TaggedScopedPtr::new(mem, TaggedPtr::number(1)));
        pair.dot(TaggedScopedPtr::new(mem, TaggedPtr::number(2)));
        assert_eq!(pair.first.get_ptr(), TaggedPtr::number(1));
        assert_eq!(pair.second.get_ptr(), TaggedPtr::number(2));
        pair.second.set_to_nil();
        assert!(pair.second.is_nil());
        // a header leads to its object, with the type that it names
        let ptr = mem.allocate(List::new())?;
        let header = mem.heap.objects().read_header(ptr.as_raw()).unwrap();
        let header_ptr = stickyimmix::heap::HeapStorage::get_header(ptr.as_raw());
        assert_eq!(header.get_object_fatptr(header_ptr), FatPtr::List(ptr.as_raw()));
        // a raw pointer is read through the scope
        let pair_ptr = mem.allocate(pair)?;
        let read: Pair = stickyimmix::ptrs::ScopedRef::scoped_ref(&pair_ptr.as_raw(), mem).unwrap();
        assert_eq!(read, pair);
        let cell = stickyimmix::ptrs::CellPtr::new_with(pair_ptr);
        assert_eq!(cell.get(mem).as_raw(), pair_ptr.as_raw());
        // a symbol knows where its name is kept
        let sym = mem.lookup_sym("name");
        let symbol: Symbol = match sym.value() {
            Value::Symbol(ptr) => ptr.get(mem).unwrap(),
            _ => panic!("not a symbol"),
        };
        assert_eq!(mem.heap.symbol_map().name(symbol.name_index()), Some("name"));
        assert_eq!(symbol.len(), 4);
        assert_eq!(mem.heap.symbol_map().name(99), None);
        Ok(())
    }
}

#[test]
fn pointers_lead_to_what_they_point_to() {
    let mut memory = Memory::new();
    assert_eq!(memory.mutate(&Misc, ()), Ok(()));
}
