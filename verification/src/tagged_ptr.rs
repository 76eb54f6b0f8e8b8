//! The word that holds a pointer with a tag, a small integer, or nil.

use vstd::prelude::*;
use vstd::pervasive::unreached;
use vstd::std_specs::convert::FromSpecImpl;
use crate::allocation::{lemma_tag_untag, AllocHeader, RawPtr, Tagged, TAG_MASK};
use crate::fat_ptr::FatPtr;
use crate::object_header::ObjectHeader;
use crate::sticky_immix_heap::StickyImmixHeap;

verus! {

/// The tag of a pointer to a symbol.
pub const TAG_SYMBOL: usize = 0x0;

/// The tag of a pointer to a pair.
pub const TAG_PAIR: usize = 0x1;

/// The tag of a pointer to any other object: its header tells its type.
pub const TAG_OBJECT: usize = 0x2;

/// The tag of an integer that is held in the word itself.
pub const TAG_NUMBER: usize = 0x3;

/// The two low bits of a word: its tag.
pub fn get_tag(tagged_word: usize) -> (tag: usize)
    ensures
        tag == tagged_word & TAG_MASK,
        tag == tagged_word % 4,
        tag == TAG_SYMBOL || tag == TAG_PAIR || tag == TAG_OBJECT || tag == TAG_NUMBER,
{
    assert(tagged_word & 0x3 == tagged_word % 4) by (bit_vector);
    tagged_word & TAG_MASK
}

/// The number of values that the bits of a word above its tag can take:
/// two to the power of the width of a word less two.
pub open spec fn number_range() -> int {
    usize::MAX / 4 + 1
}

/// Whether `n` can be held in a word beside the tag: it is at least
/// minus two to the power of the width of a word less three, and less than
/// two to that power.
pub open spec fn number_fits(n: int) -> bool {
    -(number_range() / 2) <= n < number_range() / 2
}

/// The word that holds the integer `n`: four times `n` plus the tag, in
/// as many bits as a word has, which is `n` shifted left by two with the
/// tag in the two low bits. An integer that does not fit loses its high bits.
pub open spec fn number_word(n: isize) -> usize {
    let unsigned = if n >= 0 {
        n as int
    } else {
        n + usize::MAX + 1
    };
    ((unsigned % number_range()) * 4 + TAG_NUMBER) as usize
}

/// The integer that the word `word` holds above its tag: the word, read as
/// a signed integer, shifted right by two with its sign kept.
pub open spec fn word_number(word: usize) -> isize {
    if word <= isize::MAX {
        (word / 4) as isize
    } else {
        (-((usize::MAX - word) / 4) - 1) as isize
    }
}

/// The word of an integer that fits is four times the integer plus
/// three, counted from the top of the words if the integer is negative.
pub proof fn lemma_number_word(n: isize)
    requires
        number_fits(n as int),
    ensures
        number_word(n) == if n >= 0 {
            4 * n + 3
        } else {
            usize::MAX + 1 + 4 * n + 3
        },
        number_word(n) % 4 == TAG_NUMBER,
        number_word(n) != 0,
{
    if usize::BITS == 32 {
        assert(number_range() == 0x4000_0000);
    } else {
        assert(number_range() == 0x4000_0000_0000_0000);
    }
}

/// An integer that fits is read back from its word as it was.
pub proof fn lemma_number_round_trip(n: isize)
    requires
        number_fits(n as int),
    ensures
        word_number(number_word(n)) == n,
{
    lemma_number_word(n);
    if usize::BITS == 32 {
        assert(number_range() == 0x4000_0000);
    } else {
        assert(number_range() == 0x4000_0000_0000_0000);
    }
}

/// The word of any integer has the tag of a number, so it is not zero.
pub proof fn lemma_number_word_tag(n: isize)
    ensures
        number_word(n) % 4 == TAG_NUMBER,
        number_word(n) != 0,
{
    if usize::BITS == 32 {
        assert(number_range() == 0x4000_0000);
    } else {
        assert(number_range() == 0x4000_0000_0000_0000);
    }
}

/// A word that holds a pointer with a tag in its two low bits, an integer
/// above the tag of a number, or zero for nil.
#[derive(Copy, Clone, Debug, PartialEq, Eq, Structural)]
pub struct TaggedPtr {
    tag: usize,
}

impl TaggedPtr {
    /// The word.
    pub closed spec fn word(self) -> usize {
        self.tag
    }

    /// The tagged pointer that is the word `word`.
    pub closed spec fn of_word(word: usize) -> TaggedPtr {
        TaggedPtr { tag: word }
    }

    /// A tagged pointer is its word, and nothing else.
    pub broadcast proof fn lemma_word(word: usize)
        ensures
            (#[trigger] Self::of_word(word)).word() == word,
    {
    }

    /// A tagged pointer is its word, and nothing else.
    pub broadcast proof fn lemma_of_word(self)
        ensures
            #[trigger] Self::of_word(self.word()) == self,
    {
    }

    /// The tagged pointer that stands for `ptr`: nil is the zero word, an
    /// integer is held in the word, a symbol and a pair have a tag of
    /// their own, and every other object has the tag of an object.
    pub open spec fn of_fat(ptr: FatPtr) -> TaggedPtr {
        match ptr {
            FatPtr::Nil => Self::of_word(0),
            FatPtr::Number(value) => Self::of_word(number_word(value)),
            FatPtr::Symbol(raw) => Self::of_word(raw.spec_tag(TAG_SYMBOL)),
            FatPtr::Pair(raw) => Self::of_word(raw.spec_tag(TAG_PAIR)),
            FatPtr::ArrayU8(raw) => Self::of_word(raw.spec_tag(TAG_OBJECT)),
            FatPtr::ArrayU16(raw) => Self::of_word(raw.spec_tag(TAG_OBJECT)),
            FatPtr::ArrayU32(raw) => Self::of_word(raw.spec_tag(TAG_OBJECT)),
            FatPtr::Dict(raw) => Self::of_word(raw.spec_tag(TAG_OBJECT)),
            FatPtr::Function(raw) => Self::of_word(raw.spec_tag(TAG_OBJECT)),
            FatPtr::List(raw) => Self::of_word(raw.spec_tag(TAG_OBJECT)),
            FatPtr::NumberObject(raw) => Self::of_word(raw.spec_tag(TAG_OBJECT)),
            FatPtr::Partial(raw) => Self::of_word(raw.spec_tag(TAG_OBJECT)),
            FatPtr::Text(raw) => Self::of_word(raw.spec_tag(TAG_OBJECT)),
            FatPtr::Upvalue(raw) => Self::of_word(raw.spec_tag(TAG_OBJECT)),
        }
    }

    /// What the tagged pointer stands for, if it stands for anything.
    ///
    /// The zero word is nil. A word with the tag of a number is the integer
    /// above the tag. A word with the tag of a symbol or of a pair is a
    /// pointer to one. A word with the tag of an object is a pointer to an
    /// object of the type that the header before the object names; it
    /// stands for nothing if no header is found there, or if the header
    /// names a type that a `FatPtr` does not point to.
    pub open spec fn decode(self, heap: StickyImmixHeap<ObjectHeader>) -> Option<FatPtr> {
        let word = self.word();
        let raw = RawPtr::spec_untag(word);
        if word == 0 {
            Some(FatPtr::Nil)
        } else if word % 4 == TAG_NUMBER {
            Some(FatPtr::Number(word_number(word)))
        } else if word % 4 == TAG_SYMBOL {
            Some(FatPtr::Symbol(raw))
        } else if word % 4 == TAG_PAIR {
            Some(FatPtr::Pair(raw))
        } else {
            match heap.header_of(raw) {
                Some(header) => FatPtr::for_type(header.spec_type_id(), raw),
                None => None,
            }
        }
    }

    /// The tagged pointer that is nil.
    pub fn nil() -> (ptr: TaggedPtr)
        ensures
            ptr.word() == 0,
            ptr == Self::of_fat(FatPtr::Nil),
    {
        TaggedPtr { tag: 0 }
    }

    /// Whether the tagged pointer is nil.
    pub fn is_nil(&self) -> (nil: bool)
        ensures
            nil == (self.word() == 0),
    {
        self.tag == 0
    }

    /// The tagged pointer that holds the integer `value`.
    pub fn number(value: isize) -> (ptr: TaggedPtr)
        ensures
            ptr.word() == number_word(value),
            ptr == Self::of_fat(FatPtr::Number(value)),
    {
        let unsigned: usize = if value >= 0 {
            value as usize
        } else {
            usize::MAX - ((-(value + 1)) as usize)
        };
        TaggedPtr { tag: (unsigned % (usize::MAX / 4 + 1)) * 4 + TAG_NUMBER }
    }

    /// The tagged pointer to the symbol at `ptr`.
    pub fn symbol(ptr: RawPtr) -> (tagged: TaggedPtr)
        ensures
            tagged.word() == ptr.spec_tag(TAG_SYMBOL),
            tagged == Self::of_fat(FatPtr::Symbol(ptr)),
    {
        TaggedPtr { tag: ptr.tag(TAG_SYMBOL) }
    }

    /// The tagged pointer to the pair at `ptr`.
    pub fn pair(ptr: RawPtr) -> (tagged: TaggedPtr)
        ensures
            tagged.word() == ptr.spec_tag(TAG_PAIR),
            tagged == Self::of_fat(FatPtr::Pair(ptr)),
    {
        TaggedPtr { tag: ptr.tag(TAG_PAIR) }
    }

    /// The tagged pointer to the object at `ptr`.
    pub fn object(ptr: RawPtr) -> (tagged: TaggedPtr)
        ensures
            tagged.word() == ptr.spec_tag(TAG_OBJECT),
    {
        TaggedPtr { tag: ptr.tag(TAG_OBJECT) }
    }

    /// The word.
    pub fn as_word(&self) -> (word: usize)
        ensures
            word == self.word(),
    {
        self.tag
    }

    /// The tagged pointer that is the word `word`.
    pub fn from_word(word: usize) -> (ptr: TaggedPtr)
        ensures
            ptr == Self::of_word(word),
            ptr.word() == word,
    {
        TaggedPtr { tag: word }
    }

    /// What the tagged pointer stands for, or `None` if it stands for
    /// nothing: it has the tag of an object, and no header is found in
    /// `heap` before the address it holds, or the header names a type
    /// that a `FatPtr` does not point to.
    pub fn try_into_fat_ptr(&self, heap: &StickyImmixHeap<ObjectHeader>) -> (fat: Option<FatPtr>)
        requires
            heap.wf(),
        ensures
            fat == self.decode(*heap),
    {
        if self.tag == 0 {
            Some(FatPtr::Nil)
        } else {
            let tag: usize = get_tag(self.tag);
            if tag == TAG_NUMBER {
                let number: isize = if self.tag <= isize::MAX as usize {
                    (self.tag / 4) as isize
                } else {
                    -(((usize::MAX - self.tag) / 4) as isize) - 1
                };
                Some(FatPtr::Number(number))
            } else if tag == TAG_SYMBOL {
                Some(FatPtr::Symbol(RawPtr::untag(self.tag)))
            } else if tag == TAG_PAIR {
                Some(FatPtr::Pair(RawPtr::untag(self.tag)))
            } else {
                let raw: RawPtr = RawPtr::untag(self.tag);
                match heap.read_header(raw) {
                    Some(header) => FatPtr::from_raw(header.type_id(), raw),
                    None => None,
                }
            }
        }
    }

    /// What the tagged pointer stands for.
    pub fn into_fat_ptr(&self, heap: &StickyImmixHeap<ObjectHeader>) -> (fat: FatPtr)
        requires
            heap.wf(),
            self.decode(*heap) is Some,
        ensures
            Some(fat) == self.decode(*heap),
    {
        match self.try_into_fat_ptr(heap) {
            Some(fat) => fat,
            None => unreached(),
        }
    }
}

impl From<FatPtr> for TaggedPtr {
    fn from(ptr: FatPtr) -> (tagged: TaggedPtr) {
        match ptr {
            FatPtr::ArrayU8(raw) => TaggedPtr::object(raw),
            FatPtr::ArrayU16(raw) => TaggedPtr::object(raw),
            FatPtr::ArrayU32(raw) => TaggedPtr::object(raw),
            FatPtr::Dict(raw) => TaggedPtr::object(raw),
            FatPtr::Function(raw) => TaggedPtr::object(raw),
            FatPtr::List(raw) => TaggedPtr::object(raw),
            FatPtr::Nil => TaggedPtr::nil(),
            FatPtr::Number(value) => TaggedPtr::number(value),
            FatPtr::NumberObject(raw) => TaggedPtr::object(raw),
            FatPtr::Pair(raw) => TaggedPtr::pair(raw),
            FatPtr::Partial(raw) => TaggedPtr::object(raw),
            FatPtr::Text(raw) => TaggedPtr::object(raw),
            FatPtr::Symbol(raw) => TaggedPtr::symbol(raw),
            FatPtr::Upvalue(raw) => TaggedPtr::object(raw),
        }
    }
}

impl FromSpecImpl<FatPtr> for TaggedPtr {
    open spec fn obeys_from_spec() -> bool {
        true
    }

    open spec fn from_spec(ptr: FatPtr) -> TaggedPtr {
        TaggedPtr::of_fat(ptr)
    }
}

/// Whether `ptr` is what a tagged pointer can stand for in `heap`: an
/// integer fits beside the tag, a pointer is not null and has its two low
/// bits clear, and an object that is neither a symbol nor a pair has a
/// header in `heap` that names its type.
pub open spec fn encodable(ptr: FatPtr, heap: StickyImmixHeap<ObjectHeader>) -> bool {
    match ptr {
        FatPtr::Nil => true,
        FatPtr::Number(value) => number_fits(value as int),
        FatPtr::Symbol(raw) => raw.addr() != 0 && raw.addr() % 4 == 0,
        FatPtr::Pair(raw) => raw.addr() != 0 && raw.addr() % 4 == 0,
        _ => {
            let raw = ptr.raw()->0;
            &&& raw.addr() != 0
            &&& raw.addr() % 4 == 0
            &&& heap.header_of(raw) matches Some(header) && FatPtr::for_type(
                header.spec_type_id(),
                raw,
            ) == Some(ptr)
        },
    }
}

/// The word of a pointer with a tag gives back the tag and the pointer.
pub proof fn lemma_tagged_word(raw: RawPtr, tag: usize)
    requires
        raw.addr() % 4 == 0,
        tag <= TAG_MASK,
    ensures
        raw.spec_tag(tag) % 4 == tag,
        RawPtr::spec_untag(raw.spec_tag(tag)) == raw,
        raw.addr() != 0 ==> raw.spec_tag(tag) != 0,
{
    raw.lemma_addr_bounds();
    let addr = raw.addr() as usize;
    lemma_tag_untag(addr, tag);
    let word = raw.spec_tag(tag);
    assert(word & 0x3 == word % 4) by (bit_vector);
    RawPtr::lemma_at_addr(raw);
    if tag == 0 {
        assert(word == addr);
    }
}

/// Encoding what a tagged pointer can stand for and decoding the word
/// again gives back what was encoded.
pub proof fn lemma_tag_round_trip(ptr: FatPtr, heap: StickyImmixHeap<ObjectHeader>)
    requires
        encodable(ptr, heap),
    ensures
        TaggedPtr::of_fat(ptr).decode(heap) == Some(ptr),
{
    broadcast use TaggedPtr::lemma_word;

    match ptr {
        FatPtr::Nil => {},
        FatPtr::Number(value) => {
            lemma_number_word(value);
            lemma_number_round_trip(value);
        },
        FatPtr::Symbol(raw) => {
            lemma_tagged_word(raw, TAG_SYMBOL);
        },
        FatPtr::Pair(raw) => {
            lemma_tagged_word(raw, TAG_PAIR);
        },
        _ => {
            lemma_tagged_word(ptr.raw()->0, TAG_OBJECT);
        },
    }
}

/// The zero word is nil, and nil is the zero word.
pub proof fn lemma_nil(heap: StickyImmixHeap<ObjectHeader>)
    ensures
        TaggedPtr::of_word(0).decode(heap) == Some(FatPtr::Nil),
        TaggedPtr::of_fat(FatPtr::Nil).word() == 0,
        TaggedPtr::of_fat(FatPtr::Nil) == TaggedPtr::of_word(0),
{
    broadcast use TaggedPtr::lemma_word;

}

/// An integer that fits beside the tag, negative or not, is decoded
/// from the tagged pointer that holds it.
pub proof fn lemma_number_tag_round_trip(value: isize, heap: StickyImmixHeap<ObjectHeader>)
    requires
        number_fits(value as int),
    ensures
        TaggedPtr::of_fat(FatPtr::Number(value)).decode(heap) == Some(FatPtr::Number(value)),
{
    lemma_tag_round_trip(FatPtr::Number(value), heap);
}

} // verus!
