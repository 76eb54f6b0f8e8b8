//! The instructions of the virtual machine, the code they make up, and
//! the place in the code that is run next.

use vstd::prelude::*;
use crate::allocation::{AllocHeader, AllocObject, ArraySize, HeapData, RawPtr};
use crate::array::{grown_capacity, Array, List, INTERIOR_ONLY};
use crate::items::ArrayItem;
use crate::block_list::BlockList;
use crate::codec::{
    get_u32, get_u64, lemma_u32_round_trip, lemma_u64_round_trip, part, put_bytes, put_u32,
    put_u64, u32_at, u32_le, u64_at, u64_le,
};
use crate::errors::{ErrorKind, RuntimeError};
use crate::heap::{as_alloc_result, header_for, is_alloc_error, kept_outside, Heap};
use crate::mutator_view::MutatorView;
use crate::ptrs::{CellPtr, ScopedPtr, TaggedCellPtr, TaggedScopedPtr};
use crate::raw_array::{apart, lemma_fresh_apart, RawArray};
use crate::sticky_immix_heap::alloc_spec;
use crate::tagged_ptr::TaggedPtr;
use crate::type_list::TypeList;

verus! {

/// A register of the virtual machine.
pub type Register = u8;

/// An integer that is held in an instruction.
pub type LiteralInteger = i16;

/// An array of instructions.
pub type ArrayOpcode = Array<Opcode>;

/// The place of a literal in the list of literals of a piece of code.
pub type LiteralId = u16;

/// The literals of a piece of code.
pub type Literals = List;

/// The place of an upvalue.
pub type UpvalueId = u8;

/// The target of a jump, counted in instructions from the jump.
pub type JumpOffset = i16;

/// The offset of a jump whose target is not known yet.
pub const JUMP_UNKNOWN: i16 = 0x7fff;

/// An instruction of the virtual machine.
#[derive(Copy, Clone, Debug, PartialEq, Eq, Structural)]
pub enum Opcode {
    Add { dest: Register, a: Register, b: Register },
    LoadLiteral { dest: Register, literal_id: LiteralId },
    LoadInteger { dest: Register, integer: LiteralInteger },
    Jump { offset: JumpOffset },
    JumpIfTrue { test: Register, offset: JumpOffset },
    JumpIfNotTrue { test: Register, offset: JumpOffset },
}

/// The number of sixteen bits that stands for the signed number `x` in
/// two's complement.
pub open spec fn i16_bits(x: i16) -> u16 {
    if x >= 0 {
        x as u16
    } else {
        (x + 0x1_0000) as u16
    }
}

/// The signed number that the sixteen bits of `x` stand for in two's complement.
pub open spec fn bits_i16(x: u16) -> i16 {
    if x <= i16::MAX {
        x as i16
    } else {
        (x - 0x1_0000) as i16
    }
}

/// The number of sixteen bits that stands for the signed number `x`.
pub fn i16_to_bits(x: i16) -> (bits: u16)
    ensures
        bits == i16_bits(x),
        bits_i16(bits) == x,
{
    if x >= 0 {
        x as u16
    } else {
        u16::MAX - ((-(x + 1)) as u16)
    }
}

/// The signed number that the sixteen bits of `x` stand for.
pub fn bits_to_i16(x: u16) -> (n: i16)
    ensures
        n == bits_i16(x),
        i16_bits(n) == x,
{
    if x <= i16::MAX as u16 {
        x as i16
    } else {
        -((u16::MAX - x) as i16) - 1
    }
}

impl Opcode {
    /// The same instruction with the offset `offset`, if it is a jump.
    pub open spec fn with_offset(self, offset: JumpOffset) -> Option<Opcode> {
        match self {
            Opcode::Jump { offset: _ } => Some(Opcode::Jump { offset }),
            Opcode::JumpIfTrue { test, offset: _ } => Some(Opcode::JumpIfTrue { test, offset }),
            Opcode::JumpIfNotTrue { test, offset: _ } => Some(
                Opcode::JumpIfNotTrue { test, offset },
            ),
            _ => None,
        }
    }

    /// The four bytes that stand for the instruction: its kind, a
    /// register, and a number of sixteen bits or two more registers.
    pub open spec fn bytes(self) -> Seq<u8> {
        match self {
            Opcode::Add { dest, a, b } => seq![0u8, dest, a, b],
            Opcode::LoadLiteral { dest, literal_id } => seq![
                1u8,
                dest,
                (literal_id % 256) as u8,
                (literal_id / 256) as u8,
            ],
            Opcode::LoadInteger { dest, integer } => seq![
                2u8,
                dest,
                (i16_bits(integer) % 256) as u8,
                (i16_bits(integer) / 256) as u8,
            ],
            Opcode::Jump { offset } => seq![
                3u8,
                0u8,
                (i16_bits(offset) % 256) as u8,
                (i16_bits(offset) / 256) as u8,
            ],
            Opcode::JumpIfTrue { test, offset } => seq![
                4u8,
                test,
                (i16_bits(offset) % 256) as u8,
                (i16_bits(offset) / 256) as u8,
            ],
            Opcode::JumpIfNotTrue { test, offset } => seq![
                5u8,
                test,
                (i16_bits(offset) % 256) as u8,
                (i16_bits(offset) / 256) as u8,
            ],
        }
    }

    /// The instruction that the four bytes stand for, if they stand for one.
    pub open spec fn of_bytes(bytes: Seq<u8>) -> Option<Opcode> {
        let wide = (bytes[2] + 256 * bytes[3]) as u16;
        if bytes.len() != 4 {
            None
        } else if bytes[0] == 0 {
            Some(Opcode::Add { dest: bytes[1], a: bytes[2], b: bytes[3] })
        } else if bytes[0] == 1 {
            Some(Opcode::LoadLiteral { dest: bytes[1], literal_id: wide })
        } else if bytes[0] == 2 {
            Some(Opcode::LoadInteger { dest: bytes[1], integer: bits_i16(wide) })
        } else if bytes[0] == 3 && bytes[1] == 0 {
            Some(Opcode::Jump { offset: bits_i16(wide) })
        } else if bytes[0] == 4 {
            Some(Opcode::JumpIfTrue { test: bytes[1], offset: bits_i16(wide) })
        } else if bytes[0] == 5 {
            Some(Opcode::JumpIfNotTrue { test: bytes[1], offset: bits_i16(wide) })
        } else {
            None
        }
    }
}

/// The four bytes of an instruction with a number of sixteen bits in it.
fn wide_bytes(kind: u8, register: u8, wide: u16) -> (bytes: Vec<u8>)
    ensures
        bytes@ == seq![kind, register, (wide % 256) as u8, (wide / 256) as u8],
{
    let mut bytes: Vec<u8> = Vec::new();
    bytes.push(kind);
    bytes.push(register);
    bytes.push((wide % 256) as u8);
    bytes.push((wide / 256) as u8);
    assert(bytes@ =~= seq![kind, register, (wide % 256) as u8, (wide / 256) as u8]);
    bytes
}

impl HeapData for Opcode {
    open spec fn spec_size() -> ArraySize {
        4
    }

    open spec fn spec_bytes(&self) -> Seq<u8> {
        self.bytes()
    }

    open spec fn spec_from_bytes(bytes: Seq<u8>) -> Option<Opcode> {
        Opcode::of_bytes(bytes)
    }

    fn object_size() -> (size: ArraySize) {
        4
    }

    fn to_bytes(&self) -> (bytes: Vec<u8>) {
        match *self {
            Opcode::Add { dest, a, b } => {
                let mut bytes: Vec<u8> = Vec::new();
                bytes.push(0);
                bytes.push(dest);
                bytes.push(a);
                bytes.push(b);
                assert(bytes@ =~= seq![0u8, dest, a, b]);
                bytes
            },
            Opcode::LoadLiteral { dest, literal_id } => wide_bytes(1, dest, literal_id),
            Opcode::LoadInteger { dest, integer } => wide_bytes(2, dest, i16_to_bits(integer)),
            Opcode::Jump { offset } => wide_bytes(3, 0, i16_to_bits(offset)),
            Opcode::JumpIfTrue { test, offset } => wide_bytes(4, test, i16_to_bits(offset)),
            Opcode::JumpIfNotTrue { test, offset } => wide_bytes(5, test, i16_to_bits(offset)),
        }
    }

    fn from_bytes(bytes: &Vec<u8>) -> (object: Option<Opcode>) {
        if bytes.len() != 4 {
            return None;
        }
        let wide: u16 = bytes[2] as u16 + 256 * (bytes[3] as u16);
        match bytes[0] {
            0 => Some(Opcode::Add { dest: bytes[1], a: bytes[2], b: bytes[3] }),
            1 => Some(Opcode::LoadLiteral { dest: bytes[1], literal_id: wide }),
            2 => Some(Opcode::LoadInteger { dest: bytes[1], integer: bits_to_i16(wide) }),
            3 => if bytes[1] == 0 {
                Some(Opcode::Jump { offset: bits_to_i16(wide) })
            } else {
                None
            },
            4 => Some(Opcode::JumpIfTrue { test: bytes[1], offset: bits_to_i16(wide) }),
            5 => Some(Opcode::JumpIfNotTrue { test: bytes[1], offset: bits_to_i16(wide) }),
            _ => None,
        }
    }

    proof fn lemma_size() {
    }

    proof fn lemma_round_trip(&self) {
    }
}

impl ArrayItem for Opcode {
    open spec fn spec_array_type() -> TypeList {
        TypeList::ArrayOpcode
    }

    fn array_type() -> (id: TypeList) {
        TypeList::ArrayOpcode
    }
}

/// The error of an evaluation that went wrong for the reason `reason`.
pub fn err_eval(reason: &str) -> (err: RuntimeError)
    ensures
        err.kind() matches ErrorKind::EvalError(text) && text@ == reason@,
        err.pos() is None,
{
    RuntimeError::new(ErrorKind::EvalError(String::from_str(reason)))
}

/// Whether `kind` is an evaluation error with the reason `reason`.
pub open spec fn is_eval_error(kind: ErrorKind, reason: Seq<char>) -> bool {
    kind matches ErrorKind::EvalError(text) && text@ == reason
}

/// The text of the error of changing the offset of an instruction that
/// is no jump.
pub open spec fn not_a_jump() -> Seq<char> {
    "Cannot modify jump offset for non-jump instruction"@
}

/// A piece of code: its instructions and the literals that they refer to.
#[derive(Copy, Clone)]
pub struct ByteCode {
    code: ArrayOpcode,
    literals: Literals,
}

/// The number of bytes that a `ByteCode` takes up.
pub const BYTE_CODE_SIZE: ArraySize = 64;

impl ByteCode {
    /// The instructions.
    pub closed spec fn code(self) -> ArrayOpcode {
        self.code
    }

    /// The literals.
    pub closed spec fn literals(self) -> Literals {
        self.literals
    }

    /// The code with these instructions and these literals.
    pub closed spec fn with(code: ArrayOpcode, literals: Literals) -> ByteCode {
        ByteCode { code, literals }
    }

    /// A piece of code is its instructions and its literals, and nothing else.
    pub broadcast proof fn lemma_with(code: ArrayOpcode, literals: Literals)
        ensures
            (#[trigger] Self::with(code, literals)).code() == code,
            Self::with(code, literals).literals() == literals,
    {
    }

    /// A piece of code is its instructions and its literals, and nothing else.
    pub broadcast proof fn lemma_parts(self)
        ensures
            #[trigger] Self::with(self.code(), self.literals()) == self,
    {
    }

    /// The instructions and the literals are well-formed arrays in `heap`,
    /// and their items share no byte.
    pub open spec fn wf(self, heap: Heap) -> bool {
        &&& self.code().wf(heap)
        &&& self.literals().wf(heap)
        &&& apart(self.code().data().byte_range(), self.literals().data().byte_range())
    }

    /// Code with no instructions and no literals.
    pub fn new() -> (code: ByteCode)
        ensures
            code.code().len() == 0,
            code.code().data().cap() == 0,
            code.code().data().base() is None,
            code.code().borrow_flag() == INTERIOR_ONLY,
            code.literals().len() == 0,
            code.literals().data().cap() == 0,
            code.literals().data().base() is None,
            code.literals().borrow_flag() == INTERIOR_ONLY,
            forall|heap: Heap| heap.wf() ==> #[trigger] code.wf(heap),
    {
        ByteCode { code: ArrayOpcode::new(), literals: Literals::new() }
    }

    /// Allocates code with no instructions and no literals in the heap.
    pub fn allocate<'guard>(mem: &mut MutatorView<'guard>) -> (r: Result<
        ScopedPtr<'guard>,
        RuntimeError,
    >)
        requires
            old(mem).wf(),
        ensures
            final(mem).wf(),
            *final(final(mem).heap) == *final(old(mem).heap),
            final(mem).mem().symbols() == old(mem).mem().symbols(),
            r matches Err(e) ==> is_alloc_error(e),
            alloc_spec(
                old(mem).mem().storage().blocks(),
                final(mem).mem().storage().blocks(),
                header_for::<ByteCode>().spec_bytes(),
                ByteCode::with(
                    Array::with(0, RawArray::with(0, None), INTERIOR_ONLY),
                    Array::with(0, RawArray::with(0, None), INTERIOR_ONLY),
                ).spec_bytes(),
                match r {
                    Ok(scoped) => Ok(scoped.raw()),
                    Err(e) => as_alloc_result::<RawPtr>(Err(e)),
                },
            ),
    {
        let code: ByteCode = ByteCode::new();
        proof {
            RawArray::<Opcode>::lemma_parts(code.code().data());
            RawArray::<TaggedCellPtr>::lemma_parts(code.literals().data());
            Array::<Opcode>::lemma_parts(code.code());
            Array::<TaggedCellPtr>::lemma_parts(code.literals());
            Self::lemma_parts(code);
        }
        mem.allocate(code)
    }

    /// Puts the instruction `op` behind the last instruction. A failure
    /// changes nothing.
    pub fn push(&mut self, mem: &mut MutatorView, op: Opcode) -> (r: Result<(), RuntimeError>)
        requires
            old(mem).wf(),
            old(self).wf(old(mem).mem()),
            old(self).code().len() < old(self).code().data().cap() || old(self).code().data().cap() != 1,
        ensures
            final(mem).wf(),
            *final(final(mem).heap) == *final(old(mem).heap),
            final(mem).mem().symbols() == old(mem).mem().symbols(),
            final(self).wf(final(mem).mem()),
            final(self).literals() == old(self).literals(),
            final(self).literals().items(final(mem).mem()) == old(self).literals().items(
                old(mem).mem(),
            ),
            kept_outside(
                old(mem).mem(),
                final(mem).mem(),
                old(self).code().data().byte_range().0,
                old(self).code().data().byte_range().1,
            ),
            match r {
                Ok(()) => final(self).code().items(final(mem).mem()) == old(self).code().items(
                    old(mem).mem(),
                ).push(op),
                Err(_) => {
                    &&& final(self).code().len() == old(self).code().len()
                    &&& final(self).code().data() == old(self).code().data()
                    &&& final(self).code().items(final(mem).mem()) == old(self).code().items(
                        old(mem).mem(),
                    )
                    &&& BlockList::same(
                        old(mem).mem().storage().blocks(),
                        final(mem).mem().storage().blocks(),
                    )
                },
            },
            old(self).code().push_spec(old(mem).mem(), final(self).code(), final(mem).mem(), op, r),
    {
        let ghost old_heap = mem.mem();
        let r = self.code.push(mem, op);
        proof {
            let new_heap = mem.mem();
            let old_code = old(self).code();
            let range = old_code.data().byte_range();
            self.literals().lemma_kept(old_heap, new_heap, range.0, range.1);
            if r is Ok && !(old_code.len() < old_code.data().cap()) {
                let grown = grown_capacity(old_code.data().cap());
                let grown_len = RawArray::<Opcode>::byte_len(grown);
                let payload = crate::sticky_immix_heap::spliced(
                    old_code.data().resized_bytes(old_heap, grown as u32),
                    RawArray::<Opcode>::byte_len(old_code.len() as int),
                    op.spec_bytes(),
                );
                op.lemma_round_trip();
                if self.literals().data().cap() > 0 {
                    lemma_fresh_apart(
                        old_heap,
                        new_heap,
                        crate::heap::array_header_for(grown_len as u32).spec_bytes(),
                        payload,
                        self.code().data().base()->0,
                        self.literals().data().base()->0.addr(),
                        RawArray::<TaggedCellPtr>::byte_len(self.literals().data().cap() as int),
                    );
                }
            }
        }
        r
    }

    /// Puts an instruction that loads the literal `literal_id` into the
    /// register `dest` behind the last instruction. A failure changes nothing.
    pub fn push_loadlit(&mut self, mem: &mut MutatorView, dest: Register, literal_id: LiteralId) -> (r:
        Result<(), RuntimeError>)
        requires
            old(mem).wf(),
            old(self).wf(old(mem).mem()),
            old(self).code().len() < old(self).code().data().cap() || old(self).code().data().cap() != 1,
        ensures
            final(mem).wf(),
            *final(final(mem).heap) == *final(old(mem).heap),
            final(mem).mem().symbols() == old(mem).mem().symbols(),
            final(self).wf(final(mem).mem()),
            final(self).literals() == old(self).literals(),
            final(self).literals().items(final(mem).mem()) == old(self).literals().items(
                old(mem).mem(),
            ),
            match r {
                Ok(()) => final(self).code().items(final(mem).mem()) == old(self).code().items(
                    old(mem).mem(),
                ).push(Opcode::LoadLiteral { dest, literal_id }),
                Err(_) => {
                    &&& final(self).code().len() == old(self).code().len()
                    &&& final(self).code().data() == old(self).code().data()
                    &&& final(self).code().items(final(mem).mem()) == old(self).code().items(
                        old(mem).mem(),
                    )
                    &&& BlockList::same(
                        old(mem).mem().storage().blocks(),
                        final(mem).mem().storage().blocks(),
                    )
                },
            },
            old(self).code().push_spec(
                old(mem).mem(),
                final(self).code(),
                final(mem).mem(),
                Opcode::LoadLiteral { dest, literal_id },
                r,
            ),
    {
        self.push(mem, Opcode::LoadLiteral { dest, literal_id })
    }

    /// Gives the jump at the place `instruction` the offset `offset`.
    ///
    /// Fails with a bounds error if there is no instruction at that
    /// place, and with an evaluation error if the instruction there is
    /// no jump. A failure changes nothing.
    pub fn update_jump_offset(
        &self,
        mem: &mut MutatorView,
        instruction: ArraySize,
        offset: JumpOffset,
    ) -> (r: Result<(), RuntimeError>)
        requires
            old(mem).wf(),
            self.wf(old(mem).mem()),
        ensures
            final(mem).wf(),
            *final(final(mem).heap) == *final(old(mem).heap),
            final(mem).mem().symbols() == old(mem).mem().symbols(),
            self.wf(final(mem).mem()),
            self.literals().items(final(mem).mem()) == self.literals().items(old(mem).mem()),
            BlockList::same_shape(
                old(mem).mem().storage().blocks(),
                final(mem).mem().storage().blocks(),
            ),
            if instruction >= self.code().len() {
                &&& r matches Err(e) && e.kind() == ErrorKind::BoundsError && e.pos() is None
                &&& BlockList::same(
                    old(mem).mem().storage().blocks(),
                    final(mem).mem().storage().blocks(),
                )
            } else {
                match self.code().items(old(mem).mem())[instruction as int].with_offset(offset) {
                    Some(jump) => {
                        &&& r is Ok
                        &&& self.code().items(final(mem).mem()) == self.code().items(
                            old(mem).mem(),
                        ).update(instruction as int, jump)
                        &&& BlockList::wrote(
                            old(mem).mem().storage().blocks(),
                            final(mem).mem().storage().blocks(),
                            self.code().data().item_addr(instruction as int),
                            jump.spec_bytes(),
                        )
                    },
                    None => {
                        &&& r matches Err(e) && e.pos() is None && is_eval_error(
                            e.kind(),
                            not_a_jump(),
                        )
                        &&& BlockList::same(
                            old(mem).mem().storage().blocks(),
                            final(mem).mem().storage().blocks(),
                        )
                    },
                }
            },
    {
        let ghost old_heap = mem.mem();
        proof {
            BlockList::lemma_same_shape(old_heap.storage().blocks(), old_heap.storage().blocks());
            assert(self.literals().items(mem.mem()) =~= self.literals().items(old_heap));
        }
        let code: Opcode = match self.code.get(mem, instruction) {
            Ok(code) => code,
            Err(e) => { return Err(e); },
        };
        let new_code: Opcode = match code {
            Opcode::Jump { offset: _ } => Opcode::Jump { offset },
            Opcode::JumpIfTrue { test, offset: _ } => Opcode::JumpIfTrue { test, offset },
            Opcode::JumpIfNotTrue { test, offset: _ } => Opcode::JumpIfNotTrue { test, offset },
            _ => { return Err(err_eval("Cannot modify jump offset for non-jump instruction")); },
        };
        match self.code.set(mem, instruction, new_code) {
            Ok(()) => {},
            Err(e) => { return Err(e); },
        }
        proof {
            let new_heap = mem.mem();
            self.code().data().lemma_item_range(old_heap, instruction as int);
            let slot = self.code().data().item_addr(instruction as int);
            let range = self.code().data().byte_range();
            crate::heap::lemma_kept_wider(old_heap, new_heap, slot, slot + 4, range.0, range.1);
            self.literals().lemma_kept(old_heap, new_heap, range.0, range.1);
        }
        Ok(())
    }

    /// Puts `literal` behind the last literal and returns its place,
    /// in sixteen bits. A failure changes nothing.
    pub fn push_lit(&mut self, mem: &mut MutatorView, literal: TaggedScopedPtr) -> (r: Result<
        LiteralId,
        RuntimeError,
    >)
        requires
            old(mem).wf(),
            old(self).wf(old(mem).mem()),
            old(self).literals().len() < old(self).literals().data().cap() || old(self).literals().data().cap() != 1,
        ensures
            final(mem).wf(),
            *final(final(mem).heap) == *final(old(mem).heap),
            final(mem).mem().symbols() == old(mem).mem().symbols(),
            final(self).wf(final(mem).mem()),
            final(self).code() == old(self).code(),
            final(self).code().items(final(mem).mem()) == old(self).code().items(old(mem).mem()),
            kept_outside(
                old(mem).mem(),
                final(mem).mem(),
                old(self).literals().data().byte_range().0,
                old(self).literals().data().byte_range().1,
            ),
            match r {
                Ok(lit_id) => {
                    &&& lit_id == old(self).literals().len() % 0x1_0000
                    &&& final(self).literals().items(final(mem).mem()) == old(self).literals().items(old(mem).mem()).push(TaggedCellPtr::of(literal.tagged()))
                },
                Err(_) => {
                    &&& final(self).literals().len() == old(self).literals().len()
                    &&& final(self).literals().data() == old(self).literals().data()
                    &&& final(self).literals().items(final(mem).mem()) == old(self).literals().items(old(mem).mem())
                    &&& BlockList::same(
                        old(mem).mem().storage().blocks(),
                        final(mem).mem().storage().blocks(),
                    )
                },
            },
            old(self).literals().push_spec(
                old(mem).mem(),
                final(self).literals(),
                final(mem).mem(),
                TaggedCellPtr::of(literal.tagged()),
                match r {
                    Ok(_) => Ok(()),
                    Err(e) => Err(e),
                },
            ),
    {
        let ghost old_heap = mem.mem();
        let lit_id: u16 = (self.literals.length() % 0x1_0000) as u16;
        let cell: TaggedCellPtr = TaggedCellPtr::new_with(literal);
        proof {
            TaggedCellPtr::lemma_tagged(cell);
        }
        let r = self.literals.push(mem, cell);
        proof {
            let new_heap = mem.mem();
            let old_literals = old(self).literals();
            let range = old_literals.data().byte_range();
            self.code().lemma_kept(old_heap, new_heap, range.0, range.1);
            if r is Ok && !(old_literals.len() < old_literals.data().cap()) {
                let grown = grown_capacity(old_literals.data().cap());
                let grown_len = RawArray::<TaggedCellPtr>::byte_len(grown);
                let payload = crate::sticky_immix_heap::spliced(
                    old_literals.data().resized_bytes(old_heap, grown as u32),
                    RawArray::<TaggedCellPtr>::byte_len(old_literals.len() as int),
                    cell.spec_bytes(),
                );
                cell.lemma_round_trip();
                if self.code().data().cap() > 0 {
                    lemma_fresh_apart(
                        old_heap,
                        new_heap,
                        crate::heap::array_header_for(grown_len as u32).spec_bytes(),
                        payload,
                        self.literals().data().base()->0,
                        self.code().data().base()->0.addr(),
                        RawArray::<Opcode>::byte_len(self.code().data().cap() as int),
                    );
                }
            }
        }
        match r {
            Ok(()) => Ok(lit_id),
            Err(e) => Err(e),
        }
    }

    /// The place of the last instruction.
    pub fn last_instruction(&self) -> (index: ArraySize)
        requires
            self.code().len() > 0,
        ensures
            index == self.code().len() - 1,
    {
        self.code.length() - 1
    }

    /// The place that the next instruction that is pushed will have.
    pub fn next_instruction(&self) -> (index: ArraySize)
        ensures
            index == self.code().len(),
    {
        self.code.length()
    }
}

impl HeapData for ByteCode {
    open spec fn spec_size() -> ArraySize {
        BYTE_CODE_SIZE
    }

    open spec fn spec_bytes(&self) -> Seq<u8> {
        self.code().spec_bytes() + self.literals().spec_bytes()
    }

    open spec fn spec_from_bytes(bytes: Seq<u8>) -> Option<ByteCode> {
        if bytes.len() != BYTE_CODE_SIZE {
            None
        } else {
            match (
                ArrayOpcode::spec_from_bytes(bytes.subrange(0, 32)),
                Literals::spec_from_bytes(bytes.subrange(32, 64)),
            ) {
                (Some(code), Some(literals)) => Some(ByteCode::with(code, literals)),
                _ => None,
            }
        }
    }

    fn object_size() -> (size: ArraySize) {
        BYTE_CODE_SIZE
    }

    fn to_bytes(&self) -> (bytes: Vec<u8>) {
        proof {
            self.code().lemma_round_trip();
            self.literals().lemma_round_trip();
        }
        let mut bytes: Vec<u8> = self.code.to_bytes();
        let literals: Vec<u8> = self.literals.to_bytes();
        put_bytes(&mut bytes, &literals);
        bytes
    }

    fn from_bytes(bytes: &Vec<u8>) -> (object: Option<ByteCode>) {
        if bytes.len() != BYTE_CODE_SIZE as usize {
            return None;
        }
        let code: ArrayOpcode = match ArrayOpcode::from_bytes(&part(bytes, 0, 32)) {
            Some(code) => code,
            None => { return None; },
        };
        let literals: Literals = match Literals::from_bytes(&part(bytes, 32, 64)) {
            Some(literals) => literals,
            None => { return None; },
        };
        Some(ByteCode { code, literals })
    }

    proof fn lemma_size() {
    }

    proof fn lemma_round_trip(&self) {
        self.code().lemma_round_trip();
        self.literals().lemma_round_trip();
        let bytes = self.spec_bytes();
        assert(bytes.subrange(0, 32) =~= self.code().spec_bytes());
        assert(bytes.subrange(32, 64) =~= self.literals().spec_bytes());
        ByteCode::lemma_parts(*self);
    }
}

impl AllocObject<TypeList> for ByteCode {
    open spec fn spec_type_id() -> TypeList {
        TypeList::ByteCode
    }

    fn type_id() -> (id: TypeList) {
        TypeList::ByteCode
    }
}

/// A piece of code and the place in it of the instruction that is run next.
#[derive(Copy, Clone, Debug, PartialEq, Eq, Structural)]
pub struct InstructionStream {
    instructions: CellPtr,
    ip: ArraySize,
}

/// The number of bytes that an `InstructionStream` takes up.
pub const INSTRUCTION_STREAM_SIZE: ArraySize = 16;

impl InstructionStream {
    /// The pointer to the code.
    pub closed spec fn instructions(self) -> CellPtr {
        self.instructions
    }

    /// The place of the instruction that is run next.
    pub closed spec fn ip(self) -> ArraySize {
        self.ip
    }

    /// The stream at the place `ip` of the code at `instructions`.
    pub closed spec fn with(instructions: CellPtr, ip: ArraySize) -> InstructionStream {
        InstructionStream { instructions, ip }
    }

    /// A stream is its pointer and its place, and nothing else.
    pub broadcast proof fn lemma_with(instructions: CellPtr, ip: ArraySize)
        ensures
            (#[trigger] Self::with(instructions, ip)).instructions() == instructions,
            Self::with(instructions, ip).ip() == ip,
    {
    }

    /// A stream is its pointer and its place, and nothing else.
    pub broadcast proof fn lemma_parts(self)
        ensures
            #[trigger] Self::with(self.instructions(), self.ip()) == self,
    {
    }

    /// The code that the stream runs, if the bytes that it points to
    /// stand for code.
    pub open spec fn code(self, heap: Heap) -> Option<ByteCode> {
        heap.object_at::<ByteCode>(self.instructions().raw())
    }

    /// The stream points to code that is well-formed in `heap`.
    pub open spec fn wf(self, heap: Heap) -> bool {
        self.code(heap) matches Some(code) && code.wf(heap)
    }

    /// The place that a jump by `offset` from the place `ip` leads to:
    /// their sum, in thirty-two bits.
    pub open spec fn jump_target(ip: ArraySize, offset: JumpOffset) -> ArraySize {
        if ip + offset < 0 {
            (ip + offset + 0x1_0000_0000) as u32
        } else if ip + offset > u32::MAX {
            (ip + offset - 0x1_0000_0000) as u32
        } else {
            (ip + offset) as u32
        }
    }

    /// A stream at the first instruction of `code`.
    pub fn new(code: ScopedPtr<'_>) -> (stream: InstructionStream)
        ensures
            stream == Self::with(CellPtr::of(code.raw()), 0),
    {
        InstructionStream { instructions: CellPtr::new_with(code), ip: 0 }
    }

    /// Allocates a stream at the first instruction of `code` in the heap.
    pub fn allocate<'guard>(mem: &mut MutatorView<'guard>, code: ScopedPtr<'_>) -> (r: Result<
        ScopedPtr<'guard>,
        RuntimeError,
    >)
        requires
            old(mem).wf(),
        ensures
            final(mem).wf(),
            *final(final(mem).heap) == *final(old(mem).heap),
            final(mem).mem().symbols() == old(mem).mem().symbols(),
            r matches Err(e) ==> is_alloc_error(e),
            alloc_spec(
                old(mem).mem().storage().blocks(),
                final(mem).mem().storage().blocks(),
                header_for::<InstructionStream>().spec_bytes(),
                InstructionStream::with(CellPtr::of(code.raw()), 0).spec_bytes(),
                match r {
                    Ok(scoped) => Ok(scoped.raw()),
                    Err(e) => as_alloc_result::<RawPtr>(Err(e)),
                },
            ),
    {
        mem.allocate(InstructionStream::new(code))
    }

    /// Goes on at the place `ip` of the code `code`, as for a call or a return.
    pub fn switch_frame(&mut self, code: ScopedPtr<'_>, ip: ArraySize)
        ensures
            *final(self) == Self::with(CellPtr::of(code.raw()), ip),
            final(self).instructions().raw() == code.raw(),
            final(self).ip() == ip,
    {
        self.instructions.set(code);
        self.ip = ip;
        proof {
            CellPtr::lemma_raw(self.instructions);
        }
    }

    /// The instruction that is run next; the stream moves on to the one
    /// behind it. Fails with a bounds error, and does not move, if the
    /// code has no instruction at the place of the stream.
    pub fn get_next_opcode(&mut self, guard: &MutatorView) -> (r: Result<Opcode, RuntimeError>)
        requires
            guard.wf(),
            old(self).wf(guard.mem()),
        ensures
            final(self).instructions() == old(self).instructions(),
            match r {
                Ok(instr) => {
                    &&& old(self).ip() < old(self).code(guard.mem())->0.code().len()
                    &&& instr == old(self).code(guard.mem())->0.code().items(guard.mem())[old(self).ip() as int]
                    &&& final(self).ip() == old(self).ip() + 1
                },
                Err(e) => {
                    &&& old(self).ip() >= old(self).code(guard.mem())->0.code().len()
                    &&& e.kind() == ErrorKind::BoundsError
                    &&& e.pos() is None
                    &&& final(self).ip() == old(self).ip()
                },
            },
    {
        let code: ByteCode = match self.instructions.get(guard).get::<ByteCode>(guard) {
            Some(code) => code,
            None => vstd::pervasive::unreached(),
        };
        let instr: Opcode = match code.code.get(guard, self.ip) {
            Ok(instr) => instr,
            Err(e) => { return Err(e); },
        };
        self.ip = self.ip + 1;
        Ok(instr)
    }

    /// The literal at the place `lit_id` of the list of literals of the
    /// code. Fails with a bounds error if there is no such literal.
    pub fn get_literal(&self, guard: &MutatorView, lit_id: LiteralId) -> (r: Result<
        TaggedPtr,
        RuntimeError,
    >)
        requires
            guard.wf(),
            self.wf(guard.mem()),
        ensures
            match r {
                Ok(literal) => {
                    &&& lit_id < self.code(guard.mem())->0.literals().len()
                    &&& literal == self.code(guard.mem())->0.literals().items(
                        guard.mem(),
                    )[lit_id as int].tagged()
                },
                Err(e) => {
                    &&& lit_id >= self.code(guard.mem())->0.literals().len()
                    &&& e.kind() == ErrorKind::BoundsError
                    &&& e.pos() is None
                },
            },
    {
        let code: ByteCode = match self.instructions.get(guard).get::<ByteCode>(guard) {
            Some(code) => code,
            None => vstd::pervasive::unreached(),
        };
        match code.literals.get(guard, lit_id as ArraySize) {
            Ok(cell) => Ok(cell.get_ptr()),
            Err(e) => Err(e),
        }
    }

    /// The place of the instruction that is run next.
    pub fn get_next_ip(&self) -> (ip: ArraySize)
        ensures
            ip == self.ip(),
    {
        self.ip
    }

    /// Moves the stream by `offset` instructions from where it is.
    pub fn jump(&mut self, offset: JumpOffset)
        ensures
            final(self).instructions() == old(self).instructions(),
            final(self).ip() == Self::jump_target(old(self).ip(), offset),
    {
        let sum: i64 = self.ip as i64 + offset as i64;
        let wrapped: i64 = if sum < 0 {
            sum + 0x1_0000_0000
        } else if sum > u32::MAX as i64 {
            sum - 0x1_0000_0000
        } else {
            sum
        };
        self.ip = wrapped as u32;
    }
}

impl HeapData for InstructionStream {
    open spec fn spec_size() -> ArraySize {
        INSTRUCTION_STREAM_SIZE
    }

    open spec fn spec_bytes(&self) -> Seq<u8> {
        u64_le(self.instructions().raw().addr() as u64) + u32_le(self.ip()) + u32_le(0)
    }

    open spec fn spec_from_bytes(bytes: Seq<u8>) -> Option<InstructionStream> {
        if bytes.len() == INSTRUCTION_STREAM_SIZE && u64_at(bytes, 0) <= usize::MAX {
            Some(
                InstructionStream::with(
                    CellPtr::of(RawPtr::at(u64_at(bytes, 0) as int)),
                    u32_at(bytes, 8),
                ),
            )
        } else {
            None
        }
    }

    fn object_size() -> (size: ArraySize) {
        INSTRUCTION_STREAM_SIZE
    }

    fn to_bytes(&self) -> (bytes: Vec<u8>) {
        let mut bytes: Vec<u8> = Vec::new();
        put_u64(&mut bytes, self.instructions.as_raw().as_word() as u64);
        put_u32(&mut bytes, self.ip);
        put_u32(&mut bytes, 0);
        bytes
    }

    fn from_bytes(bytes: &Vec<u8>) -> (object: Option<InstructionStream>) {
        if bytes.len() != INSTRUCTION_STREAM_SIZE as usize {
            return None;
        }
        let addr: u64 = get_u64(bytes, 0);
        if addr > usize::MAX as u64 {
            return None;
        }
        Some(
            InstructionStream {
                instructions: CellPtr::new_raw(RawPtr::new(addr as usize)),
                ip: get_u32(bytes, 8),
            },
        )
    }

    proof fn lemma_size() {
    }

    proof fn lemma_round_trip(&self) {
        let bytes = self.spec_bytes();
        let raw = self.instructions().raw();
        raw.lemma_addr_bounds();
        assert(bytes.subrange(0, 8) =~= u64_le(raw.addr() as u64));
        assert(bytes.subrange(8, 12) =~= u32_le(self.ip()));
        lemma_u64_round_trip(raw.addr() as u64, bytes, 0);
        lemma_u32_round_trip(self.ip(), bytes, 8);
        RawPtr::lemma_at_addr(raw);
        CellPtr::lemma_raw(self.instructions());
        Self::lemma_parts(*self);
    }
}

impl AllocObject<TypeList> for InstructionStream {
    open spec fn spec_type_id() -> TypeList {
        TypeList::InstructionStream
    }

    fn type_id() -> (id: TypeList) {
        TypeList::InstructionStream
    }
}

} // verus!
