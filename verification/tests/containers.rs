use stickyimmix::allocation::HeapData;
use stickyimmix::array::{default_array_growth, Array, ArrayU8, List, DEFAULT_ARRAY_SIZE};
use stickyimmix::containers::{Container, ContainerFromSlice, StackAnyContainer};
use stickyimmix::errors::{ErrorKind, RuntimeError};
use stickyimmix::memory::Memory;
use stickyimmix::mutator_view::MutatorView;
use stickyimmix::opcodes::{ByteCode, InstructionStream, Opcode};
use stickyimmix::ptrs::TaggedScopedPtr;
use stickyimmix::raw_array::RawArray;
use stickyimmix::tagged_ptr::TaggedPtr;
use stickyimmix::traits::Mutator;
use stickyimmix::value::Value;

#[test]
fn arrays_grow_by_half() {
    assert_eq!(default_array_growth(0), Ok(DEFAULT_ARRAY_SIZE));
    assert_eq!(default_array_growth(8), Ok(12));
    assert_eq!(default_array_growth(12), Ok(18));
    assert_eq!(default_array_growth(1), Ok(1));
    assert_eq!(default_array_growth(u32::MAX - 1).unwrap_err().error_kind(), &ErrorKind::BadAllocationRequest);
}

struct Run<F>(F);

impl<F: Fn(&mut MutatorView) -> Result<(), RuntimeError>> Mutator for Run<F> {
    type Input = ();
    type Output = ();

    fn run(&self, mem: &mut MutatorView, _input: ()) -> Result<(), RuntimeError> {
        (self.0)(mem)
    }
}

fn run(f: impl Fn(&mut MutatorView) -> Result<(), RuntimeError>) {
    let mut memory = Memory::new();
    memory.mutate(&Run(f), ()).unwrap();
}

#[test]
fn raw_array_is_zero_and_holds_items() {
    run(|mem| {
        let array: RawArray<u32> = RawArray::with_capacity(mem, 10)?;
        assert_eq!(array.capacity(), 10);
        assert!(array.as_ptr().is_some());
        for i in 0..10 {
            assert_eq!(array.get(mem, i), Some(0));
        }
        assert_eq!(array.get(mem, 10), None);
        assert!(array.set(mem, 3, &0xdead_beef));
        assert!(!array.set(mem, 10, &1));
        assert_eq!(array.get(mem, 3), Some(0xdead_beef));
        assert_eq!(array.get(mem, 2), Some(0));
        assert_eq!(array.get(mem, 4), Some(0));
        let empty: RawArray<u32> = RawArray::new();
        assert_eq!(empty.capacity(), 0);
        assert!(empty.as_ptr().is_none());
        Ok(())
    });
}

#[test]
fn raw_array_asks_for_no_more_bytes_than_can_be_counted() {
    run(|mem| {
        let r: Result<RawArray<u32>, RuntimeError> = RawArray::with_capacity(mem, u32::MAX / 2);
        assert_eq!(r.err().unwrap().error_kind(), &ErrorKind::BadAllocationRequest);
        let r: Result<RawArray<u8>, RuntimeError> = RawArray::with_capacity(mem, 40000);
        assert_eq!(r.err().unwrap().error_kind(), &ErrorKind::BadAllocationRequest);
        Ok(())
    });
}

#[test]
fn array_is_a_stack() {
    run(|mem| {
        let mut array: ArrayU8 = Array::new();
        assert_eq!(array.pop(mem).unwrap_err().error_kind(), &ErrorKind::BoundsError);
        assert_eq!(array.top(mem).unwrap_err().error_kind(), &ErrorKind::BoundsError);
        for i in 0..100u8 {
            array.push(mem, i)?;
            assert_eq!(array.length(), i as u32 + 1);
            assert_eq!(array.top(mem), Ok(i));
        }
        assert_eq!(array.capacity(), 135);
        for i in 0..100u8 {
            assert_eq!(array.get(mem, i as u32), Ok(i));
        }
        assert_eq!(array.get(mem, 100).unwrap_err().error_kind(), &ErrorKind::BoundsError);
        assert_eq!(array.read_ref(mem, 99), Ok(99));
        assert_eq!(array.read_ref(mem, 100).unwrap_err().error_kind(), &ErrorKind::BoundsError);
        array.set(mem, 7, 77)?;
        assert_eq!(array.get(mem, 7), Ok(77));
        assert_eq!(array.set(mem, 100, 1).unwrap_err().error_kind(), &ErrorKind::BoundsError);
        for i in (8..100u8).rev() {
            assert_eq!(array.pop(mem), Ok(i));
        }
        assert_eq!(array.pop(mem), Ok(77));
        assert_eq!(array.length(), 7);
        array.clear(mem)?;
        assert_eq!(array.length(), 0);
        Ok(())
    });
}

#[test]
fn an_exposed_array_refuses_changes() {
    run(|mem| {
        let mut array: ArrayU8 = Array::new();
        array.push(mem, 1)?;
        // the same array with its items exposed to mutation
        let mut bytes = array.to_bytes();
        assert_eq!(bytes.len(), 32);
        bytes[24] = 1;
        let mut exposed: ArrayU8 = ArrayU8::from_bytes(&bytes).unwrap();
        assert_eq!(exposed.length(), 1);
        assert_eq!(exposed.push(mem, 2).unwrap_err().error_kind(), &ErrorKind::MutableBorrowError);
        assert_eq!(exposed.pop(mem).unwrap_err().error_kind(), &ErrorKind::MutableBorrowError);
        assert_eq!(exposed.clear(mem).unwrap_err().error_kind(), &ErrorKind::MutableBorrowError);
        assert_eq!(exposed.length(), 1);
        assert_eq!(exposed.top(mem), Ok(1));
        // a negative flag is kept as it is
        for i in 24..32 {
            bytes[i] = 0xff;
        }
        let negative: ArrayU8 = ArrayU8::from_bytes(&bytes).unwrap();
        assert_eq!(negative.to_bytes(), bytes);
        Ok(())
    });
}

#[test]
fn array_fills_with_copies() {
    run(|mem| {
        let mut array: Array<u16> = Array::new();
        array.fill(mem, 5, 0xabcd)?;
        assert_eq!(array.length(), 5);
        assert_eq!(array.capacity(), 8);
        for i in 0..5 {
            assert_eq!(array.get(mem, i), Ok(0xabcd));
        }
        array.fill(mem, 3, 1)?;
        assert_eq!(array.length(), 5);
        array.fill(mem, 12, 7)?;
        assert_eq!(array.length(), 12);
        assert_eq!(array.capacity(), 12);
        assert_eq!(array.get(mem, 4), Ok(0xabcd));
        assert_eq!(array.get(mem, 5), Ok(7));
        assert_eq!(array.get(mem, 11), Ok(7));
        Ok(())
    });
}

#[test]
fn list_holds_tagged_pointers() {
    run(|mem| {
        let mut list: List = Array::new();
        let sym = mem.lookup_sym("x");
        StackAnyContainer::push(&mut list, mem, sym)?;
        StackAnyContainer::push(&mut list, mem, TaggedScopedPtr::new(mem, TaggedPtr::number(-3)))?;
        assert_eq!(list.length(), 2);
        match StackAnyContainer::top(&list, mem)?.value() {
            Value::Number(n) => assert_eq!(n, -3),
            _ => panic!("not a number"),
        }
        StackAnyContainer::pop(&mut list, mem)?;
        let popped = StackAnyContainer::pop(&mut list, mem)?;
        assert_eq!(popped.get_ptr(), sym.get_ptr());
        assert!(StackAnyContainer::pop(&mut list, mem).is_err());
        Ok(())
    });
}

#[test]
fn an_array_is_made_of_a_slice() {
    run(|mem| {
        let ptr = <Array<u32> as ContainerFromSlice<u32>>::from_slice(mem, &[5, 4, 3, 2, 1])?;
        let array: Array<u32> = ptr.get(mem).unwrap();
        assert_eq!(array.length(), 5);
        assert_eq!(array.capacity(), 5);
        for i in 0..5 {
            assert_eq!(array.get(mem, i), Ok(5 - i));
        }
        let empty = <ArrayU8 as ContainerFromSlice<u8>>::from_slice(mem, &[])?;
        let array: ArrayU8 = empty.get(mem).unwrap();
        assert_eq!(array.length(), 0);
        Ok(())
    });
}

#[test]
fn an_array_lives_in_the_heap() {
    run(|mem| {
        let ptr = ArrayU8::allocate(mem)?;
        let mut array: ArrayU8 = ptr.get(mem).unwrap();
        assert_eq!(array.length(), 0);
        array.push(mem, 9)?;
        assert!(mem.store(ptr.as_raw(), &array));
        let again: ArrayU8 = ptr.get(mem).unwrap();
        assert_eq!(again.length(), 1);
        assert_eq!(again.get(mem, 0), Ok(9));
        Ok(())
    });
}

#[test]
fn bytecode_is_pushed_read_and_patched() {
    run(|mem| {
        let code_ptr = ByteCode::allocate(mem)?;
        let mut code: ByteCode = code_ptr.get(mem).unwrap();
        assert_eq!(code.next_instruction(), 0);
        let lit = code.push_lit(mem, TaggedScopedPtr::new(mem, TaggedPtr::number(42)))?;
        assert_eq!(lit, 0);
        let lit = code.push_lit(mem, TaggedScopedPtr::new(mem, TaggedPtr::number(43)))?;
        assert_eq!(lit, 1);
        code.push_loadlit(mem, 2, lit)?;
        code.push(mem, Opcode::Jump { offset: 0x7fff })?;
        code.push(mem, Opcode::Add { dest: 1, a: 2, b: 3 })?;
        code.push(mem, Opcode::LoadInteger { dest: 4, integer: -5 })?;
        assert_eq!(code.last_instruction(), 3);
        assert_eq!(code.next_instruction(), 4);
        code.update_jump_offset(mem, 1, -2)?;
        assert_eq!(
            code.update_jump_offset(mem, 2, 1).unwrap_err().error_kind(),
            &ErrorKind::EvalError(String::from("Cannot modify jump offset for non-jump instruction"))
        );
        assert_eq!(code.update_jump_offset(mem, 4, 1).unwrap_err().error_kind(), &ErrorKind::BoundsError);
        assert!(mem.store(code_ptr.as_raw(), &code));

        let stream_ptr = InstructionStream::allocate(mem, code_ptr)?;
        let mut stream: InstructionStream = stream_ptr.get(mem).unwrap();
        assert_eq!(stream.get_next_ip(), 0);
        assert_eq!(stream.get_next_opcode(mem), Ok(Opcode::LoadLiteral { dest: 2, literal_id: 1 }));
        assert_eq!(stream.get_next_opcode(mem), Ok(Opcode::Jump { offset: -2 }));
        assert_eq!(stream.get_next_ip(), 2);
        assert_eq!(stream.get_literal(mem, 1), Ok(TaggedPtr::number(43)));
        assert_eq!(stream.get_literal(mem, 2).unwrap_err().error_kind(), &ErrorKind::BoundsError);
        stream.jump(-2);
        assert_eq!(stream.get_next_ip(), 0);
        stream.jump(3);
        assert_eq!(stream.get_next_opcode(mem), Ok(Opcode::LoadInteger { dest: 4, integer: -5 }));
        assert_eq!(stream.get_next_opcode(mem).unwrap_err().error_kind(), &ErrorKind::BoundsError);
        assert_eq!(stream.get_next_ip(), 4);
        stream.switch_frame(code_ptr, 2);
        assert_eq!(stream.get_next_opcode(mem), Ok(Opcode::Add { dest: 1, a: 2, b: 3 }));
        stream.jump(-4);
        assert_eq!(stream.get_next_ip(), u32::MAX);
        Ok(())
    });
}

#[test]
fn any_container_clears_unless_it_refuses() {
    run(|mem| {
        let mut array: ArrayU8 = <ArrayU8 as Container<u8>>::with_capacity(mem, 4)?;
        assert_eq!(<ArrayU8 as Container<u8>>::length(&array), 0);
        assert_eq!(array.capacity(), 4);
        array.push(mem, 5)?;
        array.push(mem, 6)?;
        assert_eq!(<ArrayU8 as Container<u8>>::clear(&mut array, mem), Ok(()));
        assert_eq!(array.length(), 0);
        assert_eq!(array.capacity(), 4);
        array.push(mem, 7)?;
        let mut bytes = array.to_bytes();
        bytes[24] = 1;
        let mut exposed: ArrayU8 = ArrayU8::from_bytes(&bytes).unwrap();
        let refused = <ArrayU8 as Container<u8>>::clear(&mut exposed, mem);
        assert_eq!(refused.unwrap_err().error_kind(), &ErrorKind::MutableBorrowError);
        assert_eq!(exposed.length(), 1);
        assert_eq!(exposed.to_bytes(), bytes);
        Ok(())
    });
}
