//! A Sticky Immix style region allocator with tagged pointers and a
//! mutator-scoped access discipline, for a small dynamic language runtime.
//!
//! Memory is a set of blocks of bytes that lie in a bounded range of
//! addresses. A pointer is an address in that range; it is read and written
//! only through the heap that owns the block it falls in, and the heap is
//! reached only through the view that a running mutator is given.
//!
//! The allocator, from the bottom up:
//! - `address_space`: the range of addresses that blocks are taken from;
//! - `block`, `block_meta`, `bump_block`: a block, its line marks and the
//!   search for holes among them, and the allocation downward in a block;
//! - `block_list`: the blocks of a heap, the parts they play, and the
//!   memory that they make up;
//! - `allocation`, `object_header`, `sticky_immix_heap`, `arena`: size
//!   classes, headers, and the heap that places objects with their headers.
//!
//! The pointers: `tagged_ptr`, `fat_ptr`, `value`, `ptrs`.
//!
//! The runtime on top: `symbol`, `symbol_map`, `heap`, `memory`,
//! `mutator_view`, `traits`, `pair`, and the containers `raw_array`,
//! `array`, `dicts`, `opcodes` with what they are made of.

pub mod constants;
pub mod errors;
pub mod token;

pub mod address_space;
pub mod block;
pub mod block_meta;
pub mod bump_block;
pub mod block_list;
pub mod allocation;
pub mod codec;
pub mod type_list;
pub mod object_header;
pub mod sticky_immix_heap;
pub mod arena;

pub mod tagged_ptr;
pub mod fat_ptr;
pub mod ptrs;
pub mod value;

pub mod symbol;
pub mod symbol_map;
pub mod heap;
pub mod traits;
pub mod mutator_view;
pub mod memory;
pub mod pair;

pub mod raw_array;
pub mod items;
pub mod array;
pub mod containers;
pub mod opcodes;
pub mod dict_item;
pub mod hash_table;
pub mod hashing;
pub mod dicts;
