//! The description tree: the immutable, path-addressed input model.
//!
//! Paths are the only cross-reference mechanism: an entity never holds a
//! direct reference to another, only its path, so reference resolution is
//! always an explicit lookup against the tree.

use vstd::prelude::*;

verus! {

/// Read/write/read-write access declared for a register.
#[derive(Debug, PartialEq, Eq, Clone, Copy)]
pub enum Access {
    Read,
    Write,
    ReadWrite,
}

/// A named bit-field with offset and width within a 32-bit word.
#[derive(Debug, Clone)]
pub struct Field {
    pub name: String,
    pub bit_offset: u32,
    pub bit_size: u32,
    pub description: Option<String>,
}

/// A named bit layout for a register's value.
#[derive(Debug, Clone)]
pub struct Fieldset {
    pub description: Option<String>,
    pub fields: Vec<Field>,
}

/// One hardware register: bit width, access mode and an optional reference
/// (path) to the fieldset describing its bit layout.
#[derive(Debug, Clone)]
pub struct Register {
    pub bit_size: u32,
    pub access: Access,
    pub fieldset: Option<String>,
}

/// A reference (path) to a block describing a nested region.
#[derive(Debug, Clone)]
pub struct BlockRef {
    pub block: String,
}

/// The payload of a block item: a register, or a nested sub-block.
#[derive(Debug, Clone)]
pub enum BlockItemInner {
    Register(Register),
    Block(BlockRef),
}

/// The element count and per-element byte stride of an arrayed item.
#[derive(Debug, Clone, Copy, PartialEq)]
pub struct Array {
    pub len: u32,
    pub stride: u32,
}

/// One entry of a block: a register or nested sub-block at a byte offset
/// relative to the block's own base.
#[derive(Debug, Clone)]
pub struct BlockItem {
    pub name: String,
    pub description: Option<String>,
    pub byte_offset: u32,
    pub array: Option<Array>,
    pub inner: BlockItemInner,
}

/// A named region of address space composed of registers and nested blocks.
#[derive(Debug, Clone)]
pub struct Block {
    pub description: Option<String>,
    pub items: Vec<BlockItem>,
}

/// An interrupt: name and non-negative numeric vector index.
#[derive(Debug, Clone)]
pub struct Interrupt {
    pub name: String,
    pub value: u32,
    pub description: Option<String>,
}

/// A peripheral instance: a base address, and an optional reference (path)
/// to the block describing its register layout.  Without a block reference
/// the peripheral is an opaque address with no typed layout.
#[derive(Debug, Clone)]
pub struct Peripheral {
    pub name: String,
    pub base_address: u64,
    pub description: Option<String>,
    pub block: Option<String>,
}

/// One device: its interrupts and its peripheral instances.
#[derive(Debug, Clone)]
pub struct Device {
    pub interrupts: Vec<Interrupt>,
    pub peripherals: Vec<Peripheral>,
}

/// The whole description tree: blocks and fieldsets addressed by stable
/// path strings.
#[derive(Debug, Clone)]
pub struct Ir {
    pub blocks: Vec<(String, Block)>,
    pub fieldsets: Vec<(String, Fieldset)>,
}

impl Ir {
    /// Whether some block is registered under `path`.
    pub open spec fn has_block(&self, path: Seq<char>) -> bool {
        exists|i: int| 0 <= i < self.blocks@.len() && self.blocks@[i].0@ == path
    }

    /// Whether some fieldset is registered under `path`.
    pub open spec fn has_fieldset(&self, path: Seq<char>) -> bool {
        exists|i: int| 0 <= i < self.fieldsets@.len() && self.fieldsets@[i].0@ == path
    }

    /// Looks a block up by its path.
    pub fn get_block(&self, path: &str) -> (r: Option<&Block>)
        ensures
            r is Some <==> self.has_block(path@),
            r matches Some(b) ==> exists|i: int|
                0 <= i < self.blocks@.len() && self.blocks@[i].0@ == path@ && self.blocks@[i].1
                    == *b,
    {
        let n = self.blocks.len();
        for i in 0..n
            invariant
                n == self.blocks@.len(),
                forall|j: int| 0 <= j < i ==> self.blocks@[j].0@ != path@,
        {
            if crate::order::str_eq(self.blocks[i].0.as_str(), path) {
                return Some(&self.blocks[i].1);
            }
        }
        None
    }

    /// Looks a fieldset up by its path.
    pub fn get_fieldset(&self, path: &str) -> (r: Option<&Fieldset>)
        ensures
            r is Some <==> self.has_fieldset(path@),
            r matches Some(f) ==> exists|i: int|
                0 <= i < self.fieldsets@.len() && self.fieldsets@[i].0@ == path@
                    && self.fieldsets@[i].1 == *f,
    {
        let n = self.fieldsets.len();
        for i in 0..n
            invariant
                n == self.fieldsets@.len(),
                forall|j: int| 0 <= j < i ==> self.fieldsets@[j].0@ != path@,
        {
            if crate::order::str_eq(self.fieldsets[i].0.as_str(), path) {
                return Some(&self.fieldsets[i].1);
            }
        }
        None
    }
}

} // verus!
