//! The register-access runtime the generated code delegates to.
//!
//! A register handle carries a value type, a capability marker and a
//! compile-time base-plus-offset address.  Operations are gated by the
//! capability, so a disallowed operation is not expressible at all; no
//! runtime permission check exists.  The hardware word itself stands as an
//! explicit exclusive borrow in each operation: the contracts state exactly
//! how the word after a call relates to the word before it.
//!
//! The read-then-write pair of `modify` is not atomic: two contexts invoking
//! it on one register concurrently can lose one side's update.  Serialising
//! concurrent access to a register is the caller's duty, by a
//! single-owner-per-peripheral discipline or external mutual exclusion.

use vstd::prelude::*;

use core::marker::PhantomData;

verus! {

/// Capability marker: read and write allowed.
#[derive(Clone, Copy, PartialEq, Eq)]
pub struct RW;

/// Capability marker: read-only.
#[derive(Clone, Copy, PartialEq, Eq)]
pub struct R;

/// Capability marker: write-only.
#[derive(Clone, Copy, PartialEq, Eq)]
pub struct W;

/// An access capability: one of the three markers, and nothing else.
pub trait Access: crate::sealed::Access + Copy {

}

impl Access for R {

}

impl Access for W {

}

impl Access for RW {

}

/// Capabilities that permit reading.
pub trait Read: Access {

}

impl Read for R {

}

impl Read for RW {

}

/// Capabilities that permit writing.
pub trait Write: Access {

}

impl Write for W {

}

impl Write for RW {

}

/// A register value type with a known default, the value `write` starts
/// from before its closure runs.
pub trait DefaultValue: Copy {
    /// The default as a specification-level value.
    spec fn spec_default() -> Self;

    /// Builds the default value.
    fn default_value() -> (r: Self)
        ensures
            r == Self::spec_default(),
    ;
}

impl DefaultValue for u8 {
    open spec fn spec_default() -> u8 {
        0u8
    }

    fn default_value() -> u8 {
        0
    }
}

impl DefaultValue for u16 {
    open spec fn spec_default() -> u16 {
        0u16
    }

    fn default_value() -> u16 {
        0
    }
}

impl DefaultValue for u32 {
    open spec fn spec_default() -> u32 {
        0u32
    }

    fn default_value() -> u32 {
        0
    }
}

impl DefaultValue for u64 {
    open spec fn spec_default() -> u64 {
        0u64
    }

    fn default_value() -> u64 {
        0
    }
}

/// One hardware register: a value type `T`, a capability `A`, and a
/// compile-time base-plus-offset address.  The handle itself is a zero-size,
/// copyable marker; it carries no runtime state.
pub struct Reg<T: Copy, A: Access, const BASE_ADDRESS: usize, const ADDRESS_OFFSET: usize>(
    PhantomData<(T, A)>,
);

impl<T: Copy, A: Access, const BASE_ADDRESS: usize, const ADDRESS_OFFSET: usize> Clone for Reg<
    T,
    A,
    BASE_ADDRESS,
    ADDRESS_OFFSET,
> {
    fn clone(&self) -> Self {
        Reg(PhantomData)
    }
}

impl<T: Copy, A: Access, const BASE_ADDRESS: usize, const ADDRESS_OFFSET: usize> Copy for Reg<
    T,
    A,
    BASE_ADDRESS,
    ADDRESS_OFFSET,
> {

}

impl<T: Copy, A: Access, const BASE_ADDRESS: usize, const ADDRESS_OFFSET: usize> Reg<
    T,
    A,
    BASE_ADDRESS,
    ADDRESS_OFFSET,
> {
    /// A handle for the register at `BASE_ADDRESS + ADDRESS_OFFSET`.
    pub fn new() -> Self {
        Reg(PhantomData)
    }

    /// The register's resolved address.
    pub fn ptr(&self) -> (addr: usize)
        requires
            BASE_ADDRESS + ADDRESS_OFFSET <= usize::MAX,
        ensures
            addr == BASE_ADDRESS + ADDRESS_OFFSET,
    {
        BASE_ADDRESS + ADDRESS_OFFSET
    }
}

impl<T: Copy, A: Read, const BASE_ADDRESS: usize, const ADDRESS_OFFSET: usize> Reg<
    T,
    A,
    BASE_ADDRESS,
    ADDRESS_OFFSET,
> {
    /// One load of the register's word; the word is not disturbed.
    pub fn read(&self, hw: &T) -> (r: T)
        ensures
            r == *hw,
    {
        *hw
    }
}

impl<T: Copy, A: Write, const BASE_ADDRESS: usize, const ADDRESS_OFFSET: usize> Reg<
    T,
    A,
    BASE_ADDRESS,
    ADDRESS_OFFSET,
> {
    /// One store of `val` to the register's word.
    pub fn write_value(&self, hw: &mut T, val: T)
        ensures
            *final(hw) == val,
    {
        *hw = val;
    }
}

impl<T: Copy + DefaultValue, A: Write, const BASE_ADDRESS: usize, const ADDRESS_OFFSET: usize> Reg<
    T,
    A,
    BASE_ADDRESS,
    ADDRESS_OFFSET,
> {
    /// Builds a default-valued word, lets `f` turn it into the value to
    /// store, and performs one store of that value.  The register's prior
    /// contents are discarded, never read or merged: the stored word depends
    /// on `f` and the default alone, as the contract shows by not speaking
    /// of the old word at all.
    pub fn write<F: FnOnce(T) -> T>(&self, hw: &mut T, f: F) -> (r: T)
        requires
            call_requires(f, (T::spec_default(),)),
        ensures
            call_ensures(f, (T::spec_default(),), r),
            *final(hw) == r,
    {
        let val = f(T::default_value());
        *hw = val;
        val
    }
}

impl<T: Copy, A: Read + Write, const BASE_ADDRESS: usize, const ADDRESS_OFFSET: usize> Reg<
    T,
    A,
    BASE_ADDRESS,
    ADDRESS_OFFSET,
> {
    /// Exactly one read followed by exactly one store: `f` maps the word
    /// that was read to the word that is stored.  The pair is not atomic.
    pub fn modify<F: FnOnce(T) -> T>(&self, hw: &mut T, f: F) -> (r: T)
        requires
            call_requires(f, (*old(hw),)),
        ensures
            call_ensures(f, (*old(hw),), r),
            *final(hw) == r,
    {
        let val = f(*hw);
        *hw = val;
        val
    }
}

/// The new word after writing `value` into the bits selected by
/// `mask << offset`: those bits are replaced, all others kept.
pub open spec fn field_inject(word: u32, offset: u32, mask: u32, value: u32) -> u32 {
    (word & !(mask << offset)) | (value << offset)
}

/// The value held in the bits selected by `mask << offset`.
pub open spec fn field_extract(word: u32, offset: u32, mask: u32) -> u32 {
    (word >> offset) & mask
}

/// Law: a representable value, injected and extracted again, comes back
/// unchanged, for every backing word.
pub proof fn lemma_field_roundtrip(word: u32, offset: u32, mask: u32, value: u32)
    requires
        offset < 32,
        ((mask << offset) >> offset) == mask,
        value & mask == value,
    ensures
        field_extract(field_inject(word, offset, mask, value), offset, mask) == value,
{
    assert((((word & !(mask << offset)) | (value << offset)) >> offset) & mask == value)
        by (bit_vector)
        requires
            offset < 32,
            ((mask << offset) >> offset) == mask,
            value & mask == value,
    ;
}

/// Law: injecting a value touches only the bits selected by the shifted
/// mask; every bit outside it keeps the backing word's value.
pub proof fn lemma_field_inject_preserves_rest(word: u32, offset: u32, mask: u32, value: u32)
    requires
        value & mask == value,
    ensures
        field_inject(word, offset, mask, value) & !(mask << offset) == word & !(mask << offset),
{
    assert((((word & !(mask << offset)) | (value << offset)) & !(mask << offset)) == (word & !(mask
        << offset))) by (bit_vector)
        requires
            value & mask == value,
    ;
}


/// The extracted bits never exceed the mask.
pub proof fn lemma_extract_le_mask(word: u32, offset: u32, mask: u32)
    ensures
        field_extract(word, offset, mask) <= mask,
{
    assert((word >> offset) & mask <= mask) by (bit_vector);
}

/// A bit-field view over a 32-bit backing word: `get`/`set` touch exactly
/// the bits in `[OFFSET, OFFSET + width)`, where `MASK` is the width's
/// all-ones pattern.  The view checks the word out by value; the owner
/// writes `word()` back, so no two views mutate one word at a time.
pub struct RegisterField<const OFFSET: u32, const MASK: u32, V> {
    data: u32,
    marker: PhantomData<V>,
}

impl<const OFFSET: u32, const MASK: u32, V> RegisterField<OFFSET, MASK, V> {
    /// The backing word as a specification-level value.
    pub closed spec fn spec_word(&self) -> u32 {
        self.data
    }

    /// The backing word, to store back to the register.
    pub fn word(&self) -> (w: u32)
        ensures
            w == self.spec_word(),
    {
        self.data
    }
}

impl<const OFFSET: u32, const MASK: u32> RegisterField<OFFSET, MASK, u8> {
    /// The offset/mask pair selects at most eight bits that fit the word.
    pub open spec fn wf() -> bool {
        OFFSET < 32 && MASK <= 0xff && ((MASK << OFFSET) >> OFFSET) == MASK
    }

    /// A view over the given backing word.
    pub fn from_register(data: u32) -> (r: Self)
        ensures
            r.spec_word() == data,
    {
        RegisterField { data, marker: PhantomData }
    }

    /// Extracts the bits in `[OFFSET, OFFSET + width)`.
    pub fn get(&self) -> (v: u8)
        requires
            Self::wf(),
        ensures
            v as u32 == field_extract(self.spec_word(), OFFSET, MASK),
    {
        let filtered = (self.data >> OFFSET) & MASK;
        proof {
            lemma_extract_le_mask(self.data, OFFSET, MASK);
        }
        filtered as u8
    }

    /// Injects `value` into the bits in `[OFFSET, OFFSET + width)` without
    /// disturbing any other bit.
    pub fn set(&mut self, value: u8)
        requires
            Self::wf(),
            (value as u32) & MASK == value as u32,
        ensures
            final(self).spec_word() == field_inject(old(self).spec_word(), OFFSET, MASK, value as u32),
    {
        self.data = (self.data & !(MASK << OFFSET)) | ((value as u32) << OFFSET);
    }
}

impl<const OFFSET: u32, const MASK: u32> RegisterField<OFFSET, MASK, u16> {
    /// The offset/mask pair selects at most sixteen bits that fit the word.
    pub open spec fn wf() -> bool {
        OFFSET < 32 && MASK <= 0xffff && ((MASK << OFFSET) >> OFFSET) == MASK
    }

    /// A view over the given backing word.
    pub fn from_register(data: u32) -> (r: Self)
        ensures
            r.spec_word() == data,
    {
        RegisterField { data, marker: PhantomData }
    }

    /// Extracts the bits in `[OFFSET, OFFSET + width)`.
    pub fn get(&self) -> (v: u16)
        requires
            Self::wf(),
        ensures
            v as u32 == field_extract(self.spec_word(), OFFSET, MASK),
    {
        let filtered = (self.data >> OFFSET) & MASK;
        proof {
            lemma_extract_le_mask(self.data, OFFSET, MASK);
        }
        filtered as u16
    }

    /// Injects `value` into the bits in `[OFFSET, OFFSET + width)` without
    /// disturbing any other bit.
    pub fn set(&mut self, value: u16)
        requires
            Self::wf(),
            (value as u32) & MASK == value as u32,
        ensures
            final(self).spec_word() == field_inject(old(self).spec_word(), OFFSET, MASK, value as u32),
    {
        self.data = (self.data & !(MASK << OFFSET)) | ((value as u32) << OFFSET);
    }
}

impl<const OFFSET: u32, const MASK: u32> RegisterField<OFFSET, MASK, u32> {
    /// The offset/mask pair selects bits that fit the word.
    pub open spec fn wf() -> bool {
        OFFSET < 32 && ((MASK << OFFSET) >> OFFSET) == MASK
    }

    /// A view over the given backing word.
    pub fn from_register(data: u32) -> (r: Self)
        ensures
            r.spec_word() == data,
    {
        RegisterField { data, marker: PhantomData }
    }

    /// Extracts the bits in `[OFFSET, OFFSET + width)`.
    pub fn get(&self) -> (v: u32)
        requires
            Self::wf(),
        ensures
            v == field_extract(self.spec_word(), OFFSET, MASK),
    {
        (self.data >> OFFSET) & MASK
    }

    /// Injects `value` into the bits in `[OFFSET, OFFSET + width)` without
    /// disturbing any other bit.
    pub fn set(&mut self, value: u32)
        requires
            Self::wf(),
            value & MASK == value,
        ensures
            final(self).spec_word() == field_inject(old(self).spec_word(), OFFSET, MASK, value),
    {
        self.data = (self.data & !(MASK << OFFSET)) | (value << OFFSET);
    }
}

impl<const OFFSET: u32> RegisterField<OFFSET, 1, bool> {
    /// The single selected bit fits the word.
    pub open spec fn wf() -> bool {
        OFFSET < 32
    }

    /// A view over the given backing word.
    pub fn from_register(data: u32) -> (r: Self)
        ensures
            r.spec_word() == data,
    {
        RegisterField { data, marker: PhantomData }
    }

    /// Whether the bit at `OFFSET` is set.
    pub fn get(&self) -> (v: bool)
        requires
            Self::wf(),
        ensures
            v == (field_extract(self.spec_word(), OFFSET, 1) == 1),
    {
        (self.data >> OFFSET) & 1 == 1
    }

    /// Sets or clears the bit at `OFFSET` without disturbing any other bit.
    pub fn set(&mut self, value: bool)
        requires
            Self::wf(),
        ensures
            final(self).spec_word() == field_inject(
                old(self).spec_word(),
                OFFSET,
                1,
                if value {
                    1u32
                } else {
                    0u32
                },
            ),
    {
        let bit: u32 = if value {
            1
        } else {
            0
        };
        self.data = (self.data & !(1u32 << OFFSET)) | (bit << OFFSET);
    }
}

} // verus!

