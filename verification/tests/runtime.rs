//! Tests of the register-access runtime: capability-gated operations and
//! bit-field views.

use reggen::common::{Reg, RegisterField, R, RW, W};

#[test]
fn reg_ptr_resolves_base_plus_offset() {
    let reg: Reg<u32, RW, 0x4000_0000, 0x24> = Reg::new();
    assert_eq!(reg.ptr(), 0x4000_0024);
}

#[test]
fn reg_read_returns_hardware_word() {
    let reg: Reg<u32, R, 0x4000_0000, 0> = Reg::new();
    let hw: u32 = 0xDEAD_BEEF;
    assert_eq!(reg.read(&hw), 0xDEAD_BEEF);
}

#[test]
fn reg_write_value_stores_exactly() {
    let reg: Reg<u32, W, 0x4000_0000, 0> = Reg::new();
    let mut hw: u32 = 0;
    reg.write_value(&mut hw, 0x1234_5678);
    assert_eq!(hw, 0x1234_5678);
}

#[test]
fn write_discards_prior_state() {
    // whatever the hardware held before, write starts from the default
    let reg: Reg<u32, RW, 0x4000_0000, 0> = Reg::new();
    for prior in [0u32, 0xFFFF_FFFF, 0xAAAA_AAAA, 0x1357_9BDF] {
        let mut hw: u32 = prior;
        reg.write(&mut hw, |_v| 0x1u32);
        assert_eq!(reg.read(&hw), 0x1);
    }
}

#[test]
fn write_starts_from_default_zero() {
    let reg: Reg<u16, W, 0x5000_0000, 0x8> = Reg::new();
    let mut hw: u16 = 0xFFFF;
    // the closure sees the default, not the prior contents
    let stored = reg.write(&mut hw, |v| {
        assert_eq!(v, 0);
        v | 0x0F0F
    });
    assert_eq!(stored, 0x0F0F);
    assert_eq!(hw, 0x0F0F);
}

#[test]
fn modify_is_read_then_write() {
    let reg: Reg<u32, RW, 0x4000_0000, 0> = Reg::new();
    let mut hw: u32 = 40;
    let stored = reg.modify(&mut hw, |v| v + 2);
    assert_eq!(stored, 42);
    assert_eq!(hw, 42);
}

#[test]
fn modify_preserves_untouched_bits() {
    // backing word 0xAAAAAAAA, field of width 4 at bit offset 4 set to 0x5
    let reg: Reg<u32, RW, 0x4000_0000, 0> = Reg::new();
    let mut hw: u32 = 0xAAAA_AAAA;
    reg.modify(&mut hw, |w| {
        let mut field = RegisterField::<4, 0xF, u8>::from_register(w);
        field.set(0x5);
        field.word()
    });
    assert_eq!(hw, 0xAAAA_AA5A);
}

#[test]
fn field_set_touches_only_selected_bits() {
    let mut field = RegisterField::<4, 0xF, u8>::from_register(0xAAAA_AAAA);
    field.set(0x5);
    assert_eq!(field.word(), 0xAAAA_AA5A);
}

#[test]
fn field_roundtrip_width_1() {
    for offset_word in [0u32, 0xFFFF_FFFF] {
        let mut field = RegisterField::<7, 1, bool>::from_register(offset_word);
        field.set(true);
        assert!(field.get());
        field.set(false);
        assert!(!field.get());
    }
}

#[test]
fn field_roundtrip_width_8() {
    for v in 0u8..=255 {
        let mut field = RegisterField::<4, 0xFF, u8>::from_register(0x5555_5555);
        field.set(v);
        assert_eq!(field.get(), v);
    }
}

#[test]
fn field_roundtrip_width_16() {
    for v in 0u32..=0xFFFF {
        let mut field = RegisterField::<8, 0xFFFF, u16>::from_register(0xFFFF_FFFF);
        field.set(v as u16);
        assert_eq!(field.get(), v as u16);
    }
}

#[test]
fn field_roundtrip_width_32() {
    for v in [0u32, 1, 0xDEAD_BEEF, 0x8000_0000, 0xFFFF_FFFF] {
        let mut field = RegisterField::<0, 0xFFFF_FFFF, u32>::from_register(0);
        field.set(v);
        assert_eq!(field.get(), v);
    }
}

#[test]
fn narrow_field_roundtrip_keeps_neighbours() {
    for v in 0u8..=0xF {
        let mut field = RegisterField::<12, 0xF, u8>::from_register(0x9999_9999);
        field.set(v);
        assert_eq!(field.get(), v);
        // all bits outside [12, 16) still hold the original pattern
        assert_eq!(field.word() & !(0xFu32 << 12), 0x9999_9999 & !(0xFu32 << 12));
    }
}

#[test]
fn bool_field_set_true_sets_bit() {
    let mut field = RegisterField::<0, 1, bool>::from_register(0);
    field.set(true);
    assert_eq!(field.word(), 1);
}

#[test]
fn read_only_register_exposes_read() {
    // a Read-only handle gives read; write/modify are not expressible on it,
    // and a Write-only handle gives no read: both rejected at compile time
    let reg: Reg<u8, R, 0x2000_0000, 0x4> = Reg::new();
    let hw: u8 = 7;
    assert_eq!(reg.read(&hw), 7);
}

#[test]
fn write_only_register_exposes_write() {
    let reg: Reg<u8, W, 0x2000_0000, 0x4> = Reg::new();
    let mut hw: u8 = 7;
    reg.write_value(&mut hw, 9);
    assert_eq!(hw, 9);
}
