//! Tests of the renderers and the address resolver.

use reggen::block::{self, ItemKind};
use reggen::device::{self, VectorEntry};
use reggen::ir::{
    Access, Array, Block, BlockItem, BlockItemInner, BlockRef, Device, Field, Fieldset, Interrupt,
    Ir, Peripheral, Register,
};
use reggen::layout;
use reggen::Error;

fn reg_item(name: &str, offset: u32, bit_size: u32) -> BlockItem {
    BlockItem {
        name: name.to_string(),
        description: None,
        byte_offset: offset,
        array: None,
        inner: BlockItemInner::Register(Register {
            bit_size,
            access: Access::ReadWrite,
            fieldset: None,
        }),
    }
}

fn sample_ir() -> Ir {
    Ir {
        blocks: vec![(
            "timer::Timer".to_string(),
            Block { description: None, items: vec![reg_item("cr", 0, 32)] },
        )],
        fieldsets: vec![(
            "timer::regs::Cr".to_string(),
            Fieldset {
                description: None,
                fields: vec![Field {
                    name: "en".to_string(),
                    bit_offset: 0,
                    bit_size: 1,
                    description: None,
                }],
            },
        )],
    }
}

#[test]
fn array_element_offsets_follow_stride() {
    // length 4 at offset 0x100, stride 0x10
    for i in 0..4u32 {
        let r = layout::array_element_offset(0x100, 4, 0x10, i);
        assert_eq!(r, Ok(0x100 + (i as u64) * 0x10));
    }
}

#[test]
fn array_index_out_of_bounds_is_range_error() {
    let r = layout::array_element_offset(0x100, 4, 0x10, 4);
    assert_eq!(r, Err(Error::RangeError { index: 4, len: 4 }));
    let r = layout::array_element_offset(0x100, 4, 0x10, 1000);
    assert_eq!(r, Err(Error::RangeError { index: 1000, len: 4 }));
}

#[test]
fn item_base_offset_adds_origin() {
    assert_eq!(layout::item_base_offset(0x4000_0000, 0x24), 0x4000_0024);
}

#[test]
fn render_block_sorts_by_offset_then_name() {
    let ir = sample_ir();
    let b = Block {
        description: Some("control block".to_string()),
        items: vec![reg_item("b", 0, 32), reg_item("c", 4, 16), reg_item("a", 0, 8)],
    };
    let plan = block::render(&ir, &b, "timer::Timer").unwrap();
    assert_eq!(plan.path, "timer::Timer");
    assert_eq!(plan.description, Some("control block".to_string()));
    let names: Vec<&str> = plan.items.iter().map(|i| i.name.as_str()).collect();
    assert_eq!(names, ["a", "b", "c"]);
    assert_eq!(plan.items[0].byte_offset, 0);
    assert_eq!(plan.items[2].byte_offset, 4);
}

#[test]
fn render_block_is_order_independent() {
    let ir = sample_ir();
    let items = vec![reg_item("b", 0, 32), reg_item("c", 4, 16), reg_item("a", 0, 8)];
    let permuted = vec![items[2].clone(), items[0].clone(), items[1].clone()];
    let p1 = block::render(&ir, &Block { description: None, items }, "timer::Timer").unwrap();
    let p2 = block::render(&ir, &Block { description: None, items: permuted }, "timer::Timer")
        .unwrap();
    assert_eq!(p1, p2);
}

#[test]
fn render_block_keeps_array_descriptor() {
    let ir = sample_ir();
    let mut item = reg_item("ch", 0x40, 32);
    item.array = Some(Array { len: 8, stride: 0x20 });
    let b = Block { description: None, items: vec![item] };
    let plan = block::render(&ir, &b, "timer::Timer").unwrap();
    assert_eq!(plan.items[0].array, Some(Array { len: 8, stride: 0x20 }));
}

#[test]
fn render_block_resolves_fieldset_register() {
    let ir = sample_ir();
    let item = BlockItem {
        name: "cr".to_string(),
        description: None,
        byte_offset: 0,
        array: None,
        inner: BlockItemInner::Register(Register {
            bit_size: 32,
            access: Access::Read,
            fieldset: Some("timer::regs::Cr".to_string()),
        }),
    };
    let b = Block { description: None, items: vec![item] };
    let plan = block::render(&ir, &b, "timer::Timer").unwrap();
    assert_eq!(
        plan.items[0].kind,
        ItemKind::FieldsetRegister {
            fieldset_path: "timer::regs::Cr".to_string(),
            access: Access::Read,
        }
    );
}

#[test]
fn render_block_unresolved_fieldset_is_reference_error() {
    let ir = sample_ir();
    let item = BlockItem {
        name: "cr".to_string(),
        description: None,
        byte_offset: 0,
        array: None,
        inner: BlockItemInner::Register(Register {
            bit_size: 32,
            access: Access::ReadWrite,
            fieldset: Some("missing::Path".to_string()),
        }),
    };
    let b = Block { description: None, items: vec![item] };
    let r = block::render(&ir, &b, "timer::Timer");
    assert_eq!(r, Err(Error::ReferenceError { path: "missing::Path".to_string() }));
}

#[test]
fn render_block_unresolved_sub_block_is_reference_error() {
    let ir = sample_ir();
    let item = BlockItem {
        name: "sub".to_string(),
        description: None,
        byte_offset: 0x100,
        array: None,
        inner: BlockItemInner::Block(BlockRef { block: "nowhere::Nothing".to_string() }),
    };
    let b = Block { description: None, items: vec![item] };
    let r = block::render(&ir, &b, "timer::Timer");
    assert_eq!(r, Err(Error::ReferenceError { path: "nowhere::Nothing".to_string() }));
}

#[test]
fn render_block_resolved_sub_block() {
    let ir = sample_ir();
    let item = BlockItem {
        name: "ch0".to_string(),
        description: None,
        byte_offset: 0x100,
        array: None,
        inner: BlockItemInner::Block(BlockRef { block: "timer::Timer".to_string() }),
    };
    let b = Block { description: None, items: vec![item] };
    let plan = block::render(&ir, &b, "dma::Dma").unwrap();
    assert_eq!(
        plan.items[0].kind,
        ItemKind::SubBlock { block_path: "timer::Timer".to_string() }
    );
}

#[test]
fn render_block_invalid_width_is_bit_size_error() {
    let ir = sample_ir();
    let b = Block { description: None, items: vec![reg_item("odd", 0, 12)] };
    let r = block::render(&ir, &b, "timer::Timer");
    assert_eq!(r, Err(Error::BitSizeError { bit_size: 12 }));
}

#[test]
fn render_block_accepts_all_legal_widths() {
    let ir = sample_ir();
    let b = Block {
        description: None,
        items: vec![
            reg_item("r8", 0, 8),
            reg_item("r16", 4, 16),
            reg_item("r32", 8, 32),
            reg_item("r64", 12, 64),
        ],
    };
    let plan = block::render(&ir, &b, "timer::Timer").unwrap();
    assert_eq!(plan.items.len(), 4);
    for (item, width) in plan.items.iter().zip([8u32, 16, 32, 64]) {
        assert_eq!(
            item.kind,
            ItemKind::PlainRegister { bit_size: width, access: Access::ReadWrite }
        );
    }
}

fn interrupt(name: &str, value: u32) -> Interrupt {
    Interrupt { name: name.to_string(), value, description: None }
}

#[test]
fn vector_table_is_gap_free() {
    // interrupts at {2, 5}: table of length 6, reserved at 0, 1, 3, 4
    let ir = sample_ir();
    let d = Device {
        interrupts: vec![interrupt("uart", 5), interrupt("tim2", 2)],
        peripherals: vec![],
    };
    let plan = device::render(&ir, &d).unwrap();
    assert_eq!(plan.vectors.len(), 6);
    assert_eq!(plan.vectors[0], VectorEntry::Reserved);
    assert_eq!(plan.vectors[1], VectorEntry::Reserved);
    assert_eq!(
        plan.vectors[2],
        VectorEntry::Handler { name: "tim2".to_string(), value: 2, description: None }
    );
    assert_eq!(plan.vectors[3], VectorEntry::Reserved);
    assert_eq!(plan.vectors[4], VectorEntry::Reserved);
    assert_eq!(
        plan.vectors[5],
        VectorEntry::Handler { name: "uart".to_string(), value: 5, description: None }
    );
}

#[test]
fn vector_table_of_no_interrupts_is_empty() {
    let ir = sample_ir();
    let d = Device { interrupts: vec![], peripherals: vec![] };
    let plan = device::render(&ir, &d).unwrap();
    assert_eq!(plan.vectors.len(), 0);
}

#[test]
fn duplicate_vector_value_is_duplicate_error() {
    let ir = sample_ir();
    let d = Device {
        interrupts: vec![interrupt("a", 3), interrupt("b", 1), interrupt("c", 3)],
        peripherals: vec![],
    };
    let r = device::render(&ir, &d);
    assert_eq!(r, Err(Error::DuplicateError { value: 3 }));
}

fn peripheral(name: &str, base: u64, block: Option<&str>) -> Peripheral {
    Peripheral {
        name: name.to_string(),
        base_address: base,
        description: None,
        block: block.map(|b| b.to_string()),
    }
}

#[test]
fn peripherals_sorted_by_base_address() {
    let ir = sample_ir();
    let d = Device {
        interrupts: vec![],
        peripherals: vec![
            peripheral("TIM3", 0x4000_0400, Some("timer::Timer")),
            peripheral("TIM2", 0x4000_0000, Some("timer::Timer")),
            peripheral("MISC", 0x5000_0000, None),
        ],
    };
    let plan = device::render(&ir, &d).unwrap();
    let names: Vec<&str> = plan.peripherals.iter().map(|p| p.name.as_str()).collect();
    assert_eq!(names, ["TIM2", "TIM3", "MISC"]);
    assert_eq!(plan.peripherals[0].block_path, Some("timer::Timer".to_string()));
    // a peripheral without a block reference is an opaque address
    assert_eq!(plan.peripherals[2].block_path, None);
    assert_eq!(plan.peripherals[2].base_address, 0x5000_0000);
}

#[test]
fn unresolved_peripheral_block_is_reference_error() {
    let ir = sample_ir();
    let d = Device {
        interrupts: vec![],
        peripherals: vec![peripheral("BAD", 0x4000_0000, Some("gone::Gone"))],
    };
    let r = device::render(&ir, &d);
    assert_eq!(r, Err(Error::ReferenceError { path: "gone::Gone".to_string() }));
}

#[test]
fn ir_lookup_finds_entries_by_path() {
    let ir = sample_ir();
    assert!(ir.get_block("timer::Timer").is_some());
    assert!(ir.get_block("timer::Time").is_none());
    assert!(ir.get_block("timer::Timerr").is_none());
    assert!(ir.get_fieldset("timer::regs::Cr").is_some());
    assert!(ir.get_fieldset("timer::regs::Sr").is_none());
}

#[test]
fn name_order_decides_ties() {
    assert!(reggen::order::str_leq("abc", "abd"));
    assert!(!reggen::order::str_leq("abd", "abc"));
    assert!(reggen::order::str_leq("ab", "abc"));
    assert!(reggen::order::str_leq("abc", "abc"));
    assert!(reggen::order::str_eq("abc", "abc"));
    assert!(!reggen::order::str_eq("abc", "abd"));
    assert!(!reggen::order::str_eq("abc", "ab"));
}

#[test]
fn render_empty_block_is_ok_and_empty() {
    let ir = sample_ir();
    let b = Block { description: None, items: vec![] };
    let plan = block::render(&ir, &b, "empty::Empty").unwrap();
    assert_eq!(plan.items.len(), 0);
}

#[test]
fn array_element_offset_handles_extreme_values() {
    let r = layout::array_element_offset(u32::MAX, u32::MAX, u32::MAX, u32::MAX - 1);
    let expected = (u32::MAX as u64) + ((u32::MAX - 1) as u64) * (u32::MAX as u64);
    assert_eq!(r, Ok(expected));
    let r = layout::array_element_offset(0, 0, 16, 0);
    assert_eq!(r, Err(Error::RangeError { index: 0, len: 0 }));
}
