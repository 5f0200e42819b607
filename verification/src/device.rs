//! The device renderer.
//!
//! For one device, derives (a) a contiguous, gap-free interrupt vector table
//! whose position `i` always corresponds to hardware vector `i`, and (b) one
//! singleton constant per peripheral instance, in ascending base-address
//! order.  Turning the plan into source text is plain formatting and not
//! done here.

use vstd::prelude::*;

use vstd::multiset::Multiset;

use crate::ir::{Device, Interrupt, Ir, Peripheral};
use crate::Error;

verus! {

/// One slot of the interrupt vector table.
#[derive(Debug, PartialEq)]
pub enum VectorEntry {
    /// No interrupt declares this index: a reserved placeholder.
    Reserved,
    /// The handler entry of the interrupt declared at this index.
    Handler { name: String, value: u32, description: Option<String> },
}

/// The singleton constant of one peripheral: its name, base address, and
/// the path of its block type; without one the peripheral is an opaque
/// address.
#[derive(Debug, PartialEq)]
pub struct PeripheralPlan {
    pub name: String,
    pub base_address: u64,
    pub description: Option<String>,
    pub block_path: Option<String>,
}

/// The plan of one device: the vector table and the peripheral singletons.
#[derive(Debug, PartialEq)]
pub struct DevicePlan {
    pub vectors: Vec<VectorEntry>,
    pub peripherals: Vec<PeripheralPlan>,
}

/// Some interrupt declares vector index `k`.
pub open spec fn has_vector(ints: Seq<Interrupt>, k: int) -> bool {
    exists|i: int| 0 <= i < ints.len() && ints[i].value == k
}

/// No two interrupts share a vector index.
pub open spec fn interrupts_unique(ints: Seq<Interrupt>) -> bool {
    forall|i: int, j: int|
        0 <= i < j < ints.len() ==> (#[trigger] ints[i]).value != (#[trigger] ints[j]).value
}

/// The table entry at index `k` is right: the declared interrupt's handler
/// where one declares `k`, a reserved placeholder where none does.
pub open spec fn vector_entry_of(ints: Seq<Interrupt>, k: int, e: VectorEntry) -> bool {
    match e {
        VectorEntry::Reserved => !has_vector(ints, k),
        VectorEntry::Handler { name, value, description } => {
            &&& value == k
            &&& exists|i: int|
                0 <= i < ints.len() && (#[trigger] ints[i]).value == k && ints[i].name == name
                    && ints[i].description == description
        },
    }
}

/// The whole table is right: contiguous from zero, every slot correct,
/// ending exactly at the greatest declared index.
pub open spec fn vector_table_of(ints: Seq<Interrupt>, vs: Seq<VectorEntry>) -> bool {
    &&& forall|k: int| 0 <= k < vs.len() ==> vector_entry_of(ints, k, #[trigger] vs[k])
    &&& forall|i: int| 0 <= i < ints.len() ==> (#[trigger] ints[i]).value < vs.len()
    &&& vs.len() > 0 ==> has_vector(ints, vs.len() - 1)
    &&& ints.len() == 0 ==> vs.len() == 0
}

/// The base-address order on peripherals.
pub open spec fn periph_leq(a: Peripheral, b: Peripheral) -> bool {
    a.base_address <= b.base_address
}

/// Sorted by ascending base address.
pub open spec fn periphs_sorted(s: Seq<Peripheral>) -> bool {
    forall|i: int, j: int| 0 <= i < j < s.len() ==> periph_leq(#[trigger] s[i], #[trigger] s[j])
}

/// The singleton plan a peripheral maps to.
pub open spec fn periph_plan_of(p: Peripheral) -> PeripheralPlan {
    PeripheralPlan {
        name: p.name,
        base_address: p.base_address,
        description: p.description,
        block_path: p.block,
    }
}

/// The peripheral's block reference, if any, resolves.
pub open spec fn periph_ok(ir: Ir, p: Peripheral) -> bool {
    match p.block {
        Some(q) => ir.has_block(q@),
        None => true,
    }
}

/// The peripheral names `path` as a block reference the tree cannot resolve.
pub open spec fn periph_missing_ref(ir: Ir, p: Peripheral, path: Seq<char>) -> bool {
    match p.block {
        Some(q) => q@ == path && !ir.has_block(path),
        None => false,
    }
}

/// `s` is the peripheral list sorted, and `out` its image under
/// `periph_plan_of`.
pub open spec fn periphs_witness(
    ps: Seq<Peripheral>,
    s: Seq<Peripheral>,
    out: Seq<PeripheralPlan>,
) -> bool {
    &&& s.to_multiset() == ps.to_multiset()
    &&& periphs_sorted(s)
    &&& out == s.map_values(|p: Peripheral| periph_plan_of(p))
}

/// `out` is the plan of the peripheral list: its sorted image under
/// `periph_plan_of`.
pub open spec fn plan_of_periphs(ps: Seq<Peripheral>, out: Seq<PeripheralPlan>) -> bool {
    exists|s: Seq<Peripheral>| periphs_witness(ps, s, out)
}

fn clone_opt_string(o: &Option<String>) -> (r: Option<String>)
    ensures
        r == *o,
{
    match o {
        Some(s) => Some(s.clone()),
        None => None,
    }
}

fn clone_interrupt(i: &Interrupt) -> (r: Interrupt)
    ensures
        r == *i,
{
    Interrupt { name: i.name.clone(), value: i.value, description: clone_opt_string(&i.description) }
}

fn clone_peripheral(p: &Peripheral) -> (r: Peripheral)
    ensures
        r == *p,
{
    Peripheral {
        name: p.name.clone(),
        base_address: p.base_address,
        description: clone_opt_string(&p.description),
        block: clone_opt_string(&p.block),
    }
}

/// Sorts interrupts by ascending vector value; the values being unique, the
/// result is strictly increasing.
fn sort_interrupts(ints: &Vec<Interrupt>) -> (r: Vec<Interrupt>)
    requires
        interrupts_unique(ints@),
    ensures
        r@.to_multiset() == ints@.to_multiset(),
        forall|i: int, j: int|
            0 <= i < j < r@.len() ==> (#[trigger] r@[i]).value < (#[trigger] r@[j]).value,
{
    broadcast use vstd::seq_lib::group_to_multiset_ensures;
    broadcast use vstd::multiset::group_multiset_axioms;

    let n = ints.len();
    let mut src: Vec<Interrupt> = Vec::new();
    for i in 0..n
        invariant
            n == ints@.len(),
            src@ =~= ints@.subrange(0, i as int),
    {
        src.push(clone_interrupt(&ints[i]));
    }
    assert(src@ =~= ints@);
    let mut out: Vec<Interrupt> = Vec::new();
    proof {
        assert(out@.to_multiset().add(src@.to_multiset()) =~= ints@.to_multiset());
    }
    while src.len() > 0
        invariant
            out@.to_multiset().add(src@.to_multiset()) == ints@.to_multiset(),
            interrupts_unique(src@),
            forall|i: int, j: int|
                0 <= i < j < out@.len() ==> (#[trigger] out@[i]).value < (#[trigger] out@[j]).value,
            forall|i: int, j: int|
                0 <= i < out@.len() && 0 <= j < src@.len() ==> (#[trigger] out@[i]).value < (
                #[trigger] src@[j]).value,
        decreases src.len(),
    {
        let mut m: usize = 0;
        let mut k: usize = 1;
        while k < src.len()
            invariant
                m < k <= src@.len(),
                forall|j: int|
                    0 <= j < k ==> src@[m as int].value <= (#[trigger] src@[j]).value,
            decreases src.len() - k,
        {
            if src[k].value < src[m].value {
                m = k;
            }
            k += 1;
        }
        let ghost old_src = src@;
        let ghost old_out = out@;
        let x = src.remove(m);
        out.push(x);
        proof {
            broadcast use vstd::seq_lib::group_to_multiset_ensures;
            broadcast use vstd::multiset::group_multiset_axioms;

            assert(x == old_src[m as int]);
            assert(old_src.contains(x));
            assert(old_src.to_multiset().count(x) > 0);
            assert(out@.to_multiset().add(src@.to_multiset()) =~= ints@.to_multiset());
            assert forall|i: int, j: int|
                0 <= i < out@.len() && 0 <= j < src@.len() implies (#[trigger] out@[i]).value < (
            #[trigger] src@[j]).value by {
                let jj = if j < m { j } else { j + 1 };
                assert(src@[j] == old_src[jj]);
                if i < out@.len() - 1 {
                    assert(out@[i] == old_out[i]);
                } else {
                    assert(out@[i] == old_src[m as int]);
                    assert(old_src[m as int].value <= old_src[jj].value);
                }
            }
            assert forall|i: int, j: int| 0 <= i < j < out@.len() implies (
            #[trigger] out@[i]).value < (#[trigger] out@[j]).value by {
                if j < out@.len() - 1 {
                    assert(out@[i] == old_out[i] && out@[j] == old_out[j]);
                } else {
                    assert(out@[i] == old_out[i] && out@[j] == old_src[m as int]);
                }
            }
            assert forall|i: int, j: int| 0 <= i < j < src@.len() implies (
            #[trigger] src@[i]).value != (#[trigger] src@[j]).value by {
                let ii = if i < m { i } else { i + 1 };
                let jj = if j < m { j } else { j + 1 };
                assert(src@[i] == old_src[ii] && src@[j] == old_src[jj]);
            }
        }
    }
    proof {
        assert(src@.to_multiset() =~= Multiset::<Interrupt>::empty());
        assert(out@.to_multiset() =~= ints@.to_multiset());
    }
    out
}

/// Sorts peripherals by ascending base address.
fn sort_peripherals(ps: &Vec<Peripheral>) -> (r: Vec<Peripheral>)
    ensures
        r@.to_multiset() == ps@.to_multiset(),
        periphs_sorted(r@),
{
    broadcast use vstd::seq_lib::group_to_multiset_ensures;
    broadcast use vstd::multiset::group_multiset_axioms;

    let n = ps.len();
    let mut src: Vec<Peripheral> = Vec::new();
    for i in 0..n
        invariant
            n == ps@.len(),
            src@ =~= ps@.subrange(0, i as int),
    {
        src.push(clone_peripheral(&ps[i]));
    }
    assert(src@ =~= ps@);
    let mut out: Vec<Peripheral> = Vec::new();
    proof {
        assert(out@.to_multiset().add(src@.to_multiset()) =~= ps@.to_multiset());
    }
    while src.len() > 0
        invariant
            out@.to_multiset().add(src@.to_multiset()) == ps@.to_multiset(),
            periphs_sorted(out@),
            forall|i: int, j: int|
                0 <= i < out@.len() && 0 <= j < src@.len() ==> periph_leq(
                    #[trigger] out@[i],
                    #[trigger] src@[j],
                ),
        decreases src.len(),
    {
        let mut m: usize = 0;
        let mut k: usize = 1;
        while k < src.len()
            invariant
                m < k <= src@.len(),
                forall|j: int|
                    0 <= j < k ==> src@[m as int].base_address <= (
                    #[trigger] src@[j]).base_address,
            decreases src.len() - k,
        {
            if src[k].base_address < src[m].base_address {
                m = k;
            }
            k += 1;
        }
        let ghost old_src = src@;
        let ghost old_out = out@;
        let x = src.remove(m);
        out.push(x);
        proof {
            broadcast use vstd::seq_lib::group_to_multiset_ensures;
            broadcast use vstd::multiset::group_multiset_axioms;

            assert(x == old_src[m as int]);
            assert(old_src.contains(x));
            assert(old_src.to_multiset().count(x) > 0);
            assert(out@.to_multiset().add(src@.to_multiset()) =~= ps@.to_multiset());
            assert forall|i: int, j: int|
                0 <= i < out@.len() && 0 <= j < src@.len() implies periph_leq(
                #[trigger] out@[i],
                #[trigger] src@[j],
            ) by {
                let jj = if j < m { j } else { j + 1 };
                assert(src@[j] == old_src[jj]);
                if i < out@.len() - 1 {
                    assert(out@[i] == old_out[i]);
                } else {
                    assert(out@[i] == old_src[m as int]);
                    assert(old_src[m as int].base_address <= old_src[jj].base_address);
                }
            }
            assert forall|i: int, j: int| 0 <= i < j < out@.len() implies periph_leq(
                #[trigger] out@[i],
                #[trigger] out@[j],
            ) by {
                if j < out@.len() - 1 {
                    assert(out@[i] == old_out[i] && out@[j] == old_out[j]);
                } else {
                    assert(out@[i] == old_out[i] && out@[j] == old_src[m as int]);
                }
            }
        }
    }
    proof {
        assert(src@.to_multiset() =~= Multiset::<Peripheral>::empty());
        assert(out@.to_multiset() =~= ps@.to_multiset());
    }
    out
}

/// An interrupt at a given vector index carries over to any permutation.
proof fn lemma_entry_transfer(s1: Seq<Interrupt>, s2: Seq<Interrupt>, k: int, e: VectorEntry)
    requires
        s1.to_multiset() == s2.to_multiset(),
        vector_entry_of(s1, k, e),
    ensures
        vector_entry_of(s2, k, e),
{
    broadcast use vstd::seq_lib::group_to_multiset_ensures;
    broadcast use vstd::multiset::group_multiset_axioms;

    match e {
        VectorEntry::Reserved => {
            assert(!has_vector(s2, k)) by {
                if has_vector(s2, k) {
                    let i = choose|i: int| 0 <= i < s2.len() && s2[i].value == k;
                    assert(s2.contains(s2[i]));
                    assert(s2.to_multiset().count(s2[i]) > 0);
                    assert(s1.to_multiset().count(s2[i]) > 0);
                    assert(s1.contains(s2[i]));
                    let j = choose|j: int| 0 <= j < s1.len() && s1[j] == s2[i];
                    assert(s1[j].value == k);
                }
            }
        },
        VectorEntry::Handler { name, value, description } => {
            let i = choose|i: int|
                0 <= i < s1.len() && (#[trigger] s1[i]).value == k && s1[i].name == name
                    && s1[i].description == description;
            assert(s1.contains(s1[i]));
            assert(s1.to_multiset().count(s1[i]) > 0);
            assert(s2.to_multiset().count(s1[i]) > 0);
            assert(s2.contains(s1[i]));
            let j = choose|j: int| 0 <= j < s2.len() && s2[j] == s1[i];
            assert(s2[j].value == k && s2[j].name == name && s2[j].description == description);
        },
    }
}

/// Renders one device: a complete interrupt vector table with a slot for
/// every index from zero to the greatest declared value, and the peripheral
/// singletons in ascending base-address order.  Succeeds exactly when no
/// two interrupts share a vector value and every peripheral's block
/// reference resolves.
pub fn render(ir: &Ir, device: &Device) -> (r: Result<DevicePlan, Error>)
    ensures
        r is Ok <==> (interrupts_unique(device.interrupts@) && (forall|i: int|
            0 <= i < device.peripherals@.len() ==> periph_ok(
                *ir,
                #[trigger] device.peripherals@[i],
            ))),
        r matches Ok(plan) ==> {
            &&& vector_table_of(device.interrupts@, plan.vectors@)
            &&& plan_of_periphs(device.peripherals@, plan.peripherals@)
        },
        r matches Err(e) ==> match e {
            Error::DuplicateError { value } => exists|i: int, j: int|
                0 <= i < j < device.interrupts@.len() && (#[trigger] device.interrupts@[i]).value
                    == value && (#[trigger] device.interrupts@[j]).value == value,
            Error::ReferenceError { path } => exists|i: int|
                0 <= i < device.peripherals@.len() && periph_missing_ref(
                    *ir,
                    #[trigger] device.peripherals@[i],
                    path@,
                ),
            _ => false,
        },
{
    broadcast use vstd::seq_lib::group_to_multiset_ensures;
    broadcast use vstd::multiset::group_multiset_axioms;

    let ints = &device.interrupts;
    let n = ints.len();
    // duplicate vector values are a configuration defect and fail the run
    for i in 0..n
        invariant
            n == ints@.len(),
            ints@ == device.interrupts@,
            forall|a: int, b: int|
                0 <= a < b < ints@.len() && a < i ==> (#[trigger] ints@[a]).value != (
                #[trigger] ints@[b]).value,
    {
        let mut j = i + 1;
        while j < n
            invariant
                i < j <= n,
                n == ints@.len(),
                ints@ == device.interrupts@,
                forall|b: int|
                    i < b < j ==> (#[trigger] ints@[b]).value != ints@[i as int].value,
            decreases n - j,
        {
            if ints[j].value == ints[i].value {
                proof {
                    assert((device.interrupts@[i as int]).value == ints@[i as int].value);
                    assert((device.interrupts@[j as int]).value == ints@[i as int].value);
                    assert(!interrupts_unique(device.interrupts@));
                }
                return Err(Error::DuplicateError { value: ints[i].value });
            }
            j += 1;
        }
    }
    let sorted = sort_interrupts(ints);
    let sn = sorted.len();
    let mut vectors: Vec<VectorEntry> = Vec::new();
    for idx in 0..sn
        invariant
            sn == sorted@.len(),
            sorted@.to_multiset() == ints@.to_multiset(),
            forall|i: int, j: int|
                0 <= i < j < sorted@.len() ==> (#[trigger] sorted@[i]).value < (
                #[trigger] sorted@[j]).value,
            forall|k: int|
                0 <= k < vectors@.len() ==> vector_entry_of(sorted@, k, #[trigger] vectors@[k]),
            idx == 0 ==> vectors@.len() == 0,
            idx > 0 ==> vectors@.len() == sorted@[idx - 1].value + 1,
    {
        let v = sorted[idx].value;
        proof {
            if idx > 0 {
                assert(sorted@[idx - 1].value < v);
            }
        }
        while vectors.len() < v as usize
            invariant
                sn == sorted@.len(),
                idx < sn,
                v == sorted@[idx as int].value,
                forall|i: int, j: int|
                    0 <= i < j < sorted@.len() ==> (#[trigger] sorted@[i]).value < (
                    #[trigger] sorted@[j]).value,
                forall|k: int|
                    0 <= k < vectors@.len() ==> vector_entry_of(sorted@, k, #[trigger] vectors@[k]),
                vectors@.len() <= v,
                idx > 0 ==> vectors@.len() >= sorted@[idx - 1].value + 1,
                idx == 0 ==> vectors@.len() >= 0,
            decreases v - vectors.len(),
        {
            proof {
                let k = vectors@.len() as int;
                assert(!has_vector(sorted@, k)) by {
                    if has_vector(sorted@, k) {
                        let i = choose|i: int| 0 <= i < sorted@.len() && sorted@[i].value == k;
                        if i < idx {
                            assert(sorted@[i].value <= sorted@[idx - 1].value);
                        } else if i > idx {
                            assert(sorted@[idx as int].value < sorted@[i].value);
                        }
                    }
                }
            }
            vectors.push(VectorEntry::Reserved);
        }
        let entry = VectorEntry::Handler {
            name: sorted[idx].name.clone(),
            value: v,
            description: clone_opt_string(&sorted[idx].description),
        };
        proof {
            assert(vectors@.len() == v as int) by {
                if idx > 0 {
                    assert(sorted@[idx - 1].value < v);
                }
            }
            assert(vector_entry_of(sorted@, v as int, entry));
        }
        vectors.push(entry);
    }
    proof {
        if sn > 0 {
            assert(has_vector(sorted@, vectors@.len() - 1)) by {
                assert(sorted@[sn - 1].value == vectors@.len() - 1);
            }
        }
        assert forall|k: int| 0 <= k < vectors@.len() implies vector_entry_of(
            ints@,
            k,
            #[trigger] vectors@[k],
        ) by {
            lemma_entry_transfer(sorted@, ints@, k, vectors@[k]);
        }
        assert forall|i: int| 0 <= i < ints@.len() implies (#[trigger] ints@[i]).value
            < vectors@.len() by {
            assert(ints@.contains(ints@[i]));
            assert(ints@.to_multiset().count(ints@[i]) > 0);
            assert(sorted@.to_multiset().count(ints@[i]) > 0);
            assert(sorted@.contains(ints@[i]));
            let j = choose|j: int| 0 <= j < sorted@.len() && sorted@[j] == ints@[i];
            assert(sorted@[j].value <= sorted@[sn - 1].value);
        }
        if sn > 0 {
            assert(has_vector(ints@, vectors@.len() - 1)) by {
                lemma_entry_transfer(
                    sorted@,
                    ints@,
                    vectors@.len() - 1,
                    VectorEntry::Handler {
                        name: sorted@[sn - 1].name,
                        value: sorted@[sn - 1].value,
                        description: sorted@[sn - 1].description,
                    },
                );
            }
        }
        assert(ints@.len() == 0 ==> vectors@.len() == 0) by {
            assert(sorted@.to_multiset().len() == sorted@.len());
            assert(ints@.to_multiset().len() == ints@.len());
        }
    }
    // peripherals, sorted by base address
    let sorted_ps = sort_peripherals(&device.peripherals);
    let pn = sorted_ps.len();
    let mut plans: Vec<PeripheralPlan> = Vec::new();
    for idx in 0..pn
        invariant
            pn == sorted_ps@.len(),
            sorted_ps@.to_multiset() == device.peripherals@.to_multiset(),
            periphs_sorted(sorted_ps@),
            plans@ =~= sorted_ps@.subrange(0, idx as int).map_values(
                |p: Peripheral| periph_plan_of(p),
            ),
            forall|i: int| 0 <= i < idx ==> periph_ok(*ir, #[trigger] sorted_ps@[i]),
    {
        let p = &sorted_ps[idx];
        if let Some(q) = &p.block {
            if ir.get_block(q.as_str()).is_none() {
                proof {
                    broadcast use vstd::seq_lib::group_to_multiset_ensures;
                    broadcast use vstd::multiset::group_multiset_axioms;

                    assert(sorted_ps@.contains(sorted_ps@[idx as int]));
                    assert(sorted_ps@.to_multiset().count(sorted_ps@[idx as int]) > 0);
                    assert(device.peripherals@.to_multiset().count(sorted_ps@[idx as int]) > 0);
                    assert(device.peripherals@.contains(sorted_ps@[idx as int]));
                    let jj = choose|jj: int|
                        0 <= jj < device.peripherals@.len() && device.peripherals@[jj]
                            == sorted_ps@[idx as int];
                    assert(periph_missing_ref(*ir, device.peripherals@[jj], q@));
                    assert(!periph_ok(*ir, device.peripherals@[jj]));
                }
                return Err(Error::ReferenceError { path: q.clone() });
            }
        }
        plans.push(
            PeripheralPlan {
                name: p.name.clone(),
                base_address: p.base_address,
                description: clone_opt_string(&p.description),
                block_path: clone_opt_string(&p.block),
            },
        );
        proof {
            assert(plans@ =~= sorted_ps@.subrange(0, idx + 1).map_values(
                |p: Peripheral| periph_plan_of(p),
            ));
        }
    }
    proof {
        assert forall|i: int| 0 <= i < device.peripherals@.len() implies periph_ok(
            *ir,
            #[trigger] device.peripherals@[i],
        ) by {
            assert(device.peripherals@.contains(device.peripherals@[i]));
            assert(device.peripherals@.to_multiset().count(device.peripherals@[i]) > 0);
            assert(sorted_ps@.to_multiset().count(device.peripherals@[i]) > 0);
            assert(sorted_ps@.contains(device.peripherals@[i]));
            let j = choose|j: int| 0 <= j < sorted_ps@.len() && sorted_ps@[j] == device.peripherals@[i];
            assert(match sorted_ps@[j].block {
                Some(q) => ir.has_block(q@),
                None => true,
            });
        }
        assert(plans@ =~= sorted_ps@.map_values(|p: Peripheral| periph_plan_of(p))) by {
            assert(sorted_ps@.subrange(0, pn as int) =~= sorted_ps@);
        }
        assert(periphs_witness(device.peripherals@, sorted_ps@, plans@));
    }
    Ok(DevicePlan { vectors, peripherals: plans })
}

} // verus!
