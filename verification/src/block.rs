//! The block renderer.
//!
//! For one block at one path of the description tree, derives the plan of a
//! parameterized accessor type: one accessor per contained register or
//! nested sub-block, in the deterministic `(byte_offset, name)` order, with
//! every cross-reference resolved and every bit width validated.  Turning
//! the plan into source text is plain formatting and not done here.

use vstd::prelude::*;

use vstd::multiset::Multiset;

use crate::ir::{Access, Block, BlockItem, BlockItemInner, BlockRef, Ir, Register};
use crate::order::{
    lemma_lex_antisymmetric, lemma_lex_total, lemma_lex_transitive, lex_leq, str_leq,
};
use crate::Error;

verus! {

/// What one accessor gives access to.
#[derive(Debug, PartialEq)]
pub enum ItemKind {
    /// A register without a fieldset: its value is a plain unsigned integer
    /// of the declared bit width.
    PlainRegister { bit_size: u32, access: Access },
    /// A register whose value type is the fieldset at the given path.
    FieldsetRegister { fieldset_path: String, access: Access },
    /// A nested sub-block of the block type at the given path.
    SubBlock { block_path: String },
}

/// The plan of one accessor of a block: name, resolved placement and value
/// type.  For an arrayed item the accessor takes an index `n < array.len`
/// and reaches `byte_offset + n * array.stride`; otherwise it is fixed at
/// `byte_offset`.
#[derive(Debug, PartialEq)]
pub struct ItemPlan {
    pub name: String,
    pub description: Option<String>,
    pub byte_offset: u32,
    pub array: Option<crate::ir::Array>,
    pub kind: ItemKind,
}

/// The plan of one block's accessor type: its path, its documentation and
/// its accessors sorted by `(byte_offset, name)`.
#[derive(Debug, PartialEq)]
pub struct BlockPlan {
    pub path: String,
    pub description: Option<String>,
    pub items: Vec<ItemPlan>,
}

/// The `(byte_offset, name)` order on block items.
pub open spec fn item_leq(a: BlockItem, b: BlockItem) -> bool {
    ||| a.byte_offset < b.byte_offset
    ||| (a.byte_offset == b.byte_offset && lex_leq(a.name@, b.name@))
}

/// Sorted in the `(byte_offset, name)` order.
pub open spec fn items_sorted(s: Seq<BlockItem>) -> bool {
    forall|i: int, j: int| 0 <= i < j < s.len() ==> item_leq(#[trigger] s[i], #[trigger] s[j])
}

/// No two items share their `(byte_offset, name)` identity.
pub open spec fn items_distinct(s: Seq<BlockItem>) -> bool {
    forall|i: int, j: int|
        0 <= i < j < s.len() ==> !((#[trigger] s[i]).byte_offset == (#[trigger] s[j]).byte_offset
            && s[i].name@ == s[j].name@)
}

/// The bit widths a plain register may declare.
pub open spec fn valid_bit_size(n: u32) -> bool {
    n == 8 || n == 16 || n == 32 || n == 64
}

/// Every reference of the item resolves and its width is legal.
pub open spec fn item_ok(ir: Ir, item: BlockItem) -> bool {
    match item.inner {
        BlockItemInner::Register(r) => match r.fieldset {
            Some(p) => ir.has_fieldset(p@),
            None => valid_bit_size(r.bit_size),
        },
        BlockItemInner::Block(b) => ir.has_block(b.block@),
    }
}

/// The item names `p` as a cross-reference that the tree cannot resolve.
pub open spec fn item_missing_ref(ir: Ir, item: BlockItem, p: Seq<char>) -> bool {
    match item.inner {
        BlockItemInner::Register(r) => match r.fieldset {
            Some(q) => q@ == p && !ir.has_fieldset(p),
            None => false,
        },
        BlockItemInner::Block(b) => b.block@ == p && !ir.has_block(p),
    }
}

/// The item declares the illegal plain width `n`.
pub open spec fn item_bad_width(item: BlockItem, n: u32) -> bool {
    match item.inner {
        BlockItemInner::Register(r) => r.fieldset is None && r.bit_size == n && !valid_bit_size(n),
        BlockItemInner::Block(_) => false,
    }
}

/// The accessor plan an item maps to.
pub open spec fn item_plan_of(item: BlockItem) -> ItemPlan {
    ItemPlan {
        name: item.name,
        description: item.description,
        byte_offset: item.byte_offset,
        array: item.array,
        kind: match item.inner {
            BlockItemInner::Register(r) => match r.fieldset {
                Some(p) => ItemKind::FieldsetRegister { fieldset_path: p, access: r.access },
                None => ItemKind::PlainRegister { bit_size: r.bit_size, access: r.access },
            },
            BlockItemInner::Block(b) => ItemKind::SubBlock { block_path: b.block },
        },
    }
}

/// `s` is the item list sorted, and `p` its image under `item_plan_of`.
pub open spec fn sorted_witness(items: Seq<BlockItem>, s: Seq<BlockItem>, p: Seq<ItemPlan>) -> bool {
    &&& s.to_multiset() == items.to_multiset()
    &&& items_sorted(s)
    &&& items_distinct(s)
    &&& p == s.map_values(|it: BlockItem| item_plan_of(it))
}

/// `p` is the plan of the item list: its sorted image under `item_plan_of`.
pub open spec fn plan_of_items(items: Seq<BlockItem>, p: Seq<ItemPlan>) -> bool {
    exists|s: Seq<BlockItem>| sorted_witness(items, s, p)
}

/// The order relates every pair of items.
proof fn lemma_item_leq_total(a: BlockItem, b: BlockItem)
    ensures
        item_leq(a, b) || item_leq(b, a),
{
    if a.byte_offset == b.byte_offset {
        lemma_lex_total(a.name@, b.name@);
    }
}

/// The order is transitive.
proof fn lemma_item_leq_transitive(a: BlockItem, b: BlockItem, c: BlockItem)
    requires
        item_leq(a, b),
        item_leq(b, c),
    ensures
        item_leq(a, c),
{
    if a.byte_offset == b.byte_offset && b.byte_offset == c.byte_offset {
        lemma_lex_transitive(a.name@, b.name@, c.name@);
    }
}

/// Items below each other share their identity.
proof fn lemma_item_leq_antisymmetric(a: BlockItem, b: BlockItem)
    requires
        item_leq(a, b),
        item_leq(b, a),
    ensures
        a.byte_offset == b.byte_offset && a.name@ == b.name@,
{
    lemma_lex_antisymmetric(a.name@, b.name@);
}

fn clone_opt_string(o: &Option<String>) -> (r: Option<String>)
    ensures
        r == *o,
{
    match o {
        Some(s) => Some(s.clone()),
        None => None,
    }
}

fn clone_item(item: &BlockItem) -> (r: BlockItem)
    ensures
        r == *item,
{
    let inner = match &item.inner {
        BlockItemInner::Register(rr) => BlockItemInner::Register(
            Register {
                bit_size: rr.bit_size,
                access: rr.access,
                fieldset: clone_opt_string(&rr.fieldset),
            },
        ),
        BlockItemInner::Block(b) => BlockItemInner::Block(BlockRef { block: b.block.clone() }),
    };
    BlockItem {
        name: item.name.clone(),
        description: clone_opt_string(&item.description),
        byte_offset: item.byte_offset,
        array: item.array,
        inner,
    }
}

fn item_leq_exec(a: &BlockItem, b: &BlockItem) -> (r: bool)
    ensures
        r == item_leq(*a, *b),
{
    if a.byte_offset < b.byte_offset {
        true
    } else if a.byte_offset == b.byte_offset {
        str_leq(a.name.as_str(), b.name.as_str())
    } else {
        false
    }
}

/// Sorts a block's items by `(byte_offset, name)`.
pub fn sort_items(items: &Vec<BlockItem>) -> (r: Vec<BlockItem>)
    requires
        items_distinct(items@),
    ensures
        r@.to_multiset() == items@.to_multiset(),
        items_sorted(r@),
        items_distinct(r@),
{
    broadcast use vstd::seq_lib::group_to_multiset_ensures;
    broadcast use vstd::multiset::group_multiset_axioms;

    let n = items.len();
    let mut src: Vec<BlockItem> = Vec::new();
    for i in 0..n
        invariant
            n == items@.len(),
            src@ =~= items@.subrange(0, i as int),
    {
        src.push(clone_item(&items[i]));
    }
    assert(src@ =~= items@);
    let mut out: Vec<BlockItem> = Vec::new();
    proof {
        assert(out@.to_multiset().add(src@.to_multiset()) =~= items@.to_multiset());
    }
    while src.len() > 0
        invariant
            out@.to_multiset().add(src@.to_multiset()) == items@.to_multiset(),
            items_sorted(out@),
            items_distinct(out@),
            items_distinct(src@),
            forall|i: int, j: int|
                0 <= i < out@.len() && 0 <= j < src@.len() ==> item_leq(
                    #[trigger] out@[i],
                    #[trigger] src@[j],
                ),
            forall|i: int, j: int|
                0 <= i < out@.len() && 0 <= j < src@.len() ==> !((#[trigger] out@[i]).byte_offset
                    == (#[trigger] src@[j]).byte_offset && out@[i].name@ == src@[j].name@),
        decreases src.len(),
    {
        let mut m: usize = 0;
        let mut k: usize = 1;
        proof {
            lemma_item_leq_total(src@[0], src@[0]);
        }
        while k < src.len()
            invariant
                m < k <= src@.len(),
                forall|j: int| 0 <= j < k ==> item_leq(src@[m as int], #[trigger] src@[j]),
            decreases src.len() - k,
        {
            if item_leq_exec(&src[k], &src[m]) {
                proof {
                    assert forall|j: int| 0 <= j < k + 1 implies item_leq(
                        src@[k as int],
                        #[trigger] src@[j],
                    ) by {
                        if j == k {
                            lemma_item_leq_total(src@[k as int], src@[k as int]);
                        } else {
                            lemma_item_leq_transitive(src@[k as int], src@[m as int], src@[j]);
                        }
                    }
                }
                m = k;
            } else {
                proof {
                    lemma_item_leq_total(src@[k as int], src@[m as int]);
                }
            }
            k += 1;
        }
        let ghost old_src = src@;
        let ghost old_out = out@;
        let x = src.remove(m);
        out.push(x);
        proof {
            broadcast use vstd::seq_lib::group_to_multiset_ensures;
            broadcast use vstd::multiset::group_multiset_axioms;

            assert(x == old_src[m as int]);
            assert(old_src.contains(x));
            assert(old_src.to_multiset().count(x) > 0);
            assert(out@.to_multiset().add(src@.to_multiset()) =~= items@.to_multiset());
            // the moved minimum keeps the output sorted and below the rest
            assert forall|i: int, j: int|
                0 <= i < out@.len() && 0 <= j < src@.len() implies item_leq(
                #[trigger] out@[i],
                #[trigger] src@[j],
            ) by {
                let jj = if j < m { j } else { j + 1 };
                assert(src@[j] == old_src[jj]);
                if i < out@.len() - 1 {
                    assert(out@[i] == old_out[i]);
                } else {
                    assert(out@[i] == x);
                }
            }
            assert forall|i: int, j: int|
                0 <= i < out@.len() && 0 <= j < src@.len() implies !((
            #[trigger] out@[i]).byte_offset == (#[trigger] src@[j]).byte_offset && out@[i].name@
                == src@[j].name@) by {
                let jj = if j < m { j } else { j + 1 };
                assert(src@[j] == old_src[jj]);
                if i < out@.len() - 1 {
                    assert(out@[i] == old_out[i]);
                } else {
                    assert(out@[i] == old_src[m as int]);
                }
            }
            assert forall|i: int, j: int| 0 <= i < j < out@.len() implies item_leq(
                #[trigger] out@[i],
                #[trigger] out@[j],
            ) by {
                if j < out@.len() - 1 {
                    assert(out@[i] == old_out[i] && out@[j] == old_out[j]);
                } else {
                    assert(out@[i] == old_out[i] && out@[j] == x);
                }
            }
            assert forall|i: int, j: int| 0 <= i < j < out@.len() implies !((
            #[trigger] out@[i]).byte_offset == (#[trigger] out@[j]).byte_offset && out@[i].name@
                == out@[j].name@) by {
                if j < out@.len() - 1 {
                    assert(out@[i] == old_out[i] && out@[j] == old_out[j]);
                } else {
                    assert(out@[i] == old_out[i] && out@[j] == old_src[m as int]);
                }
            }
            assert forall|i: int, j: int| 0 <= i < j < src@.len() implies !((
            #[trigger] src@[i]).byte_offset == (#[trigger] src@[j]).byte_offset && src@[i].name@
                == src@[j].name@) by {
                let ii = if i < m { i } else { i + 1 };
                let jj = if j < m { j } else { j + 1 };
                assert(src@[i] == old_src[ii] && src@[j] == old_src[jj]);
            }
        }
    }
    proof {
        assert(src@.to_multiset() =~= Multiset::<BlockItem>::empty());
        assert(out@.to_multiset() =~= items@.to_multiset());
    }
    out
}

fn plan_item(item: &BlockItem) -> (r: ItemPlan)
    ensures
        r == item_plan_of(*item),
{
    let kind = match &item.inner {
        BlockItemInner::Register(rr) => match &rr.fieldset {
            Some(p) => ItemKind::FieldsetRegister { fieldset_path: p.clone(), access: rr.access },
            None => ItemKind::PlainRegister { bit_size: rr.bit_size, access: rr.access },
        },
        BlockItemInner::Block(b) => ItemKind::SubBlock { block_path: b.block.clone() },
    };
    ItemPlan {
        name: item.name.clone(),
        description: clone_opt_string(&item.description),
        byte_offset: item.byte_offset,
        array: item.array,
        kind,
    }
}

/// Renders one block: validates every item against the description tree and
/// produces the accessor plans in the deterministic `(byte_offset, name)`
/// order.  Succeeds exactly when every fieldset and block reference
/// resolves and every plain register width is one of 8, 16, 32, 64;
/// otherwise the whole run fails with the offending path or width.
pub fn render(ir: &Ir, block: &Block, path: &str) -> (r: Result<BlockPlan, Error>)
    requires
        items_distinct(block.items@),
    ensures
        r is Ok <==> (forall|i: int|
            0 <= i < block.items@.len() ==> item_ok(*ir, #[trigger] block.items@[i])),
        r matches Ok(plan) ==> {
            &&& plan.path@ == path@
            &&& plan.description == block.description
            &&& plan_of_items(block.items@, plan.items@)
        },
        r matches Err(e) ==> match e {
            Error::ReferenceError { path: p } => exists|i: int|
                0 <= i < block.items@.len() && item_missing_ref(*ir, #[trigger] block.items@[i], p@),
            Error::BitSizeError { bit_size } => exists|i: int|
                0 <= i < block.items@.len() && item_bad_width(#[trigger] block.items@[i], bit_size),
            _ => false,
        },
{
    broadcast use vstd::seq_lib::group_to_multiset_ensures;

    let sorted = sort_items(&block.items);
    let n = sorted.len();
    let mut plans: Vec<ItemPlan> = Vec::new();
    for idx in 0..n
        invariant
            n == sorted@.len(),
            sorted@.to_multiset() == block.items@.to_multiset(),
            items_sorted(sorted@),
            items_distinct(sorted@),
            plans@ =~= sorted@.subrange(0, idx as int).map_values(
                |it: BlockItem| item_plan_of(it),
            ),
            forall|i: int| 0 <= i < idx ==> item_ok(*ir, #[trigger] sorted@[i]),
    {
        let it = &sorted[idx];
        match &it.inner {
            BlockItemInner::Register(rr) => match &rr.fieldset {
                Some(p) => {
                    if ir.get_fieldset(p.as_str()).is_none() {
                        proof {
                            broadcast use vstd::seq_lib::group_to_multiset_ensures;
                            broadcast use vstd::multiset::group_multiset_axioms;

                            assert(sorted@.contains(sorted@[idx as int]));
                            assert(sorted@.to_multiset().count(sorted@[idx as int]) > 0);
                            assert(block.items@.contains(sorted@[idx as int]));
                        }
                        return Err(Error::ReferenceError { path: p.clone() });
                    }
                },
                None => {
                    let w = rr.bit_size;
                    if !(w == 8 || w == 16 || w == 32 || w == 64) {
                        proof {
                            broadcast use vstd::seq_lib::group_to_multiset_ensures;
                            broadcast use vstd::multiset::group_multiset_axioms;

                            assert(sorted@.contains(sorted@[idx as int]));
                            assert(sorted@.to_multiset().count(sorted@[idx as int]) > 0);
                            assert(block.items@.contains(sorted@[idx as int]));
                        }
                        return Err(Error::BitSizeError { bit_size: w });
                    }
                },
            },
            BlockItemInner::Block(b) => {
                if ir.get_block(b.block.as_str()).is_none() {
                    proof {
                        broadcast use vstd::seq_lib::group_to_multiset_ensures;
                        broadcast use vstd::multiset::group_multiset_axioms;

                        assert(sorted@.contains(sorted@[idx as int]));
                        assert(sorted@.to_multiset().count(sorted@[idx as int]) > 0);
                        assert(block.items@.contains(sorted@[idx as int]));
                    }
                    return Err(Error::ReferenceError { path: b.block.clone() });
                }
            },
        }
        plans.push(plan_item(it));
        proof {
            broadcast use vstd::seq_lib::group_to_multiset_ensures;

            assert(plans@ =~= sorted@.subrange(0, idx + 1).map_values(
                |it: BlockItem| item_plan_of(it),
            ));
        }
    }
    proof {
        broadcast use vstd::seq_lib::group_to_multiset_ensures;
        broadcast use vstd::multiset::group_multiset_axioms;

        assert forall|i: int| 0 <= i < block.items@.len() implies item_ok(
            *ir,
            #[trigger] block.items@[i],
        ) by {
            assert(block.items@.contains(block.items@[i]));
            assert(block.items@.to_multiset().count(block.items@[i]) > 0);
            assert(sorted@.to_multiset().count(block.items@[i]) > 0);
            assert(sorted@.contains(block.items@[i]));
            let j = choose|j: int| 0 <= j < sorted@.len() && sorted@[j] == block.items@[i];
            assert(item_ok(*ir, sorted@[j]));
        }
        assert(plans@ =~= sorted@.map_values(|it: BlockItem| item_plan_of(it))) by {
            assert(sorted@.subrange(0, n as int) =~= sorted@);
        }
        assert(sorted_witness(block.items@, sorted@, plans@));
    }
    Ok(BlockPlan { path: path.to_owned(), description: clone_opt_string(&block.description), items: plans })
}

/// Law: two sorted item lists with the same members and unique identities
/// are one and the same list.
proof fn lemma_sorted_items_unique(s1: Seq<BlockItem>, s2: Seq<BlockItem>)
    requires
        items_sorted(s1),
        items_sorted(s2),
        items_distinct(s1),
        s1.to_multiset() == s2.to_multiset(),
    ensures
        s1 == s2,
    decreases s1.len(),
{
    broadcast use vstd::seq_lib::group_to_multiset_ensures;
    broadcast use vstd::multiset::group_multiset_axioms;

    if s1.len() == 0 {
        assert(s2.len() == 0);
        assert(s1 =~= s2);
    } else {
        assert(s1.to_multiset().len() == s1.len());
        assert(s2.to_multiset().len() == s2.len());
        assert(s2.len() > 0);
        assert(s1.contains(s1[0]));
        assert(s1.to_multiset().count(s1[0]) > 0);
        assert(s2.to_multiset().count(s1[0]) > 0);
        assert(s2.contains(s1[0]));
        let j = choose|j: int| 0 <= j < s2.len() && s2[j] == s1[0];
        assert(item_leq(s2[0], s1[0]) || s2[0] == s1[0]) by {
            if j > 0 {
                assert(item_leq(s2[0], s2[j]));
            }
        }
        assert(s2.contains(s2[0]));
        assert(s2.to_multiset().count(s2[0]) > 0);
        assert(s1.to_multiset().count(s2[0]) > 0);
        assert(s1.contains(s2[0]));
        let i = choose|i: int| 0 <= i < s1.len() && s1[i] == s2[0];
        assert(item_leq(s1[0], s2[0]) || s1[0] == s2[0]) by {
            if i > 0 {
                assert(item_leq(s1[0], s1[i]));
            }
        }
        assert(s1[0].byte_offset == s2[0].byte_offset && s1[0].name@ == s2[0].name@) by {
            if s1[0] == s2[0] {
            } else {
                lemma_item_leq_total(s1[0], s2[0]);
                lemma_item_leq_antisymmetric(s1[0], s2[0]);
            }
        }
        assert(s1[0] == s2[0]) by {
            if i > 0 {
                assert(s1[i].byte_offset == s1[0].byte_offset && s1[i].name@ == s1[0].name@);
                assert(false);
            }
        }
        assert(s1.drop_first().to_multiset() =~= s1.to_multiset().remove(s1[0])) by {
            assert(s1.drop_first() =~= s1.remove(0));
        }
        assert(s2.drop_first().to_multiset() =~= s2.to_multiset().remove(s2[0])) by {
            assert(s2.drop_first() =~= s2.remove(0));
        }
        assert(items_sorted(s1.drop_first()) && items_distinct(s1.drop_first()) && items_sorted(
            s2.drop_first(),
        )) by {
            assert(forall|k: int|
                0 <= k < s1.len() - 1 ==> #[trigger] s1.drop_first()[k] == s1[k + 1]);
            assert(forall|k: int|
                0 <= k < s2.len() - 1 ==> #[trigger] s2.drop_first()[k] == s2[k + 1]);
        }
        lemma_sorted_items_unique(s1.drop_first(), s2.drop_first());
        assert(s1.len() == s2.len());
        assert forall|k: int| 0 <= k < s1.len() implies s1[k] == s2[k] by {
            if k > 0 {
                assert(s1.drop_first() == s2.drop_first());
                assert(s1.drop_first()[k - 1] == s1[k]);
                assert(s2.drop_first()[k - 1] == s2[k]);
            }
        }
        assert(s1 =~= s2);
    }
}

/// Law: rendering is deterministic.  For any permutation of a block's item
/// list (item identities being unique, as the data model demands), the
/// rendered accessor plans are identical.
pub proof fn lemma_render_deterministic(
    items1: Seq<BlockItem>,
    items2: Seq<BlockItem>,
    p1: Seq<ItemPlan>,
    p2: Seq<ItemPlan>,
)
    requires
        items1.to_multiset() == items2.to_multiset(),
        plan_of_items(items1, p1),
        plan_of_items(items2, p2),
    ensures
        p1 == p2,
{
    let s1 = choose|s: Seq<BlockItem>| sorted_witness(items1, s, p1);
    let s2 = choose|s: Seq<BlockItem>| sorted_witness(items2, s, p2);
    lemma_sorted_items_unique(s1, s2);
}

} // verus!
