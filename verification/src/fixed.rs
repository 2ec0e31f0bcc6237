//! The static reference tables: the range/validity table and the
//! byte-value table.
use vstd::prelude::*;
use vstd::arithmetic::power2::{lemma2_to64, lemma_pow2_strictly_increases, pow2};
use vstd::bits::lemma_u64_shl_is_mul;
use crate::field::{Fe, fe_from_u64};
use crate::rlc::fe_vals;
use crate::tables::{row_wf, table_vals, table_wf, zero_row, zero_row_val};

verus! {

/// Columns of the fixed table.
pub const FIXED_TABLE_WIDTH: usize = 4;

/// The contents one slice of the fixed table can hold.
#[derive(Clone, Copy, Debug, PartialEq, Eq, Structural)]
pub enum FixedTableTag {
    /// The all-zero tuple.
    Zero,
    /// The values 0 to 4.
    Range5,
    /// The values 0 to 15.
    Range16,
    /// The values 0 to 31.
    Range32,
    /// The values 0 to 63.
    Range64,
    /// The values 0 to 255.
    Range256,
    /// The values 0 to 511.
    Range512,
    /// The values 0 to 1023.
    Range1024,
    /// Each byte value with its sign-extension byte: 0 below 128, 255
    /// from 128 on.
    SignByte,
    /// Each exponent 0 to 63 with the power of two it names.
    Pow2,
}

/// The numeric tag of a fixed-table slice.
pub open spec fn tag_index(tag: FixedTableTag) -> nat {
    match tag {
        FixedTableTag::Zero => 0,
        FixedTableTag::Range5 => 1,
        FixedTableTag::Range16 => 2,
        FixedTableTag::Range32 => 3,
        FixedTableTag::Range64 => 4,
        FixedTableTag::Range256 => 5,
        FixedTableTag::Range512 => 6,
        FixedTableTag::Range1024 => 7,
        FixedTableTag::SignByte => 8,
        FixedTableTag::Pow2 => 9,
    }
}

/// How many rows a fixed-table slice holds.
pub open spec fn tag_size(tag: FixedTableTag) -> nat {
    match tag {
        FixedTableTag::Zero => 1,
        FixedTableTag::Range5 => 5,
        FixedTableTag::Range16 => 16,
        FixedTableTag::Range32 => 32,
        FixedTableTag::Range64 => 64,
        FixedTableTag::Range256 => 256,
        FixedTableTag::Range512 => 512,
        FixedTableTag::Range1024 => 1024,
        FixedTableTag::SignByte => 256,
        FixedTableTag::Pow2 => 64,
    }
}

/// One row of a fixed-table slice: its tag, the value, and the columns
/// the slice derives from the value.  Range slices leave the last two
/// columns zero; the sign-byte slice carries the sign-extension byte; the
/// power slice carries the power of two.
pub open spec fn fixed_tag_row(tag: FixedTableTag, v: int) -> Seq<nat> {
    match tag {
        FixedTableTag::SignByte => seq![
            tag_index(tag),
            v as nat,
            0nat,
            if v < 128 {
                0nat
            } else {
                255nat
            },
        ],
        FixedTableTag::Pow2 => seq![tag_index(tag), v as nat, pow2(v as nat), 0nat],
        _ => seq![tag_index(tag), v as nat, 0nat, 0nat],
    }
}

/// The rows of one fixed-table slice, one per value of its range.
pub open spec fn fixed_tag_vals(tag: FixedTableTag) -> Seq<Seq<nat>> {
    Seq::new(tag_size(tag), |v: int| fixed_tag_row(tag, v))
}

/// The rows of the fixed table after the sentinel: the slices of the
/// requested tags, in order.
pub open spec fn fixed_table_vals(tags: Seq<FixedTableTag>) -> Seq<Seq<nat>>
    decreases tags.len(),
{
    if tags.len() == 0 {
        Seq::empty()
    } else {
        fixed_table_vals(tags.drop_last()) + fixed_tag_vals(tags.last())
    }
}

/// The numeric tag of a fixed-table slice.
fn tag_index_u64(tag: FixedTableTag) -> (r: u64)
    ensures
        r as nat == tag_index(tag),
{
    match tag {
        FixedTableTag::Zero => 0,
        FixedTableTag::Range5 => 1,
        FixedTableTag::Range16 => 2,
        FixedTableTag::Range32 => 3,
        FixedTableTag::Range64 => 4,
        FixedTableTag::Range256 => 5,
        FixedTableTag::Range512 => 6,
        FixedTableTag::Range1024 => 7,
        FixedTableTag::SignByte => 8,
        FixedTableTag::Pow2 => 9,
    }
}

/// How many rows a fixed-table slice holds.
fn tag_size_u64(tag: FixedTableTag) -> (r: u64)
    ensures
        r as nat == tag_size(tag),
{
    match tag {
        FixedTableTag::Zero => 1,
        FixedTableTag::Range5 => 5,
        FixedTableTag::Range16 => 16,
        FixedTableTag::Range32 => 32,
        FixedTableTag::Range64 => 64,
        FixedTableTag::Range256 => 256,
        FixedTableTag::Range512 => 512,
        FixedTableTag::Range1024 => 1024,
        FixedTableTag::SignByte => 256,
        FixedTableTag::Pow2 => 64,
    }
}

/// Builds the fixed lookup table: the all-zero sentinel row, then the
/// rows of every requested slice in order.
pub fn load_fixed_table(fixed_table_tags: &Vec<FixedTableTag>) -> (rows: Vec<Vec<Fe>>)
    ensures
        table_wf(rows@, FIXED_TABLE_WIDTH as int),
        table_vals(rows@) == seq![zero_row_val(FIXED_TABLE_WIDTH as int)] + fixed_table_vals(
            fixed_table_tags@,
        ),
{
    let mut rows: Vec<Vec<Fe>> = Vec::new();
    rows.push(zero_row(FIXED_TABLE_WIDTH));
    proof {
        assert(fixed_table_tags@.take(0) =~= Seq::<FixedTableTag>::empty());
        assert(table_vals(rows@) =~= seq![zero_row_val(FIXED_TABLE_WIDTH as int)]
            + fixed_table_vals(fixed_table_tags@.take(0)));
    }
    let mut t: usize = 0;
    while t < fixed_table_tags.len()
        invariant
            t <= fixed_table_tags@.len(),
            table_wf(rows@, FIXED_TABLE_WIDTH as int),
            table_vals(rows@) == seq![zero_row_val(FIXED_TABLE_WIDTH as int)] + fixed_table_vals(
                fixed_table_tags@.take(t as int),
            ),
        decreases fixed_table_tags@.len() - t,
    {
        let tag = fixed_table_tags[t];
        let idx = tag_index_u64(tag);
        let size = tag_size_u64(tag);
        let ghost base = table_vals(rows@);
        let ghost tagrows = fixed_tag_vals(tag);
        proof {
            assert(base + tagrows.take(0) =~= base);
        }
        let mut v: u64 = 0;
        while v < size
            invariant
                v <= size,
                size as nat == tag_size(tag),
                idx as nat == tag_index(tag),
                tagrows == fixed_tag_vals(tag),
                table_wf(rows@, FIXED_TABLE_WIDTH as int),
                table_vals(rows@) == base + tagrows.take(v as int),
            decreases size - v,
        {
            let c3: u64 = if tag == FixedTableTag::Pow2 {
                proof {
                    lemma_pow2_strictly_increases(v as nat, 64);
                    lemma2_to64();
                    lemma_u64_shl_is_mul(1, v);
                }
                1u64 << v
            } else {
                0
            };
            let c4: u64 = if tag == FixedTableTag::SignByte && v >= 128 {
                255
            } else {
                0
            };
            let mut row: Vec<Fe> = Vec::new();
            row.push(fe_from_u64(idx));
            row.push(fe_from_u64(v));
            row.push(fe_from_u64(c3));
            row.push(fe_from_u64(c4));
            proof {
                assert(fe_vals(row@) =~= tagrows[v as int]);
            }
            let ghost old_tv = table_vals(rows@);
            rows.push(row);
            proof {
                assert(table_vals(rows@) =~= old_tv.push(tagrows[v as int]));
                assert(base + tagrows.take(v + 1) =~= old_tv.push(tagrows[v as int]));
            }
            v += 1;
        }
        proof {
            assert(tagrows.take(tag_size(tag) as int) =~= tagrows);
            assert(fixed_table_tags@.take(t + 1).drop_last() =~= fixed_table_tags@.take(t as int));
            assert(fixed_table_tags@.take(t + 1).last() == fixed_table_tags@[t as int]);
            assert(base + tagrows =~= seq![zero_row_val(FIXED_TABLE_WIDTH as int)]
                + fixed_table_vals(fixed_table_tags@.take(t + 1)));
        }
        t += 1;
    }
    proof {
        assert(fixed_table_tags@.take(fixed_table_tags@.len() as int) =~= fixed_table_tags@);
    }
    rows
}

/// Builds the byte-value table: the 256 byte values in order, one per
/// offset starting at 0.
pub fn load_byte_table() -> (rows: Vec<Fe>)
    ensures
        rows@.len() == 256,
        forall|v: int| 0 <= v < 256 ==> (#[trigger] rows@[v]).wf() && rows@[v].val() == v,
{
    let mut rows: Vec<Fe> = Vec::new();
    let mut v: u64 = 0;
    while v < 256
        invariant
            v <= 256,
            rows@.len() == v,
            forall|j: int| 0 <= j < v ==> (#[trigger] rows@[j]).wf() && rows@[j].val() == j,
        decreases 256 - v,
    {
        rows.push(fe_from_u64(v));
        v += 1;
    }
    rows
}

} // verus!
