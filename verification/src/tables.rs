//! The witness tables: domain records expanded into fixed-width rows.
//!
//! Every table starts with the reserved all-zero sentinel row at offset
//! 0; the records' own rows follow at consecutive offsets in input order.
//! The read/write table additionally presents its records in strictly
//! increasing counter order 1..N, and aborts when the counters are not
//! exactly that sequence.
use vstd::prelude::*;
use vstd::arithmetic::power2::pow2;
use crate::field::{Fe, fe_from_u64, fe_one, fe_zero, reverse_bytes};
use crate::rlc::{byte_vals, fe_vals, rlc_bytes, rlc_val};

verus! {

/// Columns of the transaction table.
pub const TX_TABLE_WIDTH: usize = 4;

/// Columns of the read/write table.
pub const RW_TABLE_WIDTH: usize = 5;

/// Columns of the bytecode table.
pub const BYTECODE_TABLE_WIDTH: usize = 4;

/// Columns of the block table.
pub const BLOCK_TABLE_WIDTH: usize = 3;

/// Columns of the keccak table.
pub const KECCAK_TABLE_WIDTH: usize = 4;

/// A fatal defect found while building the tables.
#[derive(Debug, PartialEq, Eq, Structural)]
pub enum WitnessError {
    /// The read/write counters are not exactly the sequence 1..N: an
    /// upstream trace-generation bug.
    RwOrdering,
    /// A record cannot expand into rows, such as a bytecode whose
    /// declared flags do not match its byte count.
    MalformedRecord,
}

/// A well-formed row of the given width.
pub open spec fn row_wf(r: Vec<Fe>, w: int) -> bool {
    r@.len() == w && forall|j: int| 0 <= j < r@.len() ==> (#[trigger] r@[j]).wf()
}

/// A table of well-formed rows of the given width.
pub open spec fn table_wf(t: Seq<Vec<Fe>>, w: int) -> bool {
    forall|i: int| 0 <= i < t.len() ==> row_wf(#[trigger] t[i], w)
}

/// The values a table holds, row by row.
pub open spec fn table_vals(t: Seq<Vec<Fe>>) -> Seq<Seq<nat>> {
    t.map_values(|r: Vec<Fe>| fe_vals(r@))
}

/// The all-zero sentinel row of the given width, as values.
pub open spec fn zero_row_val(w: int) -> Seq<nat> {
    Seq::new(w as nat, |j: int| 0nat)
}

/// The all-zero sentinel row of the given width.
pub fn zero_row(w: usize) -> (r: Vec<Fe>)
    ensures
        row_wf(r, w as int),
        fe_vals(r@) == zero_row_val(w as int),
{
    let mut out: Vec<Fe> = Vec::new();
    let mut i: usize = 0;
    while i < w
        invariant
            i <= w,
            out@.len() == i,
            forall|j: int| 0 <= j < i ==> (#[trigger] out@[j]).wf() && out@[j].val() == 0,
        decreases w - i,
    {
        out.push(fe_zero());
        i += 1;
    }
    proof {
        assert(fe_vals(out@) =~= zero_row_val(w as int));
    }
    out
}

/// A copy of a row, element for element.
pub fn dup_row(r: &Vec<Fe>) -> (out: Vec<Fe>)
    ensures
        out@.len() == r@.len(),
        forall|j: int| 0 <= j < r@.len() ==> (#[trigger] out@[j]).bytes@ == r@[j].bytes@,
        forall|j: int| 0 <= j < r@.len() ==> ((#[trigger] out@[j]).wf() <==> r@[j].wf()),
        fe_vals(out@) == fe_vals(r@),
{
    let mut out: Vec<Fe> = Vec::new();
    let mut i: usize = 0;
    while i < r.len()
        invariant
            i <= r@.len(),
            out@.len() == i,
            forall|j: int| 0 <= j < i ==> (#[trigger] out@[j]).bytes@ == r@[j].bytes@,
        decreases r@.len() - i,
    {
        out.push(r[i].dup());
        i += 1;
    }
    proof {
        assert(fe_vals(out@) =~= fe_vals(r@));
    }
    out
}

/// A transaction record: its table rows are produced by the transaction's
/// own representation together with the shared challenge; the builder
/// only sequences them.  The step kinds index the execution engine's
/// row-height table.
pub struct Transaction {
    /// The table rows this transaction expands into.
    pub rows: Vec<Vec<Fe>>,
    /// The execution step kinds of the transaction, in order.
    pub steps: Vec<usize>,
}

impl Transaction {
    /// Every supplied row has the transaction table's width.
    pub open spec fn wf(self) -> bool {
        table_wf(self.rows@, TX_TABLE_WIDTH as int)
    }
}

/// The rows of the transaction table after the sentinel: every
/// transaction's rows, in input order.
pub open spec fn tx_table_vals(txs: Seq<Transaction>) -> Seq<Seq<nat>>
    decreases txs.len(),
{
    if txs.len() == 0 {
        Seq::empty()
    } else {
        tx_table_vals(txs.drop_last()) + table_vals(txs.last().rows@)
    }
}

/// Builds the transaction table: the all-zero sentinel row at offset 0,
/// then every transaction's rows in input order at consecutive offsets.
pub fn load_txs(txs: &Vec<Transaction>) -> (rows: Vec<Vec<Fe>>)
    requires
        forall|i: int| 0 <= i < txs@.len() ==> (#[trigger] txs@[i]).wf(),
    ensures
        table_wf(rows@, TX_TABLE_WIDTH as int),
        table_vals(rows@) == seq![zero_row_val(TX_TABLE_WIDTH as int)] + tx_table_vals(txs@),
{
    let mut rows: Vec<Vec<Fe>> = Vec::new();
    rows.push(zero_row(TX_TABLE_WIDTH));
    proof {
        assert(txs@.take(0) =~= Seq::<Transaction>::empty());
        assert(table_vals(rows@) =~= seq![zero_row_val(TX_TABLE_WIDTH as int)] + tx_table_vals(
            txs@.take(0),
        ));
    }
    let mut t: usize = 0;
    while t < txs.len()
        invariant
            t <= txs@.len(),
            forall|i: int| 0 <= i < txs@.len() ==> (#[trigger] txs@[i]).wf(),
            table_wf(rows@, TX_TABLE_WIDTH as int),
            table_vals(rows@) == seq![zero_row_val(TX_TABLE_WIDTH as int)] + tx_table_vals(
                txs@.take(t as int),
            ),
        decreases txs@.len() - t,
    {
        let ghost base = table_vals(rows@);
        let ghost txrows = table_vals(txs@[t as int].rows@);
        proof {
            assert(base + txrows.take(0) =~= base);
        }
        let mut j: usize = 0;
        while j < txs[t].rows.len()
            invariant
                t < txs@.len(),
                j <= txs@[t as int].rows@.len(),
                forall|i: int| 0 <= i < txs@.len() ==> (#[trigger] txs@[i]).wf(),
                txrows == table_vals(txs@[t as int].rows@),
                table_wf(rows@, TX_TABLE_WIDTH as int),
                table_vals(rows@) == base + txrows.take(j as int),
            decreases txs@[t as int].rows@.len() - j,
        {
            proof {
                assert(row_wf(txs@[t as int].rows@[j as int], TX_TABLE_WIDTH as int));
                assert(txrows[j as int] == fe_vals(txs@[t as int].rows@[j as int]@));
            }
            let newrow = dup_row(&txs[t].rows[j]);
            let ghost old_tv = table_vals(rows@);
            proof {
                assert(fe_vals(newrow@) == txrows[j as int]);
            }
            rows.push(newrow);
            proof {
                assert(table_vals(rows@) =~= old_tv.push(txrows[j as int]));
                assert(base + txrows.take(j + 1) =~= old_tv.push(txrows[j as int]));
            }
            j += 1;
        }
        proof {
            assert(txrows.take(txs@[t as int].rows@.len() as int) =~= txrows);
            assert(txs@.take(t + 1).drop_last() =~= txs@.take(t as int));
            assert(txs@.take(t + 1).last() == txs@[t as int]);
            assert(base + txrows =~= seq![zero_row_val(TX_TABLE_WIDTH as int)] + tx_table_vals(
                txs@.take(t + 1),
            ));
        }
        t += 1;
    }
    proof {
        assert(txs@.take(txs@.len() as int) =~= txs@);
    }
    rows
}

/// A read/write record: a tagged state access with its strictly positive
/// counter, target and value.
pub struct RwRecord {
    /// The global access counter; a valid trace numbers all accesses
    /// exactly 1..N.
    pub counter: u64,
    /// Whether the access is a write.
    pub is_write: bool,
    /// The target kind of the access (stack, memory, storage, account).
    pub tag: u64,
    /// The target slot.
    pub key: Fe,
    /// The value read or written.
    pub value: Fe,
}

impl RwRecord {
    /// Field elements of the record are well formed.
    pub open spec fn wf(self) -> bool {
        self.key.wf() && self.value.wf()
    }
}

/// The table row of one read/write record.
pub open spec fn rw_row_val(rec: RwRecord) -> Seq<nat> {
    seq![
        rec.counter as nat,
        if rec.is_write {
            1nat
        } else {
            0nat
        },
        rec.tag as nat,
        rec.key.val(),
        rec.value.val(),
    ]
}

/// The table row of one read/write record.
pub fn rw_row(rec: &RwRecord) -> (r: Vec<Fe>)
    requires
        rec.wf(),
    ensures
        row_wf(r, RW_TABLE_WIDTH as int),
        fe_vals(r@) == rw_row_val(*rec),
{
    let mut r: Vec<Fe> = Vec::new();
    r.push(fe_from_u64(rec.counter));
    r.push(fe_from_u64(if rec.is_write { 1 } else { 0 }));
    r.push(fe_from_u64(rec.tag));
    r.push(rec.key.dup());
    r.push(rec.value.dup());
    proof {
        assert(fe_vals(r@) =~= rw_row_val(*rec));
    }
    r
}

/// The record groups flattened in group order.
pub open spec fn flat_rws(groups: Seq<Seq<RwRecord>>) -> Seq<RwRecord>
    decreases groups.len(),
{
    if groups.len() == 0 {
        Seq::empty()
    } else {
        flat_rws(groups.drop_last()) + groups.last()
    }
}

/// The views of a vector of record groups.
pub open spec fn groups_view(g: Seq<Vec<RwRecord>>) -> Seq<Seq<RwRecord>> {
    g.map_values(|v: Vec<RwRecord>| v@)
}

/// Some record carries the given counter.
pub open spec fn has_counter(s: Seq<RwRecord>, k: nat) -> bool {
    exists|i: int| 0 <= i < s.len() && (#[trigger] s[i]).counter == k
}

/// The counters cover 1..N with N records: they are exactly the sequence
/// 1, 2, ..., N with no gaps or repeats.
pub open spec fn rw_counters_complete(s: Seq<RwRecord>) -> bool {
    forall|k: nat| 1 <= k <= s.len() ==> #[trigger] has_counter(s, k)
}

/// Offset `k` of the table holds the row of a record whose counter is `k`.
pub open spec fn rw_match_at(flat: Seq<RwRecord>, t: Seq<Seq<nat>>, k: int) -> bool {
    exists|j: int|
        0 <= j < flat.len() && (#[trigger] flat[j]).counter == k && t[k] == rw_row_val(flat[j])
}

/// Builds the read/write table: the all-zero sentinel row, then every
/// record's row in strictly increasing counter order.  Succeeds exactly
/// when the counters of all records are the sequence 1..N; any gap or
/// repeat is a fatal ordering defect.
pub fn load_rws(groups: &Vec<Vec<RwRecord>>) -> (out: Result<Vec<Vec<Fe>>, WitnessError>)
    requires
        forall|i: int, j: int|
            0 <= i < groups@.len() && 0 <= j < groups@[i]@.len() ==> (
            #[trigger] groups@[i]@[j]).wf(),
    ensures
        ({
            let flat = flat_rws(groups_view(groups@));
            match out {
                Ok(rows) => rw_counters_complete(flat) && table_wf(rows@, RW_TABLE_WIDTH as int)
                    && rows@.len() == flat.len() + 1 && table_vals(rows@)[0] == zero_row_val(
                    RW_TABLE_WIDTH as int,
                ) && forall|k: int|
                    1 <= k <= flat.len() ==> #[trigger] rw_match_at(flat, table_vals(rows@), k),
                Err(e) => e == WitnessError::RwOrdering && !rw_counters_complete(flat),
            }
        }),
{
    let ghost gv = groups_view(groups@);
    let mut counters: Vec<u64> = Vec::new();
    let mut recrows: Vec<Vec<Fe>> = Vec::new();
    proof {
        assert(gv.take(0) =~= Seq::<Seq<RwRecord>>::empty());
    }
    let mut g: usize = 0;
    while g < groups.len()
        invariant
            g <= groups@.len(),
            gv == groups_view(groups@),
            forall|i: int, j: int|
                0 <= i < groups@.len() && 0 <= j < groups@[i]@.len() ==> (
                #[trigger] groups@[i]@[j]).wf(),
            counters@.len() == flat_rws(gv.take(g as int)).len(),
            recrows@.len() == counters@.len(),
            forall|j: int|
                0 <= j < counters@.len() ==> #[trigger] counters@[j] == flat_rws(
                    gv.take(g as int),
                )[j].counter,
            forall|j: int|
                0 <= j < recrows@.len() ==> fe_vals(#[trigger] recrows@[j]@) == rw_row_val(
                    flat_rws(gv.take(g as int))[j],
                ) && row_wf(recrows@[j], RW_TABLE_WIDTH as int),
        decreases groups@.len() - g,
    {
        let ghost before = flat_rws(gv.take(g as int));
        proof {
            assert(before + gv[g as int].take(0) =~= before);
        }
        let mut r: usize = 0;
        while r < groups[g].len()
            invariant
                g < groups@.len(),
                r <= groups@[g as int]@.len(),
                gv == groups_view(groups@),
                forall|i: int, j: int|
                    0 <= i < groups@.len() && 0 <= j < groups@[i]@.len() ==> (
                    #[trigger] groups@[i]@[j]).wf(),
                before == flat_rws(gv.take(g as int)),
                counters@.len() == (before + gv[g as int].take(r as int)).len(),
                recrows@.len() == counters@.len(),
                forall|j: int|
                    0 <= j < counters@.len() ==> #[trigger] counters@[j] == (before + gv[
                        g as int
                    ].take(r as int))[j].counter,
                forall|j: int|
                    0 <= j < recrows@.len() ==> fe_vals(#[trigger] recrows@[j]@) == rw_row_val(
                        (before + gv[g as int].take(r as int))[j],
                    ) && row_wf(recrows@[j], RW_TABLE_WIDTH as int),
            decreases groups@[g as int]@.len() - r,
        {
            let rec = &groups[g][r];
            counters.push(rec.counter);
            recrows.push(rw_row(rec));
            proof {
                assert(gv[g as int].take(r + 1) =~= gv[g as int].take(r as int).push(
                    groups@[g as int]@[r as int],
                ));
                assert(before + gv[g as int].take(r + 1) =~= (before + gv[g as int].take(
                    r as int,
                )).push(groups@[g as int]@[r as int]));
            }
            r += 1;
        }
        proof {
            assert(gv[g as int].take(groups@[g as int]@.len() as int) =~= gv[g as int]);
            assert(gv.take(g + 1).drop_last() =~= gv.take(g as int));
            assert(gv.take(g + 1).last() == gv[g as int]);
        }
        g += 1;
    }
    let ghost flat = flat_rws(gv);
    proof {
        assert(gv.take(groups@.len() as int) =~= gv);
    }
    let n = counters.len();
    let mut rows: Vec<Vec<Fe>> = Vec::new();
    rows.push(zero_row(RW_TABLE_WIDTH));
    proof {
        assert(table_vals(rows@)[0] == zero_row_val(RW_TABLE_WIDTH as int));
    }
    let ghost mut wit: Seq<int> = seq![0int];
    let mut k: usize = 0;
    while k < n
        invariant
            k <= n,
            flat == flat_rws(groups_view(groups@)),
            n == flat.len(),
            n == counters@.len(),
            n == recrows@.len(),
            forall|j: int| 0 <= j < n ==> #[trigger] counters@[j] == flat[j].counter,
            forall|j: int|
                0 <= j < n ==> fe_vals(#[trigger] recrows@[j]@) == rw_row_val(flat[j]) && row_wf(
                    recrows@[j],
                    RW_TABLE_WIDTH as int,
                ),
            rows@.len() == k + 1,
            table_wf(rows@, RW_TABLE_WIDTH as int),
            table_vals(rows@)[0] == zero_row_val(RW_TABLE_WIDTH as int),
            wit.len() == k + 1,
            forall|i: int|
                1 <= i <= k ==> 0 <= #[trigger] wit[i] < n && flat[wit[i]].counter == i
                    && table_vals(rows@)[i] == rw_row_val(flat[wit[i]]),
        decreases n - k,
    {
        let target: usize = k + 1;
        let mut found: usize = n;
        let mut j: usize = 0;
        while j < n
            invariant
                j <= n,
                n == counters@.len(),
                found == n || (found < j && counters@[found as int] == target as u64),
                found == n ==> forall|j2: int| 0 <= j2 < j ==> counters@[j2] != target as u64,
            decreases n - j,
        {
            if found == n && counters[j] == target as u64 {
                found = j;
            }
            j += 1;
        }
        proof {
            assert((target as u64) as int == target as int);
        }
        if found == n {
            proof {
                assert forall|i: int|
                    0 <= i < flat.len() implies flat[i].counter != target as nat by {
                    assert(counters@[i] == flat[i].counter);
                    assert(counters@[i] != target as u64);
                }
                assert(!has_counter(flat, target as nat));
                assert(1 <= target as nat <= flat.len());
                assert(!rw_counters_complete(flat)) by {
                    if rw_counters_complete(flat) {
                        assert(has_counter(flat, target as nat));
                    }
                }
            }
            return Err(WitnessError::RwOrdering);
        }
        proof {
            assert(counters@[found as int] == target as u64);
            assert(flat[found as int].counter == target as nat);
            assert(row_wf(recrows@[found as int], RW_TABLE_WIDTH as int));
        }
        let newrow = dup_row(&recrows[found]);
        let ghost old_tv = table_vals(rows@);
        proof {
            assert(fe_vals(newrow@) == rw_row_val(flat[found as int]));
            assert(row_wf(newrow, RW_TABLE_WIDTH as int));
        }
        rows.push(newrow);
        proof {
            wit = wit.push(found as int);
            assert(table_vals(rows@) =~= old_tv.push(rw_row_val(flat[found as int])));
        }
        k += 1;
    }
    proof {
        assert forall|kk: nat| 1 <= kk <= flat.len() implies #[trigger] has_counter(flat, kk) by {
            let i = kk as int;
            assert(0 <= wit[i] < flat.len() && flat[wit[i]].counter == i);
        }
        assert(rw_counters_complete(flat_rws(groups_view(groups@))));
        assert forall|k2: int|
            1 <= k2 <= flat.len() implies #[trigger] rw_match_at(flat, table_vals(rows@), k2) by {
            assert(0 <= wit[k2] < flat.len() && flat[wit[k2]].counter == k2 && table_vals(rows@)[k2]
                == rw_row_val(flat[wit[k2]]));
        }
    }
    Ok(rows)
}

/// A bytecode record: a content hash over a byte string, with a flag per
/// byte marking executable opcodes against push data.
pub struct Bytecode {
    /// The 32-byte content hash of the code.
    pub hash: Vec<u8>,
    /// The code bytes.
    pub bytes: Vec<u8>,
    /// Per byte: whether it is an executable opcode rather than push data.
    pub is_code: Vec<bool>,
}

impl Bytecode {
    /// Shape: a full 32-byte hash, and one flag per byte.
    pub open spec fn shape_ok(self) -> bool {
        self.hash@.len() == 32 && self.is_code@.len() == self.bytes@.len()
    }
}

/// The word encoding of a 32-byte hash: the random linear combination of
/// its bytes, least significant first.
pub open spec fn word_rlc_val(h: Seq<u8>, r: nat) -> nat {
    rlc_val(byte_vals(h.reverse()), r)
}

/// One bytecode table row: hash word, byte index, opcode flag, byte.
pub open spec fn bytecode_row_val(b: Bytecode, r: nat, j: int) -> Seq<nat> {
    seq![
        word_rlc_val(b.hash@, r),
        j as nat,
        if b.is_code@[j] {
            1nat
        } else {
            0nat
        },
        b.bytes@[j] as nat,
    ]
}

/// The rows one bytecode record expands into: one per byte.
pub open spec fn bytecode_rows_vals(b: Bytecode, r: nat) -> Seq<Seq<nat>> {
    Seq::new(b.bytes@.len(), |j: int| bytecode_row_val(b, r, j))
}

/// The rows of the bytecode table after the sentinel.
pub open spec fn bytecode_table_vals(bs: Seq<Bytecode>, r: nat) -> Seq<Seq<nat>>
    decreases bs.len(),
{
    if bs.len() == 0 {
        Seq::empty()
    } else {
        bytecode_table_vals(bs.drop_last(), r) + bytecode_rows_vals(bs.last(), r)
    }
}

/// Builds the bytecode table: the all-zero sentinel row, then one row per
/// code byte of every record in input order.  A record whose declared
/// flags do not match its byte count, or whose hash is not 32 bytes, is a
/// data-integrity error.
pub fn load_bytecodes(bytecodes: &Vec<Bytecode>, randomness: &Fe) -> (out: Result<
    Vec<Vec<Fe>>,
    WitnessError,
>)
    requires
        randomness.wf(),
    ensures
        ({
            match out {
                Ok(rows) => (forall|i: int|
                    0 <= i < bytecodes@.len() ==> (#[trigger] bytecodes@[i]).shape_ok())
                    && table_wf(rows@, BYTECODE_TABLE_WIDTH as int) && table_vals(rows@) == seq![
                    zero_row_val(BYTECODE_TABLE_WIDTH as int),
                ] + bytecode_table_vals(bytecodes@, randomness.val()),
                Err(e) => e == WitnessError::MalformedRecord && exists|i: int|
                    0 <= i < bytecodes@.len() && !(#[trigger] bytecodes@[i]).shape_ok(),
            }
        }),
{
    let ghost r = randomness.val();
    let mut rows: Vec<Vec<Fe>> = Vec::new();
    rows.push(zero_row(BYTECODE_TABLE_WIDTH));
    proof {
        assert(bytecodes@.take(0) =~= Seq::<Bytecode>::empty());
        assert(table_vals(rows@) =~= seq![zero_row_val(BYTECODE_TABLE_WIDTH as int)]
            + bytecode_table_vals(bytecodes@.take(0), r));
    }
    let mut b: usize = 0;
    while b < bytecodes.len()
        invariant
            b <= bytecodes@.len(),
            r == randomness.val(),
            randomness.wf(),
            forall|i: int| 0 <= i < b ==> (#[trigger] bytecodes@[i]).shape_ok(),
            table_wf(rows@, BYTECODE_TABLE_WIDTH as int),
            table_vals(rows@) == seq![zero_row_val(BYTECODE_TABLE_WIDTH as int)]
                + bytecode_table_vals(bytecodes@.take(b as int), r),
        decreases bytecodes@.len() - b,
    {
        if bytecodes[b].hash.len() != 32 || bytecodes[b].is_code.len() != bytecodes[b].bytes.len() {
            proof {
                assert(!bytecodes@[b as int].shape_ok());
            }
            return Err(WitnessError::MalformedRecord);
        }
        let hash_rev = reverse_bytes(&bytecodes[b].hash);
        let hash_rlc = rlc_bytes(&hash_rev, randomness);
        proof {
            assert(hash_rlc.val() == word_rlc_val(bytecodes@[b as int].hash@, r));
        }
        let ghost base = table_vals(rows@);
        let ghost bcrows = bytecode_rows_vals(bytecodes@[b as int], r);
        proof {
            assert(base + bcrows.take(0) =~= base);
        }
        let mut idx: u64 = 0;
        let mut j: usize = 0;
        while j < bytecodes[b].bytes.len()
            invariant
                b < bytecodes@.len(),
                j <= bytecodes@[b as int].bytes@.len(),
                idx == j,
                r == randomness.val(),
                bytecodes@[b as int].shape_ok(),
                hash_rlc.wf(),
                hash_rlc.val() == word_rlc_val(bytecodes@[b as int].hash@, r),
                bcrows == bytecode_rows_vals(bytecodes@[b as int], r),
                table_wf(rows@, BYTECODE_TABLE_WIDTH as int),
                table_vals(rows@) == base + bcrows.take(j as int),
            decreases bytecodes@[b as int].bytes@.len() - j,
        {
            let mut row: Vec<Fe> = Vec::new();
            row.push(hash_rlc.dup());
            row.push(fe_from_u64(idx));
            row.push(fe_from_u64(if bytecodes[b].is_code[j] { 1 } else { 0 }));
            row.push(fe_from_u64(bytecodes[b].bytes[j] as u64));
            proof {
                assert(fe_vals(row@) =~= bytecode_row_val(bytecodes@[b as int], r, j as int));
                assert(bcrows[j as int] == bytecode_row_val(bytecodes@[b as int], r, j as int));
            }
            let ghost old_tv = table_vals(rows@);
            rows.push(row);
            proof {
                assert(table_vals(rows@) =~= old_tv.push(bcrows[j as int]));
                assert(base + bcrows.take(j + 1) =~= old_tv.push(bcrows[j as int]));
            }
            idx = idx + 1;
            j += 1;
        }
        proof {
            assert(bcrows.take(bytecodes@[b as int].bytes@.len() as int) =~= bcrows);
            assert(bytecodes@.take(b + 1).drop_last() =~= bytecodes@.take(b as int));
            assert(bytecodes@.take(b + 1).last() == bytecodes@[b as int]);
            assert(base + bcrows =~= seq![zero_row_val(BYTECODE_TABLE_WIDTH as int)]
                + bytecode_table_vals(bytecodes@.take(b + 1), r));
        }
        b += 1;
    }
    proof {
        assert(bytecodes@.take(bytecodes@.len() as int) =~= bytecodes@);
    }
    Ok(rows)
}

/// The fixed-shape header fields of one block.
pub struct BlockContext {
    /// The miner's address, as a field element word.
    pub coinbase: Fe,
    /// The block gas limit.
    pub gas_limit: Fe,
    /// The block number.
    pub number: Fe,
    /// The block timestamp.
    pub timestamp: Fe,
    /// The block difficulty, as a field element word.
    pub difficulty: Fe,
    /// The base fee, as a field element word.
    pub base_fee: Fe,
    /// The chain id.
    pub chain_id: Fe,
}

impl BlockContext {
    /// Every field element is well formed.
    pub open spec fn wf(self) -> bool {
        self.coinbase.wf() && self.gas_limit.wf() && self.number.wf() && self.timestamp.wf()
            && self.difficulty.wf() && self.base_fee.wf() && self.chain_id.wf()
    }
}

/// The rows of the block table after the sentinel: one row per header
/// field, tagged 1 to 7 in declaration order.
pub open spec fn block_table_vals(b: BlockContext) -> Seq<Seq<nat>> {
    seq![
        seq![1nat, 0nat, b.coinbase.val()],
        seq![2nat, 0nat, b.gas_limit.val()],
        seq![3nat, 0nat, b.number.val()],
        seq![4nat, 0nat, b.timestamp.val()],
        seq![5nat, 0nat, b.difficulty.val()],
        seq![6nat, 0nat, b.base_fee.val()],
        seq![7nat, 0nat, b.chain_id.val()],
    ]
}

/// One block table row: field tag, padding, value.
fn block_row(tag: u64, v: &Fe) -> (row: Vec<Fe>)
    requires
        v.wf(),
    ensures
        row_wf(row, BLOCK_TABLE_WIDTH as int),
        fe_vals(row@) == seq![tag as nat, 0nat, v.val()],
{
    let mut row: Vec<Fe> = Vec::new();
    row.push(fe_from_u64(tag));
    row.push(fe_zero());
    row.push(v.dup());
    proof {
        assert(fe_vals(row@) =~= seq![tag as nat, 0nat, v.val()]);
    }
    row
}

/// Builds the block table: the all-zero sentinel row, then one row per
/// header field.
pub fn load_block(block: &BlockContext) -> (rows: Vec<Vec<Fe>>)
    requires
        block.wf(),
    ensures
        table_wf(rows@, BLOCK_TABLE_WIDTH as int),
        table_vals(rows@) == seq![zero_row_val(BLOCK_TABLE_WIDTH as int)] + block_table_vals(
            *block,
        ),
{
    let mut rows: Vec<Vec<Fe>> = Vec::new();
    rows.push(zero_row(BLOCK_TABLE_WIDTH));
    rows.push(block_row(1, &block.coinbase));
    rows.push(block_row(2, &block.gas_limit));
    rows.push(block_row(3, &block.number));
    rows.push(block_row(4, &block.timestamp));
    rows.push(block_row(5, &block.difficulty));
    rows.push(block_row(6, &block.base_fee));
    rows.push(block_row(7, &block.chain_id));
    proof {
        assert(table_vals(rows@) =~= seq![zero_row_val(BLOCK_TABLE_WIDTH as int)]
            + block_table_vals(*block));
    }
    rows
}

/// What the keccak function returns on a byte string: its 32-byte digest.
/// The digest depends on the input bytes alone.
pub uninterp spec fn keccak_of(s: Seq<u8>) -> Seq<u8>;

/// Relies on `tiny_keccak`'s `Keccak::v256`: the returned 32-byte digest
/// is a function of the input bytes alone.
#[verifier::external_body]
fn keccak256(input: &Vec<u8>) -> (r: Vec<u8>)
    ensures
        r@ == keccak_of(input@),
        r@.len() == 32,
{
    let mut k = tiny_keccak::Keccak::v256();
    let mut out = [0u8; 32];
    tiny_keccak::Hasher::update(&mut k, input.as_slice());
    tiny_keccak::Hasher::finalize(k, &mut out);
    out.to_vec()
}

/// The one keccak table row of an input: enabled flag, the combination of
/// the reversed input bytes, the input length, and the combination of the
/// reversed digest.  The input is reversed so that the table value equals
/// the forward accumulator `acc = acc * r + byte` over the bytes as laid
/// out, which is how the lookups recompute it.
pub open spec fn keccak_row_val(inp: Seq<u8>, r: nat) -> Seq<nat> {
    seq![
        1nat,
        rlc_val(byte_vals(inp.reverse()), r),
        inp.len() as nat,
        rlc_val(byte_vals(keccak_of(inp).reverse()), r),
    ]
}

/// The rows of the keccak table after the sentinel: one per input.
pub open spec fn keccak_table_vals(inputs: Seq<Vec<u8>>, r: nat) -> Seq<Seq<nat>>
    decreases inputs.len(),
{
    if inputs.len() == 0 {
        Seq::empty()
    } else {
        keccak_table_vals(inputs.drop_last(), r) + seq![keccak_row_val(inputs.last()@, r)]
    }
}

/// The keccak table rows of one input: exactly one row holding the
/// enabled flag, the combination of the reversed input bytes, the input
/// length, and the combination of the reversed digest.
pub fn keccak_table_assignments(input: &Vec<u8>, randomness: &Fe) -> (rows: Vec<Vec<Fe>>)
    requires
        randomness.wf(),
        input@.len() < pow2(64),
    ensures
        table_wf(rows@, KECCAK_TABLE_WIDTH as int),
        table_vals(rows@) == seq![keccak_row_val(input@, randomness.val())],
{
    let input_rev = reverse_bytes(input);
    let input_rlc = rlc_bytes(&input_rev, randomness);
    let digest = keccak256(input);
    let digest_rev = reverse_bytes(&digest);
    let output_rlc = rlc_bytes(&digest_rev, randomness);
    let mut row: Vec<Fe> = Vec::new();
    row.push(fe_one());
    row.push(input_rlc);
    row.push(fe_from_u64(input.len() as u64));
    row.push(output_rlc);
    let mut rows: Vec<Vec<Fe>> = Vec::new();
    proof {
        assert(fe_vals(row@) =~= keccak_row_val(input@, randomness.val()));
    }
    rows.push(row);
    proof {
        assert(table_vals(rows@) =~= seq![keccak_row_val(input@, randomness.val())]);
    }
    rows
}

/// Builds the keccak table: the all-zero sentinel row, then one row per
/// input in input order.
pub fn load_keccaks(inputs: &Vec<Vec<u8>>, randomness: &Fe) -> (rows: Vec<Vec<Fe>>)
    requires
        randomness.wf(),
        forall|i: int| 0 <= i < inputs@.len() ==> (#[trigger] inputs@[i])@.len() < pow2(64),
    ensures
        table_wf(rows@, KECCAK_TABLE_WIDTH as int),
        table_vals(rows@) == seq![zero_row_val(KECCAK_TABLE_WIDTH as int)] + keccak_table_vals(
            inputs@,
            randomness.val(),
        ),
{
    let ghost r = randomness.val();
    let mut rows: Vec<Vec<Fe>> = Vec::new();
    rows.push(zero_row(KECCAK_TABLE_WIDTH));
    proof {
        assert(inputs@.take(0) =~= Seq::<Vec<u8>>::empty());
        assert(table_vals(rows@) =~= seq![zero_row_val(KECCAK_TABLE_WIDTH as int)]
            + keccak_table_vals(inputs@.take(0), r));
    }
    let mut i: usize = 0;
    while i < inputs.len()
        invariant
            i <= inputs@.len(),
            r == randomness.val(),
            randomness.wf(),
            forall|k: int| 0 <= k < inputs@.len() ==> (#[trigger] inputs@[k])@.len() < pow2(64),
            table_wf(rows@, KECCAK_TABLE_WIDTH as int),
            table_vals(rows@) == seq![zero_row_val(KECCAK_TABLE_WIDTH as int)] + keccak_table_vals(
                inputs@.take(i as int),
                r,
            ),
        decreases inputs@.len() - i,
    {
        let mut one = keccak_table_assignments(&inputs[i], randomness);
        let ghost onev = one@;
        proof {
            assert(table_vals(onev).len() == onev.len());
            assert(onev.len() == 1);
        }
        let row = one.pop().unwrap();
        proof {
            assert(row == onev.last());
            assert(table_vals(onev)[0] == fe_vals(row@));
            assert(fe_vals(row@) == keccak_row_val(inputs@[i as int]@, r));
            assert(row_wf(row, KECCAK_TABLE_WIDTH as int));
        }
        let ghost old_tv = table_vals(rows@);
        rows.push(row);
        proof {
            assert(table_vals(rows@) =~= old_tv.push(keccak_row_val(inputs@[i as int]@, r)));
            assert(inputs@.take(i + 1).drop_last() =~= inputs@.take(i as int));
            assert(inputs@.take(i + 1).last() == inputs@[i as int]);
            assert(old_tv.push(keccak_row_val(inputs@[i as int]@, r)) =~= seq![
                zero_row_val(KECCAK_TABLE_WIDTH as int),
            ] + keccak_table_vals(inputs@.take(i + 1), r));
        }
        i += 1;
    }
    proof {
        assert(inputs@.take(inputs@.len() as int) =~= inputs@);
    }
    rows
}

} // verus!
