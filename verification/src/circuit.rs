//! The circuit orchestrator: sequences the static tables and the five
//! witness tables, and sizes the execution region.
use vstd::prelude::*;
use vstd::arithmetic::power2::pow2;
use crate::field::Fe;
use crate::fixed::{fixed_table_vals, load_byte_table, load_fixed_table, FixedTableTag,
    FIXED_TABLE_WIDTH};
use crate::tables::{block_table_vals, bytecode_table_vals, flat_rws, groups_view,
    keccak_table_vals, load_block, load_bytecodes, load_keccaks, load_rws, load_txs, rw_match_at,
    rw_counters_complete, table_vals, table_wf, tx_table_vals, zero_row_val, BlockContext,
    Bytecode, RwRecord, Transaction, WitnessError, BLOCK_TABLE_WIDTH, BYTECODE_TABLE_WIDTH,
    KECCAK_TABLE_WIDTH, RW_TABLE_WIDTH, TX_TABLE_WIDTH};

verus! {

/// One block's worth of witness inputs, immutable for the lifetime of
/// circuit construction.
pub struct Block {
    /// The shared random challenge, fixed for this proving instance.
    pub randomness: Fe,
    /// The transactions of the block, in order.
    pub txs: Vec<Transaction>,
    /// The read/write access records, grouped by their source.
    pub rw_groups: Vec<Vec<RwRecord>>,
    /// The bytecodes touched by the block.
    pub bytecodes: Vec<Bytecode>,
    /// The block header fields.
    pub context: BlockContext,
    /// The byte strings whose digests the block relies on.
    pub keccak_inputs: Vec<Vec<u8>>,
}

impl Block {
    /// All held values are well formed.
    pub open spec fn wf(self) -> bool {
        self.randomness.wf() && (forall|i: int|
            0 <= i < self.txs@.len() ==> (#[trigger] self.txs@[i]).wf()) && (forall|i: int, j: int|
            0 <= i < self.rw_groups@.len() && 0 <= j < self.rw_groups@[i]@.len() ==> (
            #[trigger] self.rw_groups@[i]@[j]).wf()) && self.context.wf() && (forall|i: int|
            0 <= i < self.keccak_inputs@.len() ==> (#[trigger] self.keccak_inputs@[i])@.len()
                < pow2(64))
    }

    /// Every bytecode record has its declared shape.
    pub open spec fn bytecodes_ok(self) -> bool {
        forall|i: int| 0 <= i < self.bytecodes@.len() ==> (#[trigger] self.bytecodes@[i]).shape_ok()
    }
}

/// The fully populated tables handed to the execution state machine.
pub struct CircuitTables {
    /// The range/validity lookup table.
    pub fixed: Vec<Vec<Fe>>,
    /// The byte-value table.
    pub byte: Vec<Fe>,
    /// The transaction table.
    pub tx: Vec<Vec<Fe>>,
    /// The read/write table.
    pub rw: Vec<Vec<Fe>>,
    /// The bytecode table.
    pub bytecode: Vec<Vec<Fe>>,
    /// The block table.
    pub block: Vec<Vec<Fe>>,
    /// The keccak table.
    pub keccak: Vec<Vec<Fe>>,
}

/// Loads the static tables and the five witness tables, each one fully
/// before the next.  Fails when the read/write counters are not exactly
/// 1..N, or a bytecode record is malformed; a partial circuit is never
/// produced.
pub fn build_tables(block: &Block, fixed_table_tags: &Vec<FixedTableTag>) -> (out: Result<
    CircuitTables,
    WitnessError,
>)
    requires
        block.wf(),
    ensures
        out is Ok <==> rw_counters_complete(flat_rws(groups_view(block.rw_groups@)))
            && block.bytecodes_ok(),
        ({
            let flat = flat_rws(groups_view(block.rw_groups@));
            let r = block.randomness.val();
            match out {
                Ok(t) => table_vals(t.fixed@) == seq![zero_row_val(FIXED_TABLE_WIDTH as int)]
                    + fixed_table_vals(fixed_table_tags@) && t.byte@.len() == 256 && (forall|v: int|
                    0 <= v < 256 ==> (#[trigger] t.byte@[v]).val() == v) && table_vals(t.tx@)
                    == seq![zero_row_val(TX_TABLE_WIDTH as int)] + tx_table_vals(block.txs@)
                    && t.rw@.len() == flat.len() + 1 && table_vals(t.rw@)[0] == zero_row_val(
                    RW_TABLE_WIDTH as int,
                ) && (forall|k: int|
                    1 <= k <= flat.len() ==> #[trigger] rw_match_at(flat, table_vals(t.rw@), k))
                    && table_vals(t.bytecode@) == seq![zero_row_val(BYTECODE_TABLE_WIDTH as int)]
                    + bytecode_table_vals(block.bytecodes@, r) && table_vals(t.block@) == seq![
                    zero_row_val(BLOCK_TABLE_WIDTH as int),
                ] + block_table_vals(block.context) && table_vals(t.keccak@) == seq![
                    zero_row_val(KECCAK_TABLE_WIDTH as int),
                ] + keccak_table_vals(block.keccak_inputs@, r),
                Err(e) => (e == WitnessError::RwOrdering ==> !rw_counters_complete(flat)) && (e
                    == WitnessError::MalformedRecord ==> !block.bytecodes_ok()),
            }
        }),
{
    let fixed = load_fixed_table(fixed_table_tags);
    let byte = load_byte_table();
    let tx = load_txs(&block.txs);
    let rw = match load_rws(&block.rw_groups) {
        Ok(v) => v,
        Err(e) => {
            return Err(e);
        },
    };
    let bytecode = match load_bytecodes(&block.bytecodes, &block.randomness) {
        Ok(v) => v,
        Err(e) => {
            return Err(e);
        },
    };
    let blk = load_block(&block.context);
    let keccak = load_keccaks(&block.keccak_inputs, &block.randomness);
    Ok(CircuitTables { fixed, byte, tx, rw, bytecode, block: blk, keccak })
}

/// Every step kind of every transaction indexes the row-height table.
pub open spec fn steps_in_range(txs: Seq<Transaction>, heights: Seq<usize>) -> bool {
    forall|i: int, j: int|
        0 <= i < txs.len() && 0 <= j < txs[i].steps@.len() ==> (#[trigger] txs[i].steps@[j])
            < heights.len()
}

/// Total row height of one transaction's steps.
pub open spec fn tx_steps_height(steps: Seq<usize>, heights: Seq<usize>) -> int
    decreases steps.len(),
{
    if steps.len() == 0 {
        0
    } else {
        tx_steps_height(steps.drop_last(), heights) + heights[steps.last() as int]
    }
}

/// Total row height of all steps of a block.
pub open spec fn block_steps_height(txs: Seq<Transaction>, heights: Seq<usize>) -> int
    decreases txs.len(),
{
    if txs.len() == 0 {
        0
    } else {
        block_steps_height(txs.drop_last(), heights) + tx_steps_height(txs.last().steps@, heights)
    }
}

proof fn lemma_tx_steps_height_nonneg(steps: Seq<usize>, heights: Seq<usize>)
    ensures
        tx_steps_height(steps, heights) >= 0,
    decreases steps.len(),
{
    if steps.len() > 0 {
        lemma_tx_steps_height_nonneg(steps.drop_last(), heights);
    }
}

proof fn lemma_tx_steps_height_take(steps: Seq<usize>, heights: Seq<usize>, s: int)
    requires
        0 <= s <= steps.len(),
    ensures
        tx_steps_height(steps.take(s), heights) <= tx_steps_height(steps, heights),
    decreases steps.len() - s,
{
    if s == steps.len() {
        assert(steps.take(s) =~= steps);
    } else {
        assert(steps.take(s) =~= steps.drop_last().take(s));
        lemma_tx_steps_height_take(steps.drop_last(), heights, s);
    }
}

proof fn lemma_block_steps_height_nonneg(txs: Seq<Transaction>, heights: Seq<usize>)
    ensures
        block_steps_height(txs, heights) >= 0,
    decreases txs.len(),
{
    if txs.len() > 0 {
        lemma_block_steps_height_nonneg(txs.drop_last(), heights);
        lemma_tx_steps_height_nonneg(txs.last().steps@, heights);
    }
}

proof fn lemma_block_steps_height_take(txs: Seq<Transaction>, heights: Seq<usize>, t: int)
    requires
        0 <= t <= txs.len(),
    ensures
        block_steps_height(txs.take(t), heights) <= block_steps_height(txs, heights),
    decreases txs.len() - t,
{
    if t == txs.len() {
        assert(txs.take(t) =~= txs);
    } else {
        assert(txs.take(t) =~= txs.drop_last().take(t));
        lemma_block_steps_height_take(txs.drop_last(), heights, t);
        lemma_tx_steps_height_nonneg(txs.last().steps@, heights);
    }
}

/// How many rows the execution state machine will occupy for the block:
/// one spare row, plus the declared height of every step of every
/// transaction.
pub fn get_num_rows_required(block: &Block, step_heights: &Vec<usize>) -> (n: usize)
    requires
        steps_in_range(block.txs@, step_heights@),
        1 + block_steps_height(block.txs@, step_heights@) <= usize::MAX,
    ensures
        n == 1 + block_steps_height(block.txs@, step_heights@),
{
    let mut num_rows: usize = 1;
    proof {
        assert(block.txs@.take(0) =~= Seq::<Transaction>::empty());
    }
    let mut t: usize = 0;
    while t < block.txs.len()
        invariant
            t <= block.txs@.len(),
            steps_in_range(block.txs@, step_heights@),
            1 + block_steps_height(block.txs@, step_heights@) <= usize::MAX,
            num_rows == 1 + block_steps_height(block.txs@.take(t as int), step_heights@),
        decreases block.txs@.len() - t,
    {
        let ghost steps = block.txs@[t as int].steps@;
        proof {
            assert(steps.take(0) =~= Seq::<usize>::empty());
        }
        let mut s: usize = 0;
        while s < block.txs[t].steps.len()
            invariant
                t < block.txs@.len(),
                s <= steps.len(),
                steps == block.txs@[t as int].steps@,
                steps_in_range(block.txs@, step_heights@),
                1 + block_steps_height(block.txs@, step_heights@) <= usize::MAX,
                num_rows == 1 + block_steps_height(block.txs@.take(t as int), step_heights@)
                    + tx_steps_height(steps.take(s as int), step_heights@),
            decreases steps.len() - s,
        {
            let kind = block.txs[t].steps[s];
            proof {
                assert(steps.take(s + 1).drop_last() =~= steps.take(s as int));
                assert(steps.take(s + 1).last() == steps[s as int]);
                lemma_tx_steps_height_take(steps, step_heights@, s + 1);
                assert(block.txs@.take(t + 1).drop_last() =~= block.txs@.take(t as int));
                assert(block.txs@.take(t + 1).last() == block.txs@[t as int]);
                lemma_block_steps_height_take(block.txs@, step_heights@, t + 1);
            }
            num_rows = num_rows + step_heights[kind];
            s += 1;
        }
        proof {
            assert(steps.take(steps.len() as int) =~= steps);
            assert(block.txs@.take(t + 1).drop_last() =~= block.txs@.take(t as int));
            assert(block.txs@.take(t + 1).last() == block.txs@[t as int]);
        }
        t += 1;
    }
    proof {
        assert(block.txs@.take(block.txs@.len() as int) =~= block.txs@);
    }
    num_rows
}

/// Which row offsets carry live constraints: with some gates enabled on
/// every row and lookups enabled on every step row, both lists are all
/// offsets below the required row count.
pub fn get_active_rows(block: &Block, step_heights: &Vec<usize>) -> (r: (Vec<usize>, Vec<usize>))
    requires
        steps_in_range(block.txs@, step_heights@),
        1 + block_steps_height(block.txs@, step_heights@) <= usize::MAX,
    ensures
        r.0@.len() == 1 + block_steps_height(block.txs@, step_heights@),
        forall|i: int| 0 <= i < r.0@.len() ==> #[trigger] r.0@[i] == i,
        r.1@ == r.0@,
{
    let max_offset = get_num_rows_required(block, step_heights);
    let mut gates_row_ids: Vec<usize> = Vec::new();
    let mut lookup_row_ids: Vec<usize> = Vec::new();
    let mut i: usize = 0;
    while i < max_offset
        invariant
            i <= max_offset,
            gates_row_ids@.len() == i,
            forall|j: int| 0 <= j < i ==> #[trigger] gates_row_ids@[j] == j,
            lookup_row_ids@ == gates_row_ids@,
        decreases max_offset - i,
    {
        gates_row_ids.push(i);
        lookup_row_ids.push(i);
        proof {
            assert(lookup_row_ids@ =~= gates_row_ids@);
        }
        i += 1;
    }
    (gates_row_ids, lookup_row_ids)
}

} // verus!
