use zkevm_circuits::absorb::{apply_absorb, A4};
use zkevm_circuits::circuit::{build_tables, get_active_rows, get_num_rows_required, Block};
use zkevm_circuits::codec::{digits_to_fe, from_alt_base, to_alt_base};
use zkevm_circuits::field::{
    fe_add, fe_eq, fe_from_u64, fe_low_u64, fe_mul, fe_one, fe_zero, from_bytes_be, reverse_bytes,
    to_bytes_be, Fe,
};
use zkevm_circuits::fixed::{load_byte_table, load_fixed_table, FixedTableTag};
use zkevm_circuits::rlc::{rlc, rlc_bytes};
use zkevm_circuits::tables::{
    keccak_table_assignments, load_block, load_bytecodes, load_keccaks, load_rws, load_txs,
    BlockContext, Bytecode, RwRecord, Transaction, WitnessError,
};

fn fe(x: u64) -> Fe {
    fe_from_u64(x)
}

fn tx_row(a: u64, b: u64, c: u64, d: u64) -> Vec<Fe> {
    vec![fe(a), fe(b), fe(c), fe(d)]
}

fn context() -> BlockContext {
    BlockContext {
        coinbase: fe(11),
        gas_limit: fe(30_000_000),
        number: fe(7),
        timestamp: fe(1_700_000_000),
        difficulty: fe(2),
        base_fee: fe(1_000_000_000),
        chain_id: fe(1),
    }
}

#[test]
fn byte_conversion_round_trip() {
    let x = fe(123_456_789_012_345);
    let be = to_bytes_be(&x);
    assert_eq!(be.len(), 32);
    let y = from_bytes_be(&be).unwrap();
    assert!(fe_eq(&x, &y));
    // Reading, writing and re-reading a byte string changes nothing.
    let be2 = to_bytes_be(&y);
    assert_eq!(be, be2);
    let z = from_bytes_be(&be2).unwrap();
    assert!(fe_eq(&y, &z));
}

#[test]
fn byte_conversion_rejects_values_at_or_above_the_modulus() {
    let too_big = vec![0xffu8; 32];
    assert!(from_bytes_be(&too_big).is_none());
}

#[test]
fn field_arithmetic_exact_values() {
    let five = fe_add(&fe(2), &fe(3));
    assert!(fe_eq(&five, &fe(5)));
    let six = fe_mul(&fe(2), &fe(3));
    assert!(fe_eq(&six, &fe(6)));
    assert!(fe_eq(&fe_add(&fe(0), &fe_one()), &fe_one()));
    assert!(fe_eq(&fe_mul(&fe(77), &fe_zero()), &fe_zero()));
    assert_eq!(fe_low_u64(&fe(u64::MAX)), u64::MAX);
}

#[test]
fn rlc_exact_value() {
    // 1 + 2*2 + 3*4 = 17 under challenge 2.
    let values = vec![fe(1), fe(2), fe(3)];
    let out = rlc(&values, &fe(2));
    assert!(fe_eq(&out, &fe(17)));
    let empty: Vec<Fe> = Vec::new();
    assert!(fe_eq(&rlc(&empty, &fe(2)), &fe_zero()));
}

#[test]
fn rlc_deterministic_and_discriminating() {
    let a = vec![fe(9), fe(8), fe(7)];
    let b = vec![fe(9), fe(8), fe(7)];
    let c = vec![fe(9), fe(8), fe(6)];
    for r in [2u64, 3, 65_537, 1 << 40] {
        let ra = rlc(&a, &fe(r));
        let rb = rlc(&b, &fe(r));
        let rc = rlc(&c, &fe(r));
        assert!(fe_eq(&ra, &rb));
        assert!(!fe_eq(&ra, &rc));
    }
}

#[test]
fn alt_base_round_trip() {
    for x in [0u64, 1, 5, 255, 1 << 33, u64::MAX, 0xdead_beef_cafe_f00d] {
        let digits = to_alt_base(x);
        assert_eq!(digits.len(), 64);
        assert!(digits.iter().all(|d| *d <= 1));
        assert_eq!(from_alt_base(&digits), x);
    }
    // 5 = 101 in binary: digits 1, 0, 1, 0, ...
    let five = to_alt_base(5);
    assert_eq!(five[0], 1);
    assert_eq!(five[1], 0);
    assert_eq!(five[2], 1);
    assert_eq!(five[3], 0);
    // Read in base 9 that is 1 + 9^2 = 82.
    assert!(fe_eq(&digits_to_fe(&five), &fe(82)));
}

#[test]
fn absorb_updates_present_lanes_and_keeps_the_rest() {
    let state: Vec<Fe> = (0..25).map(|_| fe_zero()).collect();
    let mut next_input: Vec<Option<Fe>> = vec![Some(fe_one())];
    for _ in 1..17 {
        next_input.push(Some(fe_zero()));
    }
    let out = apply_absorb(&state, &next_input);
    assert_eq!(out.len(), 25);
    // Lane 0: zero + to_alt_base(1) * A4 = 1 * A4.
    let expected = fe_mul(&digits_to_fe(&to_alt_base(1)), &fe(A4));
    assert!(fe_eq(&out[0], &expected));
    assert!(fe_eq(&out[0], &fe(A4)));
    // Lanes with zero input stay zero; lanes with no input stay unchanged.
    for lane in out.iter().skip(1) {
        assert!(fe_eq(lane, &fe_zero()));
    }
    let shorter: Vec<Option<Fe>> = vec![None, Some(fe(3))];
    let state2: Vec<Fe> = (0..25).map(|i| fe(i as u64 + 100)).collect();
    let out2 = apply_absorb(&state2, &shorter);
    assert!(fe_eq(&out2[0], &fe(100)));
    assert!(!fe_eq(&out2[1], &fe(101)));
    // 101 + to_alt_base(3) * A4 read in base 9: 101 + (1 + 9) * 2 = 121.
    assert!(fe_eq(&out2[1], &fe(121)));
    for i in 2..25 {
        assert!(fe_eq(&out2[i], &fe(i as u64 + 100)));
    }
}

fn rw(counter: u64, tag: u64, value: u64) -> RwRecord {
    RwRecord { counter, is_write: counter % 2 == 0, tag, key: fe(counter), value: fe(value) }
}

#[test]
fn rw_table_sorts_by_counter() {
    let groups = vec![vec![rw(3, 1, 30)], vec![rw(1, 2, 10), rw(2, 3, 20)]];
    let rows = load_rws(&groups).unwrap();
    assert_eq!(rows.len(), 4);
    for col in rows[0].iter() {
        assert!(fe_eq(col, &fe_zero()));
    }
    for k in 1..=3u64 {
        assert!(fe_eq(&rows[k as usize][0], &fe(k)));
    }
    assert!(fe_eq(&rows[1][4], &fe(10)));
    assert!(fe_eq(&rows[2][4], &fe(20)));
    assert!(fe_eq(&rows[3][4], &fe(30)));
}

#[test]
fn rw_table_rejects_a_counter_gap() {
    let groups = vec![vec![rw(1, 1, 10), rw(3, 1, 30)]];
    assert!(matches!(load_rws(&groups), Err(WitnessError::RwOrdering)));
}

#[test]
fn rw_table_rejects_a_repeated_counter() {
    let groups = vec![vec![rw(1, 1, 10), rw(1, 1, 11), rw(2, 1, 20)]];
    assert!(matches!(load_rws(&groups), Err(WitnessError::RwOrdering)));
}

#[test]
fn bytecode_table_one_row_per_byte() {
    let code = Bytecode {
        hash: vec![0xabu8; 32],
        bytes: vec![0x60, 0x01, 0x00],
        is_code: vec![true, false, true],
    };
    let r = fe(3);
    let rows = load_bytecodes(&vec![code], &r).unwrap();
    assert_eq!(rows.len(), 4);
    let hash_rlc = rlc_bytes(&reverse_bytes(&vec![0xabu8; 32]), &r);
    assert!(fe_eq(&rows[1][0], &hash_rlc));
    assert!(fe_eq(&rows[2][1], &fe(1)));
    assert!(fe_eq(&rows[2][2], &fe_zero()));
    assert!(fe_eq(&rows[2][3], &fe(1)));
    assert!(fe_eq(&rows[3][2], &fe_one()));
}

#[test]
fn bytecode_table_rejects_mismatched_flags() {
    let bad = Bytecode { hash: vec![0u8; 32], bytes: vec![1, 2, 3], is_code: vec![true] };
    assert!(matches!(load_bytecodes(&vec![bad], &fe(3)), Err(WitnessError::MalformedRecord)));
}

#[test]
fn every_table_starts_with_the_all_zero_sentinel() {
    let r = fe(5);
    let txs = vec![Transaction { rows: vec![tx_row(1, 2, 3, 4)], steps: vec![] }];
    let tx_rows = load_txs(&txs);
    let rw_rows = load_rws(&vec![vec![rw(1, 1, 9)]]).unwrap();
    let bc = Bytecode { hash: vec![1u8; 32], bytes: vec![7], is_code: vec![true] };
    let bc_rows = load_bytecodes(&vec![bc], &r).unwrap();
    let blk_rows = load_block(&context());
    let keccak_rows = load_keccaks(&vec![vec![1u8, 2, 3]], &r);
    let fixed_rows = load_fixed_table(&vec![FixedTableTag::Zero, FixedTableTag::Range5]);
    for rows in [&tx_rows, &rw_rows, &bc_rows, &blk_rows, &keccak_rows, &fixed_rows] {
        for col in rows[0].iter() {
            assert!(fe_eq(col, &fe_zero()));
        }
        assert!(rows.len() > 1);
    }
}

#[test]
fn keccak_row_of_the_empty_input() {
    let r = fe(7);
    let rows = keccak_table_assignments(&Vec::new(), &r);
    assert_eq!(rows.len(), 1);
    let row = &rows[0];
    assert!(fe_eq(&row[0], &fe_one()));
    assert!(fe_eq(&row[1], &fe_zero()));
    assert!(fe_eq(&row[2], &fe_zero()));
    // The digest of the empty string under the fixed keccak function.
    let digest: Vec<u8> = vec![
        0xc5, 0xd2, 0x46, 0x01, 0x86, 0xf7, 0x23, 0x3c, 0x92, 0x7e, 0x7d, 0xb2, 0xdc, 0xc7, 0x03,
        0xc0, 0xe5, 0x00, 0xb6, 0x53, 0xca, 0x82, 0x27, 0x3b, 0x7b, 0xfa, 0xd8, 0x04, 0x5d, 0x85,
        0xa4, 0x70,
    ];
    let expected = rlc_bytes(&reverse_bytes(&digest), &r);
    assert!(fe_eq(&row[3], &expected));
}

#[test]
fn keccak_row_length_and_input_combination() {
    let r = fe(2);
    let rows = keccak_table_assignments(&b"abc".to_vec(), &r);
    assert!(fe_eq(&rows[0][2], &fe(3)));
    // The input field combines the reversed bytes: 99 + 98*2 + 97*4.
    assert!(fe_eq(&rows[0][1], &fe(683)));
    // It equals the forward scan acc = acc * r + byte over the input.
    let mut acc = fe_zero();
    for byte in b"abc" {
        acc = fe_add(&fe_mul(&acc, &r), &fe(*byte as u64));
    }
    assert!(fe_eq(&rows[0][1], &acc));
}

#[test]
fn fixed_and_byte_tables() {
    let rows = load_fixed_table(&vec![FixedTableTag::Zero, FixedTableTag::Range5]);
    assert_eq!(rows.len(), 1 + 1 + 5);
    // The Zero slice holds the all-zero tuple.
    for col in rows[1].iter() {
        assert!(fe_eq(col, &fe_zero()));
    }
    // The Range5 slice holds tag 1 with values 0..5.
    assert!(fe_eq(&rows[2][0], &fe_one()));
    assert!(fe_eq(&rows[6][1], &fe(4)));
    let bytes = load_byte_table();
    assert_eq!(bytes.len(), 256);
    assert!(fe_eq(&bytes[0], &fe_zero()));
    assert!(fe_eq(&bytes[255], &fe(255)));
}

#[test]
fn sign_byte_and_power_slices() {
    let rows = load_fixed_table(&vec![FixedTableTag::SignByte, FixedTableTag::Pow2]);
    assert_eq!(rows.len(), 1 + 256 + 64);
    // Sign bytes: 0 below 128, 255 from 128 on.
    assert!(fe_eq(&rows[1][0], &fe(8)));
    assert!(fe_eq(&rows[1 + 127][3], &fe_zero()));
    assert!(fe_eq(&rows[1 + 128][3], &fe(255)));
    assert!(fe_eq(&rows[1 + 255][3], &fe(255)));
    // Powers of two: exponent and value.
    let pow = &rows[1 + 256..];
    assert!(fe_eq(&pow[0][0], &fe(9)));
    assert!(fe_eq(&pow[0][1], &fe_zero()));
    assert!(fe_eq(&pow[0][2], &fe_one()));
    assert!(fe_eq(&pow[10][2], &fe(1024)));
    assert!(fe_eq(&pow[63][2], &fe(1 << 63)));
}

#[test]
fn well_formedness_is_decidable() {
    assert!(fe(12345).is_wf());
    let short = Fe { bytes: vec![1u8; 4] };
    assert!(!short.is_wf());
    let too_big = Fe { bytes: vec![0xffu8; 32] };
    assert!(!too_big.is_wf());
}

#[test]
fn end_to_end_table_row_counts() {
    let txs = vec![
        Transaction {
            rows: vec![tx_row(1, 0, 0, 0x11), tx_row(1, 1, 0, 0x22)],
            steps: vec![0, 1],
        },
        Transaction {
            rows: vec![tx_row(2, 0, 0, 0x33), tx_row(2, 1, 0, 0x44), tx_row(2, 2, 0, 0x55)],
            steps: vec![1],
        },
    ];
    let rw_groups = vec![vec![rw(1, 1, 10), rw(4, 1, 40)], vec![rw(2, 2, 20), rw(3, 2, 30)]];
    let bytecodes = vec![Bytecode {
        hash: vec![9u8; 32],
        bytes: (0u8..10).collect(),
        is_code: vec![true; 10],
    }];
    let block = Block {
        randomness: fe(1000),
        txs,
        rw_groups,
        bytecodes,
        context: context(),
        keccak_inputs: Vec::new(),
    };
    let tags = vec![FixedTableTag::Zero, FixedTableTag::Range16];
    let tables = build_tables(&block, &tags).unwrap();
    assert_eq!(tables.tx.len(), 1 + 2 + 3);
    assert_eq!(tables.rw.len(), 1 + 4);
    assert_eq!(tables.bytecode.len(), 1 + 10);
    assert_eq!(tables.block.len(), 1 + 7);
    assert_eq!(tables.keccak.len(), 1 + 0);
    assert_eq!(tables.fixed.len(), 1 + 1 + 16);
    assert_eq!(tables.byte.len(), 256);

    let heights = vec![2usize, 5];
    assert_eq!(get_num_rows_required(&block, &heights), 1 + 2 + 5 + 5);
    let (gates, lookups) = get_active_rows(&block, &heights);
    assert_eq!(gates.len(), 13);
    assert_eq!(lookups, gates);
    assert_eq!(gates[0], 0);
    assert_eq!(gates[12], 12);
}

#[test]
fn build_tables_propagates_rw_ordering_defects() {
    let block = Block {
        randomness: fe(1000),
        txs: Vec::new(),
        rw_groups: vec![vec![rw(2, 1, 20)]],
        bytecodes: Vec::new(),
        context: context(),
        keccak_inputs: Vec::new(),
    };
    let tags: Vec<FixedTableTag> = Vec::new();
    assert!(matches!(build_tables(&block, &tags), Err(WitnessError::RwOrdering)));
}
