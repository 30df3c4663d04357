use query_core::aggregate::AggregateFunction;
use query_core::aggregate_function::{le8_at, AggregateFunctionDesc};
use query_core::aggregator_final::FinalAggregator;
use query_core::aggregator_params::{choose_method, AggregatorParams, GroupKey, HashMethodKind};
use query_core::aggregator_partial::PartialAggregator;
use query_core::aggregator_single_key::{FinalSingleKeyAggregator, PartialSingleKeyAggregator};
use query_core::block::{Column, ColumnType, DataBlock, DataField};
use query_core::error::ErrorCode;

fn value_schema() -> Vec<DataField> {
    vec![
        DataField::new(String::from("k"), ColumnType::UInt8),
        DataField::new(String::from("v"), ColumnType::UInt64),
    ]
}

fn kv_block(ks: Vec<u8>, vs: Vec<u64>) -> DataBlock {
    let n = ks.len();
    DataBlock::create(
        value_schema(),
        vec![Column::UInt8(ks), Column::UInt64(vs)],
        n,
    )
    .unwrap()
}

fn count_desc() -> AggregateFunctionDesc {
    AggregateFunctionDesc::new(AggregateFunction::Count, String::from("count"), String::from(""))
}

fn sum_desc() -> AggregateFunctionDesc {
    AggregateFunctionDesc::new(AggregateFunction::Sum, String::from("sum_v"), String::from("v"))
}

fn min_desc() -> AggregateFunctionDesc {
    AggregateFunctionDesc::new(AggregateFunction::Min, String::from("min_v"), String::from("v"))
}

fn max_desc() -> AggregateFunctionDesc {
    AggregateFunctionDesc::new(AggregateFunction::Max, String::from("max_v"), String::from("v"))
}

fn single_params(descs: Vec<AggregateFunctionDesc>) -> AggregatorParams {
    AggregatorParams::try_create(value_schema(), Vec::new(), descs).unwrap()
}

fn state_cell(b: &DataBlock, col: usize, row: usize) -> u64 {
    match b.column(col) {
        Column::Binary(cells) => le8_at(&cells[row], 0),
        _ => panic!("expected a state column"),
    }
}

fn u64_cell(b: &DataBlock, col: usize, row: usize) -> u64 {
    match b.column(col) {
        Column::UInt64(cells) => cells[row],
        _ => panic!("expected an unsigned column"),
    }
}

#[test]
fn single_key_counts_and_sums_across_blocks() {
    let params = single_params(vec![count_desc(), sum_desc(), min_desc(), max_desc()]);
    let mut agg = PartialSingleKeyAggregator::try_create(params).unwrap();
    agg.consume_block(kv_block(vec![1, 1, 2], vec![10, 20, 30])).unwrap();
    agg.consume_block(kv_block(vec![2, 3], vec![5, 40])).unwrap();
    let out = agg.generate_block().unwrap().unwrap();
    assert_eq!(out.num_rows(), 1);
    assert_eq!(state_cell(&out, 0, 0), 5);
    assert_eq!(state_cell(&out, 1, 0), 105);
    assert_eq!(state_cell(&out, 2, 0), 5);
    assert_eq!(state_cell(&out, 3, 0), 40);
    assert!(agg.generate_block().unwrap().is_none());
}

#[test]
fn single_key_emits_one_row_even_for_no_input() {
    // Zero input rows still yield exactly one output batch of exactly one
    // row, holding the identity values.
    let params = single_params(vec![count_desc(), sum_desc(), min_desc(), max_desc()]);
    let mut agg = PartialSingleKeyAggregator::try_create(params).unwrap();
    let out = agg.generate_block().unwrap().unwrap();
    assert_eq!(out.num_rows(), 1);
    assert_eq!(state_cell(&out, 0, 0), 0);
    assert_eq!(state_cell(&out, 1, 0), 0);
    assert_eq!(state_cell(&out, 2, 0), u64::MAX);
    assert_eq!(state_cell(&out, 3, 0), 0);
    assert!(agg.generate_block().unwrap().is_none());
}

#[test]
fn single_key_partition_matches_single_pass() {
    // Aggregating the concatenation in one call equals aggregating the same
    // rows split across blocks, whatever the split.
    let rows: Vec<u64> = vec![3, 9, 1, 7, 7, 2];
    let whole = single_params(vec![sum_desc(), min_desc(), max_desc()]);
    let mut one = PartialSingleKeyAggregator::try_create(whole).unwrap();
    one.consume_block(kv_block(vec![0; 6], rows.clone())).unwrap();
    let a = one.generate_block().unwrap().unwrap();

    let parts = single_params(vec![sum_desc(), min_desc(), max_desc()]);
    let mut two = PartialSingleKeyAggregator::try_create(parts).unwrap();
    two.consume_block(kv_block(vec![0; 2], rows[0..2].to_vec())).unwrap();
    two.consume_block(kv_block(vec![0; 3], rows[2..5].to_vec())).unwrap();
    two.consume_block(kv_block(vec![0; 1], rows[5..6].to_vec())).unwrap();
    let b = two.generate_block().unwrap().unwrap();

    for i in 0..3 {
        assert_eq!(state_cell(&a, i, 0), state_cell(&b, i, 0));
    }
}

#[test]
fn single_key_final_merges_partial_lanes() {
    let p1 = single_params(vec![count_desc(), sum_desc()]);
    let mut lane1 = PartialSingleKeyAggregator::try_create(p1).unwrap();
    lane1.consume_block(kv_block(vec![1, 2], vec![10, 20])).unwrap();
    let out1 = lane1.generate_block().unwrap().unwrap();

    let p2 = single_params(vec![count_desc(), sum_desc()]);
    let mut lane2 = PartialSingleKeyAggregator::try_create(p2).unwrap();
    lane2.consume_block(kv_block(vec![3], vec![12])).unwrap();
    let out2 = lane2.generate_block().unwrap().unwrap();

    // The merge phase resolves its inputs by the partial state column names.
    let fschema = vec![
        DataField::new(String::from("count"), ColumnType::Binary),
        DataField::new(String::from("sum_v"), ColumnType::Binary),
    ];
    let fdescs = vec![
        AggregateFunctionDesc::new(
            AggregateFunction::Count,
            String::from("count"),
            String::from("count"),
        ),
        AggregateFunctionDesc::new(
            AggregateFunction::Sum,
            String::from("sum_v"),
            String::from("sum_v"),
        ),
    ];
    let fparams = AggregatorParams::try_create(fschema, Vec::new(), fdescs).unwrap();
    let mut merger = FinalSingleKeyAggregator::try_create(fparams).unwrap();
    merger.consume_block(out1).unwrap();
    merger.consume_block(out2).unwrap();
    let merged = merger.generate_block().unwrap().unwrap();
    assert_eq!(merged.num_rows(), 1);
    assert_eq!(u64_cell(&merged, 0, 0), 3);
    assert_eq!(u64_cell(&merged, 1, 0), 42);
    assert!(merger.generate_block().unwrap().is_none());
}

#[test]
fn sum_overflow_is_a_data_error() {
    let params = single_params(vec![sum_desc()]);
    let mut agg = PartialSingleKeyAggregator::try_create(params).unwrap();
    agg.consume_block(kv_block(vec![1], vec![u64::MAX])).unwrap();
    match agg.consume_block(kv_block(vec![1], vec![1])) {
        Err(ErrorCode::Overflow(_)) => {},
        other => panic!("expected an overflow error, got {:?}", other.is_ok()),
    }
}

#[test]
fn wrong_schema_is_rejected() {
    let params = single_params(vec![count_desc()]);
    let mut agg = PartialSingleKeyAggregator::try_create(params).unwrap();
    let other = DataBlock::create(
        vec![DataField::new(String::from("x"), ColumnType::UInt64)],
        vec![Column::UInt64(vec![1])],
        1,
    )
    .unwrap();
    assert!(agg.consume_block(other).is_err());
}

fn grouped_params(descs: Vec<AggregateFunctionDesc>) -> AggregatorParams {
    AggregatorParams::try_create(value_schema(), vec![String::from("k")], descs).unwrap()
}

fn find_key_row(b: &DataBlock, key: u64) -> usize {
    match b.column(0) {
        Column::UInt64(keys) => {
            for (i, k) in keys.iter().enumerate() {
                if *k == key {
                    return i;
                }
            }
            panic!("key not found");
        },
        _ => panic!("expected the key column"),
    }
}

#[test]
fn grouped_partial_counts_per_key() {
    // Partial aggregation of [{k:1},{k:1},{k:2}] and [{k:2},{k:3}] with a
    // count under the packed one-byte key representation.
    let params = grouped_params(vec![count_desc()]);
    let mut agg = PartialAggregator::create(HashMethodKind::KeysU8, params);
    agg.consume_block(kv_block(vec![1, 1, 2], vec![0, 0, 0])).unwrap();
    agg.consume_block(kv_block(vec![2, 3], vec![0, 0])).unwrap();
    let out = agg.generate_block().unwrap().unwrap();
    assert_eq!(out.num_rows(), 3);
    assert_eq!(state_cell(&out, 1, find_key_row(&out, 1)), 2);
    assert_eq!(state_cell(&out, 1, find_key_row(&out, 2)), 2);
    assert_eq!(state_cell(&out, 1, find_key_row(&out, 3)), 1);
    assert!(agg.generate_block().unwrap().is_none());
}

fn partial_counts_block(pairs: Vec<(u8, u64)>) -> DataBlock {
    // One partial lane holding the given key-to-count states.
    let params = grouped_params(vec![count_desc()]);
    let mut agg = PartialAggregator::create(HashMethodKind::KeysU8, params);
    let mut ks = Vec::new();
    let mut vs = Vec::new();
    for (k, c) in pairs {
        for _ in 0..c {
            ks.push(k);
            vs.push(0u64);
        }
    }
    agg.consume_block(kv_block(ks, vs)).unwrap();
    agg.generate_block().unwrap().unwrap()
}

fn final_grouped_params() -> AggregatorParams {
    let fschema = vec![
        DataField::new(String::from("_group_by_key"), ColumnType::UInt64),
        DataField::new(String::from("count"), ColumnType::Binary),
    ];
    let fdescs = vec![AggregateFunctionDesc::new(
        AggregateFunction::Count,
        String::from("count"),
        String::from("count"),
    )];
    AggregatorParams::try_create(fschema, vec![String::from("_group_by_key")], fdescs).unwrap()
}

#[test]
fn grouped_final_merges_two_lanes() {
    // Final merge of two partial lanes holding counts {1:2, 2:1} and
    // {2:1, 3:1} yields {1:2, 2:2, 3:1}.
    let lane1 = partial_counts_block(vec![(1, 2), (2, 1)]);
    let lane2 = partial_counts_block(vec![(2, 1), (3, 1)]);
    let mut merger = FinalAggregator::create(HashMethodKind::KeysU64, final_grouped_params());
    merger.consume_block(lane1).unwrap();
    merger.consume_block(lane2).unwrap();
    let merged = merger.generate_block().unwrap().unwrap();
    assert_eq!(merged.num_rows(), 3);
    assert_eq!(u64_cell(&merged, 1, find_key_row(&merged, 1)), 2);
    assert_eq!(u64_cell(&merged, 1, find_key_row(&merged, 2)), 2);
    assert_eq!(u64_cell(&merged, 1, find_key_row(&merged, 3)), 1);
}

#[test]
fn grouped_partial_and_merge_match_single_pass() {
    // Partial aggregation split across lanes, then merged, equals the
    // single-pass aggregation of all the rows.
    let all_ks: Vec<u8> = vec![1, 1, 2, 2, 3, 1];
    let single = partial_counts_block(vec![(1, 3), (2, 2), (3, 1)]);

    let lane1 = {
        let params = grouped_params(vec![count_desc()]);
        let mut agg = PartialAggregator::create(HashMethodKind::KeysU8, params);
        agg.consume_block(kv_block(all_ks[0..3].to_vec(), vec![0; 3])).unwrap();
        agg.generate_block().unwrap().unwrap()
    };
    let lane2 = {
        let params = grouped_params(vec![count_desc()]);
        let mut agg = PartialAggregator::create(HashMethodKind::KeysU8, params);
        agg.consume_block(kv_block(all_ks[3..6].to_vec(), vec![0; 3])).unwrap();
        agg.generate_block().unwrap().unwrap()
    };
    let mut merger = FinalAggregator::create(HashMethodKind::KeysU64, final_grouped_params());
    merger.consume_block(lane1).unwrap();
    merger.consume_block(lane2).unwrap();
    let merged = merger.generate_block().unwrap().unwrap();

    assert_eq!(merged.num_rows(), 3);
    for key in [1u64, 2, 3] {
        assert_eq!(
            u64_cell(&merged, 1, find_key_row(&merged, key)),
            state_cell(&single, 1, find_key_row(&single, key))
        );
    }
}

#[test]
fn serialized_keys_group_binary_columns() {
    let schema = vec![
        DataField::new(String::from("name"), ColumnType::Binary),
        DataField::new(String::from("v"), ColumnType::UInt64),
    ];
    let params = AggregatorParams::try_create(
        schema.clone(),
        vec![String::from("name")],
        vec![sum_desc()],
    )
    .unwrap();
    let mut agg = PartialAggregator::create(HashMethodKind::Serializer, params);
    let block = DataBlock::create(
        schema,
        vec![
            Column::Binary(vec![b"ab".to_vec(), b"cd".to_vec(), b"ab".to_vec()]),
            Column::UInt64(vec![1, 2, 3]),
        ],
        3,
    )
    .unwrap();
    agg.consume_block(block).unwrap();
    let out = agg.generate_block().unwrap().unwrap();
    assert_eq!(out.num_rows(), 2);
    // Two distinct serialised keys: "ab" summing to 4 and "cd" summing to 2.
    let mut sums: Vec<u64> = (0..2).map(|j| state_cell(&out, 1, j)).collect();
    sums.sort();
    assert_eq!(sums, vec![2, 4]);
}

#[test]
fn method_choice_takes_the_smallest_fitting_width() {
    let schema = vec![
        DataField::new(String::from("a"), ColumnType::UInt8),
        DataField::new(String::from("b"), ColumnType::UInt16),
        DataField::new(String::from("c"), ColumnType::UInt64),
        DataField::new(String::from("d"), ColumnType::Binary),
    ];
    assert_eq!(choose_method(&schema, &vec![0]), HashMethodKind::KeysU8);
    assert_eq!(choose_method(&schema, &vec![0, 1]), HashMethodKind::KeysU32);
    assert_eq!(choose_method(&schema, &vec![2]), HashMethodKind::KeysU64);
    assert_eq!(choose_method(&schema, &vec![0, 2]), HashMethodKind::Serializer);
    assert_eq!(choose_method(&schema, &vec![3]), HashMethodKind::Serializer);
    assert_eq!(choose_method(&schema, &vec![]), HashMethodKind::KeysU8);
}

#[test]
fn group_key_equality_is_by_content() {
    let a = GroupKey::Serialized(vec![1, 2, 3]);
    let b = GroupKey::Serialized(vec![1, 2, 3]);
    let c = GroupKey::Fixed(5);
    assert!(query_core::aggregator_params::key_eq(&a, &b));
    assert!(!query_core::aggregator_params::key_eq(&a, &c));
}
