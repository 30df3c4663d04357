use query_core::aggregate::AggregateFunction;
use query_core::aggregate_function::{le8_at, AggregateFunctionDesc};
use query_core::block::{Column, ColumnType, DataBlock, DataField};
use query_core::executor::PipelineExecutor;
use query_core::expression::Expression;
use query_core::pipeline_builder::{
    AggregatorFinalPlan, AggregatorPartialPlan, FilterPlan, PlanNode, QueryPipelineBuilder,
    ReadDataSourcePlan, SelectPlan,
};

fn kv_schema() -> Vec<DataField> {
    vec![
        DataField::new(String::from("k"), ColumnType::UInt8),
        DataField::new(String::from("v"), ColumnType::UInt64),
    ]
}

fn kv_block(ks: Vec<u8>, vs: Vec<u64>) -> DataBlock {
    let n = ks.len();
    DataBlock::create(kv_schema(), vec![Column::UInt8(ks), Column::UInt64(vs)], n).unwrap()
}

fn u64_cell(b: &DataBlock, col: usize, row: usize) -> u64 {
    match b.column(col) {
        Column::UInt64(cells) => cells[row],
        _ => panic!("expected an unsigned column"),
    }
}

fn find_key_row(b: &DataBlock, key: u64) -> usize {
    match b.column(0) {
        Column::UInt64(keys) => {
            for (i, k) in keys.iter().enumerate() {
                if *k == key {
                    return i;
                }
            }
            panic!("key not found");
        },
        _ => panic!("expected the key column"),
    }
}

fn two_phase_plan(partitions: Vec<Vec<DataBlock>>) -> SelectPlan {
    let read = PlanNode::ReadSource(ReadDataSourcePlan { schema: kv_schema(), partitions });
    let partial = PlanNode::AggregatorPartial(AggregatorPartialPlan {
        input: Box::new(read),
        group_columns_name: vec![String::from("k")],
        aggregate_functions: vec![
            AggregateFunctionDesc::new(
                AggregateFunction::Count,
                String::from("count"),
                String::from(""),
            ),
            AggregateFunctionDesc::new(
                AggregateFunction::Sum,
                String::from("sum_v"),
                String::from("v"),
            ),
        ],
    });
    let final_agg = PlanNode::AggregatorFinal(AggregatorFinalPlan {
        input: Box::new(partial),
        group_columns_name: vec![String::from("k")],
        aggregate_functions: vec![
            AggregateFunctionDesc::new(
                AggregateFunction::Count,
                String::from("count"),
                String::from(""),
            ),
            AggregateFunctionDesc::new(
                AggregateFunction::Sum,
                String::from("sum_v"),
                String::from("v"),
            ),
        ],
    });
    SelectPlan { input: Box::new(final_agg) }
}

#[test]
fn two_phase_aggregation_over_two_lanes() {
    // Two parallel partial lanes converge through resize into one final
    // merge; the result is the same grouping a single pass would produce.
    let partitions = vec![
        vec![kv_block(vec![1, 1, 2], vec![10, 20, 30])],
        vec![kv_block(vec![2, 3], vec![5, 40])],
    ];
    let builder = QueryPipelineBuilder::create();
    let pipeline = builder.finalize(&two_phase_plan(partitions)).unwrap();
    let mut ex = PipelineExecutor::create(pipeline).unwrap();
    ex.execute(10_000).unwrap();
    let blocks = ex.sink_blocks();
    assert_eq!(blocks.len(), 1);
    let out = &blocks[0];
    assert_eq!(out.num_rows(), 3);
    assert_eq!(u64_cell(out, 1, find_key_row(out, 1)), 2);
    assert_eq!(u64_cell(out, 2, find_key_row(out, 1)), 30);
    assert_eq!(u64_cell(out, 1, find_key_row(out, 2)), 2);
    assert_eq!(u64_cell(out, 2, find_key_row(out, 2)), 35);
    assert_eq!(u64_cell(out, 1, find_key_row(out, 3)), 1);
    assert_eq!(u64_cell(out, 2, find_key_row(out, 3)), 40);
}

#[test]
fn lane_distribution_does_not_change_the_result() {
    // The same rows split differently across partial lanes produce the same
    // group-to-value mapping after the final merge.
    let split_a = vec![
        vec![kv_block(vec![1, 1], vec![1, 2]), kv_block(vec![2], vec![3])],
        vec![kv_block(vec![2, 3], vec![4, 5])],
    ];
    let split_b = vec![
        vec![kv_block(vec![1], vec![1])],
        vec![kv_block(vec![1, 2, 2, 3], vec![2, 3, 4, 5])],
    ];
    let mut results = Vec::new();
    for partitions in [split_a, split_b] {
        let builder = QueryPipelineBuilder::create();
        let pipeline = builder.finalize(&two_phase_plan(partitions)).unwrap();
        let mut ex = PipelineExecutor::create(pipeline).unwrap();
        ex.execute(10_000).unwrap();
        let blocks = ex.sink_blocks();
        assert_eq!(blocks.len(), 1);
        let out = &blocks[0];
        let mut rows: Vec<(u64, u64, u64)> = (0..out.num_rows())
            .map(|r| (u64_cell(out, 0, r), u64_cell(out, 1, r), u64_cell(out, 2, r)))
            .collect();
        rows.sort();
        results.push(rows);
    }
    assert_eq!(results[0], results[1]);
    assert_eq!(results[0], vec![(1, 2, 3), (2, 2, 7), (3, 1, 5)]);
}

#[test]
fn global_aggregation_converges_to_one_row() {
    // No group-by columns: the single-key fast path emits one row total,
    // whatever the partitioning of the input.
    let read = PlanNode::ReadSource(ReadDataSourcePlan {
        schema: kv_schema(),
        partitions: vec![
            vec![kv_block(vec![0, 0], vec![10, 20])],
            vec![kv_block(vec![0], vec![12])],
        ],
    });
    let partial = PlanNode::AggregatorPartial(AggregatorPartialPlan {
        input: Box::new(read),
        group_columns_name: Vec::new(),
        aggregate_functions: vec![AggregateFunctionDesc::new(
            AggregateFunction::Sum,
            String::from("sum_v"),
            String::from("v"),
        )],
    });
    let final_agg = PlanNode::AggregatorFinal(AggregatorFinalPlan {
        input: Box::new(partial),
        group_columns_name: Vec::new(),
        aggregate_functions: vec![AggregateFunctionDesc::new(
            AggregateFunction::Sum,
            String::from("sum_v"),
            String::from("v"),
        )],
    });
    let plan = SelectPlan { input: Box::new(final_agg) };
    let builder = QueryPipelineBuilder::create();
    let pipeline = builder.finalize(&plan).unwrap();
    let mut ex = PipelineExecutor::create(pipeline).unwrap();
    ex.execute(10_000).unwrap();
    let blocks = ex.sink_blocks();
    assert_eq!(blocks.len(), 1);
    assert_eq!(blocks[0].num_rows(), 1);
    assert_eq!(u64_cell(&blocks[0], 0, 0), 42);
}

#[test]
fn filter_keeps_only_matching_rows() {
    let read = PlanNode::ReadSource(ReadDataSourcePlan {
        schema: kv_schema(),
        partitions: vec![vec![kv_block(vec![1, 2, 1, 3], vec![10, 20, 30, 40])]],
    });
    let filter = PlanNode::Filter(FilterPlan {
        input: Box::new(read),
        predicate: Expression::Equal(
            Box::new(Expression::Column(String::from("k"))),
            Box::new(Expression::Literal(1)),
        ),
    });
    let plan = SelectPlan { input: Box::new(filter) };
    let builder = QueryPipelineBuilder::create();
    let pipeline = builder.finalize(&plan).unwrap();
    let mut ex = PipelineExecutor::create(pipeline).unwrap();
    ex.execute(10_000).unwrap();
    let blocks = ex.sink_blocks();
    assert_eq!(blocks.len(), 1);
    let out = &blocks[0];
    assert_eq!(out.num_rows(), 2);
    match out.column(1) {
        Column::UInt64(vals) => assert_eq!(vals, &vec![10, 30]),
        _ => panic!("wrong column type"),
    }
}

#[test]
fn partial_state_batches_carry_le64_states() {
    // A partial state cell read back through the little-endian decoder.
    let bytes = vec![0x2a, 0, 0, 0, 0, 0, 0, 0];
    assert_eq!(le8_at(&bytes, 0), 42);
}
