use query_core::aggregate::AggregateFunction;
use query_core::aggregate_function::{le8_at, AggregateFunctionDesc};
use query_core::aggregator_params::AggregatorParams;
use query_core::aggregator_single_key::PartialSingleKeyAggregator;
use query_core::block::{Column, ColumnType, DataBlock, DataField};
use query_core::port::Port;
use query_core::transform_aggregator::{
    AggregatorImpl, AggregatorTransform, Event, TransformAggregator, AggregatorTransformParams,
};

fn v_schema() -> Vec<DataField> {
    vec![DataField::new(String::from("v"), ColumnType::UInt64)]
}

fn v_block(vs: Vec<u64>) -> DataBlock {
    let n = vs.len();
    DataBlock::create(v_schema(), vec![Column::UInt64(vs)], n).unwrap()
}

fn count_transform() -> AggregatorTransform<AggregatorImpl> {
    let params = AggregatorParams::try_create(
        v_schema(),
        Vec::new(),
        vec![AggregateFunctionDesc::new(
            AggregateFunction::Count,
            String::from("count"),
            String::from(""),
        )],
    )
    .unwrap();
    let tparams = AggregatorTransformParams::try_create(params).unwrap();
    TransformAggregator::try_create_partial(tparams).unwrap()
}

#[test]
fn transform_walks_the_event_protocol() {
    let mut t = count_transform();
    let mut input = Port::create();
    let mut output = Port::create();

    // Nothing pending upstream: the transform asks for data.
    assert_eq!(t.event(&mut input, &mut output).unwrap(), Event::NeedData);
    assert!(input.can_push());

    // A batch arrives: the transform pulls it and wants a synchronous step.
    input.push_data(Ok(v_block(vec![5, 6])));
    assert_eq!(t.event(&mut input, &mut output).unwrap(), Event::Sync);
    t.process().unwrap();

    // Upstream finishes: the transform flips to generating.
    input.finish();
    assert_eq!(t.event(&mut input, &mut output).unwrap(), Event::Sync);

    // Downstream not ready yet: backpressure.
    assert_eq!(t.event(&mut input, &mut output).unwrap(), Event::NeedConsume);

    // Downstream asks; the generator runs and pushes its one batch.
    output.set_need_data();
    assert_eq!(t.event(&mut input, &mut output).unwrap(), Event::Sync);
    t.process().unwrap();
    assert_eq!(t.event(&mut input, &mut output).unwrap(), Event::NeedConsume);
    let produced = output.pull_data().unwrap().unwrap();
    assert_eq!(produced.num_rows(), 1);
    match produced.column(0) {
        Column::Binary(cells) => assert_eq!(le8_at(&cells[0], 0), 2),
        _ => panic!("expected the count state column"),
    }

    // The generator is exhausted: the output port finishes and the
    // transform retires.
    output.set_need_data();
    assert_eq!(t.event(&mut input, &mut output).unwrap(), Event::Sync);
    t.process().unwrap();
    assert_eq!(t.event(&mut input, &mut output).unwrap(), Event::Finished);
    assert!(output.is_finished());

    // Once finished, every later call answers finished again.
    assert_eq!(t.event(&mut input, &mut output).unwrap(), Event::Finished);
    assert_eq!(t.event(&mut input, &mut output).unwrap(), Event::Finished);
}

#[test]
fn transform_drains_pending_data_before_honouring_finish() {
    // The producer pushes one last batch and finishes at once; the
    // transform pulls the pending batch before treating the port as
    // exhausted, so the row is not lost.
    let mut t = count_transform();
    let mut input = Port::create();
    let mut output = Port::create();

    assert_eq!(t.event(&mut input, &mut output).unwrap(), Event::NeedData);
    input.push_data(Ok(v_block(vec![9])));
    input.finish();

    assert_eq!(t.event(&mut input, &mut output).unwrap(), Event::Sync);
    t.process().unwrap();
    assert_eq!(t.event(&mut input, &mut output).unwrap(), Event::Sync);

    output.set_need_data();
    assert_eq!(t.event(&mut input, &mut output).unwrap(), Event::Sync);
    t.process().unwrap();
    assert_eq!(t.event(&mut input, &mut output).unwrap(), Event::NeedConsume);
    let produced = output.pull_data().unwrap().unwrap();
    match produced.column(0) {
        Column::Binary(cells) => assert_eq!(le8_at(&cells[0], 0), 1),
        _ => panic!("expected the count state column"),
    }
}

#[test]
fn direct_aggregator_emits_once() {
    let params = AggregatorParams::try_create(
        v_schema(),
        Vec::new(),
        vec![AggregateFunctionDesc::new(
            AggregateFunction::Count,
            String::from("count"),
            String::from(""),
        )],
    )
    .unwrap();
    let mut agg = PartialSingleKeyAggregator::try_create(params).unwrap();
    agg.consume_block(v_block(vec![1, 2, 3])).unwrap();
    assert!(agg.generate_block().unwrap().is_some());
    assert!(agg.generate_block().unwrap().is_none());
    assert!(agg.generate_block().unwrap().is_none());
}
