use vstd::prelude::*;

use crate::aggregator_final::FinalAggregator;
use crate::aggregator_params::{choose_method, AggregatorParams, HashMethodKind};
use crate::aggregator_partial::PartialAggregator;
use crate::aggregator_single_key::{FinalSingleKeyAggregator, PartialSingleKeyAggregator};
use crate::block::DataBlock;
use crate::error::ErrorCode;
use crate::port::Port;
use vstd::string::StringExecFns;

verus! {

/// What a processor's status query answers: drive my upstream, drain my
/// downstream, run my synchronous step, run my offloaded step, or retire me.
/// `Finished` is terminal.
#[derive(Clone, Copy, Debug, PartialEq, Eq, Structural)]
pub enum Event {
    NeedData,
    NeedConsume,
    Sync,
    Async,
    Finished,
}

/// The inner value of an aggregation transform: consumes raw or partial
/// batches, then generates output batches until exhausted. Beside its
/// invariant, every aggregator carries a model of the batches it was fed and
/// the batches it handed out, so the state machine's contracts can speak of
/// what moved through it.
pub trait Aggregator: Sized {
    spec fn inv(&self) -> bool;

    /// The batches fed so far, in order.
    spec fn consumed(&self) -> Seq<crate::block::DataBlockV>;

    /// The batches handed out so far, in order.
    spec fn produced(&self) -> Seq<crate::block::DataBlockV>;

    fn consume(&mut self, data: DataBlock) -> (r: Result<(), ErrorCode>)
        requires
            old(self).inv(),
        ensures
            final(self).inv(),
            r is Ok ==> final(self).consumed() == old(self).consumed().push(data@),
            r is Err ==> final(self).consumed() == old(self).consumed(),
            final(self).produced() == old(self).produced(),
    ;

    fn generate(&mut self) -> (r: Result<Option<DataBlock>, ErrorCode>)
        requires
            old(self).inv(),
        ensures
            final(self).inv(),
            final(self).consumed() == old(self).consumed(),
            r matches Ok(o) ==> (o matches Some(b) ==> final(self).produced() == old(self).produced().push(b@)),
            (r matches Ok(o) && o is None) ==> final(self).produced() == old(self).produced(),
            r is Err ==> final(self).produced() == old(self).produced(),
    ;
}

impl Aggregator for PartialSingleKeyAggregator {
    open spec fn inv(&self) -> bool {
        self.wf()
    }

    open spec fn consumed(&self) -> Seq<crate::block::DataBlockV> {
        self.fed@
    }

    open spec fn produced(&self) -> Seq<crate::block::DataBlockV> {
        self.emitted@
    }

    fn consume(&mut self, data: DataBlock) -> (r: Result<(), ErrorCode>) {
        self.consume_block(data)
    }

    fn generate(&mut self) -> (r: Result<Option<DataBlock>, ErrorCode>) {
        self.generate_block()
    }
}

impl Aggregator for FinalSingleKeyAggregator {
    open spec fn inv(&self) -> bool {
        self.wf()
    }

    open spec fn consumed(&self) -> Seq<crate::block::DataBlockV> {
        self.fed@
    }

    open spec fn produced(&self) -> Seq<crate::block::DataBlockV> {
        self.emitted@
    }

    fn consume(&mut self, data: DataBlock) -> (r: Result<(), ErrorCode>) {
        self.consume_block(data)
    }

    fn generate(&mut self) -> (r: Result<Option<DataBlock>, ErrorCode>) {
        self.generate_block()
    }
}

impl Aggregator for PartialAggregator {
    open spec fn inv(&self) -> bool {
        self.wf()
    }

    open spec fn consumed(&self) -> Seq<crate::block::DataBlockV> {
        self.fed@
    }

    open spec fn produced(&self) -> Seq<crate::block::DataBlockV> {
        self.emitted@
    }

    fn consume(&mut self, data: DataBlock) -> (r: Result<(), ErrorCode>) {
        self.consume_block(data)
    }

    fn generate(&mut self) -> (r: Result<Option<DataBlock>, ErrorCode>) {
        self.generate_block()
    }
}

impl Aggregator for FinalAggregator {
    open spec fn inv(&self) -> bool {
        self.wf()
    }

    open spec fn consumed(&self) -> Seq<crate::block::DataBlockV> {
        self.fed@
    }

    open spec fn produced(&self) -> Seq<crate::block::DataBlockV> {
        self.emitted@
    }

    fn consume(&mut self, data: DataBlock) -> (r: Result<(), ErrorCode>) {
        self.consume_block(data)
    }

    fn generate(&mut self) -> (r: Result<Option<DataBlock>, ErrorCode>) {
        self.generate_block()
    }
}

/// The closed set of aggregator strategies a query can select: single global
/// group or grouped, first or second phase. The grouped forms carry the key
/// representation chosen at construction time.
pub enum AggregatorImpl {
    PartialSingleKey(PartialSingleKeyAggregator),
    FinalSingleKey(FinalSingleKeyAggregator),
    Partial(PartialAggregator),
    Final(FinalAggregator),
}

impl Aggregator for AggregatorImpl {
    open spec fn inv(&self) -> bool {
        match self {
            AggregatorImpl::PartialSingleKey(a) => a.wf(),
            AggregatorImpl::FinalSingleKey(a) => a.wf(),
            AggregatorImpl::Partial(a) => a.wf(),
            AggregatorImpl::Final(a) => a.wf(),
        }
    }

    open spec fn consumed(&self) -> Seq<crate::block::DataBlockV> {
        match self {
            AggregatorImpl::PartialSingleKey(a) => a.fed@,
            AggregatorImpl::FinalSingleKey(a) => a.fed@,
            AggregatorImpl::Partial(a) => a.fed@,
            AggregatorImpl::Final(a) => a.fed@,
        }
    }

    open spec fn produced(&self) -> Seq<crate::block::DataBlockV> {
        match self {
            AggregatorImpl::PartialSingleKey(a) => a.emitted@,
            AggregatorImpl::FinalSingleKey(a) => a.emitted@,
            AggregatorImpl::Partial(a) => a.emitted@,
            AggregatorImpl::Final(a) => a.emitted@,
        }
    }

    fn consume(&mut self, data: DataBlock) -> (r: Result<(), ErrorCode>) {
        match self {
            AggregatorImpl::PartialSingleKey(a) => a.consume_block(data),
            AggregatorImpl::FinalSingleKey(a) => a.consume_block(data),
            AggregatorImpl::Partial(a) => a.consume_block(data),
            AggregatorImpl::Final(a) => a.consume_block(data),
        }
    }

    fn generate(&mut self) -> (r: Result<Option<DataBlock>, ErrorCode>) {
        match self {
            AggregatorImpl::PartialSingleKey(a) => a.generate_block(),
            AggregatorImpl::FinalSingleKey(a) => a.generate_block(),
            AggregatorImpl::Partial(a) => a.generate_block(),
            AggregatorImpl::Final(a) => a.generate_block(),
        }
    }
}

/// The consuming half of the transform's state: the inner aggregator and at
/// most one input batch pulled but not yet fed.
pub struct ConsumeState<TAggregator> {
    pub inner: TAggregator,
    pub input_data_block: Option<DataBlock>,
}

impl<TAggregator: Aggregator> ConsumeState<TAggregator> {
    /// Feeds the pending input batch, if any, into the inner aggregator and
    /// clears the slot; with nothing pending this is a successful no-op. An
    /// error of the inner aggregator is handed back unchanged, and the batch
    /// is not re-fed: the core never retries.
    pub fn consume(&mut self) -> (r: Result<(), ErrorCode>)
        requires
            old(self).inner.inv(),
        ensures
            final(self).inner.inv(),
            final(self).input_data_block is None,
            old(self).input_data_block is None ==> r == Ok::<(), ErrorCode>(()) && *final(self)
                == *old(self),
            old(self).input_data_block matches Some(b) ==> (r is Ok ==> final(self).inner.consumed() == old(self).inner.consumed().push(b@)),
            r is Err ==> old(self).input_data_block is Some && final(self).inner.consumed() == old(self).inner.consumed(),
            final(self).inner.produced() == old(self).inner.produced(),
    {
        let pending = self.input_data_block.take();
        if let Some(input_data) = pending {
            let r = self.inner.consume(input_data);
            return r;
        }
        Ok(())
    }
}

/// The generating half of the transform's state: the inner aggregator, at
/// most one output batch not yet pushed, and whether the generator is
/// exhausted.
pub struct GenerateState<TAggregator> {
    pub inner: TAggregator,
    pub is_finished: bool,
    pub output_data_block: Option<DataBlock>,
}

impl<TAggregator: Aggregator> GenerateState<TAggregator> {
    /// Asks the inner aggregator for one next output batch and records the
    /// answer: a batch replaces the pending slot, and no batch latches
    /// exhaustion. An error of the inner aggregator is handed back unchanged
    /// with the state untouched.
    pub fn generate(&mut self) -> (r: Result<(), ErrorCode>)
        requires
            old(self).inner.inv(),
        ensures
            final(self).inner.inv(),
            final(self).inner.consumed() == old(self).inner.consumed(),
            final(self).output_data_block matches Some(b) ==> (r is Ok ==> final(self).inner.produced() == old(self).inner.produced().push(b@) && final(self).is_finished
                == old(self).is_finished),
            (r is Ok && final(self).output_data_block is None) ==> final(self).is_finished && final(self).inner.produced() == old(self).inner.produced(),
            r is Err ==> final(self).is_finished == old(self).is_finished && final(self).output_data_block == old(self).output_data_block && final(self).inner.produced()
                == old(self).inner.produced(),
    {
        let generated = self.inner.generate();
        match generated {
            Ok(generate_data) => {
                if generate_data.is_none() {
                    self.is_finished = true;
                }
                self.output_data_block = generate_data;
                Ok(())
            },
            Err(e) => Err(e),
        }
    }
}

/// The aggregation transform's finite state: consuming input, generating
/// output, or retired. The one transition `ConsumeData` to `Generate` moves
/// the inner aggregator by value, preserving all accumulated state; the
/// transition to `Finished` is terminal.
pub enum AggregatorTransform<TAggregator> {
    ConsumeData(ConsumeState<TAggregator>),
    Generate(GenerateState<TAggregator>),
    Finished,
}

impl<TAggregator: Aggregator> AggregatorTransform<TAggregator> {
    /// The inner aggregator's invariant, in whichever state holds one.
    pub open spec fn inv(&self) -> bool {
        match self {
            AggregatorTransform::ConsumeData(s) => s.inner.inv(),
            AggregatorTransform::Generate(s) => s.inner.inv(),
            AggregatorTransform::Finished => true,
        }
    }

    /// Wraps a fresh inner aggregator into the consuming state.
    pub fn create(inner: TAggregator) -> (r: Result<AggregatorTransform<TAggregator>, ErrorCode>)
        requires
            inner.inv(),
        ensures
            r matches Ok(t) ==> t.inv() && (t matches AggregatorTransform::ConsumeData(s)
                && s.inner == inner && s.input_data_block is None),
            r is Ok,
    {
        Ok(
            AggregatorTransform::ConsumeData(
                ConsumeState { inner, input_data_block: None },
            ),
        )
    }

    /// The one phase transition: consumes the consuming state by value and
    /// produces the generating state, carrying the inner aggregator across
    /// without cloning. From any other state this is an internal-logic error,
    /// fatal and never retried.
    pub fn to_generate(self) -> (r: Result<Self, ErrorCode>)
        ensures
            self matches AggregatorTransform::ConsumeData(s) ==> (r matches Ok(t) && (
            t matches AggregatorTransform::Generate(g) && g.inner == s.inner && !g.is_finished
                && g.output_data_block is None)),
            !(self matches AggregatorTransform::ConsumeData(_)) ==> (r matches Err(e) && e is LogicalError),
    {
        match self {
            AggregatorTransform::ConsumeData(s) => Ok(
                AggregatorTransform::Generate(
                    GenerateState {
                        inner: s.inner,
                        is_finished: false,
                        output_data_block: None,
                    },
                ),
            ),
            _ => Err(ErrorCode::LogicalError(String::from_str(
                "aggregation may only start generating after consuming",
            ))),
        }
    }

    /// The non-blocking status query, driving the port protocol.
    ///
    /// In the consuming state: a pending batch is ready to process; a
    /// finished upstream moves the transform to generating; available data is
    /// pulled, never dropped, even when the producer has already raised its
    /// finish flag; otherwise data is requested. In the generating state: a
    /// finished downstream retires the transform; a full downstream asks for
    /// draining; a pending output batch is pushed; an exhausted generator
    /// finishes the port and retires. Once `Finished`, every later call
    /// returns `Finished` again.
    pub fn event(&mut self, input: &mut Port, output: &mut Port) -> (r: Result<Event, ErrorCode>)
        requires
            old(self).inv(),
        ensures
            final(self).inv(),
            (*old(self)) matches AggregatorTransform::Finished ==> (*final(self)) matches AggregatorTransform::Finished && r == Ok::<Event, ErrorCode>(Event::Finished)
                && *final(input) == *old(input) && *final(output) == *old(output),
            r == Ok::<Event, ErrorCode>(Event::Finished) ==> (*final(self)) matches AggregatorTransform::Finished,
            ((*old(self)) matches AggregatorTransform::Generate(_) && r == Ok::<Event, ErrorCode>(
                Event::Finished,
            )) ==> final(output).spec_is_finished(),
            (*old(self)) matches AggregatorTransform::ConsumeData(s) ==> {
                &&& *final(output) == *old(output)
                &&& (s.input_data_block is Some ==> r == Ok::<Event, ErrorCode>(Event::Sync) && *final(self) == *old(self) && *final(input) == *old(input))
                &&& (s.input_data_block is None && old(input).spec_is_finished() ==> r == Ok::<Event, ErrorCode>(Event::Sync) && ((*final(self)) matches AggregatorTransform::Generate(g) && g.inner == s.inner
                    && !g.is_finished && g.output_data_block is None) && *final(input) == *old(input))
                &&& (s.input_data_block is None && !old(input).spec_is_finished() && old(input).spec_has_data() ==> final(input).pending() is None && ((
                old(input).pending() matches Some(Ok(b)) && r == Ok::<Event, ErrorCode>(Event::Sync) && ((*final(self)) matches AggregatorTransform::ConsumeData(s2) && s2.inner == s.inner
                    && s2.input_data_block == Some(b))) || (old(input).pending() matches Some(
                    Err(e),
                ) && r == Err::<Event, ErrorCode>(e))))
                &&& (s.input_data_block is None && !old(input).spec_is_finished() && !old(input).spec_has_data() ==> r == Ok::<Event, ErrorCode>(Event::NeedData) && *final(self) == *old(self)
                    && final(input).need_flag() && final(input).pending() == old(input).pending()
                    && final(input).fin_flag() == old(input).fin_flag())
            },
            (*old(self)) matches AggregatorTransform::Generate(g) ==> {
                &&& *final(input) == *old(input)
                &&& (old(output).spec_is_finished() ==> r == Ok::<Event, ErrorCode>(Event::Finished) && ((*final(self)) matches AggregatorTransform::Finished) && *final(output) == *old(output))
                &&& (!old(output).spec_is_finished() && !old(output).spec_can_push() ==> r == Ok::<Event, ErrorCode>(Event::NeedConsume) && *final(self) == *old(self) && *final(output) == *old(output))
                &&& (g.output_data_block matches Some(b) ==> (!old(output).spec_is_finished()
                    && old(output).spec_can_push() ==> r == Ok::<Event, ErrorCode>(Event::NeedConsume) && (
                (*final(self)) matches AggregatorTransform::Generate(g2) && g2.inner == g.inner
                    && g2.is_finished == g.is_finished && g2.output_data_block is None) && final(output).pending() == Some(Ok::<DataBlock, ErrorCode>(b))))
                &&& (!old(output).spec_is_finished() && old(output).spec_can_push()
                    && g.output_data_block is None && g.is_finished ==> r == Ok::<Event, ErrorCode>(Event::Finished)
                    && ((*final(self)) matches AggregatorTransform::Finished) && final(output).fin_flag()
                    && final(output).pending() == old(output).pending())
                &&& (!old(output).spec_is_finished() && old(output).spec_can_push()
                    && g.output_data_block is None && !g.is_finished ==> r == Ok::<Event, ErrorCode>(Event::Sync)
                    && *final(self) == *old(self) && *final(output) == *old(output))
            },
    {
        match self {
            AggregatorTransform::Finished => Ok(Event::Finished),
            AggregatorTransform::Generate(_) => self.generate_event(input, output),
            AggregatorTransform::ConsumeData(_) => self.consume_event(input, output),
        }
    }

    fn consume_event(&mut self, input: &mut Port, output: &mut Port) -> (r: Result<
        Event,
        ErrorCode,
    >)
        requires
            old(self).inv(),
            (*old(self)) matches AggregatorTransform::ConsumeData(_),
        ensures
            final(self).inv(),
            *final(output) == *old(output),
            r == Ok::<Event, ErrorCode>(Event::Finished) ==> (*final(self)) matches AggregatorTransform::Finished,
            (*old(self)) matches AggregatorTransform::ConsumeData(s) ==> {
                &&& (s.input_data_block is Some ==> r == Ok::<Event, ErrorCode>(Event::Sync) && *final(self) == *old(self) && *final(input) == *old(input))
                &&& (s.input_data_block is None && old(input).spec_is_finished() ==> r == Ok::<Event, ErrorCode>(Event::Sync) && ((*final(self)) matches AggregatorTransform::Generate(g) && g.inner == s.inner
                    && !g.is_finished && g.output_data_block is None) && *final(input) == *old(input))
                &&& (s.input_data_block is None && !old(input).spec_is_finished() && old(input).spec_has_data() ==> final(input).pending() is None && ((
                old(input).pending() matches Some(Ok(b)) && r == Ok::<Event, ErrorCode>(Event::Sync) && ((*final(self)) matches AggregatorTransform::ConsumeData(s2) && s2.inner == s.inner
                    && s2.input_data_block == Some(b))) || (old(input).pending() matches Some(
                    Err(e),
                ) && r == Err::<Event, ErrorCode>(e))))
                &&& (s.input_data_block is None && !old(input).spec_is_finished() && !old(input).spec_has_data() ==> r == Ok::<Event, ErrorCode>(Event::NeedData) && *final(self) == *old(self)
                    && final(input).need_flag() && final(input).pending() == old(input).pending()
                    && final(input).fin_flag() == old(input).fin_flag())
            },
    {
        let has_pending = match self {
            AggregatorTransform::ConsumeData(state) => state.input_data_block.is_some(),
            _ => false,
        };
        if has_pending {
            return Ok(Event::Sync);
        }
        if input.is_finished() {
            let mut temp_state = AggregatorTransform::Finished;
            core::mem::swap(self, &mut temp_state);
            let next = temp_state.to_generate();
            match next {
                Ok(mut t) => {
                    core::mem::swap(self, &mut t);
                    return Ok(Event::Sync);
                },
                Err(e) => {
                    return Err(e);
                },
            }
        }
        if input.has_data() {
            let pulled = input.pull_data();
            match pulled {
                Some(Ok(b)) => {
                    match self {
                        AggregatorTransform::ConsumeData(state) => {
                            state.input_data_block = Some(b);
                            return Ok(Event::Sync);
                        },
                        _ => {
                            return Err(ErrorCode::LogicalError(String::from_str(
                                "aggregation consumed outside the consuming state",
                            )));
                        },
                    }
                },
                Some(Err(e)) => {
                    return Err(e);
                },
                None => {
                    return Err(ErrorCode::LogicalError(String::from_str(
                        "a port reported data it did not hold",
                    )));
                },
            }
        }
        input.set_need_data();
        Ok(Event::NeedData)
    }

    fn generate_event(&mut self, input: &mut Port, output: &mut Port) -> (r: Result<
        Event,
        ErrorCode,
    >)
        requires
            old(self).inv(),
            (*old(self)) matches AggregatorTransform::Generate(_),
        ensures
            final(self).inv(),
            *final(input) == *old(input),
            r == Ok::<Event, ErrorCode>(Event::Finished) ==> (*final(self)) matches AggregatorTransform::Finished,
            r == Ok::<Event, ErrorCode>(Event::Finished) ==> final(output).spec_is_finished(),
            (*old(self)) matches AggregatorTransform::Generate(g) ==> {
                &&& (old(output).spec_is_finished() ==> r == Ok::<Event, ErrorCode>(Event::Finished) && ((*final(self)) matches AggregatorTransform::Finished) && *final(output) == *old(output))
                &&& (!old(output).spec_is_finished() && !old(output).spec_can_push() ==> r == Ok::<Event, ErrorCode>(Event::NeedConsume) && *final(self) == *old(self) && *final(output) == *old(output))
                &&& (g.output_data_block matches Some(b) ==> (!old(output).spec_is_finished()
                    && old(output).spec_can_push() ==> r == Ok::<Event, ErrorCode>(Event::NeedConsume) && (
                (*final(self)) matches AggregatorTransform::Generate(g2) && g2.inner == g.inner
                    && g2.is_finished == g.is_finished && g2.output_data_block is None) && final(output).pending() == Some(Ok::<DataBlock, ErrorCode>(b))))
                &&& (!old(output).spec_is_finished() && old(output).spec_can_push()
                    && g.output_data_block is None && g.is_finished ==> r == Ok::<Event, ErrorCode>(Event::Finished)
                    && ((*final(self)) matches AggregatorTransform::Finished) && final(output).fin_flag()
                    && final(output).pending() == old(output).pending())
                &&& (!old(output).spec_is_finished() && old(output).spec_can_push()
                    && g.output_data_block is None && !g.is_finished ==> r == Ok::<Event, ErrorCode>(Event::Sync)
                    && *final(self) == *old(self) && *final(output) == *old(output))
            },
    {
        if output.is_finished() {
            let mut temp_state = AggregatorTransform::Finished;
            core::mem::swap(self, &mut temp_state);
            return Ok(Event::Finished);
        }
        if !output.can_push() {
            return Ok(Event::NeedConsume);
        }
        let pending = match self {
            AggregatorTransform::Generate(state) => state.output_data_block.take(),
            _ => None,
        };
        if let Some(block) = pending {
            output.push_data(Ok(block));
            return Ok(Event::NeedConsume);
        }
        let exhausted = match self {
            AggregatorTransform::Generate(state) => state.is_finished,
            _ => false,
        };
        if exhausted {
            if !output.is_finished() {
                output.finish();
            }
            let mut temp_state = AggregatorTransform::Finished;
            core::mem::swap(self, &mut temp_state);
            return Ok(Event::Finished);
        }
        Ok(Event::Sync)
    }

    /// One bounded unit of synchronous work: feed the pending input batch,
    /// or generate the next output batch.
    pub fn process(&mut self) -> (r: Result<(), ErrorCode>)
        requires
            old(self).inv(),
        ensures
            final(self).inv(),
            (*old(self)) matches AggregatorTransform::Finished ==> *final(self) == *old(self) && r is Ok,
    {
        match self {
            AggregatorTransform::Finished => Ok(()),
            AggregatorTransform::ConsumeData(state) => state.consume(),
            AggregatorTransform::Generate(state) => state.generate(),
        }
    }
}

/// The per-transform construction bundle: the shared parameters and the key
/// representation chosen once per query from the group column types.
pub struct AggregatorTransformParams {
    pub aggregator_params: AggregatorParams,
    pub method: HashMethodKind,
}

impl AggregatorTransformParams {
    pub fn try_create(aggregator_params: AggregatorParams) -> (r: Result<
        AggregatorTransformParams,
        ErrorCode,
    >)
        requires
            aggregator_params.wf(),
        ensures
            r matches Ok(t) ==> t.aggregator_params == aggregator_params
                && t.aggregator_params.wf() && t.method
                == crate::aggregator_params::spec_choose_method(
                crate::block::fields_view(aggregator_params.schema@),
                aggregator_params.group_indices@,
            ) && crate::aggregator_params::schema_method_ok(
                t.method,
                crate::block::fields_view(aggregator_params.schema@),
                aggregator_params.group_indices@,
            ),
            r is Ok,
    {
        let method = choose_method(&aggregator_params.schema, &aggregator_params.group_indices);
        Ok(AggregatorTransformParams { aggregator_params, method })
    }
}

/// Construction of the aggregation transforms, dispatching once per query on
/// phase, presence of group-by columns, and key representation.
pub struct TransformAggregator;

impl TransformAggregator {
    /// The second-phase transform: the single-key merger when no group-by
    /// columns exist, else the grouped merger under the chosen key
    /// representation.
    pub fn try_create_final(transform_params: AggregatorTransformParams) -> (r: Result<
        AggregatorTransform<AggregatorImpl>,
        ErrorCode,
    >)
        requires
            transform_params.aggregator_params.wf(),
        ensures
            r is Ok,
            r matches Ok(t) ==> t.inv() && (t matches AggregatorTransform::ConsumeData(s)
                && s.input_data_block is None && s.inner.consumed().len() == 0
                && s.inner.produced().len() == 0 && (
            transform_params.aggregator_params.group_columns_name@.len() == 0 ==> (
            s.inner matches AggregatorImpl::FinalSingleKey(a) && a.params
                == transform_params.aggregator_params && !a.spec_generated()
                && a.spec_parts().len() == 0)) && (
            transform_params.aggregator_params.group_columns_name@.len() > 0 ==> (
            s.inner matches AggregatorImpl::Final(a) && a.method == transform_params.method
                && a.params == transform_params.aggregator_params && !a.generated
                && a.spec_entries().len() == 0))),
    {
        let aggregator_params = transform_params.aggregator_params;
        if aggregator_params.group_columns_name.len() == 0 {
            let inner = match FinalSingleKeyAggregator::try_create(aggregator_params) {
                Ok(a) => a,
                Err(e) => {
                    return Err(e);
                },
            };
            return AggregatorTransform::create(AggregatorImpl::FinalSingleKey(inner));
        }
        let inner = FinalAggregator::create(transform_params.method, aggregator_params);
        AggregatorTransform::create(AggregatorImpl::Final(inner))
    }

    /// The first-phase transform: the single-key accumulator when no
    /// group-by columns exist, else the grouped accumulator under the chosen
    /// key representation. Grouping with and without aggregate functions
    /// share the grouped accumulator, whose function list may be empty.
    pub fn try_create_partial(transform_params: AggregatorTransformParams) -> (r: Result<
        AggregatorTransform<AggregatorImpl>,
        ErrorCode,
    >)
        requires
            transform_params.aggregator_params.wf(),
        ensures
            r is Ok,
            r matches Ok(t) ==> t.inv() && (t matches AggregatorTransform::ConsumeData(s)
                && s.input_data_block is None && s.inner.consumed().len() == 0
                && s.inner.produced().len() == 0 && (
            transform_params.aggregator_params.group_columns_name@.len() == 0 ==> (
            s.inner matches AggregatorImpl::PartialSingleKey(a) && a.params
                == transform_params.aggregator_params && !a.spec_generated()
                && a.spec_rows().len() == 0)) && (
            transform_params.aggregator_params.group_columns_name@.len() > 0 ==> (
            s.inner matches AggregatorImpl::Partial(a) && a.method == transform_params.method
                && a.params == transform_params.aggregator_params && !a.generated
                && a.spec_rows().len() == 0))),
    {
        let aggregator_params = transform_params.aggregator_params;
        if aggregator_params.group_columns_name.len() == 0 {
            let inner = match PartialSingleKeyAggregator::try_create(aggregator_params) {
                Ok(a) => a,
                Err(e) => {
                    return Err(e);
                },
            };
            return AggregatorTransform::create(AggregatorImpl::PartialSingleKey(inner));
        }
        let inner = match transform_params.method {
            HashMethodKind::KeysU8 => PartialAggregator::create(
                HashMethodKind::KeysU8,
                aggregator_params,
            ),
            HashMethodKind::KeysU16 => PartialAggregator::create(
                HashMethodKind::KeysU16,
                aggregator_params,
            ),
            HashMethodKind::KeysU32 => PartialAggregator::create(
                HashMethodKind::KeysU32,
                aggregator_params,
            ),
            HashMethodKind::KeysU64 => PartialAggregator::create(
                HashMethodKind::KeysU64,
                aggregator_params,
            ),
            HashMethodKind::Serializer => PartialAggregator::create(
                HashMethodKind::Serializer,
                aggregator_params,
            ),
        };
        AggregatorTransform::create(AggregatorImpl::Partial(inner))
    }
}

} // verus!
