use vstd::pervasive::VecAdditionalExecFns;
use vstd::prelude::*;
use vstd::string::StringExecFns;

use crate::block::DataBlock;
use crate::error::ErrorCode;
use crate::expression::{filter_block, project_block, spec_filter_out, spec_pred_total, spec_project_ok, spec_project_out, Expression};
use crate::port::Port;
use crate::transform_aggregator::{Aggregator, AggregatorImpl, AggregatorTransform, Event};

verus! {

/// A source that emits a fixed list of batches, one per request, then
/// finishes its output. Sources backed by outside input hand their batches
/// to the pipeline through this processor.
pub struct BlocksSource {
    pub blocks: Vec<DataBlock>,
    pub done: bool,
}

impl BlocksSource {
    pub fn create(blocks: Vec<DataBlock>) -> (r: BlocksSource)
        ensures
            !r.done,
            r.blocks == blocks,
    {
        BlocksSource { blocks, done: false }
    }

    /// Pushes the next batch in order when the consumer is ready; finishes
    /// the output after the last batch, and never finishes it with a batch
    /// still to emit.
    pub fn event(&mut self, output: &mut Port) -> (r: Result<Event, ErrorCode>)
        ensures
            r is Ok,
            r == Ok::<Event, ErrorCode>(Event::Finished) ==> final(self).done && final(output).fin_flag(),
            old(self).done ==> r == Ok::<Event, ErrorCode>(Event::Finished) && final(self).done
                && final(self).blocks@ == old(self).blocks@ && final(output).pending() == old(output).pending(),
            !old(self).done && old(output).spec_is_finished() ==> r == Ok::<Event, ErrorCode>(
                Event::Finished,
            ) && final(self).blocks@ == old(self).blocks@ && *final(output) == *old(output),
            !old(self).done && !old(output).spec_is_finished() && !old(output).spec_can_push()
                ==> r == Ok::<Event, ErrorCode>(Event::NeedConsume) && *final(self) == *old(self)
                && *final(output) == *old(output),
            !old(self).done && !old(output).spec_is_finished() && old(output).spec_can_push()
                && old(self).blocks@.len() > 0 ==> r == Ok::<Event, ErrorCode>(Event::NeedConsume)
                && final(self).blocks@ == old(self).blocks@.drop_first() && final(output).pending()
                == Some(Ok::<DataBlock, ErrorCode>(old(self).blocks@[0])),
            !old(self).done && !old(output).spec_is_finished() && old(output).spec_can_push()
                && old(self).blocks@.len() == 0 ==> r == Ok::<Event, ErrorCode>(Event::Finished)
                && final(output).pending() is None,
    {
        if self.done {
            if !output.is_finished() {
                output.finish();
            }
            return Ok(Event::Finished);
        }
        if output.is_finished() {
            self.done = true;
            return Ok(Event::Finished);
        }
        if !output.can_push() {
            return Ok(Event::NeedConsume);
        }
        if self.blocks.len() > 0 {
            let ghost pre = self.blocks@;
            let b = self.blocks.remove(0);
            proof {
                assert(self.blocks@ =~= pre.drop_first());
            }
            output.push_data(Ok(b));
            return Ok(Event::NeedConsume);
        }
        output.finish();
        self.done = true;
        Ok(Event::Finished)
    }
}

/// A sink that drains its input into a list of collected batches; the
/// pipeline's results are read from here when the run is over.
pub struct SinkProcessor {
    pub collected: Vec<DataBlock>,
    pub done: bool,
}

impl SinkProcessor {
    pub fn create() -> (r: SinkProcessor)
        ensures
            !r.done,
            r.collected@.len() == 0,
    {
        SinkProcessor { collected: Vec::new(), done: false }
    }

    /// Pulls whatever is pending — also after the producer raised its finish
    /// flag, so nothing is dropped — and only then treats the port as
    /// exhausted. A terminal error signal aborts the pipeline.
    pub fn event(&mut self, input: &mut Port) -> (r: Result<Event, ErrorCode>)
        ensures
            old(self).done ==> (r == Ok::<Event, ErrorCode>(Event::Finished) && final(self).done),
            r == Ok::<Event, ErrorCode>(Event::Finished) ==> final(self).done,
            old(input).pending() matches Some(Ok(b)) ==> (!old(self).done ==> r == Ok::<
                Event,
                ErrorCode,
            >(Event::NeedData) && final(self).collected@ == old(self).collected@.push(b) && final(input).pending() is None),
            old(input).pending() matches Some(Err(e)) ==> (!old(self).done ==> r == Err::<
                Event,
                ErrorCode,
            >(e)),
    {
        if self.done {
            return Ok(Event::Finished);
        }
        if input.has_data() {
            match input.pull_data() {
                Some(Ok(b)) => {
                    self.collected.push(b);
                    input.set_need_data();
                    return Ok(Event::NeedData);
                },
                Some(Err(e)) => {
                    return Err(e);
                },
                None => {
                    return Err(ErrorCode::LogicalError(String::from_str(
                        "a port reported data it did not hold",
                    )));
                },
            }
        }
        if input.is_finished() {
            self.done = true;
            return Ok(Event::Finished);
        }
        input.set_need_data();
        Ok(Event::NeedData)
    }
}

/// The row-wise stages: keep the rows a predicate selects, or compute named
/// expression columns.
pub enum TransformKind {
    Filter(Expression),
    Project(Vec<(String, Expression)>),
}

/// A one-in, one-out stage applying a row-wise transformation to each batch
/// that passes through.
pub struct Transformer {
    pub kind: TransformKind,
    pub input_data: Option<DataBlock>,
    pub output_data: Option<DataBlock>,
    pub done: bool,
}

impl Transformer {
    pub fn create(kind: TransformKind) -> (r: Transformer)
        ensures
            !r.done,
            r.input_data is None,
            r.output_data is None,
            r.kind == kind,
    {
        Transformer { kind, input_data: None, output_data: None, done: false }
    }

    /// The transform's status query, mirroring the aggregation transform's
    /// port discipline: pending output is pushed before new input is pulled,
    /// pending data is drained even after the producer finished, and a
    /// finished downstream or exhausted upstream retires the stage with its
    /// ports finished.
    pub fn event(&mut self, input: &mut Port, output: &mut Port) -> (r: Result<Event, ErrorCode>)
        ensures
            r == Ok::<Event, ErrorCode>(Event::Finished) ==> final(self).done,
            old(self).done ==> r == Ok::<Event, ErrorCode>(Event::Finished) && *final(self)
                == *old(self) && *final(input) == *old(input) && *final(output) == *old(output),
            !old(self).done ==> {
                &&& (old(output).spec_is_finished() ==> r == Ok::<Event, ErrorCode>(
                    Event::Finished,
                ) && final(self).done && final(input).fin_flag() && final(input).pending() == old(input).pending() && *final(output) == *old(output))
                &&& (!old(output).spec_is_finished() && !old(output).spec_can_push() ==> r
                    == Ok::<Event, ErrorCode>(Event::NeedConsume) && *final(self) == *old(self)
                    && *final(input) == *old(input) && *final(output) == *old(output))
                &&& (old(self).output_data matches Some(b) ==> (!old(output).spec_is_finished()
                    && old(output).spec_can_push() ==> r == Ok::<Event, ErrorCode>(
                    Event::NeedConsume,
                ) && final(self).output_data is None && final(self).input_data == old(self).input_data && final(output).pending() == Some(Ok::<DataBlock, ErrorCode>(b))
                    && *final(input) == *old(input)))
                &&& (!old(output).spec_is_finished() && old(output).spec_can_push() && old(self).output_data is None && old(self).input_data is Some ==> r == Ok::<
                    Event,
                    ErrorCode,
                >(Event::Sync) && *final(self) == *old(self) && *final(input) == *old(input)
                    && *final(output) == *old(output))
                &&& (!old(output).spec_is_finished() && old(output).spec_can_push() && old(self).output_data is None && old(self).input_data is None && !old(input).spec_is_finished() && old(input).spec_has_data() ==> final(input).pending()
                    is None && ((old(input).pending() matches Some(Ok(b)) && r == Ok::<
                    Event,
                    ErrorCode,
                >(Event::Sync) && final(self).input_data == Some(b) && final(self).output_data
                    is None) || (old(input).pending() matches Some(Err(e)) && r == Err::<
                    Event,
                    ErrorCode,
                >(e))))
                &&& (!old(output).spec_is_finished() && old(output).spec_can_push() && old(self).output_data is None && old(self).input_data is None && old(input).spec_is_finished() && !old(input).spec_has_data() ==> r == Ok::<Event, ErrorCode>(
                    Event::Finished,
                ) && final(self).done && final(output).fin_flag() && final(output).pending() == old(output).pending())
                &&& (!old(output).spec_is_finished() && old(output).spec_can_push() && old(self).output_data is None && old(self).input_data is None && !old(input).spec_is_finished() && !old(input).spec_has_data() ==> r == Ok::<Event, ErrorCode>(
                    Event::NeedData,
                ) && final(input).need_flag() && *final(output) == *old(output) && *final(self)
                    == *old(self))
            },
    {
        if self.done {
            return Ok(Event::Finished);
        }
        if output.is_finished() {
            input.finish();
            self.done = true;
            return Ok(Event::Finished);
        }
        if !output.can_push() {
            return Ok(Event::NeedConsume);
        }
        let pending_out = self.output_data.take();
        if let Some(b) = pending_out {
            output.push_data(Ok(b));
            return Ok(Event::NeedConsume);
        }
        if self.input_data.is_some() {
            return Ok(Event::Sync);
        }
        if input.has_data() {
            match input.pull_data() {
                Some(Ok(b)) => {
                    self.input_data = Some(b);
                    return Ok(Event::Sync);
                },
                Some(Err(e)) => {
                    return Err(e);
                },
                None => {
                    return Err(ErrorCode::LogicalError(String::from_str(
                        "a port reported data it did not hold",
                    )));
                },
            }
        }
        if input.is_finished() {
            output.finish();
            self.done = true;
            return Ok(Event::Finished);
        }
        input.set_need_data();
        Ok(Event::NeedData)
    }

    /// Applies the transformation to the pending input batch, clearing it
    /// and recording the result; with nothing pending this is a successful
    /// no-op. A failing evaluation is handed back as the stage's error.
    pub fn process(&mut self) -> (r: Result<(), ErrorCode>)
        ensures
            old(self).input_data is None ==> r == Ok::<(), ErrorCode>(()) && *final(self) == *old(self),
            old(self).input_data matches Some(b) ==> final(self).input_data is None && final(self).kind == old(self).kind && final(self).done == old(self).done && (old(self).kind matches TransformKind::Filter(p) ==> ((r is Ok <==> spec_pred_total(p, b@)) && (
            r is Ok ==> (final(self).output_data matches Some(o) && spec_filter_out(p, b@, o@)))))
                && (old(self).kind matches TransformKind::Project(es) ==> ((r is Ok
                <==> spec_project_ok(es@, b@)) && (r is Ok ==> (final(self).output_data
                matches Some(o) && spec_project_out(es@, b@, o@))))),
    {
        let pending = self.input_data.take();
        if let Some(b) = pending {
            let out = match &self.kind {
                TransformKind::Filter(pred) => filter_block(pred, &b),
                TransformKind::Project(exprs) => project_block(exprs, &b),
            };
            match out {
                Ok(o) => {
                    self.output_data = Some(o);
                },
                Err(e) => {
                    return Err(e);
                },
            }
        }
        Ok(())
    }
}

/// The fan adapter between two stages of different widths: pulls from any
/// of its inputs and pushes to any output that can accept, one batch at a
/// time. `resize(1)` before final aggregation is the single point where
/// parallel partial lanes converge.
pub struct ResizeProcessor {
    pub slot: Option<DataBlock>,
    pub done: bool,
}

impl ResizeProcessor {
    pub fn create() -> (r: ResizeProcessor)
        ensures
            !r.done,
            r.slot is None,
    {
        ResizeProcessor { slot: None, done: false }
    }

    /// Moves one batch one hop per call: a call either pulls one batch from
    /// a ready input into the slot, or pushes the held batch to a ready
    /// output; a held batch is never dropped and never invented.
    pub fn event(
        &mut self,
        ports: &mut Vec<Port>,
        ins: &Vec<usize>,
        outs: &Vec<usize>,
    ) -> (r: Result<Event, ErrorCode>)
        requires
            forall|j: int| 0 <= j < ins@.len() ==> ins@[j] < old(ports)@.len(),
            forall|j: int| 0 <= j < outs@.len() ==> outs@[j] < old(ports)@.len(),
        ensures
            final(ports)@.len() == old(ports)@.len(),
            r == Ok::<Event, ErrorCode>(Event::Finished) ==> final(self).done,
            old(self).done ==> r == Ok::<Event, ErrorCode>(Event::Finished) && *final(self)
                == *old(self) && final(ports)@ == old(ports)@,
            old(self).slot matches Some(b) ==> (final(self).slot == Some(b) || (exists|j: int|
                0 <= j < outs@.len() && final(ports)@[outs@[j] as int].pending() == Some(
                    Ok::<DataBlock, ErrorCode>(b),
                ))),
            final(self).slot matches Some(b) ==> (old(self).slot is None ==> (exists|j: int|
                0 <= j < ins@.len() && old(ports)@[ins@[j] as int].pending() == Some(
                    Ok::<DataBlock, ErrorCode>(b),
                )) && r == Ok::<Event, ErrorCode>(Event::Sync)),
    {
        let n = ports.len();
        if self.done {
            return Ok(Event::Finished);
        }
        if self.slot.is_none() {
            let mut j: usize = 0;
            while j < ins.len()
                invariant
                    j <= ins@.len(),
                    n == ports@.len(),
                    ports@.len() == old(ports)@.len(),
                    ports@ == old(ports)@,
                    !old(self).done,
                    old(self).slot is None,
                    *self == *old(self),
                    forall|t: int| 0 <= t < ins@.len() ==> ins@[t] < ports@.len(),
                    forall|t: int| 0 <= t < outs@.len() ==> outs@[t] < ports@.len(),
                decreases ins@.len() - j,
            {
                let ix = ins[j];
                if ports[ix].has_data() {
                    match ports[ix].pull_data() {
                        Some(Ok(b)) => {
                            proof {
                                assert(old(ports)@[ins@[j as int] as int].pending() == Some(
                                    Ok::<DataBlock, ErrorCode>(b),
                                ));
                            }
                            self.slot = Some(b);
                            return Ok(Event::Sync);
                        },
                        Some(Err(e)) => {
                            return Err(e);
                        },
                        None => {
                            return Err(ErrorCode::LogicalError(String::from_str(
                                "a port reported data it did not hold",
                            )));
                        },
                    }
                }
                j += 1;
            }
        } else {
            let mut j: usize = 0;
            while j < outs.len()
                invariant
                    j <= outs@.len(),
                    n == ports@.len(),
                    ports@.len() == old(ports)@.len(),
                    self.slot == old(self).slot,
                    self.slot is Some,
                    !self.done,
                    !old(self).done,
                    old(self).slot is Some,
                    forall|t: int| 0 <= t < ins@.len() ==> ins@[t] < ports@.len(),
                    forall|t: int| 0 <= t < outs@.len() ==> outs@[t] < ports@.len(),
                decreases outs@.len() - j,
            {
                let ox = outs[j];
                if ports[ox].can_push() {
                    let taken = self.slot.take();
                    if let Some(b) = taken {
                        ports[ox].push_data(Ok(b));
                        proof {
                            assert(ports@[outs@[j as int] as int].pending() == Some(
                                Ok::<DataBlock, ErrorCode>(b),
                            ));
                        }
                    }
                    return Ok(Event::NeedConsume);
                }
                j += 1;
            }
            return Ok(Event::NeedConsume);
        }
        let mut all_fin = true;
        let mut j: usize = 0;
        while j < ins.len()
            invariant
                j <= ins@.len(),
                n == ports@.len(),
                ports@.len() == old(ports)@.len(),
                !old(self).done,
                old(self).slot is None,
                *self == *old(self),
                forall|t: int| 0 <= t < ins@.len() ==> ins@[t] < ports@.len(),
                forall|t: int| 0 <= t < outs@.len() ==> outs@[t] < ports@.len(),
            decreases ins@.len() - j,
        {
            let ix = ins[j];
            if !ports[ix].is_finished() {
                all_fin = false;
                ports[ix].set_need_data();
            }
            j += 1;
        }
        if all_fin {
            let mut j2: usize = 0;
            while j2 < outs.len()
                invariant
                    j2 <= outs@.len(),
                    n == ports@.len(),
                    ports@.len() == old(ports)@.len(),
                    !old(self).done,
                    old(self).slot is None,
                    *self == *old(self),
                    forall|t: int| 0 <= t < outs@.len() ==> outs@[t] < ports@.len(),
                decreases outs@.len() - j2,
            {
                let ox = outs[j2];
                ports[ox].finish();
                j2 += 1;
            }
            self.done = true;
            return Ok(Event::Finished);
        }
        Ok(Event::NeedData)
    }
}

/// The closed set of processors a pipeline is built from.
pub enum ProcessorImpl {
    Source(BlocksSource),
    Transform(Transformer),
    Aggregate(AggregatorTransform<AggregatorImpl>),
    Resize(ResizeProcessor),
    Sink(SinkProcessor),
}

impl ProcessorImpl {
    pub open spec fn inv(&self) -> bool {
        match self {
            ProcessorImpl::Aggregate(t) => t.inv(),
            _ => true,
        }
    }
}

/// One stage of a pipeline: a set of parallel processors, or a change of
/// lane width between two stages.
pub enum NewPipe {
    SimplePipe { processors: Vec<ProcessorImpl>, has_inputs: bool },
    ResizePipe { to: usize },
}

/// The number of lanes a pipe presents to the stage after it.
pub open spec fn spec_pipe_out_len(pipe: NewPipe) -> int {
    match pipe {
        NewPipe::SimplePipe { processors, .. } => processors@.len() as int,
        NewPipe::ResizePipe { to } => to as int,
    }
}

/// The processors a pipe carries; a resize pipe carries none of its own.
pub open spec fn spec_stage_processors(pipe: NewPipe) -> Seq<ProcessorImpl> {
    match pipe {
        NewPipe::SimplePipe { processors, .. } => processors@,
        NewPipe::ResizePipe { .. } => Seq::empty(),
    }
}

/// A stage consuming the lanes before it.
pub open spec fn spec_is_transform_stage(pipe: NewPipe) -> bool {
    pipe matches NewPipe::SimplePipe { has_inputs: true, .. }
}

/// A stage opening fresh lanes.
pub open spec fn spec_is_source_stage(pipe: NewPipe) -> bool {
    pipe matches NewPipe::SimplePipe { has_inputs: false, .. }
}

/// Whether a pipeline with `output_len` open lanes accepts this pipe next:
/// a source pipe only opens a pipeline, a consuming pipe must match the
/// lanes before it, and only an open pipeline can be resized.
pub open spec fn spec_pipe_accepted(pipe: NewPipe, output_len: int) -> bool {
    match pipe {
        NewPipe::SimplePipe { processors, has_inputs } => if has_inputs {
            processors@.len() == output_len
        } else {
            output_len == 0
        },
        NewPipe::ResizePipe { to } => output_len != 0,
    }
}

/// An ordered list of pipes forming the dataflow graph from the sources to
/// the sink; adjacent pipes must agree on the number of lanes, and resize
/// pipes exist precisely to change it.
pub struct NewPipeline {
    pub pipes: Vec<NewPipe>,
    pub output_len: usize,
}

impl NewPipeline {
    pub fn create() -> (r: NewPipeline)
        ensures
            r.pipes@.len() == 0,
            r.output_len == 0,
    {
        NewPipeline { pipes: Vec::new(), output_len: 0 }
    }

    /// Appends one pipe; a source pipe opens lanes, a consuming pipe must
    /// match the lanes of the stage before it.
    pub fn add_pipe(&mut self, pipe: NewPipe) -> (r: Result<(), ErrorCode>)
        ensures
            r is Ok <==> spec_pipe_accepted(pipe, old(self).output_len as int),
            r is Ok ==> final(self).pipes@ == old(self).pipes@.push(pipe) && final(self).output_len as int == spec_pipe_out_len(pipe),
            r is Err ==> *final(self) == *old(self),
            r matches Err(e) ==> e is LogicalError,
    {
        match &pipe {
            NewPipe::SimplePipe { processors, has_inputs } => {
                let lanes = processors.len();
                if *has_inputs {
                    if lanes != self.output_len {
                        return Err(ErrorCode::LogicalError(String::from_str(
                            "pipe lanes do not match the stage before it",
                        )));
                    }
                } else {
                    if self.output_len != 0 {
                        return Err(ErrorCode::LogicalError(String::from_str(
                            "a source pipe may only open a pipeline",
                        )));
                    }
                }
                self.output_len = lanes;
                self.pipes.push(pipe);
                Ok(())
            },
            NewPipe::ResizePipe { to } => {
                if self.output_len == 0 {
                    return Err(ErrorCode::LogicalError(String::from_str(
                        "nothing to resize at the head of a pipeline",
                    )));
                }
                self.output_len = *to;
                self.pipes.push(pipe);
                Ok(())
            },
        }
    }

    /// Appends one transform stage, one processor per current lane.
    pub fn add_transform(&mut self, processors: Vec<ProcessorImpl>) -> (r: Result<(), ErrorCode>)
        ensures
            r is Ok <==> processors@.len() == old(self).output_len,
            r is Ok ==> final(self).pipes@ == old(self).pipes@.push(
                NewPipe::SimplePipe { processors, has_inputs: true },
            ) && final(self).output_len == old(self).output_len,
            r is Err ==> *final(self) == *old(self),
            r matches Err(e) ==> e is LogicalError,
    {
        self.add_pipe(NewPipe::SimplePipe { processors, has_inputs: true })
    }

    /// Changes the number of parallel lanes by inserting a fan adapter;
    /// `resize(1)` collapses parallel partial-aggregation lanes into the
    /// single lane a final aggregation requires.
    pub fn resize(&mut self, to: usize) -> (r: Result<(), ErrorCode>)
        ensures
            r is Ok <==> (to != 0 && old(self).output_len != 0),
            r is Ok ==> final(self).pipes@ == old(self).pipes@.push(NewPipe::ResizePipe { to })
                && final(self).output_len == to,
            r is Err ==> *final(self) == *old(self),
            r matches Err(e) ==> e is LogicalError,
    {
        if to == 0 {
            return Err(ErrorCode::LogicalError(String::from_str(
                "a pipeline cannot be resized to no lanes",
            )));
        }
        self.add_pipe(NewPipe::ResizePipe { to })
    }
}

} // verus!
