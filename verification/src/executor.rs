use vstd::pervasive::VecAdditionalExecFns;
use vstd::prelude::*;
use vstd::string::StringExecFns;

use crate::block::DataBlock;
use crate::error::ErrorCode;
use crate::pipeline::{NewPipe, NewPipeline, ProcessorImpl, ResizeProcessor, SinkProcessor};
use crate::port::Port;
use crate::transform_aggregator::Event;

verus! {

/// Takes the port at `i` out of the graph, leaving a fresh placeholder, so
/// that a processor can hold two ports at once.
fn take_port(ports: &mut Vec<Port>, i: usize) -> (p: Port)
    requires
        i < old(ports)@.len(),
    ensures
        final(ports)@.len() == old(ports)@.len(),
        p == old(ports)@[i as int],
        forall|j: int|
            0 <= j < old(ports)@.len() && j != i ==> final(ports)@[j] == old(ports)@[j],
{
    let mut tmp = Port::create();
    ports.set_and_swap(i, &mut tmp);
    tmp
}

/// Puts a taken port back.
fn put_port(ports: &mut Vec<Port>, i: usize, p: Port)
    requires
        i < old(ports)@.len(),
    ensures
        final(ports)@.len() == old(ports)@.len(),
        final(ports)@[i as int] == p,
        forall|j: int|
            0 <= j < old(ports)@.len() && j != i ==> final(ports)@[j] == old(ports)@[j],
{
    ports.set(i, p);
}

/// Whether a processor may stand in a stage of this shape.
pub open spec fn spec_arity_ok(p: ProcessorImpl, has_inputs: bool) -> bool {
    match p {
        ProcessorImpl::Source(_) => !has_inputs,
        ProcessorImpl::Transform(_) => has_inputs,
        ProcessorImpl::Aggregate(_) => has_inputs,
        ProcessorImpl::Sink(_) => has_inputs,
        ProcessorImpl::Resize(_) => false,
    }
}

/// The lanes a stage leaves open: every processor but a sink opens one.
pub open spec fn spec_stage_out_lanes(processors: Seq<ProcessorImpl>) -> int
    decreases processors.len(),
{
    if processors.len() == 0 {
        0
    } else {
        spec_stage_out_lanes(processors.drop_last()) + (if processors.last() is Sink {
            0int
        } else {
            1int
        })
    }
}

/// Whether the pipes from position `i` on wire correctly after `lanes`
/// open lanes: a source pipe only at the head, consuming pipes matching the
/// lanes before them, every processor in a stage of its shape.
pub open spec fn spec_pipes_wire(pipes: Seq<NewPipe>, lanes: int, i: int) -> bool
    decreases pipes.len() - i,
{
    if i < 0 || i >= pipes.len() {
        true
    } else {
        match pipes[i] {
            NewPipe::SimplePipe { processors, has_inputs } => (if has_inputs {
                processors@.len() == lanes
            } else {
                lanes == 0
            }) && (forall|j: int|
                0 <= j < processors@.len() ==> spec_arity_ok(
                    #[trigger] processors@[j],
                    has_inputs,
                )) && spec_pipes_wire(pipes, spec_stage_out_lanes(processors@), i + 1),
            NewPipe::ResizePipe { to } => spec_pipes_wire(pipes, to as int, i + 1),
        }
    }
}

/// The pipe is a simple stage with exactly these processors and shape.
pub open spec fn spec_is_stage(pipe: NewPipe, procs: Seq<ProcessorImpl>, hi: bool) -> bool {
    pipe matches NewPipe::SimplePipe { processors, has_inputs } && processors@ == procs
        && has_inputs == hi
}

proof fn lemma_stage_out_lanes_take(procs: Seq<ProcessorImpl>, lane: int)
    requires
        0 <= lane < procs.len(),
    ensures
        spec_stage_out_lanes(procs.take(lane + 1)) == spec_stage_out_lanes(procs.take(lane)) + (
        if procs[lane] is Sink {
            0int
        } else {
            1int
        }),
{
    assert(procs.take(lane + 1).drop_last() =~= procs.take(lane));
    assert(procs.take(lane + 1).last() == procs[lane]);
}

/// The cooperative driver: owns the processors of a pipeline, the ports
/// wiring them, and the port indices each processor reads and writes. It
/// repeatedly polls processor status and dispatches synchronous work until
/// the whole graph reports finished; no call blocks, and a stalled
/// processor simply yields its turn.
pub struct PipelineExecutor {
    pub processors: Vec<ProcessorImpl>,
    pub in_ports: Vec<Vec<usize>>,
    pub out_ports: Vec<Vec<usize>>,
    pub ports: Vec<Port>,
    pub finished: Vec<bool>,
}

impl PipelineExecutor {
    pub open spec fn wf(&self) -> bool {
        &&& self.in_ports@.len() == self.processors@.len()
        &&& self.out_ports@.len() == self.processors@.len()
        &&& self.finished@.len() == self.processors@.len()
        &&& forall|p: int, j: int|
            0 <= p < self.in_ports@.len() && 0 <= j < self.in_ports@[p]@.len() ==> (
            #[trigger] self.in_ports@[p]@[j]) < self.ports@.len()
        &&& forall|p: int, j: int|
            0 <= p < self.out_ports@.len() && 0 <= j < self.out_ports@[p]@.len() ==> (
            #[trigger] self.out_ports@[p]@[j]) < self.ports@.len()
        &&& forall|p: int|
            0 <= p < self.processors@.len() ==> match #[trigger] self.processors@[p] {
                ProcessorImpl::Source(_) => self.in_ports@[p]@.len() == 0 && self.out_ports@[
                p]@.len() == 1,
                ProcessorImpl::Transform(_) => self.in_ports@[p]@.len() == 1 && self.out_ports@[
                p]@.len() == 1,
                ProcessorImpl::Aggregate(_) => self.in_ports@[p]@.len() == 1 && self.out_ports@[
                p]@.len() == 1,
                ProcessorImpl::Resize(_) => true,
                ProcessorImpl::Sink(_) => self.in_ports@[p]@.len() == 1 && self.out_ports@[
                p]@.len() == 0,
            }
        &&& forall|p: int|
            0 <= p < self.processors@.len() ==> (#[trigger] self.processors@[p]).inv()
    }

    /// Materialises a pipeline into a runnable graph: each stage's
    /// processors are wired to the ports of the stage before it, a fan
    /// adapter realises each resize, and a collecting sink is appended
    /// after the last stage.
    pub fn create(pipeline: NewPipeline) -> (r: Result<PipelineExecutor, ErrorCode>)
        requires
            forall|i: int|
                0 <= i < pipeline.pipes@.len() ==> match #[trigger] pipeline.pipes@[i] {
                    NewPipe::SimplePipe { processors, .. } => forall|j: int|
                        0 <= j < processors@.len() ==> (#[trigger] processors@[j]).inv(),
                    NewPipe::ResizePipe { .. } => true,
                },
        ensures
            r matches Ok(ex) ==> ex.wf() && (forall|p: int|
                0 <= p < ex.finished@.len() ==> !(#[trigger] ex.finished@[p])),
            r is Ok <==> spec_pipes_wire(pipeline.pipes@, 0, 0),
            r matches Err(e) ==> e is LogicalError,
    {
        let ghost allpipes = pipeline.pipes@;
        let mut ex = PipelineExecutor {
            processors: Vec::new(),
            in_ports: Vec::new(),
            out_ports: Vec::new(),
            ports: Vec::new(),
            finished: Vec::new(),
        };
        let mut prev: Vec<usize> = Vec::new();
        let mut pipes = pipeline.pipes;
        let npipes = pipes.len();
        let mut i: usize = 0;
        while i < npipes
            invariant
                i <= npipes,
                allpipes == pipeline.pipes@,
                npipes == allpipes.len(),
                pipes@ == allpipes.skip(i as int),
                pipes@.len() + i == npipes,
                spec_pipes_wire(allpipes, 0, 0) == spec_pipes_wire(
                    allpipes,
                    prev@.len() as int,
                    i as int,
                ),
                ex.wf(),
                forall|p: int| 0 <= p < ex.finished@.len() ==> !(#[trigger] ex.finished@[p]),
                forall|j: int| 0 <= j < prev@.len() ==> (#[trigger] prev@[j]) < ex.ports@.len(),
                forall|t: int|
                    0 <= t < pipes@.len() ==> match #[trigger] pipes@[t] {
                        NewPipe::SimplePipe { processors, .. } => forall|j: int|
                            0 <= j < processors@.len() ==> (#[trigger] processors@[j]).inv(),
                        NewPipe::ResizePipe { .. } => true,
                    },
            decreases npipes - i,
        {
            let ghost lanes0 = prev@.len() as int;
            let pipe = pipes.remove(0);
            let ghost cur = allpipes[i as int];
            proof {
                assert(allpipes.skip(i as int)[0] == allpipes[i as int]);
                assert(pipe == cur);
                assert(pipes@ =~= allpipes.skip(i + 1 as int));
            }
            match pipe {
                NewPipe::SimplePipe { processors, has_inputs } => {
                    let ghost all_procs = processors@;
                    let mut procs = processors;
                    if has_inputs && procs.len() != prev.len() {
                        proof {
                            assert(!spec_pipes_wire(allpipes, lanes0, i as int));
                        }
                        return Err(ErrorCode::LogicalError(String::from_str(
                            "pipe lanes do not match the stage before it",
                        )));
                    }
                    if !has_inputs && prev.len() != 0 {
                        proof {
                            assert(!spec_pipes_wire(allpipes, lanes0, i as int));
                        }
                        return Err(ErrorCode::LogicalError(String::from_str(
                            "a source pipe may only open a pipeline",
                        )));
                    }
                    let mut next: Vec<usize> = Vec::new();
                    let mut lane: usize = 0;
                    let nlanes = procs.len();
                    while lane < nlanes
                        invariant
                            lane <= nlanes,
                            i < npipes,
                            allpipes == pipeline.pipes@,
                            npipes == allpipes.len(),
                            lanes0 == prev@.len() as int,
                            has_inputs ==> lanes0 == nlanes as int,
                            cur == allpipes[i as int],
                            spec_is_stage(cur, all_procs, has_inputs),
                            spec_pipes_wire(allpipes, 0, 0) == spec_pipes_wire(
                                allpipes,
                                lanes0,
                                i as int,
                            ),
                            has_inputs ==> all_procs.len() == lanes0,
                            all_procs.len() == nlanes,
                            ex.wf(),
                            forall|p: int|
                                0 <= p < ex.finished@.len() ==> !(#[trigger] ex.finished@[p]),
                            nlanes == procs@.len() + lane,
                            procs@ == all_procs.skip(lane as int),
                            next@.len() == spec_stage_out_lanes(all_procs.take(lane as int)),
                            forall|j: int|
                                0 <= j < lane ==> spec_arity_ok(
                                    #[trigger] all_procs[j],
                                    has_inputs,
                                ),
                            has_inputs ==> nlanes == prev@.len(),
                            forall|j: int|
                                0 <= j < prev@.len() ==> (#[trigger] prev@[j]) < ex.ports@.len(),
                            forall|j: int|
                                0 <= j < next@.len() ==> (#[trigger] next@[j]) < ex.ports@.len(),
                            forall|j: int|
                                0 <= j < procs@.len() ==> (#[trigger] procs@[j]).inv(),
                        decreases nlanes - lane,
                    {
                        let proc = procs.remove(0);
                        proof {
                            assert(all_procs.skip(lane as int)[0] == all_procs[lane as int]);
                            assert(proc == all_procs[lane as int]);
                            assert(procs@ =~= all_procs.skip(lane + 1 as int));
                            lemma_stage_out_lanes_take(all_procs, lane as int);
                        }
                        let mut ins: Vec<usize> = Vec::new();
                        let mut outs: Vec<usize> = Vec::new();
                        let arity_ok = match &proc {
                            ProcessorImpl::Source(_) => !has_inputs,
                            ProcessorImpl::Transform(_) => has_inputs,
                            ProcessorImpl::Aggregate(_) => has_inputs,
                            ProcessorImpl::Sink(_) => has_inputs,
                            ProcessorImpl::Resize(_) => false,
                        };
                        if !arity_ok {
                            proof {
                                assert(!spec_arity_ok(all_procs[lane as int], has_inputs));
                                assert(!spec_pipes_wire(allpipes, lanes0, i as int));
                            }
                            return Err(ErrorCode::LogicalError(String::from_str(
                                "a processor stands in a stage of the wrong shape",
                            )));
                        }
                        if has_inputs {
                            ins.push(prev[lane]);
                        }
                        let is_sink = match &proc {
                            ProcessorImpl::Sink(_) => true,
                            _ => false,
                        };
                        if !is_sink {
                            let newport = ex.ports.len();
                            ex.ports.push(Port::create());
                            outs.push(newport);
                            next.push(newport);
                        }
                        ex.processors.push(proc);
                        ex.in_ports.push(ins);
                        ex.out_ports.push(outs);
                        ex.finished.push(false);
                        lane += 1;
                    }
                    proof {
                        assert(all_procs.take(nlanes as int) =~= all_procs);
                        assert(spec_pipes_wire(allpipes, lanes0, i as int) == spec_pipes_wire(
                            allpipes,
                            spec_stage_out_lanes(all_procs),
                            i + 1,
                        ));
                    }
                    prev = next;
                },
                NewPipe::ResizePipe { to } => {
                    let mut outs: Vec<usize> = Vec::new();
                    let mut next: Vec<usize> = Vec::new();
                    let mut k: usize = 0;
                    while k < to
                        invariant
                            k <= to,
                            i < npipes,
                            allpipes == pipeline.pipes@,
                            npipes == allpipes.len(),
                            lanes0 == prev@.len() as int,
                            cur == allpipes[i as int],
                            cur == (NewPipe::ResizePipe { to }),
                            spec_pipes_wire(allpipes, 0, 0) == spec_pipes_wire(
                                allpipes,
                                lanes0,
                                i as int,
                            ),
                            ex.wf(),
                            forall|p: int|
                                0 <= p < ex.finished@.len() ==> !(#[trigger] ex.finished@[p]),
                            outs@.len() == k,
                            next@.len() == k,
                            forall|j: int|
                                0 <= j < prev@.len() ==> (#[trigger] prev@[j]) < ex.ports@.len(),
                            forall|j: int|
                                0 <= j < outs@.len() ==> (#[trigger] outs@[j]) < ex.ports@.len(),
                            forall|j: int|
                                0 <= j < next@.len() ==> (#[trigger] next@[j]) < ex.ports@.len(),
                        decreases to - k,
                    {
                        let newport = ex.ports.len();
                        ex.ports.push(Port::create());
                        outs.push(newport);
                        next.push(newport);
                        k += 1;
                    }
                    ex.processors.push(ProcessorImpl::Resize(ResizeProcessor::create()));
                    ex.in_ports.push(prev);
                    ex.out_ports.push(outs);
                    ex.finished.push(false);
                    proof {
                        assert(spec_pipes_wire(allpipes, lanes0, i as int) == spec_pipes_wire(
                            allpipes,
                            to as int,
                            i + 1,
                        ));
                    }
                    prev = next;
                },
            }
            i += 1;
        }
        proof {
            assert(spec_pipes_wire(allpipes, prev@.len() as int, npipes as int));
        }
        // Converge whatever is left and collect it in a sink.
        if prev.len() > 1 {
            let mut outs: Vec<usize> = Vec::new();
            let newport = ex.ports.len();
            ex.ports.push(Port::create());
            outs.push(newport);
            let mut next: Vec<usize> = Vec::new();
            next.push(newport);
            ex.processors.push(ProcessorImpl::Resize(ResizeProcessor::create()));
            ex.in_ports.push(prev);
            ex.out_ports.push(outs);
            ex.finished.push(false);
            prev = next;
        }
        if prev.len() == 1 {
            let mut ins: Vec<usize> = Vec::new();
            ins.push(prev[0]);
            ex.processors.push(ProcessorImpl::Sink(SinkProcessor::create()));
            ex.in_ports.push(ins);
            ex.out_ports.push(Vec::new());
            ex.finished.push(false);
        }
        Ok(ex)
    }

    /// Polls one processor and dispatches according to its status.
    fn step_processor(&mut self, p: usize) -> (r: Result<(), ErrorCode>)
        requires
            old(self).wf(),
            p < old(self).processors@.len(),
        ensures
            final(self).wf(),
            final(self).processors@.len() == old(self).processors@.len(),
            final(self).finished@.len() == old(self).finished@.len(),
            forall|q: int|
                0 <= q < old(self).finished@.len() && old(self).finished@[q] ==> #[trigger] final(self).finished@[q],
    {
        let ghost pre = *self;
        let kind: u8 = match &self.processors[p] {
            ProcessorImpl::Source(_) => 0,
            ProcessorImpl::Transform(_) => 1,
            ProcessorImpl::Aggregate(_) => 2,
            ProcessorImpl::Resize(_) => 3,
            ProcessorImpl::Sink(_) => 4,
        };
        let ev: Event = if kind == 0 {
            {
                let oi = self.out_ports[p][0];
                let mut port = take_port(&mut self.ports, oi);
                let mut proc = match self.processors.remove(p) {
                    ProcessorImpl::Source(s) => s,
                    _ => {
                        return Err(ErrorCode::LogicalError(String::from_str(
                            "a processor changed its kind",
                        )));
                    },
                };
                let res = proc.event(&mut port);
                self.processors.insert(p, ProcessorImpl::Source(proc));
                put_port(&mut self.ports, oi, port);
                match res {
                    Ok(e) => e,
                    Err(e) => {
                        return Err(e);
                    },
                }
            }
        } else if kind == 4 {
            {
                let ii = self.in_ports[p][0];
                let mut port = take_port(&mut self.ports, ii);
                let mut proc = match self.processors.remove(p) {
                    ProcessorImpl::Sink(s) => s,
                    _ => {
                        return Err(ErrorCode::LogicalError(String::from_str(
                            "a processor changed its kind",
                        )));
                    },
                };
                let res = proc.event(&mut port);
                self.processors.insert(p, ProcessorImpl::Sink(proc));
                put_port(&mut self.ports, ii, port);
                match res {
                    Ok(e) => e,
                    Err(e) => {
                        return Err(e);
                    },
                }
            }
        } else if kind == 1 {
            {
                let ii = self.in_ports[p][0];
                let oi = self.out_ports[p][0];
                if ii == oi {
                    return Err(ErrorCode::LogicalError(String::from_str(
                        "a processor is wired to itself",
                    )));
                }
                let mut inp = take_port(&mut self.ports, ii);
                let mut outp = take_port(&mut self.ports, oi);
                let mut proc = match self.processors.remove(p) {
                    ProcessorImpl::Transform(t) => t,
                    _ => {
                        return Err(ErrorCode::LogicalError(String::from_str(
                            "a processor changed its kind",
                        )));
                    },
                };
                let res = proc.event(&mut inp, &mut outp);
                let res2 = match res {
                    Ok(Event::Sync) => match proc.process() {
                        Ok(()) => Ok(Event::Sync),
                        Err(e) => Err(e),
                    },
                    other => other,
                };
                self.processors.insert(p, ProcessorImpl::Transform(proc));
                put_port(&mut self.ports, ii, inp);
                put_port(&mut self.ports, oi, outp);
                match res2 {
                    Ok(e) => e,
                    Err(e) => {
                        return Err(e);
                    },
                }
            }
        } else if kind == 2 {
            {
                let ii = self.in_ports[p][0];
                let oi = self.out_ports[p][0];
                if ii == oi {
                    return Err(ErrorCode::LogicalError(String::from_str(
                        "a processor is wired to itself",
                    )));
                }
                let mut inp = take_port(&mut self.ports, ii);
                let mut outp = take_port(&mut self.ports, oi);
                let mut proc = match self.processors.remove(p) {
                    ProcessorImpl::Aggregate(t) => t,
                    _ => {
                        return Err(ErrorCode::LogicalError(String::from_str(
                            "a processor changed its kind",
                        )));
                    },
                };
                let res = proc.event(&mut inp, &mut outp);
                let res2 = match res {
                    Ok(Event::Sync) => match proc.process() {
                        Ok(()) => Ok(Event::Sync),
                        Err(e) => Err(e),
                    },
                    other => other,
                };
                self.processors.insert(p, ProcessorImpl::Aggregate(proc));
                put_port(&mut self.ports, ii, inp);
                put_port(&mut self.ports, oi, outp);
                match res2 {
                    Ok(e) => e,
                    Err(e) => {
                        return Err(e);
                    },
                }
            }
        } else {
            {
                let mut proc = match self.processors.remove(p) {
                    ProcessorImpl::Resize(t) => t,
                    _ => {
                        return Err(ErrorCode::LogicalError(String::from_str(
                            "a processor changed its kind",
                        )));
                    },
                };
                let ghost preports = self.ports@;
                let ins = self.in_ports.remove(p);
                let outs = self.out_ports.remove(p);
                let res = proc.event(&mut self.ports, &ins, &outs);
                self.processors.insert(p, ProcessorImpl::Resize(proc));
                self.in_ports.insert(p, ins);
                self.out_ports.insert(p, outs);
                match res {
                    Ok(e) => e,
                    Err(e) => {
                        return Err(e);
                    },
                }
            }
        };
        if ev == Event::Finished {
            self.finished.set(p, true);
        }
        Ok(())
    }

    /// Drives the graph until every processor reports finished, polling each
    /// processor once per round, or gives up after `max_rounds` rounds. A
    /// processor once finished stays finished. The run fails only when a
    /// processor hands an error up or the round budget runs out; on success
    /// every processor has retired.
    pub fn execute(&mut self, max_rounds: usize) -> (r: Result<(), ErrorCode>)
        requires
            old(self).wf(),
        ensures
            final(self).wf(),
            final(self).processors@.len() == old(self).processors@.len(),
            final(self).finished@.len() == old(self).finished@.len(),
            forall|p: int|
                0 <= p < old(self).finished@.len() && old(self).finished@[p] ==> #[trigger] final(self).finished@[p],
            r is Ok ==> forall|p: int|
                0 <= p < final(self).finished@.len() ==> #[trigger] final(self).finished@[p],
    {
        let mut round: usize = 0;
        while round < max_rounds
            invariant
                self.wf(),
                self.processors@.len() == old(self).processors@.len(),
                self.finished@.len() == old(self).finished@.len(),
                forall|p: int|
                    0 <= p < old(self).finished@.len() && old(self).finished@[p]
                        ==> #[trigger] self.finished@[p],
            decreases max_rounds - round,
        {
            let mut all_done = true;
            let n = self.processors.len();
            let mut p: usize = 0;
            while p < n
                invariant
                    p <= n,
                    self.wf(),
                    n == self.processors@.len(),
                    self.processors@.len() == old(self).processors@.len(),
                    self.finished@.len() == old(self).finished@.len(),
                    forall|t: int|
                        0 <= t < old(self).finished@.len() && old(self).finished@[t]
                            ==> #[trigger] self.finished@[t],
                    all_done ==> forall|t: int| 0 <= t < p ==> #[trigger] self.finished@[t],
                decreases n - p,
            {
                if !self.finished[p] {
                    all_done = false;
                    match self.step_processor(p) {
                        Ok(()) => {},
                        Err(e) => {
                            return Err(e);
                        },
                    }
                    all_done = false;
                }
                proof {
                    assert(self.finished@.len() == self.processors@.len());
                }
                if p >= self.processors.len() {
                    return Err(ErrorCode::LogicalError(String::from_str(
                        "the processor set changed while running",
                    )));
                }
                p += 1;
            }
            if all_done {
                return Ok(());
            }
            round += 1;
        }
        Err(ErrorCode::UnexpectedError(String::from_str(
            "the pipeline did not finish within its round budget",
        )))
    }

    /// The batches the pipeline's sinks collected, concatenated in
    /// processor order.
    pub fn sink_blocks(self) -> (r: Vec<DataBlock>)
        ensures
            r@.map_values(|b: DataBlock| b@) == spec_sink_blocks(self.processors@),
    {
        let ghost target = spec_sink_blocks(self.processors@);
        let mut out: Vec<DataBlock> = Vec::new();
        let mut procs = self.processors;
        while procs.len() > 0
            invariant
                out@.map_values(|b: DataBlock| b@) + spec_sink_blocks(procs@) == target,
            decreases procs@.len(),
        {
            let ghost procs0 = procs@;
            let proc = procs.remove(0);
            proof {
                assert(procs@ =~= procs0.drop_first());
            }
            match proc {
                ProcessorImpl::Sink(s) => {
                    let mut collected = s.collected;
                    let ghost cv = collected@.map_values(|b: DataBlock| b@);
                    let ghost done = out@.map_values(|b: DataBlock| b@);
                    while collected.len() > 0
                        invariant
                            done + cv == out@.map_values(|b: DataBlock| b@) + collected@.map_values(
                                |b: DataBlock| b@,
                            ),
                        decreases collected@.len(),
                    {
                        let ghost col0 = collected@;
                        let b = collected.remove(0);
                        out.push(b);
                        proof {
                            assert(collected@ =~= col0.drop_first());
                            assert(out@.map_values(|b2: DataBlock| b2@) + collected@.map_values(
                                |b2: DataBlock| b2@,
                            ) =~= done + cv);
                        }
                    }
                    proof {
                        assert(collected@.map_values(|b2: DataBlock| b2@) =~= Seq::<
                            crate::block::DataBlockV,
                        >::empty());
                        assert(out@.map_values(|b2: DataBlock| b2@) =~= done + cv);
                        assert(spec_sink_blocks(procs0) == cv + spec_sink_blocks(procs@));
                        assert(out@.map_values(|b2: DataBlock| b2@) + spec_sink_blocks(procs@)
                            =~= target);
                    }
                },
                _ => {
                    proof {
                        assert(spec_sink_blocks(procs0) == spec_sink_blocks(procs@));
                    }
                },
            }
        }
        proof {
            assert(spec_sink_blocks(procs@) =~= Seq::<crate::block::DataBlockV>::empty());
            assert(out@.map_values(|b: DataBlock| b@) =~= target);
        }
        out
    }
}

/// The batches held by the sinks among these processors, in order.
pub open spec fn spec_sink_blocks(procs: Seq<ProcessorImpl>) -> Seq<crate::block::DataBlockV>
    decreases procs.len(),
{
    if procs.len() == 0 {
        Seq::empty()
    } else {
        (match procs[0] {
            ProcessorImpl::Sink(s) => s.collected@.map_values(|b: DataBlock| b@),
            _ => Seq::empty(),
        }) + spec_sink_blocks(procs.drop_first())
    }
}

} // verus!
