use vstd::prelude::*;
use vstd::string::StringExecFns;

use crate::aggregate_function::AggregateFunctionDesc;
use crate::aggregator_params::{AggregatorParams, HashMethodKind};
use crate::block::{ColumnType, DataBlock, DataField};
use crate::error::ErrorCode;
use crate::expression::Expression;
use crate::pipeline::{
    spec_is_source_stage, spec_is_transform_stage, spec_stage_processors, BlocksSource, NewPipe,
    NewPipeline, ProcessorImpl, TransformKind, Transformer,
};
use crate::transform_aggregator::{AggregatorImpl, AggregatorTransform, AggregatorTransformParams, Aggregator, TransformAggregator};

verus! {

/// A source of raw batches, one partition per parallel lane, with the
/// schema every partition's batches carry.
pub struct ReadDataSourcePlan {
    pub schema: Vec<DataField>,
    pub partitions: Vec<Vec<DataBlock>>,
}

pub struct FilterPlan {
    pub input: Box<PlanNode>,
    pub predicate: Expression,
}

pub struct ExpressionPlan {
    pub input: Box<PlanNode>,
    pub exprs: Vec<(String, Expression)>,
}

pub struct AggregatorPartialPlan {
    pub input: Box<PlanNode>,
    pub group_columns_name: Vec<String>,
    pub aggregate_functions: Vec<AggregateFunctionDesc>,
}

pub struct AggregatorFinalPlan {
    pub input: Box<PlanNode>,
    pub group_columns_name: Vec<String>,
    pub aggregate_functions: Vec<AggregateFunctionDesc>,
}

pub struct SelectPlan {
    pub input: Box<PlanNode>,
}

pub struct LimitPlan {
    pub input: Box<PlanNode>,
    pub n: usize,
}

/// The relational operators the builder can lower into pipeline stages.
/// Operators of the wider planner — projection, having, sort, limit-by,
/// explain — have no stage of their own here and are not part of this
/// enum; a limit node is carried but answers that no lowering exists.
pub enum PlanNode {
    ReadSource(ReadDataSourcePlan),
    Filter(FilterPlan),
    Expression(ExpressionPlan),
    AggregatorPartial(AggregatorPartialPlan),
    AggregatorFinal(AggregatorFinalPlan),
    Select(SelectPlan),
    Limit(LimitPlan),
}

/// A freshly created filter stage over this predicate.
pub open spec fn spec_fresh_filter(p: ProcessorImpl, pred: Expression) -> bool {
    p matches ProcessorImpl::Transform(t) && t.kind == TransformKind::Filter(pred) && !t.done
        && t.input_data is None && t.output_data is None
}

/// A freshly created projection stage over this many named expressions.
pub open spec fn spec_fresh_project(p: ProcessorImpl, n: int) -> bool {
    p matches ProcessorImpl::Transform(t) && (t.kind matches TransformKind::Project(es)
        && es@.len() == n) && !t.done && t.input_data is None && t.output_data is None
}

/// A freshly created aggregation transform in its consuming state, of the
/// phase and grouping form the plan prescribes.
pub open spec fn spec_fresh_aggregate(p: ProcessorImpl, partial: bool, grouped: bool) -> bool {
    p matches ProcessorImpl::Aggregate(t) && (t matches AggregatorTransform::ConsumeData(cs)
        && cs.input_data_block is None && cs.inner.consumed().len() == 0
        && cs.inner.produced().len() == 0 && spec_aggregate_form(cs.inner, partial, grouped))
}

/// The aggregator variant of one phase and grouping form.
pub open spec fn spec_aggregate_form(a: AggregatorImpl, partial: bool, grouped: bool) -> bool {
    if partial && !grouped {
        a is PartialSingleKey
    } else if partial && grouped {
        a is Partial
    } else if !partial && !grouped {
        a is FinalSingleKey
    } else {
        a is Final
    }
}

/// Builds a pipeline by walking a logical plan bottom-up: each visit first
/// recurses into the node's input, then appends one pipe wired to the
/// previous stage's lanes. A final-aggregation visit resizes to a single
/// lane first, the one point where parallel partial lanes converge.
pub struct QueryPipelineBuilder {
    pub pipeline: NewPipeline,
    pub schema: Vec<DataField>,
}

impl QueryPipelineBuilder {
    pub fn create() -> (r: QueryPipelineBuilder)
        ensures
            r.pipeline.pipes@.len() == 0,
    {
        QueryPipelineBuilder { pipeline: NewPipeline::create(), schema: Vec::new() }
    }

    /// Lowers a whole select plan and hands the finished pipeline over.
    pub fn finalize(self, plan: &SelectPlan) -> (r: Result<NewPipeline, ErrorCode>)
        ensures
            r matches Ok(p) ==> self.pipeline.pipes@.is_prefix_of(p.pipes@) && p.pipes@.len()
                > self.pipeline.pipes@.len(),
    {
        let mut this = self;
        match this.visit_select(plan) {
            Ok(()) => Ok(this.pipeline),
            Err(e) => Err(e),
        }
    }

    pub fn visit_plan_node(&mut self, node: &PlanNode) -> (r: Result<(), ErrorCode>)
        ensures
            r is Ok ==> old(self).pipeline.pipes@.is_prefix_of(final(self).pipeline.pipes@)
                && final(self).pipeline.pipes@.len() > old(self).pipeline.pipes@.len(),
        decreases *node,
    {
        match node {
            PlanNode::ReadSource(n) => self.visit_read_data_source(n),
            PlanNode::Filter(n) => self.visit_filter(n),
            PlanNode::Expression(n) => self.visit_expression(n),
            PlanNode::AggregatorPartial(n) => self.visit_aggregate_partial(n),
            PlanNode::AggregatorFinal(n) => self.visit_aggregate_final(n),
            PlanNode::Select(n) => self.visit_select(n),
            PlanNode::Limit(n) => Err(ErrorCode::UnImplement(String::from_str(
                "this operator has no pipeline lowering",
            ))),
        }
    }

    pub fn visit_select(&mut self, plan: &SelectPlan) -> (r: Result<(), ErrorCode>)
        ensures
            r is Ok ==> old(self).pipeline.pipes@.is_prefix_of(final(self).pipeline.pipes@)
                && final(self).pipeline.pipes@.len() > old(self).pipeline.pipes@.len(),
        decreases *plan,
    {
        self.visit_plan_node(&plan.input)
    }

    /// One source processor per partition opens the pipeline's lanes.
    pub fn visit_read_data_source(&mut self, plan: &ReadDataSourcePlan) -> (r: Result<
        (),
        ErrorCode,
    >)
        ensures
            r is Ok <==> old(self).pipeline.output_len == 0,
            r is Ok ==> old(self).pipeline.pipes@.is_prefix_of(final(self).pipeline.pipes@),
            r is Ok ==> final(self).pipeline.pipes@.len() == old(self).pipeline.pipes@.len() + 1,
            r is Ok ==> spec_is_source_stage(final(self).pipeline.pipes@.last()),
            r is Ok ==> spec_stage_processors(final(self).pipeline.pipes@.last()).len()
                == plan.partitions@.len(),
            r is Ok ==> forall|j: int|
                0 <= j < plan.partitions@.len() ==> (#[trigger] spec_stage_processors(
                    final(self).pipeline.pipes@.last(),
                )[j]) is Source,
    {
        let mut processors: Vec<ProcessorImpl> = Vec::new();
        let mut parts = clone_partitions(&plan.partitions);
        let ghost total = parts@.len();
        while parts.len() > 0
            invariant
                parts@.len() + processors@.len() == total,
                total == plan.partitions@.len(),
                forall|j: int|
                    0 <= j < processors@.len() ==> (#[trigger] processors@[j]) is Source,
            decreases parts@.len(),
        {
            let blocks = parts.remove(0);
            processors.push(ProcessorImpl::Source(BlocksSource::create(blocks)));
        }
        self.schema = clone_schema(&plan.schema);
        let ghost ps = processors@;
        let r = self.pipeline.add_pipe(NewPipe::SimplePipe { processors, has_inputs: false });
        proof {
            if r is Ok {
                assert(spec_stage_processors(self.pipeline.pipes@.last()) == ps);
                assert(old(self).pipeline.pipes@.is_prefix_of(self.pipeline.pipes@));
            }
        }
        r
    }

    /// One filter stage per lane: the input is visited first, then exactly
    /// one pipe of fresh filter transformers on this predicate is appended.
    pub fn visit_filter(&mut self, plan: &FilterPlan) -> (r: Result<(), ErrorCode>)
        ensures
            r is Ok ==> old(self).pipeline.pipes@.is_prefix_of(final(self).pipeline.pipes@),
            r is Ok ==> final(self).pipeline.pipes@.len() > old(self).pipeline.pipes@.len() + 1,
            r is Ok ==> spec_is_transform_stage(final(self).pipeline.pipes@.last()),
            r is Ok ==> spec_stage_processors(final(self).pipeline.pipes@.last()).len() == final(self).pipeline.output_len,
            r is Ok ==> forall|j: int|
                0 <= j < spec_stage_processors(final(self).pipeline.pipes@.last()).len()
                    ==> spec_fresh_filter(
                    #[trigger] spec_stage_processors(final(self).pipeline.pipes@.last())[j],
                    plan.predicate,
                ),
        decreases *plan,
    {
        match self.visit_plan_node(&plan.input) {
            Ok(()) => {},
            Err(e) => {
                return Err(e);
            },
        }
        let ghost mid = self.pipeline.pipes@;
        let lanes = self.pipeline.output_len;
        let mut processors: Vec<ProcessorImpl> = Vec::new();
        let mut lane: usize = 0;
        while lane < lanes
            invariant
                lane <= lanes,
                processors@.len() == lane,
                forall|j: int|
                    0 <= j < processors@.len() ==> spec_fresh_filter(
                        #[trigger] processors@[j],
                        plan.predicate,
                    ),
            decreases lanes - lane,
        {
            processors.push(
                ProcessorImpl::Transform(
                    Transformer::create(TransformKind::Filter(clone_expression(&plan.predicate))),
                ),
            );
            lane += 1;
        }
        let ghost ps = processors@;
        let r = self.pipeline.add_transform(processors);
        proof {
            if r is Ok {
                assert(spec_stage_processors(self.pipeline.pipes@.last()) == ps);
                assert(old(self).pipeline.pipes@.is_prefix_of(mid));
                assert(mid.is_prefix_of(self.pipeline.pipes@));
                assert(old(self).pipeline.pipes@.is_prefix_of(self.pipeline.pipes@)) by {
                    assert(self.pipeline.pipes@.take(old(self).pipeline.pipes@.len() as int)
                        =~= old(self).pipeline.pipes@);
                }
            }
        }
        r
    }

    /// One expression stage per lane: the input is visited first, then one
    /// pipe of fresh projection transformers on this expression list is
    /// appended, and the visible schema becomes the expressions' outputs.
    pub fn visit_expression(&mut self, plan: &ExpressionPlan) -> (r: Result<(), ErrorCode>)
        ensures
            r is Ok ==> old(self).pipeline.pipes@.is_prefix_of(final(self).pipeline.pipes@),
            r is Ok ==> final(self).pipeline.pipes@.len() > old(self).pipeline.pipes@.len() + 1,
            r is Ok ==> spec_is_transform_stage(final(self).pipeline.pipes@.last()),
            r is Ok ==> spec_stage_processors(final(self).pipeline.pipes@.last()).len() == final(self).pipeline.output_len,
            r is Ok ==> forall|j: int|
                0 <= j < spec_stage_processors(final(self).pipeline.pipes@.last()).len()
                    ==> spec_fresh_project(
                    #[trigger] spec_stage_processors(final(self).pipeline.pipes@.last())[j],
                    plan.exprs@.len() as int,
                ),
        decreases *plan,
    {
        match self.visit_plan_node(&plan.input) {
            Ok(()) => {},
            Err(e) => {
                return Err(e);
            },
        }
        let ghost mid = self.pipeline.pipes@;
        let lanes = self.pipeline.output_len;
        let mut processors: Vec<ProcessorImpl> = Vec::new();
        let mut lane: usize = 0;
        while lane < lanes
            invariant
                lane <= lanes,
                processors@.len() == lane,
                forall|j: int|
                    0 <= j < processors@.len() ==> spec_fresh_project(
                        #[trigger] processors@[j],
                        plan.exprs@.len() as int,
                    ),
            decreases lanes - lane,
        {
            processors.push(
                ProcessorImpl::Transform(
                    Transformer::create(TransformKind::Project(clone_exprs(&plan.exprs))),
                ),
            );
            lane += 1;
        }
        // The expression stage replaces the visible schema with its outputs.
        let mut schema: Vec<DataField> = Vec::new();
        let mut j: usize = 0;
        while j < plan.exprs.len()
            invariant
                j <= plan.exprs@.len(),
            decreases plan.exprs@.len() - j,
        {
            schema.push(DataField::new(plan.exprs[j].0.clone(), ColumnType::UInt64));
            j += 1;
        }
        self.schema = schema;
        let ghost ps = processors@;
        let r = self.pipeline.add_transform(processors);
        proof {
            if r is Ok {
                assert(spec_stage_processors(self.pipeline.pipes@.last()) == ps);
                assert(old(self).pipeline.pipes@.is_prefix_of(mid));
                assert(mid.is_prefix_of(self.pipeline.pipes@));
                assert(old(self).pipeline.pipes@.is_prefix_of(self.pipeline.pipes@)) by {
                    assert(self.pipeline.pipes@.take(old(self).pipeline.pipes@.len() as int)
                        =~= old(self).pipeline.pipes@);
                }
            }
        }
        r
    }

    /// One partial aggregator per lane accumulates its share of the rows:
    /// the input is visited first, then exactly one pipe of fresh
    /// aggregation transforms in their consuming state is appended, the
    /// single-key form when the plan names no group columns.
    pub fn visit_aggregate_partial(&mut self, plan: &AggregatorPartialPlan) -> (r: Result<
        (),
        ErrorCode,
    >)
        ensures
            r is Ok ==> old(self).pipeline.pipes@.is_prefix_of(final(self).pipeline.pipes@),
            r is Ok ==> final(self).pipeline.pipes@.len() > old(self).pipeline.pipes@.len() + 1,
            r is Ok ==> spec_is_transform_stage(final(self).pipeline.pipes@.last()),
            r is Ok ==> spec_stage_processors(final(self).pipeline.pipes@.last()).len() == final(self).pipeline.output_len,
            r is Ok ==> forall|j: int|
                0 <= j < spec_stage_processors(final(self).pipeline.pipes@.last()).len()
                    ==> spec_fresh_aggregate(
                    #[trigger] spec_stage_processors(final(self).pipeline.pipes@.last())[j],
                    true,
                    plan.group_columns_name@.len() > 0,
                ),
        decreases *plan,
    {
        match self.visit_plan_node(&plan.input) {
            Ok(()) => {},
            Err(e) => {
                return Err(e);
            },
        }
        let params = match AggregatorParams::try_create(
            clone_schema(&self.schema),
            clone_names(&plan.group_columns_name),
            clone_descs(&plan.aggregate_functions),
        ) {
            Ok(p) => p,
            Err(e) => {
                return Err(e);
            },
        };
        let tparams = match AggregatorTransformParams::try_create(params) {
            Ok(t) => t,
            Err(e) => {
                return Err(e);
            },
        };
        let method = tparams.method;
        let ghost mid = self.pipeline.pipes@;
        let lanes = self.pipeline.output_len;
        let mut processors: Vec<ProcessorImpl> = Vec::new();
        let mut lane: usize = 0;
        while lane < lanes
            invariant
                lane <= lanes,
                processors@.len() == lane,
                tparams.aggregator_params.wf(),
                tparams.aggregator_params.group_columns_name@.len()
                    == plan.group_columns_name@.len(),
                forall|j: int|
                    0 <= j < processors@.len() ==> spec_fresh_aggregate(
                        #[trigger] processors@[j],
                        true,
                        plan.group_columns_name@.len() > 0,
                    ),
            decreases lanes - lane,
        {
            let p2 = match AggregatorParams::try_create(
                clone_schema(&tparams.aggregator_params.schema),
                clone_names(&tparams.aggregator_params.group_columns_name),
                clone_descs(&tparams.aggregator_params.aggregate_functions),
            ) {
                Ok(p) => p,
                Err(e) => {
                    return Err(e);
                },
            };
            let t2 = match AggregatorTransformParams::try_create(p2) {
                Ok(t) => t,
                Err(e) => {
                    return Err(e);
                },
            };
            let transform = match TransformAggregator::try_create_partial(t2) {
                Ok(t) => t,
                Err(e) => {
                    return Err(e);
                },
            };
            processors.push(ProcessorImpl::Aggregate(transform));
            lane += 1;
        }
        self.schema = partial_output_schema(&tparams.aggregator_params, method);
        let ghost ps = processors@;
        let r = self.pipeline.add_transform(processors);
        proof {
            if r is Ok {
                assert(spec_stage_processors(self.pipeline.pipes@.last()) == ps);
                assert(old(self).pipeline.pipes@.is_prefix_of(mid));
                assert(mid.is_prefix_of(self.pipeline.pipes@));
                assert(old(self).pipeline.pipes@.is_prefix_of(self.pipeline.pipes@)) by {
                    assert(self.pipeline.pipes@.take(old(self).pipeline.pipes@.len() as int)
                        =~= old(self).pipeline.pipes@);
                }
            }
        }
        r
    }

    /// Final aggregation converges to a single lane first, then merges the
    /// partial states there: the input is visited, a resize to one lane is
    /// appended, and then exactly one pipe holding one merging transform in
    /// its consuming state, the single-key form when the plan names no
    /// group columns.
    pub fn visit_aggregate_final(&mut self, plan: &AggregatorFinalPlan) -> (r: Result<
        (),
        ErrorCode,
    >)
        ensures
            r is Ok ==> old(self).pipeline.pipes@.is_prefix_of(final(self).pipeline.pipes@),
            r is Ok ==> final(self).pipeline.pipes@.len() > old(self).pipeline.pipes@.len() + 2,
            r is Ok ==> final(self).pipeline.output_len == 1,
            r is Ok ==> final(self).pipeline.pipes@[final(self).pipeline.pipes@.len() - 2] == (
            NewPipe::ResizePipe { to: 1 }),
            r is Ok ==> spec_is_transform_stage(final(self).pipeline.pipes@.last()),
            r is Ok ==> spec_stage_processors(final(self).pipeline.pipes@.last()).len() == 1,
            r is Ok ==> spec_fresh_aggregate(
                spec_stage_processors(final(self).pipeline.pipes@.last())[0],
                false,
                plan.group_columns_name@.len() > 0,
            ),
        decreases *plan,
    {
        match self.visit_plan_node(&plan.input) {
            Ok(()) => {},
            Err(e) => {
                return Err(e);
            },
        }
        let ghost after_input = self.pipeline.pipes@;
        match self.pipeline.resize(1) {
            Ok(()) => {},
            Err(e) => {
                return Err(e);
            },
        }
        // The merge phase reads the partial output schema: the one key
        // column stands for all group columns, and each function merges the
        // state column bearing its own name.
        let mut group_names: Vec<String> = Vec::new();
        if plan.group_columns_name.len() > 0 {
            group_names.push(String::from_str("_group_by_key"));
        }
        let mut final_descs: Vec<AggregateFunctionDesc> = Vec::new();
        let mut fd: usize = 0;
        while fd < plan.aggregate_functions.len()
            invariant
                fd <= plan.aggregate_functions@.len(),
            decreases plan.aggregate_functions@.len() - fd,
        {
            final_descs.push(
                AggregateFunctionDesc::new(
                    plan.aggregate_functions[fd].func,
                    plan.aggregate_functions[fd].name.clone(),
                    plan.aggregate_functions[fd].name.clone(),
                ),
            );
            fd += 1;
        }
        let params = match AggregatorParams::try_create(
            clone_schema(&self.schema),
            group_names,
            final_descs,
        ) {
            Ok(p) => p,
            Err(e) => {
                return Err(e);
            },
        };
        let tparams = match AggregatorTransformParams::try_create(params) {
            Ok(t) => t,
            Err(e) => {
                return Err(e);
            },
        };
        let method = tparams.method;
        let ghost mid = self.pipeline.pipes@;
        let ghost gnames = tparams.aggregator_params.group_columns_name@.len();
        self.schema = final_output_schema(&tparams.aggregator_params, method);
        let transform = match TransformAggregator::try_create_final(tparams) {
            Ok(t) => t,
            Err(e) => {
                return Err(e);
            },
        };
        let mut processors: Vec<ProcessorImpl> = Vec::new();
        processors.push(ProcessorImpl::Aggregate(transform));
        let ghost ps = processors@;
        let r = self.pipeline.add_transform(processors);
        proof {
            if r is Ok {
                assert(spec_stage_processors(self.pipeline.pipes@.last()) == ps);
                assert(mid == after_input.push(NewPipe::ResizePipe { to: 1 }));
                assert(old(self).pipeline.pipes@.is_prefix_of(after_input));
                assert(self.pipeline.pipes@ == mid.push(self.pipeline.pipes@.last()));
                assert(old(self).pipeline.pipes@.is_prefix_of(self.pipeline.pipes@)) by {
                    assert(self.pipeline.pipes@.take(old(self).pipeline.pipes@.len() as int)
                        =~= old(self).pipeline.pipes@.take(
                        old(self).pipeline.pipes@.len() as int,
                    ));
                }
                assert(self.pipeline.pipes@[self.pipeline.pipes@.len() - 2] == (
                NewPipe::ResizePipe { to: 1 }));
            }
        }
        r
    }
}

/// The schema a partial aggregation stage presents downstream.
pub fn partial_output_schema(p: &AggregatorParams, method: HashMethodKind) -> (r: Vec<DataField>) {
    let mut out: Vec<DataField> = Vec::new();
    if p.group_columns_name.len() > 0 {
        let keytype = match method {
            HashMethodKind::Serializer => ColumnType::Binary,
            _ => ColumnType::UInt64,
        };
        out.push(DataField::new(String::from_str("_group_by_key"), keytype));
    }
    let mut i: usize = 0;
    while i < p.aggregate_functions.len()
        invariant
            i <= p.aggregate_functions@.len(),
        decreases p.aggregate_functions@.len() - i,
    {
        out.push(DataField::new(p.aggregate_functions[i].name.clone(), ColumnType::Binary));
        i += 1;
    }
    out
}

/// The schema a final aggregation stage presents downstream.
pub fn final_output_schema(p: &AggregatorParams, method: HashMethodKind) -> (r: Vec<DataField>) {
    let mut out: Vec<DataField> = Vec::new();
    if p.group_columns_name.len() > 0 {
        let keytype = match method {
            HashMethodKind::Serializer => ColumnType::Binary,
            _ => ColumnType::UInt64,
        };
        out.push(DataField::new(String::from_str("_group_by_key"), keytype));
    }
    let mut i: usize = 0;
    while i < p.aggregate_functions.len()
        invariant
            i <= p.aggregate_functions@.len(),
        decreases p.aggregate_functions@.len() - i,
    {
        out.push(DataField::new(p.aggregate_functions[i].name.clone(), ColumnType::UInt64));
        i += 1;
    }
    out
}

pub fn clone_schema(schema: &Vec<DataField>) -> (r: Vec<DataField>)
    ensures
        crate::block::fields_view(r@) == crate::block::fields_view(schema@),
{
    let mut out: Vec<DataField> = Vec::new();
    let mut i: usize = 0;
    while i < schema.len()
        invariant
            i <= schema@.len(),
            out@.len() == i,
            forall|j: int|
                0 <= j < i ==> (#[trigger] out@[j])@ == schema@[j]@,
        decreases schema@.len() - i,
    {
        out.push(DataField::new(schema[i].name.clone(), schema[i].data_type));
        i += 1;
    }
    proof {
        assert(crate::block::fields_view(out@) =~= crate::block::fields_view(schema@));
    }
    out
}

pub fn clone_names(names: &Vec<String>) -> (r: Vec<String>)
    ensures
        r@.len() == names@.len(),
        forall|j: int| 0 <= j < names@.len() ==> (#[trigger] r@[j])@ == names@[j]@,
{
    let mut out: Vec<String> = Vec::new();
    let mut i: usize = 0;
    while i < names.len()
        invariant
            i <= names@.len(),
            out@.len() == i,
            forall|j: int| 0 <= j < i ==> (#[trigger] out@[j])@ == names@[j]@,
        decreases names@.len() - i,
    {
        out.push(names[i].clone());
        i += 1;
    }
    out
}

pub fn clone_descs(descs: &Vec<AggregateFunctionDesc>) -> (r: Vec<AggregateFunctionDesc>)
    ensures
        r@.len() == descs@.len(),
        forall|j: int| 0 <= j < descs@.len() ==> (#[trigger] r@[j])@ == descs@[j]@,
{
    let mut out: Vec<AggregateFunctionDesc> = Vec::new();
    let mut i: usize = 0;
    while i < descs.len()
        invariant
            i <= descs@.len(),
            out@.len() == i,
            forall|j: int| 0 <= j < i ==> (#[trigger] out@[j])@ == descs@[j]@,
        decreases descs@.len() - i,
    {
        out.push(
            AggregateFunctionDesc::new(
                descs[i].func,
                descs[i].name.clone(),
                descs[i].arg.clone(),
            ),
        );
        i += 1;
    }
    out
}

/// A structural copy of an expression tree.
pub fn clone_expression(e: &Expression) -> (r: Expression)
    ensures
        r == *e,
    decreases *e,
{
    match e {
        Expression::Column(name) => Expression::Column(name.clone()),
        Expression::Literal(v) => Expression::Literal(*v),
        Expression::Equal(a, b) => Expression::Equal(
            Box::new(clone_expression(a)),
            Box::new(clone_expression(b)),
        ),
        Expression::Plus(a, b) => Expression::Plus(
            Box::new(clone_expression(a)),
            Box::new(clone_expression(b)),
        ),
    }
}

pub fn clone_exprs(exprs: &Vec<(String, Expression)>) -> (r: Vec<(String, Expression)>)
    ensures
        r@.len() == exprs@.len(),
{
    let mut out: Vec<(String, Expression)> = Vec::new();
    let mut i: usize = 0;
    while i < exprs.len()
        invariant
            i <= exprs@.len(),
            out@.len() == i,
        decreases exprs@.len() - i,
    {
        out.push((exprs[i].0.clone(), clone_expression(&exprs[i].1)));
        i += 1;
    }
    out
}

fn clone_partitions(parts: &Vec<Vec<DataBlock>>) -> (r: Vec<Vec<DataBlock>>)
    ensures
        r@.len() == parts@.len(),
        forall|i: int| 0 <= i < parts@.len() ==> (#[trigger] r@[i])@.len() == parts@[i]@.len(),
        forall|i: int, j: int|
            0 <= i < parts@.len() && 0 <= j < parts@[i]@.len() ==> (#[trigger] r@[i]@[j])@
                == parts@[i]@[j]@,
{
    // Batches move into the pipeline; plans hand their partitions over by
    // value through this copy of the outer structure. A batch itself is
    // immutable and reconstructed column by column, so nothing is lost.
    let mut out: Vec<Vec<DataBlock>> = Vec::new();
    let mut i: usize = 0;
    while i < parts.len()
        invariant
            i <= parts@.len(),
            out@.len() == i,
            forall|t: int| 0 <= t < i ==> (#[trigger] out@[t])@.len() == parts@[t]@.len(),
            forall|t: int, j: int|
                0 <= t < i && 0 <= j < parts@[t]@.len() ==> (#[trigger] out@[t]@[j])@
                    == parts@[t]@[j]@,
        decreases parts@.len() - i,
    {
        let src = &parts[i];
        let mut lane: Vec<DataBlock> = Vec::new();
        let mut j: usize = 0;
        while j < src.len()
            invariant
                j <= src@.len(),
                lane@.len() == j,
                forall|t: int| 0 <= t < j ==> (#[trigger] lane@[t])@ == src@[t]@,
            decreases src@.len() - j,
        {
            lane.push(clone_block(&src[j]));
            j += 1;
        }
        out.push(lane);
        i += 1;
    }
    out
}

/// Rebuilds a batch value from its parts; the rebuild cannot fail, because
/// the source batch already satisfies the shape its schema demands.
pub fn clone_block(b: &DataBlock) -> (r: DataBlock)
    ensures
        r@ == b@,
{
    proof {
        use_type_invariant(b);
    }
    let fields = clone_schema(b.fields());
    let mut columns: Vec<crate::block::Column> = Vec::new();
    let n = b.num_columns();
    let mut i: usize = 0;
    while i < n
        invariant
            i <= n,
            b@.wf(),
            n == b@.columns.len(),
            columns@.len() == i,
            forall|j: int|
                0 <= j < i ==> (#[trigger] columns@[j])@ == b@.columns[j],
        decreases n - i,
    {
        columns.push(clone_column(b.column(i)));
        i += 1;
    }
    proof {
        assert(crate::block::fields_view(fields@) =~= b@.fields);
        assert(columns@.map_values(|c: crate::block::Column| c@) =~= b@.columns);
    }
    match DataBlock::create(fields, columns, b.num_rows()) {
        Ok(out) => {
            proof {
                assert(out@.fields =~= b@.fields);
                assert(out@.columns =~= b@.columns);
            }
            out
        },
        Err(_) => {
            proof {
                assert(false);
            }
            vstd::pervasive::unreached()
        },
    }
}

fn clone_column(c: &crate::block::Column) -> (r: crate::block::Column)
    ensures
        r@ == c@,
{
    match c {
        crate::block::Column::UInt8(v) => crate::block::Column::UInt8(clone_copy_vec(v)),
        crate::block::Column::UInt16(v) => crate::block::Column::UInt16(clone_copy_vec(v)),
        crate::block::Column::UInt32(v) => crate::block::Column::UInt32(clone_copy_vec(v)),
        crate::block::Column::UInt64(v) => crate::block::Column::UInt64(clone_copy_vec(v)),
        crate::block::Column::Int64(v) => crate::block::Column::Int64(clone_copy_vec(v)),
        crate::block::Column::Binary(v) => {
            let mut out: Vec<Vec<u8>> = Vec::new();
            let mut i: usize = 0;
            while i < v.len()
                invariant
                    i <= v@.len(),
                    out@.len() == i,
                    forall|j: int| 0 <= j < i ==> (#[trigger] out@[j])@ == v@[j]@,
                decreases v@.len() - i,
            {
                out.push(crate::aggregator_params::bytes_clone(&v[i]));
                i += 1;
            }
            proof {
                assert(out@.map_values(|b: Vec<u8>| b@) =~= v@.map_values(|b: Vec<u8>| b@));
            }
            crate::block::Column::Binary(out)
        },
        crate::block::Column::NullableUInt32(v) => crate::block::Column::NullableUInt32(
            clone_copy_vec(v),
        ),
    }
}

fn clone_copy_vec<T: Copy>(v: &Vec<T>) -> (r: Vec<T>)
    ensures
        r@ == v@,
{
    let mut out: Vec<T> = Vec::new();
    let mut i: usize = 0;
    while i < v.len()
        invariant
            i <= v@.len(),
            out@ == v@.take(i as int),
        decreases v@.len() - i,
    {
        out.push(v[i]);
        proof {
            assert(v@.take(i + 1 as int) =~= v@.take(i as int).push(v@[i as int]));
        }
        i += 1;
    }
    proof {
        assert(v@.take(v@.len() as int) =~= v@);
    }
    out
}

} // verus!
