use vstd::prelude::*;
use vstd::string::StringExecFns;

use crate::aggregate::{
    agg_fits, agg_value, combine, fold_combine, lemma_agg_prefix_le, lemma_agg_value_bounds, one,
    unit, AggregateFunction,
};
use crate::aggregate_function::{
    descs_view, le_value, lemma_le_value_bound, pow256, region, region_value, spec_layout_size,
    spec_offset, AggregateFunctionDesc,
};
use crate::aggregator_params::{args_ok, block_match, check_block, read_arg, spec_arg_at,
    spec_args_row, spec_block_args, AggregatorParams};
use crate::arena::{lemma_region_in_layout, new_state, region_bytes};
use crate::block::{Column, ColumnType, ColumnV, DataBlock, DataBlockV, DataField, DataFieldV};
use crate::error::ErrorCode;

verus! {

/// The values function `i` accumulates, one per consumed row.
pub open spec fn arg_col(rows: Seq<Seq<u64>>, i: int) -> Seq<u64> {
    rows.map_values(|a: Seq<u64>| a[i])
}

/// The values function `i` merges, one per consumed partial state row.
pub open spec fn part_col(parts: Seq<Seq<int>>, i: int) -> Seq<int> {
    parts.map_values(|a: Seq<int>| a[i])
}

/// The schema of a single-group partial state batch: one binary column per
/// function, named after it.
pub open spec fn single_partial_fields(p: AggregatorParams) -> Seq<DataFieldV> {
    Seq::new(
        p.funcs().len(),
        |i: int| DataFieldV {
            name: descs_view(p.aggregate_functions@)[i].name,
            data_type: ColumnType::Binary,
        },
    )
}

/// What the partial single-key aggregator emits: one batch of one row whose
/// binary cells hold each function's accumulated state over `rows`.
pub open spec fn single_partial_output(p: AggregatorParams, rows: Seq<Seq<u64>>, b: DataBlockV) -> bool {
    &&& b.rows == 1
    &&& b.fields == single_partial_fields(p)
    &&& b.columns.len() == p.funcs().len()
    &&& forall|i: int|
        0 <= i < p.funcs().len() ==> ((#[trigger] b.columns[i]) matches ColumnV::Binary(s)
            && s.len() == 1 && s[0].len() == 8 && le_value(s[0]) == agg_value(
            p.funcs()[i],
            arg_col(rows, i),
        ))
}

/// Whether a batch is a well-shaped column of partial states: one binary
/// column per function, every cell eight bytes.
pub open spec fn states_block_ok(b: DataBlockV, nfuncs: int) -> bool {
    &&& b.columns.len() == nfuncs
    &&& forall|i: int|
        0 <= i < nfuncs ==> ((#[trigger] b.columns[i]) matches ColumnV::Binary(s) && s.len()
            == b.rows && (forall|r: int| 0 <= r < s.len() ==> (#[trigger] s[r]).len() == 8))
}

/// The partial state rows a batch carries, one per lane row.
pub open spec fn spec_parse_states(b: DataBlockV, nfuncs: int) -> Seq<Seq<int>> {
    Seq::new(
        b.rows,
        |r: int|
            Seq::new(
                nfuncs as nat,
                |i: int|
                    match b.columns[i] {
                        ColumnV::Binary(s) => le_value(s[r]),
                        _ => 0,
                    },
            ),
    )
}

pub proof fn lemma_rows_take_push(base: Seq<Seq<u64>>, brows: Seq<Seq<u64>>, r: int)
    requires
        0 <= r < brows.len(),
    ensures
        base + brows.take(r + 1) == (base + brows.take(r)).push(brows[r]),
{
    assert(base + brows.take(r + 1) =~= (base + brows.take(r)).push(brows[r]));
}

pub proof fn lemma_arg_col_push(rows: Seq<Seq<u64>>, a: Seq<u64>, i: int)
    ensures
        arg_col(rows.push(a), i) == arg_col(rows, i).push(a[i]),
{
    assert(arg_col(rows.push(a), i) =~= arg_col(rows, i).push(a[i]));
}

/// Extending the inputs by one value merges that value's contribution.
pub proof fn lemma_agg_push(f: AggregateFunction, col: Seq<u64>, v: u64)
    ensures
        agg_value(f, col.push(v)) == combine(f, agg_value(f, col), one(f, v)),
{
    assert(col.push(v).drop_last() =~= col);
    assert(col.push(v).last() == v);
}

/// A state buffer whose regions hold aggregates holds aggregates that fit,
/// because a region is eight bytes.
pub proof fn lemma_sem_state_fits(p: AggregatorParams, state: Seq<u8>, rows: Seq<Seq<u64>>)
    requires
        p.wf(),
        state.len() == spec_layout_size(p.funcs()),
        forall|i: int|
            0 <= i < p.funcs().len() ==> region_value(state, spec_offset(p.funcs(), i))
                == agg_value(#[trigger] p.funcs()[i], arg_col(rows, i)),
    ensures
        forall|i: int|
            0 <= i < p.funcs().len() ==> agg_fits(#[trigger] p.funcs()[i], arg_col(rows, i)),
{
    assert forall|i: int| 0 <= i < p.funcs().len() implies agg_fits(
        #[trigger] p.funcs()[i],
        arg_col(rows, i),
    ) by {
        lemma_region_in_layout(p.funcs(), i);
        lemma_le_value_bound(region(state, spec_offset(p.funcs(), i)));
        crate::aggregate_function::lemma_pow256_8();
    }
}

/// An accumulation that overflows on some row's contribution witnesses that
/// the whole column's aggregate does not fit.
pub proof fn lemma_overflow_unfit(
    f: AggregateFunction,
    base: Seq<Seq<u64>>,
    brows: Seq<Seq<u64>>,
    r: int,
    i: int,
)
    requires
        0 <= r < brows.len(),
        combine(
            f,
            agg_value(f, arg_col(base + brows.take(r), i)),
            one(f, brows[r][i]),
        ) > u64::MAX,
    ensures
        !agg_fits(f, arg_col(base + brows, i)),
{
    let rows0 = base + brows.take(r);
    let col0 = arg_col(rows0, i);
    lemma_agg_value_bounds(f, col0);
    if f is Min || f is Max {
        assert(false);
    } else {
        lemma_rows_take_push(base, brows, r);
        lemma_arg_col_push(rows0, brows[r], i);
        lemma_agg_push(f, col0, brows[r][i]);
        let prefix = base + brows.take(r + 1);
        assert(agg_value(f, arg_col(prefix, i)) > u64::MAX);
        let full = base + brows;
        let n = base.len() + r + 1;
        assert(full.take(n as int) =~= prefix);
        assert(arg_col(full.take(n as int), i) =~= arg_col(full, i).take(n as int));
        lemma_agg_prefix_le(f, arg_col(full, i), n as int);
    }
}

/// Accumulates one input row into every function's region. Succeeds exactly
/// when every combined value stays in range, leaving the regions at the
/// combined values; on failure the buffer is partially advanced and the
/// caller abandons the aggregation.
pub fn accumulate_row(
    p: &AggregatorParams,
    block: &DataBlock,
    r: usize,
    state: &mut Vec<u8>,
) -> (res: Result<(), ErrorCode>)
    requires
        p.wf(),
        old(state)@.len() == spec_layout_size(p.funcs()),
        block@.wf(),
        args_ok(*p, block@),
        r < block@.rows,
    ensures
        final(state)@.len() == old(state)@.len(),
        (res is Ok <==> forall|i: int|
            0 <= i < p.funcs().len() ==> combine(
                #[trigger] p.funcs()[i],
                region_value(old(state)@, spec_offset(p.funcs(), i)),
                one(p.funcs()[i], spec_arg_at(*p, block@, i, r as int)),
            ) <= u64::MAX),
        res is Ok ==> forall|i: int|
            0 <= i < p.funcs().len() ==> region_value(final(state)@, spec_offset(p.funcs(), i))
                == combine(
                #[trigger] p.funcs()[i],
                region_value(old(state)@, spec_offset(p.funcs(), i)),
                one(p.funcs()[i], spec_arg_at(*p, block@, i, r as int)),
            ),
        res matches Err(e) ==> e is Overflow,
{
    let nfuncs = p.aggregate_functions.len();
    let mut i: usize = 0;
    while i < nfuncs
        invariant
            i <= nfuncs,
            p.wf(),
            nfuncs == p.aggregate_functions@.len(),
            block@.wf(),
            args_ok(*p, block@),
            r < block@.rows,
            state@.len() == old(state)@.len(),
            old(state)@.len() == spec_layout_size(p.funcs()),
            forall|t: int|
                i <= t < p.funcs().len() ==> region_value(state@, spec_offset(p.funcs(), t))
                    == region_value(old(state)@, spec_offset(p.funcs(), t)),
            forall|t: int|
                0 <= t < i ==> combine(
                    #[trigger] p.funcs()[t],
                    region_value(old(state)@, spec_offset(p.funcs(), t)),
                    one(p.funcs()[t], spec_arg_at(*p, block@, t, r as int)),
                ) <= u64::MAX,
            forall|t: int|
                0 <= t < i ==> region_value(state@, spec_offset(p.funcs(), t)) == combine(
                    #[trigger] p.funcs()[t],
                    region_value(old(state)@, spec_offset(p.funcs(), t)),
                    one(p.funcs()[t], spec_arg_at(*p, block@, t, r as int)),
                ),
        decreases nfuncs - i,
    {
        proof {
            assert(descs_view(p.aggregate_functions@)[i as int] == p.aggregate_functions@[
            i as int]@);
            lemma_region_in_layout(p.funcs(), i as int);
        }
        let f = p.aggregate_functions[i].func;
        let v = read_arg(p, block, i, r);
        let off = p.offsets[i];
        let ghost pre = state@;
        let res = crate::aggregate_function::acc_row(f, state, off, v);
        proof {
            assert forall|t: int|
                0 <= t < p.funcs().len() && t != i && res is Ok implies region_value(
                state@,
                spec_offset(p.funcs(), t),
            ) == region_value(pre, spec_offset(p.funcs(), t)) by {
                lemma_region_in_layout(p.funcs(), t);
                if t < i {
                    crate::aggregate_function::lemma_offsets_monotone(p.funcs(), t + 1, i as int);
                } else {
                    crate::aggregate_function::lemma_offsets_monotone(p.funcs(), i + 1, t);
                }
                assert(region(state@, spec_offset(p.funcs(), t)) =~= region(
                    pre,
                    spec_offset(p.funcs(), t),
                ));
            }
        }
        match res {
            Ok(()) => {},
            Err(e) => {
                return Err(e);
            },
        }
        i += 1;
    }
    Ok(())
}

/// First-phase aggregator of a query without group-by columns: exactly one
/// global group, one state buffer, no hash lookup at all.
pub struct PartialSingleKeyAggregator {
    pub params: AggregatorParams,
    pub state: Vec<u8>,
    pub generated: bool,
    pub rows: Ghost<Seq<Seq<u64>>>,
    pub fed: Ghost<Seq<DataBlockV>>,
    pub emitted: Ghost<Seq<DataBlockV>>,
}

impl PartialSingleKeyAggregator {
    pub open spec fn spec_state(&self) -> Seq<u8> {
        self.state@
    }

    pub open spec fn spec_generated(&self) -> bool {
        self.generated
    }

    /// The argument rows consumed so far.
    pub open spec fn spec_rows(&self) -> Seq<Seq<u64>> {
        self.rows@
    }

    pub open spec fn wf(&self) -> bool {
        &&& self.params.wf()
        &&& self.spec_state().len() == spec_layout_size(self.params.funcs())
    }

    /// The one state buffer holds, per function, exactly the aggregate of
    /// the rows consumed so far.
    pub open spec fn sem(&self) -> bool {
        &&& forall|r: int|
            0 <= r < self.spec_rows().len() ==> (#[trigger] self.spec_rows()[r]).len()
                == self.params.funcs().len()
        &&& forall|i: int|
            0 <= i < self.params.funcs().len() ==> region_value(
                self.spec_state(),
                spec_offset(self.params.funcs(), i),
            ) == agg_value(#[trigger] self.params.funcs()[i], arg_col(self.spec_rows(), i))
    }

    /// A fresh aggregator over no rows: every region at its identity.
    pub fn try_create(params: AggregatorParams) -> (r: Result<
        PartialSingleKeyAggregator,
        ErrorCode,
    >)
        requires
            params.wf(),
        ensures
            r matches Ok(a) ==> a.wf() && a.sem() && a.spec_rows().len() == 0
                && !a.spec_generated() && a.params == params && a.fed@.len() == 0
                && a.emitted@.len() == 0,
            r is Ok,
    {
        let state = new_state(&params);
        let a = PartialSingleKeyAggregator {
            params,
            state,
            generated: false,
            rows: Ghost(Seq::empty()),
            fed: Ghost(Seq::empty()),
            emitted: Ghost(Seq::empty()),
        };
        proof {
            assert forall|i: int| 0 <= i < a.params.funcs().len() implies region_value(
                a.spec_state(),
                spec_offset(a.params.funcs(), i),
            ) == agg_value(#[trigger] a.params.funcs()[i], arg_col(a.spec_rows(), i)) by {
                assert(arg_col(a.spec_rows(), i) =~= Seq::<u64>::empty());
            }
        }
        Ok(a)
    }

    /// Feeds one batch: each row's argument values are accumulated into the
    /// single group's regions. Fails exactly on a batch of the wrong schema
    /// or argument type, or when an accumulated value overflows; overflow is
    /// a data error and poisons the aggregation.
    pub fn consume_block(&mut self, block: DataBlock) -> (r: Result<(), ErrorCode>)
        requires
            old(self).wf(),
        ensures
            final(self).wf(),
            final(self).params == old(self).params,
            final(self).spec_generated() == old(self).spec_generated(),
            r is Ok ==> final(self).fed@ == old(self).fed@.push(block@),
            r is Err ==> final(self).fed@ == old(self).fed@,
            final(self).emitted@ == old(self).emitted@,
            old(self).sem() ==> {
                let newrows = old(self).spec_rows() + spec_block_args(old(self).params, block@);
                &&& (r is Ok <==> block_match(old(self).params, block@) && args_ok(
                    old(self).params,
                    block@,
                ) && (forall|i: int|
                    0 <= i < old(self).params.funcs().len() ==> agg_fits(
                        #[trigger] old(self).params.funcs()[i],
                        arg_col(newrows, i),
                    )))
                &&& r is Ok ==> final(self).sem() && final(self).spec_rows() == newrows
            },
    {
        proof {
            use_type_invariant(&block);
        }
        let ghost bv = block@;
        let ghost p = self.params;
        let ghost had_sem = old(self).sem();
        let ghost brows = spec_block_args(self.params, block@);
        if !check_block(&self.params, &block) {
            return Err(ErrorCode::UnexpectedError(String::from_str(
                "aggregate input batch does not carry the expected schema",
            )));
        }
        let nrows = block.num_rows();
        proof {
            if had_sem {
                lemma_sem_state_fits(p, self.state@, self.rows@);
            }
        }
        let mut r: usize = 0;
        while r < nrows
            invariant
                r <= nrows,
                p == old(self).params,
                had_sem == old(self).sem(),
                self.params == p,
                self.generated == old(self).generated,
                nrows == block@.rows,
                block@.wf(),
                block_match(p, block@),
                args_ok(p, block@),
                brows == spec_block_args(p, block@),
                self.wf(),
                had_sem ==> self.rows@ == old(self).spec_rows() + brows.take(r as int),
                had_sem ==> self.sem(),
                self.fed@ == old(self).fed@,
                self.emitted@ == old(self).emitted@,
                had_sem ==> forall|i: int|
                    0 <= i < p.funcs().len() ==> agg_fits(
                        #[trigger] p.funcs()[i],
                        arg_col(self.rows@, i),
                    ),
            decreases nrows - r,
        {
            let ghost rows0 = self.rows@;
            let ghost rowargs = spec_args_row(p, block@, r as int);
            let ghost pre = self.state@;
            let res = accumulate_row(&self.params, &block, r, &mut self.state);
            match res {
                Ok(()) => {
                    proof {
                        self.rows@ = rows0.push(rowargs);
                        if had_sem {
                            lemma_rows_take_push(old(self).spec_rows(), brows, r as int);
                            assert forall|t: int| 0 <= t < p.funcs().len() implies region_value(
                                self.spec_state(),
                                spec_offset(p.funcs(), t),
                            ) == agg_value(#[trigger] p.funcs()[t], arg_col(self.rows@, t))
                                && agg_fits(p.funcs()[t], arg_col(self.rows@, t)) by {
                                lemma_arg_col_push(rows0, rowargs, t);
                                lemma_agg_push(p.funcs()[t], arg_col(rows0, t), rowargs[t]);
                                lemma_region_in_layout(p.funcs(), t);
                                lemma_le_value_bound(
                                    region(self.spec_state(), spec_offset(p.funcs(), t)),
                                );
                                crate::aggregate_function::lemma_pow256_8();
                            }
                        }
                    }
                },
                Err(e) => {
                    proof {
                        if had_sem {
                            let i = choose|i: int|
                                0 <= i < p.funcs().len() && combine(
                                    p.funcs()[i],
                                    region_value(pre, spec_offset(p.funcs(), i)),
                                    one(p.funcs()[i], spec_arg_at(p, block@, i, r as int)),
                                ) > u64::MAX;
                            lemma_overflow_unfit(
                                p.funcs()[i],
                                old(self).spec_rows(),
                                brows,
                                r as int,
                                i,
                            );
                        }
                    }
                    return Err(e);
                },
            }
            r += 1;
        }
        proof {
            self.fed@ = self.fed@.push(bv);
            if had_sem {
                assert(brows.take(nrows as int) =~= brows);
            }
        }
        Ok(())
    }

    /// Emits the one output batch of the single group: exactly one row, even
    /// over zero input rows, whose cells are the accumulated states. Every
    /// later call emits nothing.
    pub fn generate_block(&mut self) -> (r: Result<Option<DataBlock>, ErrorCode>)
        requires
            old(self).wf(),
        ensures
            final(self).wf(),
            final(self).params == old(self).params,
            final(self).spec_rows() == old(self).spec_rows(),
            final(self).spec_generated(),
            final(self).fed@ == old(self).fed@,
            r matches Ok(o) ==> (o matches Some(b) ==> final(self).emitted@ == old(self).emitted@.push(
                b@,
            )),
            (r matches Ok(o) && o is None) ==> final(self).emitted@ == old(self).emitted@,
            r is Err ==> final(self).emitted@ == old(self).emitted@,
            old(self).sem() ==> final(self).sem(),
            old(self).spec_generated() ==> (r matches Ok(o) && o is None),
            old(self).sem() && !old(self).spec_generated() ==> (r matches Ok(o) && o matches Some(
                b,
            ) && single_partial_output(old(self).params, old(self).spec_rows(), b@)),
    {
        if self.generated {
            return Ok(None);
        }
        self.generated = true;
        let ghost p = self.params;
        let ghost had_sem = self.sem();
        let nfuncs = self.params.aggregate_functions.len();
        let mut fields: Vec<DataField> = Vec::new();
        let mut columns: Vec<Column> = Vec::new();
        let mut i: usize = 0;
        while i < nfuncs
            invariant
                i <= nfuncs,
                self.params == p,
                nfuncs == p.aggregate_functions@.len(),
                self.wf(),
                self.sem() == had_sem,
                self.rows@ == old(self).spec_rows(),
                self.generated,
                self.fed@ == old(self).fed@,
                self.emitted@ == old(self).emitted@,
                fields@.len() == i,
                columns@.len() == i,
                forall|t: int|
                    0 <= t < i ==> (#[trigger] fields@[t])@ == (DataFieldV {
                        name: descs_view(p.aggregate_functions@)[t].name,
                        data_type: ColumnType::Binary,
                    }),
                forall|t: int|
                    0 <= t < i ==> ((#[trigger] columns@[t])@ matches ColumnV::Binary(s) && s.len()
                        == 1 && s[0] == region(self.spec_state(), spec_offset(p.funcs(), t))),
            decreases nfuncs - i,
        {
            proof {
                assert(descs_view(p.aggregate_functions@)[i as int] == p.aggregate_functions@[
                i as int]@);
                lemma_region_in_layout(p.funcs(), i as int);
            }
            fields.push(DataField::new(
                self.params.aggregate_functions[i].name.clone(),
                ColumnType::Binary,
            ));
            let cell = region_bytes(&self.state, self.params.offsets[i]);
            let mut cells: Vec<Vec<u8>> = Vec::new();
            cells.push(cell);
            columns.push(Column::Binary(cells));
            i += 1;
        }
        let block = match DataBlock::create(fields, columns, 1) {
            Ok(b) => b,
            Err(e) => {
                proof {
                    assert(false);
                }
                return Err(e);
            },
        };
        proof {
            self.emitted@ = self.emitted@.push(block@);
            if had_sem {
                assert(block@.fields =~= single_partial_fields(p));
                assert forall|t: int| 0 <= t < p.funcs().len() implies (#[trigger] block@.columns[t])
                    matches ColumnV::Binary(s) && s.len() == 1 && s[0].len() == 8 && le_value(s[0])
                    == agg_value(p.funcs()[t], arg_col(self.rows@, t)) by {
                    lemma_region_in_layout(p.funcs(), t);
                }
            }
        }
        Ok(Some(block))
    }
}


/// The value of function `i`'s state cell in row `r` of a partial state
/// batch.
pub open spec fn state_cell_val(b: DataBlockV, i: int, r: int) -> int {
    match b.columns[i] {
        ColumnV::Binary(s) => le_value(s[r]),
        _ => 0,
    }
}

pub proof fn lemma_part_col_push(parts: Seq<Seq<int>>, a: Seq<int>, i: int)
    ensures
        part_col(parts.push(a), i) == part_col(parts, i).push(a[i]),
{
    assert(part_col(parts.push(a), i) =~= part_col(parts, i).push(a[i]));
}

/// Merging one more partial value merges its contribution.
pub proof fn lemma_fold_push(f: AggregateFunction, parts: Seq<int>, v: int)
    ensures
        fold_combine(f, parts.push(v)) == combine(f, fold_combine(f, parts), v),
{
    assert(parts.push(v).drop_last() =~= parts);
    assert(parts.push(v).last() == v);
}

pub proof fn lemma_fold_bounds(f: AggregateFunction, parts: Seq<int>)
    requires
        forall|t: int| 0 <= t < parts.len() ==> 0 <= #[trigger] parts[t] <= u64::MAX,
    ensures
        0 <= fold_combine(f, parts),
        (f is Min || f is Max) ==> fold_combine(f, parts) <= u64::MAX,
    decreases parts.len(),
{
    if parts.len() > 0 {
        lemma_fold_bounds(f, parts.drop_last());
    }
}

/// For the monotone functions a merge over a prefix never exceeds the merge
/// over the whole.
pub proof fn lemma_fold_prefix_le(f: AggregateFunction, parts: Seq<int>, n: int)
    requires
        0 <= n <= parts.len(),
        f is Count || f is Sum,
        forall|t: int| 0 <= t < parts.len() ==> 0 <= #[trigger] parts[t],
    ensures
        fold_combine(f, parts.take(n)) <= fold_combine(f, parts),
    decreases parts.len() - n,
{
    if n == parts.len() {
        assert(parts.take(n) =~= parts);
    } else {
        lemma_fold_prefix_le(f, parts, n + 1);
        assert(parts.take(n + 1).drop_last() =~= parts.take(n));
        assert(parts.take(n + 1).last() == parts[n]);
    }
}

pub proof fn lemma_parts_take_push(base: Seq<Seq<int>>, brows: Seq<Seq<int>>, r: int)
    requires
        0 <= r < brows.len(),
    ensures
        base + brows.take(r + 1) == (base + brows.take(r)).push(brows[r]),
{
    assert(base + brows.take(r + 1) =~= (base + brows.take(r)).push(brows[r]));
}

/// A merge that overflows on some lane's partial value witnesses that the
/// whole merge does not fit.
pub proof fn lemma_fold_overflow_unfit(
    f: AggregateFunction,
    base: Seq<Seq<int>>,
    brows: Seq<Seq<int>>,
    r: int,
    i: int,
)
    requires
        0 <= r < brows.len(),
        combine(f, fold_combine(f, part_col(base + brows.take(r), i)), brows[r][i]) > u64::MAX,
        forall|t: int, u: int|
            0 <= t < (base + brows).len() && 0 <= u < (base + brows)[t].len() ==> 0 <= (#[trigger] (
            base + brows)[t][u]) <= u64::MAX,
        forall|t: int| 0 <= t < (base + brows).len() ==> (#[trigger] (base + brows)[t]).len() > i,
        i >= 0,
    ensures
        fold_combine(f, part_col(base + brows, i)) > u64::MAX,
{
    let rows0 = base + brows.take(r);
    let col0 = part_col(rows0, i);
    let full = base + brows;
    let fullcol = part_col(full, i);
    assert forall|t: int| 0 <= t < fullcol.len() implies 0 <= #[trigger] fullcol[t]
        <= u64::MAX by {
        assert(fullcol[t] == full[t][i]);
    }
    assert forall|t: int| 0 <= t < col0.len() implies 0 <= #[trigger] col0[t] <= u64::MAX by {
        assert(col0[t] == rows0[t][i]);
        assert(rows0[t] == full[t]);
    }
    lemma_fold_bounds(f, col0);
    if f is Min || f is Max {
        assert(0 <= brows[r][i] <= u64::MAX) by {
            assert(full[base.len() + r] == brows[r]);
        }
        assert(false);
    } else {
        lemma_parts_take_push(base, brows, r);
        lemma_part_col_push(rows0, brows[r], i);
        lemma_fold_push(f, col0, brows[r][i]);
        let prefix = base + brows.take(r + 1);
        assert(fold_combine(f, part_col(prefix, i)) > u64::MAX);
        let n = base.len() + r + 1;
        assert(full.take(n as int) =~= prefix);
        assert(part_col(full.take(n as int), i) =~= fullcol.take(n as int));
        lemma_fold_prefix_le(f, fullcol, n as int);
    }
}

/// Checks that a batch is a well-shaped column of partial states.
pub fn check_states_block(block: &DataBlock, nfuncs: usize) -> (r: bool)
    ensures
        r == states_block_ok(block@, nfuncs as int),
{
    block.recall_wf();
    if block.num_columns() != nfuncs {
        return false;
    }
    let rows = block.num_rows();
    let mut i: usize = 0;
    while i < nfuncs
        invariant
            i <= nfuncs,
            block@.wf(),
            rows == block@.rows,
            nfuncs == block@.columns.len(),
            forall|t: int|
                0 <= t < i ==> ((#[trigger] block@.columns[t]) matches ColumnV::Binary(s)
                    && s.len() == block@.rows && (forall|r: int|
                    0 <= r < s.len() ==> (#[trigger] s[r]).len() == 8)),
        decreases nfuncs - i,
    {
        let col = block.column(i);
        match col {
            Column::Binary(cells) => {
                proof {
                    assert(block@.columns[i as int] == ColumnV::Binary(
                        cells@.map_values(|b: Vec<u8>| b@),
                    ));
                }
                let mut r: usize = 0;
                while r < cells.len()
                    invariant
                        r <= cells@.len(),
                        i < block@.columns.len(),
                        block@.columns[i as int] == ColumnV::Binary(
                            cells@.map_values(|b: Vec<u8>| b@),
                        ),
                        forall|t: int| 0 <= t < r ==> (#[trigger] cells@[t])@.len() == 8,
                    decreases cells@.len() - r,
                {
                    proof {
                        assert(cells@.map_values(|b: Vec<u8>| b@)[r as int] == cells@[r as int]@);
                    }
                    if cells[r].len() != 8 {
                        return false;
                    }
                    r += 1;
                }
                proof {
                    let sv = cells@.map_values(|b: Vec<u8>| b@);
                    assert forall|t: int| 0 <= t < sv.len() implies (#[trigger] sv[t]).len()
                        == 8 by {
                        assert(sv[t] == cells@[t]@);
                    }
                }
            },
            _ => {
                return false;
            },
        }
        i += 1;
    }
    true
}

/// Reads the state cell of function `i` in row `r` of a state batch.
pub fn read_state_cell(block: &DataBlock, i: usize, r: usize, Ghost(nfuncs): Ghost<int>) -> (v:
    u64)
    requires
        block@.wf(),
        states_block_ok(block@, nfuncs),
        i < nfuncs,
        r < block@.rows,
    ensures
        v == state_cell_val(block@, i as int, r as int),
        0 <= state_cell_val(block@, i as int, r as int) <= u64::MAX,
{
    block.recall_wf();
    match block.column(i) {
        Column::Binary(cells) => {
            proof {
                assert(block@.columns[i as int] == ColumnV::Binary(
                    cells@.map_values(|b: Vec<u8>| b@),
                ));
                assert(cells@.map_values(|b: Vec<u8>| b@)[r as int] == cells@[r as int]@);
            }
            let cell = &cells[r];
            proof {
                assert(cell@.subrange(0, 8) =~= cell@);
                lemma_le_value_bound(cell@);
                crate::aggregate_function::lemma_pow256_8();
            }
            crate::aggregate_function::le8_at(cell, 0)
        },
        _ => {
            proof {
                assert(false);
            }
            0
        },
    }
}

/// Merges one row of partial states into every function's region. Succeeds
/// exactly when every combined value stays in range.
#[verifier::rlimit(100)]
pub fn merge_state_row(
    p: &AggregatorParams,
    block: &DataBlock,
    r: usize,
    state: &mut Vec<u8>,
) -> (res: Result<(), ErrorCode>)
    requires
        p.wf(),
        old(state)@.len() == spec_layout_size(p.funcs()),
        block@.wf(),
        states_block_ok(block@, p.funcs().len() as int),
        r < block@.rows,
    ensures
        final(state)@.len() == old(state)@.len(),
        (res is Ok <==> forall|i: int|
            0 <= i < p.funcs().len() ==> combine(
                #[trigger] p.funcs()[i],
                region_value(old(state)@, spec_offset(p.funcs(), i)),
                state_cell_val(block@, i, r as int),
            ) <= u64::MAX),
        res is Ok ==> forall|i: int|
            0 <= i < p.funcs().len() ==> region_value(final(state)@, spec_offset(p.funcs(), i))
                == combine(
                #[trigger] p.funcs()[i],
                region_value(old(state)@, spec_offset(p.funcs(), i)),
                state_cell_val(block@, i, r as int),
            ),
        res matches Err(e) ==> e is Overflow,
{
    let nfuncs = p.aggregate_functions.len();
    let ghost fs = p.funcs();
    let mut i: usize = 0;
    while i < nfuncs
        invariant
            i <= nfuncs,
            p.wf(),
            fs == p.funcs(),
            nfuncs == p.aggregate_functions@.len(),
            nfuncs == fs.len(),
            block@.wf(),
            states_block_ok(block@, fs.len() as int),
            r < block@.rows,
            state@.len() == old(state)@.len(),
            old(state)@.len() == spec_layout_size(fs),
            forall|t: int|
                i <= t < fs.len() ==> region_value(state@, spec_offset(fs, t)) == region_value(
                    old(state)@,
                    spec_offset(fs, t),
                ),
            forall|t: int|
                0 <= t < i ==> combine(
                    #[trigger] fs[t],
                    region_value(old(state)@, spec_offset(fs, t)),
                    state_cell_val(block@, t, r as int),
                ) <= u64::MAX,
            forall|t: int|
                0 <= t < i ==> region_value(state@, spec_offset(fs, t)) == combine(
                    #[trigger] fs[t],
                    region_value(old(state)@, spec_offset(fs, t)),
                    state_cell_val(block@, t, r as int),
                ),
        decreases nfuncs - i,
    {
        proof {
            assert(descs_view(p.aggregate_functions@)[i as int] == p.aggregate_functions@[
            i as int]@);
            lemma_region_in_layout(fs, i as int);
        }
        let f = p.aggregate_functions[i].func;
        proof {
            assert(f == fs[i as int]);
        }
        let v: u64 = read_state_cell(block, i, r, Ghost(fs.len() as int));
        let off = p.offsets[i];
        let ghost pre = state@;
        let res = crate::aggregate_function::acc_combine(f, state, off, v);
        proof {
            assert forall|t: int|
                0 <= t < fs.len() && t != i && res is Ok implies region_value(
                state@,
                spec_offset(fs, t),
            ) == region_value(pre, spec_offset(fs, t)) by {
                lemma_region_in_layout(fs, t);
                if t < i {
                    crate::aggregate_function::lemma_offsets_monotone(fs, t + 1, i as int);
                } else {
                    crate::aggregate_function::lemma_offsets_monotone(fs, i + 1, t);
                }
                assert(region(state@, spec_offset(fs, t)) =~= region(pre, spec_offset(fs, t)));
            }
        }
        match res {
            Ok(()) => {},
            Err(e) => {
                return Err(e);
            },
        }
        i += 1;
    }
    Ok(())
}

/// What the final single-key aggregator emits: one batch of one row whose
/// unsigned cells are the finished values of the merged partial states.
pub open spec fn single_final_fields(p: AggregatorParams) -> Seq<DataFieldV> {
    Seq::new(
        p.funcs().len(),
        |i: int| DataFieldV {
            name: descs_view(p.aggregate_functions@)[i].name,
            data_type: ColumnType::UInt64,
        },
    )
}

pub open spec fn single_final_output(p: AggregatorParams, parts: Seq<Seq<int>>, b: DataBlockV) -> bool {
    &&& b.rows == 1
    &&& b.fields == single_final_fields(p)
    &&& b.columns.len() == p.funcs().len()
    &&& forall|i: int|
        0 <= i < p.funcs().len() ==> ((#[trigger] b.columns[i]) matches ColumnV::UInt64(s)
            && s.len() == 1 && s[0] == fold_combine(p.funcs()[i], part_col(parts, i)))
}

/// Second-phase aggregator of a query without group-by columns: merges the
/// one-row partial state batches of every lane, one row per lane, into the
/// single global group and finalises it.
pub struct FinalSingleKeyAggregator {
    pub params: AggregatorParams,
    pub state: Vec<u8>,
    pub generated: bool,
    pub parts: Ghost<Seq<Seq<int>>>,
    pub fed: Ghost<Seq<DataBlockV>>,
    pub emitted: Ghost<Seq<DataBlockV>>,
}

impl FinalSingleKeyAggregator {
    pub open spec fn spec_state(&self) -> Seq<u8> {
        self.state@
    }

    pub open spec fn spec_generated(&self) -> bool {
        self.generated
    }

    /// The partial state rows merged so far.
    pub open spec fn spec_parts(&self) -> Seq<Seq<int>> {
        self.parts@
    }

    pub open spec fn wf(&self) -> bool {
        &&& self.params.wf()
        &&& self.spec_state().len() == spec_layout_size(self.params.funcs())
    }

    /// The one state buffer holds, per function, exactly the merge of the
    /// partial values consumed so far.
    pub open spec fn sem(&self) -> bool {
        &&& forall|r: int|
            0 <= r < self.spec_parts().len() ==> (#[trigger] self.spec_parts()[r]).len()
                == self.params.funcs().len()
        &&& forall|r: int, u: int|
            0 <= r < self.spec_parts().len() && 0 <= u < self.spec_parts()[r].len() ==> 0 <= (
            #[trigger] self.spec_parts()[r][u]) <= u64::MAX
        &&& forall|i: int|
            0 <= i < self.params.funcs().len() ==> region_value(
                self.spec_state(),
                spec_offset(self.params.funcs(), i),
            ) == fold_combine(#[trigger] self.params.funcs()[i], part_col(self.spec_parts(), i))
    }

    /// A fresh aggregator over no lanes: every region at its identity.
    pub fn try_create(params: AggregatorParams) -> (r: Result<
        FinalSingleKeyAggregator,
        ErrorCode,
    >)
        requires
            params.wf(),
        ensures
            r matches Ok(a) ==> a.wf() && a.sem() && a.spec_parts().len() == 0
                && !a.spec_generated() && a.params == params && a.fed@.len() == 0
                && a.emitted@.len() == 0,
            r is Ok,
    {
        let state = new_state(&params);
        let a = FinalSingleKeyAggregator {
            params,
            state,
            generated: false,
            parts: Ghost(Seq::empty()),
            fed: Ghost(Seq::empty()),
            emitted: Ghost(Seq::empty()),
        };
        proof {
            assert forall|i: int| 0 <= i < a.params.funcs().len() implies region_value(
                a.spec_state(),
                spec_offset(a.params.funcs(), i),
            ) == fold_combine(#[trigger] a.params.funcs()[i], part_col(a.spec_parts(), i)) by {
                assert(part_col(a.spec_parts(), i) =~= Seq::<int>::empty());
            }
        }
        Ok(a)
    }

    /// Merges one batch of partial states, one row per upstream lane. Fails
    /// exactly on a batch that is not a state batch of this function list,
    /// or when a merged value overflows.
    #[verifier::rlimit(60)]
    pub fn consume_block(&mut self, block: DataBlock) -> (r: Result<(), ErrorCode>)
        requires
            old(self).wf(),
        ensures
            final(self).wf(),
            final(self).params == old(self).params,
            final(self).spec_generated() == old(self).spec_generated(),
            r is Ok ==> final(self).fed@ == old(self).fed@.push(block@),
            r is Err ==> final(self).fed@ == old(self).fed@,
            final(self).emitted@ == old(self).emitted@,
            old(self).sem() ==> {
                let newparts = old(self).spec_parts() + spec_parse_states(
                    block@,
                    old(self).params.funcs().len() as int,
                );
                &&& (r is Ok <==> states_block_ok(block@, old(self).params.funcs().len() as int)
                    && (forall|i: int|
                    0 <= i < old(self).params.funcs().len() ==> fold_combine(
                        #[trigger] old(self).params.funcs()[i],
                        part_col(newparts, i),
                    ) <= u64::MAX))
                &&& r is Ok ==> final(self).sem() && final(self).spec_parts() == newparts
            },
    {
        proof {
            use_type_invariant(&block);
        }
        let ghost bv = block@;
        let ghost p = self.params;
        let ghost had_sem = old(self).sem();
        let nfuncs = self.params.aggregate_functions.len();
        let ghost bparts = spec_parse_states(block@, p.funcs().len() as int);
        if !check_states_block(&block, nfuncs) {
            return Err(ErrorCode::UnexpectedError(String::from_str(
                "final aggregation expects batches of partial state columns",
            )));
        }
        let nrows = block.num_rows();
        proof {
            if had_sem {
                lemma_final_sem_fits(p, self.state@, self.parts@);
            }
        }
        let mut r: usize = 0;
        while r < nrows
            invariant
                r <= nrows,
                p == old(self).params,
                had_sem == old(self).sem(),
                self.params == p,
                self.generated == old(self).generated,
                nfuncs == p.aggregate_functions@.len(),
                nrows == block@.rows,
                block@.wf(),
                states_block_ok(block@, p.funcs().len() as int),
                bparts == spec_parse_states(block@, p.funcs().len() as int),
                self.wf(),
                self.fed@ == old(self).fed@,
                self.emitted@ == old(self).emitted@,
                had_sem ==> self.parts@ == old(self).spec_parts() + bparts.take(r as int),
                had_sem ==> self.sem(),
                had_sem ==> forall|i: int|
                    0 <= i < p.funcs().len() ==> fold_combine(
                        #[trigger] p.funcs()[i],
                        part_col(self.parts@, i),
                    ) <= u64::MAX,
            decreases nrows - r,
        {
            let ghost parts0 = self.parts@;
            let ghost rowparts = bparts[r as int];
            let ghost pre = self.state@;
            let res = merge_state_row(&self.params, &block, r, &mut self.state);
            proof {
                if had_sem {
                    assert forall|i: int| 0 <= i < p.funcs().len() implies state_cell_val(
                        block@,
                        i,
                        r as int,
                    ) == rowparts[i] && 0 <= rowparts[i] <= u64::MAX by {
                        assert(bparts[r as int][i] == state_cell_val(block@, i, r as int));
                        let cells = block@.columns[i]->Binary_0;
                        lemma_le_value_bound(cells[r as int]);
                        crate::aggregate_function::lemma_pow256_8();
                    }
                }
            }
            match res {
                Ok(()) => {
                    proof {
                        self.parts@ = parts0.push(rowparts);
                        if had_sem {
                            lemma_parts_take_push(old(self).spec_parts(), bparts, r as int);
                            assert forall|t: int| 0 <= t < p.funcs().len() implies region_value(
                                self.spec_state(),
                                spec_offset(p.funcs(), t),
                            ) == fold_combine(#[trigger] p.funcs()[t], part_col(self.parts@, t))
                                && fold_combine(p.funcs()[t], part_col(self.parts@, t))
                                <= u64::MAX by {
                                lemma_part_col_push(parts0, rowparts, t);
                                lemma_fold_push(p.funcs()[t], part_col(parts0, t), rowparts[t]);
                                lemma_region_in_layout(p.funcs(), t);
                                lemma_le_value_bound(
                                    region(self.spec_state(), spec_offset(p.funcs(), t)),
                                );
                                crate::aggregate_function::lemma_pow256_8();
                            }
                        }
                    }
                },
                Err(e) => {
                    proof {
                        if had_sem {
                            let i = choose|i: int|
                                0 <= i < p.funcs().len() && combine(
                                    p.funcs()[i],
                                    region_value(pre, spec_offset(p.funcs(), i)),
                                    state_cell_val(block@, i, r as int),
                                ) > u64::MAX;
                            let newparts = old(self).spec_parts() + bparts;
                            assert forall|t: int, u: int|
                                0 <= t < newparts.len() && 0 <= u < newparts[t].len() implies 0 <= (
                            #[trigger] newparts[t][u]) <= u64::MAX by {
                                if t < old(self).spec_parts().len() {
                                    assert(newparts[t] == old(self).spec_parts()[t]);
                                } else {
                                    assert(newparts[t] == bparts[t - old(self).spec_parts().len()]);
                                    let cells = block@.columns[u]->Binary_0;
                                    lemma_le_value_bound(cells[t - old(self).spec_parts().len()]);
                                    crate::aggregate_function::lemma_pow256_8();
                                }
                            }
                            assert forall|t: int|
                                0 <= t < newparts.len() implies (#[trigger] newparts[t]).len()
                                > i by {
                                if t >= old(self).spec_parts().len() {
                                    assert(newparts[t] == bparts[t - old(self).spec_parts().len()]);
                                }
                            }
                            lemma_fold_overflow_unfit(
                                p.funcs()[i],
                                old(self).spec_parts(),
                                bparts,
                                r as int,
                                i,
                            );
                        }
                    }
                    return Err(e);
                },
            }
            r += 1;
        }
        proof {
            self.fed@ = self.fed@.push(bv);
            if had_sem {
                assert(bparts.take(nrows as int) =~= bparts);
            }
        }
        Ok(())
    }

    /// Emits the one output batch of the single group: exactly one row, even
    /// when no lane delivered anything, holding each function's finished
    /// value. Every later call emits nothing.
    pub fn generate_block(&mut self) -> (r: Result<Option<DataBlock>, ErrorCode>)
        requires
            old(self).wf(),
        ensures
            final(self).wf(),
            final(self).params == old(self).params,
            final(self).spec_parts() == old(self).spec_parts(),
            final(self).spec_generated(),
            final(self).fed@ == old(self).fed@,
            r matches Ok(o) ==> (o matches Some(b) ==> final(self).emitted@ == old(self).emitted@.push(
                b@,
            )),
            (r matches Ok(o) && o is None) ==> final(self).emitted@ == old(self).emitted@,
            r is Err ==> final(self).emitted@ == old(self).emitted@,
            old(self).sem() ==> final(self).sem(),
            old(self).spec_generated() ==> (r matches Ok(o) && o is None),
            old(self).sem() && !old(self).spec_generated() ==> (r matches Ok(o) && o matches Some(
                b,
            ) && single_final_output(old(self).params, old(self).spec_parts(), b@)),
    {
        if self.generated {
            return Ok(None);
        }
        self.generated = true;
        let ghost p = self.params;
        let ghost had_sem = self.sem();
        let nfuncs = self.params.aggregate_functions.len();
        let mut fields: Vec<DataField> = Vec::new();
        let mut columns: Vec<Column> = Vec::new();
        let mut i: usize = 0;
        while i < nfuncs
            invariant
                i <= nfuncs,
                self.params == p,
                nfuncs == p.aggregate_functions@.len(),
                self.wf(),
                self.sem() == had_sem,
                self.parts@ == old(self).spec_parts(),
                self.generated,
                self.fed@ == old(self).fed@,
                self.emitted@ == old(self).emitted@,
                fields@.len() == i,
                columns@.len() == i,
                forall|t: int|
                    0 <= t < i ==> (#[trigger] fields@[t])@ == (DataFieldV {
                        name: descs_view(p.aggregate_functions@)[t].name,
                        data_type: ColumnType::UInt64,
                    }),
                forall|t: int|
                    0 <= t < i ==> ((#[trigger] columns@[t])@ matches ColumnV::UInt64(s) && s.len()
                        == 1 && s[0] == region_value(
                        self.spec_state(),
                        spec_offset(p.funcs(), t),
                    )),
            decreases nfuncs - i,
        {
            proof {
                assert(descs_view(p.aggregate_functions@)[i as int] == p.aggregate_functions@[
                i as int]@);
                lemma_region_in_layout(p.funcs(), i as int);
            }
            fields.push(DataField::new(
                self.params.aggregate_functions[i].name.clone(),
                ColumnType::UInt64,
            ));
            let v = crate::aggregate_function::acc_finalize(
                self.params.aggregate_functions[i].func,
                &self.state,
                self.params.offsets[i],
            );
            let mut cells: Vec<u64> = Vec::new();
            cells.push(v);
            columns.push(Column::UInt64(cells));
            i += 1;
        }
        let block = match DataBlock::create(fields, columns, 1) {
            Ok(b) => b,
            Err(e) => {
                proof {
                    assert(false);
                }
                return Err(e);
            },
        };
        proof {
            self.emitted@ = self.emitted@.push(block@);
            if had_sem {
                assert(block@.fields =~= single_final_fields(p));
            }
        }
        Ok(Some(block))
    }
}

/// A state buffer whose regions hold merges holds merges that fit.
pub proof fn lemma_final_sem_fits(p: AggregatorParams, state: Seq<u8>, parts: Seq<Seq<int>>)
    requires
        p.wf(),
        state.len() == spec_layout_size(p.funcs()),
        forall|i: int|
            0 <= i < p.funcs().len() ==> region_value(state, spec_offset(p.funcs(), i))
                == fold_combine(#[trigger] p.funcs()[i], part_col(parts, i)),
    ensures
        forall|i: int|
            0 <= i < p.funcs().len() ==> fold_combine(#[trigger] p.funcs()[i], part_col(parts, i))
                <= u64::MAX,
{
    assert forall|i: int| 0 <= i < p.funcs().len() implies fold_combine(
        #[trigger] p.funcs()[i],
        part_col(parts, i),
    ) <= u64::MAX by {
        lemma_region_in_layout(p.funcs(), i);
        lemma_le_value_bound(region(state, spec_offset(p.funcs(), i)));
        crate::aggregate_function::lemma_pow256_8();
    }
}

} // verus!
