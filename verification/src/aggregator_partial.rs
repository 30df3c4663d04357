use vstd::prelude::*;
use vstd::string::StringExecFns;

use crate::aggregate::{
    agg_fits, agg_value, combine, groups_fit, has_key, key_rows, key_vals, lemma_agg_prefix_le,
    lemma_agg_value_bounds, one, unit, AggregateFunction, GKey, SRow,
};
use crate::aggregate_function::{
    descs_view, le_value, lemma_le_value_bound, region, region_value, spec_layout_size,
    spec_offset, AggregateFunctionDesc,
};
use crate::aggregator_params::{
    args_ok, block_match, build_row_key, check_block, method_ok, spec_arg_at, spec_block_args,
    spec_block_rows, spec_row_key, AggregatorParams, GroupKey, HashMethodKind,
};
use crate::aggregator_single_key::{accumulate_row, arg_col, lemma_agg_push};
use crate::arena::{lemma_region_in_layout, new_state, region_bytes, StateArena};
use crate::block::{
    fields_view, Column, ColumnType, ColumnV, DataBlock, DataBlockV, DataField, DataFieldV,
};
use crate::error::ErrorCode;

verus! {

/// Appending one row leaves every other group's values unchanged and
/// appends the row's arguments to its own group.
pub proof fn lemma_key_vals_push(rows: Seq<SRow>, row: SRow, k: GKey, i: int)
    ensures
        row.key == k ==> key_vals(rows.push(row), k, i) == key_vals(rows, k, i).push(row.args[i]),
        row.key != k ==> key_vals(rows.push(row), k, i) == key_vals(rows, k, i),
        has_key(rows.push(row), k) == (has_key(rows, k) || row.key == k),
{
    let pred = |r: SRow| r.key == k;
    reveal(Seq::filter);
    assert(rows.push(row).drop_last() =~= rows);
    if row.key == k {
        assert(key_rows(rows.push(row), k) == key_rows(rows, k).push(row));
        assert(key_vals(rows.push(row), k, i) =~= key_vals(rows, k, i).push(row.args[i]));
    }
    if has_key(rows, k) {
        let j = choose|j: int| 0 <= j < rows.len() && rows[j].key == k;
        assert(rows.push(row)[j].key == k);
    }
    if row.key == k {
        assert(rows.push(row)[rows.len() as int].key == k);
    }
    if has_key(rows.push(row), k) && !(row.key == k) {
        let j = choose|j: int| 0 <= j < rows.push(row).len() && rows.push(row)[j].key == k;
        assert(rows[j].key == k);
    }
}

/// A group's values over a prefix of the rows are a prefix of its values
/// over all the rows.
pub proof fn lemma_key_vals_prefix(base: Seq<SRow>, brows: Seq<SRow>, r: int, k: GKey, i: int)
    requires
        0 <= r <= brows.len(),
    ensures
        key_vals(base + brows, k, i).take(key_vals(base + brows.take(r), k, i).len() as int)
            == key_vals(base + brows.take(r), k, i),
        key_vals(base + brows.take(r), k, i).len() <= key_vals(base + brows, k, i).len(),
{
    let pred = |rr: SRow| rr.key == k;
    let prefix = base + brows.take(r);
    let full = base + brows;
    assert(full =~= prefix + brows.skip(r));
    Seq::<SRow>::filter_distributes_over_add(prefix, brows.skip(r), pred);
    assert(key_rows(full, k) == key_rows(prefix, k) + key_rows(brows.skip(r), k));
    assert(key_vals(full, k, i) =~= key_vals(prefix, k, i) + key_rows(brows.skip(r), k).map_values(
        |rr: SRow| rr.args[i],
    ));
    assert(key_vals(full, k, i).take(key_vals(prefix, k, i).len() as int) =~= key_vals(
        prefix,
        k,
        i,
    ));
}

pub proof fn lemma_rows_take_push_srow(base: Seq<SRow>, brows: Seq<SRow>, r: int)
    requires
        0 <= r < brows.len(),
    ensures
        base + brows.take(r + 1) == (base + brows.take(r)).push(brows[r]),
{
    assert(base + brows.take(r + 1) =~= (base + brows.take(r)).push(brows[r]));
}

/// The schema of a grouped partial state batch: the group key column, then
/// one binary state column per function.
pub open spec fn grouped_partial_fields(p: AggregatorParams, method: HashMethodKind) -> Seq<
    DataFieldV,
> {
    Seq::new(
        p.funcs().len() + 1,
        |i: int|
            if i == 0 {
                DataFieldV {
                    name: "_group_by_key"@,
                    data_type: if method is Serializer {
                        ColumnType::Binary
                    } else {
                        ColumnType::UInt64
                    },
                }
            } else {
                DataFieldV {
                    name: descs_view(p.aggregate_functions@)[i - 1].name,
                    data_type: ColumnType::Binary,
                }
            },
    )
}

/// The key held in cell `j` of a grouped batch's key column.
pub open spec fn spec_key_cell(b: DataBlockV, j: int) -> GKey {
    match b.columns[0] {
        ColumnV::UInt64(s) => GKey::Fixed(s[j]),
        ColumnV::Binary(s) => GKey::Serialized(s[j]),
        _ => GKey::Fixed(0),
    }
}

/// What the grouped partial aggregator emits: one row per distinct group, in
/// first-sight order `ks`, each holding its key and its accumulated states.
pub open spec fn grouped_partial_output(
    p: AggregatorParams,
    method: HashMethodKind,
    ks: Seq<GKey>,
    rows: Seq<SRow>,
    b: DataBlockV,
) -> bool {
    &&& b.rows == ks.len()
    &&& b.fields == grouped_partial_fields(p, method)
    &&& b.columns.len() == p.funcs().len() + 1
    &&& forall|j: int| 0 <= j < ks.len() ==> spec_key_cell(b, j) == ks[j]
    &&& forall|i: int|
        0 <= i < p.funcs().len() ==> ((#[trigger] b.columns[i + 1]) matches ColumnV::Binary(s)
            && s.len() == ks.len() && (forall|j: int|
            0 <= j < ks.len() ==> (#[trigger] s[j]).len() == 8 && le_value(s[j]) == agg_value(
                p.funcs()[i],
                key_vals(rows, ks[j], i),
            )))
}

/// First-phase grouped aggregator: accumulates per-group state from raw
/// input batches under the key representation chosen for the query. With no
/// aggregate functions it degenerates to distinct-key collection.
pub struct PartialAggregator {
    pub method: HashMethodKind,
    pub params: AggregatorParams,
    pub arena: StateArena,
    pub generated: bool,
    pub rows: Ghost<Seq<SRow>>,
    pub fed: Ghost<Seq<DataBlockV>>,
    pub emitted: Ghost<Seq<DataBlockV>>,
}

impl PartialAggregator {
    pub open spec fn spec_rows(&self) -> Seq<SRow> {
        self.rows@
    }

    pub open spec fn spec_keys(&self) -> Seq<GKey> {
        self.arena.keys@.map_values(|k: GroupKey| k@)
    }

    pub open spec fn wf(&self) -> bool {
        &&& self.params.wf()
        &&& self.arena.wf(spec_layout_size(self.params.funcs()))
    }

    /// The arena holds exactly the groups of the consumed rows: one slot per
    /// distinct key in first-sight order, each region the aggregate of its
    /// group's values.
    pub open spec fn sem(&self) -> bool {
        &&& self.arena.distinct()
        &&& forall|k: GKey| has_key(self.spec_rows(), k) <==> self.arena.spec_has(k)
        &&& forall|j: int, i: int|
            0 <= j < self.arena.keys@.len() && 0 <= i < self.params.funcs().len() ==> region_value(
                (#[trigger] self.arena.states@[j])@,
                spec_offset(self.params.funcs(), i),
            ) == agg_value(
                #[trigger] self.params.funcs()[i],
                key_vals(self.spec_rows(), self.arena.keys@[j]@, i),
            )
        &&& forall|r: int|
            0 <= r < self.spec_rows().len() ==> (#[trigger] self.spec_rows()[r]).args.len()
                == self.params.funcs().len()
        &&& forall|j: int|
            0 <= j < self.arena.keys@.len() ==> (if self.method is Serializer {
                (#[trigger] self.arena.keys@[j])@ is Serialized
            } else {
                self.arena.keys@[j]@ is Fixed
            })
    }

    /// A fresh aggregator over no rows and no groups.
    pub fn create(method: HashMethodKind, params: AggregatorParams) -> (r: PartialAggregator)
        requires
            params.wf(),
        ensures
            r.wf(),
            r.sem(),
            r.spec_rows().len() == 0,
            !r.generated,
            r.params == params,
            r.method == method,
            r.fed@.len() == 0,
            r.emitted@.len() == 0,
    {
        PartialAggregator {
            method,
            params,
            arena: StateArena::create(),
            generated: false,
            rows: Ghost(Seq::empty()),
            fed: Ghost(Seq::empty()),
            emitted: Ghost(Seq::empty()),
        }
    }

    /// Feeds one batch: each row's key is located or inserted in the arena
    /// and its argument values accumulated into that group's regions. Fails
    /// exactly on a batch of the wrong schema or argument type, on a batch
    /// whose group columns do not fit the chosen key representation, or when
    /// a group's accumulated value overflows.
    #[verifier::rlimit(100)]
    pub fn consume_block(&mut self, block: DataBlock) -> (r: Result<(), ErrorCode>)
        requires
            old(self).wf(),
        ensures
            final(self).wf(),
            final(self).params == old(self).params,
            final(self).method == old(self).method,
            final(self).generated == old(self).generated,
            r is Ok ==> final(self).fed@ == old(self).fed@.push(block@),
            r is Err ==> final(self).fed@ == old(self).fed@,
            final(self).emitted@ == old(self).emitted@,
            old(self).sem() ==> {
                let newrows = old(self).spec_rows() + spec_block_rows(
                    old(self).method,
                    old(self).params,
                    block@,
                );
                &&& (r is Ok <==> block_match(old(self).params, block@) && args_ok(
                    old(self).params,
                    block@,
                ) && method_ok(old(self).method, block@.columns, old(self).params.group_indices@)
                    && groups_fit(old(self).params.funcs(), newrows))
                &&& r is Ok ==> final(self).sem() && final(self).spec_rows() == newrows
            },
    {
        proof {
            use_type_invariant(&block);
        }
        let ghost bv = block@;
        let ghost p = self.params;
        let ghost m = self.method;
        let ghost had_sem = old(self).sem();
        let ghost brows = spec_block_rows(m, p, block@);
        if !check_block(&self.params, &block) {
            return Err(ErrorCode::UnexpectedError(String::from_str(
                "aggregate input batch does not carry the expected schema",
            )));
        }
        if !self.check_method(&block) {
            return Err(ErrorCode::UnexpectedError(String::from_str(
                "group columns do not fit the chosen key representation",
            )));
        }
        let nrows = block.num_rows();
        proof {
            if had_sem {
                lemma_grouped_sem_fits(p, self.arena, self.rows@);
            }
        }
        let mut r: usize = 0;
        while r < nrows
            invariant
                r <= nrows,
                p == old(self).params,
                m == old(self).method,
                had_sem == old(self).sem(),
                self.params == p,
                self.method == m,
                self.generated == old(self).generated,
                nrows == block@.rows,
                block@.wf(),
                block_match(p, block@),
                args_ok(p, block@),
                method_ok(m, block@.columns, p.group_indices@),
                brows == spec_block_rows(m, p, block@),
                self.wf(),
                self.fed@ == old(self).fed@,
                self.emitted@ == old(self).emitted@,
                had_sem ==> self.rows@ == old(self).spec_rows() + brows.take(r as int),
                had_sem ==> self.sem(),
                had_sem ==> groups_fit(p.funcs(), self.rows@),
            decreases nrows - r,
        {
            let ghost rows0 = self.rows@;
            let ghost srow = brows[r as int];
            let key = build_row_key(self.method, &block, &self.params.group_indices, r);
            proof {
                assert(key@ == srow.key);
            }
            let ghost arena0 = self.arena;
            let j = match self.arena.find(&key) {
                Some(j) => {
                    proof {
                        if had_sem {
                            assert(forall|k: GKey|
                                self.arena.spec_has(k) <==> (has_key(rows0, k) || k
                                    == self.arena.keys@[j as int]@));
                        }
                    }
                    j
                },
                None => {
                    let st = new_state(&self.params);
                    let jn = self.arena.len();
                    let ghost keyg = key@;
                    self.arena.push_slot(key, st);
                    proof {
                        assert forall|t: int|
                            0 <= t < self.arena.states@.len() implies (
                        #[trigger] self.arena.states@[t])@.len() == spec_layout_size(
                            p.funcs(),
                        ) by {
                            if t < jn {
                                assert(self.arena.states@[t] == arena0.states@[t]);
                            }
                        }
                        if had_sem {
                            assert(!arena0.spec_has(keyg));
                            assert(!has_key(rows0, keyg));
                            assert forall|t1: int, t2: int|
                                0 <= t1 < t2 < self.arena.keys@.len() implies (
                            #[trigger] self.arena.keys@[t1])@ != (
                            #[trigger] self.arena.keys@[t2])@ by {
                                if t2 == jn {
                                    assert(self.arena.keys@[t1] == arena0.keys@[t1]);
                                    if self.arena.keys@[t1]@ == keyg {
                                        assert(arena0.spec_has(keyg));
                                    }
                                }
                            }
                            assert forall|k: GKey|
                                self.arena.spec_has(k) <==> (has_key(rows0, k) || k
                                    == keyg) by {
                                if self.arena.spec_has(k) {
                                    let t = choose|t: int|
                                        0 <= t < self.arena.keys@.len() && (
                                        #[trigger] self.arena.keys@[t])@ == k;
                                    if t < jn {
                                        assert(arena0.keys@[t]@ == k);
                                        assert(arena0.spec_has(k));
                                    }
                                }
                                if has_key(rows0, k) {
                                    assert(arena0.spec_has(k));
                                    let t = choose|t: int|
                                        0 <= t < arena0.keys@.len() && (
                                        #[trigger] arena0.keys@[t])@ == k;
                                    assert(self.arena.keys@[t]@ == k);
                                }
                                if k == keyg {
                                    assert(self.arena.keys@[jn as int]@ == k);
                                }
                            }
                            assert(keyg == srow.key);
                            assert(if m is Serializer {
                                keyg is Serialized
                            } else {
                                keyg is Fixed
                            });
                            assert forall|t: int|
                                0 <= t < self.arena.keys@.len() implies (if m is Serializer {
                                (#[trigger] self.arena.keys@[t])@ is Serialized
                            } else {
                                self.arena.keys@[t]@ is Fixed
                            }) by {
                                if t < jn {
                                    assert(self.arena.keys@[t] == arena0.keys@[t]);
                                }
                            }
                        }
                        if had_sem {
                            assert forall|jj: int, i: int|
                                0 <= jj < self.arena.keys@.len() && 0 <= i
                                    < p.funcs().len() implies region_value(
                                (#[trigger] self.arena.states@[jj])@,
                                spec_offset(p.funcs(), i),
                            ) == agg_value(
                                #[trigger] p.funcs()[i],
                                key_vals(rows0, self.arena.keys@[jj]@, i),
                            ) by {
                                if jj < jn {
                                } else {
                                    assert(self.arena.keys@[jj]@ == key@);
                                    assert(!has_key(rows0, key@));
                                    lemma_no_key_no_vals(rows0, key@, i);
                                }
                            }
                        }
                    }
                    jn
                },
            };
            let ghost keyv = self.arena.keys@[j as int]@;
            let ghost pre_states = self.arena.states@;
            let slot = &mut self.arena.states[j];
            let res = accumulate_row(&self.params, &block, r, slot);
            proof {
                assert(self.arena.states@ == pre_states.update(j as int, self.arena.states@[
                j as int]));
            }
            match res {
                Ok(()) => {
                    proof {
                        self.rows@ = rows0.push(srow);
                        if had_sem {
                            lemma_rows_take_push_srow(old(self).spec_rows(), brows, r as int);
                            assert(self.rows@ == old(self).spec_rows() + brows.take(r + 1 as int));
                            lemma_consume_step(
                                p,
                                m,
                                block@,
                                r as int,
                                rows0,
                                srow,
                                pre_states,
                                self.arena,
                                j as int,
                            );
                        }
                    }
                },
                Err(e) => {
                    proof {
                        if had_sem {
                            let i = choose|i: int|
                                0 <= i < p.funcs().len() && combine(
                                    p.funcs()[i],
                                    region_value(pre_states[j as int]@, spec_offset(p.funcs(), i)),
                                    one(p.funcs()[i], spec_arg_at(p, block@, i, r as int)),
                                ) > u64::MAX;
                            lemma_consume_overflow(
                                p,
                                m,
                                block@,
                                r as int,
                                old(self).spec_rows(),
                                brows,
                                pre_states[j as int]@,
                                keyv,
                                i,
                            );
                        }
                    }
                    return Err(e);
                },
            }
            r += 1;
        }
        proof {
            self.fed@ = self.fed@.push(bv);
            if had_sem {
                assert(brows.take(nrows as int) =~= brows);
            }
        }
        Ok(())
    }

    /// Whether the batch's group columns fit the chosen key representation.
    fn check_method(&self, block: &DataBlock) -> (r: bool)
        requires
            self.wf(),
        ensures
            r == method_ok(self.method, block@.columns, self.params.group_indices@),
    {
        block.recall_wf();
        let mut in_range = true;
        let mut jj: usize = 0;
        while jj < self.params.group_indices.len()
            invariant
                jj <= self.params.group_indices@.len(),
                self.wf(),
                block@.wf(),
                in_range == forall|t: int|
                    0 <= t < jj ==> (#[trigger] self.params.group_indices@[t])
                        < block@.columns.len(),
            decreases self.params.group_indices@.len() - jj,
        {
            if self.params.group_indices[jj] >= block.num_columns() {
                in_range = false;
            }
            jj += 1;
        }
        if !in_range {
            // Some group column is missing from the batch; only the
            // serialised representation tolerates nothing, so report the
            // mismatch unless no packing is involved.
            return match self.method {
                HashMethodKind::Serializer => true,
                _ => false,
            };
        }
        let method = self.method;
        match method {
            HashMethodKind::Serializer => true,
            _ => self.check_method_fixed(block),
        }
    }

    /// Direct check of the packed representation against a batch.
    fn check_method_fixed(&self, block: &DataBlock) -> (r: bool)
        requires
            self.wf(),
            !(self.method is Serializer),
            forall|t: int|
                0 <= t < self.params.group_indices@.len() ==> (
                #[trigger] self.params.group_indices@[t]) < block@.columns.len(),
        ensures
            r == method_ok(self.method, block@.columns, self.params.group_indices@),
    {
        block.recall_wf();
        let cap: u64 = match self.method {
            HashMethodKind::KeysU8 => 1,
            HashMethodKind::KeysU16 => 2,
            HashMethodKind::KeysU32 => 4,
            HashMethodKind::KeysU64 => 8,
            HashMethodKind::Serializer => 0,
        };
        let gidx = &self.params.group_indices;
        let mut total: u64 = 0;
        let mut fixed = true;
        let mut j: usize = 0;
        while j < gidx.len()
            invariant
                j <= gidx@.len(),
                block@.wf(),
                forall|t: int| 0 <= t < gidx@.len() ==> (#[trigger] gidx@[t]) < block@.columns.len(),
                total <= 9,
                fixed ==> crate::aggregator_params::all_fixed(
                    block@.columns,
                    gidx@.subrange(0, j as int),
                ),
                fixed && total <= 8 ==> crate::aggregator_params::spec_total_width(
                    block@.columns,
                    gidx@.subrange(0, j as int),
                ) == total,
                fixed && total == 9 ==> crate::aggregator_params::spec_total_width(
                    block@.columns,
                    gidx@.subrange(0, j as int),
                ) >= 9,
                !fixed ==> !crate::aggregator_params::all_fixed(block@.columns, gidx@),
            decreases gidx@.len() - j,
        {
            match block.column(gidx[j]).ctype().fixed_width() {
                Some(w) => {
                    if total + w > 8 {
                        total = 9;
                    } else {
                        total = total + w;
                    }
                },
                None => {
                    fixed = false;
                },
            }
            proof {
                lemma_cols_width_snoc(block@.columns, gidx@, j as int);
            }
            j += 1;
        }
        proof {
            assert(gidx@.subrange(0, gidx@.len() as int) =~= gidx@);
        }
        fixed && total <= cap
    }

    /// Emits the one output batch enumerating every group in first-sight
    /// order, its key beside its accumulated states. Every later call emits
    /// nothing.
    pub fn generate_block(&mut self) -> (r: Result<Option<DataBlock>, ErrorCode>)
        requires
            old(self).wf(),
        ensures
            final(self).wf(),
            final(self).params == old(self).params,
            final(self).method == old(self).method,
            final(self).spec_rows() == old(self).spec_rows(),
            final(self).generated,
            final(self).fed@ == old(self).fed@,
            r matches Ok(o) ==> (o matches Some(b) ==> final(self).emitted@ == old(self).emitted@.push(
                b@,
            )),
            (r matches Ok(o) && o is None) ==> final(self).emitted@ == old(self).emitted@,
            r is Err ==> final(self).emitted@ == old(self).emitted@,
            old(self).sem() ==> final(self).sem() && final(self).spec_keys() == old(self).spec_keys(),
            old(self).generated ==> (r matches Ok(o) && o is None),
            old(self).sem() && !old(self).generated ==> (r matches Ok(o) && o matches Some(b)
                && grouped_partial_output(
                old(self).params,
                old(self).method,
                old(self).spec_keys(),
                old(self).spec_rows(),
                b@,
            )),
    {
        if self.generated {
            return Ok(None);
        }
        self.generated = true;
        let ghost p = self.params;
        let ghost had_sem = self.sem();
        let ngroups = self.arena.len();
        let nfuncs = self.params.aggregate_functions.len();
        let mut fields: Vec<DataField> = Vec::new();
        let keytype = match self.method {
            HashMethodKind::Serializer => ColumnType::Binary,
            _ => ColumnType::UInt64,
        };
        fields.push(DataField::new(String::from_str("_group_by_key"), keytype));
        let mut columns: Vec<Column> = Vec::new();
        let keycol = match self.method {
            HashMethodKind::Serializer => {
                let mut cells: Vec<Vec<u8>> = Vec::new();
                let mut j: usize = 0;
                while j < ngroups
                    invariant
                        j <= ngroups,
                        self.wf(),
                        self.fed@ == old(self).fed@,
                        self.emitted@ == old(self).emitted@,
                        self.generated,
                        ngroups == self.arena.keys@.len(),
                        cells@.len() == j,
                        forall|t: int|
                            0 <= t < j ==> GKey::Serialized((#[trigger] cells@[t])@)
                                == self.spec_keys()[t] || self.spec_keys()[t] is Fixed,
                    decreases ngroups - j,
                {
                    match &self.arena.keys[j] {
                        GroupKey::Serialized(bs) => {
                            cells.push(crate::aggregator_params::bytes_clone(bs));
                        },
                        GroupKey::Fixed(v) => {
                            cells.push(Vec::new());
                        },
                    }
                    j += 1;
                }
                Column::Binary(cells)
            },
            _ => {
                let mut cells: Vec<u64> = Vec::new();
                let mut j: usize = 0;
                while j < ngroups
                    invariant
                        j <= ngroups,
                        self.wf(),
                        self.fed@ == old(self).fed@,
                        self.emitted@ == old(self).emitted@,
                        self.generated,
                        ngroups == self.arena.keys@.len(),
                        cells@.len() == j,
                        forall|t: int|
                            0 <= t < j ==> GKey::Fixed(#[trigger] cells@[t]) == self.spec_keys()[t]
                                || self.spec_keys()[t] is Serialized,
                    decreases ngroups - j,
                {
                    match &self.arena.keys[j] {
                        GroupKey::Fixed(v) => {
                            cells.push(*v);
                        },
                        GroupKey::Serialized(bs) => {
                            cells.push(0);
                        },
                    }
                    j += 1;
                }
                Column::UInt64(cells)
            },
        };
        let ghost kc = keycol@;
        let ghost f0 = fields@[0]@;
        proof {
            match &keycol {
                Column::Binary(cells) => {
                    assert(kc matches ColumnV::Binary(s) && s.len() == ngroups);
                    assert forall|t: int|
                        0 <= t < ngroups implies GKey::Serialized(kc->Binary_0[t])
                            == self.spec_keys()[t] || self.spec_keys()[t] is Fixed by {
                        let cv = cells@.map_values(|b: Vec<u8>| b@);
                        assert(cv[t] == cells@[t]@);
                    }
                    assert(self.method is Serializer);
                },
                Column::UInt64(cells) => {
                    assert(kc matches ColumnV::UInt64(s) && s.len() == ngroups);
                    assert(!(self.method is Serializer));
                },
                _ => {
                    assert(false);
                },
            }
        }
        columns.push(keycol);
        let mut i: usize = 0;
        while i < nfuncs
            invariant
                i <= nfuncs,
                self.params == p,
                self.generated,
                nfuncs == p.aggregate_functions@.len(),
                ngroups == self.arena.keys@.len(),
                self.wf(),
                self.sem() == had_sem,
                self.rows@ == old(self).spec_rows(),
                self.fed@ == old(self).fed@,
                self.emitted@ == old(self).emitted@,
                self.arena.keys@ == old(self).arena.keys@,
                self.arena.states@ == old(self).arena.states@,
                fields@.len() == i + 1,
                columns@.len() == i + 1,
                fields@[0]@ == f0,
                f0 == (DataFieldV {
                    name: "_group_by_key"@,
                    data_type: if self.method is Serializer {
                        ColumnType::Binary
                    } else {
                        ColumnType::UInt64
                    },
                }),
                columns@[0]@ == kc,
                kc.len() == ngroups,
                kc.ctype() == f0.data_type,
                self.method is Serializer ==> (kc matches ColumnV::Binary(s) && (forall|t: int|
                    0 <= t < ngroups ==> GKey::Serialized(#[trigger] s[t]) == self.spec_keys()[t]
                        || self.spec_keys()[t] is Fixed)),
                !(self.method is Serializer) ==> (kc matches ColumnV::UInt64(s) && (forall|t: int|
                    0 <= t < ngroups ==> GKey::Fixed(#[trigger] s[t]) == self.spec_keys()[t]
                        || self.spec_keys()[t] is Serialized)),
                forall|t: int|
                    1 <= t < i + 1 ==> (#[trigger] fields@[t])@ == (DataFieldV {
                        name: descs_view(p.aggregate_functions@)[t - 1].name,
                        data_type: ColumnType::Binary,
                    }),
                forall|t: int|
                    1 <= t < i + 1 ==> ((#[trigger] columns@[t])@ matches ColumnV::Binary(s)
                        && s.len() == ngroups && (forall|g: int|
                        0 <= g < ngroups ==> #[trigger] s[g] == region(
                            self.arena.states@[g]@,
                            spec_offset(p.funcs(), t - 1),
                        ))),
            decreases nfuncs - i,
        {
            proof {
                assert(descs_view(p.aggregate_functions@)[i as int] == p.aggregate_functions@[
                i as int]@);
                lemma_region_in_layout(p.funcs(), i as int);
            }
            fields.push(DataField::new(
                self.params.aggregate_functions[i].name.clone(),
                ColumnType::Binary,
            ));
            let mut cells: Vec<Vec<u8>> = Vec::new();
            let mut g: usize = 0;
            while g < ngroups
                invariant
                    g <= ngroups,
                    self.wf(),
                    self.fed@ == old(self).fed@,
                    self.emitted@ == old(self).emitted@,
                    self.params == p,
                    i < nfuncs,
                    nfuncs == p.aggregate_functions@.len(),
                    ngroups == self.arena.keys@.len(),
                    spec_offset(p.funcs(), i as int) + 8 <= spec_layout_size(p.funcs()),
                    cells@.len() == g,
                    forall|t: int|
                        0 <= t < g ==> (#[trigger] cells@[t])@ == region(
                            self.arena.states@[t]@,
                            spec_offset(p.funcs(), i as int),
                        ),
                decreases ngroups - g,
            {
                cells.push(region_bytes(&self.arena.states[g], self.params.offsets[i]));
                g += 1;
            }
            columns.push(Column::Binary(cells));
            i += 1;
        }
        proof {
            let v = DataBlockV {
                fields: fields_view(fields@),
                columns: columns@.map_values(|c: Column| c@),
                rows: ngroups as nat,
            };
            assert forall|t: int| 0 <= t < v.columns.len() implies (#[trigger] v.columns[t]).len()
                == v.rows && (#[trigger] v.columns[t]).ctype() == v.fields[t].data_type by {
                assert(v.columns[t] == columns@[t]@);
                assert(v.fields[t] == fields@[t]@);
            }
            assert(v.wf());
        }
        let block = match DataBlock::create(fields, columns, ngroups) {
            Ok(b) => b,
            Err(e) => {
                proof {
                    assert(false);
                }
                return Err(e);
            },
        };
        proof {
            self.emitted@ = self.emitted@.push(block@);
            if had_sem {
                assert(block@.fields =~= grouped_partial_fields(p, self.method));
                assert forall|j: int| 0 <= j < self.spec_keys().len() implies spec_key_cell(
                    block@,
                    j,
                ) == self.spec_keys()[j] by {
                    assert(block@.columns[0] == kc);
                    assert(self.spec_keys()[j] == self.arena.keys@[j]@);
                }
                assert forall|i2: int| 0 <= i2 < p.funcs().len() implies ((
                #[trigger] block@.columns[i2 + 1]) matches ColumnV::Binary(s) && s.len()
                    == self.spec_keys().len() && (forall|j: int|
                    0 <= j < self.spec_keys().len() ==> (#[trigger] s[j]).len() == 8 && le_value(
                        s[j],
                    ) == agg_value(
                        p.funcs()[i2],
                        key_vals(self.rows@, self.spec_keys()[j], i2),
                    ))) by {
                    lemma_region_in_layout(p.funcs(), i2);
                }
            }
        }
        Ok(Some(block))
    }
}

/// A group absent from the rows has no values.
pub proof fn lemma_no_key_no_vals(rows: Seq<SRow>, k: GKey, i: int)
    requires
        !has_key(rows, k),
    ensures
        key_vals(rows, k, i) == Seq::<u64>::empty(),
        agg_value(AggregateFunction::Count, key_vals(rows, k, i)) == 0,
{
    let pred = |r: SRow| r.key == k;
    if key_rows(rows, k).len() > 0 {
        let e = key_rows(rows, k)[0];
        assert(key_rows(rows, k).contains(e));
        rows.lemma_filter_pred(pred, 0);
        rows.lemma_filter_contains_rev(pred, e);
        let j = choose|j: int| 0 <= j < rows.len() && rows[j] == e;
        assert(rows[j].key == k);
    }
    assert(key_vals(rows, k, i) =~= Seq::<u64>::empty());
}

/// An arena whose regions hold aggregates holds aggregates that fit.
pub proof fn lemma_grouped_sem_fits(p: AggregatorParams, arena: StateArena, rows: Seq<SRow>)
    requires
        p.wf(),
        arena.wf(spec_layout_size(p.funcs())),
        forall|k: GKey| has_key(rows, k) <==> arena.spec_has(k),
        forall|j: int, i: int|
            0 <= j < arena.keys@.len() && 0 <= i < p.funcs().len() ==> region_value(
                (#[trigger] arena.states@[j])@,
                spec_offset(p.funcs(), i),
            ) == agg_value(#[trigger] p.funcs()[i], key_vals(rows, arena.keys@[j]@, i)),
    ensures
        groups_fit(p.funcs(), rows),
{
    assert forall|k: GKey, i: int|
        has_key(rows, k) && 0 <= i < p.funcs().len() implies agg_fits(
        p.funcs()[i],
        #[trigger] key_vals(rows, k, i),
    ) by {
        assert(arena.spec_has(k));
        let j = choose|j: int| 0 <= j < arena.keys@.len() && (#[trigger] arena.keys@[j])@ == k;
        lemma_region_in_layout(p.funcs(), i);
        lemma_le_value_bound(region(arena.states@[j]@, spec_offset(p.funcs(), i)));
        crate::aggregate_function::lemma_pow256_8();
    }
}

/// One successful row step preserves the arena semantics.
#[verifier::rlimit(100)]
pub proof fn lemma_consume_step(
    p: AggregatorParams,
    m: HashMethodKind,
    b: DataBlockV,
    r: int,
    rows0: Seq<SRow>,
    srow: SRow,
    pre_states: Seq<Vec<u8>>,
    arena: StateArena,
    j: int,
)
    requires
        p.wf(),
        arena.wf(spec_layout_size(p.funcs())),
        arena.distinct(),
        0 <= j < arena.keys@.len(),
        arena.states@.len() == pre_states.len(),
        pre_states[j]@.len() == spec_layout_size(p.funcs()),
        srow.key == arena.keys@[j]@,
        srow.args.len() == p.funcs().len(),
        forall|t: int| 0 <= t < pre_states.len() && t != j ==> arena.states@[t] == pre_states[t],
        forall|k: GKey| arena.spec_has(k) <==> (has_key(rows0, k) || k == arena.keys@[j]@),
        forall|jj: int, i: int|
            0 <= jj < arena.keys@.len() && 0 <= i < p.funcs().len() ==> region_value(
                (#[trigger] pre_states[jj])@,
                spec_offset(p.funcs(), i),
            ) == agg_value(#[trigger] p.funcs()[i], key_vals(rows0, arena.keys@[jj]@, i)),
        forall|i: int|
            0 <= i < p.funcs().len() ==> region_value(
                (#[trigger] arena.states@[j])@,
                spec_offset(p.funcs(), i),
            ) == combine(
                #[trigger] p.funcs()[i],
                region_value(pre_states[j]@, spec_offset(p.funcs(), i)),
                one(p.funcs()[i], srow.args[i]),
            ),
        forall|rr: int|
            0 <= rr < rows0.len() ==> (#[trigger] rows0[rr]).args.len() == p.funcs().len(),
        groups_fit(p.funcs(), rows0),
    ensures
        forall|k: GKey| has_key(rows0.push(srow), k) <==> arena.spec_has(k),
        forall|jj: int, i: int|
            0 <= jj < arena.keys@.len() && 0 <= i < p.funcs().len() ==> region_value(
                (#[trigger] arena.states@[jj])@,
                spec_offset(p.funcs(), i),
            ) == agg_value(
                #[trigger] p.funcs()[i],
                key_vals(rows0.push(srow), arena.keys@[jj]@, i),
            ),
        forall|rr: int|
            0 <= rr < rows0.push(srow).len() ==> (#[trigger] rows0.push(srow)[rr]).args.len()
                == p.funcs().len(),
        groups_fit(p.funcs(), rows0.push(srow)),
{
    let newrows = rows0.push(srow);
    let kj = arena.keys@[j]@;
    assert forall|k: GKey| has_key(newrows, k) <==> arena.spec_has(k) by {
        lemma_key_vals_push(rows0, srow, k, 0);
        assert(has_key(newrows, k) == (has_key(rows0, k) || srow.key == k));
    }
    assert forall|jj: int, i: int|
        0 <= jj < arena.keys@.len() && 0 <= i < p.funcs().len() implies region_value(
        (#[trigger] arena.states@[jj])@,
        spec_offset(p.funcs(), i),
    ) == agg_value(#[trigger] p.funcs()[i], key_vals(newrows, arena.keys@[jj]@, i)) by {
        let kk = arena.keys@[jj]@;
        lemma_key_vals_push(rows0, srow, kk, i);
        assert(region_value(pre_states[jj]@, spec_offset(p.funcs(), i)) == agg_value(
            p.funcs()[i],
            key_vals(rows0, kk, i),
        ));
        if jj == j {
            assert(region_value(arena.states@[j]@, spec_offset(p.funcs(), i)) == combine(
                p.funcs()[i],
                region_value(pre_states[j]@, spec_offset(p.funcs(), i)),
                one(p.funcs()[i], srow.args[i]),
            ));
            lemma_agg_push(p.funcs()[i], key_vals(rows0, kj, i), srow.args[i]);
        } else {
            assert(kk != kj);
            assert(arena.states@[jj] == pre_states[jj]);
        }
    }
    assert forall|k: GKey, i: int|
        has_key(newrows, k) && 0 <= i < p.funcs().len() implies agg_fits(
        p.funcs()[i],
        #[trigger] key_vals(newrows, k, i),
    ) by {
        lemma_key_vals_push(rows0, srow, k, i);
        if k == kj {
            assert(arena.spec_has(k));
            let jj = choose|jj: int|
                0 <= jj < arena.keys@.len() && (#[trigger] arena.keys@[jj])@ == k;
            assert(arena.keys@[jj]@ == kj);
            if jj != j {
                assert(false);
            }
            lemma_region_in_layout(p.funcs(), i);
            lemma_le_value_bound(region(arena.states@[j]@, spec_offset(p.funcs(), i)));
            crate::aggregate_function::lemma_pow256_8();
            lemma_agg_push(p.funcs()[i], key_vals(rows0, kj, i), srow.args[i]);
        } else {
            assert(has_key(rows0, k));
        }
    }
}

/// An accumulation step that overflows witnesses that the whole input's
/// groups do not fit.
pub proof fn lemma_consume_overflow(
    p: AggregatorParams,
    m: HashMethodKind,
    b: DataBlockV,
    r: int,
    base: Seq<SRow>,
    brows: Seq<SRow>,
    pre_state: Seq<u8>,
    keyv: GKey,
    i: int,
)
    requires
        p.wf(),
        0 <= r < brows.len(),
        0 <= i < p.funcs().len(),
        brows == spec_block_rows(m, p, b),
        b.rows == brows.len(),
        keyv == brows[r].key,
        region_value(pre_state, spec_offset(p.funcs(), i)) == agg_value(
            p.funcs()[i],
            key_vals(base + brows.take(r), keyv, i),
        ),
        combine(
            p.funcs()[i],
            region_value(pre_state, spec_offset(p.funcs(), i)),
            one(p.funcs()[i], spec_arg_at(p, b, i, r)),
        ) > u64::MAX,
    ensures
        !groups_fit(p.funcs(), base + brows),
{
    let f = p.funcs()[i];
    let rows0 = base + brows.take(r);
    let srow = brows[r];
    let col0 = key_vals(rows0, keyv, i);
    lemma_agg_value_bounds(f, col0);
    assert(srow.args[i] == spec_arg_at(p, b, i, r));
    if f is Min || f is Max {
        assert(false);
    } else {
        lemma_rows_take_push_srow(base, brows, r);
        lemma_key_vals_push(rows0, srow, keyv, i);
        lemma_agg_push(f, col0, srow.args[i]);
        let prefix = base + brows.take(r + 1);
        assert(agg_value(f, key_vals(prefix, keyv, i)) > u64::MAX);
        lemma_key_vals_prefix(base, brows, r + 1, keyv, i);
        let full = base + brows;
        let n = key_vals(prefix, keyv, i).len();
        lemma_agg_prefix_le(f, key_vals(full, keyv, i), n as int);
        assert(!agg_fits(f, key_vals(full, keyv, i)));
        assert(has_key(full, keyv)) by {
            assert(full[base.len() + r].key == keyv);
        }
    }
}

/// Width and fixedness of a prefix of group columns extended by one, stated
/// over a block's columns.
proof fn lemma_cols_width_snoc(cols: Seq<ColumnV>, gidx: Seq<usize>, j: int)
    requires
        0 <= j < gidx.len(),
    ensures
        crate::aggregator_params::all_fixed(cols, gidx.subrange(0, j + 1)) == (
        crate::aggregator_params::all_fixed(cols, gidx.subrange(0, j)) && cols[gidx[
            j] as int].ctype().spec_fixed_width() is Some),
        crate::aggregator_params::spec_total_width(cols, gidx.subrange(0, j + 1))
            == crate::aggregator_params::spec_total_width(cols, gidx.subrange(0, j))
            + crate::aggregator_params::width_nat(cols[gidx[j] as int].ctype()),
    decreases j,
{
    let a = gidx.subrange(0, j + 1);
    let b = gidx.subrange(0, j);
    assert forall|t: int| 0 <= t < a.len() implies a[t] == gidx[t] by {}
    if j == 0 {
        assert(a.drop_first() =~= Seq::<usize>::empty());
        assert(b =~= Seq::<usize>::empty());
    } else {
        lemma_cols_width_snoc(cols, gidx.drop_first(), j - 1);
        assert(gidx.drop_first().subrange(0, j) =~= a.drop_first());
        assert(gidx.drop_first().subrange(0, j - 1) =~= b.drop_first());
        assert(gidx.drop_first()[j - 1] == gidx[j]);
        lemma_cols_all_fixed_first(cols, a);
        lemma_cols_all_fixed_first(cols, b);
    }
}

proof fn lemma_cols_all_fixed_first(cols: Seq<ColumnV>, gidx: Seq<usize>)
    requires
        gidx.len() > 0,
    ensures
        crate::aggregator_params::all_fixed(cols, gidx) == (crate::aggregator_params::all_fixed(
            cols,
            gidx.drop_first(),
        ) && cols[gidx[0] as int].ctype().spec_fixed_width() is Some),
{
    let rest = gidx.drop_first();
    assert(forall|t: int| 0 <= t < rest.len() ==> rest[t] == gidx[t + 1]);
    if crate::aggregator_params::all_fixed(cols, gidx) {
        assert forall|t: int|
            0 <= t < rest.len() implies (#[trigger] cols[rest[t] as int].ctype()).spec_fixed_width()
            is Some by {
            assert(cols[gidx[t + 1] as int].ctype().spec_fixed_width() is Some);
        }
    }
    if crate::aggregator_params::all_fixed(cols, rest) && cols[gidx[0] as int].ctype().spec_fixed_width()
        is Some {
        assert forall|t: int|
            0 <= t < gidx.len() implies (#[trigger] cols[gidx[t] as int].ctype()).spec_fixed_width()
            is Some by {
            if t > 0 {
                assert(cols[rest[t - 1] as int].ctype().spec_fixed_width() is Some);
            }
        }
    }
}

} // verus!
