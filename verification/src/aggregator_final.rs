use vstd::prelude::*;
use vstd::string::StringExecFns;

use crate::aggregate::{
    combine, fold_combine, has_key, key_vals, unit, AggregateFunction, GKey, SRow,
};
use crate::aggregate_function::{
    descs_view, le_value, lemma_le_value_bound, region, region_value, spec_layout_size,
    spec_offset, AggregateFunctionDesc,
};
use crate::aggregator_params::{bytes_clone, AggregatorParams, GroupKey, HashMethodKind};
use crate::aggregator_partial::spec_key_cell;
use crate::aggregator_single_key::{
    lemma_fold_bounds, lemma_fold_prefix_le, lemma_fold_push,
};
use crate::arena::{lemma_region_in_layout, new_state, StateArena};
use crate::block::{
    fields_view, Column, ColumnType, ColumnV, DataBlock, DataBlockV, DataField, DataFieldV,
};
use crate::error::ErrorCode;

verus! {

/// One parsed entry of a grouped partial state batch: a group key and the
/// per-function partial values of one upstream lane.
pub open spec fn spec_parse_entries(b: DataBlockV, nfuncs: int) -> Seq<(GKey, Seq<int>)> {
    Seq::new(
        b.rows,
        |r: int|
            (
                spec_key_cell(b, r),
                Seq::new(
                    nfuncs as nat,
                    |i: int|
                        match b.columns[i + 1] {
                            ColumnV::Binary(s) => le_value(s[r]),
                            _ => 0,
                        },
                ),
            ),
    )
}

/// Whether a batch is a well-shaped grouped partial state batch for this
/// method: a key column of the method's type, then one binary state column
/// per function with eight-byte cells.
pub open spec fn grouped_states_block_ok(b: DataBlockV, nfuncs: int, method: HashMethodKind) -> bool {
    &&& b.columns.len() == nfuncs + 1
    &&& (if method is Serializer {
        b.columns[0] matches ColumnV::Binary(s) && s.len() == b.rows
    } else {
        b.columns[0] matches ColumnV::UInt64(s) && s.len() == b.rows
    })
    &&& forall|i: int|
        0 <= i < nfuncs ==> ((#[trigger] b.columns[i + 1]) matches ColumnV::Binary(s) && s.len()
            == b.rows && (forall|r: int| 0 <= r < s.len() ==> (#[trigger] s[r]).len() == 8))
}

/// The entries that belong to group `k`.
pub open spec fn entry_key_rows(entries: Seq<(GKey, Seq<int>)>, k: GKey) -> Seq<(GKey, Seq<int>)> {
    entries.filter(|e: (GKey, Seq<int>)| e.0 == k)
}

/// The partial values entries with key `k` carry for function `i`.
pub open spec fn entry_vals(entries: Seq<(GKey, Seq<int>)>, k: GKey, i: int) -> Seq<int> {
    entry_key_rows(entries, k).map_values(|e: (GKey, Seq<int>)| e.1[i])
}

pub open spec fn has_ekey(entries: Seq<(GKey, Seq<int>)>, k: GKey) -> bool {
    exists|j: int| 0 <= j < entries.len() && entries[j].0 == k
}

pub proof fn lemma_entry_push(entries: Seq<(GKey, Seq<int>)>, e: (GKey, Seq<int>), k: GKey, i: int)
    ensures
        e.0 == k ==> entry_vals(entries.push(e), k, i) == entry_vals(entries, k, i).push(e.1[i]),
        e.0 != k ==> entry_vals(entries.push(e), k, i) == entry_vals(entries, k, i),
        has_ekey(entries.push(e), k) == (has_ekey(entries, k) || e.0 == k),
{
    let pred = |x: (GKey, Seq<int>)| x.0 == k;
    reveal(Seq::filter);
    assert(entries.push(e).drop_last() =~= entries);
    if e.0 == k {
        assert(entry_vals(entries.push(e), k, i) =~= entry_vals(entries, k, i).push(e.1[i]));
        assert(entries.push(e)[entries.len() as int].0 == k);
    }
    if has_ekey(entries, k) {
        let j = choose|j: int| 0 <= j < entries.len() && entries[j].0 == k;
        assert(entries.push(e)[j].0 == k);
    }
    if has_ekey(entries.push(e), k) && !(e.0 == k) {
        let j = choose|j: int| 0 <= j < entries.push(e).len() && entries.push(e)[j].0 == k;
        assert(entries[j].0 == k);
    }
}

pub proof fn lemma_entries_take_push(base: Seq<(GKey, Seq<int>)>, bs: Seq<(GKey, Seq<int>)>, r: int)
    requires
        0 <= r < bs.len(),
    ensures
        base + bs.take(r + 1) == (base + bs.take(r)).push(bs[r]),
{
    assert(base + bs.take(r + 1) =~= (base + bs.take(r)).push(bs[r]));
}

/// A group's partial values over a prefix of the entries are a prefix of
/// its values over all the entries.
pub proof fn lemma_entry_vals_prefix(
    base: Seq<(GKey, Seq<int>)>,
    bs: Seq<(GKey, Seq<int>)>,
    r: int,
    k: GKey,
    i: int,
)
    requires
        0 <= r <= bs.len(),
    ensures
        entry_vals(base + bs, k, i).take(entry_vals(base + bs.take(r), k, i).len() as int)
            == entry_vals(base + bs.take(r), k, i),
        entry_vals(base + bs.take(r), k, i).len() <= entry_vals(base + bs, k, i).len(),
{
    let prefix = base + bs.take(r);
    let full = base + bs;
    assert(full =~= prefix + bs.skip(r));
    lemma_entry_key_rows_add(prefix, bs.skip(r), k);
    assert(entry_key_rows(full, k) == entry_key_rows(prefix + bs.skip(r), k));
    assert(entry_vals(full, k, i) =~= entry_vals(prefix, k, i) + entry_key_rows(
        bs.skip(r),
        k,
    ).map_values(|e: (GKey, Seq<int>)| e.1[i]));
    assert(entry_vals(full, k, i).take(entry_vals(prefix, k, i).len() as int) =~= entry_vals(
        prefix,
        k,
        i,
    ));
}

/// The group filter distributes over concatenation.
pub proof fn lemma_entry_key_rows_add(a: Seq<(GKey, Seq<int>)>, b: Seq<(GKey, Seq<int>)>, k: GKey)
    ensures
        entry_key_rows(a + b, k) == entry_key_rows(a, k) + entry_key_rows(b, k),
    decreases b.len(),
{
    reveal(Seq::filter);
    if b.len() == 0 {
        assert(a + b =~= a);
        assert(entry_key_rows(b, k) =~= Seq::<(GKey, Seq<int>)>::empty());
        assert(entry_key_rows(a, k) + entry_key_rows(b, k) =~= entry_key_rows(a, k));
    } else {
        lemma_entry_key_rows_add(a, b.drop_last(), k);
        assert((a + b).drop_last() =~= a + b.drop_last());
        assert(b.drop_last().push(b.last()) =~= b);
        if b.last().0 == k {
            assert(entry_key_rows(a + b, k) == entry_key_rows(a + b.drop_last(), k).push(
                b.last(),
            ));
            assert(entry_key_rows(b, k) == entry_key_rows(b.drop_last(), k).push(b.last()));
            assert((entry_key_rows(a, k) + entry_key_rows(b.drop_last(), k)).push(b.last())
                =~= entry_key_rows(a, k) + entry_key_rows(b.drop_last(), k).push(b.last()));
        } else {
            assert(entry_key_rows(a + b, k) == entry_key_rows(a + b.drop_last(), k));
            assert(entry_key_rows(b, k) == entry_key_rows(b.drop_last(), k));
        }
    }
}

/// Every entry the group filter keeps belongs to the group and to the
/// entries, and the filter is empty exactly for absent keys.
pub proof fn lemma_entry_key_rows_facts(entries: Seq<(GKey, Seq<int>)>, k: GKey)
    ensures
        forall|t: int|
            0 <= t < entry_key_rows(entries, k).len() ==> ((#[trigger] entry_key_rows(entries, k)[
            t]).0 == k && entries.contains(entry_key_rows(entries, k)[t])),
        has_ekey(entries, k) ==> entry_key_rows(entries, k).len() > 0,
        !has_ekey(entries, k) ==> entry_key_rows(entries, k).len() == 0,
    decreases entries.len(),
{
    reveal(Seq::filter);
    if entries.len() == 0 {
    } else {
        let prev = entries.drop_last();
        let last = entries.last();
        lemma_entry_key_rows_facts(prev, k);
        if last.0 == k {
            assert(entry_key_rows(entries, k) == entry_key_rows(prev, k).push(last));
        } else {
            assert(entry_key_rows(entries, k) == entry_key_rows(prev, k));
        }
        assert forall|t: int| 0 <= t < entry_key_rows(entries, k).len() implies ((
        #[trigger] entry_key_rows(entries, k)[t]).0 == k && entries.contains(
            entry_key_rows(entries, k)[t],
        )) by {
            if t < entry_key_rows(prev, k).len() {
                assert(entry_key_rows(entries, k)[t] == entry_key_rows(prev, k)[t]);
                assert(prev.contains(entry_key_rows(prev, k)[t]));
                let q = choose|q: int|
                    0 <= q < prev.len() && prev[q] == entry_key_rows(prev, k)[t];
                assert(entries[q] == entry_key_rows(entries, k)[t]);
            } else {
                assert(entry_key_rows(entries, k)[t] == last);
                assert(entries[entries.len() - 1] == last);
            }
        }
        if has_ekey(entries, k) {
            let j = choose|j: int| 0 <= j < entries.len() && entries[j].0 == k;
            if j < entries.len() - 1 {
                assert(prev[j].0 == k);
                assert(has_ekey(prev, k));
            }
        }
        if has_ekey(prev, k) {
            let j = choose|j: int| 0 <= j < prev.len() && prev[j].0 == k;
            assert(entries[j].0 == k);
        }
    }
}

/// No entries with an absent key.
pub proof fn lemma_no_ekey_no_vals(entries: Seq<(GKey, Seq<int>)>, k: GKey, i: int)
    requires
        !has_ekey(entries, k),
    ensures
        entry_vals(entries, k, i) == Seq::<int>::empty(),
{
    lemma_entry_key_rows_facts(entries, k);
    assert(entry_vals(entries, k, i) =~= Seq::<int>::empty());
}

/// The schema of the final output batch: the group key column, then one
/// unsigned value column per function.
pub open spec fn grouped_final_fields(p: AggregatorParams, method: HashMethodKind) -> Seq<
    DataFieldV,
> {
    Seq::new(
        p.funcs().len() + 1,
        |i: int|
            if i == 0 {
                DataFieldV {
                    name: "_group_by_key"@,
                    data_type: if method is Serializer {
                        ColumnType::Binary
                    } else {
                        ColumnType::UInt64
                    },
                }
            } else {
                DataFieldV {
                    name: descs_view(p.aggregate_functions@)[i - 1].name,
                    data_type: ColumnType::UInt64,
                }
            },
    )
}

/// What the grouped final aggregator emits: one row per distinct group, its
/// key beside each function's merged, finished value.
pub open spec fn grouped_final_output(
    p: AggregatorParams,
    method: HashMethodKind,
    ks: Seq<GKey>,
    entries: Seq<(GKey, Seq<int>)>,
    b: DataBlockV,
) -> bool {
    &&& b.rows == ks.len()
    &&& b.fields == grouped_final_fields(p, method)
    &&& b.columns.len() == p.funcs().len() + 1
    &&& forall|j: int| 0 <= j < ks.len() ==> spec_key_cell(b, j) == ks[j]
    &&& forall|i: int|
        0 <= i < p.funcs().len() ==> ((#[trigger] b.columns[i + 1]) matches ColumnV::UInt64(s)
            && s.len() == ks.len() && (forall|j: int|
            0 <= j < ks.len() ==> #[trigger] s[j] == fold_combine(
                p.funcs()[i],
                entry_vals(entries, ks[j], i),
            )))
}

/// Second-phase grouped aggregator: after the lanes converge, merges the
/// per-group partial states of every lane into finished values.
pub struct FinalAggregator {
    pub method: HashMethodKind,
    pub params: AggregatorParams,
    pub arena: StateArena,
    pub generated: bool,
    pub entries: Ghost<Seq<(GKey, Seq<int>)>>,
    pub fed: Ghost<Seq<DataBlockV>>,
    pub emitted: Ghost<Seq<DataBlockV>>,
}

impl FinalAggregator {
    pub open spec fn spec_entries(&self) -> Seq<(GKey, Seq<int>)> {
        self.entries@
    }

    pub open spec fn spec_keys(&self) -> Seq<GKey> {
        self.arena.keys@.map_values(|k: GroupKey| k@)
    }

    pub open spec fn wf(&self) -> bool {
        &&& self.params.wf()
        &&& self.arena.wf(spec_layout_size(self.params.funcs()))
    }

    /// The arena holds exactly the groups of the merged entries, each region
    /// the merge of its group's partial values.
    pub open spec fn sem(&self) -> bool {
        &&& self.arena.distinct()
        &&& forall|k: GKey| has_ekey(self.spec_entries(), k) <==> self.arena.spec_has(k)
        &&& forall|j: int, i: int|
            0 <= j < self.arena.keys@.len() && 0 <= i < self.params.funcs().len() ==> region_value(
                (#[trigger] self.arena.states@[j])@,
                spec_offset(self.params.funcs(), i),
            ) == fold_combine(
                #[trigger] self.params.funcs()[i],
                entry_vals(self.spec_entries(), self.arena.keys@[j]@, i),
            )
        &&& forall|r: int|
            0 <= r < self.spec_entries().len() ==> (#[trigger] self.spec_entries()[r]).1.len()
                == self.params.funcs().len()
        &&& forall|r: int, u: int|
            0 <= r < self.spec_entries().len() && 0 <= u < self.spec_entries()[r].1.len() ==> 0 <= (
            #[trigger] self.spec_entries()[r].1[u]) <= u64::MAX
        &&& forall|j: int|
            0 <= j < self.arena.keys@.len() ==> (if self.method is Serializer {
                (#[trigger] self.arena.keys@[j])@ is Serialized
            } else {
                self.arena.keys@[j]@ is Fixed
            })
    }

    /// A fresh aggregator over no entries and no groups.
    pub fn create(method: HashMethodKind, params: AggregatorParams) -> (r: FinalAggregator)
        requires
            params.wf(),
        ensures
            r.wf(),
            r.sem(),
            r.spec_entries().len() == 0,
            !r.generated,
            r.params == params,
            r.method == method,
            r.fed@.len() == 0,
            r.emitted@.len() == 0,
    {
        FinalAggregator {
            method,
            params,
            arena: StateArena::create(),
            generated: false,
            entries: Ghost(Seq::empty()),
            fed: Ghost(Seq::empty()),
            emitted: Ghost(Seq::empty()),
        }
    }

    /// Checks the shape of a grouped partial state batch.
    fn check_entries_block(&self, block: &DataBlock) -> (r: bool)
        requires
            self.wf(),
        ensures
            r == grouped_states_block_ok(block@, self.params.funcs().len() as int, self.method),
    {
        block.recall_wf();
        let nfuncs = self.params.aggregate_functions.len();
        let ncols = block.num_columns();
        if ncols == 0 || ncols - 1 != nfuncs {
            return false;
        }
        let keyok = match (block.column(0), self.method) {
            (Column::Binary(s), HashMethodKind::Serializer) => true,
            (Column::UInt64(s), HashMethodKind::KeysU8) => true,
            (Column::UInt64(s), HashMethodKind::KeysU16) => true,
            (Column::UInt64(s), HashMethodKind::KeysU32) => true,
            (Column::UInt64(s), HashMethodKind::KeysU64) => true,
            _ => false,
        };
        if !keyok {
            return false;
        }
        let mut i: usize = 0;
        while i < nfuncs
            invariant
                i <= nfuncs,
                block@.wf(),
                ncols == block@.columns.len(),
                ncols == nfuncs + 1,
                forall|t: int|
                    0 <= t < i ==> ((#[trigger] block@.columns[t + 1]) matches ColumnV::Binary(s)
                        && s.len() == block@.rows && (forall|r: int|
                        0 <= r < s.len() ==> (#[trigger] s[r]).len() == 8)),
            decreases nfuncs - i,
        {
            match block.column(i + 1) {
                Column::Binary(cells) => {
                    proof {
                        assert(block@.columns[i + 1 as int] == ColumnV::Binary(
                            cells@.map_values(|b: Vec<u8>| b@),
                        ));
                    }
                    let mut r: usize = 0;
                    while r < cells.len()
                        invariant
                            r <= cells@.len(),
                            i + 1 < block@.columns.len(),
                            block@.columns[i + 1 as int] == ColumnV::Binary(
                                cells@.map_values(|b: Vec<u8>| b@),
                            ),
                            forall|t: int| 0 <= t < r ==> (#[trigger] cells@[t])@.len() == 8,
                        decreases cells@.len() - r,
                    {
                        proof {
                            assert(cells@.map_values(|b: Vec<u8>| b@)[r as int] == cells@[
                            r as int]@);
                        }
                        if cells[r].len() != 8 {
                            return false;
                        }
                        r += 1;
                    }
                    proof {
                        let sv = cells@.map_values(|b: Vec<u8>| b@);
                        assert forall|t: int| 0 <= t < sv.len() implies (#[trigger] sv[t]).len()
                            == 8 by {
                            assert(sv[t] == cells@[t]@);
                        }
                    }
                },
                _ => {
                    return false;
                },
            }
            i += 1;
        }
        true
    }

    /// Reads the group key of row `r` of a grouped state batch.
    fn read_key(&self, block: &DataBlock, r: usize) -> (k: GroupKey)
        requires
            self.wf(),
            block@.wf(),
            grouped_states_block_ok(block@, self.params.funcs().len() as int, self.method),
            r < block@.rows,
        ensures
            k@ == spec_key_cell(block@, r as int),
    {
        block.recall_wf();
        match block.column(0) {
            Column::UInt64(s) => GroupKey::Fixed(s[r]),
            Column::Binary(s) => {
                proof {
                    assert(block@.columns[0] == ColumnV::Binary(
                        s@.map_values(|b: Vec<u8>| b@),
                    ));
                    assert(s@.map_values(|b: Vec<u8>| b@)[r as int] == s@[r as int]@);
                }
                GroupKey::Serialized(bytes_clone(&s[r]))
            },
            _ => {
                proof {
                    assert(false);
                }
                GroupKey::Fixed(0)
            },
        }
    }

    /// Reads the partial value of function `i` in row `r`.
    fn read_entry_cell(&self, block: &DataBlock, i: usize, r: usize) -> (v: u64)
        requires
            self.wf(),
            block@.wf(),
            grouped_states_block_ok(block@, self.params.funcs().len() as int, self.method),
            i < self.params.funcs().len(),
            r < block@.rows,
        ensures
            v as int == spec_parse_entries(block@, self.params.funcs().len() as int)[r as int].1[
                i as int],
        0 <= v,
    {
        block.recall_wf();
        let ncols = block.num_columns();
        proof {
            assert(i + 1 <= ncols);
        }
        match block.column(i + 1) {
            Column::Binary(cells) => {
                proof {
                    assert(block@.columns[i + 1 as int] == ColumnV::Binary(
                        cells@.map_values(|b: Vec<u8>| b@),
                    ));
                    assert(cells@.map_values(|b: Vec<u8>| b@)[r as int] == cells@[r as int]@);
                }
                let cell = &cells[r];
                proof {
                    assert(cell@.subrange(0, 8) =~= cell@);
                }
                crate::aggregate_function::le8_at(cell, 0)
            },
            _ => {
                proof {
                    assert(false);
                }
                0
            },
        }
    }

    /// Merges one batch of grouped partial states: each row's key is located
    /// or inserted in the arena and its partial values merged into that
    /// group's regions. Fails exactly on a batch of the wrong shape, or when
    /// a merged value overflows.
    #[verifier::rlimit(100)]
    pub fn consume_block(&mut self, block: DataBlock) -> (r: Result<(), ErrorCode>)
        requires
            old(self).wf(),
        ensures
            final(self).wf(),
            final(self).params == old(self).params,
            final(self).method == old(self).method,
            final(self).generated == old(self).generated,
            r is Ok ==> final(self).fed@ == old(self).fed@.push(block@),
            r is Err ==> final(self).fed@ == old(self).fed@,
            final(self).emitted@ == old(self).emitted@,
            old(self).sem() ==> {
                let newentries = old(self).spec_entries() + spec_parse_entries(
                    block@,
                    old(self).params.funcs().len() as int,
                );
                &&& (r is Ok <==> grouped_states_block_ok(
                    block@,
                    old(self).params.funcs().len() as int,
                    old(self).method,
                ) && (forall|k: GKey, i: int|
                    has_ekey(newentries, k) && 0 <= i < old(self).params.funcs().len()
                        ==> fold_combine(
                        old(self).params.funcs()[i],
                        #[trigger] entry_vals(newentries, k, i),
                    ) <= u64::MAX))
                &&& r is Ok ==> final(self).sem() && final(self).spec_entries() == newentries
            },
    {
        proof {
            use_type_invariant(&block);
        }
        let ghost bv = block@;
        let ghost p = self.params;
        let ghost m = self.method;
        let ghost had_sem = old(self).sem();
        let ghost bentries = spec_parse_entries(block@, p.funcs().len() as int);
        if !self.check_entries_block(&block) {
            return Err(ErrorCode::UnexpectedError(String::from_str(
                "final aggregation expects batches of grouped partial states",
            )));
        }
        let nfuncs = self.params.aggregate_functions.len();
        let nrows = block.num_rows();
        proof {
            if had_sem {
                lemma_final_grouped_fits(p, self.arena, self.entries@);
            }
        }
        let mut r: usize = 0;
        while r < nrows
            invariant
                r <= nrows,
                p == old(self).params,
                m == old(self).method,
                had_sem == old(self).sem(),
                self.params == p,
                self.method == m,
                self.generated == old(self).generated,
                nfuncs == p.aggregate_functions@.len(),
                nrows == block@.rows,
                block@.wf(),
                grouped_states_block_ok(block@, p.funcs().len() as int, m),
                bentries == spec_parse_entries(block@, p.funcs().len() as int),
                self.wf(),
                self.fed@ == old(self).fed@,
                self.emitted@ == old(self).emitted@,
                had_sem ==> self.entries@ == old(self).spec_entries() + bentries.take(r as int),
                had_sem ==> self.sem(),
                had_sem ==> forall|k: GKey, i: int|
                    has_ekey(self.entries@, k) && 0 <= i < p.funcs().len() ==> fold_combine(
                        p.funcs()[i],
                        #[trigger] entry_vals(self.entries@, k, i),
                    ) <= u64::MAX,
            decreases nrows - r,
        {
            let ghost entries0 = self.entries@;
            let ghost sentry = bentries[r as int];
            let key = self.read_key(&block, r);
            proof {
                assert(key@ == sentry.0);
            }
            let ghost arena0 = self.arena;
            let j = match self.arena.find(&key) {
                Some(j) => {
                    proof {
                        if had_sem {
                            assert(forall|k: GKey|
                                self.arena.spec_has(k) <==> (has_ekey(entries0, k) || k
                                    == self.arena.keys@[j as int]@));
                        }
                    }
                    j
                },
                None => {
                    let st = new_state(&self.params);
                    let jn = self.arena.len();
                    let ghost keyg = key@;
                    self.arena.push_slot(key, st);
                    proof {
                        assert forall|t: int|
                            0 <= t < self.arena.states@.len() implies (
                        #[trigger] self.arena.states@[t])@.len() == spec_layout_size(
                            p.funcs(),
                        ) by {
                            if t < jn {
                                assert(self.arena.states@[t] == arena0.states@[t]);
                            }
                        }
                        if had_sem {
                            assert(!arena0.spec_has(keyg));
                            assert(!has_ekey(entries0, keyg));
                            assert forall|t1: int, t2: int|
                                0 <= t1 < t2 < self.arena.keys@.len() implies (
                            #[trigger] self.arena.keys@[t1])@ != (
                            #[trigger] self.arena.keys@[t2])@ by {
                                if t2 == jn {
                                    assert(self.arena.keys@[t1] == arena0.keys@[t1]);
                                    if self.arena.keys@[t1]@ == keyg {
                                        assert(arena0.spec_has(keyg));
                                    }
                                }
                            }
                            assert forall|k: GKey|
                                self.arena.spec_has(k) <==> (has_ekey(entries0, k) || k
                                    == keyg) by {
                                if self.arena.spec_has(k) {
                                    let t = choose|t: int|
                                        0 <= t < self.arena.keys@.len() && (
                                        #[trigger] self.arena.keys@[t])@ == k;
                                    if t < jn {
                                        assert(arena0.keys@[t]@ == k);
                                        assert(arena0.spec_has(k));
                                    }
                                }
                                if has_ekey(entries0, k) {
                                    assert(arena0.spec_has(k));
                                    let t = choose|t: int|
                                        0 <= t < arena0.keys@.len() && (
                                        #[trigger] arena0.keys@[t])@ == k;
                                    assert(self.arena.keys@[t]@ == k);
                                }
                                if k == keyg {
                                    assert(self.arena.keys@[jn as int]@ == k);
                                }
                            }
                            assert(keyg == sentry.0);
                            assert(if m is Serializer {
                                keyg is Serialized
                            } else {
                                keyg is Fixed
                            });
                            assert forall|t2: int|
                                0 <= t2 < self.arena.keys@.len() implies (if m is Serializer {
                                (#[trigger] self.arena.keys@[t2])@ is Serialized
                            } else {
                                self.arena.keys@[t2]@ is Fixed
                            }) by {
                                if t2 < jn {
                                    assert(self.arena.keys@[t2] == arena0.keys@[t2]);
                                }
                            }
                            assert forall|jj: int, i: int|
                                0 <= jj < self.arena.keys@.len() && 0 <= i
                                    < p.funcs().len() implies region_value(
                                (#[trigger] self.arena.states@[jj])@,
                                spec_offset(p.funcs(), i),
                            ) == fold_combine(
                                #[trigger] p.funcs()[i],
                                entry_vals(entries0, self.arena.keys@[jj]@, i),
                            ) by {
                                if jj < jn {
                                } else {
                                    assert(self.arena.keys@[jj]@ == keyg);
                                    lemma_no_ekey_no_vals(entries0, keyg, i);
                                }
                            }
                        }
                    }
                    jn
                },
            };
            let ghost keyv = self.arena.keys@[j as int]@;
            let ghost arena1 = self.arena;
            let ghost pre_states = self.arena.states@;
            let mut t: usize = 0;
            let ghost pre_slot = self.arena.states@[j as int]@;
            let mut failed: Option<ErrorCode> = None;
            let ghost mut failed_at: int = 0;
            while t < nfuncs
                invariant
                    t <= nfuncs,
                    p == old(self).params,
                    self.params == p,
                    nfuncs == p.aggregate_functions@.len(),
                    block@.wf(),
                    grouped_states_block_ok(block@, p.funcs().len() as int, self.method),
                    self.method == m,
                    r < nrows,
                    nrows == block@.rows,
                    self.wf(),
                    j < self.arena.keys@.len(),
                    self.arena.keys@ == arena1.keys@,
                    keyv == self.arena.keys@[j as int]@,
                    self.generated == old(self).generated,
                    self.entries@ == entries0,
                    self.fed@ == old(self).fed@,
                    self.emitted@ == old(self).emitted@,
                    had_sem == old(self).sem(),
                    p == old(self).params,
                    self.arena.states@.len() == pre_states.len(),
                    forall|g: int|
                        0 <= g < pre_states.len() && g != j ==> self.arena.states@[g]
                            == pre_states[g],
                    pre_slot == pre_states[j as int]@,
                    self.arena.states@[j as int]@.len() == pre_slot.len(),
                    failed is None ==> forall|i: int|
                        0 <= i < t ==> combine(
                            #[trigger] p.funcs()[i],
                            region_value(pre_slot, spec_offset(p.funcs(), i)),
                            spec_parse_entries(block@, p.funcs().len() as int)[r as int].1[i],
                        ) <= u64::MAX,
                    failed is None ==> forall|i: int|
                        0 <= i < t ==> region_value(
                            self.arena.states@[j as int]@,
                            spec_offset(p.funcs(), i),
                        ) == combine(
                            #[trigger] p.funcs()[i],
                            region_value(pre_slot, spec_offset(p.funcs(), i)),
                            spec_parse_entries(block@, p.funcs().len() as int)[r as int].1[i],
                        ),
                    failed is None ==> forall|i: int|
                        t <= i < p.funcs().len() ==> region_value(
                            self.arena.states@[j as int]@,
                            spec_offset(p.funcs(), i),
                        ) == region_value(pre_slot, spec_offset(p.funcs(), i)),
                    failed matches Some(e) ==> e is Overflow,
                    failed is Some ==> 0 <= failed_at < p.funcs().len() && combine(
                        p.funcs()[failed_at],
                        region_value(pre_slot, spec_offset(p.funcs(), failed_at)),
                        spec_parse_entries(block@, p.funcs().len() as int)[r as int].1[failed_at],
                    ) > u64::MAX,
                decreases nfuncs - t,
            {
                if failed.is_none() {
                    proof {
                        assert(descs_view(p.aggregate_functions@)[t as int]
                            == p.aggregate_functions@[t as int]@);
                        lemma_region_in_layout(p.funcs(), t as int);
                    }
                    let f = self.params.aggregate_functions[t].func;
                    let v = self.read_entry_cell(&block, t, r);
                    let off = self.params.offsets[t];
                    let ghost before = self.arena.states@[j as int]@;
                    let slot = &mut self.arena.states[j];
                    let res = crate::aggregate_function::acc_combine(f, slot, off, v);
                    proof {
                        assert forall|i: int|
                            0 <= i < p.funcs().len() && i != t && res is Ok implies region_value(
                            self.arena.states@[j as int]@,
                            spec_offset(p.funcs(), i),
                        ) == region_value(before, spec_offset(p.funcs(), i)) by {
                            lemma_region_in_layout(p.funcs(), i);
                            if i < t {
                                crate::aggregate_function::lemma_offsets_monotone(
                                    p.funcs(),
                                    i + 1,
                                    t as int,
                                );
                            } else {
                                crate::aggregate_function::lemma_offsets_monotone(
                                    p.funcs(),
                                    t + 1,
                                    i,
                                );
                            }
                            assert(region(self.arena.states@[j as int]@, spec_offset(p.funcs(), i))
                                =~= region(before, spec_offset(p.funcs(), i)));
                        }
                    }
                    match res {
                        Ok(()) => {},
                        Err(e) => {
                            proof {
                                failed_at = t as int;
                            }
                            failed = Some(e);
                        },
                    }
                }
                t += 1;
            }
            match failed {
                None => {
                    proof {
                        self.entries@ = entries0.push(sentry);
                        if had_sem {
                            assert(sentry.1.len() == p.funcs().len());
                            assert forall|u: int| 0 <= u < sentry.1.len() implies 0 <= (
                            #[trigger] sentry.1[u]) <= u64::MAX by {
                                let cells = block@.columns[u + 1]->Binary_0;
                                lemma_le_value_bound(cells[r as int]);
                                crate::aggregate_function::lemma_pow256_8();
                            }
                            lemma_entries_take_push(old(self).spec_entries(), bentries, r as int);
                            lemma_final_step(
                                p,
                                entries0,
                                sentry,
                                pre_states,
                                pre_slot,
                                self.arena,
                                j as int,
                            );
                        }
                    }
                },
                Some(e) => {
                    proof {
                        if had_sem {
                            let i = failed_at;
                            let newentries = old(self).spec_entries() + bentries;
                            assert forall|t2: int, u: int|
                                0 <= t2 < newentries.len() && 0 <= u
                                    < newentries[t2].1.len() implies 0 <= (
                            #[trigger] newentries[t2].1[u]) <= u64::MAX by {
                                if t2 < old(self).spec_entries().len() {
                                    assert(newentries[t2] == old(self).spec_entries()[t2]);
                                } else {
                                    assert(newentries[t2] == bentries[t2 - old(self).spec_entries().len()]);
                                    let cells = block@.columns[u + 1]->Binary_0;
                                    lemma_le_value_bound(
                                        cells[t2 - old(self).spec_entries().len()],
                                    );
                                    crate::aggregate_function::lemma_pow256_8();
                                }
                            }
                            assert forall|t2: int|
                                0 <= t2 < newentries.len() implies (
                            #[trigger] newentries[t2]).1.len() == p.funcs().len() by {
                                if t2 >= old(self).spec_entries().len() {
                                    assert(newentries[t2] == bentries[t2 - old(self).spec_entries().len()]);
                                }
                            }
                            lemma_final_overflow(
                                p,
                                old(self).spec_entries(),
                                bentries,
                                r as int,
                                pre_slot,
                                keyv,
                                i,
                            );
                        }
                    }
                    return Err(e);
                },
            }
            r += 1;
        }
        proof {
            let pre_push = *self;
            self.fed@ = self.fed@.push(bv);
            if had_sem {
                assert forall|r2: int, u: int|
                    0 <= r2 < self.spec_entries().len() && 0 <= u
                        < self.spec_entries()[r2].1.len() implies 0 <= (
                #[trigger] self.spec_entries()[r2].1[u]) <= u64::MAX by {
                    assert(0 <= pre_push.spec_entries()[r2].1[u] <= u64::MAX);
                }
                assert(bentries.take(nrows as int) =~= bentries);
            }
        }
        Ok(())
    }

    /// Emits the one output batch enumerating every group with its finished
    /// values. Every later call emits nothing.
    pub fn generate_block(&mut self) -> (r: Result<Option<DataBlock>, ErrorCode>)
        requires
            old(self).wf(),
        ensures
            final(self).wf(),
            final(self).params == old(self).params,
            final(self).method == old(self).method,
            final(self).spec_entries() == old(self).spec_entries(),
            final(self).generated,
            final(self).fed@ == old(self).fed@,
            r matches Ok(o) ==> (o matches Some(b) ==> final(self).emitted@ == old(self).emitted@.push(
                b@,
            )),
            (r matches Ok(o) && o is None) ==> final(self).emitted@ == old(self).emitted@,
            r is Err ==> final(self).emitted@ == old(self).emitted@,
            old(self).sem() ==> final(self).sem(),
            old(self).generated ==> (r matches Ok(o) && o is None),
            old(self).sem() && !old(self).generated ==> (r matches Ok(o) && o matches Some(b)
                && grouped_final_output(
                old(self).params,
                old(self).method,
                old(self).spec_keys(),
                old(self).spec_entries(),
                b@,
            )),
    {
        if self.generated {
            return Ok(None);
        }
        self.generated = true;
        let ghost p = self.params;
        let ghost had_sem = self.sem();
        let ngroups = self.arena.len();
        let nfuncs = self.params.aggregate_functions.len();
        let mut fields: Vec<DataField> = Vec::new();
        let keytype = match self.method {
            HashMethodKind::Serializer => ColumnType::Binary,
            _ => ColumnType::UInt64,
        };
        fields.push(DataField::new(String::from_str("_group_by_key"), keytype));
        let mut columns: Vec<Column> = Vec::new();
        let keycol = match self.method {
            HashMethodKind::Serializer => {
                let mut cells: Vec<Vec<u8>> = Vec::new();
                let mut j: usize = 0;
                while j < ngroups
                    invariant
                        j <= ngroups,
                        self.wf(),
                        self.fed@ == old(self).fed@,
                        self.emitted@ == old(self).emitted@,
                        self.generated,
                        ngroups == self.arena.keys@.len(),
                        cells@.len() == j,
                        forall|t: int|
                            0 <= t < j ==> GKey::Serialized((#[trigger] cells@[t])@)
                                == self.spec_keys()[t] || self.spec_keys()[t] is Fixed,
                    decreases ngroups - j,
                {
                    match &self.arena.keys[j] {
                        GroupKey::Serialized(bs) => {
                            cells.push(bytes_clone(bs));
                        },
                        GroupKey::Fixed(v) => {
                            cells.push(Vec::new());
                        },
                    }
                    j += 1;
                }
                Column::Binary(cells)
            },
            _ => {
                let mut cells: Vec<u64> = Vec::new();
                let mut j: usize = 0;
                while j < ngroups
                    invariant
                        j <= ngroups,
                        self.wf(),
                        self.fed@ == old(self).fed@,
                        self.emitted@ == old(self).emitted@,
                        self.generated,
                        ngroups == self.arena.keys@.len(),
                        cells@.len() == j,
                        forall|t: int|
                            0 <= t < j ==> GKey::Fixed(#[trigger] cells@[t]) == self.spec_keys()[t]
                                || self.spec_keys()[t] is Serialized,
                    decreases ngroups - j,
                {
                    match &self.arena.keys[j] {
                        GroupKey::Fixed(v) => {
                            cells.push(*v);
                        },
                        GroupKey::Serialized(bs) => {
                            cells.push(0);
                        },
                    }
                    j += 1;
                }
                Column::UInt64(cells)
            },
        };
        let ghost kc = keycol@;
        let ghost f0 = fields@[0]@;
        proof {
            match &keycol {
                Column::Binary(cells) => {
                    assert(kc matches ColumnV::Binary(s) && s.len() == ngroups);
                    assert forall|t: int|
                        0 <= t < ngroups implies GKey::Serialized(kc->Binary_0[t])
                            == self.spec_keys()[t] || self.spec_keys()[t] is Fixed by {
                        let cv = cells@.map_values(|b: Vec<u8>| b@);
                        assert(cv[t] == cells@[t]@);
                    }
                    assert(self.method is Serializer);
                },
                Column::UInt64(cells) => {
                    assert(kc matches ColumnV::UInt64(s) && s.len() == ngroups);
                    assert(!(self.method is Serializer));
                },
                _ => {
                    assert(false);
                },
            }
        }
        columns.push(keycol);
        let mut i: usize = 0;
        while i < nfuncs
            invariant
                i <= nfuncs,
                self.params == p,
                self.generated,
                nfuncs == p.aggregate_functions@.len(),
                ngroups == self.arena.keys@.len(),
                self.wf(),
                self.sem() == had_sem,
                self.entries@ == old(self).spec_entries(),
                self.fed@ == old(self).fed@,
                self.emitted@ == old(self).emitted@,
                self.arena.keys@ == old(self).arena.keys@,
                self.arena.states@ == old(self).arena.states@,
                fields@.len() == i + 1,
                columns@.len() == i + 1,
                fields@[0]@ == f0,
                f0 == (DataFieldV {
                    name: "_group_by_key"@,
                    data_type: if self.method is Serializer {
                        ColumnType::Binary
                    } else {
                        ColumnType::UInt64
                    },
                }),
                columns@[0]@ == kc,
                kc.len() == ngroups,
                kc.ctype() == f0.data_type,
                self.method is Serializer ==> (kc matches ColumnV::Binary(s) && (forall|t: int|
                    0 <= t < ngroups ==> GKey::Serialized(#[trigger] s[t]) == self.spec_keys()[t]
                        || self.spec_keys()[t] is Fixed)),
                !(self.method is Serializer) ==> (kc matches ColumnV::UInt64(s) && (forall|t: int|
                    0 <= t < ngroups ==> GKey::Fixed(#[trigger] s[t]) == self.spec_keys()[t]
                        || self.spec_keys()[t] is Serialized)),
                forall|t: int|
                    1 <= t < i + 1 ==> (#[trigger] fields@[t])@ == (DataFieldV {
                        name: descs_view(p.aggregate_functions@)[t - 1].name,
                        data_type: ColumnType::UInt64,
                    }),
                forall|t: int|
                    1 <= t < i + 1 ==> ((#[trigger] columns@[t])@ matches ColumnV::UInt64(s)
                        && s.len() == ngroups && (forall|g: int|
                        0 <= g < ngroups ==> #[trigger] s[g] == region_value(
                            self.arena.states@[g]@,
                            spec_offset(p.funcs(), t - 1),
                        ))),
            decreases nfuncs - i,
        {
            proof {
                assert(descs_view(p.aggregate_functions@)[i as int] == p.aggregate_functions@[
                i as int]@);
                lemma_region_in_layout(p.funcs(), i as int);
            }
            fields.push(DataField::new(
                self.params.aggregate_functions[i].name.clone(),
                ColumnType::UInt64,
            ));
            let mut cells: Vec<u64> = Vec::new();
            let mut g: usize = 0;
            while g < ngroups
                invariant
                    g <= ngroups,
                    self.wf(),
                    self.fed@ == old(self).fed@,
                    self.emitted@ == old(self).emitted@,
                    self.params == p,
                    i < nfuncs,
                    nfuncs == p.aggregate_functions@.len(),
                    ngroups == self.arena.keys@.len(),
                    spec_offset(p.funcs(), i as int) + 8 <= spec_layout_size(p.funcs()),
                    cells@.len() == g,
                    forall|t: int|
                        0 <= t < g ==> #[trigger] cells@[t] == region_value(
                            self.arena.states@[t]@,
                            spec_offset(p.funcs(), i as int),
                        ),
                decreases ngroups - g,
            {
                cells.push(
                    crate::aggregate_function::acc_finalize(
                        self.params.aggregate_functions[i].func,
                        &self.arena.states[g],
                        self.params.offsets[i],
                    ),
                );
                g += 1;
            }
            columns.push(Column::UInt64(cells));
            i += 1;
        }
        proof {
            let v = DataBlockV {
                fields: fields_view(fields@),
                columns: columns@.map_values(|c: Column| c@),
                rows: ngroups as nat,
            };
            assert forall|t: int| 0 <= t < v.columns.len() implies (#[trigger] v.columns[t]).len()
                == v.rows && (#[trigger] v.columns[t]).ctype() == v.fields[t].data_type by {
                assert(v.columns[t] == columns@[t]@);
                assert(v.fields[t] == fields@[t]@);
            }
            assert(v.wf());
        }
        let block = match DataBlock::create(fields, columns, ngroups) {
            Ok(b) => b,
            Err(e) => {
                proof {
                    assert(false);
                }
                return Err(e);
            },
        };
        proof {
            self.emitted@ = self.emitted@.push(block@);
            if had_sem {
                assert(block@.fields =~= grouped_final_fields(p, self.method));
                assert forall|j: int| 0 <= j < self.spec_keys().len() implies spec_key_cell(
                    block@,
                    j,
                ) == self.spec_keys()[j] by {
                    assert(block@.columns[0] == kc);
                    assert(self.spec_keys()[j] == self.arena.keys@[j]@);
                }
                assert forall|i2: int| 0 <= i2 < p.funcs().len() implies ((
                #[trigger] block@.columns[i2 + 1]) matches ColumnV::UInt64(s) && s.len()
                    == self.spec_keys().len() && (forall|j: int|
                    0 <= j < self.spec_keys().len() ==> #[trigger] s[j] == fold_combine(
                        p.funcs()[i2],
                        entry_vals(self.entries@, self.spec_keys()[j], i2),
                    ))) by {
                    lemma_region_in_layout(p.funcs(), i2);
                }
            }
        }
        Ok(Some(block))
    }
}

/// An arena whose regions hold merges holds merges that fit.
pub proof fn lemma_final_grouped_fits(
    p: AggregatorParams,
    arena: StateArena,
    entries: Seq<(GKey, Seq<int>)>,
)
    requires
        p.wf(),
        arena.wf(spec_layout_size(p.funcs())),
        forall|k: GKey| has_ekey(entries, k) <==> arena.spec_has(k),
        forall|j: int, i: int|
            0 <= j < arena.keys@.len() && 0 <= i < p.funcs().len() ==> region_value(
                (#[trigger] arena.states@[j])@,
                spec_offset(p.funcs(), i),
            ) == fold_combine(#[trigger] p.funcs()[i], entry_vals(entries, arena.keys@[j]@, i)),
    ensures
        forall|k: GKey, i: int|
            has_ekey(entries, k) && 0 <= i < p.funcs().len() ==> fold_combine(
                p.funcs()[i],
                #[trigger] entry_vals(entries, k, i),
            ) <= u64::MAX,
{
    assert forall|k: GKey, i: int|
        has_ekey(entries, k) && 0 <= i < p.funcs().len() implies fold_combine(
        p.funcs()[i],
        #[trigger] entry_vals(entries, k, i),
    ) <= u64::MAX by {
        assert(arena.spec_has(k));
        let j = choose|j: int| 0 <= j < arena.keys@.len() && (#[trigger] arena.keys@[j])@ == k;
        lemma_region_in_layout(p.funcs(), i);
        lemma_le_value_bound(region(arena.states@[j]@, spec_offset(p.funcs(), i)));
        crate::aggregate_function::lemma_pow256_8();
    }
}

/// One successful entry step preserves the arena semantics.
#[verifier::rlimit(100)]
pub proof fn lemma_final_step(
    p: AggregatorParams,
    entries0: Seq<(GKey, Seq<int>)>,
    sentry: (GKey, Seq<int>),
    pre_states: Seq<Vec<u8>>,
    pre_slot: Seq<u8>,
    arena: StateArena,
    j: int,
)
    requires
        p.wf(),
        arena.wf(spec_layout_size(p.funcs())),
        arena.distinct(),
        0 <= j < arena.keys@.len(),
        arena.states@.len() == pre_states.len(),
        pre_slot == pre_states[j]@,
        sentry.0 == arena.keys@[j]@,
        sentry.1.len() == p.funcs().len(),
        forall|u: int| 0 <= u < sentry.1.len() ==> 0 <= #[trigger] sentry.1[u] <= u64::MAX,
        forall|t: int| 0 <= t < pre_states.len() && t != j ==> arena.states@[t] == pre_states[t],
        forall|k: GKey| arena.spec_has(k) <==> (has_ekey(entries0, k) || k == arena.keys@[j]@),
        forall|jj: int, i: int|
            0 <= jj < arena.keys@.len() && 0 <= i < p.funcs().len() ==> region_value(
                (#[trigger] pre_states[jj])@,
                spec_offset(p.funcs(), i),
            ) == fold_combine(#[trigger] p.funcs()[i], entry_vals(entries0, arena.keys@[jj]@, i)),
        forall|i: int|
            0 <= i < p.funcs().len() ==> region_value(
                (#[trigger] arena.states@[j])@,
                spec_offset(p.funcs(), i),
            ) == combine(
                #[trigger] p.funcs()[i],
                region_value(pre_slot, spec_offset(p.funcs(), i)),
                sentry.1[i],
            ),
        forall|rr: int|
            0 <= rr < entries0.len() ==> (#[trigger] entries0[rr]).1.len() == p.funcs().len(),
        forall|rr: int, u: int|
            0 <= rr < entries0.len() && 0 <= u < entries0[rr].1.len() ==> 0 <= (
            #[trigger] entries0[rr].1[u]) <= u64::MAX,
    ensures
        forall|k: GKey| has_ekey(entries0.push(sentry), k) <==> arena.spec_has(k),
        forall|jj: int, i: int|
            0 <= jj < arena.keys@.len() && 0 <= i < p.funcs().len() ==> region_value(
                (#[trigger] arena.states@[jj])@,
                spec_offset(p.funcs(), i),
            ) == fold_combine(
                #[trigger] p.funcs()[i],
                entry_vals(entries0.push(sentry), arena.keys@[jj]@, i),
            ),
        forall|rr: int|
            0 <= rr < entries0.push(sentry).len() ==> (#[trigger] entries0.push(sentry)[
            rr]).1.len() == p.funcs().len(),
        forall|rr: int, u: int|
            0 <= rr < entries0.push(sentry).len() && 0 <= u < entries0.push(sentry)[rr].1.len()
                ==> 0 <= (#[trigger] entries0.push(sentry)[rr].1[u]) <= u64::MAX,
        forall|k: GKey, i: int|
            has_ekey(entries0.push(sentry), k) && 0 <= i < p.funcs().len() ==> fold_combine(
                p.funcs()[i],
                #[trigger] entry_vals(entries0.push(sentry), k, i),
            ) <= u64::MAX,
{
    let newentries = entries0.push(sentry);
    let kj = arena.keys@[j]@;
    assert forall|k: GKey| has_ekey(newentries, k) <==> arena.spec_has(k) by {
        lemma_entry_push(entries0, sentry, k, 0);
    }
    assert forall|jj: int, i: int|
        0 <= jj < arena.keys@.len() && 0 <= i < p.funcs().len() implies region_value(
        (#[trigger] arena.states@[jj])@,
        spec_offset(p.funcs(), i),
    ) == fold_combine(#[trigger] p.funcs()[i], entry_vals(newentries, arena.keys@[jj]@, i)) by {
        let kk = arena.keys@[jj]@;
        lemma_entry_push(entries0, sentry, kk, i);
        assert(region_value(pre_states[jj]@, spec_offset(p.funcs(), i)) == fold_combine(
            p.funcs()[i],
            entry_vals(entries0, kk, i),
        ));
        if jj == j {
            assert(region_value(arena.states@[j]@, spec_offset(p.funcs(), i)) == combine(
                p.funcs()[i],
                region_value(pre_slot, spec_offset(p.funcs(), i)),
                sentry.1[i],
            ));
            lemma_fold_push(p.funcs()[i], entry_vals(entries0, kj, i), sentry.1[i]);
        } else {
            assert(kk != kj);
            assert(arena.states@[jj] == pre_states[jj]);
        }
    }
    assert forall|k: GKey, i: int|
        has_ekey(newentries, k) && 0 <= i < p.funcs().len() implies fold_combine(
        p.funcs()[i],
        #[trigger] entry_vals(newentries, k, i),
    ) <= u64::MAX by {
        assert(arena.spec_has(k));
        let jj = choose|jj: int| 0 <= jj < arena.keys@.len() && (#[trigger] arena.keys@[jj])@ == k;
        lemma_region_in_layout(p.funcs(), i);
        lemma_le_value_bound(region(arena.states@[jj]@, spec_offset(p.funcs(), i)));
        crate::aggregate_function::lemma_pow256_8();
    }
}

/// A merge step that overflows witnesses that the whole input's groups do
/// not fit.
pub proof fn lemma_final_overflow(
    p: AggregatorParams,
    base: Seq<(GKey, Seq<int>)>,
    bentries: Seq<(GKey, Seq<int>)>,
    r: int,
    pre_slot: Seq<u8>,
    keyv: GKey,
    i: int,
)
    requires
        p.wf(),
        0 <= r < bentries.len(),
        0 <= i < p.funcs().len(),
        keyv == bentries[r].0,
        region_value(pre_slot, spec_offset(p.funcs(), i)) == fold_combine(
            p.funcs()[i],
            entry_vals(base + bentries.take(r), keyv, i),
        ),
        combine(
            p.funcs()[i],
            region_value(pre_slot, spec_offset(p.funcs(), i)),
            bentries[r].1[i],
        ) > u64::MAX,
        forall|t: int, u: int|
            0 <= t < (base + bentries).len() && 0 <= u < (base + bentries)[t].1.len() ==> 0 <= (
            #[trigger] (base + bentries)[t].1[u]) <= u64::MAX,
        forall|t: int|
            0 <= t < (base + bentries).len() ==> (#[trigger] (base + bentries)[t]).1.len()
                == p.funcs().len(),
    ensures
        !(forall|k: GKey, i2: int|
            has_ekey(base + bentries, k) && 0 <= i2 < p.funcs().len() ==> fold_combine(
                p.funcs()[i2],
                #[trigger] entry_vals(base + bentries, k, i2),
            ) <= u64::MAX),
{
    let f = p.funcs()[i];
    let entries0 = base + bentries.take(r);
    let sentry = bentries[r];
    let col0 = entry_vals(entries0, keyv, i);
    let full = base + bentries;
    let fullcol = entry_vals(full, keyv, i);
    lemma_entry_key_rows_facts(full, keyv);
    assert forall|t: int| 0 <= t < fullcol.len() implies 0 <= #[trigger] fullcol[t]
        <= u64::MAX by {
        let krows = entry_key_rows(full, keyv);
        assert(fullcol.len() == krows.len());
        assert(full.contains(krows[t]));
        let q = choose|q: int| 0 <= q < full.len() && full[q] == krows[t];
        assert(fullcol[t] == krows[t].1[i]);
        assert(0 <= full[q].1[i] <= u64::MAX);
    }
    assert forall|t: int| 0 <= t < col0.len() implies 0 <= #[trigger] col0[t] <= u64::MAX by {
        lemma_entry_vals_prefix(base, bentries, r, keyv, i);
        assert(col0[t] == fullcol.take(col0.len() as int)[t]);
        assert(col0[t] == fullcol[t]);
    }
    lemma_fold_bounds(f, col0);
    if f is Min || f is Max {
        assert(0 <= sentry.1[i] <= u64::MAX) by {
            assert(full[base.len() + r] == sentry);
        }
        assert(false);
    } else {
        lemma_entries_take_push(base, bentries, r);
        lemma_entry_push(entries0, sentry, keyv, i);
        lemma_fold_push(f, col0, sentry.1[i]);
        let prefix = base + bentries.take(r + 1);
        assert(fold_combine(f, entry_vals(prefix, keyv, i)) > u64::MAX);
        lemma_entry_vals_prefix(base, bentries, r + 1, keyv, i);
        let n = entry_vals(prefix, keyv, i).len();
        assert forall|t: int| 0 <= t < fullcol.len() implies 0 <= #[trigger] fullcol[t] by {}
        lemma_fold_prefix_le(f, fullcol, n as int);
        assert(has_ekey(full, keyv)) by {
            assert(full[base.len() + r].0 == keyv);
        }
        assert(fold_combine(f, entry_vals(full, keyv, i)) > u64::MAX);
    }
}

} // verus!
