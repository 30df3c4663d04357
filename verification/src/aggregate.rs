use vstd::prelude::*;

verus! {

/// The aggregate operations the engine computes. Each owns a fixed-size
/// accumulator region inside a group's state buffer; the engine only ever
/// initialises, feeds, merges and finalises that region through the
/// operations in `aggregate_function`.
#[derive(Clone, Copy, Debug, PartialEq, Eq, Structural)]
pub enum AggregateFunction {
    Count,
    Sum,
    Min,
    Max,
}

/// A group key as the aggregator identifies it: group-by columns packed into
/// a fixed-width integer, or serialised into a byte string.
pub enum GKey {
    Fixed(u64),
    Serialized(Seq<u8>),
}

/// One input row as the aggregator sees it: its group key and, per aggregate
/// function, the argument value that function accumulates.
pub struct SRow {
    pub key: GKey,
    pub args: Seq<u64>,
}

/// The accumulator value of a function over no rows: its identity.
pub open spec fn unit(f: AggregateFunction) -> int {
    match f {
        AggregateFunction::Count => 0,
        AggregateFunction::Sum => 0,
        AggregateFunction::Min => u64::MAX as int,
        AggregateFunction::Max => 0,
    }
}

/// The contribution of one argument value.
pub open spec fn one(f: AggregateFunction, v: u64) -> int {
    match f {
        AggregateFunction::Count => 1,
        AggregateFunction::Sum => v as int,
        AggregateFunction::Min => v as int,
        AggregateFunction::Max => v as int,
    }
}

/// The merge operation of a function: how two accumulator values combine.
pub open spec fn combine(f: AggregateFunction, a: int, b: int) -> int {
    match f {
        AggregateFunction::Count => a + b,
        AggregateFunction::Sum => a + b,
        AggregateFunction::Min => if a <= b {
            a
        } else {
            b
        },
        AggregateFunction::Max => if a >= b {
            a
        } else {
            b
        },
    }
}

/// The mathematical value of a function over a sequence of argument values.
pub open spec fn agg_value(f: AggregateFunction, vals: Seq<u64>) -> int
    decreases vals.len(),
{
    if vals.len() == 0 {
        unit(f)
    } else {
        combine(f, agg_value(f, vals.drop_last()), one(f, vals.last()))
    }
}

/// Whether the value fits the engine's unsigned result type, so that
/// accumulation completes without an overflow error.
pub open spec fn agg_fits(f: AggregateFunction, vals: Seq<u64>) -> bool {
    agg_value(f, vals) <= u64::MAX
}

pub proof fn lemma_agg_value_bounds(f: AggregateFunction, vals: Seq<u64>)
    ensures
        0 <= agg_value(f, vals),
        (f is Min || f is Max) ==> agg_value(f, vals) <= u64::MAX,
    decreases vals.len(),
{
    if vals.len() > 0 {
        lemma_agg_value_bounds(f, vals.drop_last());
    }
}

/// Block boundaries do not affect an aggregate: the value over a
/// concatenation is the merge of the values over the parts. This is the
/// associativity/commutativity of `combine` that two-phase aggregation
/// rests on.
pub proof fn lemma_agg_concat(f: AggregateFunction, a: Seq<u64>, b: Seq<u64>)
    ensures
        agg_value(f, a + b) == combine(f, agg_value(f, a), agg_value(f, b)),
    decreases b.len(),
{
    lemma_agg_value_bounds(f, a);
    if b.len() == 0 {
        assert(a + b =~= a);
    } else {
        lemma_agg_concat(f, a, b.drop_last());
        assert((a + b).drop_last() =~= a + b.drop_last());
        assert((a + b).last() == b.last());
    }
}

/// For the monotone functions the aggregate of a prefix never exceeds the
/// aggregate of the whole.
pub proof fn lemma_agg_prefix_le(f: AggregateFunction, vals: Seq<u64>, n: int)
    requires
        0 <= n <= vals.len(),
        f is Count || f is Sum,
    ensures
        agg_value(f, vals.take(n)) <= agg_value(f, vals),
    decreases vals.len() - n,
{
    if n == vals.len() {
        assert(vals.take(n) =~= vals);
    } else {
        lemma_agg_prefix_le(f, vals, n + 1);
        assert(vals.take(n + 1).drop_last() =~= vals.take(n));
    }
}

/// Concatenation of the argument values of a sequence of blocks.
pub open spec fn concat_all(blocks: Seq<Seq<u64>>) -> Seq<u64>
    decreases blocks.len(),
{
    if blocks.len() == 0 {
        Seq::empty()
    } else {
        concat_all(blocks.drop_last()) + blocks.last()
    }
}

/// Fold of `combine` over per-part accumulator values, as the final phase
/// merges partial states lane by lane.
pub open spec fn fold_combine(f: AggregateFunction, parts: Seq<int>) -> int
    decreases parts.len(),
{
    if parts.len() == 0 {
        unit(f)
    } else {
        combine(f, fold_combine(f, parts.drop_last()), parts.last())
    }
}

/// Global aggregation over the concatenation of blocks, however the input was
/// partitioned into blocks, equals the merge of the per-block aggregates.
pub proof fn lemma_agg_partition(f: AggregateFunction, blocks: Seq<Seq<u64>>)
    ensures
        agg_value(f, concat_all(blocks)) == fold_combine(
            f,
            blocks.map_values(|b: Seq<u64>| agg_value(f, b)),
        ),
    decreases blocks.len(),
{
    let parts = blocks.map_values(|b: Seq<u64>| agg_value(f, b));
    if blocks.len() == 0 {
    } else {
        lemma_agg_partition(f, blocks.drop_last());
        lemma_agg_concat(f, concat_all(blocks.drop_last()), blocks.last());
        assert(blocks.drop_last().map_values(|b: Seq<u64>| agg_value(f, b)) =~= parts.drop_last());
        assert(parts.last() == agg_value(f, blocks.last()));
    }
}

/// The rows of `rows` that belong to group `k`.
pub open spec fn key_rows(rows: Seq<SRow>, k: GKey) -> Seq<SRow> {
    rows.filter(|r: SRow| r.key == k)
}

/// The argument values that function `i` accumulates for group `k`.
pub open spec fn key_vals(rows: Seq<SRow>, k: GKey, i: int) -> Seq<u64> {
    key_rows(rows, k).map_values(|r: SRow| r.args[i])
}

pub open spec fn has_key(rows: Seq<SRow>, k: GKey) -> bool {
    exists|j: int| 0 <= j < rows.len() && rows[j].key == k
}

/// The group-to-values mapping of a single-pass aggregation over `rows`.
pub open spec fn agg_group_map(funcs: Seq<AggregateFunction>, rows: Seq<SRow>) -> Map<
    GKey,
    Seq<int>,
> {
    Map::new(
        |k: GKey| has_key(rows, k),
        |k: GKey| Seq::new(funcs.len(), |i: int| agg_value(funcs[i], key_vals(rows, k, i))),
    )
}

/// Whether every group's every function value fits the result type.
pub open spec fn groups_fit(funcs: Seq<AggregateFunction>, rows: Seq<SRow>) -> bool {
    forall|k: GKey, i: int|
        has_key(rows, k) && 0 <= i < funcs.len() ==> agg_fits(funcs[i], #[trigger] key_vals(
            rows,
            k,
            i,
        ))
}

pub open spec fn combine_seq(funcs: Seq<AggregateFunction>, a: Seq<int>, b: Seq<int>) -> Seq<int> {
    Seq::new(funcs.len(), |i: int| combine(funcs[i], a[i], b[i]))
}

/// How the final phase merges the group maps of two partial lanes.
pub open spec fn merge_group_maps(
    funcs: Seq<AggregateFunction>,
    m1: Map<GKey, Seq<int>>,
    m2: Map<GKey, Seq<int>>,
) -> Map<GKey, Seq<int>> {
    Map::new(
        |k: GKey| m1.dom().contains(k) || m2.dom().contains(k),
        |k: GKey|
            if m1.dom().contains(k) && m2.dom().contains(k) {
                combine_seq(funcs, m1[k], m2[k])
            } else if m1.dom().contains(k) {
                m1[k]
            } else {
                m2[k]
            },
    )
}

/// Partial aggregation per lane followed by a final merge produces the same
/// group-to-values mapping as a single-pass aggregation over the same rows,
/// independent of how the rows were distributed across the two lanes.
pub proof fn lemma_partition_merge(funcs: Seq<AggregateFunction>, r1: Seq<SRow>, r2: Seq<SRow>)
    ensures
        agg_group_map(funcs, r1 + r2) == merge_group_maps(
            funcs,
            agg_group_map(funcs, r1),
            agg_group_map(funcs, r2),
        ),
{
    let lhs = agg_group_map(funcs, r1 + r2);
    let rhs = merge_group_maps(funcs, agg_group_map(funcs, r1), agg_group_map(funcs, r2));
    assert forall|k: GKey| has_key(r1 + r2, k) implies has_key(r1, k) || has_key(r2, k) by {
        let j = choose|j: int| 0 <= j < (r1 + r2).len() && (r1 + r2)[j].key == k;
        if j < r1.len() {
            assert(r1[j].key == k);
        } else {
            assert(r2[j - r1.len()].key == k);
        }
    }
    assert forall|k: GKey| has_key(r1, k) || has_key(r2, k) implies has_key(r1 + r2, k) by {
        if has_key(r1, k) {
            let j = choose|j: int| 0 <= j < r1.len() && r1[j].key == k;
            assert((r1 + r2)[j].key == k);
        } else {
            let j = choose|j: int| 0 <= j < r2.len() && r2[j].key == k;
            assert((r1 + r2)[j + r1.len()].key == k);
        }
    }
    assert forall|k: GKey| lhs.dom().contains(k) implies lhs[k] == rhs[k] by {
        let pred = |r: SRow| r.key == k;
        Seq::<SRow>::filter_distributes_over_add(r1, r2, pred);
        assert forall|i: int| 0 <= i < funcs.len() implies lhs[k][i] == rhs[k][i] by {
            assert(key_vals(r1 + r2, k, i) =~= key_vals(r1, k, i) + key_vals(r2, k, i));
            lemma_agg_concat(funcs[i], key_vals(r1, k, i), key_vals(r2, k, i));
            if !has_key(r1, k) {
                assert(key_rows(r1, k).len() == 0) by {
                    if key_rows(r1, k).len() > 0 {
                        let e = key_rows(r1, k)[0];
                        assert(key_rows(r1, k).contains(e));
                        r1.lemma_filter_pred(pred, 0);
                        r1.lemma_filter_contains_rev(pred, e);
                        let j = choose|j: int| 0 <= j < r1.len() && r1[j] == e;
                        assert(r1[j].key == k);
                    }
                }
                lemma_agg_value_bounds(funcs[i], key_vals(r2, k, i));
            }
            if !has_key(r2, k) {
                assert(key_rows(r2, k).len() == 0) by {
                    if key_rows(r2, k).len() > 0 {
                        let e = key_rows(r2, k)[0];
                        assert(key_rows(r2, k).contains(e));
                        r2.lemma_filter_pred(pred, 0);
                        r2.lemma_filter_contains_rev(pred, e);
                        let j = choose|j: int| 0 <= j < r2.len() && r2[j] == e;
                        assert(r2[j].key == k);
                    }
                }
                lemma_agg_value_bounds(funcs[i], key_vals(r1, k, i));
            }
        }
        assert(lhs[k] =~= rhs[k]);
    }
    assert(lhs =~= rhs);
}

} // verus!
