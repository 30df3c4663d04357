use vstd::prelude::*;
use vstd::string::StringExecFns;

use crate::block::{
    fields_view, Column, ColumnType, ColumnV, DataBlock, DataBlockV, DataField, DataFieldV,
};
use crate::error::ErrorCode;

verus! {

/// The first schema index carrying `name`, searched from position `i`.
pub open spec fn first_field_index(fields: Seq<DataFieldV>, name: Seq<char>, i: int) -> Option<int>
    decreases fields.len() - i,
{
    if i < 0 || i >= fields.len() {
        None
    } else if fields[i].name == name {
        Some(i)
    } else {
        first_field_index(fields, name, i + 1)
    }
}

/// A scalar expression over a batch's columns, the fragment the filter and
/// expression stages evaluate row by row.
pub enum Expression {
    Column(String),
    Literal(u64),
    Equal(Box<Expression>, Box<Expression>),
    Plus(Box<Expression>, Box<Expression>),
}

/// The value of an expression on row `r`: a column name denotes its first
/// schema match; `None` marks a missing or non-unsigned column or an
/// overflowing sum, which the stages surface as a data error.
pub open spec fn spec_eval(e: Expression, b: DataBlockV, r: int) -> Option<u64>
    decreases e,
{
    match e {
        Expression::Column(name) => match first_field_index(b.fields, name@, 0) {
            Some(i) => b.columns[i].uint_at(r),
            None => None,
        },
        Expression::Literal(v) => Some(v),
        Expression::Equal(a, b2) => match (spec_eval(*a, b, r), spec_eval(*b2, b, r)) {
            (Some(x), Some(y)) => Some(
                if x == y {
                    1u64
                } else {
                    0u64
                },
            ),
            _ => None,
        },
        Expression::Plus(a, b2) => match (spec_eval(*a, b, r), spec_eval(*b2, b, r)) {
            (Some(x), Some(y)) => {
                if x + y <= u64::MAX {
                    Some((x + y) as u64)
                } else {
                    None
                }
            },
            _ => None,
        },
    }
}

/// Evaluates an expression on one row of a batch.
pub fn eval(e: &Expression, block: &DataBlock, r: usize) -> (res: Option<u64>)
    requires
        block@.wf(),
        r < block@.rows,
    ensures
        res == spec_eval(*e, block@, r as int),
    decreases *e,
{
    match e {
        Expression::Column(name) => {
            block.recall_wf();
            let fields = block.fields();
            let mut i: usize = 0;
            while i < fields.len()
                invariant
                    *e == Expression::Column(*name),
                    i <= fields@.len(),
                    block@.wf(),
                    r < block@.rows,
                    fields_view(fields@) == block@.fields,
                    first_field_index(block@.fields, name@, 0) == first_field_index(
                        block@.fields,
                        name@,
                        i as int,
                    ),
                decreases fields@.len() - i,
            {
                proof {
                    assert(fields_view(fields@)[i as int] == fields@[i as int]@);
                }
                if fields[i].name == *name {
                    proof {
                        assert(block@.fields[i as int].name == name@);
                        assert(first_field_index(block@.fields, name@, i as int) == Some(
                            i as int,
                        ));
                        assert(spec_eval(*e, block@, r as int) == block@.columns[
                        i as int].uint_at(r as int));
                    }
                    return block.column(i).value_u64(r);
                }
                i += 1;
            }
            None
        },
        Expression::Literal(v) => Some(*v),
        Expression::Equal(a, b2) => {
            let x = eval(a, block, r);
            let y = eval(b2, block, r);
            match (x, y) {
                (Some(xv), Some(yv)) => Some(
                    if xv == yv {
                        1
                    } else {
                        0
                    },
                ),
                _ => None,
            }
        },
        Expression::Plus(a, b2) => {
            let x = eval(a, block, r);
            let y = eval(b2, block, r);
            match (x, y) {
                (Some(xv), Some(yv)) => {
                    if xv <= u64::MAX - yv {
                        Some(xv + yv)
                    } else {
                        None
                    }
                },
                _ => None,
            }
        },
    }
}

/// A row mask applied to a sequence: the subsequence at true positions.
pub open spec fn mask_filter<T>(s: Seq<T>, mask: Seq<bool>) -> Seq<T>
    decreases s.len(),
{
    if s.len() == 0 || mask.len() < s.len() {
        Seq::empty()
    } else if mask[s.len() - 1] {
        mask_filter(s.drop_last(), mask) + seq![s.last()]
    } else {
        mask_filter(s.drop_last(), mask)
    }
}

pub proof fn lemma_mask_filter_take_step<T>(s: Seq<T>, mask: Seq<bool>, i: int)
    requires
        0 <= i < s.len(),
        mask.len() >= s.len(),
    ensures
        mask[i] ==> mask_filter(s.take(i + 1), mask) == mask_filter(s.take(i), mask) + seq![s[i]],
        !mask[i] ==> mask_filter(s.take(i + 1), mask) == mask_filter(s.take(i), mask),
{
    assert(s.take(i + 1).drop_last() =~= s.take(i));
    assert(s.take(i + 1).last() == s[i]);
    lemma_mask_filter_mask_irrelevant(s.take(i + 1), mask, mask);
    lemma_mask_filter_mask_irrelevant(s.take(i), mask, mask);
}

/// The mask beyond the sequence's length does not matter.
proof fn lemma_mask_filter_mask_irrelevant<T>(s: Seq<T>, m1: Seq<bool>, m2: Seq<bool>)
    requires
        m1.len() >= s.len(),
        m2.len() >= s.len(),
        forall|j: int| 0 <= j < s.len() ==> m1[j] == m2[j],
    ensures
        mask_filter(s, m1) == mask_filter(s, m2),
    decreases s.len(),
{
    if s.len() > 0 {
        lemma_mask_filter_mask_irrelevant(s.drop_last(), m1, m2);
    }
}

/// Keeps the rows of a copyable column selected by the mask.
fn filter_copy_vec<T: Copy>(v: &Vec<T>, mask: &Vec<bool>) -> (r: Vec<T>)
    requires
        mask@.len() == v@.len(),
    ensures
        r@ == mask_filter(v@, mask@),
{
    let mut out: Vec<T> = Vec::new();
    let mut i: usize = 0;
    while i < v.len()
        invariant
            i <= v@.len(),
            mask@.len() == v@.len(),
            out@ == mask_filter(v@.take(i as int), mask@),
        decreases v@.len() - i,
    {
        proof {
            lemma_mask_filter_take_step(v@, mask@, i as int);
        }
        if mask[i] {
            out.push(v[i]);
            proof {
                assert(mask_filter(v@.take(i as int), mask@) + seq![v@[i as int]] =~= mask_filter(
                    v@.take(i as int),
                    mask@,
                ).push(v@[i as int]));
            }
        }
        i += 1;
    }
    proof {
        assert(v@.take(v@.len() as int) =~= v@);
    }
    out
}

/// Keeps the rows of a byte-string column selected by the mask.
fn filter_bytes_vec(v: &Vec<Vec<u8>>, mask: &Vec<bool>) -> (r: Vec<Vec<u8>>)
    requires
        mask@.len() == v@.len(),
    ensures
        r@.map_values(|b: Vec<u8>| b@) == mask_filter(v@.map_values(|b: Vec<u8>| b@), mask@),
{
    let ghost sv = v@.map_values(|b: Vec<u8>| b@);
    let mut out: Vec<Vec<u8>> = Vec::new();
    let mut i: usize = 0;
    while i < v.len()
        invariant
            i <= v@.len(),
            mask@.len() == v@.len(),
            sv == v@.map_values(|b: Vec<u8>| b@),
            sv.len() == v@.len(),
            out@.map_values(|b: Vec<u8>| b@) == mask_filter(sv.take(i as int), mask@),
        decreases v@.len() - i,
    {
        proof {
            lemma_mask_filter_take_step(sv, mask@, i as int);
            assert(sv[i as int] == v@[i as int]@);
        }
        if mask[i] {
            out.push(crate::aggregator_params::bytes_clone(&v[i]));
            proof {
                assert(out@.map_values(|b: Vec<u8>| b@) =~= mask_filter(
                    sv.take(i as int),
                    mask@,
                ).push(sv[i as int]));
                assert(mask_filter(sv.take(i as int), mask@) + seq![sv[i as int]] =~= mask_filter(
                    sv.take(i as int),
                    mask@,
                ).push(sv[i as int]));
            }
        }
        i += 1;
    }
    proof {
        assert(sv.take(sv.len() as int) =~= sv);
    }
    out
}

/// The column restricted to the masked rows.
pub open spec fn spec_filter_column(c: ColumnV, mask: Seq<bool>) -> ColumnV {
    match c {
        ColumnV::UInt8(s) => ColumnV::UInt8(mask_filter(s, mask)),
        ColumnV::UInt16(s) => ColumnV::UInt16(mask_filter(s, mask)),
        ColumnV::UInt32(s) => ColumnV::UInt32(mask_filter(s, mask)),
        ColumnV::UInt64(s) => ColumnV::UInt64(mask_filter(s, mask)),
        ColumnV::Int64(s) => ColumnV::Int64(mask_filter(s, mask)),
        ColumnV::Binary(s) => ColumnV::Binary(mask_filter(s, mask)),
        ColumnV::NullableUInt32(s) => ColumnV::NullableUInt32(mask_filter(s, mask)),
    }
}

fn filter_column(c: &Column, mask: &Vec<bool>) -> (r: Column)
    requires
        mask@.len() == c@.len(),
    ensures
        r@ == spec_filter_column(c@, mask@),
{
    match c {
        Column::UInt8(v) => Column::UInt8(filter_copy_vec(v, mask)),
        Column::UInt16(v) => Column::UInt16(filter_copy_vec(v, mask)),
        Column::UInt32(v) => Column::UInt32(filter_copy_vec(v, mask)),
        Column::UInt64(v) => Column::UInt64(filter_copy_vec(v, mask)),
        Column::Int64(v) => Column::Int64(filter_copy_vec(v, mask)),
        Column::Binary(v) => Column::Binary(filter_bytes_vec(v, mask)),
        Column::NullableUInt32(v) => Column::NullableUInt32(filter_copy_vec(v, mask)),
    }
}

/// What a filter stage emits for a batch: the same schema, every column
/// restricted to the rows the predicate keeps.
pub open spec fn spec_filter_out(pred: Expression, b: DataBlockV, o: DataBlockV) -> bool {
    &&& o.fields == b.fields
    &&& o.columns.len() == b.columns.len()
    &&& forall|i: int|
        0 <= i < b.columns.len() ==> o.columns[i] == spec_filter_column(
            #[trigger] b.columns[i],
            spec_pred_mask(pred, b),
        )
}

/// Whether every named expression evaluates on every row of the batch.
pub open spec fn spec_project_ok(exprs: Seq<(String, Expression)>, b: DataBlockV) -> bool {
    forall|j: int, r: int|
        0 <= j < exprs.len() && 0 <= r < b.rows ==> (#[trigger] spec_eval(exprs[j].1, b, r))
            is Some
}

/// What an expression stage emits for a batch: one unsigned column per
/// named expression, row for row.
pub open spec fn spec_project_out(exprs: Seq<(String, Expression)>, b: DataBlockV, o: DataBlockV) -> bool {
    &&& o.rows == b.rows
    &&& o.columns.len() == exprs.len()
    &&& o.fields.len() == exprs.len()
    &&& forall|j: int|
        0 <= j < exprs.len() ==> (#[trigger] o.fields[j]) == (DataFieldV {
            name: exprs[j].0@,
            data_type: ColumnType::UInt64,
        })
    &&& forall|j: int, r: int|
        0 <= j < exprs.len() && 0 <= r < b.rows ==> (o.columns[j] matches ColumnV::UInt64(s)
            && Some(s[r]) == #[trigger] spec_eval(exprs[j].1, b, r))
}

/// The predicate mask of a batch: row `r` is kept when the predicate
/// evaluates to a nonzero value. Meaningful when every row evaluates.
pub open spec fn spec_pred_mask(pred: Expression, b: DataBlockV) -> Seq<bool> {
    Seq::new(b.rows, |r: int| spec_eval(pred, b, r) matches Some(v) && v != 0)
}

pub open spec fn spec_pred_total(pred: Expression, b: DataBlockV) -> bool {
    forall|r: int| 0 <= r < b.rows ==> (#[trigger] spec_eval(pred, b, r)) is Some
}

/// Keeps the rows on which the predicate holds, preserving the schema.
/// Fails exactly when some row's predicate does not evaluate.
pub fn filter_block(pred: &Expression, block: &DataBlock) -> (res: Result<DataBlock, ErrorCode>)
    ensures
        res is Ok <==> spec_pred_total(*pred, block@),
        res matches Ok(out) ==> spec_filter_out(*pred, block@, out@) && out@.wf(),
{
    proof {
        use_type_invariant(block);
    }
    let rows = block.num_rows();
    let mut mask: Vec<bool> = Vec::new();
    let mut r: usize = 0;
    while r < rows
        invariant
            r <= rows,
            rows == block@.rows,
            block@.wf(),
            mask@.len() == r,
            forall|t: int| 0 <= t < r ==> #[trigger] mask@[t] == spec_pred_mask(*pred, block@)[t],
            forall|t: int| 0 <= t < r ==> (#[trigger] spec_eval(*pred, block@, t)) is Some,
        decreases rows - r,
    {
        match eval(pred, block, r) {
            Some(v) => {
                mask.push(v != 0);
            },
            None => {
                return Err(ErrorCode::UnexpectedError(String::from_str(
                    "the filter predicate does not evaluate on this batch",
                )));
            },
        }
        r += 1;
    }
    proof {
        assert(mask@ =~= spec_pred_mask(*pred, block@));
    }
    let mut kept: usize = 0;
    let mut t: usize = 0;
    while t < rows
        invariant
            t <= rows,
            mask@.len() == rows,
            kept == mask_count(mask@, t as int),
            kept <= t,
        decreases rows - t,
    {
        if mask[t] {
            kept = kept + 1;
        }
        t += 1;
    }
    let mut columns: Vec<Column> = Vec::new();
    let mut fields: Vec<DataField> = Vec::new();
    let oldfields = block.fields();
    let mut i: usize = 0;
    while i < oldfields.len()
        invariant
            i <= oldfields@.len(),
            fields@.len() == i,
            fields_view(oldfields@) == block@.fields,
            forall|j: int| 0 <= j < i ==> #[trigger] fields@[j]@ == block@.fields[j],
        decreases oldfields@.len() - i,
    {
        proof {
            assert(fields_view(oldfields@)[i as int] == oldfields@[i as int]@);
        }
        fields.push(DataField::new(oldfields[i].name.clone(), oldfields[i].data_type));
        i += 1;
    }
    let ncols = block.num_columns();
    let mut c: usize = 0;
    while c < ncols
        invariant
            c <= ncols,
            ncols == block@.columns.len(),
            block@.wf(),
            rows == block@.rows,
            mask@.len() == rows,
            mask@ == spec_pred_mask(*pred, block@),
            columns@.len() == c,
            forall|j: int|
                0 <= j < c ==> #[trigger] columns@[j]@ == spec_filter_column(
                    block@.columns[j],
                    mask@,
                ),
        decreases ncols - c,
    {
        columns.push(filter_column(block.column(c), &mask));
        c += 1;
    }
    let out = match DataBlock::create(fields, columns, kept) {
        Ok(b) => b,
        Err(e) => {
            proof {
                assert forall|j: int|
                    0 <= j < block@.columns.len() implies spec_filter_column(
                    block@.columns[j],
                    mask@,
                ).len() == mask_count(mask@, mask@.len() as int) && spec_filter_column(
                    block@.columns[j],
                    mask@,
                ).ctype() == block@.columns[j].ctype() by {
                    lemma_filter_column_shape(block@.columns[j], mask@);
                }
                assert(false);
            }
            return Err(e);
        },
    };
    proof {
        assert(out@.fields =~= block@.fields);
    }
    Ok(out)
}

/// How many mask positions before `n` are set.
pub open spec fn mask_count(mask: Seq<bool>, n: int) -> int
    decreases n,
{
    if n <= 0 {
        0
    } else {
        mask_count(mask, n - 1) + if 0 <= n - 1 < mask.len() && mask[n - 1] {
            1int
        } else {
            0int
        }
    }
}

proof fn lemma_mask_count_nonneg(mask: Seq<bool>, n: int)
    ensures
        mask_count(mask, n) >= 0,
    decreases n,
{
    if n > 0 {
        lemma_mask_count_nonneg(mask, n - 1);
    }
}

/// The filtered length of any same-length sequence is the mask's count.
proof fn lemma_mask_filter_len<T>(s: Seq<T>, mask: Seq<bool>)
    requires
        mask.len() >= s.len(),
    ensures
        mask_filter(s, mask).len() == mask_count(mask, s.len() as int),
    decreases s.len(),
{
    if s.len() > 0 {
        lemma_mask_filter_len(s.drop_last(), mask);
    }
}

proof fn lemma_filter_column_shape(c: ColumnV, mask: Seq<bool>)
    requires
        mask.len() == c.len(),
    ensures
        spec_filter_column(c, mask).len() == mask_count(mask, mask.len() as int),
        spec_filter_column(c, mask).ctype() == c.ctype(),
{
    match c {
        ColumnV::UInt8(s) => lemma_mask_filter_len(s, mask),
        ColumnV::UInt16(s) => lemma_mask_filter_len(s, mask),
        ColumnV::UInt32(s) => lemma_mask_filter_len(s, mask),
        ColumnV::UInt64(s) => lemma_mask_filter_len(s, mask),
        ColumnV::Int64(s) => lemma_mask_filter_len(s, mask),
        ColumnV::Binary(s) => lemma_mask_filter_len(s, mask),
        ColumnV::NullableUInt32(s) => lemma_mask_filter_len(s, mask),
    }
}

/// Computes one unsigned output column per named expression. Fails exactly
/// when some expression does not evaluate on some row.
pub fn project_block(exprs: &Vec<(String, Expression)>, block: &DataBlock) -> (res: Result<
    DataBlock,
    ErrorCode,
>)
    ensures
        res is Ok <==> spec_project_ok(exprs@, block@),
        res matches Ok(out) ==> spec_project_out(exprs@, block@, out@) && out@.wf(),
{
    proof {
        use_type_invariant(block);
    }
    let rows = block.num_rows();
    let mut fields: Vec<DataField> = Vec::new();
    let mut columns: Vec<Column> = Vec::new();
    let mut j: usize = 0;
    while j < exprs.len()
        invariant
            j <= exprs@.len(),
            block@.wf(),
            rows == block@.rows,
            fields@.len() == j,
            columns@.len() == j,
            forall|t: int|
                0 <= t < j ==> (#[trigger] fields@[t])@ == (DataFieldV {
                    name: exprs@[t].0@,
                    data_type: ColumnType::UInt64,
                }),
            forall|t: int, r: int|
                0 <= t < j && 0 <= r < block@.rows ==> (columns@[t]@ matches ColumnV::UInt64(s)
                    && Some(s[r]) == #[trigger] spec_eval(exprs@[t].1, block@, r)),
            forall|t: int|
                0 <= t < j ==> (#[trigger] columns@[t])@.len() == block@.rows && columns@[
                t]@.ctype() == ColumnType::UInt64,
        decreases exprs@.len() - j,
    {
        let mut vals: Vec<u64> = Vec::new();
        let mut r: usize = 0;
        while r < rows
            invariant
                r <= rows,
                j < exprs@.len(),
                block@.wf(),
                rows == block@.rows,
                vals@.len() == r,
                forall|t: int|
                    0 <= t < r ==> Some(#[trigger] vals@[t]) == spec_eval(exprs@[j as int].1, block@, t),
            decreases rows - r,
        {
            match eval(&exprs[j].1, block, r) {
                Some(v) => {
                    vals.push(v);
                },
                None => {
                    return Err(ErrorCode::UnexpectedError(String::from_str(
                        "an expression does not evaluate on this batch",
                    )));
                },
            }
            r += 1;
        }
        fields.push(DataField::new(exprs[j].0.clone(), ColumnType::UInt64));
        columns.push(Column::UInt64(vals));
        j += 1;
    }
    let out = match DataBlock::create(fields, columns, rows) {
        Ok(b) => b,
        Err(e) => {
            proof {
                assert(false);
            }
            return Err(e);
        },
    };
    Ok(out)
}

} // verus!
