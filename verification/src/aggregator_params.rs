use vstd::prelude::*;
use vstd::string::StringExecFns;

use crate::aggregate::{AggregateFunction, GKey};
use crate::aggregate_function::{
    descs_view, funcs_of, le_value, pow256, spec_layout_size, spec_offset, AggregateFunctionDesc,
};
use crate::block::{
    fields_view, Column, ColumnType, ColumnV, DataBlock, DataBlockV, DataField, DataFieldV,
};
use crate::error::ErrorCode;

verus! {

/// A group key as the aggregator holds it at run time: group-by columns
/// packed into a fixed-width integer, or serialised into a byte string.
#[derive(Debug)]
pub enum GroupKey {
    Fixed(u64),
    Serialized(Vec<u8>),
}

impl View for GroupKey {
    type V = GKey;

    open spec fn view(&self) -> GKey {
        match self {
            GroupKey::Fixed(v) => GKey::Fixed(*v),
            GroupKey::Serialized(b) => GKey::Serialized(b@),
        }
    }
}

pub fn bytes_eq(a: &Vec<u8>, b: &Vec<u8>) -> (r: bool)
    ensures
        r == (a@ == b@),
{
    if a.len() != b.len() {
        proof {
            assert(a@ != b@);
        }
        return false;
    }
    let mut i: usize = 0;
    while i < a.len()
        invariant
            i <= a@.len(),
            a@.len() == b@.len(),
            forall|j: int| 0 <= j < i ==> a@[j] == b@[j],
        decreases a@.len() - i,
    {
        if a[i] != b[i] {
            proof {
                assert(a@[i as int] != b@[i as int]);
            }
            return false;
        }
        i += 1;
    }
    proof {
        assert(a@ =~= b@);
    }
    true
}

pub fn bytes_clone(a: &Vec<u8>) -> (r: Vec<u8>)
    ensures
        r@ == a@,
{
    let mut out: Vec<u8> = Vec::new();
    let mut i: usize = 0;
    while i < a.len()
        invariant
            i <= a@.len(),
            out@ == a@.subrange(0, i as int),
        decreases a@.len() - i,
    {
        out.push(a[i]);
        proof {
            assert(a@.subrange(0, i + 1 as int) =~= a@.subrange(0, i as int).push(a@[i as int]));
        }
        i += 1;
    }
    proof {
        assert(a@.subrange(0, a@.len() as int) =~= a@);
    }
    out
}

pub fn key_eq(a: &GroupKey, b: &GroupKey) -> (r: bool)
    ensures
        r == (a@ == b@),
{
    match (a, b) {
        (GroupKey::Fixed(x), GroupKey::Fixed(y)) => *x == *y,
        (GroupKey::Serialized(x), GroupKey::Serialized(y)) => bytes_eq(x, y),
        _ => false,
    }
}

/// The key representation chosen once per query from the group-by column
/// types: the smallest unsigned width the packed columns fit, or a
/// serialised byte key when they fit none.
#[derive(Clone, Copy, Debug, PartialEq, Eq, Structural)]
pub enum HashMethodKind {
    KeysU8,
    KeysU16,
    KeysU32,
    KeysU64,
    Serializer,
}

impl HashMethodKind {
    /// Byte capacity of the packed key, `None` for the serialised form.
    pub open spec fn spec_capacity(self) -> Option<int> {
        match self {
            HashMethodKind::KeysU8 => Some(1int),
            HashMethodKind::KeysU16 => Some(2int),
            HashMethodKind::KeysU32 => Some(4int),
            HashMethodKind::KeysU64 => Some(8int),
            HashMethodKind::Serializer => None,
        }
    }
}

pub open spec fn width_nat(t: ColumnType) -> nat {
    match t.spec_fixed_width() {
        Some(w) => w as nat,
        None => 0,
    }
}

/// Total packed width of the group columns, meaningful when every group
/// column has a fixed width.
pub open spec fn spec_total_width(cols: Seq<ColumnV>, gidx: Seq<usize>) -> int
    decreases gidx.len(),
{
    if gidx.len() == 0 {
        0
    } else {
        width_nat(cols[gidx[0] as int].ctype()) + spec_total_width(cols, gidx.drop_first())
    }
}

pub open spec fn all_fixed(cols: Seq<ColumnV>, gidx: Seq<usize>) -> bool {
    forall|j: int|
        0 <= j < gidx.len() ==> (#[trigger] cols[gidx[j] as int].ctype()).spec_fixed_width()
            is Some
}

pub open spec fn gidx_in_range(cols: Seq<ColumnV>, gidx: Seq<usize>) -> bool {
    forall|j: int| 0 <= j < gidx.len() ==> gidx[j] < cols.len()
}

/// Whether a chosen method is consistent with the group columns of a block.
pub open spec fn method_ok(method: HashMethodKind, cols: Seq<ColumnV>, gidx: Seq<usize>) -> bool {
    match method.spec_capacity() {
        Some(cap) => gidx_in_range(cols, gidx) && all_fixed(cols, gidx) && spec_total_width(
            cols,
            gidx,
        ) <= cap,
        None => true,
    }
}

pub open spec fn uint_cell(c: ColumnV, r: int) -> int {
    match c.uint_at(r) {
        Some(v) => v as int,
        None => 0,
    }
}

/// The packed fixed-width key of row `r`: each group column's value placed
/// at the byte offset its predecessors' widths determine.
pub open spec fn spec_fixed_key(cols: Seq<ColumnV>, gidx: Seq<usize>, r: int) -> int
    decreases gidx.len(),
{
    if gidx.len() == 0 {
        0
    } else {
        uint_cell(cols[gidx[0] as int], r) + pow256(width_nat(cols[gidx[0] as int].ctype()))
            * spec_fixed_key(cols, gidx.drop_first(), r)
    }
}

/// Little-endian bytes of a value, `w` bytes long.
pub open spec fn le_bytes(v: int, w: nat) -> Seq<u8>
    decreases w,
{
    if w == 0 {
        Seq::empty()
    } else {
        seq![(v % 256) as u8] + le_bytes(v / 256, (w - 1) as nat)
    }
}

/// The serialised bytes of one group cell. Every numeric cell contributes
/// its full-width little-endian bytes; a byte-string cell its length and
/// bytes; a nullable cell a presence flag and its value.
pub open spec fn spec_ser_cell(c: ColumnV, r: int) -> Seq<u8> {
    match c {
        ColumnV::UInt8(s) => le_bytes(s[r] as int, 1),
        ColumnV::UInt16(s) => le_bytes(s[r] as int, 2),
        ColumnV::UInt32(s) => le_bytes(s[r] as int, 4),
        ColumnV::UInt64(s) => le_bytes(s[r] as int, 8),
        ColumnV::Int64(s) => le_bytes((s[r] as u64) as int, 8),
        ColumnV::Binary(s) => le_bytes(s[r].len() as int, 8) + s[r],
        ColumnV::NullableUInt32(s) => match s[r] {
            Some(v) => seq![1u8] + le_bytes(v as int, 4),
            None => seq![0u8] + le_bytes(0, 4),
        },
    }
}

/// The serialised key of row `r`: the concatenated cells of its group
/// columns, in group-by order.
pub open spec fn spec_ser_key(cols: Seq<ColumnV>, gidx: Seq<usize>, r: int) -> Seq<u8>
    decreases gidx.len(),
{
    if gidx.len() == 0 {
        Seq::empty()
    } else {
        spec_ser_key(cols, gidx.drop_last(), r) + spec_ser_cell(cols[gidx.last() as int], r)
    }
}

/// The group key of row `r` under the chosen representation.
pub open spec fn spec_row_key(
    method: HashMethodKind,
    cols: Seq<ColumnV>,
    gidx: Seq<usize>,
    r: int,
) -> GKey {
    if method is Serializer {
        GKey::Serialized(spec_ser_key(cols, gidx, r))
    } else {
        GKey::Fixed(spec_fixed_key(cols, gidx, r) as u64)
    }
}

pub proof fn lemma_fixed_key_bound(cols: Seq<ColumnV>, gidx: Seq<usize>, r: int)
    requires
        gidx_in_range(cols, gidx),
        all_fixed(cols, gidx),
    ensures
        0 <= spec_fixed_key(cols, gidx, r) < pow256(spec_total_width(cols, gidx) as nat),
    decreases gidx.len(),
{
    crate::aggregate_function::lemma_pow256_pos(spec_total_width(cols, gidx) as nat);
    if gidx.len() > 0 {
        let c = cols[gidx[0] as int];
        let w = width_nat(c.ctype());
        let rest = spec_fixed_key(cols, gidx.drop_first(), r);
        let tw_rest = spec_total_width(cols, gidx.drop_first());
        assert(gidx_in_range(cols, gidx.drop_first()) && all_fixed(cols, gidx.drop_first())) by {
            assert(forall|j: int|
                0 <= j < gidx.drop_first().len() ==> gidx.drop_first()[j] == gidx[j + 1]);
        }
        lemma_fixed_key_bound(cols, gidx.drop_first(), r);
        assert(0 <= uint_cell(c, r) < pow256(w)) by {
            reveal_with_fuel(pow256, 9);
            match c {
                ColumnV::UInt8(s) => {},
                ColumnV::UInt16(s) => {},
                ColumnV::UInt32(s) => {},
                ColumnV::UInt64(s) => {},
                _ => {},
            }
        }
        lemma_total_width_nonneg(cols, gidx.drop_first());
        assert(spec_total_width(cols, gidx) == w + tw_rest);
        assert(pow256((w + tw_rest) as nat) == pow256(w) * pow256(tw_rest as nat)) by {
            lemma_pow256_mul(w, tw_rest as nat);
        }
        assert(uint_cell(c, r) + pow256(w) * rest < pow256(w) * pow256(tw_rest as nat))
            by (nonlinear_arith)
            requires
                0 <= uint_cell(c, r) < pow256(w),
                0 <= rest < pow256(tw_rest as nat),
                pow256(w) >= 1,
        ;
    }
}

pub proof fn lemma_total_width_nonneg(cols: Seq<ColumnV>, gidx: Seq<usize>)
    ensures
        spec_total_width(cols, gidx) >= 0,
    decreases gidx.len(),
{
    if gidx.len() > 0 {
        lemma_total_width_nonneg(cols, gidx.drop_first());
    }
}

pub proof fn lemma_pow256_mul(a: nat, b: nat)
    ensures
        pow256(a + b) == pow256(a) * pow256(b),
    decreases a,
{
    if a == 0 {
        assert(pow256(0 + b) == 1 * pow256(b)) by (nonlinear_arith)
            requires
                pow256(0 + b) == pow256(b),
        ;
    } else {
        lemma_pow256_mul((a - 1) as nat, b);
        assert((a + b) as nat != 0);
        assert(pow256((a + b) as nat) == 256 * pow256((a + b - 1) as nat));
        assert(256 * (pow256((a - 1) as nat) * pow256(b)) == (256 * pow256((a - 1) as nat))
            * pow256(b)) by (nonlinear_arith);
    }
}

/// Immutable configuration of one aggregation phase: group-by column names,
/// aggregate functions, their resolved column indices against the phase's
/// input schema, and the precomputed accumulator layout. Created once per
/// query and shared read-only by every aggregator instance.
pub struct AggregatorParams {
    pub schema: Vec<DataField>,
    pub group_columns_name: Vec<String>,
    pub aggregate_functions: Vec<AggregateFunctionDesc>,
    pub group_indices: Vec<usize>,
    pub arg_indices: Vec<usize>,
    pub offsets: Vec<usize>,
    pub layout_size: usize,
}

impl AggregatorParams {
    /// The function kinds, in order.
    pub open spec fn funcs(&self) -> Seq<AggregateFunction> {
        funcs_of(descs_view(self.aggregate_functions@))
    }

    pub open spec fn wf(&self) -> bool {
        &&& self.group_indices@.len() == self.group_columns_name@.len()
        &&& forall|j: int|
            0 <= j < self.group_indices@.len() ==> (#[trigger] self.group_indices@[j])
                < self.schema@.len()
        &&& forall|j: int|
            0 <= j < self.group_indices@.len() ==> fields_view(self.schema@)[(
            #[trigger] self.group_indices@[j]) as int].name == self.group_columns_name@[j]@
        &&& self.arg_indices@.len() == self.aggregate_functions@.len()
        &&& forall|i: int|
            0 <= i < self.arg_indices@.len() ==> (#[trigger] self.arg_indices@[i])
                < self.schema@.len() || descs_view(self.aggregate_functions@)[i].func
                is Count
        &&& self.offsets@.len() == self.aggregate_functions@.len()
        &&& forall|i: int|
            0 <= i < self.offsets@.len() ==> #[trigger] self.offsets@[i] == spec_offset(
                self.funcs(),
                i,
            )
        &&& self.layout_size == spec_layout_size(self.funcs())
    }

    /// Resolves names against the input schema and computes the state
    /// layout. Succeeds exactly when every group-by name and every
    /// non-`Count` argument name denotes a schema column and the layout
    /// fits the address space.
    pub fn try_create(
        schema: Vec<DataField>,
        group_columns_name: Vec<String>,
        aggregate_functions: Vec<AggregateFunctionDesc>,
    ) -> (r: Result<AggregatorParams, ErrorCode>)
        ensures
            r matches Ok(p) ==> {
                &&& p.wf()
                &&& p.schema@ == schema@
                &&& p.group_columns_name@ == group_columns_name@
                &&& p.aggregate_functions@ == aggregate_functions@
            },
    {
        let mut group_indices: Vec<usize> = Vec::new();
        let mut j: usize = 0;
        while j < group_columns_name.len()
            invariant
                j <= group_columns_name@.len(),
                group_indices@.len() == j,
                forall|t: int|
                    0 <= t < j ==> (#[trigger] group_indices@[t]) < schema@.len(),
                forall|t: int|
                    0 <= t < j ==> fields_view(schema@)[(#[trigger] group_indices@[t]) as int].name
                        == group_columns_name@[t]@,
            decreases group_columns_name@.len() - j,
        {
            match find_field(&schema, &group_columns_name[j]) {
                Some(ix) => group_indices.push(ix),
                None => {
                    return Err(ErrorCode::SemanticError(String::from_str(
                        "group-by column is not in the input schema",
                    )));
                },
            }
            j += 1;
        }
        let mut arg_indices: Vec<usize> = Vec::new();
        let mut i: usize = 0;
        while i < aggregate_functions.len()
            invariant
                i <= aggregate_functions@.len(),
                arg_indices@.len() == i,
                forall|t: int|
                    0 <= t < i ==> (#[trigger] arg_indices@[t]) < schema@.len() || descs_view(
                        aggregate_functions@,
                    )[t].func is Count,
            decreases aggregate_functions@.len() - i,
        {
            proof {
                assert(descs_view(aggregate_functions@)[i as int] == aggregate_functions@[
                i as int]@);
            }
            match aggregate_functions[i].func {
                AggregateFunction::Count => {
                    arg_indices.push(0);
                },
                _ => {
                    match find_field(&schema, &aggregate_functions[i].arg) {
                        Some(ix) => arg_indices.push(ix),
                        None => {
                            return Err(ErrorCode::SemanticError(String::from_str(
                                "aggregate argument column is not in the input schema",
                            )));
                        },
                    }
                },
            }
            i += 1;
        }
        let (offsets, layout_size) = match crate::aggregate_function::layout_offsets(
            &aggregate_functions,
        ) {
            Ok(x) => x,
            Err(e) => {
                return Err(e);
            },
        };
        Ok(
            AggregatorParams {
                schema,
                group_columns_name,
                aggregate_functions,
                group_indices,
                arg_indices,
                offsets,
                layout_size,
            },
        )
    }
}

/// Index of the first schema field with the given name.
pub fn find_field(schema: &Vec<DataField>, name: &String) -> (r: Option<usize>)
    ensures
        r matches Some(ix) ==> ix < schema@.len() && fields_view(schema@)[ix as int].name == name@,
        r is None ==> forall|j: int|
            0 <= j < schema@.len() ==> fields_view(schema@)[j].name != name@,
{
    let mut j: usize = 0;
    while j < schema.len()
        invariant
            j <= schema@.len(),
            forall|t: int| 0 <= t < j ==> fields_view(schema@)[t].name != name@,
        decreases schema@.len() - j,
    {
        proof {
            assert(fields_view(schema@)[j as int] == schema@[j as int]@);
        }
        if schema[j].name == *name {
            return Some(j);
        }
        j += 1;
    }
    None
}

/// Fixedness and total packed width stated over the schema, which is what
/// the method is chosen from before any block is seen.
pub open spec fn schema_all_fixed(schema: Seq<DataFieldV>, gidx: Seq<usize>) -> bool {
    forall|j: int|
        0 <= j < gidx.len() ==> (#[trigger] schema[gidx[j] as int].data_type).spec_fixed_width()
            is Some
}

pub open spec fn schema_total_width(schema: Seq<DataFieldV>, gidx: Seq<usize>) -> int
    decreases gidx.len(),
{
    if gidx.len() == 0 {
        0
    } else {
        width_nat(schema[gidx[0] as int].data_type) + schema_total_width(schema, gidx.drop_first())
    }
}

pub open spec fn schema_method_ok(
    method: HashMethodKind,
    schema: Seq<DataFieldV>,
    gidx: Seq<usize>,
) -> bool {
    match method.spec_capacity() {
        Some(cap) => schema_all_fixed(schema, gidx) && schema_total_width(schema, gidx) <= cap,
        None => true,
    }
}

/// The representation the group column types prescribe: the smallest packed
/// width that fits them all, else the serialised form.
pub open spec fn spec_choose_method(schema: Seq<DataFieldV>, gidx: Seq<usize>) -> HashMethodKind {
    if schema_all_fixed(schema, gidx) && schema_total_width(schema, gidx) <= 1 {
        HashMethodKind::KeysU8
    } else if schema_all_fixed(schema, gidx) && schema_total_width(schema, gidx) <= 2 {
        HashMethodKind::KeysU16
    } else if schema_all_fixed(schema, gidx) && schema_total_width(schema, gidx) <= 4 {
        HashMethodKind::KeysU32
    } else if schema_all_fixed(schema, gidx) && schema_total_width(schema, gidx) <= 8 {
        HashMethodKind::KeysU64
    } else {
        HashMethodKind::Serializer
    }
}

/// Chooses the key representation once per query from the group column
/// types: the smallest packed width they fit, else the serialised form.
pub fn choose_method(schema: &Vec<DataField>, group_indices: &Vec<usize>) -> (r: HashMethodKind)
    requires
        forall|j: int| 0 <= j < group_indices@.len() ==> group_indices@[j] < schema@.len(),
    ensures
        r == spec_choose_method(fields_view(schema@), group_indices@),
        schema_method_ok(r, fields_view(schema@), group_indices@),
{
    let ghost sv = fields_view(schema@);
    let mut total: u64 = 0;
    let mut fixed = true;
    let mut j: usize = 0;
    while j < group_indices.len()
        invariant
            j <= group_indices@.len(),
            sv == fields_view(schema@),
            forall|t: int| 0 <= t < group_indices@.len() ==> group_indices@[t] < schema@.len(),
            total <= 9,
            fixed ==> schema_all_fixed(sv, group_indices@.subrange(0, j as int)),
            fixed && total <= 8 ==> schema_total_width(sv, group_indices@.subrange(0, j as int))
                == total,
            fixed && total == 9 ==> schema_total_width(sv, group_indices@.subrange(0, j as int))
                >= 9,
            !fixed ==> !schema_all_fixed(sv, group_indices@),
        decreases group_indices@.len() - j,
    {
        proof {
            assert(sv[group_indices@[j as int] as int] == schema@[group_indices@[j as int] as int]@);
        }
        match schema[group_indices[j]].data_type.fixed_width() {
            Some(w) => {
                // Past eight bytes no packed representation fits; the exact
                // width no longer matters.
                if total + w > 8 {
                    total = 9;
                } else {
                    total = total + w;
                }
            },
            None => {
                proof {
                    assert(sv[group_indices@[j as int] as int].data_type.spec_fixed_width()
                        is None);
                }
                fixed = false;
            },
        }
        proof {
            lemma_schema_width_snoc(sv, group_indices@, j as int);
        }
        j += 1;
    }
    proof {
        assert(group_indices@.subrange(0, group_indices@.len() as int) =~= group_indices@);
    }
    if !fixed {
        HashMethodKind::Serializer
    } else if total <= 1 {
        HashMethodKind::KeysU8
    } else if total <= 2 {
        HashMethodKind::KeysU16
    } else if total <= 4 {
        HashMethodKind::KeysU32
    } else if total <= 8 {
        HashMethodKind::KeysU64
    } else {
        HashMethodKind::Serializer
    }
}

/// Width and fixedness of a prefix extended by one group column.
proof fn lemma_schema_width_snoc(schema: Seq<DataFieldV>, gidx: Seq<usize>, j: int)
    requires
        0 <= j < gidx.len(),
    ensures
        schema_all_fixed(schema, gidx.subrange(0, j + 1)) == (schema_all_fixed(
            schema,
            gidx.subrange(0, j),
        ) && schema[gidx[j] as int].data_type.spec_fixed_width() is Some),
        schema_total_width(schema, gidx.subrange(0, j + 1)) == schema_total_width(
            schema,
            gidx.subrange(0, j),
        ) + width_nat(schema[gidx[j] as int].data_type),
    decreases j,
{
    let a = gidx.subrange(0, j + 1);
    let b = gidx.subrange(0, j);
    assert forall|t: int| 0 <= t < a.len() implies a[t] == gidx[t] by {}
    if j == 0 {
        assert(a.drop_first() =~= Seq::<usize>::empty());
        assert(b =~= Seq::<usize>::empty());
    } else {
        lemma_schema_width_snoc(schema, gidx.drop_first(), j - 1);
        assert(gidx.drop_first().subrange(0, j) =~= a.drop_first());
        assert(gidx.drop_first().subrange(0, j - 1) =~= b.drop_first());
        assert(gidx.drop_first()[j - 1] == gidx[j]);
        assert(schema_all_fixed(schema, a) == (schema_all_fixed(schema, a.drop_first()) && schema[a[
            0] as int].data_type.spec_fixed_width() is Some)) by {
            lemma_schema_all_fixed_first(schema, a);
        }
        assert(schema_all_fixed(schema, b) == (schema_all_fixed(schema, b.drop_first()) && schema[b[
            0] as int].data_type.spec_fixed_width() is Some)) by {
            lemma_schema_all_fixed_first(schema, b);
        }
    }
}

/// Appends the `w` little-endian bytes of `v`.
pub fn push_le_bytes(out: &mut Vec<u8>, v: u64, w: usize)
    ensures
        final(out)@ == old(out)@ + le_bytes(v as int, w as nat),
    decreases w,
{
    if w == 0 {
        proof {
            assert(old(out)@ + le_bytes(v as int, 0) =~= old(out)@);
        }
    } else {
        let b: u8 = (v % 256) as u8;
        out.push(b);
        push_le_bytes(out, v / 256, w - 1);
        proof {
            assert(le_bytes(v as int, w as nat) == seq![b] + le_bytes(v as int / 256, (w - 1) as nat));
            assert((old(out)@.push(b)) + le_bytes(v as int / 256, (w - 1) as nat) =~= old(out)@ + (
            seq![b] + le_bytes(v as int / 256, (w - 1) as nat)));
        }
    }
}

/// Appends the serialised form of one group cell.
pub fn push_ser_cell(out: &mut Vec<u8>, c: &Column, r: usize)
    requires
        r < c@.len(),
    ensures
        final(out)@ == old(out)@ + spec_ser_cell(c@, r as int),
{
    match c {
        Column::UInt8(s) => push_le_bytes(out, s[r] as u64, 1),
        Column::UInt16(s) => push_le_bytes(out, s[r] as u64, 2),
        Column::UInt32(s) => push_le_bytes(out, s[r] as u64, 4),
        Column::UInt64(s) => push_le_bytes(out, s[r], 8),
        Column::Int64(s) => {
            let v: u64 = #[verifier::truncate] (s[r] as u64);
            push_le_bytes(out, v, 8);
        },
        Column::Binary(s) => {
            let bytes = &s[r];
            push_le_bytes(out, bytes.len() as u64, 8);
            let ghost mid = out@;
            let mut t: usize = 0;
            while t < bytes.len()
                invariant
                    t <= bytes@.len(),
                    out@ == mid + bytes@.subrange(0, t as int),
                decreases bytes@.len() - t,
            {
                out.push(bytes[t]);
                proof {
                    assert(bytes@.subrange(0, t + 1 as int) =~= bytes@.subrange(0, t as int).push(
                        bytes@[t as int],
                    ));
                    assert(mid + bytes@.subrange(0, t + 1 as int) =~= (mid + bytes@.subrange(
                        0,
                        t as int,
                    )).push(bytes@[t as int]));
                }
                t += 1;
            }
            proof {
                assert(bytes@.subrange(0, bytes@.len() as int) =~= bytes@);
                assert(c@ matches ColumnV::Binary(bs) && bs[r as int] == bytes@);
                assert(mid + bytes@ =~= old(out)@ + (le_bytes(bytes@.len() as int, 8) + bytes@));
            }
        },
        Column::NullableUInt32(s) => {
            match s[r] {
                Some(v) => {
                    out.push(1);
                    push_le_bytes(out, v as u64, 4);
                    proof {
                        assert(old(out)@.push(1u8) + le_bytes(v as int, 4) =~= old(out)@ + (
                        seq![1u8] + le_bytes(v as int, 4)));
                    }
                },
                None => {
                    out.push(0);
                    push_le_bytes(out, 0, 4);
                    proof {
                        assert(old(out)@.push(0u8) + le_bytes(0, 4) =~= old(out)@ + (seq![0u8]
                            + le_bytes(0, 4)));
                    }
                },
            }
        },
    }
}

/// Builds the serialised key of row `r`.
pub fn build_ser_key(block: &DataBlock, gidx: &Vec<usize>, r: usize) -> (k: Vec<u8>)
    requires
        gidx_in_range(block@.columns, gidx@),
        r < block@.rows,
    ensures
        k@ == spec_ser_key(block@.columns, gidx@, r as int),
{
    block.recall_wf();
    let mut out: Vec<u8> = Vec::new();
    let mut j: usize = 0;
    while j < gidx.len()
        invariant
            j <= gidx@.len(),
            gidx_in_range(block@.columns, gidx@),
            r < block@.rows,
            block@.wf(),
            out@ == spec_ser_key(block@.columns, gidx@.subrange(0, j as int), r as int),
        decreases gidx@.len() - j,
    {
        let c = block.column(gidx[j]);
        push_ser_cell(&mut out, c, r);
        proof {
            let pre = gidx@.subrange(0, j as int);
            let cur = gidx@.subrange(0, j + 1 as int);
            assert(cur.drop_last() =~= pre);
            assert(cur.last() == gidx@[j as int]);
        }
        j += 1;
    }
    proof {
        assert(gidx@.subrange(0, gidx@.len() as int) =~= gidx@);
    }
    out
}

/// `x * 256^w` for the packed-key widths, exact in `u64` under the caller's
/// bound.
fn mul_width(x: u64, w: u64) -> (r: u64)
    requires
        w == 1 || w == 2 || w == 4 || w == 8,
        x < pow256((8 - w) as nat),
    ensures
        r == x * pow256(w as nat),
{
    proof {
        crate::aggregate_function::lemma_pow256_8();
        reveal_with_fuel(pow256, 9);
    }
    if w == 1 {
        proof {
            assert(x * 256 <= (pow256(7) - 1) * 256) by (nonlinear_arith)
                requires
                    x <= pow256(7) - 1,
            ;
        }
        x * 256
    } else if w == 2 {
        proof {
            assert(x * 65536 <= (pow256(6) - 1) * 65536) by (nonlinear_arith)
                requires
                    x <= pow256(6) - 1,
            ;
        }
        x * 65536
    } else if w == 4 {
        proof {
            assert(x * 4294967296 <= (pow256(4) - 1) * 4294967296) by (nonlinear_arith)
                requires
                    x <= pow256(4) - 1,
            ;
        }
        x * 4294967296
    } else {
        proof {
            assert(x == 0);
        }
        0
    }
}

proof fn lemma_group_props_skip(cols: Seq<ColumnV>, gidx: Seq<usize>, i: int)
    requires
        0 <= i <= gidx.len(),
        gidx_in_range(cols, gidx),
        all_fixed(cols, gidx),
    ensures
        gidx_in_range(cols, gidx.skip(i)),
        all_fixed(cols, gidx.skip(i)),
{
    assert(forall|t: int| 0 <= t < gidx.skip(i).len() ==> gidx.skip(i)[t] == gidx[t + i]);
}

/// Packs the fixed-width key of row `r` from group column `i` on.
fn fixed_key_from(block: &DataBlock, gidx: &Vec<usize>, i: usize, r: usize) -> (k: u64)
    requires
        i <= gidx@.len(),
        gidx_in_range(block@.columns, gidx@),
        all_fixed(block@.columns, gidx@),
        spec_total_width(block@.columns, gidx@.skip(i as int)) <= 8,
        r < block@.rows,
    ensures
        k == spec_fixed_key(block@.columns, gidx@.skip(i as int), r as int),
    decreases gidx@.len() - i,
{
    block.recall_wf();
    let ghost cols = block@.columns;
    let ghost tail = gidx@.skip(i as int);
    if i == gidx.len() {
        proof {
            assert(tail =~= Seq::<usize>::empty());
        }
        0
    } else {
        proof {
            assert(tail[0] == gidx@[i as int]);
            assert(gidx@.skip(i + 1 as int) =~= tail.drop_first());
            lemma_total_width_nonneg(cols, tail.drop_first());
            assert(spec_total_width(cols, tail) == width_nat(cols[gidx@[i as int] as int].ctype())
                + spec_total_width(cols, tail.drop_first()));
        }
        let rest = fixed_key_from(block, gidx, i + 1, r);
        let c = block.column(gidx[i]);
        let v = match c.value_u64(r) {
            Some(v) => v,
            None => {
                proof {
                    assert(c@.ctype().spec_fixed_width() is Some);
                    assert(false);
                }
                0
            },
        };
        let w = match c.ctype().fixed_width() {
            Some(w) => w,
            None => {
                proof {
                    assert(false);
                }
                0
            },
        };
        proof {
            lemma_group_props_skip(cols, gidx@, i + 1);
            lemma_fixed_key_bound(cols, gidx@.skip(i + 1 as int), r as int);
            assert(all_fixed(cols, tail) && gidx_in_range(cols, tail)) by {
                lemma_group_props_skip(cols, gidx@, i as int);
            }
            assert(rest < pow256(spec_total_width(cols, tail.drop_first()) as nat));
            assert(spec_total_width(cols, tail.drop_first()) <= 8 - w);
            crate::aggregate_function::lemma_pow256_monotone(
                spec_total_width(cols, tail.drop_first()) as nat,
                (8 - w) as nat,
            );
        }
        let shifted = mul_width(rest, w);
        proof {
            lemma_fixed_key_bound(cols, tail, r as int);
            crate::aggregate_function::lemma_pow256_monotone(
                spec_total_width(cols, tail) as nat,
                8,
            );
            crate::aggregate_function::lemma_pow256_8();
            assert(uint_cell(c@, r as int) == v);
            assert(spec_fixed_key(cols, tail, r as int) == v + pow256(w as nat) * spec_fixed_key(
                cols,
                tail.drop_first(),
                r as int,
            ));
            assert(pow256(w as nat) * rest == rest * pow256(w as nat)) by (nonlinear_arith);
        }
        v + shifted
    }
}

/// Builds the group key of row `r` under the chosen representation.
pub fn build_row_key(method: HashMethodKind, block: &DataBlock, gidx: &Vec<usize>, r: usize) -> (k:
    GroupKey)
    requires
        gidx_in_range(block@.columns, gidx@),
        r < block@.rows,
        method_ok(method, block@.columns, gidx@),
    ensures
        k@ == spec_row_key(method, block@.columns, gidx@, r as int),
{
    match method {
        HashMethodKind::Serializer => GroupKey::Serialized(build_ser_key(block, gidx, r)),
        _ => {
            proof {
                assert(gidx@.skip(0) =~= gidx@);
                assert(method.spec_capacity() matches Some(cap) && cap <= 8);
                assert(all_fixed(block@.columns, gidx@));
                assert(spec_total_width(block@.columns, gidx@) <= 8);
                lemma_total_width_nonneg(block@.columns, gidx@);
                lemma_fixed_key_bound(block@.columns, gidx@, r as int);
                crate::aggregate_function::lemma_pow256_monotone(
                    spec_total_width(block@.columns, gidx@) as nat,
                    8,
                );
                crate::aggregate_function::lemma_pow256_8();
            }
            GroupKey::Fixed(fixed_key_from(block, gidx, 0, r))
        },
    }
}

proof fn lemma_schema_all_fixed_first(schema: Seq<DataFieldV>, gidx: Seq<usize>)
    requires
        gidx.len() > 0,
    ensures
        schema_all_fixed(schema, gidx) == (schema_all_fixed(schema, gidx.drop_first())
            && schema[gidx[0] as int].data_type.spec_fixed_width() is Some),
{
    let rest = gidx.drop_first();
    assert(forall|t: int| 0 <= t < rest.len() ==> rest[t] == gidx[t + 1]);
    if schema_all_fixed(schema, gidx) {
        assert forall|t: int|
            0 <= t < rest.len() implies (#[trigger] schema[rest[
        t] as int].data_type).spec_fixed_width() is Some by {
            assert(schema[gidx[t + 1] as int].data_type.spec_fixed_width() is Some);
        }
    }
    if schema_all_fixed(schema, rest) && schema[gidx[0] as int].data_type.spec_fixed_width()
        is Some {
        assert forall|t: int|
            0 <= t < gidx.len() implies (#[trigger] schema[gidx[
        t] as int].data_type).spec_fixed_width() is Some by {
            if t > 0 {
                assert(schema[rest[t - 1] as int].data_type.spec_fixed_width() is Some);
            }
        }
    }
}

/// Whether a block carries this phase's input schema.
pub open spec fn block_match(p: AggregatorParams, b: DataBlockV) -> bool {
    crate::block::spec_schema_eq(b.fields, fields_view(p.schema@))
}

/// Whether the argument columns the functions read are fixed-size unsigned
/// columns, the only types the accumulators take values from.
pub open spec fn args_ok(p: AggregatorParams, b: DataBlockV) -> bool {
    forall|i: int|
        0 <= i < p.funcs().len() ==> p.funcs()[i] is Count || ((#[trigger] p.arg_indices@[i])
            < b.columns.len() && b.columns[p.arg_indices@[i] as int].ctype().spec_fixed_width()
            is Some)
}

/// The argument value function `i` accumulates from row `r`.
pub open spec fn spec_arg_at(p: AggregatorParams, b: DataBlockV, i: int, r: int) -> u64 {
    if p.funcs()[i] is Count {
        0u64
    } else {
        match b.columns[p.arg_indices@[i] as int].uint_at(r) {
            Some(v) => v,
            None => 0u64,
        }
    }
}

pub open spec fn spec_args_row(p: AggregatorParams, b: DataBlockV, r: int) -> Seq<u64> {
    Seq::new(p.funcs().len(), |i: int| spec_arg_at(p, b, i, r))
}

/// The argument rows of a whole block, one entry per input row.
pub open spec fn spec_block_args(p: AggregatorParams, b: DataBlockV) -> Seq<Seq<u64>> {
    Seq::new(b.rows, |r: int| spec_args_row(p, b, r))
}

/// The rows of a block as the grouped aggregator sees them: group key plus
/// argument values.
pub open spec fn spec_block_rows(
    method: HashMethodKind,
    p: AggregatorParams,
    b: DataBlockV,
) -> Seq<crate::aggregate::SRow> {
    Seq::new(
        b.rows,
        |r: int| crate::aggregate::SRow {
            key: spec_row_key(method, b.columns, p.group_indices@, r),
            args: spec_args_row(p, b, r),
        },
    )
}

/// Checks schema and argument-column types before a block is consumed.
pub fn check_block(p: &AggregatorParams, block: &DataBlock) -> (r: bool)
    requires
        p.wf(),
    ensures
        r == (block_match(*p, block@) && args_ok(*p, block@)),
{
    block.recall_wf();
    if !crate::block::schema_eq(block.fields(), &p.schema) {
        return false;
    }
    let mut i: usize = 0;
    while i < p.aggregate_functions.len()
        invariant
            i <= p.aggregate_functions@.len(),
            p.wf(),
            block@.wf(),
            block_match(*p, block@),
            p.funcs().len() == p.aggregate_functions@.len(),
            forall|t: int|
                0 <= t < i ==> p.funcs()[t] is Count || ((#[trigger] p.arg_indices@[t])
                    < block@.columns.len() && block@.columns[p.arg_indices@[
                t] as int].ctype().spec_fixed_width() is Some),
        decreases p.aggregate_functions@.len() - i,
    {
        proof {
            assert(descs_view(p.aggregate_functions@)[i as int] == p.aggregate_functions@[
            i as int]@);
        }
        match p.aggregate_functions[i].func {
            AggregateFunction::Count => {},
            _ => {
                let ix = p.arg_indices[i];
                if ix >= block.num_columns() {
                    return false;
                }
                if block.column(ix).ctype().fixed_width().is_none() {
                    return false;
                }
            },
        }
        i += 1;
    }
    true
}

/// Reads the argument value of function `i` from row `r`.
pub fn read_arg(p: &AggregatorParams, block: &DataBlock, i: usize, r: usize) -> (v: u64)
    requires
        p.wf(),
        args_ok(*p, block@),
        i < p.aggregate_functions@.len(),
        r < block@.rows,
    ensures
        v == spec_arg_at(*p, block@, i as int, r as int),
{
    block.recall_wf();
    proof {
        assert(descs_view(p.aggregate_functions@)[i as int] == p.aggregate_functions@[i as int]@);
    }
    match p.aggregate_functions[i].func {
        AggregateFunction::Count => 0,
        _ => {
            let ix = p.arg_indices[i];
            match block.column(ix).value_u64(r) {
                Some(v) => v,
                None => {
                    proof {
                        assert(block@.columns[ix as int].ctype().spec_fixed_width() is Some);
                        assert(false);
                    }
                    0
                },
            }
        },
    }
}

} // verus!
