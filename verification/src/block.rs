use vstd::prelude::*;
use vstd::string::StringExecFns;

use crate::error::ErrorCode;

verus! {

/// The type of one column of a batch.
#[derive(Clone, Copy, Debug, PartialEq, Eq, Structural)]
pub enum ColumnType {
    UInt8,
    UInt16,
    UInt32,
    UInt64,
    Int64,
    Binary,
    NullableUInt32,
}

impl ColumnType {
    /// Width in bytes of a fixed-size unsigned column, the widths from which a
    /// fixed-width group key is packed. `None` for types that cannot feed a
    /// fixed-width key.
    pub open spec fn spec_fixed_width(self) -> Option<u64> {
        match self {
            ColumnType::UInt8 => Some(1u64),
            ColumnType::UInt16 => Some(2u64),
            ColumnType::UInt32 => Some(4u64),
            ColumnType::UInt64 => Some(8u64),
            _ => None,
        }
    }

    pub fn fixed_width(&self) -> (r: Option<u64>)
        ensures
            r == self.spec_fixed_width(),
    {
        match self {
            ColumnType::UInt8 => Some(1u64),
            ColumnType::UInt16 => Some(2u64),
            ColumnType::UInt32 => Some(4u64),
            ColumnType::UInt64 => Some(8u64),
            _ => None,
        }
    }
}

/// One named, typed slot of a schema.
#[derive(Clone, Debug)]
pub struct DataField {
    pub name: String,
    pub data_type: ColumnType,
}

pub struct DataFieldV {
    pub name: Seq<char>,
    pub data_type: ColumnType,
}

impl View for DataField {
    type V = DataFieldV;

    open spec fn view(&self) -> DataFieldV {
        DataFieldV { name: self.name@, data_type: self.data_type }
    }
}

impl DataField {
    pub fn new(name: String, data_type: ColumnType) -> (r: DataField)
        ensures
            r@.name == name@,
            r@.data_type == data_type,
    {
        DataField { name, data_type }
    }
}

pub open spec fn fields_view(fields: Seq<DataField>) -> Seq<DataFieldV> {
    fields.map_values(|f: DataField| f@)
}

/// Whether two schemas agree on names and types.
pub open spec fn spec_schema_eq(a: Seq<DataFieldV>, b: Seq<DataFieldV>) -> bool {
    a.len() == b.len() && forall|i: int|
        0 <= i < a.len() ==> a[i].name == b[i].name && a[i].data_type == b[i].data_type
}

pub fn schema_eq(a: &Vec<DataField>, b: &Vec<DataField>) -> (r: bool)
    ensures
        r == spec_schema_eq(fields_view(a@), fields_view(b@)),
{
    if a.len() != b.len() {
        return false;
    }
    let mut i: usize = 0;
    while i < a.len()
        invariant
            i <= a.len(),
            a.len() == b.len(),
            forall|j: int|
                0 <= j < i ==> fields_view(a@)[j].name == fields_view(b@)[j].name
                    && fields_view(a@)[j].data_type == fields_view(b@)[j].data_type,
        decreases a.len() - i,
    {
        proof {
            assert(fields_view(a@)[i as int] == a@[i as int]@);
            assert(fields_view(b@)[i as int] == b@[i as int]@);
        }
        if !(a[i].name == b[i].name) || !(a[i].data_type == b[i].data_type) {
            return false;
        }
        i += 1;
    }
    true
}

/// One column of a batch: a typed vector of plain values.
#[derive(Clone, Debug)]
pub enum Column {
    UInt8(Vec<u8>),
    UInt16(Vec<u16>),
    UInt32(Vec<u32>),
    UInt64(Vec<u64>),
    Int64(Vec<i64>),
    Binary(Vec<Vec<u8>>),
    NullableUInt32(Vec<Option<u32>>),
}

pub enum ColumnV {
    UInt8(Seq<u8>),
    UInt16(Seq<u16>),
    UInt32(Seq<u32>),
    UInt64(Seq<u64>),
    Int64(Seq<i64>),
    Binary(Seq<Seq<u8>>),
    NullableUInt32(Seq<Option<u32>>),
}

impl View for Column {
    type V = ColumnV;

    open spec fn view(&self) -> ColumnV {
        match self {
            Column::UInt8(v) => ColumnV::UInt8(v@),
            Column::UInt16(v) => ColumnV::UInt16(v@),
            Column::UInt32(v) => ColumnV::UInt32(v@),
            Column::UInt64(v) => ColumnV::UInt64(v@),
            Column::Int64(v) => ColumnV::Int64(v@),
            Column::Binary(v) => ColumnV::Binary(v@.map_values(|b: Vec<u8>| b@)),
            Column::NullableUInt32(v) => ColumnV::NullableUInt32(v@),
        }
    }
}

impl ColumnV {
    pub open spec fn len(self) -> nat {
        match self {
            ColumnV::UInt8(s) => s.len(),
            ColumnV::UInt16(s) => s.len(),
            ColumnV::UInt32(s) => s.len(),
            ColumnV::UInt64(s) => s.len(),
            ColumnV::Int64(s) => s.len(),
            ColumnV::Binary(s) => s.len(),
            ColumnV::NullableUInt32(s) => s.len(),
        }
    }

    pub open spec fn ctype(self) -> ColumnType {
        match self {
            ColumnV::UInt8(_) => ColumnType::UInt8,
            ColumnV::UInt16(_) => ColumnType::UInt16,
            ColumnV::UInt32(_) => ColumnType::UInt32,
            ColumnV::UInt64(_) => ColumnType::UInt64,
            ColumnV::Int64(_) => ColumnType::Int64,
            ColumnV::Binary(_) => ColumnType::Binary,
            ColumnV::NullableUInt32(_) => ColumnType::NullableUInt32,
        }
    }

    /// The value at row `i`, widened to `u64`, for fixed-size unsigned columns.
    pub open spec fn uint_at(self, i: int) -> Option<u64> {
        match self {
            ColumnV::UInt8(s) => Some(s[i] as u64),
            ColumnV::UInt16(s) => Some(s[i] as u64),
            ColumnV::UInt32(s) => Some(s[i] as u64),
            ColumnV::UInt64(s) => Some(s[i]),
            _ => None,
        }
    }
}

impl Column {
    pub fn len(&self) -> (r: usize)
        ensures
            r == self@.len(),
    {
        match self {
            Column::UInt8(v) => v.len(),
            Column::UInt16(v) => v.len(),
            Column::UInt32(v) => v.len(),
            Column::UInt64(v) => v.len(),
            Column::Int64(v) => v.len(),
            Column::Binary(v) => v.len(),
            Column::NullableUInt32(v) => v.len(),
        }
    }

    pub fn ctype(&self) -> (r: ColumnType)
        ensures
            r == self@.ctype(),
    {
        match self {
            Column::UInt8(_) => ColumnType::UInt8,
            Column::UInt16(_) => ColumnType::UInt16,
            Column::UInt32(_) => ColumnType::UInt32,
            Column::UInt64(_) => ColumnType::UInt64,
            Column::Int64(_) => ColumnType::Int64,
            Column::Binary(_) => ColumnType::Binary,
            Column::NullableUInt32(_) => ColumnType::NullableUInt32,
        }
    }

    /// The value at row `i` widened to `u64`, or `None` for a column whose
    /// type has no such widening.
    pub fn value_u64(&self, i: usize) -> (r: Option<u64>)
        requires
            i < self@.len(),
        ensures
            r == self@.uint_at(i as int),
    {
        match self {
            Column::UInt8(v) => Some(v[i] as u64),
            Column::UInt16(v) => Some(v[i] as u64),
            Column::UInt32(v) => Some(v[i] as u64),
            Column::UInt64(v) => Some(v[i]),
            _ => None,
        }
    }
}

pub struct DataBlockV {
    pub fields: Seq<DataFieldV>,
    pub columns: Seq<ColumnV>,
    pub rows: nat,
}

impl DataBlockV {
    /// Shape of a well-formed batch: one column per field, every column as
    /// long as the batch and of its field's declared type.
    pub open spec fn wf(self) -> bool {
        &&& self.fields.len() == self.columns.len()
        &&& forall|i: int|
            0 <= i < self.columns.len() ==> (#[trigger] self.columns[i]).len() == self.rows
        &&& forall|i: int|
            0 <= i < self.columns.len() ==> (#[trigger] self.columns[i]).ctype()
                == self.fields[i].data_type
    }
}

/// An immutable columnar batch with a fixed schema. Batches are created by
/// sources or transforms, transferred whole across ports, and never mutated.
pub struct DataBlock {
    fields: Vec<DataField>,
    columns: Vec<Column>,
    rows: usize,
}

impl View for DataBlock {
    type V = DataBlockV;

    closed spec fn view(&self) -> DataBlockV {
        DataBlockV {
            fields: fields_view(self.fields@),
            columns: self.columns@.map_values(|c: Column| c@),
            rows: self.rows as nat,
        }
    }
}

impl DataBlock {
    #[verifier::type_invariant]
    pub open spec fn inv(self) -> bool {
        self@.wf()
    }

    /// Builds a batch after checking that the columns fit the schema; this is
    /// the only constructor, so every batch in flight is well formed.
    pub fn create(fields: Vec<DataField>, columns: Vec<Column>, rows: usize) -> (r: Result<
        DataBlock,
        ErrorCode,
    >)
        ensures
            r matches Ok(b) ==> b@ == (DataBlockV {
                fields: fields_view(fields@),
                columns: columns@.map_values(|c: Column| c@),
                rows: rows as nat,
            }) && b@.wf(),
            r is Ok <==> (DataBlockV {
                fields: fields_view(fields@),
                columns: columns@.map_values(|c: Column| c@),
                rows: rows as nat,
            }).wf(),
    {
        let ghost v = DataBlockV {
            fields: fields_view(fields@),
            columns: columns@.map_values(|c: Column| c@),
            rows: rows as nat,
        };
        proof {
            assert(v.fields.len() == fields@.len());
            assert(v.columns.len() == columns@.len());
        }
        if fields.len() != columns.len() {
            return Err(ErrorCode::LogicalError(String::from_str(
                "block schema and column count differ",
            )));
        }
        let mut i: usize = 0;
        while i < columns.len()
            invariant
                i <= columns.len(),
                fields.len() == columns.len(),
                v == (DataBlockV {
                    fields: fields_view(fields@),
                    columns: columns@.map_values(|c: Column| c@),
                    rows: rows as nat,
                }),
                forall|j: int| 0 <= j < i ==> (#[trigger] v.columns[j]).len() == v.rows,
                forall|j: int|
                    0 <= j < i ==> (#[trigger] v.columns[j]).ctype() == v.fields[j].data_type,
            decreases columns.len() - i,
        {
            proof {
                assert(v.columns[i as int] == columns@[i as int]@);
                assert(v.fields[i as int] == fields@[i as int]@);
            }
            if columns[i].len() != rows {
                return Err(ErrorCode::LogicalError(String::from_str(
                    "block column length differs from row count",
                )));
            }
            if columns[i].ctype() != fields[i].data_type {
                return Err(ErrorCode::LogicalError(String::from_str(
                    "block column type differs from its field",
                )));
            }
            i += 1;
        }
        Ok(DataBlock { fields, columns, rows })
    }

    pub fn num_rows(&self) -> (r: usize)
        ensures
            r == self@.rows,
    {
        self.rows
    }

    pub fn num_columns(&self) -> (r: usize)
        ensures
            r == self@.columns.len(),
    {
        self.columns.len()
    }

    pub fn fields(&self) -> (r: &Vec<DataField>)
        ensures
            fields_view(r@) == self@.fields,
    {
        &self.fields
    }

    pub fn column(&self, i: usize) -> (r: &Column)
        requires
            i < self@.columns.len(),
        ensures
            r@ == self@.columns[i as int],
    {
        &self.columns[i]
    }

    /// The well-formedness that `create` established, recovered for callers.
    pub fn recall_wf(&self)
        ensures
            self@.wf(),
    {
        proof {
            use_type_invariant(self);
        }
    }
}

} // verus!
