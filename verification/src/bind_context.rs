use vstd::prelude::*;
use vstd::string::StringExecFns;

use crate::block::ColumnType;
use crate::error::ErrorCode;

verus! {

/// Column position in a binding context.
pub type IndexType = usize;

/// A table alias with optional column renames, as `t AS t1(a, b)` carries.
pub struct TableAlias {
    pub name: String,
    pub columns: Vec<String>,
}

/// One resolved column of the current scope: where it came from, what it is
/// called here, where it sits in the result, and its type.
pub struct ColumnBinding {
    pub table_name: Option<String>,
    pub column_name: String,
    pub index: IndexType,
    pub data_type: ColumnType,
}

pub struct ColumnBindingV {
    pub table_name: Option<Seq<char>>,
    pub column_name: Seq<char>,
    pub index: IndexType,
    pub data_type: ColumnType,
}

impl View for ColumnBinding {
    type V = ColumnBindingV;

    open spec fn view(&self) -> ColumnBindingV {
        ColumnBindingV {
            table_name: match self.table_name {
                Some(t) => Some(t@),
                None => None,
            },
            column_name: self.column_name@,
            index: self.index,
            data_type: self.data_type,
        }
    }
}

pub fn clone_binding(c: &ColumnBinding) -> (r: ColumnBinding)
    ensures
        r@ == c@,
{
    ColumnBinding {
        table_name: match &c.table_name {
            Some(t) => Some(t.clone()),
            None => None,
        },
        column_name: c.column_name.clone(),
        index: c.index,
        data_type: c.data_type,
    }
}

pub open spec fn bindings_view(s: Seq<ColumnBinding>) -> Seq<ColumnBindingV> {
    s.map_values(|c: ColumnBinding| c@)
}

/// Whether a binding answers to the given, possibly table-qualified, name.
pub open spec fn binding_matches(c: ColumnBindingV, table: Option<Seq<char>>, column: Seq<char>) -> bool {
    match table {
        Some(t) => c.table_name == Some(t) && c.column_name == column,
        None => c.column_name == column,
    }
}

/// The bindings of a scope that answer to a name.
pub open spec fn matching_bindings(
    cols: Seq<ColumnBindingV>,
    table: Option<Seq<char>>,
    column: Seq<char>,
) -> Seq<ColumnBindingV> {
    cols.filter(|c: ColumnBindingV| binding_matches(c, table, column))
}

/// The free variables of a query and the scope they are resolved in.
pub struct BindContext {
    pub parent: Option<Box<BindContext>>,
    pub columns: Vec<ColumnBinding>,
}

impl BindContext {
    pub fn new() -> (r: BindContext)
        ensures
            r.columns@.len() == 0,
            r.parent is None,
    {
        BindContext { parent: None, columns: Vec::new() }
    }

    fn new_with_parent(parent: Box<BindContext>) -> (r: BindContext)
        ensures
            r.columns@.len() == 0,
            r.parent == Some(parent),
    {
        BindContext { parent: Some(parent), columns: Vec::new() }
    }

    /// Opens a child scope with this context as its parent.
    pub fn push(self) -> (r: BindContext)
        ensures
            r.columns@.len() == 0,
            (r.parent matches Some(p) && *p == self),
    {
        BindContext::new_with_parent(Box::new(self))
    }

    /// All column bindings of the current scope, in order.
    pub fn all_column_bindings(&self) -> (r: &Vec<ColumnBinding>)
        ensures
            r@ == self.columns@,
    {
        &self.columns
    }

    pub fn add_column_binding(&mut self, column_binding: ColumnBinding)
        ensures
            final(self).columns@ == old(self).columns@.push(column_binding),
            final(self).parent == old(self).parent,
    {
        self.columns.push(column_binding);
    }

    /// Applies a table alias: bindings of the original table are renamed to
    /// the alias, and the alias's column list renames the first bindings in
    /// order. Fails exactly when the alias names more columns than the scope
    /// holds, and the application is atomic: a failed alias leaves the scope
    /// untouched, the length being checked before any rename.
    pub fn apply_table_alias(&mut self, original_name: &String, alias: &TableAlias) -> (r: Result<
        (),
        ErrorCode,
    >)
        ensures
            final(self).parent == old(self).parent,
            final(self).columns@.len() == old(self).columns@.len(),
            (r is Ok <==> alias.columns@.len() <= old(self).columns@.len()),
            r is Ok ==> forall|j: int|
                0 <= j < old(self).columns@.len() ==> {
                    let oldb = bindings_view(old(self).columns@)[j];
                    let newb = #[trigger] bindings_view(final(self).columns@)[j];
                    &&& newb.table_name == (if oldb.table_name == Some(original_name@) {
                        Some(alias.name@)
                    } else {
                        oldb.table_name
                    })
                    &&& newb.column_name == (if j < alias.columns@.len() {
                        alias.columns@[j]@
                    } else {
                        oldb.column_name
                    })
                    &&& newb.index == oldb.index
                    &&& newb.data_type == oldb.data_type
                },
            r is Err ==> final(self).columns@ == old(self).columns@,
    {
        if alias.columns.len() > self.columns.len() {
            return Err(ErrorCode::SemanticError(String::from_str(
                "the alias names more columns than the table has",
            )));
        }
        let n = self.columns.len();
        let mut out: Vec<ColumnBinding> = Vec::new();
        let mut j: usize = 0;
        while j < n
            invariant
                j <= n,
                n == self.columns@.len(),
                self.columns@ == old(self).columns@,
                self.parent == old(self).parent,
                alias.columns@.len() <= n,
                out@.len() == j,
                forall|t: int|
                    0 <= t < j ==> {
                        let oldb = bindings_view(old(self).columns@)[t];
                        let newb = (#[trigger] out@[t])@;
                        &&& newb.table_name == (if oldb.table_name == Some(original_name@) {
                            Some(alias.name@)
                        } else {
                            oldb.table_name
                        })
                        &&& newb.column_name == (if t < alias.columns@.len() {
                            alias.columns@[t]@
                        } else {
                            oldb.column_name
                        })
                        &&& newb.index == oldb.index
                        &&& newb.data_type == oldb.data_type
                    },
            decreases n - j,
        {
            proof {
                assert(bindings_view(self.columns@)[j as int] == self.columns@[j as int]@);
            }
            let cur = &self.columns[j];
            let renamed_table: Option<String> = match &cur.table_name {
                Some(t) => {
                    if *t == *original_name {
                        Some(alias.name.clone())
                    } else {
                        Some(t.clone())
                    }
                },
                None => None,
            };
            let new_name: String = if j < alias.columns.len() {
                alias.columns[j].clone()
            } else {
                cur.column_name.clone()
            };
            out.push(
                ColumnBinding {
                    table_name: renamed_table,
                    column_name: new_name,
                    index: cur.index,
                    data_type: cur.data_type,
                },
            );
            j += 1;
        }
        self.columns = out;
        Ok(())
    }

    /// Resolves a possibly table-qualified column name. Succeeds exactly
    /// when one binding matches; no match and several matches are the two
    /// name-resolution errors.
    pub fn resolve_column(&self, table: Option<String>, column: String) -> (r: Result<
        ColumnBinding,
        ErrorCode,
    >)
        ensures
            ({
                let tv = match table {
                    Some(t) => Some(t@),
                    None => None,
                };
                &&& (r is Ok <==> matching_bindings(bindings_view(self.columns@), tv, column@).len()
                    == 1)
                &&& (r matches Ok(c) ==> matching_bindings(bindings_view(self.columns@), tv, column@)[0]
                    == c@)
                &&& (matching_bindings(bindings_view(self.columns@), tv, column@).len() == 0 ==> (
                r matches Err(e) && e is SemanticError && e.spec_message()
                    == "the column does not exist"@))
                &&& (matching_bindings(bindings_view(self.columns@), tv, column@).len() > 1 ==> (
                r matches Err(e) && e is SemanticError && e.spec_message()
                    == "the column reference is ambiguous"@))
            }),
    {
        let ghost tv: Option<Seq<char>> = match &table {
            Some(t) => Some(t@),
            None => None,
        };
        let mut result: Vec<ColumnBinding> = Vec::new();
        let n = self.columns.len();
        let mut j: usize = 0;
        while j < n
            invariant
                j <= n,
                n == self.columns@.len(),
                tv == (match table {
                    Some(t) => Some(t@),
                    None => None,
                }),
                bindings_view(result@) == matching_bindings(
                    bindings_view(self.columns@).take(j as int),
                    tv,
                    column@,
                ),
            decreases n - j,
        {
            proof {
                assert(bindings_view(self.columns@)[j as int] == self.columns@[j as int]@);
                assert(bindings_view(self.columns@).take(j + 1 as int).drop_last()
                    =~= bindings_view(self.columns@).take(j as int));
                reveal(Seq::filter);
            }
            let cur = &self.columns[j];
            let matched: bool = match (&table, &cur.table_name) {
                (Some(t), Some(ct)) => *t == *ct && cur.column_name == column,
                (Some(t), None) => false,
                (None, _) => cur.column_name == column,
            };
            proof {
                assert(matched == binding_matches(self.columns@[j as int]@, tv, column@));
            }
            if matched {
                result.push(clone_binding(cur));
                proof {
                    assert(bindings_view(result@) =~= matching_bindings(
                        bindings_view(self.columns@).take(j as int),
                        tv,
                        column@,
                    ).push(self.columns@[j as int]@));
                }
            }
            j += 1;
        }
        proof {
            assert(bindings_view(self.columns@).take(n as int) =~= bindings_view(self.columns@));
        }
        if result.len() == 0 {
            Err(ErrorCode::SemanticError(String::from_str("the column does not exist")))
        } else if result.len() > 1 {
            Err(ErrorCode::SemanticError(String::from_str("the column reference is ambiguous")))
        } else {
            let c = result.remove(0);
            proof {
                assert(bindings_view(result@).len() == 0);
            }
            Ok(c)
        }
    }

    /// The result columns of the scope, in order: each binding's position
    /// and visible name.
    pub fn result_columns(&self) -> (r: Vec<(IndexType, String)>)
        ensures
            r@.len() == self.columns@.len(),
            forall|j: int|
                0 <= j < r@.len() ==> (#[trigger] r@[j]).0 == self.columns@[j]@.index && r@[j].1@
                    == self.columns@[j]@.column_name,
    {
        let mut out: Vec<(IndexType, String)> = Vec::new();
        let n = self.columns.len();
        let mut j: usize = 0;
        while j < n
            invariant
                j <= n,
                n == self.columns@.len(),
                out@.len() == j,
                forall|t: int|
                    0 <= t < j ==> (#[trigger] out@[t]).0 == self.columns@[t]@.index && out@[t].1@
                        == self.columns@[t]@.column_name,
            decreases n - j,
        {
            let cur = &self.columns[j];
            out.push((cur.index, cur.column_name.clone()));
            j += 1;
        }
        out
    }
}

} // verus!
