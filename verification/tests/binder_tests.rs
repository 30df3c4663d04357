use query_core::bind_context::{BindContext, ColumnBinding, TableAlias};
use query_core::block::ColumnType;
use query_core::error::ErrorCode;

fn binding(table: Option<&str>, column: &str, index: usize) -> ColumnBinding {
    ColumnBinding {
        table_name: table.map(String::from),
        column_name: String::from(column),
        index,
        data_type: ColumnType::UInt64,
    }
}

#[test]
fn resolve_finds_the_one_match() {
    let mut ctx = BindContext::new();
    ctx.add_column_binding(binding(Some("t"), "a", 0));
    ctx.add_column_binding(binding(Some("t"), "b", 1));
    let c = ctx.resolve_column(None, String::from("b")).unwrap();
    assert_eq!(c.column_name, "b");
    assert_eq!(c.index, 1);
    let q = ctx.resolve_column(Some(String::from("t")), String::from("a")).unwrap();
    assert_eq!(q.index, 0);
}

#[test]
fn resolve_rejects_missing_and_ambiguous_names() {
    let mut ctx = BindContext::new();
    ctx.add_column_binding(binding(Some("t1"), "a", 0));
    ctx.add_column_binding(binding(Some("t2"), "a", 1));
    match ctx.resolve_column(None, String::from("missing")) {
        Err(ErrorCode::SemanticError(_)) => {},
        _ => panic!("a missing column must be a semantic error"),
    }
    match ctx.resolve_column(None, String::from("a")) {
        Err(ErrorCode::SemanticError(_)) => {},
        _ => panic!("an ambiguous column must be a semantic error"),
    }
    assert_eq!(ctx.resolve_column(Some(String::from("t2")), String::from("a")).unwrap().index, 1);
}

#[test]
fn alias_renames_table_and_columns() {
    let mut ctx = BindContext::new();
    ctx.add_column_binding(binding(Some("t"), "a", 0));
    ctx.add_column_binding(binding(Some("t"), "b", 1));
    ctx.add_column_binding(binding(Some("u"), "c", 2));
    let alias = TableAlias {
        name: String::from("t1"),
        columns: vec![String::from("x"), String::from("y")],
    };
    ctx.apply_table_alias(&String::from("t"), &alias).unwrap();
    let cols = ctx.all_column_bindings();
    assert_eq!(cols[0].table_name.as_deref(), Some("t1"));
    assert_eq!(cols[0].column_name, "x");
    assert_eq!(cols[1].table_name.as_deref(), Some("t1"));
    assert_eq!(cols[1].column_name, "y");
    assert_eq!(cols[2].table_name.as_deref(), Some("u"));
    assert_eq!(cols[2].column_name, "c");
}

#[test]
fn alias_with_too_many_columns_is_rejected() {
    let mut ctx = BindContext::new();
    ctx.add_column_binding(binding(Some("t"), "a", 0));
    let alias = TableAlias {
        name: String::from("t1"),
        columns: vec![String::from("x"), String::from("y")],
    };
    match ctx.apply_table_alias(&String::from("t"), &alias) {
        Err(ErrorCode::SemanticError(_)) => {},
        _ => panic!("an oversized alias must be a semantic error"),
    }
    assert_eq!(ctx.all_column_bindings()[0].column_name, "a");
}

#[test]
fn result_columns_follow_binding_order() {
    let mut ctx = BindContext::new();
    ctx.add_column_binding(binding(None, "b", 4));
    ctx.add_column_binding(binding(None, "b", 2));
    let cols = ctx.result_columns();
    assert_eq!(cols.len(), 2);
    assert_eq!(cols[0], (4, String::from("b")));
    assert_eq!(cols[1], (2, String::from("b")));
}

#[test]
fn push_opens_a_child_scope() {
    let mut ctx = BindContext::new();
    ctx.add_column_binding(binding(None, "a", 0));
    let child = ctx.push();
    assert_eq!(child.all_column_bindings().len(), 0);
    assert!(child.parent.is_some());
}
