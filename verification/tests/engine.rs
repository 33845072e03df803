use csvql::ast::BinOp;
use csvql::ast::EngineError;
use csvql::ast::Expr;
use csvql::ast::SelectItem;
use csvql::ast::SelectQuery;
use csvql::ast::StatementAst;
use csvql::ast::TableRef;
use csvql::eval::eval_expr_on_row;
use csvql::eval::find_col;
use csvql::planner::dot_join;
use csvql::planner::plan_statement;
use csvql::planner::query_as_relation;
use csvql::relation::Rel;
use csvql::relation::SequentialScan;
use csvql::relation::infer_row;
use csvql::runner::execute;
use csvql::runner::render_row;
use csvql::runner::run_plan;
use csvql::value::Value;
use csvql::value::eval_value_as_bool;
use csvql::value::infer;
use csvql::value::parse_i64;
use csvql::value::render_value;

fn s(x: &str) -> String {
    x.to_string()
}

fn scan(header: &[&str], records: &[&[&str]]) -> SequentialScan {
    SequentialScan {
        header: header.iter().map(|h| s(h)).collect(),
        records: records
            .iter()
            .map(|r| r.iter().map(|c| s(c)).collect())
            .collect(),
        cursor: 0,
    }
}

fn drain(mut rel: Rel) -> Result<Vec<Vec<Value>>, EngineError> {
    let mut rows = Vec::new();
    loop {
        let (r2, res) = rel.next();
        rel = r2;
        match res {
            Ok(Some(row)) => rows.push(row),
            Ok(None) => return Ok(rows),
            Err(e) => return Err(e),
        }
    }
}

fn gt(column: &str, number: &str) -> Expr {
    Expr::BinaryOp {
        op: BinOp::Gt,
        left: Box::new(Expr::Identifier(s(column))),
        right: Box::new(Expr::NumberLiteral(s(number))),
    }
}

fn people_statement() -> StatementAst {
    StatementAst::Select(SelectQuery {
        from: vec![TableRef {
            name_parts: vec![s("people")],
            join_count: 0,
            is_plain_table: true,
        }],
        projection: vec![SelectItem::Column { name: s("name"), alias: None }],
        selection: Some(gt("age", "18")),
    })
}

#[test]
fn infer_follows_fixed_order() {
    assert_eq!(infer(s("true")), Value::Boolean(true));
    assert_eq!(infer(s("false")), Value::Boolean(false));
    assert_eq!(infer(s("TRUE")), Value::Text(s("TRUE")));
    assert_eq!(infer(s("007")), Value::Integer(7));
    assert_eq!(infer(s("-12")), Value::Integer(-12));
    assert_eq!(infer(s("")), Value::Text(s("")));
    assert_eq!(infer(s("1.5")), Value::Text(s("1.5")));
    assert_eq!(infer(s("hello")), Value::Text(s("hello")));
}

#[test]
fn parse_i64_exact_bounds() {
    assert_eq!(parse_i64("9223372036854775807"), Some(i64::MAX));
    assert_eq!(parse_i64("9223372036854775808"), None);
    assert_eq!(parse_i64("-9223372036854775808"), Some(i64::MIN));
    assert_eq!(parse_i64("-9223372036854775809"), None);
    assert_eq!(parse_i64("+5"), Some(5));
    assert_eq!(parse_i64("0"), Some(0));
    assert_eq!(parse_i64(""), None);
    assert_eq!(parse_i64("+"), None);
    assert_eq!(parse_i64("-"), None);
    assert_eq!(parse_i64(" 1"), None);
    assert_eq!(parse_i64("--1"), None);
    assert_eq!(parse_i64("12x"), None);
}

#[test]
fn truthiness_coercion() {
    assert!(eval_value_as_bool(Value::Boolean(true)));
    assert!(!eval_value_as_bool(Value::Boolean(false)));
    assert!(eval_value_as_bool(Value::Integer(-3)));
    assert!(!eval_value_as_bool(Value::Integer(0)));
    assert!(eval_value_as_bool(Value::Text(s("x"))));
    assert!(!eval_value_as_bool(Value::Text(s(""))));
}

#[test]
fn render_values_for_output() {
    assert_eq!(render_value(&Value::Text(s("hi"))), s("hi"));
    assert_eq!(render_value(&Value::Boolean(true)), s("true"));
    assert_eq!(render_value(&Value::Boolean(false)), s("false"));
    assert_eq!(render_value(&Value::Integer(0)), s("0"));
    assert_eq!(render_value(&Value::Integer(-42)), s("-42"));
    assert_eq!(render_value(&Value::Integer(i64::MIN)), s("-9223372036854775808"));
    let rec = render_row(&vec![Value::Integer(10), Value::Text(s("a"))]);
    assert_eq!(rec, vec![s("10"), s("a")]);
}

#[test]
fn scan_produces_typed_rows() {
    let rel = Rel::Scan(scan(&["a", "b"], &[&["1", "true"]]));
    let (rel, first) = rel.next();
    assert_eq!(first, Ok(Some(vec![Value::Integer(1), Value::Boolean(true)])));
    let (_, second) = rel.next();
    assert_eq!(second, Ok(None));
}

#[test]
fn scan_attributes_are_header_names() {
    let rel = Rel::Scan(scan(&["a", "b"], &[]));
    assert_eq!(rel.attributes(), Ok(vec![s("a"), s("b")]));
}

#[test]
fn infer_row_infers_each_cell() {
    let row = infer_row(&vec![s("007"), s("TRUE"), s("x")]);
    assert_eq!(row, vec![Value::Integer(7), Value::Text(s("TRUE")), Value::Text(s("x"))]);
}

#[test]
fn selection_keeps_rows_greater_than_thirty() {
    let rel = Rel::Selection {
        selection: gt("age", "30"),
        relation: Box::new(Rel::Scan(scan(&["age"], &[&["25"], &["31"], &["30"]]))),
    };
    assert_eq!(drain(rel), Ok(vec![vec![Value::Integer(31)]]));
}

#[test]
fn selection_truthiness_on_strings() {
    let rel = Rel::Selection {
        selection: Expr::Identifier(s("t")),
        relation: Box::new(Rel::Scan(scan(&["t"], &[&[""], &["x"]]))),
    };
    assert_eq!(drain(rel), Ok(vec![vec![Value::Text(s("x"))]]));
}

#[test]
fn projection_wildcard_is_identity() {
    let rel = Rel::Projection {
        projected: vec![SelectItem::Wildcard],
        relation: Box::new(Rel::Scan(scan(&["x", "y"], &[&["1", "2"]]))),
    };
    assert_eq!(rel.attributes(), Ok(vec![s("x"), s("y")]));
    assert_eq!(drain(rel), Ok(vec![vec![Value::Integer(1), Value::Integer(2)]]));
}

#[test]
fn projection_rename_keeps_values() {
    let rel = Rel::Projection {
        projected: vec![SelectItem::Column { name: s("x"), alias: Some(s("y")) }],
        relation: Box::new(Rel::Scan(scan(&["x"], &[&["7"]]))),
    };
    assert_eq!(rel.attributes(), Ok(vec![s("y")]));
    assert_eq!(drain(rel), Ok(vec![vec![Value::Integer(7)]]));
}

#[test]
fn projection_unresolved_source_is_fatal() {
    let rel = Rel::Projection {
        projected: vec![SelectItem::Column { name: s("nope"), alias: None }],
        relation: Box::new(Rel::Scan(scan(&["x"], &[&["7"]]))),
    };
    assert_eq!(drain(rel), Err(EngineError::UnresolvedColumn));
}

#[test]
fn projection_unsupported_item_is_fatal() {
    let rel = Rel::Projection {
        projected: vec![SelectItem::Unsupported],
        relation: Box::new(Rel::Scan(scan(&["x"], &[&["7"]]))),
    };
    assert_eq!(rel.attributes(), Err(EngineError::UnsupportedConstruct));
    assert_eq!(drain(rel), Err(EngineError::UnsupportedConstruct));
}

#[test]
fn evaluator_resolves_columns_by_position() {
    let attrs = vec![s("a"), s("b")];
    let row = vec![Value::Integer(1), Value::Integer(2)];
    assert_eq!(eval_expr_on_row(&Expr::Identifier(s("b")), &attrs, &row), Ok(Value::Integer(2)));
    assert_eq!(
        eval_expr_on_row(&Expr::Identifier(s("c")), &attrs, &row),
        Err(EngineError::UnresolvedColumn)
    );
    assert_eq!(find_col(&attrs, "a"), Some(0));
    assert_eq!(find_col(&attrs, "c"), None);
}

#[test]
fn evaluator_never_short_circuits() {
    let attrs: Vec<String> = Vec::new();
    let row: Vec<Value> = Vec::new();
    let and_bad = Expr::BinaryOp {
        op: BinOp::And,
        left: Box::new(Expr::BoolLiteral(false)),
        right: Box::new(Expr::NumberLiteral(s("bad"))),
    };
    assert_eq!(eval_expr_on_row(&and_bad, &attrs, &row), Err(EngineError::MalformedNumber));
    let or_bad = Expr::BinaryOp {
        op: BinOp::Or,
        left: Box::new(Expr::BoolLiteral(true)),
        right: Box::new(Expr::Unsupported),
    };
    assert_eq!(eval_expr_on_row(&or_bad, &attrs, &row), Err(EngineError::UnsupportedConstruct));
}

#[test]
fn greater_than_demands_integers() {
    let attrs = vec![s("t")];
    let row = vec![Value::Text(s("x"))];
    let e = Expr::BinaryOp {
        op: BinOp::Gt,
        left: Box::new(Expr::Identifier(s("t"))),
        right: Box::new(Expr::NumberLiteral(s("1"))),
    };
    assert_eq!(eval_expr_on_row(&e, &attrs, &row), Err(EngineError::NotAnInteger));
    let both = Expr::BinaryOp {
        op: BinOp::Gt,
        left: Box::new(Expr::NumberLiteral(s("2"))),
        right: Box::new(Expr::NumberLiteral(s("1"))),
    };
    assert_eq!(eval_expr_on_row(&both, &attrs, &row), Ok(Value::Boolean(true)));
}

#[test]
fn unknown_operator_aborts() {
    let e = Expr::BinaryOp {
        op: BinOp::Other,
        left: Box::new(Expr::BoolLiteral(true)),
        right: Box::new(Expr::BoolLiteral(true)),
    };
    assert_eq!(
        eval_expr_on_row(&e, &Vec::new(), &Vec::new()),
        Err(EngineError::UnsupportedConstruct)
    );
}

#[test]
fn dot_join_rebuilds_dotted_names() {
    assert_eq!(dot_join(&vec![s("people")]), s("people"));
    assert_eq!(dot_join(&vec![s("data"), s("people"), s("csv")]), s("data.people.csv"));
    assert_eq!(dot_join(&Vec::new()), s(""));
}

#[test]
fn planner_builds_single_table_plan() {
    let plan = plan_statement(people_statement()).unwrap();
    assert_eq!(plan.filename, s("people"));
    assert!(plan.selection.is_some());
    assert_eq!(
        plan.projected,
        Some(vec![SelectItem::Column { name: s("name"), alias: None }])
    );
}

#[test]
fn planner_rejects_joins_and_odd_shapes() {
    let join = StatementAst::Select(SelectQuery {
        from: vec![TableRef { name_parts: vec![s("a")], join_count: 1, is_plain_table: true }],
        projection: vec![SelectItem::Wildcard],
        selection: None,
    });
    assert!(matches!(plan_statement(join), Err(EngineError::UnsupportedConstruct)));

    let no_from = StatementAst::Select(SelectQuery {
        from: Vec::new(),
        projection: vec![SelectItem::Wildcard],
        selection: None,
    });
    assert!(matches!(plan_statement(no_from), Err(EngineError::MissingFrom)));

    let two_tables = StatementAst::Select(SelectQuery {
        from: vec![
            TableRef { name_parts: vec![s("a")], join_count: 0, is_plain_table: true },
            TableRef { name_parts: vec![s("b")], join_count: 0, is_plain_table: true },
        ],
        projection: Vec::new(),
        selection: None,
    });
    assert!(matches!(plan_statement(two_tables), Err(EngineError::UnsupportedConstruct)));

    let derived = StatementAst::Select(SelectQuery {
        from: vec![TableRef { name_parts: Vec::new(), join_count: 0, is_plain_table: false }],
        projection: Vec::new(),
        selection: None,
    });
    assert!(matches!(plan_statement(derived), Err(EngineError::UnsupportedConstruct)));

    assert!(matches!(
        plan_statement(StatementAst::Unsupported),
        Err(EngineError::UnsupportedConstruct)
    ));
}

#[test]
fn end_to_end_select_name_where_age() {
    let plan = plan_statement(people_statement()).unwrap();
    assert_eq!(plan.filename, s("people"));
    let bytes = b"name,age\nAlice,30\nBob,15\n".to_vec();
    let (out, diagnostic) = run_plan(plan, &bytes).unwrap();
    assert_eq!(out, b"name\nAlice\n".to_vec());
    assert!(diagnostic.is_none());
}

#[test]
fn end_to_end_is_idempotent() {
    let bytes = b"name,age\nAlice,30\nBob,15\n".to_vec();
    let first = run_plan(plan_statement(people_statement()).unwrap(), &bytes).unwrap();
    let second = run_plan(plan_statement(people_statement()).unwrap(), &bytes).unwrap();
    assert_eq!(first.0, second.0);
}

#[test]
fn empty_select_list_passes_everything_through() {
    let stmt = StatementAst::Select(SelectQuery {
        from: vec![TableRef { name_parts: vec![s("t")], join_count: 0, is_plain_table: true }],
        projection: Vec::new(),
        selection: None,
    });
    let plan = plan_statement(stmt).unwrap();
    assert_eq!(plan.projected, None);
    let bytes = b"a,b\n1,x\n".to_vec();
    let (out, _) = run_plan(plan, &bytes).unwrap();
    assert_eq!(out, b"a,b\n1,x\n".to_vec());
}

#[test]
fn execute_reports_header_and_rows() {
    let rel = query_as_relation(
        plan_statement(people_statement()).unwrap(),
        scan(&["name", "age"], &[&["Alice", "30"], &["Bob", "15"]]),
    );
    assert_eq!(execute(rel), Ok(b"name\nAlice\n".to_vec()));
}

#[test]
fn unreadable_header_is_fatal() {
    let bytes = vec![0xff, 0xfe, b'\n', b'x'];
    let plan = plan_statement(people_statement()).unwrap();
    assert!(matches!(run_plan(plan, &bytes), Err(EngineError::BadSource)));
}

#[test]
fn malformed_record_truncates_the_scan() {
    let stmt = StatementAst::Select(SelectQuery {
        from: vec![TableRef { name_parts: vec![s("t")], join_count: 0, is_plain_table: true }],
        projection: Vec::new(),
        selection: None,
    });
    let plan = plan_statement(stmt).unwrap();
    let bytes = b"a,b\n1\n2,3\n".to_vec();
    let (out, diagnostic) = run_plan(plan, &bytes).unwrap();
    assert_eq!(out, b"a,b\n".to_vec());
    assert!(diagnostic.is_some());
}

#[test]
fn selection_error_aborts_the_run() {
    let stmt = StatementAst::Select(SelectQuery {
        from: vec![TableRef { name_parts: vec![s("t")], join_count: 0, is_plain_table: true }],
        projection: Vec::new(),
        selection: Some(gt("missing", "1")),
    });
    let plan = plan_statement(stmt).unwrap();
    let bytes = b"a\n1\n".to_vec();
    assert!(matches!(run_plan(plan, &bytes), Err(EngineError::UnresolvedColumn)));
}

#[test]
fn error_descriptions_are_stable() {
    assert_eq!(EngineError::MissingFrom.describe(), s("FROM must be provided"));
    assert_eq!(EngineError::UnsupportedConstruct.describe(), s("unsupported construct"));
}

#[test]
fn dotted_table_reference_becomes_file_path() {
    let stmt = StatementAst::Select(SelectQuery {
        from: vec![TableRef {
            name_parts: vec![s("data"), s("people"), s("csv")],
            join_count: 0,
            is_plain_table: true,
        }],
        projection: Vec::new(),
        selection: None,
    });
    let plan = plan_statement(stmt).unwrap();
    assert_eq!(plan.filename, s("data.people.csv"));
}
