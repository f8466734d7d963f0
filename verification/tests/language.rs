use arkeion::catalog::{ColType, ColumnDef, TableDef};
use arkeion::error::Error;
use arkeion::exec::aggregate::compute_aggregate;
use arkeion::exec::eval::eval;
use arkeion::exec::ops::{Env, Place};
use arkeion::exec::pattern::like_match;
use arkeion::exec::schema::QuerySchema;
use arkeion::reals::{Binary, RealAnswer, RealOp, RealTable, Unary};
use arkeion::record::Value;
use arkeion::sql::ast::{
    AggFunc, AsOfClause, BinOp, Expr, InsertSource, JoinKind, OrderBy, SelectItem, Stmt, TableRef,
};
use arkeion::sql::json::{self, Json};
use arkeion::sql::lexer::{lex, Kw, Tok};
use arkeion::sql::parser;

/// Computes what the library asks for on reals.
fn answer(op: &RealOp) -> RealAnswer {
    let f = f64::from_bits;
    let bits = |x: f64| RealAnswer::Bits(x.to_bits());
    match op {
        RealOp::FromInt(n) => bits(*n as f64),
        RealOp::ToInt(b) => RealAnswer::Int(f(*b) as i64),
        RealOp::Unary(u, b) => {
            let x = f(*b);
            bits(match u {
                Unary::Floor => x.floor(),
                Unary::Ceil => x.ceil(),
                Unary::Trunc => x.trunc(),
                Unary::Sqrt => x.sqrt(),
                Unary::Exp => x.exp(),
                Unary::Ln => x.ln(),
                Unary::Log10 => x.log10(),
                Unary::Log2 => x.log2(),
                Unary::Sin => x.sin(),
                Unary::Cos => x.cos(),
                Unary::Tan => x.tan(),
                Unary::Asin => x.asin(),
                Unary::Acos => x.acos(),
                Unary::Atan => x.atan(),
                Unary::Radians => x.to_radians(),
                Unary::Degrees => x.to_degrees(),
            })
        }
        RealOp::Binary(g, a, b) => {
            let (x, y) = (f(*a), f(*b));
            bits(match g {
                Binary::Add => x + y,
                Binary::Sub => x - y,
                Binary::Mul => x * y,
                Binary::Div => x / y,
                Binary::Rem => x % y,
                Binary::Pow => x.powf(y),
                Binary::Log => y.log(x),
                Binary::Atan2 => x.atan2(y),
            })
        }
        RealOp::Round(b, d) => {
            let p = 10f64.powi(*d as i32);
            bits((f(*b) * p).round() / p)
        }
        RealOp::JulianDay(ms) => bits(*ms as f64 / 86_400_000.0 + 2_440_587.5),
        RealOp::Parse(s) => match s.parse::<f64>() {
            Ok(x) => bits(x),
            Err(_) => RealAnswer::Invalid,
        },
        RealOp::Show(b) => RealAnswer::Text(format!("{:?}", f(*b))),
        RealOp::Fixed(b, p) => RealAnswer::Text(format!("{:.*}", *p, f(*b))),
        other => RealAnswer::Fail(format!("{other:?}")),
    }
}

/// Runs until every outcome on reals is there.
fn settle<T>(run: impl Fn(&Env) -> Result<T, Error>) -> Result<T, Error> {
    let mut reals = RealTable::new();
    loop {
        let got = run(&Env { reals: &reals, now: 0, place: Place::Start });
        match got {
            Err(Error::NeedsReal(op)) => {
                let a = answer(&op);
                reals.record(op, a);
            }
            done => return done,
        }
    }
}

fn parse(sql: &str) -> Result<Stmt, Error> {
    settle(|env| parser::parse(sql, env.reals))
}

fn toks(sql: &str) -> Vec<Tok> {
    settle(|env| lex(sql, env.reals)).unwrap().into_iter().map(|s| s.tok).collect()
}

fn no_table() -> RealTable {
    RealTable::new()
}

#[test]
fn keywords_are_case_insensitive_idents_keep_case() {
    assert_eq!(
        toks("select Facturas"),
        vec![Tok::Kw(Kw::Select), Tok::Ident("Facturas".into())]
    );
}

#[test]
fn literals() {
    assert_eq!(
        toks("42 3.5 'ho''la' x'CAfe' TRUE NULL ?2"),
        vec![
            Tok::Int(42),
            Tok::Float(3.5f64.to_bits()),
            Tok::Str("ho'la".into()),
            Tok::Blob(vec![0xCA, 0xFE]),
            Tok::Kw(Kw::True),
            Tok::Kw(Kw::Null),
            Tok::Param(2),
        ]
    );
}

#[test]
fn quoted_and_unicode_identifiers() {
    assert_eq!(
        toks(r#"SELECT "select", "mi col", "a""b" FROM t"#),
        vec![
            Tok::Kw(Kw::Select),
            Tok::Ident("select".into()),
            Tok::Comma,
            Tok::Ident("mi col".into()),
            Tok::Comma,
            Tok::Ident("a\"b".into()),
            Tok::Kw(Kw::From),
            Tok::Ident("t".into()),
        ]
    );
    assert_eq!(
        toks("SELECT café, 名前"),
        vec![
            Tok::Kw(Kw::Select),
            Tok::Ident("café".into()),
            Tok::Comma,
            Tok::Ident("名前".into()),
        ]
    );
    assert!(matches!(lex(r#"SELECT """#, &no_table()), Err(Error::Sql { .. })));
    assert!(matches!(lex(r#"SELECT "abc"#, &no_table()), Err(Error::Sql { .. })));
}

#[test]
fn operators_and_comments() {
    assert_eq!(
        toks("a <= b -- esto se ignora\n <> c"),
        vec![
            Tok::Ident("a".into()),
            Tok::Le,
            Tok::Ident("b".into()),
            Tok::Ne,
            Tok::Ident("c".into()),
        ]
    );
}

#[test]
fn errors_carry_byte_position() {
    match lex("SELECT 'sin cerrar", &no_table()) {
        Err(Error::Sql { pos: Some(7), .. }) => {}
        other => panic!("se esperaba error en byte 7, llegó {other:?}"),
    }
    match lex("SELECT ?", &no_table()) {
        Err(Error::Sql { pos: Some(7), .. }) => {}
        other => panic!("se esperaba error en byte 7, llegó {other:?}"),
    }
    assert!(lex("SELECT 99999999999999999999", &no_table()).is_err());
}

fn column(table: Option<&str>, name: &str) -> Expr {
    Expr::Column { table: table.map(|t| t.to_owned()), name: name.into() }
}

#[test]
fn select_full_shape() {
    let stmt = parse(
        "SELECT id, total * 2 FROM facturas WHERE estado = 'x' AND total > ?1 \
         ORDER BY total DESC, id LIMIT 10 OFFSET 5;",
    )
    .unwrap();
    let Stmt::Select(s) = stmt else { panic!("se esperaba SELECT") };
    assert_eq!(s.projection.len(), 2);
    assert_eq!(
        s.from,
        Some(TableRef { name: "facturas".into(), alias: None, subquery: None })
    );
    assert!(s.joins.is_empty());
    assert!(s.where_clause.is_some());
    assert_eq!(
        s.order_by,
        vec![
            OrderBy { expr: column(None, "total"), desc: true },
            OrderBy { expr: column(None, "id"), desc: false },
        ]
    );
    assert_eq!(s.limit, Some(Expr::Literal(Value::Integer(10))));
    assert_eq!(s.offset, Some(Expr::Literal(Value::Integer(5))));
}

#[test]
fn joins_aliases_and_qualified_columns() {
    let Stmt::Select(s) = parse(
        "SELECT c.nombre, f.total FROM facturas f \
         LEFT JOIN clientes AS c ON f.cliente_id = c.id \
         ORDER BY c.id",
    )
    .unwrap() else {
        panic!()
    };
    assert_eq!(
        s.from,
        Some(TableRef { name: "facturas".into(), alias: Some("f".into()), subquery: None })
    );
    assert_eq!(s.joins.len(), 1);
    let j = &s.joins[0];
    assert_eq!(j.kind, JoinKind::Left);
    assert_eq!(
        j.table,
        TableRef { name: "clientes".into(), alias: Some("c".into()), subquery: None }
    );
    assert!(matches!(
        &s.projection[0],
        SelectItem::Expr { expr: Expr::Column { table: Some(t), name }, .. } if t == "c" && name == "nombre"
    ));
    assert_eq!(s.order_by[0].expr, column(Some("c"), "id"));
}

#[test]
fn as_of_version_and_timestamp() {
    let Stmt::Select(s) =
        parse("SELECT total FROM facturas WHERE id = 7 AS OF VERSION 1042").unwrap()
    else {
        panic!()
    };
    assert_eq!(s.as_of, Some(AsOfClause::Version(1042)));

    let Stmt::Select(s) =
        parse("SELECT * FROM facturas AS OF TIMESTAMP '1970-01-01T00:00:00.250Z'").unwrap()
    else {
        panic!()
    };
    assert_eq!(s.from.as_ref().unwrap().alias, None);
    assert_eq!(s.as_of, Some(AsOfClause::Timestamp(250)));

    let Stmt::Select(s) = parse("SELECT * FROM facturas f").unwrap() else { panic!() };
    assert_eq!(s.as_of, None);
    assert_eq!(s.from.as_ref().unwrap().alias.as_deref(), Some("f"));
}

#[test]
fn as_of_rejects_malformed() {
    assert!(parse("SELECT * FROM t AS OF 5").is_err());
    assert!(parse("SELECT * FROM t AS OF VERSION 'x'").is_err());
    let err = parse("SELECT * FROM t AS OF TIMESTAMP 'ayer'").unwrap_err();
    assert!(matches!(err, Error::Sql { pos: Some(_), .. }));
    assert!(parse("SELECT * FROM t AS OF VERSION 1 LIMIT 5").is_err());
}

#[test]
fn select_without_from() {
    let Stmt::Select(s) = parse("SELECT 1 + 1, UPPER('hi') AS g").unwrap() else { panic!() };
    assert_eq!(s.from, None);
    assert!(s.joins.is_empty());
    assert_eq!(s.projection.len(), 2);
    assert!(matches!(
        &s.projection[1],
        SelectItem::Expr { alias: Some(a), .. } if a == "g"
    ));
    let Stmt::Select(s) = parse("SELECT 1 WHERE 1 = 0").unwrap() else { panic!() };
    assert_eq!(s.from, None);
    assert!(s.where_clause.is_some());

    let Stmt::Select(s) = parse("SELECT 1 AS OF VERSION 5").unwrap() else { panic!() };
    assert_eq!(s.from, None);
    assert_eq!(s.as_of, Some(AsOfClause::Version(5)));
}

#[test]
fn update_delete_and_tx_statements() {
    let stmt = parse("UPDATE t SET a = a + 1, b = 'x' WHERE id = 7").unwrap();
    let Stmt::Update { table, sets, where_clause, .. } = stmt else { panic!() };
    assert_eq!(table, "t");
    assert_eq!(sets.len(), 2);
    assert_eq!(sets[1].0, "b");
    assert!(where_clause.is_some());

    let stmt = parse("DELETE FROM t WHERE a IS NULL").unwrap();
    assert!(matches!(stmt, Stmt::Delete { ref table, where_clause: Some(_), .. } if table == "t"));
    assert!(matches!(
        parse("DELETE FROM t").unwrap(),
        Stmt::Delete { where_clause: None, .. }
    ));

    assert_eq!(parse("BEGIN;").unwrap(), Stmt::Begin);
    assert_eq!(parse("COMMIT").unwrap(), Stmt::Commit);
    assert_eq!(parse("ROLLBACK").unwrap(), Stmt::Rollback);
}

#[test]
fn aggregates() {
    let Stmt::Select(s) = parse("SELECT COUNT(*), SUM(total), AVG(total + 1) FROM t").unwrap()
    else {
        panic!()
    };
    assert!(matches!(
        &s.projection[0],
        SelectItem::Expr { expr: Expr::Aggregate { func: AggFunc::Count, arg: None, .. }, .. }
    ));
    assert!(matches!(
        &s.projection[1],
        SelectItem::Expr { expr: Expr::Aggregate { func: AggFunc::Sum, arg: Some(_), .. }, .. }
    ));
    assert!(matches!(parse("SELECT NOPE(1) FROM t"), Ok(Stmt::Select(_))));
    assert!(parse("SELECT SUM(*) FROM t").is_err());
}

#[test]
fn precedence_or_and_cmp_arith() {
    let Stmt::Select(s) = parse("SELECT * FROM t WHERE a = 1 OR b = 2 AND c = 3").unwrap() else {
        panic!()
    };
    let Some(Expr::Binary(_, BinOp::Or, right)) = s.where_clause else {
        panic!("OR debe ser la raíz")
    };
    assert!(matches!(*right, Expr::Binary(_, BinOp::And, _)));

    let Stmt::Select(s) = parse("SELECT 1 + 2 * 3 FROM t").unwrap() else { panic!() };
    let SelectItem::Expr { expr: Expr::Binary(_, BinOp::Add, right), .. } = &s.projection[0] else {
        panic!("+ debe ser la raíz")
    };
    assert!(matches!(**right, Expr::Binary(_, BinOp::Mul, _)));
}

#[test]
fn create_table_with_constraints() {
    let stmt = parse(
        "CREATE TABLE IF NOT EXISTS t (id INTEGER PRIMARY KEY, \
         estado TEXT NOT NULL DEFAULT 'borrador', total REAL)",
    )
    .unwrap();
    let Stmt::CreateTable { if_not_exists, name, columns, foreign_keys, .. } = stmt else {
        panic!()
    };
    assert!(if_not_exists);
    assert_eq!(name, "t");
    assert!(columns[0].primary_key);
    assert!(columns[1].not_null);
    assert_eq!(columns[1].default, Some(Expr::Literal(Value::Text("borrador".into()))));
    assert_eq!(columns[2].col_type, ColType::Real);
    assert!(foreign_keys.is_empty());
}

#[test]
fn insert_multi_row_and_named_columns() {
    let stmt = parse("INSERT INTO t (a, b) VALUES (1, 'x'), (?1, NULL)").unwrap();
    let Stmt::Insert { columns, source: InsertSource::Values(rows), .. } = stmt else { panic!() };
    assert_eq!(columns, Some(vec!["a".into(), "b".into()]));
    assert_eq!(rows.len(), 2);
    assert_eq!(rows[1][0], Expr::Param(1));
}

#[test]
fn is_null_and_not_like() {
    let Stmt::Select(s) =
        parse("SELECT * FROM t WHERE a IS NOT NULL AND b NOT LIKE 'x%'").unwrap()
    else {
        panic!()
    };
    let Some(Expr::Binary(left, BinOp::And, right)) = s.where_clause else { panic!() };
    assert!(matches!(*left, Expr::IsNull { negated: true, .. }));
    assert!(matches!(*right, Expr::Like { negated: true, .. }));
}

#[test]
fn syntax_errors_have_positions() {
    match parse("SELEC 1 FROM t") {
        Err(Error::Sql { pos: Some(0), .. }) => {}
        other => panic!("se esperaba error en byte 0, llegó {other:?}"),
    }
    match parse("SELECT a FROM t WHERE") {
        Err(Error::Sql { pos: Some(p), .. }) => assert_eq!(p, 21),
        other => panic!("se esperaba error con posición, llegó {other:?}"),
    }
    match parse("SELECT a FROM t; extra") {
        Err(Error::Sql { pos: Some(17), .. }) => {}
        other => panic!("se esperaba error en byte 17, llegó {other:?}"),
    }
    match parse("UPDATE t SET = 1") {
        Err(Error::Sql { pos: Some(13), .. }) => {}
        other => panic!("se esperaba error en byte 13, llegó {other:?}"),
    }
}

#[test]
fn several_statements_and_parameters() {
    let many =
        settle(|env| parser::parse_many("INSERT INTO t VALUES (1); DELETE FROM t;", env.reals))
            .unwrap();
    assert_eq!(many.len(), 2);
    assert!(matches!(many[1], Stmt::Delete { .. }));
    assert!(parse("SELECT a->'b', a->>'c' FROM t").is_ok());
}

// --- JSON ---

fn json_parse(s: &str) -> Option<Json> {
    settle(|env| json::parse(s, env.reals).map_err(Error::NeedsReal)).unwrap()
}

fn json_text(j: &Json) -> String {
    settle(|env| json::to_string(j, env.reals).map_err(Error::NeedsReal)).unwrap()
}

#[test]
fn parse_roundtrip_and_extract() {
    let j = json_parse(r#"{"a": 1, "b": [10, 20, {"c": "hi"}], "d": null, "e": true}"#).unwrap();
    assert_eq!(json::extract(&j, "$.a"), Some(&Json::Int(1)));
    assert_eq!(json::extract(&j, "$.b[1]"), Some(&Json::Int(20)));
    assert_eq!(json::extract(&j, "$.b[2].c"), Some(&Json::Str("hi".into())));
    assert_eq!(json::extract(&j, "$.d"), Some(&Json::Null));
    assert_eq!(json::extract(&j, "$.e"), Some(&Json::Bool(true)));
    assert_eq!(json::extract(&j, "$.missing"), None);
    assert_eq!(json::extract(&j, "$.b[9]"), None);
    assert_eq!(json_text(json::extract(&j, "$.b[2]").unwrap()), r#"{"c":"hi"}"#);
}

#[test]
fn rejects_invalid() {
    assert!(json_parse("{bad}").is_none());
    assert!(json_parse("[1, 2,]").is_none());
    assert!(json_parse("123 456").is_none());
    assert!(json_parse(r#"{"a":1"#).is_none());
    assert!(json_parse("nul").is_none());
}

#[test]
fn numbers_and_escapes() {
    assert_eq!(json_parse("-12"), Some(Json::Int(-12)));
    assert_eq!(json_parse("3.5"), Some(Json::Float(3.5f64.to_bits())));
    assert_eq!(json_parse("1e3"), Some(Json::Float(1000.0f64.to_bits())));
    assert_eq!(json_parse(r#""a\"b\n""#), Some(Json::Str("a\"b\n".into())));
    assert_eq!(json_parse(r#""A""#), Some(Json::Str("A".into())));
}

// --- evaluation ---

fn chars(s: &str) -> Vec<char> {
    s.chars().collect()
}

#[test]
fn like_patterns() {
    assert!(like_match(&chars("ho%"), &chars("hola")));
    assert!(like_match(&chars("%la"), &chars("hola")));
    assert!(like_match(&chars("h_la"), &chars("hola")));
    assert!(like_match(&chars("%"), &chars("")));
    assert!(like_match(&chars("a%b%c"), &chars("aXXbYYc")));
    assert!(!like_match(&chars("Ho%"), &chars("hola")), "sensible a mayúsculas");
    assert!(!like_match(&chars("h_"), &chars("hola")));
}

fn binary(a: Value, op: BinOp, b: Value) -> Result<Value, Error> {
    let e = Expr::Binary(Box::new(Expr::Literal(a)), op, Box::new(Expr::Literal(b)));
    settle(|env| eval(env, &e, None, &Vec::new()))
}

#[test]
fn three_valued_logic() {
    let and = |a: Value, b: Value| binary(a, BinOp::And, b).unwrap();
    let or = |a: Value, b: Value| binary(a, BinOp::Or, b).unwrap();
    assert_eq!(and(Value::Null, Value::Bool(false)), Value::Bool(false));
    assert_eq!(and(Value::Null, Value::Bool(true)), Value::Null);
    assert_eq!(or(Value::Null, Value::Bool(true)), Value::Bool(true));
    assert_eq!(or(Value::Null, Value::Bool(false)), Value::Null);
}

#[test]
fn integer_overflow_errors_but_div_zero_is_null() {
    let bin = |a: i64, op: BinOp, b: i64| binary(Value::Integer(a), op, Value::Integer(b));
    assert!(bin(i64::MAX, BinOp::Add, 1).is_err());
    assert_eq!(bin(7, BinOp::Div, 0).unwrap(), Value::Null);
    assert_eq!(bin(7, BinOp::Mod, 0).unwrap(), Value::Null);
    assert_eq!(bin(7, BinOp::Div, 2).unwrap(), Value::Integer(3));
    assert!(bin(i64::MIN, BinOp::Div, -1).is_err());
    assert_eq!(bin(i64::MIN, BinOp::Mod, -1).unwrap(), Value::Integer(0));
}

#[test]
fn real_nan_is_null_but_inf_is_kept() {
    let of = |x: f64| Value::Real(x.to_bits());
    let bin = |a: f64, op: BinOp, b: f64| binary(of(a), op, of(b)).unwrap();
    let inf = f64::INFINITY;
    assert_eq!(bin(inf, BinOp::Sub, inf), Value::Null);
    assert_eq!(bin(inf, BinOp::Div, inf), Value::Null);
    assert_eq!(bin(1e308, BinOp::Mul, 10.0), of(inf));
    assert_eq!(bin(7.0, BinOp::Div, 0.0), Value::Null);
}

fn table(name: &str, col: &str) -> TableDef {
    TableDef {
        name: name.into(),
        table_id: 1,
        rowid_alias: None,
        columns: vec![ColumnDef {
            name: col.into(),
            col_type: ColType::Integer,
            not_null: false,
            default: None,
            dropped: false,
        }],
        indexes: Vec::new(),
        fts_indexes: Vec::new(),
        vector_indexes: Vec::new(),
        logical_order: vec![0],
        foreign_keys: Vec::new(),
        checks: Vec::new(),
    }
}

#[test]
fn aggregates_over_values() {
    let schema = QuerySchema::single("t", table("t", "v"));
    let rows: Vec<Vec<Value>> =
        vec![vec![Value::Integer(10)], vec![Value::Null], vec![Value::Integer(30)]];
    let none: Vec<Value> = Vec::new();
    let agg = |func: AggFunc, arg: Option<&Expr>| {
        settle(|env| compute_aggregate(env, func, arg, false, None, &schema, &rows, &none)).unwrap()
    };
    let col = column(None, "v");
    assert_eq!(agg(AggFunc::Count, None), Value::Integer(3));
    assert_eq!(agg(AggFunc::Count, Some(&col)), Value::Integer(2));
    assert_eq!(agg(AggFunc::Sum, Some(&col)), Value::Integer(40));
    assert_eq!(agg(AggFunc::Avg, Some(&col)), Value::Real(20.0f64.to_bits()));
    assert_eq!(agg(AggFunc::Min, Some(&col)), Value::Integer(10));
    assert_eq!(agg(AggFunc::Max, Some(&col)), Value::Integer(30));
    let empty: Vec<Vec<Value>> = Vec::new();
    let sum = settle(|env| {
        compute_aggregate(env, AggFunc::Sum, Some(&col), false, None, &schema, &empty, &none)
    })
    .unwrap();
    assert_eq!(sum, Value::Null);
}

#[test]
fn unqualified_columns_must_be_unambiguous() {
    let mut schema = QuerySchema::single("a", table("a", "id"));
    schema.push("b", table("b", "id")).unwrap();
    assert!(schema.resolve(&None, "id").is_err(), "ambigua");
    assert_eq!(schema.resolve(&Some("b".to_owned()), "id").unwrap(), 1);
    assert!(schema.resolve(&Some("zz".to_owned()), "id").is_err());
    assert!(schema.push("a", table("a", "id")).is_err(), "alias duplicado");
}

fn value_of(sql: &str) -> Result<Value, Error> {
    let stmt = parse(&format!("SELECT {sql}"))?;
    let Stmt::Select(s) = stmt else { panic!() };
    let SelectItem::Expr { expr, .. } = &s.projection[0] else { panic!() };
    settle(|env| eval(env, expr, None, &Vec::new()))
}

fn text(s: &str) -> Value {
    Value::Text(s.to_owned())
}

#[test]
fn functions_of_texts_and_numbers() {
    assert_eq!(value_of("upper('hola')").unwrap(), text("HOLA"));
    assert_eq!(value_of("length('añb')").unwrap(), Value::Integer(3));
    assert_eq!(value_of("substr('abcdef', 2, 3)").unwrap(), text("bcd"));
    assert_eq!(value_of("replace('a-b-c', '-', '+')").unwrap(), text("a+b+c"));
    assert_eq!(value_of("abs(-5)").unwrap(), Value::Integer(5));
    assert_eq!(value_of("round(2.567, 2)").unwrap(), Value::Real(2.57f64.to_bits()));
    assert_eq!(value_of("coalesce(NULL, 7)").unwrap(), Value::Integer(7));
    assert_eq!(value_of("hex(x'00FF')").unwrap(), text("00FF"));
    assert_eq!(value_of("CAST('12' AS INTEGER)").unwrap(), Value::Integer(12));
    assert_eq!(value_of("CASE WHEN 1 = 2 THEN 'a' ELSE 'b' END").unwrap(), text("b"));
    assert_eq!(value_of("'abc' LIKE 'a%'").unwrap(), Value::Bool(true));
    assert_eq!(value_of("3 IN (1, 2, 3)").unwrap(), Value::Bool(true));
    assert_eq!(value_of("'a' || 'b'").unwrap(), text("ab"));
    assert_eq!(value_of("1 < 2.5").unwrap(), Value::Bool(true));
    assert!(matches!(value_of("1 = 'a'"), Err(Error::Sql { .. })));
    assert!(matches!(value_of("no_such_function(1)"), Err(Error::Sql { .. })));
}

#[test]
fn null_arguments_give_null() {
    for e in [
        "substr('abc', NULL)",
        "substr('abc', 1, NULL)",
        "round(1.5, NULL)",
        "json_extract('{}', NULL)",
    ] {
        assert_eq!(value_of(e).unwrap(), Value::Null, "{e}");
    }
}

#[test]
fn reals_are_shown_with_a_point() {
    assert_eq!(value_of("CAST(1.0 AS TEXT)").unwrap(), text("1.0"));
    assert_eq!(json_text(&Json::Float(1.0f64.to_bits())), "1.0");
}

#[test]
fn deep_prefix_operators_are_refused() {
    let nots = format!("SELECT {}TRUE", "NOT ".repeat(300));
    assert!(matches!(parse(&nots), Err(Error::Sql { pos: Some(_), .. })));
    let minus = format!("SELECT {}1", "- ".repeat(300));
    assert!(matches!(parse(&minus), Err(Error::Sql { pos: Some(_), .. })));
    assert!(parse(&format!("SELECT {}TRUE", "NOT ".repeat(50))).is_ok());
}

#[test]
fn json_texts_read_back() {
    let j = Json::Object(vec![
        ("b\n\"\\".into(), Json::Array(vec![Json::Int(-7), Json::Null, Json::Bool(true)])),
        ("a".into(), Json::Float(1.0f64.to_bits())),
        ("\u{1}\u{1f600}".into(), Json::Str("\t/".into())),
        ("".into(), Json::Object(Vec::new())),
        ("c".into(), Json::Array(Vec::new())),
    ]);
    assert!(!json_text(&j).replace("\\t", "").contains([' ', '\t', '\n', '\r']));
    assert_eq!(json_parse(&json_text(&j)), Some(j));
}
