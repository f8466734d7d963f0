use arkeion::catalog::{
    clone_table_def, ColType, ColumnDef, IndexDef, TableDef, TriggerDef, TriggerEvent,
    TriggerForEach, TriggerTiming,
};
use arkeion::error::Error;
use arkeion::exec::execute::{run_execute, run_returning};
use arkeion::exec::journal::{Action, Reply, Stop};
use arkeion::exec::memory::MemoryStore;
use arkeion::exec::ops::{Env, Place};
use arkeion::exec::output::SelectOut;
use arkeion::exec::plan::Access;
use arkeion::exec::random::{draw_for, next_random};
use arkeion::exec::select::{run_query, run_select, stream_select};
use arkeion::exec::source::DataSource;
use arkeion::reals::{Binary, RealAnswer, RealOp, RealTable, Unary};
use arkeion::record::{clone_row, Value};
use arkeion::sql::ast::{Expr, InsertSource, OnConflict, SelectItem, SelectStmt, Stmt};
use arkeion::sql::parser;

/// Computes what the library asks for on reals.
fn answer(op: &RealOp) -> RealAnswer {
    let f = f64::from_bits;
    let bits = |x: f64| RealAnswer::Bits(x.to_bits());
    match op {
        RealOp::FromInt(n) => bits(*n as f64),
        RealOp::ToInt(b) => RealAnswer::Int(f(*b) as i64),
        RealOp::Unary(u, b) => {
            let x = f(*b);
            bits(match u {
                Unary::Floor => x.floor(),
                Unary::Ceil => x.ceil(),
                Unary::Trunc => x.trunc(),
                Unary::Sqrt => x.sqrt(),
                Unary::Exp => x.exp(),
                Unary::Ln => x.ln(),
                Unary::Log10 => x.log10(),
                Unary::Log2 => x.log2(),
                Unary::Sin => x.sin(),
                Unary::Cos => x.cos(),
                Unary::Tan => x.tan(),
                Unary::Asin => x.asin(),
                Unary::Acos => x.acos(),
                Unary::Atan => x.atan(),
                Unary::Radians => x.to_radians(),
                Unary::Degrees => x.to_degrees(),
            })
        }
        RealOp::Binary(g, a, b) => {
            let (x, y) = (f(*a), f(*b));
            bits(match g {
                Binary::Add => x + y,
                Binary::Sub => x - y,
                Binary::Mul => x * y,
                Binary::Div => x / y,
                Binary::Rem => x % y,
                Binary::Pow => x.powf(y),
                Binary::Log => y.log(x),
                Binary::Atan2 => x.atan2(y),
            })
        }
        RealOp::Round(b, d) => {
            let p = 10f64.powi(*d as i32);
            bits((f(*b) * p).round() / p)
        }
        RealOp::JulianDay(ms) => bits(*ms as f64 / 86_400_000.0 + 2_440_587.5),
        RealOp::Parse(s) => match s.parse::<f64>() {
            Ok(x) => bits(x),
            Err(_) => RealAnswer::Invalid,
        },
        RealOp::Show(b) => RealAnswer::Text(format!("{:?}", f(*b))),
        RealOp::Fixed(b, p) => RealAnswer::Text(format!("{:.*}", *p, f(*b))),
        other => RealAnswer::Fail(format!("{other:?}")),
    }
}

fn num(n: i64) -> Value {
    Value::Integer(n)
}

fn text(s: &str) -> Value {
    Value::Text(s.to_owned())
}

fn column_def(name: &str, col_type: ColType) -> ColumnDef {
    ColumnDef { name: name.into(), col_type, not_null: false, default: None, dropped: false }
}

fn table(name: &str, rowid_alias: Option<usize>, columns: Vec<ColumnDef>) -> TableDef {
    let logical_order = (0..columns.len()).collect();
    TableDef {
        name: name.into(),
        table_id: 1,
        rowid_alias,
        columns,
        indexes: Vec::new(),
        fts_indexes: Vec::new(),
        vector_indexes: Vec::new(),
        logical_order,
        foreign_keys: Vec::new(),
        checks: Vec::new(),
    }
}

/// A database in memory that performs the actions of writes.
struct Db {
    tables: Vec<(TableDef, Vec<(i64, Vec<Value>)>)>,
    views: Vec<(String, String)>,
    triggers: Vec<TriggerDef>,
    depth: usize,
    reals: RealTable,
    random: u64,
    asked: Vec<String>,
}

impl Db {
    fn new() -> Db {
        Db {
            tables: Vec::new(),
            views: Vec::new(),
            triggers: Vec::new(),
            depth: 0,
            reals: RealTable::new(),
            random: 1,
            asked: Vec::new(),
        }
    }

    fn store(&self) -> MemoryStore {
        let mut s = MemoryStore::new();
        for (def, rows) in &self.tables {
            let copy = rows.iter().map(|(id, r)| (*id, clone_row(r))).collect();
            s = s.with_table(clone_table_def(def), copy).unwrap();
        }
        for (n, t) in &self.views {
            s = s.with_view(n.clone(), t.clone());
        }
        s
    }

    fn env(&self) -> Env<'_> {
        Env { reals: &self.reals, now: 0, place: Place::Start }
    }

    fn learn(&mut self, op: RealOp) {
        match op {
            RealOp::Draw(place) => draw_for(&mut self.reals, &mut self.random, place),
            op => {
                let a = answer(&op);
                self.reals.record(op, a)
            }
        };
    }

    fn parse(&mut self, sql: &str) -> Stmt {
        loop {
            match parser::parse(sql, &self.reals) {
                Err(Error::NeedsReal(op)) => self.learn(op),
                done => return done.unwrap(),
            }
        }
    }

    fn select(&mut self, stmt: &SelectStmt, params: &Vec<Value>) -> Result<SelectOut, Error> {
        let store = self.store();
        loop {
            let got = run_query(&store, &self.env(), stmt, params);
            match got {
                Err(Error::NeedsReal(op)) => self.learn(op),
                done => return done,
            }
        }
    }

    fn query(&mut self, sql: &str) -> Result<SelectOut, Error> {
        let Stmt::Select(s) = self.parse(sql) else { panic!("no es un SELECT") };
        self.select(&s, &Vec::new())
    }

    fn rows(&mut self, sql: &str) -> Vec<Vec<Value>> {
        self.query(sql).unwrap().rows
    }

    fn find(&mut self, name: &str) -> &mut (TableDef, Vec<(i64, Vec<Value>)>) {
        self.tables.iter_mut().find(|t| t.0.name == name).unwrap()
    }

    fn perform(&mut self, a: Action) -> Reply {
        self.asked.push(format!("{a:?}").split([' ', '(']).next().unwrap().to_owned());
        match a {
            Action::FindTable(n) => Reply::Table(
                self.tables.iter().find(|t| t.0.name == n).map(|t| clone_table_def(&t.0)),
            ),
            Action::FindView(n) => {
                Reply::Text(self.views.iter().find(|v| v.0 == n).map(|v| v.1.clone()))
            }
            Action::FindTrigger(n) => Reply::Flag(self.triggers.iter().any(|t| t.name == n)),
            Action::Triggers { table, event, timing } => Reply::Triggers(
                self.triggers
                    .iter()
                    .filter(|t| t.table == table && t.event == event && t.timing == timing)
                    .map(arkeion::catalog::clone_trigger_def)
                    .collect(),
            ),
            Action::Query { query, params } => match self.select(&query, &params) {
                Ok(out) => Reply::Output(out),
                Err(e) => Reply::Failed(e),
            },
            Action::Row { table, rowid } => {
                Reply::Row(self.store().get_row(&table, rowid).unwrap())
            }
            Action::Lookup { table, index, key } => {
                Reply::Ids(self.store().index_lookup(&table, &index, &key).unwrap())
            }
            Action::Rows { table, access } => {
                let s = self.store();
                let ids = match access {
                    Access::One(id) => vec![id],
                    Access::Equal(i, key) => {
                        s.index_lookup(&table, &table.indexes[i], &key).unwrap()
                    }
                    Access::From(i, v, inc) => {
                        s.index_range(&table, &table.indexes[i], Some((&v, inc)), None).unwrap()
                    }
                    Access::UpTo(i, v, inc) => {
                        s.index_range(&table, &table.indexes[i], None, Some((&v, inc))).unwrap()
                    }
                    _ => self.find(&table.name).1.iter().map(|r| r.0).collect(),
                };
                Reply::Rows(
                    ids.into_iter().map(|id| (id, s.get_row(&table, id).unwrap())).collect(),
                )
            }
            Action::InsertRow { table, row } => {
                let t = self.find(&table.name);
                let id = match table.rowid_alias.map(|a| &row[a]) {
                    Some(Value::Integer(n)) => *n,
                    _ => t.1.iter().map(|r| r.0).max().unwrap_or(0) + 1,
                };
                let mut row = row;
                if let Some(a) = table.rowid_alias {
                    row[a] = Value::Integer(id);
                }
                t.1.push((id, row));
                Reply::Id(id)
            }
            Action::UpdateRow { table, rowid, row } => {
                let t = self.find(&table.name);
                t.1.iter_mut().find(|r| r.0 == rowid).unwrap().1 = row;
                Reply::Done
            }
            Action::DeleteRow { table, rowid } => {
                self.find(&table.name).1.retain(|r| r.0 != rowid);
                Reply::Done
            }
            Action::CreateTable(spec) => {
                let alias = spec.columns.iter().position(|c| c.primary_key);
                let columns = spec
                    .columns
                    .iter()
                    .map(|c| ColumnDef {
                        name: c.name.clone(),
                        col_type: c.col_type,
                        not_null: c.not_null,
                        default: c.default.clone(),
                        dropped: false,
                    })
                    .collect();
                let def = table(&spec.name, alias, columns);
                self.tables.push((clone_table_def(&def), Vec::new()));
                Reply::Table(Some(def))
            }
            Action::DropTable(n) => {
                let before = self.tables.len();
                self.tables.retain(|t| t.0.name != n);
                Reply::Flag(self.tables.len() < before)
            }
            Action::CreateView { name, select_sql } => {
                self.views.push((name, select_sql));
                Reply::Done
            }
            Action::CreateTrigger(t) => {
                self.triggers.push(t);
                Reply::Done
            }
            Action::EnterTrigger => {
                if self.depth == 8 {
                    return Reply::Failed(Error::Store("demasiados triggers".into()));
                }
                self.depth += 1;
                Reply::Done
            }
            Action::ExitTrigger => {
                self.depth -= 1;
                Reply::Done
            }
            other => Reply::Failed(Error::Store(format!("{other:?}"))),
        }
    }

    fn write<T>(
        &mut self,
        run: impl Fn(&Env, &Vec<Reply>) -> Result<T, Stop>,
    ) -> Result<T, Error> {
        let mut replies = Vec::new();
        loop {
            let got = run(&self.env(), &replies);
            match got {
                Ok(x) => return Ok(x),
                Err(Stop::Ask(a)) => {
                    let r = self.perform(a);
                    replies.push(r);
                }
                Err(Stop::Fail(Error::NeedsReal(op))) => self.learn(op),
                Err(Stop::Fail(e)) => return Err(e),
            }
        }
    }

    fn exec(&mut self, sql: &str) -> Result<usize, Error> {
        let stmt = self.parse(sql);
        self.write(|env, replies| run_execute(env, replies, &stmt, &Vec::new()))
    }

    fn exec_with(&mut self, sql: &str, params: Vec<Value>) -> Result<usize, Error> {
        let stmt = self.parse(sql);
        self.write(|env, replies| run_execute(env, replies, &stmt, &params))
    }
}

/// Invoices and clients.
fn shop() -> Db {
    let mut db = Db::new();
    db.exec("CREATE TABLE c (id INTEGER PRIMARY KEY, nombre TEXT)").unwrap();
    db.exec("CREATE TABLE f (id INTEGER PRIMARY KEY, c INTEGER, total INTEGER)").unwrap();
    db.exec("INSERT INTO c VALUES (1, 'ana'), (2, 'leo'), (3, 'eva')").unwrap();
    db.exec("INSERT INTO f VALUES (1, 1, 10), (2, 1, 30), (3, 2, 20)").unwrap();
    db
}

#[test]
fn rows_are_selected_sorted_and_cut() {
    let mut db = shop();
    let out = db.query("SELECT id, total FROM f WHERE total > 10 ORDER BY total DESC").unwrap();
    assert_eq!(out.columns, ["id", "total"]);
    assert_eq!(out.rows, vec![vec![num(2), num(30)], vec![num(3), num(20)]]);
    assert_eq!(db.rows("SELECT id FROM f ORDER BY total LIMIT 1 OFFSET 1"), vec![vec![num(3)]]);
    assert_eq!(db.rows("SELECT * FROM f WHERE id = 2"), vec![vec![num(2), num(1), num(30)]]);
    assert_eq!(db.rows("SELECT DISTINCT c FROM f ORDER BY c"), vec![vec![num(1)], vec![num(2)]]);
}

#[test]
fn joins_pair_rows() {
    let mut db = shop();
    assert_eq!(
        db.rows("SELECT c.nombre, f.total FROM c JOIN f ON f.c = c.id ORDER BY f.total"),
        vec![
            vec![text("ana"), num(10)],
            vec![text("leo"), num(20)],
            vec![text("ana"), num(30)],
        ]
    );
    assert_eq!(
        db.rows("SELECT c.nombre, f.total FROM c LEFT JOIN f ON f.c = c.id WHERE c.id = 3"),
        vec![vec![text("eva"), Value::Null]]
    );
}

#[test]
fn groups_and_aggregates() {
    let mut db = shop();
    assert_eq!(
        db.rows("SELECT c, COUNT(*), SUM(total) FROM f GROUP BY c ORDER BY c"),
        vec![vec![num(1), num(2), num(40)], vec![num(2), num(1), num(20)]]
    );
    assert_eq!(
        db.rows("SELECT c FROM f GROUP BY c HAVING COUNT(*) > 1"),
        vec![vec![num(1)]]
    );
    assert_eq!(db.rows("SELECT MAX(total), COUNT(*) FROM f"), vec![vec![num(30), num(3)]]);
    assert_eq!(
        db.rows("SELECT AVG(total) FROM f"),
        vec![vec![Value::Real(20.0f64.to_bits())]]
    );
}

#[test]
fn windows_rank_rows() {
    let mut db = shop();
    assert_eq!(
        db.rows("SELECT id, ROW_NUMBER() OVER (PARTITION BY c ORDER BY total) AS n FROM f ORDER BY id"),
        vec![vec![num(1), num(1)], vec![num(2), num(2)], vec![num(3), num(1)]]
    );
}

#[test]
fn subqueries_and_sets() {
    let mut db = shop();
    assert_eq!(
        db.rows("SELECT id FROM c WHERE id IN (SELECT c FROM f) ORDER BY id"),
        vec![vec![num(1)], vec![num(2)]]
    );
    assert_eq!(
        db.rows("SELECT nombre, (SELECT SUM(total) FROM f WHERE f.c = c.id) AS s FROM c ORDER BY id"),
        vec![
            vec![text("ana"), num(40)],
            vec![text("leo"), num(20)],
            vec![text("eva"), Value::Null],
        ]
    );
    assert_eq!(
        db.rows("SELECT id FROM c WHERE EXISTS (SELECT 1 FROM f WHERE f.c = c.id AND total > 25)"),
        vec![vec![num(1)]]
    );
    assert_eq!(
        db.rows("SELECT id FROM c EXCEPT SELECT c FROM f"),
        vec![vec![num(3)]]
    );
    assert_eq!(
        db.rows("SELECT id FROM c UNION SELECT total FROM f ORDER BY id"),
        vec![
            vec![num(1)],
            vec![num(2)],
            vec![num(3)],
            vec![num(10)],
            vec![num(20)],
            vec![num(30)],
        ]
    );
    assert!(db.query("SELECT (SELECT id FROM c)").is_err());
    assert!(db.query("SELECT id FROM c UNION SELECT id, c FROM f").is_err());
}

#[test]
fn common_table_expressions() {
    let mut db = shop();
    assert_eq!(
        db.rows("WITH g AS (SELECT c, SUM(total) AS t FROM f GROUP BY c) SELECT t FROM g WHERE c = 1"),
        vec![vec![num(40)]]
    );
    let counted = db.rows(
        "WITH RECURSIVE n AS (SELECT 1 AS x UNION ALL SELECT x + 1 FROM n WHERE x < 5) SELECT x FROM n",
    );
    assert_eq!(counted, (1..=5).map(|i| vec![num(i)]).collect::<Vec<_>>());
    assert_eq!(
        db.rows("SELECT s.t FROM (SELECT total AS t FROM f WHERE id = 3) s"),
        vec![vec![num(20)]]
    );
}

#[test]
fn views_are_read_like_tables() {
    let mut db = shop();
    db.exec("CREATE VIEW grandes AS SELECT id, total FROM f WHERE total >= 20").unwrap();
    assert_eq!(
        db.rows("SELECT id FROM grandes ORDER BY id"),
        vec![vec![num(2)], vec![num(3)]]
    );
    let Stmt::Select(s) = db.parse("SELECT id FROM grandes") else { panic!() };
    assert!(run_select(&db.store(), &db.env(), &s, &Vec::new()).is_err());
    db.exec("CREATE VIEW v AS SELECT * FROM v").unwrap();
    assert!(matches!(
        db.query("SELECT * FROM v"),
        Err(Error::Sql { msg, .. }) if msg.contains("vista recursiva")
    ));
}

#[test]
fn simple_selects_can_be_streamed() {
    let mut db = shop();
    let Stmt::Select(s) = db.parse("SELECT total AS t, id FROM f LIMIT 2 OFFSET 1") else {
        panic!()
    };
    let plan = stream_select(&db.store(), &db.env(), &s, &Vec::new()).unwrap().unwrap();
    assert_eq!(plan.columns, ["t", "id"]);
    assert_eq!(plan.cols, vec![2, 0]);
    assert_eq!((plan.offset, plan.limit), (1, 2));
    let Stmt::Select(s) = db.parse("SELECT id FROM f WHERE id = 1") else { panic!() };
    assert!(stream_select(&db.store(), &db.env(), &s, &Vec::new()).unwrap().is_none());
}

#[test]
fn set_operators_take_their_sides() {
    let mut db = shop();
    let both = "SELECT c FROM f UNION ALL SELECT id FROM c";
    assert_eq!(db.rows(both).len(), 6);
    assert_eq!(
        db.rows("SELECT c FROM f UNION SELECT id FROM c"),
        vec![vec![num(1)], vec![num(2)], vec![num(3)]]
    );
    assert_eq!(
        db.rows("SELECT c FROM f INTERSECT SELECT id FROM c"),
        vec![vec![num(1)], vec![num(2)]]
    );
    assert_eq!(db.rows("SELECT id FROM c EXCEPT SELECT c FROM f"), vec![vec![num(3)]]);
}

#[test]
fn streaming_gives_what_running_gives() {
    let mut db = shop();
    let sql = "SELECT total AS t, * FROM f LIMIT 1 OFFSET 1";
    let Stmt::Select(s) = db.parse(sql) else { panic!() };
    let store = db.store();
    let plan = stream_select(&store, &db.env(), &s, &Vec::new()).unwrap().unwrap();
    let out = db.query(sql).unwrap();
    assert_eq!(plan.columns, out.columns);
    let rows: Vec<Vec<Value>> = store
        .scan_rows(&plan.def)
        .unwrap()
        .iter()
        .skip(plan.offset)
        .take(plan.limit)
        .map(|r| clone_row(&plan.cols.iter().map(|&c| clone_row(r).swap_remove(c)).collect()))
        .collect();
    assert_eq!(rows, out.rows);
    assert_eq!(rows, vec![vec![num(30), num(2), num(1), num(30)]]);
}

#[test]
fn inserts_check_their_columns() {
    let mut db = shop();
    assert_eq!(db.exec("INSERT INTO c (nombre) VALUES ('zoe')").unwrap(), 1);
    assert_eq!(db.rows("SELECT id FROM c WHERE nombre = 'zoe'"), vec![vec![num(4)]]);
    assert!(matches!(
        db.exec("INSERT INTO c VALUES (1)"),
        Err(Error::Sql { msg, .. }) if msg == "la tabla tiene 2 columnas pero se dieron 1 valores"
    ));
    assert!(matches!(
        db.exec("INSERT INTO c (nombre, nombre) VALUES ('a', 'b')"),
        Err(Error::Sql { msg, .. }) if msg == "columna repetida en INSERT: nombre"
    ));
    assert!(matches!(
        db.exec("INSERT INTO nada VALUES (1)"),
        Err(Error::Sql { msg, .. }) if msg == "tabla desconocida: nada"
    ));
    assert_eq!(
        db.exec_with("INSERT INTO c VALUES (?1, ?2)", vec![num(9), text("p")]).unwrap(),
        1
    );
    assert_eq!(db.rows("SELECT nombre FROM c WHERE id = 9"), vec![vec![text("p")]]);
}

#[test]
fn updates_and_deletes_change_what_they_select() {
    let mut db = shop();
    assert_eq!(db.exec("UPDATE f SET total = total * 2 WHERE c = 1").unwrap(), 2);
    assert_eq!(
        db.rows("SELECT total FROM f ORDER BY id"),
        vec![vec![num(20)], vec![num(60)], vec![num(20)]]
    );
    assert_eq!(db.exec("DELETE FROM f WHERE total = 20").unwrap(), 2);
    assert_eq!(db.rows("SELECT id FROM f"), vec![vec![num(2)]]);
    assert!(matches!(
        db.exec("UPDATE f SET id = 7"),
        Err(Error::Sql { msg, .. }) if msg == "no se puede actualizar la PRIMARY KEY: id"
    ));
    assert_eq!(db.exec("DELETE FROM f").unwrap(), 1);
}

#[test]
fn point_access_asks_for_one_row() {
    let mut db = shop();
    db.asked.clear();
    assert_eq!(db.exec("UPDATE f SET total = 1 WHERE id = 2").unwrap(), 1);
    assert_eq!(db.asked, ["FindTable", "Triggers", "Triggers", "Rows", "UpdateRow"]);
}

#[test]
fn index_access_finds_the_same_rows() {
    let mut db = shop();
    db.find("f").0.indexes.push(IndexDef {
        name: "fc".into(),
        columns: vec![1],
        unique: false,
    });
    assert_eq!(db.rows("SELECT id FROM f WHERE c = 1"), vec![vec![num(1)], vec![num(2)]]);
    assert_eq!(db.rows("SELECT id FROM f WHERE c > 1"), vec![vec![num(3)]]);
    assert_eq!(db.exec("DELETE FROM f WHERE c = 1 AND total = 30").unwrap(), 1);
    assert_eq!(db.rows("SELECT id FROM f"), vec![vec![num(1)], vec![num(3)]]);
}

#[test]
fn checks_are_enforced() {
    let mut db = shop();
    db.find("f").0.checks.push("total > 0".into());
    assert!(matches!(
        db.exec("INSERT INTO f VALUES (9, 1, -5)"),
        Err(Error::Constraint(m)) if m == "violación de restricción CHECK"
    ));
    assert_eq!(db.exec("INSERT INTO f VALUES (9, 1, NULL)").unwrap(), 1);
    assert!(db.exec("UPDATE f SET total = 0 WHERE id = 1").is_err());
    assert_eq!(db.rows("SELECT total FROM f WHERE id = 1"), vec![vec![num(10)]]);
}

#[test]
fn triggers_see_old_and_new_rows() {
    let mut db = shop();
    db.exec("CREATE TABLE log (a INTEGER, b INTEGER)").unwrap();
    db.triggers.push(TriggerDef {
        name: "tr".into(),
        timing: TriggerTiming::After,
        event: TriggerEvent::Update,
        for_each: TriggerForEach::Row,
        table: "f".into(),
        body: "INSERT INTO log VALUES (OLD.total, NEW.total)".into(),
    });
    db.exec("UPDATE f SET total = total + 1 WHERE c = 1").unwrap();
    assert_eq!(
        db.rows("SELECT a, b FROM log"),
        vec![vec![num(10), num(11)], vec![num(30), num(31)]]
    );
    db.triggers[0].body = "UPDATE f SET total = OLD.total WHERE id = NEW.id".into();
    assert!(matches!(
        db.exec("UPDATE f SET total = 5 WHERE id = 1"),
        Err(Error::Store(m)) if m == "demasiados triggers"
    ));
    assert_eq!(db.depth, 0);
}

#[test]
fn statement_triggers_run_once() {
    let mut db = shop();
    db.exec("CREATE TABLE log (a INTEGER)").unwrap();
    db.triggers.push(TriggerDef {
        name: "tr".into(),
        timing: TriggerTiming::Before,
        event: TriggerEvent::Delete,
        for_each: TriggerForEach::Statement,
        table: "f".into(),
        body: "INSERT INTO log VALUES (1)".into(),
    });
    assert_eq!(db.exec("DELETE FROM f").unwrap(), 3);
    assert_eq!(db.rows("SELECT COUNT(*) FROM log"), vec![vec![num(1)]]);
}

#[test]
fn views_are_written_through_their_triggers() {
    let mut db = shop();
    db.exec("CREATE VIEW v AS SELECT id, nombre FROM c").unwrap();
    assert!(matches!(
        db.exec("INSERT INTO v VALUES (7, 'x')"),
        Err(Error::Sql { msg, .. }) if msg.contains("INSTEAD OF")
    ));
    for (event, body) in [
        (TriggerEvent::Insert, "INSERT INTO c VALUES (NEW.id, NEW.nombre)"),
        (TriggerEvent::Update, "UPDATE c SET nombre = NEW.nombre WHERE id = OLD.id"),
        (TriggerEvent::Delete, "DELETE FROM c WHERE id = OLD.id"),
    ] {
        db.triggers.push(TriggerDef {
            name: "tr".into(),
            timing: TriggerTiming::InsteadOf,
            event,
            for_each: TriggerForEach::Row,
            table: "v".into(),
            body: body.into(),
        });
    }
    assert_eq!(db.exec("INSERT INTO v VALUES (7, 'x')").unwrap(), 1);
    assert_eq!(db.exec("UPDATE v SET nombre = 'y' WHERE id = 7").unwrap(), 1);
    assert_eq!(db.rows("SELECT nombre FROM c WHERE id = 7"), vec![vec![text("y")]]);
    assert_eq!(db.exec("DELETE FROM v WHERE id > 1").unwrap(), 3);
    assert_eq!(db.rows("SELECT id FROM c"), vec![vec![num(1)]]);
}

#[test]
fn conflicts_are_resolved_as_the_statement_says() {
    let mut db = shop();
    let lit = |v: Value| Expr::Literal(v);
    let col = |t: Option<&str>, n: &str| Expr::Column {
        table: t.map(|s| s.to_owned()),
        name: n.to_owned(),
    };
    let insert = |oc: OnConflict| Stmt::Insert {
        table: "c".into(),
        columns: None,
        source: InsertSource::Values(vec![vec![lit(num(1)), lit(text("nueva"))]]),
        on_conflict: Some(oc),
        returning: Some(vec![SelectItem::Star]),
    };
    let nothing = insert(OnConflict::Nothing);
    let out = db.write(|env, r| run_returning(env, r, &nothing, &Vec::new())).unwrap();
    assert!(out.rows.is_empty());
    let update = insert(OnConflict::Update {
        sets: vec![("nombre".into(), col(Some("excluded"), "nombre"))],
        where_clause: None,
    });
    let out = db.write(|env, r| run_returning(env, r, &update, &Vec::new())).unwrap();
    assert_eq!(out.columns, ["id", "nombre"]);
    assert_eq!(out.rows, vec![vec![num(1), text("nueva")]]);
    assert_eq!(db.rows("SELECT nombre FROM c WHERE id = 1"), vec![vec![text("nueva")]]);
    let key = insert(OnConflict::Update {
        sets: vec![("id".into(), lit(num(5)))],
        where_clause: None,
    });
    assert!(db.write(|env, r| run_returning(env, r, &key, &Vec::new())).is_err());
}

#[test]
fn tables_are_made_and_dropped() {
    let mut db = shop();
    assert!(matches!(
        db.exec("CREATE TABLE c (a INTEGER)"),
        Err(Error::Constraint(m)) if m == "la tabla ya existe"
    ));
    assert_eq!(db.exec("CREATE TABLE IF NOT EXISTS c (a INTEGER)").unwrap(), 0);
    assert_eq!(db.exec("DROP TABLE c").unwrap(), 0);
    assert!(matches!(
        db.exec("DROP TABLE c"),
        Err(Error::Sql { msg, .. }) if msg == "tabla desconocida: c"
    ));
    assert_eq!(db.exec("DROP TABLE IF EXISTS c").unwrap(), 0);
    assert!(db.exec("SELECT 1").is_err());
    assert!(db.exec("BEGIN").is_err());
}

#[test]
fn a_write_asks_for_each_action_once() {
    let mut db = shop();
    db.asked.clear();
    db.exec("INSERT INTO f VALUES (8, 1, 1), (9, 1, 2)").unwrap();
    assert_eq!(db.asked, ["FindTable", "Triggers", "Triggers", "InsertRow", "InsertRow"]);
}

#[test]
fn an_unexpected_answer_fails() {
    let reals = RealTable::new();
    let env = Env { reals: &reals, now: 0, place: Place::Start };
    let stmt = parser::parse("DROP TABLE t", env.reals).unwrap();
    let r = run_execute(&env, &vec![Reply::Done], &stmt, &Vec::new());
    assert!(matches!(r, Err(Stop::Fail(Error::Store(_)))));
    let r = run_execute(&env, &vec![], &stmt, &Vec::new());
    assert!(matches!(r, Err(Stop::Ask(Action::DropTable(n))) if n == "t"));
    let r = run_execute(&env, &vec![Reply::Flag(true)], &stmt, &Vec::new());
    assert!(matches!(r, Ok(0)));
}

#[test]
fn order_by_keeps_the_order_of_equal_keys() {
    let mut db = Db::new();
    db.exec("CREATE TABLE t (id INTEGER PRIMARY KEY, k INTEGER)").unwrap();
    db.exec("INSERT INTO t VALUES (1, 2), (2, NULL), (3, 1), (4, 2), (5, NULL), (6, 1)").unwrap();
    let ids = |rows: Vec<Vec<Value>>| rows.into_iter().map(|mut r| r.remove(0)).collect::<Vec<_>>();
    let up = ids(db.rows("SELECT id FROM t ORDER BY k"));
    assert_eq!(up, [num(2), num(5), num(3), num(6), num(1), num(4)]);
    let down = ids(db.rows("SELECT id FROM t ORDER BY k DESC"));
    assert_eq!(down, [num(1), num(4), num(3), num(6), num(2), num(5)]);
}

#[test]
fn distinct_drops_equal_groups() {
    let mut db = Db::new();
    db.exec("CREATE TABLE t (g INTEGER)").unwrap();
    db.exec("INSERT INTO t VALUES (1), (2)").unwrap();
    assert_eq!(db.rows("SELECT DISTINCT COUNT(*) FROM t GROUP BY g"), [[num(1)]]);
}

#[test]
fn aggregates_see_every_row_past_a_nearest_search() {
    let mut db = Db::new();
    db.exec("CREATE TABLE t (id INTEGER PRIMARY KEY, v BLOB)").unwrap();
    db.exec("INSERT INTO t VALUES (1, x'0000803f'), (2, x'00000040'), (3, x'00004040')").unwrap();
    let sql = "SELECT COUNT(*) FROM t ORDER BY v LIMIT 1";
    let Stmt::Select(mut s) = db.parse(sql) else { panic!() };
    let v = Expr::Column { table: None, name: "v".to_owned() };
    s.order_by[0].expr =
        Expr::Function { name: "l2_distance".to_owned(), args: vec![v, Expr::Param(1)] };
    let out = db.select(&s, &vec![Value::Blob(vec![0, 0, 0x80, 0x3f])]).unwrap();
    assert_eq!(out.rows, [[num(3)]]);
}

fn draws(n: usize) -> Vec<Value> {
    let mut state = 1u64;
    (0..n).map(|_| num(next_random(&mut state))).collect()
}

impl Db {
    /// Forgets the numbers drawn so far, as a new statement does.
    fn anew(&mut self) {
        self.reals = RealTable::new();
        self.random = 1;
    }
}

#[test]
fn random_draws_follow_the_order_of_evaluation() {
    let mut db = shop();
    let d = draws(6);
    db.anew();
    assert_eq!(db.rows("SELECT random(), RANDOM()"), [vec![d[0].clone(), d[1].clone()]]);
    db.anew();
    let got = db.rows("SELECT random() FROM f");
    assert_eq!(got, [vec![d[0].clone()], vec![d[1].clone()], vec![d[2].clone()]]);
    db.anew();
    let got = db.rows("SELECT id, random() FROM f WHERE id > 1 AND random() IS NOT NULL");
    assert_eq!(got, [vec![num(2), d[2].clone()], vec![num(3), d[3].clone()]]);
    db.anew();
    let got = db.rows("SELECT (SELECT random()), (SELECT random()), random()");
    assert_eq!(got, [vec![d[0].clone(), d[1].clone(), d[2].clone()]]);
    db.anew();
    let got = db.rows("SELECT COUNT(DISTINCT r) FROM (SELECT random() AS r FROM f) AS x");
    assert_eq!(got, [[num(3)]]);
    db.anew();
    let got = db.rows("SELECT random() UNION ALL SELECT random()");
    assert_eq!(got, [vec![d[0].clone()], vec![d[1].clone()]]);
}

#[test]
fn random_order_shuffles() {
    let mut db = shop();
    let mut shuffled = false;
    let Stmt::Select(mut s) = db.parse("SELECT id FROM f ORDER BY id") else { panic!() };
    s.order_by[0].expr = Expr::Function { name: "random".to_owned(), args: Vec::new() };
    for seed in 1..40 {
        db.anew();
        db.random = seed;
        let mut got: Vec<i64> = Vec::new();
        for row in db.select(&s, &Vec::new()).unwrap().rows {
            if let Value::Integer(n) = row[0] {
                got.push(n);
            }
        }
        shuffled = shuffled || got != [1, 2, 3];
        got.sort();
        assert_eq!(got, [1, 2, 3]);
    }
    assert!(shuffled);
}

#[test]
fn written_rows_draw_their_own_numbers() {
    let mut db = Db::new();
    db.exec("CREATE TABLE t (id INTEGER PRIMARY KEY)").unwrap();
    db.exec("CREATE TABLE u (k INTEGER, r INTEGER)").unwrap();
    db.anew();
    db.exec("INSERT INTO t (id) VALUES (random()), (random())").unwrap();
    assert_eq!(db.rows("SELECT COUNT(*) FROM t"), [[num(2)]]);
    db.exec("INSERT INTO u VALUES (1, 0), (2, 0), (3, 0)").unwrap();
    db.anew();
    db.exec("UPDATE u SET r = random()").unwrap();
    let d = draws(3);
    let got = db.rows("SELECT r FROM u");
    assert_eq!(got, [vec![d[0].clone()], vec![d[1].clone()], vec![d[2].clone()]]);
}
