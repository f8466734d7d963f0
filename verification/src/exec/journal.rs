//! What a write asks of its store, and what the store has answered so far.
//!
//! A write is a function of the answers that its store has given. It runs from the start
//! with the answers at hand and stops at the first one that is missing: then it names
//! the action that the store must perform next. The store performs it, its answer is
//! added, and the write runs again.
use vstd::prelude::*;

use crate::catalog::{ColumnDef, ColumnDefV, ColumnPos, ColumnPosV, IndexDef, IndexDefV, TableDef, TableDefV, TableSpec, TableSpecV, TriggerDef, TriggerDefV, TriggerEvent, TriggerTiming, VectorMetric};
#[allow(unused_imports)]
use crate::catalog::{clone_table_def, strings_v};
use crate::error::{Error, ErrorV};
use crate::exec::output::{SelectOut, SelectOutV};
#[allow(unused_imports)]
use crate::exec::output::{fits, ints};
use crate::exec::plan::{Access, AccessV};
#[allow(unused_imports)]
use crate::exec::rows::rows_wide;
#[allow(unused_imports)]
use crate::exec::schema::def_ok;
#[allow(unused_imports)]
use crate::exec::write::triggers_v;
use crate::record::{clone_row, clone_rows, Value, ValueV};
#[allow(unused_imports)]
use crate::record::{row_view, rows_view};
use crate::sql::ast::{SelectStmt, SelectStmtV};

verus! {

/// An action of the store.
#[derive(Debug)]
#[allow(inconsistent_fields)]
pub enum Action {
    /// The table, the view, the trigger or the index of a name.
    FindTable(String),
    FindView(String),
    FindTrigger(String),
    FindIndex(String),
    FindFtsIndex(String),
    FindVectorIndex(String),
    /// The triggers of a table for an event.
    Triggers { table: String, event: TriggerEvent, timing: TriggerTiming },
    /// The result of a query, views included.
    Query { query: SelectStmt, params: Vec<Value> },
    /// The row with an identifier.
    Row { table: TableDef, rowid: i64 },
    /// The rows that a way of access reaches, with their identifiers.
    Rows { table: TableDef, access: Access },
    /// The identifiers of the rows with a key in an index.
    Lookup { table: TableDef, index: IndexDef, key: Vec<Value> },
    InsertRow { table: TableDef, row: Vec<Value> },
    UpdateRow { table: TableDef, rowid: i64, row: Vec<Value> },
    DeleteRow { table: TableDef, rowid: i64 },
    CreateTable(TableSpec),
    DropTable(String),
    CreateView { name: String, select_sql: String },
    DropView(String),
    CreateTrigger(TriggerDef),
    DropTrigger(String),
    CreateIndex { table: String, name: String, columns: Vec<usize>, unique: bool },
    DropIndex(String),
    CreateFtsIndex { table: String, name: String, columns: Vec<usize>, tokenizer: String },
    DropFtsIndex(String),
    CreateVectorIndex { table: String, name: String, column: usize, lists: u16, metric: VectorMetric, nprobe: u16 },
    DropVectorIndex(String),
    RebuildVectorIndex(String),
    AddColumn { table: String, column: ColumnDef },
    MoveColumn { table: String, column: String, pos: ColumnPos },
    ReorderColumns { table: String, order: Vec<String> },
    RenameColumn { table: String, from: String, to: String },
    DropColumn { table: String, column: String },
    /// A trigger begins; the store limits how deep they nest.
    EnterTrigger,
    ExitTrigger,
}

#[allow(inconsistent_fields)]
#[verifier::ext_equal]
pub ghost enum ActionV {
    FindTable(Seq<char>),
    FindView(Seq<char>),
    FindTrigger(Seq<char>),
    FindIndex(Seq<char>),
    FindFtsIndex(Seq<char>),
    FindVectorIndex(Seq<char>),
    Triggers { table: Seq<char>, event: TriggerEvent, timing: TriggerTiming },
    Query { query: SelectStmtV, params: Seq<ValueV> },
    Row { table: TableDefV, rowid: i64 },
    Rows { table: TableDefV, access: AccessV },
    Lookup { table: TableDefV, index: IndexDefV, key: Seq<ValueV> },
    InsertRow { table: TableDefV, row: Seq<ValueV> },
    UpdateRow { table: TableDefV, rowid: i64, row: Seq<ValueV> },
    DeleteRow { table: TableDefV, rowid: i64 },
    CreateTable(TableSpecV),
    DropTable(Seq<char>),
    CreateView { name: Seq<char>, select_sql: Seq<char> },
    DropView(Seq<char>),
    CreateTrigger(TriggerDefV),
    DropTrigger(Seq<char>),
    CreateIndex { table: Seq<char>, name: Seq<char>, columns: Seq<int>, unique: bool },
    DropIndex(Seq<char>),
    CreateFtsIndex { table: Seq<char>, name: Seq<char>, columns: Seq<int>, tokenizer: Seq<char> },
    DropFtsIndex(Seq<char>),
    CreateVectorIndex { table: Seq<char>, name: Seq<char>, column: int, lists: u16, metric: VectorMetric, nprobe: u16 },
    DropVectorIndex(Seq<char>),
    RebuildVectorIndex(Seq<char>),
    AddColumn { table: Seq<char>, column: ColumnDefV },
    MoveColumn { table: Seq<char>, column: Seq<char>, pos: ColumnPosV },
    ReorderColumns { table: Seq<char>, order: Seq<Seq<char>> },
    RenameColumn { table: Seq<char>, from: Seq<char>, to: Seq<char> },
    DropColumn { table: Seq<char>, column: Seq<char> },
    EnterTrigger,
    ExitTrigger,
}

impl View for Action {
    type V = ActionV;

    open spec fn view(&self) -> ActionV {
        match self {
            Action::FindTable(n) => ActionV::FindTable(n@),
            Action::FindView(n) => ActionV::FindView(n@),
            Action::FindTrigger(n) => ActionV::FindTrigger(n@),
            Action::FindIndex(n) => ActionV::FindIndex(n@),
            Action::FindFtsIndex(n) => ActionV::FindFtsIndex(n@),
            Action::FindVectorIndex(n) => ActionV::FindVectorIndex(n@),
            Action::Triggers { table, event, timing } => ActionV::Triggers { table: table@, event: *event, timing: *timing },
            Action::Query { query, params } => ActionV::Query { query: query@, params: row_view(params@) },
            Action::Row { table, rowid } => ActionV::Row { table: table@, rowid: *rowid },
            Action::Rows { table, access } => ActionV::Rows { table: table@, access: access@ },
            Action::Lookup { table, index, key } => ActionV::Lookup { table: table@, index: index@, key: row_view(key@) },
            Action::InsertRow { table, row } => ActionV::InsertRow { table: table@, row: row_view(row@) },
            Action::UpdateRow { table, rowid, row } => ActionV::UpdateRow { table: table@, rowid: *rowid, row: row_view(row@) },
            Action::DeleteRow { table, rowid } => ActionV::DeleteRow { table: table@, rowid: *rowid },
            Action::CreateTable(t) => ActionV::CreateTable(t@),
            Action::DropTable(n) => ActionV::DropTable(n@),
            Action::CreateView { name, select_sql } => ActionV::CreateView { name: name@, select_sql: select_sql@ },
            Action::DropView(n) => ActionV::DropView(n@),
            Action::CreateTrigger(t) => ActionV::CreateTrigger(t@),
            Action::DropTrigger(n) => ActionV::DropTrigger(n@),
            Action::CreateIndex { table, name, columns, unique } => ActionV::CreateIndex { table: table@, name: name@, columns: ints(columns@), unique: *unique },
            Action::DropIndex(n) => ActionV::DropIndex(n@),
            Action::CreateFtsIndex { table, name, columns, tokenizer } => ActionV::CreateFtsIndex { table: table@, name: name@, columns: ints(columns@), tokenizer: tokenizer@ },
            Action::DropFtsIndex(n) => ActionV::DropFtsIndex(n@),
            Action::CreateVectorIndex { table, name, column, lists, metric, nprobe } => ActionV::CreateVectorIndex { table: table@, name: name@, column: *column as int, lists: *lists, metric: *metric, nprobe: *nprobe },
            Action::DropVectorIndex(n) => ActionV::DropVectorIndex(n@),
            Action::RebuildVectorIndex(n) => ActionV::RebuildVectorIndex(n@),
            Action::AddColumn { table, column } => ActionV::AddColumn { table: table@, column: column@ },
            Action::MoveColumn { table, column, pos } => ActionV::MoveColumn { table: table@, column: column@, pos: pos@ },
            Action::ReorderColumns { table, order } => ActionV::ReorderColumns { table: table@, order: strings_v(order@) },
            Action::RenameColumn { table, from, to } => ActionV::RenameColumn { table: table@, from: from@, to: to@ },
            Action::DropColumn { table, column } => ActionV::DropColumn { table: table@, column: column@ },
            Action::EnterTrigger => ActionV::EnterTrigger,
            Action::ExitTrigger => ActionV::ExitTrigger,
        }
    }
}

/// An answer of the store.
#[derive(Debug)]
pub enum Reply {
    Table(Option<TableDef>),
    Text(Option<String>),
    Flag(bool),
    Triggers(Vec<TriggerDef>),
    Output(SelectOut),
    Row(Option<Vec<Value>>),
    /// Identifiers with their rows; a row that is gone is left out.
    Rows(Vec<(i64, Option<Vec<Value>>)>),
    Ids(Vec<i64>),
    Id(i64),
    Done,
    Failed(Error),
}

#[verifier::ext_equal]
pub ghost enum ReplyV {
    Table(Option<TableDefV>),
    Text(Option<Seq<char>>),
    Flag(bool),
    Triggers(Seq<TriggerDefV>),
    Output(SelectOutV),
    Row(Option<Seq<ValueV>>),
    Rows(Seq<(i64, Option<Seq<ValueV>>)>),
    Ids(Seq<i64>),
    Id(i64),
    Done,
    Failed(ErrorV),
}

pub open spec fn opt_row_v(r: Option<Vec<Value>>) -> Option<Seq<ValueV>> {
    match r {
        Some(v) => Some(row_view(v@)),
        None => None,
    }
}

pub open spec fn id_rows_v(s: Seq<(i64, Option<Vec<Value>>)>) -> Seq<(i64, Option<Seq<ValueV>>)> {
    Seq::new(s.len(), |i: int| (s[i].0, opt_row_v(s[i].1)))
}

impl View for Reply {
    type V = ReplyV;

    open spec fn view(&self) -> ReplyV {
        match self {
            Reply::Table(Some(d)) => ReplyV::Table(Some(d@)),
            Reply::Table(None) => ReplyV::Table(None),
            Reply::Text(Some(s)) => ReplyV::Text(Some(s@)),
            Reply::Text(None) => ReplyV::Text(None),
            Reply::Flag(b) => ReplyV::Flag(*b),
            Reply::Triggers(ts) => ReplyV::Triggers(triggers_v(ts@)),
            Reply::Output(out) => ReplyV::Output(out@),
            Reply::Row(r) => ReplyV::Row(opt_row_v(*r)),
            Reply::Rows(rs) => ReplyV::Rows(id_rows_v(rs@)),
            Reply::Ids(ids) => ReplyV::Ids(ids@),
            Reply::Id(id) => ReplyV::Id(*id),
            Reply::Done => ReplyV::Done,
            Reply::Failed(e) => ReplyV::Failed(e@),
        }
    }
}

pub open spec fn replies_v(s: Seq<Reply>) -> Seq<ReplyV> {
    Seq::new(s.len(), |i: int| s[i]@)
}

/// Why a write stops: it needs an answer, or it has failed.
#[derive(Debug)]
pub enum Stop {
    Ask(Action),
    Fail(Error),
}

/// Why a write stops; a failure comes with the number of answers that were read.
#[verifier::ext_equal]
pub ghost enum StopV {
    Ask(ActionV),
    Fail(ErrorV, int),
}

/// The answer at `k` to an action.
pub open spec fn asked(j: Seq<ReplyV>, a: ActionV, k: int) -> Result<(ReplyV, int), StopV> {
    if k < 0 || k >= j.len() {
        Err(StopV::Ask(a))
    } else {
        match j[k] {
            ReplyV::Failed(e) => Err(StopV::Fail(e, k + 1)),
            r => Ok((r, k + 1)),
        }
    }
}

/// The error of an answer that is not one to the action.
pub open spec fn unexpected() -> ErrorV {
    ErrorV::Store("respuesta inesperada del almacén"@)
}

pub open spec fn asked_flag(j: Seq<ReplyV>, a: ActionV, k: int) -> Result<(bool, int), StopV> {
    match asked(j, a, k) {
        Err(e) => Err(e),
        Ok((r, k1)) => {
            match r {
                ReplyV::Flag(b) => Ok((b, k1)),
                _ => Err(StopV::Fail(unexpected(), k1)),
            }
        },
    }
}

pub open spec fn asked_done(j: Seq<ReplyV>, a: ActionV, k: int) -> Result<((), int), StopV> {
    match asked(j, a, k) {
        Err(e) => Err(e),
        Ok((r, k1)) => {
            match r {
                ReplyV::Done => Ok(((), k1)),
                _ => Err(StopV::Fail(unexpected(), k1)),
            }
        },
    }
}

pub open spec fn asked_id(j: Seq<ReplyV>, a: ActionV, k: int) -> Result<(i64, int), StopV> {
    match asked(j, a, k) {
        Err(e) => Err(e),
        Ok((r, k1)) => {
            match r {
                ReplyV::Id(id) => Ok((id, k1)),
                _ => Err(StopV::Fail(unexpected(), k1)),
            }
        },
    }
}

pub open spec fn asked_ids(j: Seq<ReplyV>, a: ActionV, k: int) -> Result<(Seq<i64>, int), StopV> {
    match asked(j, a, k) {
        Err(e) => Err(e),
        Ok((r, k1)) => {
            match r {
                ReplyV::Ids(s) => Ok((s, k1)),
                _ => Err(StopV::Fail(unexpected(), k1)),
            }
        },
    }
}

pub open spec fn asked_text(j: Seq<ReplyV>, a: ActionV, k: int) -> Result<(Option<Seq<char>>, int), StopV> {
    match asked(j, a, k) {
        Err(e) => Err(e),
        Ok((r, k1)) => {
            match r {
                ReplyV::Text(s) => Ok((s, k1)),
                _ => Err(StopV::Fail(unexpected(), k1)),
            }
        },
    }
}

pub open spec fn asked_triggers(j: Seq<ReplyV>, a: ActionV, k: int) -> Result<(Seq<TriggerDefV>, int), StopV> {
    match asked(j, a, k) {
        Err(e) => Err(e),
        Ok((r, k1)) => {
            match r {
                ReplyV::Triggers(s) => Ok((s, k1)),
                _ => Err(StopV::Fail(unexpected(), k1)),
            }
        },
    }
}

/// A table whose indexes name its own columns.
pub open spec fn asked_table(j: Seq<ReplyV>, a: ActionV, k: int) -> Result<(Option<TableDefV>, int), StopV> {
    match asked(j, a, k) {
        Err(e) => Err(e),
        Ok((r, k1)) => {
            match r {
                ReplyV::Table(None) => Ok((None, k1)),
                ReplyV::Table(Some(d)) if def_ok(d) => Ok((Some(d), k1)),
                _ => Err(StopV::Fail(unexpected(), k1)),
            }
        },
    }
}

/// A result whose rows are as wide as its columns.
pub open spec fn asked_output(j: Seq<ReplyV>, a: ActionV, k: int) -> Result<(SelectOutV, int), StopV> {
    match asked(j, a, k) {
        Err(e) => Err(e),
        Ok((r, k1)) => {
            match r {
                ReplyV::Output(out) if fits(out) => Ok((out, k1)),
                _ => Err(StopV::Fail(unexpected(), k1)),
            }
        },
    }
}

/// A row of a width.
pub open spec fn asked_row(j: Seq<ReplyV>, a: ActionV, w: int, k: int) -> Result<(Option<Seq<ValueV>>, int), StopV> {
    match asked(j, a, k) {
        Err(e) => Err(e),
        Ok((r, k1)) => {
            match r {
                ReplyV::Row(None) => Ok((None, k1)),
                ReplyV::Row(Some(row)) if row.len() == w => Ok((Some(row), k1)),
                _ => Err(StopV::Fail(unexpected(), k1)),
            }
        },
    }
}

/// The rows that are there, from `i` on.
pub open spec fn there(s: Seq<(i64, Option<Seq<ValueV>>)>, i: int) -> Seq<(i64, Seq<ValueV>)>
    decreases s.len() - i,
{
    if i < 0 || i >= s.len() {
        Seq::empty()
    } else {
        match s[i].1 {
            Some(row) => seq![(s[i].0, row)] + there(s, i + 1),
            None => there(s, i + 1),
        }
    }
}

pub open spec fn all_wide(s: Seq<(i64, Option<Seq<ValueV>>)>, w: int) -> bool {
    forall|i: int| 0 <= i < s.len() ==> wide_or_gone(#[trigger] s[i], w)
}

pub open spec fn wide_or_gone(p: (i64, Option<Seq<ValueV>>), w: int) -> bool {
    p.1 is Some ==> p.1->0.len() == w
}

/// Rows of a width, with their identifiers.
pub open spec fn asked_rows(j: Seq<ReplyV>, a: ActionV, w: int, k: int) -> Result<(Seq<(i64, Seq<ValueV>)>, int), StopV> {
    match asked(j, a, k) {
        Err(e) => Err(e),
        Ok((r, k1)) => {
            match r {
                ReplyV::Rows(s) if all_wide(s, w) => Ok((there(s, 0), k1)),
                _ => Err(StopV::Fail(unexpected(), k1)),
            }
        },
    }
}

/// The outcome of a computation that asks for nothing.
pub open spec fn held<T>(r: Result<T, ErrorV>, k: int) -> Result<T, StopV> {
    match r {
        Ok(x) => Ok(x),
        Err(e) => Err(StopV::Fail(e, k)),
    }
}

pub fn hold<T>(r: Result<T, Error>) -> (out: Result<T, Stop>)
    ensures
        (match r {
                Ok(x) => out == Ok::<T, Stop>(x),
                Err(e) => out == Err::<T, Stop>(Stop::Fail(e)),
        }),
{
    match r {
        Ok(x) => Ok(x),
        Err(e) => Err(Stop::Fail(e)),
    }
}

pub open spec fn pairs_v(s: Seq<(i64, Vec<Value>)>) -> Seq<(i64, Seq<ValueV>)> {
    Seq::new(s.len(), |i: int| (s[i].0, row_view(s[i].1@)))
}

/// The answers of a store, and how many of them have been read.
pub struct Journal<'a> {
    pub replies: &'a Vec<Reply>,
    pub at: usize,
}

/// `r` is the outcome `want` of reading on in a journal.
pub open spec fn read_on<T>(a: Journal, b: Journal, r: Result<T, Stop>, want: Result<(T, int), StopV>) -> bool {
    &&& b.replies == a.replies
    &&& b.wf()
    &&& match want {
        Ok((v, k)) => r == Ok::<T, Stop>(v) && b.at == k,
        Err(StopV::Fail(e, k)) => r matches Err(Stop::Fail(x)) && x@ == e && b.at == k,
        Err(StopV::Ask(x)) => r matches Err(Stop::Ask(y)) && y@ == x,
    }
}

fn surprise<T>() -> (r: Result<T, Stop>)
    ensures
        r matches Err(Stop::Fail(x)) && x@ == unexpected(),
{
    Err(Stop::Fail(Error::Store("respuesta inesperada del almacén".to_owned())))
}

impl<'a> Journal<'a> {

    pub open spec fn wf(&self) -> bool {
        self.at <= self.replies@.len()
    }

    pub open spec fn seq(&self) -> Seq<ReplyV> {
        replies_v(self.replies@)
    }

    /// The next answer.
    fn ask(&mut self, a: Action) -> (r: Result<&'a Reply, Stop>)
        requires
            old(self).wf(),
        ensures
            final(self).replies == old(self).replies,
            final(self).wf(),
            (match asked(old(self).seq(), a@, old(self).at as int) {
                    Ok((v, k)) => r is Ok && r->Ok_0@ == v && final(self).at == k && !(v is Failed),
                    Err(StopV::Fail(e, k)) => (r matches Err(Stop::Fail(x)) && x@ == e) && final(self).at == k,
                    Err(StopV::Ask(x)) => r matches Err(Stop::Ask(y)) && y@ == x,
            }),
    {
        let all: &'a Vec<Reply> = self.replies;
        if self.at >= all.len() {
            return Err(Stop::Ask(a));
        }
        assert(self.seq()[self.at as int] == all@[self.at as int]@);
        let i: usize = self.at;
        self.at = i + 1;
        match &all[i] {
            Reply::Failed(e) => Err(Stop::Fail(e.clone())),
            r => Ok(r),
        }
    }

    pub fn flag(&mut self, a: Action) -> (r: Result<bool, Stop>)
        requires
            old(self).wf(),
        ensures
            read_on(*old(self), *final(self), r, asked_flag(old(self).seq(), a@, old(self).at as int)),
    {
        match self.ask(a)? {
            Reply::Flag(b) => Ok(*b),
            _ => surprise(),
        }
    }

    pub fn done(&mut self, a: Action) -> (r: Result<(), Stop>)
        requires
            old(self).wf(),
        ensures
            read_on(*old(self), *final(self), r, asked_done(old(self).seq(), a@, old(self).at as int)),
    {
        match self.ask(a)? {
            Reply::Done => Ok(()),
            _ => surprise(),
        }
    }

    pub fn id(&mut self, a: Action) -> (r: Result<i64, Stop>)
        requires
            old(self).wf(),
        ensures
            read_on(*old(self), *final(self), r, asked_id(old(self).seq(), a@, old(self).at as int)),
    {
        match self.ask(a)? {
            Reply::Id(id) => Ok(*id),
            _ => surprise(),
        }
    }

    /// The first of some identifiers.
    pub fn first_id(&mut self, a: Action) -> (r: Result<Option<i64>, Stop>)
        requires
            old(self).wf(),
        ensures
            read_on(*old(self), *final(self), r, first_of(asked_ids(old(self).seq(), a@, old(self).at as int))),
    {
        match self.ask(a)? {
            Reply::Ids(s) => if s.len() > 0 {
                Ok(Some(s[0]))
            } else {
                Ok(None)
            },
            _ => surprise(),
        }
    }

    pub fn text(&mut self, a: Action) -> (r: Result<Option<String>, Stop>)
        requires
            old(self).wf(),
        ensures
            read_on(*old(self), *final(self), (match r {
                        Ok(Some(s)) => Ok(Some(s@)),
                        Ok(None) => Ok(None),
                        Err(e) => Err(e),
                }), asked_text(old(self).seq(), a@, old(self).at as int)),
    {
        match self.ask(a)? {
            Reply::Text(Some(s)) => Ok(Some(s.clone())),
            Reply::Text(None) => Ok(None),
            _ => surprise(),
        }
    }

    pub fn triggers(&mut self, a: Action) -> (r: Result<Vec<TriggerDef>, Stop>)
        requires
            old(self).wf(),
        ensures
            read_on(*old(self), *final(self), (match r {
                        Ok(s) => Ok(triggers_v(s@)),
                        Err(e) => Err(e),
                }), asked_triggers(old(self).seq(), a@, old(self).at as int)),
    {
        match self.ask(a)? {
            Reply::Triggers(s) => Ok(clone_triggers(s)),
            _ => surprise(),
        }
    }

    pub fn table(&mut self, a: Action) -> (r: Result<Option<TableDef>, Stop>)
        requires
            old(self).wf(),
        ensures
            read_on(*old(self), *final(self), (match r {
                        Ok(Some(d)) => Ok(Some(d@)),
                        Ok(None) => Ok(None),
                        Err(e) => Err(e),
                }), asked_table(old(self).seq(), a@, old(self).at as int)),
            r matches Ok(Some(d)) ==> def_ok(d@),
    {
        match self.ask(a)? {
            Reply::Table(None) => Ok(None),
            Reply::Table(Some(d)) => if sound_def(d) {
                Ok(Some(clone_table_def(d)))
            } else {
                surprise()
            },
            _ => surprise(),
        }
    }

    pub fn output(&mut self, a: Action) -> (r: Result<SelectOut, Stop>)
        requires
            old(self).wf(),
        ensures
            read_on(*old(self), *final(self), (match r {
                        Ok(d) => Ok(d@),
                        Err(e) => Err(e),
                }), asked_output(old(self).seq(), a@, old(self).at as int)),
            r is Ok ==> fits(r->Ok_0@),
    {
        match self.ask(a)? {
            Reply::Output(out) => {
                assert(out@.columns.len() == out.columns@.len());
                if rows_have_width(&out.rows, out.columns.len()) {
                    Ok(SelectOut { columns: crate::catalog::clone_strings(&out.columns), rows: clone_rows(&out.rows) })
                } else {
                    surprise()
                }
            },
            _ => surprise(),
        }
    }

    pub fn row(&mut self, a: Action, w: usize) -> (r: Result<Option<Vec<Value>>, Stop>)
        requires
            old(self).wf(),
        ensures
            read_on(*old(self), *final(self), (match r {
                        Ok(o) => Ok(opt_row_v(o)),
                        Err(e) => Err(e),
                }), asked_row(old(self).seq(), a@, w as int, old(self).at as int)),
            r matches Ok(Some(row)) ==> row@.len() == w,
    {
        match self.ask(a)? {
            Reply::Row(None) => Ok(None),
            Reply::Row(Some(row)) => {
                assert(row_view(row@).len() == row@.len());
                if row.len() == w {
                    let copy = clone_row(row);
                    assert(row_view(copy@).len() == copy@.len());
                    Ok(Some(copy))
                } else {
                    surprise()
                }
            },
            _ => surprise(),
        }
    }

    pub fn rows(&mut self, a: Action, w: usize) -> (r: Result<Vec<(i64, Vec<Value>)>, Stop>)
        requires
            old(self).wf(),
        ensures
            read_on(*old(self), *final(self), (match r {
                        Ok(s) => Ok(pairs_v(s@)),
                        Err(e) => Err(e),
                }), asked_rows(old(self).seq(), a@, w as int, old(self).at as int)),
            r is Ok ==> forall|i: int| 0 <= i < r->Ok_0@.len() ==> (#[trigger] r->Ok_0@[i]).1@.len() == w,
    {
        match self.ask(a)? {
            Reply::Rows(s) => match rows_there(s, w) {
                Some(out) => Ok(out),
                None => surprise(),
            },
            _ => surprise(),
        }
    }

}

pub open spec fn first_of(r: Result<(Seq<i64>, int), StopV>) -> Result<(Option<i64>, int), StopV> {
    match r {
        Ok((s, k)) => if s.len() > 0 {
            Ok((Some(s[0]), k))
        } else {
            Ok((None, k))
        },
        Err(e) => Err(e),
    }
}

fn rows_there(s: &Vec<(i64, Option<Vec<Value>>)>, w: usize) -> (r: Option<Vec<(i64, Vec<Value>)>>)
    ensures
        r is Some == all_wide(id_rows_v(s@), w as int),
        r is Some ==> pairs_v(r->0@) == there(id_rows_v(s@), 0) && forall|i: int| 0 <= i < r->0@.len() ==> (#[trigger] r->0@[i]).1@.len() == w,
{
    let n: usize = s.len();
    let ghost sv = id_rows_v(s@);
    let ghost whole = there(sv, 0);
    let mut out: Vec<(i64, Vec<Value>)> = Vec::new();
    assert(pairs_v(out@) + whole =~= whole);
    for i in 0..n
        invariant
            n == s@.len(),
            sv == id_rows_v(s@),
            whole == pairs_v(out@) + there(sv, i as int),
            forall|k: int| 0 <= k < i ==> wide_or_gone(#[trigger] sv[k], w as int),
            forall|k: int| 0 <= k < out@.len() ==> (#[trigger] out@[k]).1@.len() == w,
    {
        assert(sv[i as int] == (s@[i as int].0, opt_row_v(s@[i as int].1)));
        if let Some(row) = &s[i].1 {
            assert(row_view(row@).len() == row@.len());
            if row.len() != w {
                assert(!wide_or_gone(sv[i as int], w as int));
                return None;
            }
            let ghost start = pairs_v(out@);
            let copy = clone_row(row);
            assert(row_view(copy@).len() == copy@.len());
            let ghost p = (s@[i as int].0, row_view(row@));
            out.push((s[i].0, copy));
            assert(pairs_v(out@) =~= start.push(p));
            assert(start + (seq![p] + there(sv, i + 1)) =~= pairs_v(out@) + there(sv, i + 1));
        }
    }
    assert(pairs_v(out@) + Seq::<(i64, Seq<ValueV>)>::empty() =~= pairs_v(out@));
    Some(out)
}

fn rows_have_width(rows: &Vec<Vec<Value>>, w: usize) -> (r: bool)
    ensures
        r == rows_wide(rows_view(rows@), w as int),
{
    let n: usize = rows.len();
    let ghost rv = rows_view(rows@);
    for i in 0..n
        invariant
            n == rows@.len(),
            rv == rows_view(rows@),
            forall|k: int| 0 <= k < i ==> (#[trigger] rv[k]).len() == w,
    {
        assert(rv[i as int] == row_view(rows@[i as int]@));
        assert(rv[i as int].len() == rows@[i as int]@.len());
        if rows[i].len() != w {
            assert(rv[i as int].len() != w);
            return false;
        }
    }
    true
}

pub fn sound_def(d: &TableDef) -> (r: bool)
    ensures
        r == def_ok(d@),
{
    let w: usize = d.columns.len();
    let ghost dv = d@;
    assert(dv.columns.len() == w);
    if let Some(a) = d.rowid_alias {
        if a >= w {
            return false;
        }
    }
    let n: usize = d.logical_order.len();
    for i in 0..n
        invariant
            n == d.logical_order@.len(),
            dv == d@,
            dv.columns.len() == w,
            forall|k: int| 0 <= k < i ==> (#[trigger] dv.logical_order[k]) < w,
    {
        assert(dv.logical_order[i as int] == d.logical_order@[i as int]);
        if d.logical_order[i] >= w {
            assert(!(dv.logical_order[i as int] < dv.columns.len()));
            return false;
        }
    }
    let m: usize = d.indexes.len();
    for i in 0..m
        invariant
            m == d.indexes@.len(),
            dv == d@,
            dv.columns.len() == w,
            forall|p: int, k: int| 0 <= p < i && 0 <= k < dv.indexes[p].columns.len() ==> (#[trigger] dv.indexes[p].columns[k]) < w,
    {
        assert(dv.indexes[i as int] == d.indexes@[i as int]@);
        let c: usize = d.indexes[i].columns.len();
        for k in 0..c
            invariant
                i < m,
                m == d.indexes@.len(),
                c == d.indexes@[i as int].columns@.len(),
                dv == d@,
                dv.columns.len() == w,
                dv.indexes[i as int] == d.indexes@[i as int]@,
                forall|q: int| 0 <= q < k ==> (#[trigger] dv.indexes[i as int].columns[q]) < w,
        {
            assert(dv.indexes[i as int].columns[k as int] == d.indexes@[i as int].columns@[k as int]);
            if d.indexes[i].columns[k] >= w {
                assert(!(dv.indexes[i as int].columns[k as int] < dv.columns.len()));
                return false;
            }
        }
    }
    true
}

fn clone_triggers(v: &Vec<TriggerDef>) -> (r: Vec<TriggerDef>)
    ensures
        triggers_v(r@) == triggers_v(v@),
{
    let n: usize = v.len();
    let mut out: Vec<TriggerDef> = Vec::new();
    for i in 0..n
        invariant
            n == v@.len(),
            out@.len() == i,
            forall|k: int| 0 <= k < i ==> (#[trigger] out@[k])@ == v@[k]@,
    {
        out.push(crate::catalog::clone_trigger_def(&v[i]));
    }
    assert(triggers_v(out@) =~= triggers_v(v@));
    out
}

} // verus!
