//! Syntax trees of the SQL dialect.
use vstd::prelude::*;

use crate::catalog::{
    clone_foreign_key_specs, clone_strings, clone_stringss, ColType, ColumnFk, ColumnFkV, ColumnPos, ColumnPosV,
    ForeignKeySpec, ForeignKeySpecV, TriggerEvent, TriggerForEach, TriggerTiming,
};
#[allow(unused_imports)]
use crate::catalog::{foreign_key_specs_v, strings_v, stringss_v};
use crate::record::{value_same, Value, ValueV};

verus! {

/// Kind of a join.
#[derive(Clone, Copy, Debug, PartialEq, Eq, Structural)]
pub enum JoinKind {
    Inner,
    Left,
}

/// Set operator between SELECTs.
#[derive(Clone, Copy, Debug, PartialEq, Eq, Structural)]
pub enum SetOp {
    Union,
    UnionAll,
    Intersect,
    Except,
}

/// Aggregate function.
#[derive(Clone, Copy, Debug, PartialEq, Eq, Structural)]
pub enum AggFunc {
    Count,
    Sum,
    Avg,
    Min,
    Max,
    GroupConcat,
}

/// Window function.
#[derive(Clone, Copy, Debug, PartialEq, Eq, Structural)]
pub enum WindowFunc {
    RowNumber,
    Rank,
    DenseRank,
    Ntile,
    Lag,
    Lead,
    FirstValue,
    LastValue,
    Sum,
    Count,
    Avg,
    Min,
    Max,
}

/// Unary operator.
#[derive(Clone, Copy, Debug, PartialEq, Eq, Structural)]
pub enum UnOp {
    Neg,
    Not,
}

/// Binary operator. `JsonGet` is `->` and `JsonGetText` is `->>`.
#[derive(Clone, Copy, Debug, PartialEq, Eq, Structural)]
pub enum BinOp {
    Eq,
    Ne,
    Lt,
    Le,
    Gt,
    Ge,
    And,
    Or,
    Add,
    Sub,
    Mul,
    Div,
    Mod,
    Concat,
    JsonGet,
    JsonGetText,
}

/// Point in history of a SELECT.
#[derive(Clone, Copy, Debug, PartialEq, Eq, Structural)]
pub enum AsOfClause {
    Version(u64),
    Timestamp(u64),
}

/// End of a `ROWS` window frame.
#[derive(Clone, Copy, Debug, PartialEq, Eq, Structural)]
pub enum FrameBound {
    UnboundedPreceding,
    Preceding(usize),
    CurrentRow,
    Following(usize),
    UnboundedFollowing,
}

/// Window frame `ROWS BETWEEN start AND end`.
#[derive(Clone, Copy, Debug, PartialEq, Eq, Structural)]
pub struct WindowFrame {
    pub start: FrameBound,
    pub end: FrameBound,
}

/// Expression.
#[allow(inconsistent_fields)]
#[derive(Debug, PartialEq)]
pub enum Expr {
    Literal(Value),
    Column { table: Option<String>, name: String },
    /// `?N`, counted from one.
    Param(usize),
    Unary(UnOp, Box<Expr>),
    Binary(Box<Expr>, BinOp, Box<Expr>),
    IsNull { expr: Box<Expr>, negated: bool },
    Like { expr: Box<Expr>, pattern: Box<Expr>, negated: bool },
    /// Full-text match of an indexed column.
    Match { column: Box<Expr>, query: Box<Expr>, negated: bool },
    /// No argument only for `COUNT(*)`; `sep` only for `GROUP_CONCAT`.
    Aggregate { func: AggFunc, arg: Option<Box<Expr>>, distinct: bool, sep: Option<Box<Expr>> },
    /// Call of a scalar function.
    Function { name: String, args: Vec<Expr> },
    In { expr: Box<Expr>, list: Vec<Expr>, negated: bool },
    Cast { expr: Box<Expr>, to: ColType },
    /// With an operand, each `WHEN` is compared with it; without, each is a condition.
    Case { operand: Option<Box<Expr>>, whens: Vec<(Expr, Expr)>, else_: Option<Box<Expr>> },
    ScalarSubquery(Box<SelectStmt>),
    Exists(Box<SelectStmt>),
    InSubquery { expr: Box<Expr>, query: Box<SelectStmt>, negated: bool },
    Window { func: WindowFunc, args: Vec<Expr>, partition_by: Vec<Expr>, order_by: Vec<OrderBy>, frame: Option<WindowFrame> },
}

/// A sort key: an expression, a column, an alias or a position.
#[derive(Debug, PartialEq)]
pub struct OrderBy {
    pub expr: Expr,
    pub desc: bool,
}

/// An item of a projection.
#[derive(Debug, PartialEq)]
pub enum SelectItem {
    Star,
    Expr { expr: Expr, alias: Option<String> },
}

/// A table with an optional alias; a derived table holds its subquery.
#[derive(Debug, PartialEq)]
pub struct TableRef {
    pub name: String,
    pub alias: Option<String>,
    pub subquery: Option<Box<SelectStmt>>,
}

#[derive(Debug, PartialEq)]
pub struct Join {
    pub kind: JoinKind,
    pub table: TableRef,
    pub on: Expr,
}

/// A SELECT chained by a set operator.
#[derive(Debug, PartialEq)]
pub struct CompoundSelect {
    pub op: SetOp,
    pub select: SelectStmt,
}

/// A common table expression.
#[derive(Debug, PartialEq)]
pub struct Cte {
    pub name: String,
    pub query: SelectStmt,
}

/// A SELECT. The final clauses of the leader apply to the whole compound.
#[derive(Debug, PartialEq)]
pub struct SelectStmt {
    pub distinct: bool,
    pub projection: Vec<SelectItem>,
    pub from: Option<TableRef>,
    pub joins: Vec<Join>,
    pub where_clause: Option<Expr>,
    pub group_by: Vec<Expr>,
    pub having: Option<Expr>,
    pub order_by: Vec<OrderBy>,
    pub limit: Option<Expr>,
    pub offset: Option<Expr>,
    pub as_of: Option<AsOfClause>,
    pub compound: Vec<CompoundSelect>,
    pub with: Vec<Cte>,
}

/// A column definition.
#[derive(Debug, PartialEq)]
pub struct ColumnAst {
    pub name: String,
    pub col_type: ColType,
    pub not_null: bool,
    pub primary_key: bool,
    pub default: Option<Expr>,
    pub references: Option<ColumnFk>,
    pub unique: bool,
    pub check: Option<String>,
}

/// Where the rows of an INSERT come from.
#[derive(Debug, PartialEq)]
pub enum InsertSource {
    Values(Vec<Vec<Expr>>),
    Select(Box<SelectStmt>),
}

/// What an INSERT does with a row that conflicts.
#[derive(Debug, PartialEq)]
pub enum OnConflict {
    Nothing,
    Update { sets: Vec<(String, Expr)>, where_clause: Option<Expr> },
}

/// A statement.
#[allow(inconsistent_fields)]
#[derive(Debug, PartialEq)]
pub enum Stmt {
    CreateTable { if_not_exists: bool, name: String, columns: Vec<ColumnAst>, foreign_keys: Vec<ForeignKeySpec>, uniques: Vec<Vec<String>>, checks: Vec<String> },
    CreateTableAs { if_not_exists: bool, name: String, query: Box<SelectStmt> },
    DropTable { if_exists: bool, name: String },
    CreateView { if_not_exists: bool, name: String, select_sql: String },
    DropView { if_exists: bool, name: String },
    CreateTrigger { if_not_exists: bool, name: String, timing: TriggerTiming, event: TriggerEvent, for_each: TriggerForEach, table: String, body_sql: String },
    DropTrigger { if_exists: bool, name: String },
    CreateIndex { if_not_exists: bool, unique: bool, name: String, table: String, columns: Vec<String> },
    DropIndex { if_exists: bool, name: String },
    CreateFtsIndex { if_not_exists: bool, name: String, table: String, columns: Vec<String>, tokenizer: Option<String> },
    DropFtsIndex { if_exists: bool, name: String },
    CreateVectorIndex { if_not_exists: bool, name: String, table: String, column: String, metric: Option<String>, lists: Option<u32>, probes: Option<u32> },
    DropVectorIndex { if_exists: bool, name: String },
    RebuildVectorIndex { name: String },
    Insert { table: String, columns: Option<Vec<String>>, source: InsertSource, on_conflict: Option<OnConflict>, returning: Option<Vec<SelectItem>> },
    Select(SelectStmt),
    AlterTableAddColumn { table: String, column: ColumnAst },
    AlterTableMoveColumn { table: String, column: String, pos: ColumnPos },
    AlterTableReorderColumns { table: String, order: Vec<String> },
    AlterTableRenameColumn { table: String, old: String, new: String },
    AlterTableDropColumn { table: String, column: String },
    Update { table: String, sets: Vec<(String, Expr)>, where_clause: Option<Expr>, returning: Option<Vec<SelectItem>> },
    Delete { table: String, where_clause: Option<Expr>, returning: Option<Vec<SelectItem>> },
    Begin,
    Commit,
    Rollback,
    Savepoint(String),
    ReleaseSavepoint(String),
    RollbackTo(String),
}

/// [`Expr`] with texts and lists as sequences.
#[allow(inconsistent_fields)]
#[verifier::ext_equal]
pub enum ExprV {
    Literal(ValueV),
    Column { table: Option<Seq<char>>, name: Seq<char> },
    Param(usize),
    Unary(UnOp, Box<ExprV>),
    Binary(Box<ExprV>, BinOp, Box<ExprV>),
    IsNull { expr: Box<ExprV>, negated: bool },
    Like { expr: Box<ExprV>, pattern: Box<ExprV>, negated: bool },
    Match { column: Box<ExprV>, query: Box<ExprV>, negated: bool },
    Aggregate { func: AggFunc, arg: Option<Box<ExprV>>, distinct: bool, sep: Option<Box<ExprV>> },
    Function { name: Seq<char>, args: Seq<ExprV> },
    In { expr: Box<ExprV>, list: Seq<ExprV>, negated: bool },
    Cast { expr: Box<ExprV>, to: ColType },
    Case { operand: Option<Box<ExprV>>, whens: Seq<(ExprV, ExprV)>, else_: Option<Box<ExprV>> },
    ScalarSubquery(Box<SelectStmtV>),
    Exists(Box<SelectStmtV>),
    InSubquery { expr: Box<ExprV>, query: Box<SelectStmtV>, negated: bool },
    Window { func: WindowFunc, args: Seq<ExprV>, partition_by: Seq<ExprV>, order_by: Seq<OrderByV>, frame: Option<WindowFrame> },
}

/// [`OrderBy`] with texts and lists as sequences.
#[verifier::ext_equal]
pub struct OrderByV {
    pub expr: ExprV,
    pub desc: bool,
}

/// [`SelectItem`] with texts and lists as sequences.
#[verifier::ext_equal]
pub enum SelectItemV {
    Star,
    Expr { expr: ExprV, alias: Option<Seq<char>> },
}

/// [`TableRef`] with texts and lists as sequences.
#[verifier::ext_equal]
pub struct TableRefV {
    pub name: Seq<char>,
    pub alias: Option<Seq<char>>,
    pub subquery: Option<Box<SelectStmtV>>,
}

/// [`Join`] with texts and lists as sequences.
#[verifier::ext_equal]
pub struct JoinV {
    pub kind: JoinKind,
    pub table: TableRefV,
    pub on: ExprV,
}

/// [`CompoundSelect`] with texts and lists as sequences.
#[verifier::ext_equal]
pub struct CompoundSelectV {
    pub op: SetOp,
    pub select: SelectStmtV,
}

/// [`Cte`] with texts and lists as sequences.
#[verifier::ext_equal]
pub struct CteV {
    pub name: Seq<char>,
    pub query: SelectStmtV,
}

/// [`SelectStmt`] with texts and lists as sequences.
#[verifier::ext_equal]
pub struct SelectStmtV {
    pub distinct: bool,
    pub projection: Seq<SelectItemV>,
    pub from: Option<TableRefV>,
    pub joins: Seq<JoinV>,
    pub where_clause: Option<ExprV>,
    pub group_by: Seq<ExprV>,
    pub having: Option<ExprV>,
    pub order_by: Seq<OrderByV>,
    pub limit: Option<ExprV>,
    pub offset: Option<ExprV>,
    pub as_of: Option<AsOfClause>,
    pub compound: Seq<CompoundSelectV>,
    pub with: Seq<CteV>,
}

/// [`ColumnAst`] with texts and lists as sequences.
#[verifier::ext_equal]
pub struct ColumnAstV {
    pub name: Seq<char>,
    pub col_type: ColType,
    pub not_null: bool,
    pub primary_key: bool,
    pub default: Option<ExprV>,
    pub references: Option<ColumnFkV>,
    pub unique: bool,
    pub check: Option<Seq<char>>,
}

/// [`InsertSource`] with texts and lists as sequences.
#[verifier::ext_equal]
pub enum InsertSourceV {
    Values(Seq<Seq<ExprV>>),
    Select(Box<SelectStmtV>),
}

/// [`OnConflict`] with texts and lists as sequences.
#[verifier::ext_equal]
pub enum OnConflictV {
    Nothing,
    Update { sets: Seq<(Seq<char>, ExprV)>, where_clause: Option<ExprV> },
}

/// [`Stmt`] with texts and lists as sequences.
#[allow(inconsistent_fields)]
#[verifier::ext_equal]
pub enum StmtV {
    CreateTable { if_not_exists: bool, name: Seq<char>, columns: Seq<ColumnAstV>, foreign_keys: Seq<ForeignKeySpecV>, uniques: Seq<Seq<Seq<char>>>, checks: Seq<Seq<char>> },
    CreateTableAs { if_not_exists: bool, name: Seq<char>, query: Box<SelectStmtV> },
    DropTable { if_exists: bool, name: Seq<char> },
    CreateView { if_not_exists: bool, name: Seq<char>, select_sql: Seq<char> },
    DropView { if_exists: bool, name: Seq<char> },
    CreateTrigger { if_not_exists: bool, name: Seq<char>, timing: TriggerTiming, event: TriggerEvent, for_each: TriggerForEach, table: Seq<char>, body_sql: Seq<char> },
    DropTrigger { if_exists: bool, name: Seq<char> },
    CreateIndex { if_not_exists: bool, unique: bool, name: Seq<char>, table: Seq<char>, columns: Seq<Seq<char>> },
    DropIndex { if_exists: bool, name: Seq<char> },
    CreateFtsIndex { if_not_exists: bool, name: Seq<char>, table: Seq<char>, columns: Seq<Seq<char>>, tokenizer: Option<Seq<char>> },
    DropFtsIndex { if_exists: bool, name: Seq<char> },
    CreateVectorIndex { if_not_exists: bool, name: Seq<char>, table: Seq<char>, column: Seq<char>, metric: Option<Seq<char>>, lists: Option<u32>, probes: Option<u32> },
    DropVectorIndex { if_exists: bool, name: Seq<char> },
    RebuildVectorIndex { name: Seq<char> },
    Insert { table: Seq<char>, columns: Option<Seq<Seq<char>>>, source: InsertSourceV, on_conflict: Option<OnConflictV>, returning: Option<Seq<SelectItemV>> },
    Select(SelectStmtV),
    AlterTableAddColumn { table: Seq<char>, column: ColumnAstV },
    AlterTableMoveColumn { table: Seq<char>, column: Seq<char>, pos: ColumnPosV },
    AlterTableReorderColumns { table: Seq<char>, order: Seq<Seq<char>> },
    AlterTableRenameColumn { table: Seq<char>, old: Seq<char>, new: Seq<char> },
    AlterTableDropColumn { table: Seq<char>, column: Seq<char> },
    Update { table: Seq<char>, sets: Seq<(Seq<char>, ExprV)>, where_clause: Option<ExprV>, returning: Option<Seq<SelectItemV>> },
    Delete { table: Seq<char>, where_clause: Option<ExprV>, returning: Option<Seq<SelectItemV>> },
    Begin,
    Commit,
    Rollback,
    Savepoint(Seq<char>),
    ReleaseSavepoint(Seq<char>),
    RollbackTo(Seq<char>),
}

pub open spec fn expr_v(x: Expr) -> ExprV
    decreases x,
{
    match x {
        Expr::Literal(a0) => ExprV::Literal(a0@),
        Expr::Column { table, name } => ExprV::Column {
            table: match table { Some(y) => Some(y@), None => None },
            name: name@,
        },
        Expr::Param(a0) => ExprV::Param(a0),
        Expr::Unary(a0, a1) => ExprV::Unary(a0, Box::new(expr_v(*a1))),
        Expr::Binary(a0, a1, a2) => ExprV::Binary(Box::new(expr_v(*a0)), a1, Box::new(expr_v(*a2))),
        Expr::IsNull { expr, negated } => ExprV::IsNull {
            expr: Box::new(expr_v(*expr)),
            negated,
        },
        Expr::Like { expr, pattern, negated } => ExprV::Like {
            expr: Box::new(expr_v(*expr)),
            pattern: Box::new(expr_v(*pattern)),
            negated,
        },
        Expr::Match { column, query, negated } => ExprV::Match {
            column: Box::new(expr_v(*column)),
            query: Box::new(expr_v(*query)),
            negated,
        },
        Expr::Aggregate { func, arg, distinct, sep } => ExprV::Aggregate {
            func,
            arg: match arg { Some(y) => Some(Box::new(expr_v(*y))), None => None },
            distinct,
            sep: match sep { Some(y) => Some(Box::new(expr_v(*y))), None => None },
        },
        Expr::Function { name, args } => ExprV::Function {
            name: name@,
            args: exprs_v(args@),
        },
        Expr::In { expr, list, negated } => ExprV::In {
            expr: Box::new(expr_v(*expr)),
            list: exprs_v(list@),
            negated,
        },
        Expr::Cast { expr, to } => ExprV::Cast {
            expr: Box::new(expr_v(*expr)),
            to,
        },
        Expr::Case { operand, whens, else_ } => ExprV::Case {
            operand: match operand { Some(y) => Some(Box::new(expr_v(*y))), None => None },
            whens: expr_expr_pairs_v(whens@),
            else_: match else_ { Some(y) => Some(Box::new(expr_v(*y))), None => None },
        },
        Expr::ScalarSubquery(a0) => ExprV::ScalarSubquery(Box::new(select_v(*a0))),
        Expr::Exists(a0) => ExprV::Exists(Box::new(select_v(*a0))),
        Expr::InSubquery { expr, query, negated } => ExprV::InSubquery {
            expr: Box::new(expr_v(*expr)),
            query: Box::new(select_v(*query)),
            negated,
        },
        Expr::Window { func, args, partition_by, order_by, frame } => ExprV::Window {
            func,
            args: exprs_v(args@),
            partition_by: exprs_v(partition_by@),
            order_by: order_bys_v(order_by@),
            frame,
        },
    }
}

impl View for Expr {
    type V = ExprV;

    open spec fn view(&self) -> ExprV {
        expr_v(*self)
    }
}

impl DeepView for Expr {
    type V = ExprV;

    open spec fn deep_view(&self) -> ExprV {
        expr_v(*self)
    }
}

impl Clone for Expr {
    fn clone(&self) -> (r: Self)
        ensures
            r@ == self@,
    {
        clone_expr(self)
    }
}

pub open spec fn order_by_v(x: OrderBy) -> OrderByV
    decreases x,
{
    OrderByV {
        expr: expr_v(x.expr),
        desc: x.desc,
    }
}

impl View for OrderBy {
    type V = OrderByV;

    open spec fn view(&self) -> OrderByV {
        order_by_v(*self)
    }
}

impl DeepView for OrderBy {
    type V = OrderByV;

    open spec fn deep_view(&self) -> OrderByV {
        order_by_v(*self)
    }
}

impl Clone for OrderBy {
    fn clone(&self) -> (r: Self)
        ensures
            r@ == self@,
    {
        clone_order_by(self)
    }
}

pub open spec fn select_item_v(x: SelectItem) -> SelectItemV
    decreases x,
{
    match x {
        SelectItem::Star => SelectItemV::Star,
        SelectItem::Expr { expr, alias } => SelectItemV::Expr {
            expr: expr_v(expr),
            alias: match alias { Some(y) => Some(y@), None => None },
        },
    }
}

impl View for SelectItem {
    type V = SelectItemV;

    open spec fn view(&self) -> SelectItemV {
        select_item_v(*self)
    }
}

impl DeepView for SelectItem {
    type V = SelectItemV;

    open spec fn deep_view(&self) -> SelectItemV {
        select_item_v(*self)
    }
}

impl Clone for SelectItem {
    fn clone(&self) -> (r: Self)
        ensures
            r@ == self@,
    {
        clone_select_item(self)
    }
}

pub open spec fn table_ref_v(x: TableRef) -> TableRefV
    decreases x,
{
    TableRefV {
        name: x.name@,
        alias: match x.alias { Some(y) => Some(y@), None => None },
        subquery: match x.subquery { Some(y) => Some(Box::new(select_v(*y))), None => None },
    }
}

impl View for TableRef {
    type V = TableRefV;

    open spec fn view(&self) -> TableRefV {
        table_ref_v(*self)
    }
}

impl DeepView for TableRef {
    type V = TableRefV;

    open spec fn deep_view(&self) -> TableRefV {
        table_ref_v(*self)
    }
}

impl Clone for TableRef {
    fn clone(&self) -> (r: Self)
        ensures
            r@ == self@,
    {
        clone_table_ref(self)
    }
}

pub open spec fn join_v(x: Join) -> JoinV
    decreases x,
{
    JoinV {
        kind: x.kind,
        table: table_ref_v(x.table),
        on: expr_v(x.on),
    }
}

impl View for Join {
    type V = JoinV;

    open spec fn view(&self) -> JoinV {
        join_v(*self)
    }
}

impl DeepView for Join {
    type V = JoinV;

    open spec fn deep_view(&self) -> JoinV {
        join_v(*self)
    }
}

impl Clone for Join {
    fn clone(&self) -> (r: Self)
        ensures
            r@ == self@,
    {
        clone_join(self)
    }
}

pub open spec fn compound_select_v(x: CompoundSelect) -> CompoundSelectV
    decreases x,
{
    CompoundSelectV {
        op: x.op,
        select: select_v(x.select),
    }
}

impl View for CompoundSelect {
    type V = CompoundSelectV;

    open spec fn view(&self) -> CompoundSelectV {
        compound_select_v(*self)
    }
}

impl DeepView for CompoundSelect {
    type V = CompoundSelectV;

    open spec fn deep_view(&self) -> CompoundSelectV {
        compound_select_v(*self)
    }
}

impl Clone for CompoundSelect {
    fn clone(&self) -> (r: Self)
        ensures
            r@ == self@,
    {
        clone_compound_select(self)
    }
}

pub open spec fn cte_v(x: Cte) -> CteV
    decreases x,
{
    CteV {
        name: x.name@,
        query: select_v(x.query),
    }
}

impl View for Cte {
    type V = CteV;

    open spec fn view(&self) -> CteV {
        cte_v(*self)
    }
}

impl DeepView for Cte {
    type V = CteV;

    open spec fn deep_view(&self) -> CteV {
        cte_v(*self)
    }
}

impl Clone for Cte {
    fn clone(&self) -> (r: Self)
        ensures
            r@ == self@,
    {
        clone_cte(self)
    }
}

pub open spec fn select_v(x: SelectStmt) -> SelectStmtV
    decreases x,
{
    SelectStmtV {
        distinct: x.distinct,
        projection: select_items_v(x.projection@),
        from: match x.from { Some(y) => Some(table_ref_v(y)), None => None },
        joins: joins_v(x.joins@),
        where_clause: match x.where_clause { Some(y) => Some(expr_v(y)), None => None },
        group_by: exprs_v(x.group_by@),
        having: match x.having { Some(y) => Some(expr_v(y)), None => None },
        order_by: order_bys_v(x.order_by@),
        limit: match x.limit { Some(y) => Some(expr_v(y)), None => None },
        offset: match x.offset { Some(y) => Some(expr_v(y)), None => None },
        as_of: x.as_of,
        compound: compound_selects_v(x.compound@),
        with: ctes_v(x.with@),
    }
}

impl View for SelectStmt {
    type V = SelectStmtV;

    open spec fn view(&self) -> SelectStmtV {
        select_v(*self)
    }
}

impl DeepView for SelectStmt {
    type V = SelectStmtV;

    open spec fn deep_view(&self) -> SelectStmtV {
        select_v(*self)
    }
}

impl Clone for SelectStmt {
    fn clone(&self) -> (r: Self)
        ensures
            r@ == self@,
    {
        clone_select(self)
    }
}

pub open spec fn column_ast_v(x: ColumnAst) -> ColumnAstV
    decreases x,
{
    ColumnAstV {
        name: x.name@,
        col_type: x.col_type,
        not_null: x.not_null,
        primary_key: x.primary_key,
        default: match x.default { Some(y) => Some(expr_v(y)), None => None },
        references: match x.references { Some(y) => Some(y@), None => None },
        unique: x.unique,
        check: match x.check { Some(y) => Some(y@), None => None },
    }
}

impl View for ColumnAst {
    type V = ColumnAstV;

    open spec fn view(&self) -> ColumnAstV {
        column_ast_v(*self)
    }
}

impl DeepView for ColumnAst {
    type V = ColumnAstV;

    open spec fn deep_view(&self) -> ColumnAstV {
        column_ast_v(*self)
    }
}

impl Clone for ColumnAst {
    fn clone(&self) -> (r: Self)
        ensures
            r@ == self@,
    {
        clone_column_ast(self)
    }
}

pub open spec fn insert_source_v(x: InsertSource) -> InsertSourceV
    decreases x,
{
    match x {
        InsertSource::Values(a0) => InsertSourceV::Values(exprss_v(a0@)),
        InsertSource::Select(a0) => InsertSourceV::Select(Box::new(select_v(*a0))),
    }
}

impl View for InsertSource {
    type V = InsertSourceV;

    open spec fn view(&self) -> InsertSourceV {
        insert_source_v(*self)
    }
}

impl DeepView for InsertSource {
    type V = InsertSourceV;

    open spec fn deep_view(&self) -> InsertSourceV {
        insert_source_v(*self)
    }
}

impl Clone for InsertSource {
    fn clone(&self) -> (r: Self)
        ensures
            r@ == self@,
    {
        clone_insert_source(self)
    }
}

pub open spec fn on_conflict_v(x: OnConflict) -> OnConflictV
    decreases x,
{
    match x {
        OnConflict::Nothing => OnConflictV::Nothing,
        OnConflict::Update { sets, where_clause } => OnConflictV::Update {
            sets: string_expr_pairs_v(sets@),
            where_clause: match where_clause { Some(y) => Some(expr_v(y)), None => None },
        },
    }
}

impl View for OnConflict {
    type V = OnConflictV;

    open spec fn view(&self) -> OnConflictV {
        on_conflict_v(*self)
    }
}

impl DeepView for OnConflict {
    type V = OnConflictV;

    open spec fn deep_view(&self) -> OnConflictV {
        on_conflict_v(*self)
    }
}

impl Clone for OnConflict {
    fn clone(&self) -> (r: Self)
        ensures
            r@ == self@,
    {
        clone_on_conflict(self)
    }
}

pub open spec fn stmt_v(x: Stmt) -> StmtV
    decreases x,
{
    match x {
        Stmt::CreateTable { if_not_exists, name, columns, foreign_keys, uniques, checks } => StmtV::CreateTable {
            if_not_exists,
            name: name@,
            columns: column_asts_v(columns@),
            foreign_keys: foreign_key_specs_v(foreign_keys@),
            uniques: stringss_v(uniques@),
            checks: strings_v(checks@),
        },
        Stmt::CreateTableAs { if_not_exists, name, query } => StmtV::CreateTableAs {
            if_not_exists,
            name: name@,
            query: Box::new(select_v(*query)),
        },
        Stmt::DropTable { if_exists, name } => StmtV::DropTable {
            if_exists,
            name: name@,
        },
        Stmt::CreateView { if_not_exists, name, select_sql } => StmtV::CreateView {
            if_not_exists,
            name: name@,
            select_sql: select_sql@,
        },
        Stmt::DropView { if_exists, name } => StmtV::DropView {
            if_exists,
            name: name@,
        },
        Stmt::CreateTrigger { if_not_exists, name, timing, event, for_each, table, body_sql } => StmtV::CreateTrigger {
            if_not_exists,
            name: name@,
            timing,
            event,
            for_each,
            table: table@,
            body_sql: body_sql@,
        },
        Stmt::DropTrigger { if_exists, name } => StmtV::DropTrigger {
            if_exists,
            name: name@,
        },
        Stmt::CreateIndex { if_not_exists, unique, name, table, columns } => StmtV::CreateIndex {
            if_not_exists,
            unique,
            name: name@,
            table: table@,
            columns: strings_v(columns@),
        },
        Stmt::DropIndex { if_exists, name } => StmtV::DropIndex {
            if_exists,
            name: name@,
        },
        Stmt::CreateFtsIndex { if_not_exists, name, table, columns, tokenizer } => StmtV::CreateFtsIndex {
            if_not_exists,
            name: name@,
            table: table@,
            columns: strings_v(columns@),
            tokenizer: match tokenizer { Some(y) => Some(y@), None => None },
        },
        Stmt::DropFtsIndex { if_exists, name } => StmtV::DropFtsIndex {
            if_exists,
            name: name@,
        },
        Stmt::CreateVectorIndex { if_not_exists, name, table, column, metric, lists, probes } => StmtV::CreateVectorIndex {
            if_not_exists,
            name: name@,
            table: table@,
            column: column@,
            metric: match metric { Some(y) => Some(y@), None => None },
            lists,
            probes,
        },
        Stmt::DropVectorIndex { if_exists, name } => StmtV::DropVectorIndex {
            if_exists,
            name: name@,
        },
        Stmt::RebuildVectorIndex { name } => StmtV::RebuildVectorIndex {
            name: name@,
        },
        Stmt::Insert { table, columns, source, on_conflict, returning } => StmtV::Insert {
            table: table@,
            columns: match columns { Some(y) => Some(strings_v(y@)), None => None },
            source: insert_source_v(source),
            on_conflict: match on_conflict { Some(y) => Some(on_conflict_v(y)), None => None },
            returning: match returning { Some(y) => Some(select_items_v(y@)), None => None },
        },
        Stmt::Select(a0) => StmtV::Select(select_v(a0)),
        Stmt::AlterTableAddColumn { table, column } => StmtV::AlterTableAddColumn {
            table: table@,
            column: column_ast_v(column),
        },
        Stmt::AlterTableMoveColumn { table, column, pos } => StmtV::AlterTableMoveColumn {
            table: table@,
            column: column@,
            pos: pos@,
        },
        Stmt::AlterTableReorderColumns { table, order } => StmtV::AlterTableReorderColumns {
            table: table@,
            order: strings_v(order@),
        },
        Stmt::AlterTableRenameColumn { table, old, new } => StmtV::AlterTableRenameColumn {
            table: table@,
            old: old@,
            new: new@,
        },
        Stmt::AlterTableDropColumn { table, column } => StmtV::AlterTableDropColumn {
            table: table@,
            column: column@,
        },
        Stmt::Update { table, sets, where_clause, returning } => StmtV::Update {
            table: table@,
            sets: string_expr_pairs_v(sets@),
            where_clause: match where_clause { Some(y) => Some(expr_v(y)), None => None },
            returning: match returning { Some(y) => Some(select_items_v(y@)), None => None },
        },
        Stmt::Delete { table, where_clause, returning } => StmtV::Delete {
            table: table@,
            where_clause: match where_clause { Some(y) => Some(expr_v(y)), None => None },
            returning: match returning { Some(y) => Some(select_items_v(y@)), None => None },
        },
        Stmt::Begin => StmtV::Begin,
        Stmt::Commit => StmtV::Commit,
        Stmt::Rollback => StmtV::Rollback,
        Stmt::Savepoint(a0) => StmtV::Savepoint(a0@),
        Stmt::ReleaseSavepoint(a0) => StmtV::ReleaseSavepoint(a0@),
        Stmt::RollbackTo(a0) => StmtV::RollbackTo(a0@),
    }
}

impl View for Stmt {
    type V = StmtV;

    open spec fn view(&self) -> StmtV {
        stmt_v(*self)
    }
}

impl DeepView for Stmt {
    type V = StmtV;

    open spec fn deep_view(&self) -> StmtV {
        stmt_v(*self)
    }
}

impl Clone for Stmt {
    fn clone(&self) -> (r: Self)
        ensures
            r@ == self@,
    {
        clone_stmt(self)
    }
}

pub open spec fn exprs_v(s: Seq<Expr>) -> Seq<ExprV>
    decreases s,
{
    Seq::new(
        s.len(),
        |i: int|
            if 0 <= i < s.len() {
                expr_v(s[i])
            } else {
                arbitrary()
            },
    )
}

pub open spec fn expr_expr_pairs_v(s: Seq<(Expr, Expr)>) -> Seq<(ExprV, ExprV)>
    decreases s,
{
    Seq::new(
        s.len(),
        |i: int|
            if 0 <= i < s.len() {
                (expr_v(s[i].0), expr_v(s[i].1))
            } else {
                arbitrary()
            },
    )
}

pub open spec fn order_bys_v(s: Seq<OrderBy>) -> Seq<OrderByV>
    decreases s,
{
    Seq::new(
        s.len(),
        |i: int|
            if 0 <= i < s.len() {
                order_by_v(s[i])
            } else {
                arbitrary()
            },
    )
}

pub open spec fn select_items_v(s: Seq<SelectItem>) -> Seq<SelectItemV>
    decreases s,
{
    Seq::new(
        s.len(),
        |i: int|
            if 0 <= i < s.len() {
                select_item_v(s[i])
            } else {
                arbitrary()
            },
    )
}

pub open spec fn joins_v(s: Seq<Join>) -> Seq<JoinV>
    decreases s,
{
    Seq::new(
        s.len(),
        |i: int|
            if 0 <= i < s.len() {
                join_v(s[i])
            } else {
                arbitrary()
            },
    )
}

pub open spec fn compound_selects_v(s: Seq<CompoundSelect>) -> Seq<CompoundSelectV>
    decreases s,
{
    Seq::new(
        s.len(),
        |i: int|
            if 0 <= i < s.len() {
                compound_select_v(s[i])
            } else {
                arbitrary()
            },
    )
}

pub open spec fn ctes_v(s: Seq<Cte>) -> Seq<CteV>
    decreases s,
{
    Seq::new(
        s.len(),
        |i: int|
            if 0 <= i < s.len() {
                cte_v(s[i])
            } else {
                arbitrary()
            },
    )
}

pub open spec fn exprss_v(s: Seq<Vec<Expr>>) -> Seq<Seq<ExprV>>
    decreases s,
{
    Seq::new(
        s.len(),
        |i: int|
            if 0 <= i < s.len() {
                exprs_v(s[i]@)
            } else {
                arbitrary()
            },
    )
}

pub open spec fn string_expr_pairs_v(s: Seq<(String, Expr)>) -> Seq<(Seq<char>, ExprV)>
    decreases s,
{
    Seq::new(
        s.len(),
        |i: int|
            if 0 <= i < s.len() {
                (s[i].0@, expr_v(s[i].1))
            } else {
                arbitrary()
            },
    )
}

pub open spec fn column_asts_v(s: Seq<ColumnAst>) -> Seq<ColumnAstV>
    decreases s,
{
    Seq::new(
        s.len(),
        |i: int|
            if 0 <= i < s.len() {
                column_ast_v(s[i])
            } else {
                arbitrary()
            },
    )
}

pub fn clone_expr(x: &Expr) -> (r: Expr)
    ensures
        r@ == x@,
    decreases x,
{
    match x {
        Expr::Literal(a0) => Expr::Literal(a0.clone()),
        Expr::Column { table, name } => Expr::Column {
            table: match table { Some(y) => Some(y.clone()), None => None },
            name: name.clone(),
        },
        Expr::Param(a0) => Expr::Param(*a0),
        Expr::Unary(a0, a1) => Expr::Unary(*a0, Box::new(clone_expr(a1))),
        Expr::Binary(a0, a1, a2) => Expr::Binary(Box::new(clone_expr(a0)), *a1, Box::new(clone_expr(a2))),
        Expr::IsNull { expr, negated } => Expr::IsNull {
            expr: Box::new(clone_expr(expr)),
            negated: *negated,
        },
        Expr::Like { expr, pattern, negated } => Expr::Like {
            expr: Box::new(clone_expr(expr)),
            pattern: Box::new(clone_expr(pattern)),
            negated: *negated,
        },
        Expr::Match { column, query, negated } => Expr::Match {
            column: Box::new(clone_expr(column)),
            query: Box::new(clone_expr(query)),
            negated: *negated,
        },
        Expr::Aggregate { func, arg, distinct, sep } => Expr::Aggregate {
            func: *func,
            arg: match arg { Some(y) => Some(Box::new(clone_expr(y))), None => None },
            distinct: *distinct,
            sep: match sep { Some(y) => Some(Box::new(clone_expr(y))), None => None },
        },
        Expr::Function { name, args } => Expr::Function {
            name: name.clone(),
            args: clone_exprs(args),
        },
        Expr::In { expr, list, negated } => Expr::In {
            expr: Box::new(clone_expr(expr)),
            list: clone_exprs(list),
            negated: *negated,
        },
        Expr::Cast { expr, to } => Expr::Cast {
            expr: Box::new(clone_expr(expr)),
            to: *to,
        },
        Expr::Case { operand, whens, else_ } => Expr::Case {
            operand: match operand { Some(y) => Some(Box::new(clone_expr(y))), None => None },
            whens: clone_expr_expr_pairs(whens),
            else_: match else_ { Some(y) => Some(Box::new(clone_expr(y))), None => None },
        },
        Expr::ScalarSubquery(a0) => Expr::ScalarSubquery(Box::new(clone_select(a0))),
        Expr::Exists(a0) => Expr::Exists(Box::new(clone_select(a0))),
        Expr::InSubquery { expr, query, negated } => Expr::InSubquery {
            expr: Box::new(clone_expr(expr)),
            query: Box::new(clone_select(query)),
            negated: *negated,
        },
        Expr::Window { func, args, partition_by, order_by, frame } => Expr::Window {
            func: *func,
            args: clone_exprs(args),
            partition_by: clone_exprs(partition_by),
            order_by: clone_order_bys(order_by),
            frame: *frame,
        },
    }
}

pub fn clone_order_by(x: &OrderBy) -> (r: OrderBy)
    ensures
        r@ == x@,
    decreases x,
{
    let r = OrderBy {
        expr: clone_expr(&x.expr),
        desc: x.desc,
    };
    r
}

pub fn clone_select_item(x: &SelectItem) -> (r: SelectItem)
    ensures
        r@ == x@,
    decreases x,
{
    match x {
        SelectItem::Star => SelectItem::Star,
        SelectItem::Expr { expr, alias } => SelectItem::Expr {
            expr: clone_expr(expr),
            alias: match alias { Some(y) => Some(y.clone()), None => None },
        },
    }
}

pub fn clone_table_ref(x: &TableRef) -> (r: TableRef)
    ensures
        r@ == x@,
    decreases x,
{
    let r = TableRef {
        name: x.name.clone(),
        alias: match &x.alias { Some(y) => Some(y.clone()), None => None },
        subquery: match &x.subquery { Some(y) => Some(Box::new(clone_select(y))), None => None },
    };
    r
}

pub fn clone_join(x: &Join) -> (r: Join)
    ensures
        r@ == x@,
    decreases x,
{
    let r = Join {
        kind: x.kind,
        table: clone_table_ref(&x.table),
        on: clone_expr(&x.on),
    };
    r
}

pub fn clone_compound_select(x: &CompoundSelect) -> (r: CompoundSelect)
    ensures
        r@ == x@,
    decreases x,
{
    let r = CompoundSelect {
        op: x.op,
        select: clone_select(&x.select),
    };
    r
}

pub fn clone_cte(x: &Cte) -> (r: Cte)
    ensures
        r@ == x@,
    decreases x,
{
    let r = Cte {
        name: x.name.clone(),
        query: clone_select(&x.query),
    };
    r
}

pub fn clone_select(x: &SelectStmt) -> (r: SelectStmt)
    ensures
        r@ == x@,
    decreases x,
{
    let r = SelectStmt {
        distinct: x.distinct,
        projection: clone_select_items(&x.projection),
        from: match &x.from { Some(y) => Some(clone_table_ref(y)), None => None },
        joins: clone_joins(&x.joins),
        where_clause: match &x.where_clause { Some(y) => Some(clone_expr(y)), None => None },
        group_by: clone_exprs(&x.group_by),
        having: match &x.having { Some(y) => Some(clone_expr(y)), None => None },
        order_by: clone_order_bys(&x.order_by),
        limit: match &x.limit { Some(y) => Some(clone_expr(y)), None => None },
        offset: match &x.offset { Some(y) => Some(clone_expr(y)), None => None },
        as_of: x.as_of,
        compound: clone_compound_selects(&x.compound),
        with: clone_ctes(&x.with),
    };
    r
}

pub fn clone_column_ast(x: &ColumnAst) -> (r: ColumnAst)
    ensures
        r@ == x@,
    decreases x,
{
    let r = ColumnAst {
        name: x.name.clone(),
        col_type: x.col_type,
        not_null: x.not_null,
        primary_key: x.primary_key,
        default: match &x.default { Some(y) => Some(clone_expr(y)), None => None },
        references: match &x.references { Some(y) => Some(y.clone()), None => None },
        unique: x.unique,
        check: match &x.check { Some(y) => Some(y.clone()), None => None },
    };
    r
}

pub fn clone_insert_source(x: &InsertSource) -> (r: InsertSource)
    ensures
        r@ == x@,
    decreases x,
{
    match x {
        InsertSource::Values(a0) => InsertSource::Values(clone_exprss(a0)),
        InsertSource::Select(a0) => InsertSource::Select(Box::new(clone_select(a0))),
    }
}

pub fn clone_on_conflict(x: &OnConflict) -> (r: OnConflict)
    ensures
        r@ == x@,
    decreases x,
{
    match x {
        OnConflict::Nothing => OnConflict::Nothing,
        OnConflict::Update { sets, where_clause } => OnConflict::Update {
            sets: clone_string_expr_pairs(sets),
            where_clause: match where_clause { Some(y) => Some(clone_expr(y)), None => None },
        },
    }
}

pub fn clone_stmt(x: &Stmt) -> (r: Stmt)
    ensures
        r@ == x@,
    decreases x,
{
    match x {
        Stmt::CreateTable { if_not_exists, name, columns, foreign_keys, uniques, checks } => Stmt::CreateTable {
            if_not_exists: *if_not_exists,
            name: name.clone(),
            columns: clone_column_asts(columns),
            foreign_keys: clone_foreign_key_specs(foreign_keys),
            uniques: clone_stringss(uniques),
            checks: clone_strings(checks),
        },
        Stmt::CreateTableAs { if_not_exists, name, query } => Stmt::CreateTableAs {
            if_not_exists: *if_not_exists,
            name: name.clone(),
            query: Box::new(clone_select(query)),
        },
        Stmt::DropTable { if_exists, name } => Stmt::DropTable {
            if_exists: *if_exists,
            name: name.clone(),
        },
        Stmt::CreateView { if_not_exists, name, select_sql } => Stmt::CreateView {
            if_not_exists: *if_not_exists,
            name: name.clone(),
            select_sql: select_sql.clone(),
        },
        Stmt::DropView { if_exists, name } => Stmt::DropView {
            if_exists: *if_exists,
            name: name.clone(),
        },
        Stmt::CreateTrigger { if_not_exists, name, timing, event, for_each, table, body_sql } => Stmt::CreateTrigger {
            if_not_exists: *if_not_exists,
            name: name.clone(),
            timing: *timing,
            event: *event,
            for_each: *for_each,
            table: table.clone(),
            body_sql: body_sql.clone(),
        },
        Stmt::DropTrigger { if_exists, name } => Stmt::DropTrigger {
            if_exists: *if_exists,
            name: name.clone(),
        },
        Stmt::CreateIndex { if_not_exists, unique, name, table, columns } => Stmt::CreateIndex {
            if_not_exists: *if_not_exists,
            unique: *unique,
            name: name.clone(),
            table: table.clone(),
            columns: clone_strings(columns),
        },
        Stmt::DropIndex { if_exists, name } => Stmt::DropIndex {
            if_exists: *if_exists,
            name: name.clone(),
        },
        Stmt::CreateFtsIndex { if_not_exists, name, table, columns, tokenizer } => Stmt::CreateFtsIndex {
            if_not_exists: *if_not_exists,
            name: name.clone(),
            table: table.clone(),
            columns: clone_strings(columns),
            tokenizer: match tokenizer { Some(y) => Some(y.clone()), None => None },
        },
        Stmt::DropFtsIndex { if_exists, name } => Stmt::DropFtsIndex {
            if_exists: *if_exists,
            name: name.clone(),
        },
        Stmt::CreateVectorIndex { if_not_exists, name, table, column, metric, lists, probes } => Stmt::CreateVectorIndex {
            if_not_exists: *if_not_exists,
            name: name.clone(),
            table: table.clone(),
            column: column.clone(),
            metric: match metric { Some(y) => Some(y.clone()), None => None },
            lists: *lists,
            probes: *probes,
        },
        Stmt::DropVectorIndex { if_exists, name } => Stmt::DropVectorIndex {
            if_exists: *if_exists,
            name: name.clone(),
        },
        Stmt::RebuildVectorIndex { name } => Stmt::RebuildVectorIndex {
            name: name.clone(),
        },
        Stmt::Insert { table, columns, source, on_conflict, returning } => Stmt::Insert {
            table: table.clone(),
            columns: match columns { Some(y) => Some(clone_strings(y)), None => None },
            source: clone_insert_source(source),
            on_conflict: match on_conflict { Some(y) => Some(clone_on_conflict(y)), None => None },
            returning: match returning { Some(y) => Some(clone_select_items(y)), None => None },
        },
        Stmt::Select(a0) => Stmt::Select(clone_select(a0)),
        Stmt::AlterTableAddColumn { table, column } => Stmt::AlterTableAddColumn {
            table: table.clone(),
            column: clone_column_ast(column),
        },
        Stmt::AlterTableMoveColumn { table, column, pos } => Stmt::AlterTableMoveColumn {
            table: table.clone(),
            column: column.clone(),
            pos: pos.clone(),
        },
        Stmt::AlterTableReorderColumns { table, order } => Stmt::AlterTableReorderColumns {
            table: table.clone(),
            order: clone_strings(order),
        },
        Stmt::AlterTableRenameColumn { table, old, new } => Stmt::AlterTableRenameColumn {
            table: table.clone(),
            old: old.clone(),
            new: new.clone(),
        },
        Stmt::AlterTableDropColumn { table, column } => Stmt::AlterTableDropColumn {
            table: table.clone(),
            column: column.clone(),
        },
        Stmt::Update { table, sets, where_clause, returning } => Stmt::Update {
            table: table.clone(),
            sets: clone_string_expr_pairs(sets),
            where_clause: match where_clause { Some(y) => Some(clone_expr(y)), None => None },
            returning: match returning { Some(y) => Some(clone_select_items(y)), None => None },
        },
        Stmt::Delete { table, where_clause, returning } => Stmt::Delete {
            table: table.clone(),
            where_clause: match where_clause { Some(y) => Some(clone_expr(y)), None => None },
            returning: match returning { Some(y) => Some(clone_select_items(y)), None => None },
        },
        Stmt::Begin => Stmt::Begin,
        Stmt::Commit => Stmt::Commit,
        Stmt::Rollback => Stmt::Rollback,
        Stmt::Savepoint(a0) => Stmt::Savepoint(a0.clone()),
        Stmt::ReleaseSavepoint(a0) => Stmt::ReleaseSavepoint(a0.clone()),
        Stmt::RollbackTo(a0) => Stmt::RollbackTo(a0.clone()),
    }
}

pub fn clone_exprs(v: &Vec<Expr>) -> (r: Vec<Expr>)
    ensures
        exprs_v(r@) == exprs_v(v@),
    decreases v,
{
    let mut out: Vec<Expr> = Vec::new();
    let n: usize = v.len();
    for i in 0..n
        invariant
            n == v@.len(),
            out@.len() == i,
            forall|k: int| 0 <= k < i ==> expr_v(#[trigger] out@[k]) == expr_v(v@[k]),
    {
        out.push(clone_expr(&v[i]));
    }
    assert(exprs_v(out@) =~= exprs_v(v@));
    out
}

pub fn clone_expr_expr_pairs(v: &Vec<(Expr, Expr)>) -> (r: Vec<(Expr, Expr)>)
    ensures
        expr_expr_pairs_v(r@) == expr_expr_pairs_v(v@),
    decreases v,
{
    let mut out: Vec<(Expr, Expr)> = Vec::new();
    let n: usize = v.len();
    for i in 0..n
        invariant
            n == v@.len(),
            out@.len() == i,
            forall|k: int| 0 <= k < i ==> (expr_v((#[trigger] out@[k]).0), expr_v((#[trigger] out@[k]).1)) == (expr_v(v@[k].0), expr_v(v@[k].1)),
    {
        assert(decreases_to!(v@[i as int] => v@[i as int].0));
        assert(decreases_to!(v@[i as int] => v@[i as int].1));
        out.push((clone_expr(&v[i].0), clone_expr(&v[i].1)));
    }
    assert(expr_expr_pairs_v(out@) =~= expr_expr_pairs_v(v@));
    out
}

pub fn clone_order_bys(v: &Vec<OrderBy>) -> (r: Vec<OrderBy>)
    ensures
        order_bys_v(r@) == order_bys_v(v@),
    decreases v,
{
    let mut out: Vec<OrderBy> = Vec::new();
    let n: usize = v.len();
    for i in 0..n
        invariant
            n == v@.len(),
            out@.len() == i,
            forall|k: int| 0 <= k < i ==> order_by_v(#[trigger] out@[k]) == order_by_v(v@[k]),
    {
        out.push(clone_order_by(&v[i]));
    }
    assert(order_bys_v(out@) =~= order_bys_v(v@));
    out
}

pub fn clone_select_items(v: &Vec<SelectItem>) -> (r: Vec<SelectItem>)
    ensures
        select_items_v(r@) == select_items_v(v@),
    decreases v,
{
    let mut out: Vec<SelectItem> = Vec::new();
    let n: usize = v.len();
    for i in 0..n
        invariant
            n == v@.len(),
            out@.len() == i,
            forall|k: int| 0 <= k < i ==> select_item_v(#[trigger] out@[k]) == select_item_v(v@[k]),
    {
        out.push(clone_select_item(&v[i]));
    }
    assert(select_items_v(out@) =~= select_items_v(v@));
    out
}

pub fn clone_joins(v: &Vec<Join>) -> (r: Vec<Join>)
    ensures
        joins_v(r@) == joins_v(v@),
    decreases v,
{
    let mut out: Vec<Join> = Vec::new();
    let n: usize = v.len();
    for i in 0..n
        invariant
            n == v@.len(),
            out@.len() == i,
            forall|k: int| 0 <= k < i ==> join_v(#[trigger] out@[k]) == join_v(v@[k]),
    {
        out.push(clone_join(&v[i]));
    }
    assert(joins_v(out@) =~= joins_v(v@));
    out
}

pub fn clone_compound_selects(v: &Vec<CompoundSelect>) -> (r: Vec<CompoundSelect>)
    ensures
        compound_selects_v(r@) == compound_selects_v(v@),
    decreases v,
{
    let mut out: Vec<CompoundSelect> = Vec::new();
    let n: usize = v.len();
    for i in 0..n
        invariant
            n == v@.len(),
            out@.len() == i,
            forall|k: int| 0 <= k < i ==> compound_select_v(#[trigger] out@[k]) == compound_select_v(v@[k]),
    {
        out.push(clone_compound_select(&v[i]));
    }
    assert(compound_selects_v(out@) =~= compound_selects_v(v@));
    out
}

pub fn clone_ctes(v: &Vec<Cte>) -> (r: Vec<Cte>)
    ensures
        ctes_v(r@) == ctes_v(v@),
    decreases v,
{
    let mut out: Vec<Cte> = Vec::new();
    let n: usize = v.len();
    for i in 0..n
        invariant
            n == v@.len(),
            out@.len() == i,
            forall|k: int| 0 <= k < i ==> cte_v(#[trigger] out@[k]) == cte_v(v@[k]),
    {
        out.push(clone_cte(&v[i]));
    }
    assert(ctes_v(out@) =~= ctes_v(v@));
    out
}

pub fn clone_exprss(v: &Vec<Vec<Expr>>) -> (r: Vec<Vec<Expr>>)
    ensures
        exprss_v(r@) == exprss_v(v@),
    decreases v,
{
    let mut out: Vec<Vec<Expr>> = Vec::new();
    let n: usize = v.len();
    for i in 0..n
        invariant
            n == v@.len(),
            out@.len() == i,
            forall|k: int| 0 <= k < i ==> exprs_v(#[trigger] out@[k]@) == exprs_v(v@[k]@),
    {
        out.push(clone_exprs(&v[i]));
    }
    assert(exprss_v(out@) =~= exprss_v(v@));
    out
}

pub fn clone_string_expr_pairs(v: &Vec<(String, Expr)>) -> (r: Vec<(String, Expr)>)
    ensures
        string_expr_pairs_v(r@) == string_expr_pairs_v(v@),
    decreases v,
{
    let mut out: Vec<(String, Expr)> = Vec::new();
    let n: usize = v.len();
    for i in 0..n
        invariant
            n == v@.len(),
            out@.len() == i,
            forall|k: int| 0 <= k < i ==> ((#[trigger] out@[k]).0@, expr_v((#[trigger] out@[k]).1)) == (v@[k].0@, expr_v(v@[k].1)),
    {
        assert(decreases_to!(v@[i as int] => v@[i as int].0));
        assert(decreases_to!(v@[i as int] => v@[i as int].1));
        out.push((v[i].0.clone(), clone_expr(&v[i].1)));
    }
    assert(string_expr_pairs_v(out@) =~= string_expr_pairs_v(v@));
    out
}

pub fn clone_column_asts(v: &Vec<ColumnAst>) -> (r: Vec<ColumnAst>)
    ensures
        column_asts_v(r@) == column_asts_v(v@),
    decreases v,
{
    let mut out: Vec<ColumnAst> = Vec::new();
    let n: usize = v.len();
    for i in 0..n
        invariant
            n == v@.len(),
            out@.len() == i,
            forall|k: int| 0 <= k < i ==> column_ast_v(#[trigger] out@[k]) == column_ast_v(v@[k]),
    {
        out.push(clone_column_ast(&v[i]));
    }
    assert(column_asts_v(out@) =~= column_asts_v(v@));
    out
}

/// Whether two values are the same in every part.
pub fn expr_same(a: &Expr, b: &Expr) -> (r: bool)
    ensures
        r == (a@ == b@),
    decreases a,
{
    match (a, b) {
        (Expr::Literal(x0), Expr::Literal(y0)) => value_same(x0, y0),
        (Expr::Column { table: x0, name: x1 }, Expr::Column { table: y0, name: y1 }) => (match (x0, y0) { (Some(x), Some(y)) => *x == *y, (None, None) => true, _ => false }) && *x1 == *y1,
        (Expr::Param(x0), Expr::Param(y0)) => *x0 == *y0,
        (Expr::Unary(x0, x1), Expr::Unary(y0, y1)) => *x0 == *y0 && expr_same(x1, y1),
        (Expr::Binary(x0, x1, x2), Expr::Binary(y0, y1, y2)) => expr_same(x0, y0) && *x1 == *y1 && expr_same(x2, y2),
        (Expr::IsNull { expr: x0, negated: x1 }, Expr::IsNull { expr: y0, negated: y1 }) => expr_same(x0, y0) && *x1 == *y1,
        (Expr::Like { expr: x0, pattern: x1, negated: x2 }, Expr::Like { expr: y0, pattern: y1, negated: y2 }) => expr_same(x0, y0) && expr_same(x1, y1) && *x2 == *y2,
        (Expr::Match { column: x0, query: x1, negated: x2 }, Expr::Match { column: y0, query: y1, negated: y2 }) => expr_same(x0, y0) && expr_same(x1, y1) && *x2 == *y2,
        (Expr::Aggregate { func: x0, arg: x1, distinct: x2, sep: x3 }, Expr::Aggregate { func: y0, arg: y1, distinct: y2, sep: y3 }) => *x0 == *y0 && (match (x1, y1) { (Some(x), Some(y)) => expr_same(x, y), (None, None) => true, _ => false }) && *x2 == *y2 && (match (x3, y3) { (Some(x), Some(y)) => expr_same(x, y), (None, None) => true, _ => false }),
        (Expr::Function { name: x0, args: x1 }, Expr::Function { name: y0, args: y1 }) => *x0 == *y0 && exprs_same(x1, y1),
        (Expr::In { expr: x0, list: x1, negated: x2 }, Expr::In { expr: y0, list: y1, negated: y2 }) => expr_same(x0, y0) && exprs_same(x1, y1) && *x2 == *y2,
        (Expr::Cast { expr: x0, to: x1 }, Expr::Cast { expr: y0, to: y1 }) => expr_same(x0, y0) && *x1 == *y1,
        (Expr::Case { operand: x0, whens: x1, else_: x2 }, Expr::Case { operand: y0, whens: y1, else_: y2 }) => (match (x0, y0) { (Some(x), Some(y)) => expr_same(x, y), (None, None) => true, _ => false }) && expr_expr_pairs_same(x1, y1) && (match (x2, y2) { (Some(x), Some(y)) => expr_same(x, y), (None, None) => true, _ => false }),
        (Expr::ScalarSubquery(x0), Expr::ScalarSubquery(y0)) => select_same(x0, y0),
        (Expr::Exists(x0), Expr::Exists(y0)) => select_same(x0, y0),
        (Expr::InSubquery { expr: x0, query: x1, negated: x2 }, Expr::InSubquery { expr: y0, query: y1, negated: y2 }) => expr_same(x0, y0) && select_same(x1, y1) && *x2 == *y2,
        (Expr::Window { func: x0, args: x1, partition_by: x2, order_by: x3, frame: x4 }, Expr::Window { func: y0, args: y1, partition_by: y2, order_by: y3, frame: y4 }) => *x0 == *y0 && exprs_same(x1, y1) && exprs_same(x2, y2) && order_bys_same(x3, y3) && (match (x4, y4) { (Some(x), Some(y)) => *x == *y, (None, None) => true, _ => false }),
        _ => false,
    }
}

/// Whether two values are the same in every part.
pub fn order_by_same(a: &OrderBy, b: &OrderBy) -> (r: bool)
    ensures
        r == (a@ == b@),
    decreases a,
{
    expr_same(&a.expr, &b.expr)
        && a.desc == b.desc
}

/// Whether two values are the same in every part.
pub fn select_item_same(a: &SelectItem, b: &SelectItem) -> (r: bool)
    ensures
        r == (a@ == b@),
    decreases a,
{
    match (a, b) {
        (SelectItem::Star, SelectItem::Star) => true,
        (SelectItem::Expr { expr: x0, alias: x1 }, SelectItem::Expr { expr: y0, alias: y1 }) => expr_same(x0, y0) && (match (x1, y1) { (Some(x), Some(y)) => *x == *y, (None, None) => true, _ => false }),
        _ => false,
    }
}

/// Whether two values are the same in every part.
pub fn table_ref_same(a: &TableRef, b: &TableRef) -> (r: bool)
    ensures
        r == (a@ == b@),
    decreases a,
{
    a.name == b.name
        && (match (&a.alias, &b.alias) { (Some(x), Some(y)) => *x == *y, (None, None) => true, _ => false })
        && (match (&a.subquery, &b.subquery) { (Some(x), Some(y)) => select_same(x, y), (None, None) => true, _ => false })
}

/// Whether two values are the same in every part.
pub fn join_same(a: &Join, b: &Join) -> (r: bool)
    ensures
        r == (a@ == b@),
    decreases a,
{
    a.kind == b.kind
        && table_ref_same(&a.table, &b.table)
        && expr_same(&a.on, &b.on)
}

/// Whether two values are the same in every part.
pub fn compound_select_same(a: &CompoundSelect, b: &CompoundSelect) -> (r: bool)
    ensures
        r == (a@ == b@),
    decreases a,
{
    a.op == b.op
        && select_same(&a.select, &b.select)
}

/// Whether two values are the same in every part.
pub fn cte_same(a: &Cte, b: &Cte) -> (r: bool)
    ensures
        r == (a@ == b@),
    decreases a,
{
    a.name == b.name
        && select_same(&a.query, &b.query)
}

/// Whether two values are the same in every part.
pub fn select_same(a: &SelectStmt, b: &SelectStmt) -> (r: bool)
    ensures
        r == (a@ == b@),
    decreases a,
{
    a.distinct == b.distinct
        && select_items_same(&a.projection, &b.projection)
        && (match (&a.from, &b.from) { (Some(x), Some(y)) => table_ref_same(x, y), (None, None) => true, _ => false })
        && joins_same(&a.joins, &b.joins)
        && (match (&a.where_clause, &b.where_clause) { (Some(x), Some(y)) => expr_same(x, y), (None, None) => true, _ => false })
        && exprs_same(&a.group_by, &b.group_by)
        && (match (&a.having, &b.having) { (Some(x), Some(y)) => expr_same(x, y), (None, None) => true, _ => false })
        && order_bys_same(&a.order_by, &b.order_by)
        && (match (&a.limit, &b.limit) { (Some(x), Some(y)) => expr_same(x, y), (None, None) => true, _ => false })
        && (match (&a.offset, &b.offset) { (Some(x), Some(y)) => expr_same(x, y), (None, None) => true, _ => false })
        && (match (&a.as_of, &b.as_of) { (Some(x), Some(y)) => *x == *y, (None, None) => true, _ => false })
        && compound_selects_same(&a.compound, &b.compound)
        && ctes_same(&a.with, &b.with)
}

pub fn exprs_same(a: &Vec<Expr>, b: &Vec<Expr>) -> (r: bool)
    ensures
        r == (exprs_v(a@) == exprs_v(b@)),
    decreases a,
{
    if a.len() != b.len() {
        assert(exprs_v(a@).len() != exprs_v(b@).len());
        return false;
    }
    let n: usize = a.len();
    for i in 0..n
        invariant
            n == a@.len() == b@.len(),
            forall|k: int| 0 <= k < i ==> exprs_v(a@)[k] == exprs_v(b@)[k],
    {
        let ghost (p, q) = (exprs_v(a@)[i as int], exprs_v(b@)[i as int]);
        if !(expr_same(&a[i], &b[i])) {
            assert(p != q);
            return false;
        }
    }
    assert(exprs_v(a@) =~= exprs_v(b@));
    true
}

pub fn expr_expr_pairs_same(a: &Vec<(Expr, Expr)>, b: &Vec<(Expr, Expr)>) -> (r: bool)
    ensures
        r == (expr_expr_pairs_v(a@) == expr_expr_pairs_v(b@)),
    decreases a,
{
    if a.len() != b.len() {
        assert(expr_expr_pairs_v(a@).len() != expr_expr_pairs_v(b@).len());
        return false;
    }
    let n: usize = a.len();
    for i in 0..n
        invariant
            n == a@.len() == b@.len(),
            forall|k: int| 0 <= k < i ==> expr_expr_pairs_v(a@)[k] == expr_expr_pairs_v(b@)[k],
    {
        let ghost (p, q) = (expr_expr_pairs_v(a@)[i as int], expr_expr_pairs_v(b@)[i as int]);
        assert(decreases_to!(a@[i as int] => a@[i as int].0));
        assert(decreases_to!(a@[i as int] => a@[i as int].1));
        if !(expr_same(&a[i].0, &b[i].0) && expr_same(&a[i].1, &b[i].1)) {
            assert(p != q);
            return false;
        }
    }
    assert(expr_expr_pairs_v(a@) =~= expr_expr_pairs_v(b@));
    true
}

pub fn order_bys_same(a: &Vec<OrderBy>, b: &Vec<OrderBy>) -> (r: bool)
    ensures
        r == (order_bys_v(a@) == order_bys_v(b@)),
    decreases a,
{
    if a.len() != b.len() {
        assert(order_bys_v(a@).len() != order_bys_v(b@).len());
        return false;
    }
    let n: usize = a.len();
    for i in 0..n
        invariant
            n == a@.len() == b@.len(),
            forall|k: int| 0 <= k < i ==> order_bys_v(a@)[k] == order_bys_v(b@)[k],
    {
        let ghost (p, q) = (order_bys_v(a@)[i as int], order_bys_v(b@)[i as int]);
        if !(order_by_same(&a[i], &b[i])) {
            assert(p != q);
            return false;
        }
    }
    assert(order_bys_v(a@) =~= order_bys_v(b@));
    true
}

pub fn select_items_same(a: &Vec<SelectItem>, b: &Vec<SelectItem>) -> (r: bool)
    ensures
        r == (select_items_v(a@) == select_items_v(b@)),
    decreases a,
{
    if a.len() != b.len() {
        assert(select_items_v(a@).len() != select_items_v(b@).len());
        return false;
    }
    let n: usize = a.len();
    for i in 0..n
        invariant
            n == a@.len() == b@.len(),
            forall|k: int| 0 <= k < i ==> select_items_v(a@)[k] == select_items_v(b@)[k],
    {
        let ghost (p, q) = (select_items_v(a@)[i as int], select_items_v(b@)[i as int]);
        if !(select_item_same(&a[i], &b[i])) {
            assert(p != q);
            return false;
        }
    }
    assert(select_items_v(a@) =~= select_items_v(b@));
    true
}

pub fn joins_same(a: &Vec<Join>, b: &Vec<Join>) -> (r: bool)
    ensures
        r == (joins_v(a@) == joins_v(b@)),
    decreases a,
{
    if a.len() != b.len() {
        assert(joins_v(a@).len() != joins_v(b@).len());
        return false;
    }
    let n: usize = a.len();
    for i in 0..n
        invariant
            n == a@.len() == b@.len(),
            forall|k: int| 0 <= k < i ==> joins_v(a@)[k] == joins_v(b@)[k],
    {
        let ghost (p, q) = (joins_v(a@)[i as int], joins_v(b@)[i as int]);
        if !(join_same(&a[i], &b[i])) {
            assert(p != q);
            return false;
        }
    }
    assert(joins_v(a@) =~= joins_v(b@));
    true
}

pub fn compound_selects_same(a: &Vec<CompoundSelect>, b: &Vec<CompoundSelect>) -> (r: bool)
    ensures
        r == (compound_selects_v(a@) == compound_selects_v(b@)),
    decreases a,
{
    if a.len() != b.len() {
        assert(compound_selects_v(a@).len() != compound_selects_v(b@).len());
        return false;
    }
    let n: usize = a.len();
    for i in 0..n
        invariant
            n == a@.len() == b@.len(),
            forall|k: int| 0 <= k < i ==> compound_selects_v(a@)[k] == compound_selects_v(b@)[k],
    {
        let ghost (p, q) = (compound_selects_v(a@)[i as int], compound_selects_v(b@)[i as int]);
        if !(compound_select_same(&a[i], &b[i])) {
            assert(p != q);
            return false;
        }
    }
    assert(compound_selects_v(a@) =~= compound_selects_v(b@));
    true
}

pub fn ctes_same(a: &Vec<Cte>, b: &Vec<Cte>) -> (r: bool)
    ensures
        r == (ctes_v(a@) == ctes_v(b@)),
    decreases a,
{
    if a.len() != b.len() {
        assert(ctes_v(a@).len() != ctes_v(b@).len());
        return false;
    }
    let n: usize = a.len();
    for i in 0..n
        invariant
            n == a@.len() == b@.len(),
            forall|k: int| 0 <= k < i ==> ctes_v(a@)[k] == ctes_v(b@)[k],
    {
        let ghost (p, q) = (ctes_v(a@)[i as int], ctes_v(b@)[i as int]);
        if !(cte_same(&a[i], &b[i])) {
            assert(p != q);
            return false;
        }
    }
    assert(ctes_v(a@) =~= ctes_v(b@));
    true
}


} // verus!
