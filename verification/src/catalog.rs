//! Catalog types that statements and queries refer to.
use vstd::prelude::*;

use crate::record::{Value, ValueV};

verus! {

/// Declared type of a column.
#[derive(Clone, Copy, Debug, PartialEq, Eq, Structural)]
pub enum ColType {
    Integer,
    Real,
    Text,
    Blob,
    Boolean,
}

/// What a foreign key does when its parent changes.
#[derive(Clone, Copy, Debug, PartialEq, Eq, Structural)]
pub enum FkAction {
    Cascade,
    Restrict,
    SetNull,
}

/// What fires a trigger.
#[derive(Clone, Copy, Debug, PartialEq, Eq, Structural)]
pub enum TriggerEvent {
    Insert,
    Update,
    Delete,
}

/// Whether a trigger fires per row or per statement.
#[derive(Clone, Copy, Debug, PartialEq, Eq, Structural)]
pub enum TriggerForEach {
    Row,
    Statement,
}

/// When a trigger fires.
#[derive(Clone, Copy, Debug, PartialEq, Eq, Structural)]
pub enum TriggerTiming {
    Before,
    After,
    InsteadOf,
}

/// Distance of a vector index.
#[derive(Clone, Copy, Debug, PartialEq, Eq, Structural)]
pub enum VectorMetric {
    Cosine,
    L2,
}

/// A foreign key written beside its column; without a parent column, the primary
/// key of the parent.
#[derive(Debug, PartialEq)]
pub struct ColumnFk {
    pub parent: String,
    pub parent_column: Option<String>,
    pub on_delete: FkAction,
    pub on_update: FkAction,
}

/// Where a column moves to.
#[derive(Debug, PartialEq)]
pub enum ColumnPos {
    First,
    Before(String),
    After(String),
}

/// A foreign key of a table.
#[derive(Debug, PartialEq)]
pub struct ForeignKeySpec {
    pub columns: Vec<String>,
    pub parent: String,
    pub parent_columns: Vec<String>,
    pub on_delete: FkAction,
    pub on_update: FkAction,
}

/// A column of a table.
#[derive(Debug, PartialEq)]
pub struct ColumnDef {
    pub name: String,
    pub col_type: ColType,
    pub not_null: bool,
    pub default: Option<Value>,
    pub dropped: bool,
}

/// A secondary index over columns given by position.
#[derive(Debug, PartialEq)]
pub struct IndexDef {
    pub name: String,
    pub columns: Vec<usize>,
    pub unique: bool,
}

/// A full-text index over columns given by position.
#[derive(Debug, PartialEq)]
pub struct FtsIndexDef {
    pub fts_id: u32,
    pub columns: Vec<usize>,
    pub tokenizer: String,
}

/// A vector index over a column.
#[derive(Debug, PartialEq)]
pub struct VectorIndexDef {
    pub column: usize,
    pub metric: VectorMetric,
    pub nprobe: u16,
}

/// A table as the catalog describes it. `logical_order` lists the physical column
/// positions in the order of presentation; `rowid_alias` is the column that stands for
/// the row identifier.
#[derive(Debug, PartialEq)]
pub struct TableDef {
    pub name: String,
    pub table_id: u32,
    pub rowid_alias: Option<usize>,
    pub columns: Vec<ColumnDef>,
    pub indexes: Vec<IndexDef>,
    pub fts_indexes: Vec<FtsIndexDef>,
    pub vector_indexes: Vec<VectorIndexDef>,
    pub logical_order: Vec<usize>,
    pub foreign_keys: Vec<ForeignKeySpec>,
    pub checks: Vec<String>,
}

/// A column to be created.
#[derive(Debug, PartialEq)]
pub struct ColumnSpec {
    pub name: String,
    pub col_type: ColType,
    pub not_null: bool,
    pub primary_key: bool,
    pub default: Option<Value>,
    pub references: Option<ColumnFk>,
    pub unique: bool,
    pub check: Option<String>,
}

/// A table to be created.
#[derive(Debug, PartialEq)]
pub struct TableSpec {
    pub name: String,
    pub columns: Vec<ColumnSpec>,
    pub foreign_keys: Vec<ForeignKeySpec>,
    pub uniques: Vec<Vec<String>>,
    pub checks: Vec<String>,
}

/// A trigger.
#[derive(Debug, PartialEq)]
pub struct TriggerDef {
    pub name: String,
    pub timing: TriggerTiming,
    pub event: TriggerEvent,
    pub for_each: TriggerForEach,
    pub table: String,
    pub body: String,
}

/// [`ColumnFk`] with texts and lists as sequences.
#[verifier::ext_equal]
pub struct ColumnFkV {
    pub parent: Seq<char>,
    pub parent_column: Option<Seq<char>>,
    pub on_delete: FkAction,
    pub on_update: FkAction,
}

/// [`ColumnPos`] with texts and lists as sequences.
#[verifier::ext_equal]
pub enum ColumnPosV {
    First,
    Before(Seq<char>),
    After(Seq<char>),
}

/// [`ForeignKeySpec`] with texts and lists as sequences.
#[verifier::ext_equal]
pub struct ForeignKeySpecV {
    pub columns: Seq<Seq<char>>,
    pub parent: Seq<char>,
    pub parent_columns: Seq<Seq<char>>,
    pub on_delete: FkAction,
    pub on_update: FkAction,
}

/// [`ColumnDef`] with texts and lists as sequences.
#[verifier::ext_equal]
pub struct ColumnDefV {
    pub name: Seq<char>,
    pub col_type: ColType,
    pub not_null: bool,
    pub default: Option<ValueV>,
    pub dropped: bool,
}

/// [`IndexDef`] with texts and lists as sequences.
#[verifier::ext_equal]
pub struct IndexDefV {
    pub name: Seq<char>,
    pub columns: Seq<usize>,
    pub unique: bool,
}

/// [`FtsIndexDef`] with texts and lists as sequences.
#[verifier::ext_equal]
pub struct FtsIndexDefV {
    pub fts_id: u32,
    pub columns: Seq<usize>,
    pub tokenizer: Seq<char>,
}

/// [`VectorIndexDef`] with texts and lists as sequences.
#[verifier::ext_equal]
pub struct VectorIndexDefV {
    pub column: usize,
    pub metric: VectorMetric,
    pub nprobe: u16,
}

/// [`TableDef`] with texts and lists as sequences.
#[verifier::ext_equal]
pub struct TableDefV {
    pub name: Seq<char>,
    pub table_id: u32,
    pub rowid_alias: Option<usize>,
    pub columns: Seq<ColumnDefV>,
    pub indexes: Seq<IndexDefV>,
    pub fts_indexes: Seq<FtsIndexDefV>,
    pub vector_indexes: Seq<VectorIndexDefV>,
    pub logical_order: Seq<usize>,
    pub foreign_keys: Seq<ForeignKeySpecV>,
    pub checks: Seq<Seq<char>>,
}

/// [`ColumnSpec`] with texts and lists as sequences.
#[verifier::ext_equal]
pub struct ColumnSpecV {
    pub name: Seq<char>,
    pub col_type: ColType,
    pub not_null: bool,
    pub primary_key: bool,
    pub default: Option<ValueV>,
    pub references: Option<ColumnFkV>,
    pub unique: bool,
    pub check: Option<Seq<char>>,
}

/// [`TableSpec`] with texts and lists as sequences.
#[verifier::ext_equal]
pub struct TableSpecV {
    pub name: Seq<char>,
    pub columns: Seq<ColumnSpecV>,
    pub foreign_keys: Seq<ForeignKeySpecV>,
    pub uniques: Seq<Seq<Seq<char>>>,
    pub checks: Seq<Seq<char>>,
}

/// [`TriggerDef`] with texts and lists as sequences.
#[verifier::ext_equal]
pub struct TriggerDefV {
    pub name: Seq<char>,
    pub timing: TriggerTiming,
    pub event: TriggerEvent,
    pub for_each: TriggerForEach,
    pub table: Seq<char>,
    pub body: Seq<char>,
}

pub open spec fn column_fk_v(x: ColumnFk) -> ColumnFkV
    decreases x,
{
    ColumnFkV {
        parent: x.parent@,
        parent_column: match x.parent_column { Some(y) => Some(y@), None => None },
        on_delete: x.on_delete,
        on_update: x.on_update,
    }
}

impl View for ColumnFk {
    type V = ColumnFkV;

    open spec fn view(&self) -> ColumnFkV {
        column_fk_v(*self)
    }
}

impl DeepView for ColumnFk {
    type V = ColumnFkV;

    open spec fn deep_view(&self) -> ColumnFkV {
        column_fk_v(*self)
    }
}

impl Clone for ColumnFk {
    fn clone(&self) -> (r: Self)
        ensures
            r@ == self@,
    {
        clone_column_fk(self)
    }
}

pub open spec fn column_pos_v(x: ColumnPos) -> ColumnPosV
    decreases x,
{
    match x {
        ColumnPos::First => ColumnPosV::First,
        ColumnPos::Before(a0) => ColumnPosV::Before(a0@),
        ColumnPos::After(a0) => ColumnPosV::After(a0@),
    }
}

impl View for ColumnPos {
    type V = ColumnPosV;

    open spec fn view(&self) -> ColumnPosV {
        column_pos_v(*self)
    }
}

impl DeepView for ColumnPos {
    type V = ColumnPosV;

    open spec fn deep_view(&self) -> ColumnPosV {
        column_pos_v(*self)
    }
}

impl Clone for ColumnPos {
    fn clone(&self) -> (r: Self)
        ensures
            r@ == self@,
    {
        clone_column_pos(self)
    }
}

pub open spec fn foreign_key_spec_v(x: ForeignKeySpec) -> ForeignKeySpecV
    decreases x,
{
    ForeignKeySpecV {
        columns: strings_v(x.columns@),
        parent: x.parent@,
        parent_columns: strings_v(x.parent_columns@),
        on_delete: x.on_delete,
        on_update: x.on_update,
    }
}

impl View for ForeignKeySpec {
    type V = ForeignKeySpecV;

    open spec fn view(&self) -> ForeignKeySpecV {
        foreign_key_spec_v(*self)
    }
}

impl DeepView for ForeignKeySpec {
    type V = ForeignKeySpecV;

    open spec fn deep_view(&self) -> ForeignKeySpecV {
        foreign_key_spec_v(*self)
    }
}

impl Clone for ForeignKeySpec {
    fn clone(&self) -> (r: Self)
        ensures
            r@ == self@,
    {
        clone_foreign_key_spec(self)
    }
}

pub open spec fn column_def_v(x: ColumnDef) -> ColumnDefV
    decreases x,
{
    ColumnDefV {
        name: x.name@,
        col_type: x.col_type,
        not_null: x.not_null,
        default: match x.default { Some(y) => Some(y@), None => None },
        dropped: x.dropped,
    }
}

impl View for ColumnDef {
    type V = ColumnDefV;

    open spec fn view(&self) -> ColumnDefV {
        column_def_v(*self)
    }
}

impl DeepView for ColumnDef {
    type V = ColumnDefV;

    open spec fn deep_view(&self) -> ColumnDefV {
        column_def_v(*self)
    }
}

impl Clone for ColumnDef {
    fn clone(&self) -> (r: Self)
        ensures
            r@ == self@,
    {
        clone_column_def(self)
    }
}

pub open spec fn index_def_v(x: IndexDef) -> IndexDefV
    decreases x,
{
    IndexDefV {
        name: x.name@,
        columns: usizes_v(x.columns@),
        unique: x.unique,
    }
}

impl View for IndexDef {
    type V = IndexDefV;

    open spec fn view(&self) -> IndexDefV {
        index_def_v(*self)
    }
}

impl DeepView for IndexDef {
    type V = IndexDefV;

    open spec fn deep_view(&self) -> IndexDefV {
        index_def_v(*self)
    }
}

impl Clone for IndexDef {
    fn clone(&self) -> (r: Self)
        ensures
            r@ == self@,
    {
        clone_index_def(self)
    }
}

pub open spec fn fts_index_def_v(x: FtsIndexDef) -> FtsIndexDefV
    decreases x,
{
    FtsIndexDefV {
        fts_id: x.fts_id,
        columns: usizes_v(x.columns@),
        tokenizer: x.tokenizer@,
    }
}

impl View for FtsIndexDef {
    type V = FtsIndexDefV;

    open spec fn view(&self) -> FtsIndexDefV {
        fts_index_def_v(*self)
    }
}

impl DeepView for FtsIndexDef {
    type V = FtsIndexDefV;

    open spec fn deep_view(&self) -> FtsIndexDefV {
        fts_index_def_v(*self)
    }
}

impl Clone for FtsIndexDef {
    fn clone(&self) -> (r: Self)
        ensures
            r@ == self@,
    {
        clone_fts_index_def(self)
    }
}

pub open spec fn vector_index_def_v(x: VectorIndexDef) -> VectorIndexDefV
    decreases x,
{
    VectorIndexDefV {
        column: x.column,
        metric: x.metric,
        nprobe: x.nprobe,
    }
}

impl View for VectorIndexDef {
    type V = VectorIndexDefV;

    open spec fn view(&self) -> VectorIndexDefV {
        vector_index_def_v(*self)
    }
}

impl DeepView for VectorIndexDef {
    type V = VectorIndexDefV;

    open spec fn deep_view(&self) -> VectorIndexDefV {
        vector_index_def_v(*self)
    }
}

impl Clone for VectorIndexDef {
    fn clone(&self) -> (r: Self)
        ensures
            r@ == self@,
    {
        clone_vector_index_def(self)
    }
}

pub open spec fn table_def_v(x: TableDef) -> TableDefV
    decreases x,
{
    TableDefV {
        name: x.name@,
        table_id: x.table_id,
        rowid_alias: x.rowid_alias,
        columns: column_defs_v(x.columns@),
        indexes: index_defs_v(x.indexes@),
        fts_indexes: fts_index_defs_v(x.fts_indexes@),
        vector_indexes: vector_index_defs_v(x.vector_indexes@),
        logical_order: usizes_v(x.logical_order@),
        foreign_keys: foreign_key_specs_v(x.foreign_keys@),
        checks: strings_v(x.checks@),
    }
}

impl View for TableDef {
    type V = TableDefV;

    open spec fn view(&self) -> TableDefV {
        table_def_v(*self)
    }
}

impl DeepView for TableDef {
    type V = TableDefV;

    open spec fn deep_view(&self) -> TableDefV {
        table_def_v(*self)
    }
}

impl Clone for TableDef {
    fn clone(&self) -> (r: Self)
        ensures
            r@ == self@,
    {
        clone_table_def(self)
    }
}

pub open spec fn column_spec_v(x: ColumnSpec) -> ColumnSpecV
    decreases x,
{
    ColumnSpecV {
        name: x.name@,
        col_type: x.col_type,
        not_null: x.not_null,
        primary_key: x.primary_key,
        default: match x.default { Some(y) => Some(y@), None => None },
        references: match x.references { Some(y) => Some(column_fk_v(y)), None => None },
        unique: x.unique,
        check: match x.check { Some(y) => Some(y@), None => None },
    }
}

impl View for ColumnSpec {
    type V = ColumnSpecV;

    open spec fn view(&self) -> ColumnSpecV {
        column_spec_v(*self)
    }
}

impl DeepView for ColumnSpec {
    type V = ColumnSpecV;

    open spec fn deep_view(&self) -> ColumnSpecV {
        column_spec_v(*self)
    }
}

impl Clone for ColumnSpec {
    fn clone(&self) -> (r: Self)
        ensures
            r@ == self@,
    {
        clone_column_spec(self)
    }
}

pub open spec fn table_spec_v(x: TableSpec) -> TableSpecV
    decreases x,
{
    TableSpecV {
        name: x.name@,
        columns: column_specs_v(x.columns@),
        foreign_keys: foreign_key_specs_v(x.foreign_keys@),
        uniques: stringss_v(x.uniques@),
        checks: strings_v(x.checks@),
    }
}

impl View for TableSpec {
    type V = TableSpecV;

    open spec fn view(&self) -> TableSpecV {
        table_spec_v(*self)
    }
}

impl DeepView for TableSpec {
    type V = TableSpecV;

    open spec fn deep_view(&self) -> TableSpecV {
        table_spec_v(*self)
    }
}

impl Clone for TableSpec {
    fn clone(&self) -> (r: Self)
        ensures
            r@ == self@,
    {
        clone_table_spec(self)
    }
}

pub open spec fn trigger_def_v(x: TriggerDef) -> TriggerDefV
    decreases x,
{
    TriggerDefV {
        name: x.name@,
        timing: x.timing,
        event: x.event,
        for_each: x.for_each,
        table: x.table@,
        body: x.body@,
    }
}

impl View for TriggerDef {
    type V = TriggerDefV;

    open spec fn view(&self) -> TriggerDefV {
        trigger_def_v(*self)
    }
}

impl DeepView for TriggerDef {
    type V = TriggerDefV;

    open spec fn deep_view(&self) -> TriggerDefV {
        trigger_def_v(*self)
    }
}

impl Clone for TriggerDef {
    fn clone(&self) -> (r: Self)
        ensures
            r@ == self@,
    {
        clone_trigger_def(self)
    }
}

pub open spec fn strings_v(s: Seq<String>) -> Seq<Seq<char>>
    decreases s,
{
    Seq::new(
        s.len(),
        |i: int|
            if 0 <= i < s.len() {
                s[i]@
            } else {
                arbitrary()
            },
    )
}

pub open spec fn usizes_v(s: Seq<usize>) -> Seq<usize>
    decreases s,
{
    Seq::new(
        s.len(),
        |i: int|
            if 0 <= i < s.len() {
                s[i]
            } else {
                arbitrary()
            },
    )
}

pub open spec fn column_defs_v(s: Seq<ColumnDef>) -> Seq<ColumnDefV>
    decreases s,
{
    Seq::new(
        s.len(),
        |i: int|
            if 0 <= i < s.len() {
                column_def_v(s[i])
            } else {
                arbitrary()
            },
    )
}

pub open spec fn index_defs_v(s: Seq<IndexDef>) -> Seq<IndexDefV>
    decreases s,
{
    Seq::new(
        s.len(),
        |i: int|
            if 0 <= i < s.len() {
                index_def_v(s[i])
            } else {
                arbitrary()
            },
    )
}

pub open spec fn fts_index_defs_v(s: Seq<FtsIndexDef>) -> Seq<FtsIndexDefV>
    decreases s,
{
    Seq::new(
        s.len(),
        |i: int|
            if 0 <= i < s.len() {
                fts_index_def_v(s[i])
            } else {
                arbitrary()
            },
    )
}

pub open spec fn vector_index_defs_v(s: Seq<VectorIndexDef>) -> Seq<VectorIndexDefV>
    decreases s,
{
    Seq::new(
        s.len(),
        |i: int|
            if 0 <= i < s.len() {
                vector_index_def_v(s[i])
            } else {
                arbitrary()
            },
    )
}

pub open spec fn foreign_key_specs_v(s: Seq<ForeignKeySpec>) -> Seq<ForeignKeySpecV>
    decreases s,
{
    Seq::new(
        s.len(),
        |i: int|
            if 0 <= i < s.len() {
                foreign_key_spec_v(s[i])
            } else {
                arbitrary()
            },
    )
}

pub open spec fn column_specs_v(s: Seq<ColumnSpec>) -> Seq<ColumnSpecV>
    decreases s,
{
    Seq::new(
        s.len(),
        |i: int|
            if 0 <= i < s.len() {
                column_spec_v(s[i])
            } else {
                arbitrary()
            },
    )
}

pub open spec fn stringss_v(s: Seq<Vec<String>>) -> Seq<Seq<Seq<char>>>
    decreases s,
{
    Seq::new(
        s.len(),
        |i: int|
            if 0 <= i < s.len() {
                strings_v(s[i]@)
            } else {
                arbitrary()
            },
    )
}

pub fn clone_column_fk(x: &ColumnFk) -> (r: ColumnFk)
    ensures
        r@ == x@,
    decreases x,
{
    let r = ColumnFk {
        parent: x.parent.clone(),
        parent_column: match &x.parent_column { Some(y) => Some(y.clone()), None => None },
        on_delete: x.on_delete,
        on_update: x.on_update,
    };
    r
}

pub fn clone_column_pos(x: &ColumnPos) -> (r: ColumnPos)
    ensures
        r@ == x@,
    decreases x,
{
    match x {
        ColumnPos::First => ColumnPos::First,
        ColumnPos::Before(a0) => ColumnPos::Before(a0.clone()),
        ColumnPos::After(a0) => ColumnPos::After(a0.clone()),
    }
}

pub fn clone_foreign_key_spec(x: &ForeignKeySpec) -> (r: ForeignKeySpec)
    ensures
        r@ == x@,
    decreases x,
{
    let r = ForeignKeySpec {
        columns: clone_strings(&x.columns),
        parent: x.parent.clone(),
        parent_columns: clone_strings(&x.parent_columns),
        on_delete: x.on_delete,
        on_update: x.on_update,
    };
    r
}

pub fn clone_column_def(x: &ColumnDef) -> (r: ColumnDef)
    ensures
        r@ == x@,
    decreases x,
{
    let r = ColumnDef {
        name: x.name.clone(),
        col_type: x.col_type,
        not_null: x.not_null,
        default: match &x.default { Some(y) => Some(y.clone()), None => None },
        dropped: x.dropped,
    };
    r
}

pub fn clone_index_def(x: &IndexDef) -> (r: IndexDef)
    ensures
        r@ == x@,
    decreases x,
{
    let r = IndexDef {
        name: x.name.clone(),
        columns: clone_usizes(&x.columns),
        unique: x.unique,
    };
    r
}

pub fn clone_fts_index_def(x: &FtsIndexDef) -> (r: FtsIndexDef)
    ensures
        r@ == x@,
    decreases x,
{
    let r = FtsIndexDef {
        fts_id: x.fts_id,
        columns: clone_usizes(&x.columns),
        tokenizer: x.tokenizer.clone(),
    };
    r
}

pub fn clone_vector_index_def(x: &VectorIndexDef) -> (r: VectorIndexDef)
    ensures
        r@ == x@,
    decreases x,
{
    let r = VectorIndexDef {
        column: x.column,
        metric: x.metric,
        nprobe: x.nprobe,
    };
    r
}

pub fn clone_table_def(x: &TableDef) -> (r: TableDef)
    ensures
        r@ == x@,
    decreases x,
{
    let r = TableDef {
        name: x.name.clone(),
        table_id: x.table_id,
        rowid_alias: x.rowid_alias,
        columns: clone_column_defs(&x.columns),
        indexes: clone_index_defs(&x.indexes),
        fts_indexes: clone_fts_index_defs(&x.fts_indexes),
        vector_indexes: clone_vector_index_defs(&x.vector_indexes),
        logical_order: clone_usizes(&x.logical_order),
        foreign_keys: clone_foreign_key_specs(&x.foreign_keys),
        checks: clone_strings(&x.checks),
    };
    r
}

pub fn clone_column_spec(x: &ColumnSpec) -> (r: ColumnSpec)
    ensures
        r@ == x@,
    decreases x,
{
    let r = ColumnSpec {
        name: x.name.clone(),
        col_type: x.col_type,
        not_null: x.not_null,
        primary_key: x.primary_key,
        default: match &x.default { Some(y) => Some(y.clone()), None => None },
        references: match &x.references { Some(y) => Some(clone_column_fk(y)), None => None },
        unique: x.unique,
        check: match &x.check { Some(y) => Some(y.clone()), None => None },
    };
    r
}

pub fn clone_table_spec(x: &TableSpec) -> (r: TableSpec)
    ensures
        r@ == x@,
    decreases x,
{
    let r = TableSpec {
        name: x.name.clone(),
        columns: clone_column_specs(&x.columns),
        foreign_keys: clone_foreign_key_specs(&x.foreign_keys),
        uniques: clone_stringss(&x.uniques),
        checks: clone_strings(&x.checks),
    };
    r
}

pub fn clone_trigger_def(x: &TriggerDef) -> (r: TriggerDef)
    ensures
        r@ == x@,
    decreases x,
{
    let r = TriggerDef {
        name: x.name.clone(),
        timing: x.timing,
        event: x.event,
        for_each: x.for_each,
        table: x.table.clone(),
        body: x.body.clone(),
    };
    r
}

pub fn clone_strings(v: &Vec<String>) -> (r: Vec<String>)
    ensures
        strings_v(r@) == strings_v(v@),
    decreases v,
{
    let mut out: Vec<String> = Vec::new();
    let n: usize = v.len();
    for i in 0..n
        invariant
            n == v@.len(),
            out@.len() == i,
            forall|k: int| 0 <= k < i ==> #[trigger] out@[k]@ == v@[k]@,
    {
        out.push(v[i].clone());
    }
    assert(strings_v(out@) =~= strings_v(v@));
    out
}

pub fn clone_usizes(v: &Vec<usize>) -> (r: Vec<usize>)
    ensures
        usizes_v(r@) == usizes_v(v@),
    decreases v,
{
    let mut out: Vec<usize> = Vec::new();
    let n: usize = v.len();
    for i in 0..n
        invariant
            n == v@.len(),
            out@.len() == i,
            forall|k: int| 0 <= k < i ==> #[trigger] out@[k] == v@[k],
    {
        out.push(v[i]);
    }
    assert(usizes_v(out@) =~= usizes_v(v@));
    out
}

pub fn clone_column_defs(v: &Vec<ColumnDef>) -> (r: Vec<ColumnDef>)
    ensures
        column_defs_v(r@) == column_defs_v(v@),
    decreases v,
{
    let mut out: Vec<ColumnDef> = Vec::new();
    let n: usize = v.len();
    for i in 0..n
        invariant
            n == v@.len(),
            out@.len() == i,
            forall|k: int| 0 <= k < i ==> column_def_v(#[trigger] out@[k]) == column_def_v(v@[k]),
    {
        out.push(clone_column_def(&v[i]));
    }
    assert(column_defs_v(out@) =~= column_defs_v(v@));
    out
}

pub fn clone_index_defs(v: &Vec<IndexDef>) -> (r: Vec<IndexDef>)
    ensures
        index_defs_v(r@) == index_defs_v(v@),
    decreases v,
{
    let mut out: Vec<IndexDef> = Vec::new();
    let n: usize = v.len();
    for i in 0..n
        invariant
            n == v@.len(),
            out@.len() == i,
            forall|k: int| 0 <= k < i ==> index_def_v(#[trigger] out@[k]) == index_def_v(v@[k]),
    {
        out.push(clone_index_def(&v[i]));
    }
    assert(index_defs_v(out@) =~= index_defs_v(v@));
    out
}

pub fn clone_fts_index_defs(v: &Vec<FtsIndexDef>) -> (r: Vec<FtsIndexDef>)
    ensures
        fts_index_defs_v(r@) == fts_index_defs_v(v@),
    decreases v,
{
    let mut out: Vec<FtsIndexDef> = Vec::new();
    let n: usize = v.len();
    for i in 0..n
        invariant
            n == v@.len(),
            out@.len() == i,
            forall|k: int| 0 <= k < i ==> fts_index_def_v(#[trigger] out@[k]) == fts_index_def_v(v@[k]),
    {
        out.push(clone_fts_index_def(&v[i]));
    }
    assert(fts_index_defs_v(out@) =~= fts_index_defs_v(v@));
    out
}

pub fn clone_vector_index_defs(v: &Vec<VectorIndexDef>) -> (r: Vec<VectorIndexDef>)
    ensures
        vector_index_defs_v(r@) == vector_index_defs_v(v@),
    decreases v,
{
    let mut out: Vec<VectorIndexDef> = Vec::new();
    let n: usize = v.len();
    for i in 0..n
        invariant
            n == v@.len(),
            out@.len() == i,
            forall|k: int| 0 <= k < i ==> vector_index_def_v(#[trigger] out@[k]) == vector_index_def_v(v@[k]),
    {
        out.push(clone_vector_index_def(&v[i]));
    }
    assert(vector_index_defs_v(out@) =~= vector_index_defs_v(v@));
    out
}

pub fn clone_foreign_key_specs(v: &Vec<ForeignKeySpec>) -> (r: Vec<ForeignKeySpec>)
    ensures
        foreign_key_specs_v(r@) == foreign_key_specs_v(v@),
    decreases v,
{
    let mut out: Vec<ForeignKeySpec> = Vec::new();
    let n: usize = v.len();
    for i in 0..n
        invariant
            n == v@.len(),
            out@.len() == i,
            forall|k: int| 0 <= k < i ==> foreign_key_spec_v(#[trigger] out@[k]) == foreign_key_spec_v(v@[k]),
    {
        out.push(clone_foreign_key_spec(&v[i]));
    }
    assert(foreign_key_specs_v(out@) =~= foreign_key_specs_v(v@));
    out
}

pub fn clone_column_specs(v: &Vec<ColumnSpec>) -> (r: Vec<ColumnSpec>)
    ensures
        column_specs_v(r@) == column_specs_v(v@),
    decreases v,
{
    let mut out: Vec<ColumnSpec> = Vec::new();
    let n: usize = v.len();
    for i in 0..n
        invariant
            n == v@.len(),
            out@.len() == i,
            forall|k: int| 0 <= k < i ==> column_spec_v(#[trigger] out@[k]) == column_spec_v(v@[k]),
    {
        out.push(clone_column_spec(&v[i]));
    }
    assert(column_specs_v(out@) =~= column_specs_v(v@));
    out
}

pub fn clone_stringss(v: &Vec<Vec<String>>) -> (r: Vec<Vec<String>>)
    ensures
        stringss_v(r@) == stringss_v(v@),
    decreases v,
{
    let mut out: Vec<Vec<String>> = Vec::new();
    let n: usize = v.len();
    for i in 0..n
        invariant
            n == v@.len(),
            out@.len() == i,
            forall|k: int| 0 <= k < i ==> strings_v(#[trigger] out@[k]@) == strings_v(v@[k]@),
    {
        out.push(clone_strings(&v[i]));
    }
    assert(stringss_v(out@) =~= stringss_v(v@));
    out
}

} // verus!
