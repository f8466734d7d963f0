//! Splits SQL text into tokens, each with its byte position.
use vstd::prelude::*;

use crate::error::{sql_at, Error, ErrorV};
#[allow(unused_imports)]
use crate::reals::known_numeral;
use crate::reals::{RealTable, RealTableV};
use crate::text::{
    chars_of, hex_digit, parse_i64, parse_usize, str_eq, string_of, string_range, upper_ascii, utf8_width,
};
#[allow(unused_imports)]
use crate::text::{
    ascii_upper_all, hex_value, i64_of, is_digit, lemma_take_width, lemma_text_bytes, text_width, usize_of,
};

verus! {

/// A token; a real is held by its bits.
#[derive(Debug, PartialEq)]
pub enum Tok {
    Ident(String),
    Kw(Kw),
    Int(i64),
    Float(u64),
    Str(String),
    Blob(Vec<u8>),
    /// `?N`, counted from one.
    Param(usize),
    /// `:name`, without the colon.
    NamedParam(String),
    Eq,
    Ne,
    Lt,
    Le,
    Gt,
    Ge,
    Plus,
    Minus,
    Star,
    Slash,
    Percent,
    /// `||`
    Concat,
    /// `->`
    Arrow,
    /// `->>`
    ArrowArrow,
    LParen,
    RParen,
    Comma,
    Semi,
    Dot,
}

/// [`Tok`] with texts as sequences.
#[verifier::ext_equal]
pub enum TokV {
    Ident(Seq<char>),
    Kw(Kw),
    Int(i64),
    Float(u64),
    Str(Seq<char>),
    Blob(Seq<u8>),
    Param(usize),
    NamedParam(Seq<char>),
    Eq,
    Ne,
    Lt,
    Le,
    Gt,
    Ge,
    Plus,
    Minus,
    Star,
    Slash,
    Percent,
    Concat,
    Arrow,
    ArrowArrow,
    LParen,
    RParen,
    Comma,
    Semi,
    Dot,
}

impl View for Tok {
    type V = TokV;

    open spec fn view(&self) -> TokV {
        match self {
            Tok::Ident(s) => TokV::Ident(s@),
            Tok::Kw(k) => TokV::Kw(*k),
            Tok::Int(n) => TokV::Int(*n),
            Tok::Float(b) => TokV::Float(*b),
            Tok::Str(s) => TokV::Str(s@),
            Tok::Blob(b) => TokV::Blob(b@),
            Tok::Param(n) => TokV::Param(*n),
            Tok::NamedParam(s) => TokV::NamedParam(s@),
            Tok::Eq => TokV::Eq,
            Tok::Ne => TokV::Ne,
            Tok::Lt => TokV::Lt,
            Tok::Le => TokV::Le,
            Tok::Gt => TokV::Gt,
            Tok::Ge => TokV::Ge,
            Tok::Plus => TokV::Plus,
            Tok::Minus => TokV::Minus,
            Tok::Star => TokV::Star,
            Tok::Slash => TokV::Slash,
            Tok::Percent => TokV::Percent,
            Tok::Concat => TokV::Concat,
            Tok::Arrow => TokV::Arrow,
            Tok::ArrowArrow => TokV::ArrowArrow,
            Tok::LParen => TokV::LParen,
            Tok::RParen => TokV::RParen,
            Tok::Comma => TokV::Comma,
            Tok::Semi => TokV::Semi,
            Tok::Dot => TokV::Dot,
        }
    }
}

/// A reserved word.
#[derive(Clone, Copy, Debug, PartialEq, Eq, Structural)]
pub enum Kw {
    Add,
    After,
    All,
    Alter,
    And,
    As,
    Asc,
    Before,
    Begin,
    Between,
    Blob,
    Boolean,
    By,
    Cascade,
    Case,
    Cast,
    Column,
    Columns,
    Commit,
    Conflict,
    Create,
    Default,
    Do,
    Delete,
    Desc,
    Distinct,
    Drop,
    Each,
    Else,
    End,
    Except,
    Exists,
    False,
    First,
    For,
    Foreign,
    From,
    Group,
    Having,
    If,
    In,
    Index,
    Inner,
    Insert,
    Instead,
    Integer,
    Intersect,
    Into,
    Is,
    Join,
    Key,
    Left,
    Like,
    Limit,
    Move,
    Not,
    Nothing,
    Null,
    Of,
    Offset,
    On,
    Or,
    Order,
    Over,
    Partition,
    Primary,
    Real,
    Recursive,
    References,
    Rename,
    Reorder,
    Restrict,
    Returning,
    Rollback,
    Row,
    Select,
    SetTo,
    Statement,
    Table,
    Text,
    Then,
    Timestamp,
    To,
    Trigger,
    True,
    Union,
    Unique,
    Update,
    Values,
    Version,
    View,
    When,
    Where,
    With,
}

/// The reserved word that `word` is, in upper case.
pub open spec fn reserved(word: Seq<char>) -> Option<Kw> {
    if word == "ADD"@ {
        Some(Kw::Add)
    } else if word == "AFTER"@ {
        Some(Kw::After)
    } else if word == "ALL"@ {
        Some(Kw::All)
    } else if word == "ALTER"@ {
        Some(Kw::Alter)
    } else if word == "AND"@ {
        Some(Kw::And)
    } else if word == "AS"@ {
        Some(Kw::As)
    } else if word == "ASC"@ {
        Some(Kw::Asc)
    } else if word == "BEFORE"@ {
        Some(Kw::Before)
    } else if word == "BEGIN"@ {
        Some(Kw::Begin)
    } else if word == "BETWEEN"@ {
        Some(Kw::Between)
    } else if word == "BLOB"@ {
        Some(Kw::Blob)
    } else if word == "BOOLEAN"@ {
        Some(Kw::Boolean)
    } else if word == "BY"@ {
        Some(Kw::By)
    } else if word == "CASCADE"@ {
        Some(Kw::Cascade)
    } else if word == "CASE"@ {
        Some(Kw::Case)
    } else if word == "CAST"@ {
        Some(Kw::Cast)
    } else if word == "COLUMN"@ {
        Some(Kw::Column)
    } else if word == "COLUMNS"@ {
        Some(Kw::Columns)
    } else if word == "COMMIT"@ {
        Some(Kw::Commit)
    } else if word == "CONFLICT"@ {
        Some(Kw::Conflict)
    } else if word == "CREATE"@ {
        Some(Kw::Create)
    } else if word == "DEFAULT"@ {
        Some(Kw::Default)
    } else if word == "DO"@ {
        Some(Kw::Do)
    } else if word == "DELETE"@ {
        Some(Kw::Delete)
    } else if word == "DESC"@ {
        Some(Kw::Desc)
    } else if word == "DISTINCT"@ {
        Some(Kw::Distinct)
    } else if word == "DROP"@ {
        Some(Kw::Drop)
    } else if word == "EACH"@ {
        Some(Kw::Each)
    } else if word == "ELSE"@ {
        Some(Kw::Else)
    } else if word == "END"@ {
        Some(Kw::End)
    } else if word == "EXCEPT"@ {
        Some(Kw::Except)
    } else if word == "EXISTS"@ {
        Some(Kw::Exists)
    } else if word == "FALSE"@ {
        Some(Kw::False)
    } else if word == "FIRST"@ {
        Some(Kw::First)
    } else if word == "FOR"@ {
        Some(Kw::For)
    } else if word == "FOREIGN"@ {
        Some(Kw::Foreign)
    } else if word == "FROM"@ {
        Some(Kw::From)
    } else if word == "GROUP"@ {
        Some(Kw::Group)
    } else if word == "HAVING"@ {
        Some(Kw::Having)
    } else if word == "IF"@ {
        Some(Kw::If)
    } else if word == "IN"@ {
        Some(Kw::In)
    } else if word == "INDEX"@ {
        Some(Kw::Index)
    } else if word == "INNER"@ {
        Some(Kw::Inner)
    } else if word == "INSERT"@ {
        Some(Kw::Insert)
    } else if word == "INSTEAD"@ {
        Some(Kw::Instead)
    } else if word == "INTEGER"@ {
        Some(Kw::Integer)
    } else if word == "INTERSECT"@ {
        Some(Kw::Intersect)
    } else if word == "INTO"@ {
        Some(Kw::Into)
    } else if word == "IS"@ {
        Some(Kw::Is)
    } else if word == "JOIN"@ {
        Some(Kw::Join)
    } else if word == "KEY"@ {
        Some(Kw::Key)
    } else if word == "LEFT"@ {
        Some(Kw::Left)
    } else if word == "LIKE"@ {
        Some(Kw::Like)
    } else if word == "LIMIT"@ {
        Some(Kw::Limit)
    } else if word == "MOVE"@ {
        Some(Kw::Move)
    } else if word == "NOT"@ {
        Some(Kw::Not)
    } else if word == "NOTHING"@ {
        Some(Kw::Nothing)
    } else if word == "NULL"@ {
        Some(Kw::Null)
    } else if word == "OF"@ {
        Some(Kw::Of)
    } else if word == "OFFSET"@ {
        Some(Kw::Offset)
    } else if word == "ON"@ {
        Some(Kw::On)
    } else if word == "OR"@ {
        Some(Kw::Or)
    } else if word == "ORDER"@ {
        Some(Kw::Order)
    } else if word == "OVER"@ {
        Some(Kw::Over)
    } else if word == "PARTITION"@ {
        Some(Kw::Partition)
    } else if word == "PRIMARY"@ {
        Some(Kw::Primary)
    } else if word == "REAL"@ {
        Some(Kw::Real)
    } else if word == "RECURSIVE"@ {
        Some(Kw::Recursive)
    } else if word == "REFERENCES"@ {
        Some(Kw::References)
    } else if word == "RENAME"@ {
        Some(Kw::Rename)
    } else if word == "REORDER"@ {
        Some(Kw::Reorder)
    } else if word == "RESTRICT"@ {
        Some(Kw::Restrict)
    } else if word == "RETURNING"@ {
        Some(Kw::Returning)
    } else if word == "ROLLBACK"@ {
        Some(Kw::Rollback)
    } else if word == "ROW"@ {
        Some(Kw::Row)
    } else if word == "SELECT"@ {
        Some(Kw::Select)
    } else if word == "SET"@ {
        Some(Kw::SetTo)
    } else if word == "STATEMENT"@ {
        Some(Kw::Statement)
    } else if word == "TABLE"@ {
        Some(Kw::Table)
    } else if word == "TEXT"@ {
        Some(Kw::Text)
    } else if word == "THEN"@ {
        Some(Kw::Then)
    } else if word == "TIMESTAMP"@ {
        Some(Kw::Timestamp)
    } else if word == "TO"@ {
        Some(Kw::To)
    } else if word == "TRIGGER"@ {
        Some(Kw::Trigger)
    } else if word == "TRUE"@ {
        Some(Kw::True)
    } else if word == "UNION"@ {
        Some(Kw::Union)
    } else if word == "UNIQUE"@ {
        Some(Kw::Unique)
    } else if word == "UPDATE"@ {
        Some(Kw::Update)
    } else if word == "VALUES"@ {
        Some(Kw::Values)
    } else if word == "VERSION"@ {
        Some(Kw::Version)
    } else if word == "VIEW"@ {
        Some(Kw::View)
    } else if word == "WHEN"@ {
        Some(Kw::When)
    } else if word == "WHERE"@ {
        Some(Kw::Where)
    } else if word == "WITH"@ {
        Some(Kw::With)
    } else {
        None
    }
}

/// The reserved word that `word` is, in whatever case.
pub open spec fn keyword_of(word: Seq<char>) -> Option<Kw> {
    reserved(ascii_upper_all(word))
}

fn keyword(word: &str) -> (r: Option<Kw>)
    ensures
        r == keyword_of(word@),
{
    let upper = upper_ascii(word);
    let w: &str = upper.as_str();
    if str_eq(w, "ADD") {
        Some(Kw::Add)
    } else if str_eq(w, "AFTER") {
        Some(Kw::After)
    } else if str_eq(w, "ALL") {
        Some(Kw::All)
    } else if str_eq(w, "ALTER") {
        Some(Kw::Alter)
    } else if str_eq(w, "AND") {
        Some(Kw::And)
    } else if str_eq(w, "AS") {
        Some(Kw::As)
    } else if str_eq(w, "ASC") {
        Some(Kw::Asc)
    } else if str_eq(w, "BEFORE") {
        Some(Kw::Before)
    } else if str_eq(w, "BEGIN") {
        Some(Kw::Begin)
    } else if str_eq(w, "BETWEEN") {
        Some(Kw::Between)
    } else if str_eq(w, "BLOB") {
        Some(Kw::Blob)
    } else if str_eq(w, "BOOLEAN") {
        Some(Kw::Boolean)
    } else if str_eq(w, "BY") {
        Some(Kw::By)
    } else if str_eq(w, "CASCADE") {
        Some(Kw::Cascade)
    } else if str_eq(w, "CASE") {
        Some(Kw::Case)
    } else if str_eq(w, "CAST") {
        Some(Kw::Cast)
    } else if str_eq(w, "COLUMN") {
        Some(Kw::Column)
    } else if str_eq(w, "COLUMNS") {
        Some(Kw::Columns)
    } else if str_eq(w, "COMMIT") {
        Some(Kw::Commit)
    } else if str_eq(w, "CONFLICT") {
        Some(Kw::Conflict)
    } else if str_eq(w, "CREATE") {
        Some(Kw::Create)
    } else if str_eq(w, "DEFAULT") {
        Some(Kw::Default)
    } else if str_eq(w, "DO") {
        Some(Kw::Do)
    } else if str_eq(w, "DELETE") {
        Some(Kw::Delete)
    } else if str_eq(w, "DESC") {
        Some(Kw::Desc)
    } else if str_eq(w, "DISTINCT") {
        Some(Kw::Distinct)
    } else if str_eq(w, "DROP") {
        Some(Kw::Drop)
    } else if str_eq(w, "EACH") {
        Some(Kw::Each)
    } else if str_eq(w, "ELSE") {
        Some(Kw::Else)
    } else if str_eq(w, "END") {
        Some(Kw::End)
    } else if str_eq(w, "EXCEPT") {
        Some(Kw::Except)
    } else if str_eq(w, "EXISTS") {
        Some(Kw::Exists)
    } else if str_eq(w, "FALSE") {
        Some(Kw::False)
    } else if str_eq(w, "FIRST") {
        Some(Kw::First)
    } else if str_eq(w, "FOR") {
        Some(Kw::For)
    } else if str_eq(w, "FOREIGN") {
        Some(Kw::Foreign)
    } else if str_eq(w, "FROM") {
        Some(Kw::From)
    } else if str_eq(w, "GROUP") {
        Some(Kw::Group)
    } else if str_eq(w, "HAVING") {
        Some(Kw::Having)
    } else if str_eq(w, "IF") {
        Some(Kw::If)
    } else if str_eq(w, "IN") {
        Some(Kw::In)
    } else if str_eq(w, "INDEX") {
        Some(Kw::Index)
    } else if str_eq(w, "INNER") {
        Some(Kw::Inner)
    } else if str_eq(w, "INSERT") {
        Some(Kw::Insert)
    } else if str_eq(w, "INSTEAD") {
        Some(Kw::Instead)
    } else if str_eq(w, "INTEGER") {
        Some(Kw::Integer)
    } else if str_eq(w, "INTERSECT") {
        Some(Kw::Intersect)
    } else if str_eq(w, "INTO") {
        Some(Kw::Into)
    } else if str_eq(w, "IS") {
        Some(Kw::Is)
    } else if str_eq(w, "JOIN") {
        Some(Kw::Join)
    } else if str_eq(w, "KEY") {
        Some(Kw::Key)
    } else if str_eq(w, "LEFT") {
        Some(Kw::Left)
    } else if str_eq(w, "LIKE") {
        Some(Kw::Like)
    } else if str_eq(w, "LIMIT") {
        Some(Kw::Limit)
    } else if str_eq(w, "MOVE") {
        Some(Kw::Move)
    } else if str_eq(w, "NOT") {
        Some(Kw::Not)
    } else if str_eq(w, "NOTHING") {
        Some(Kw::Nothing)
    } else if str_eq(w, "NULL") {
        Some(Kw::Null)
    } else if str_eq(w, "OF") {
        Some(Kw::Of)
    } else if str_eq(w, "OFFSET") {
        Some(Kw::Offset)
    } else if str_eq(w, "ON") {
        Some(Kw::On)
    } else if str_eq(w, "OR") {
        Some(Kw::Or)
    } else if str_eq(w, "ORDER") {
        Some(Kw::Order)
    } else if str_eq(w, "OVER") {
        Some(Kw::Over)
    } else if str_eq(w, "PARTITION") {
        Some(Kw::Partition)
    } else if str_eq(w, "PRIMARY") {
        Some(Kw::Primary)
    } else if str_eq(w, "REAL") {
        Some(Kw::Real)
    } else if str_eq(w, "RECURSIVE") {
        Some(Kw::Recursive)
    } else if str_eq(w, "REFERENCES") {
        Some(Kw::References)
    } else if str_eq(w, "RENAME") {
        Some(Kw::Rename)
    } else if str_eq(w, "REORDER") {
        Some(Kw::Reorder)
    } else if str_eq(w, "RESTRICT") {
        Some(Kw::Restrict)
    } else if str_eq(w, "RETURNING") {
        Some(Kw::Returning)
    } else if str_eq(w, "ROLLBACK") {
        Some(Kw::Rollback)
    } else if str_eq(w, "ROW") {
        Some(Kw::Row)
    } else if str_eq(w, "SELECT") {
        Some(Kw::Select)
    } else if str_eq(w, "SET") {
        Some(Kw::SetTo)
    } else if str_eq(w, "STATEMENT") {
        Some(Kw::Statement)
    } else if str_eq(w, "TABLE") {
        Some(Kw::Table)
    } else if str_eq(w, "TEXT") {
        Some(Kw::Text)
    } else if str_eq(w, "THEN") {
        Some(Kw::Then)
    } else if str_eq(w, "TIMESTAMP") {
        Some(Kw::Timestamp)
    } else if str_eq(w, "TO") {
        Some(Kw::To)
    } else if str_eq(w, "TRIGGER") {
        Some(Kw::Trigger)
    } else if str_eq(w, "TRUE") {
        Some(Kw::True)
    } else if str_eq(w, "UNION") {
        Some(Kw::Union)
    } else if str_eq(w, "UNIQUE") {
        Some(Kw::Unique)
    } else if str_eq(w, "UPDATE") {
        Some(Kw::Update)
    } else if str_eq(w, "VALUES") {
        Some(Kw::Values)
    } else if str_eq(w, "VERSION") {
        Some(Kw::Version)
    } else if str_eq(w, "VIEW") {
        Some(Kw::View)
    } else if str_eq(w, "WHEN") {
        Some(Kw::When)
    } else if str_eq(w, "WHERE") {
        Some(Kw::Where)
    } else if str_eq(w, "WITH") {
        Some(Kw::With)
    } else {
        None
    }
}

/// A token and the byte of the source at which it starts.
#[derive(Debug)]
pub struct Spanned {
    pub tok: Tok,
    pub pos: usize,
}

#[verifier::ext_equal]
pub struct SpannedV {
    pub tok: TokV,
    pub pos: usize,
}

impl View for Spanned {
    type V = SpannedV;

    open spec fn view(&self) -> SpannedV {
        SpannedV { tok: self.tok@, pos: self.pos }
    }
}

pub open spec fn spanned_v(s: Seq<Spanned>) -> Seq<SpannedV> {
    Seq::new(s.len(), |i: int| s[i]@)
}

/// The byte position of the character `i`.
pub open spec fn byte_at(s: Seq<char>, i: int) -> usize {
    text_width(s.take(i)) as usize
}

pub open spec fn lex_error(s: Seq<char>, i: int, msg: Seq<char>) -> ErrorV {
    ErrorV::Sql { msg, pos: Some(byte_at(s, i)) }
}

pub open spec fn is_letter(c: char) -> bool {
    'a' <= c <= 'z' || 'A' <= c <= 'Z'
}

/// The characters of a parameter's name.
pub open spec fn in_name(c: char) -> bool {
    is_letter(c) || is_digit(c) || c == '_'
}

/// The characters that start a word.
pub open spec fn starts_word(c: char) -> bool {
    is_letter(c) || c == '_' || c as u32 >= 0x80
}

pub open spec fn in_word(c: char) -> bool {
    starts_word(c) || is_digit(c)
}

fn letter(c: char) -> (r: bool)
    ensures
        r == is_letter(c),
{
    ('a' <= c && c <= 'z') || ('A' <= c && c <= 'Z')
}

fn digit(c: char) -> (r: bool)
    ensures
        r == is_digit(c),
{
    '0' <= c && c <= '9'
}

/// The character `i`, where there is one.
pub open spec fn char_at(s: Seq<char>, i: int) -> Option<char> {
    if 0 <= i < s.len() {
        Some(s[i])
    } else {
        None
    }
}

/// The end of the digits from `i` on.
pub open spec fn digits_end(s: Seq<char>, i: int) -> int
    decreases s.len() - i,
{
    if 0 <= i < s.len() && is_digit(s[i]) {
        digits_end(s, i + 1)
    } else {
        i
    }
}

fn skip_digits(s: &[char], i: usize) -> (r: usize)
    requires
        i <= s@.len(),
    ensures
        r == digits_end(s@, i as int),
        i <= r <= s@.len(),
{
    let mut j: usize = i;
    while j < s.len() && digit(s[j])
        invariant
            i <= j <= s@.len(),
            digits_end(s@, i as int) == digits_end(s@, j as int),
        decreases s@.len() - j,
    {
        j = j + 1;
    }
    j
}

/// The end of the name from `i` on.
pub open spec fn name_end(s: Seq<char>, i: int) -> int
    decreases s.len() - i,
{
    if 0 <= i < s.len() && in_name(s[i]) {
        name_end(s, i + 1)
    } else {
        i
    }
}

fn skip_name(s: &[char], i: usize) -> (r: usize)
    requires
        i <= s@.len(),
    ensures
        r == name_end(s@, i as int),
        i <= r <= s@.len(),
{
    let mut j: usize = i;
    while j < s.len() && (letter(s[j]) || digit(s[j]) || s[j] == '_')
        invariant
            i <= j <= s@.len(),
            name_end(s@, i as int) == name_end(s@, j as int),
        decreases s@.len() - j,
    {
        j = j + 1;
    }
    j
}

/// The end of the word from `i` on.
pub open spec fn word_end(s: Seq<char>, i: int) -> int
    decreases s.len() - i,
{
    if 0 <= i < s.len() && in_word(s[i]) {
        word_end(s, i + 1)
    } else {
        i
    }
}

fn skip_word(s: &[char], i: usize) -> (r: usize)
    requires
        i <= s@.len(),
    ensures
        r == word_end(s@, i as int),
        i <= r <= s@.len(),
{
    let mut j: usize = i;
    while j < s.len() && (letter(s[j]) || s[j] == '_' || s[j] as u32 >= 0x80 || digit(s[j]))
        invariant
            i <= j <= s@.len(),
            word_end(s@, i as int) == word_end(s@, j as int),
        decreases s@.len() - j,
    {
        j = j + 1;
    }
    j
}

/// The end of the line from `i` on.
pub open spec fn line_end(s: Seq<char>, i: int) -> int
    decreases s.len() - i,
{
    if 0 <= i < s.len() && s[i] != '\n' {
        line_end(s, i + 1)
    } else {
        i
    }
}

fn skip_line(s: &[char], i: usize) -> (r: usize)
    requires
        i <= s@.len(),
    ensures
        r == line_end(s@, i as int),
        i <= r <= s@.len(),
{
    let mut j: usize = i;
    while j < s.len() && s[j] != '\n'
        invariant
            i <= j <= s@.len(),
            line_end(s@, i as int) == line_end(s@, j as int),
        decreases s@.len() - j,
    {
        j = j + 1;
    }
    j
}

/// The text up to the closing quote, where a doubled quote stands for one, and the
/// index after it.
pub open spec fn quoted_from(s: Seq<char>, i: int, q: char) -> Option<(Seq<char>, int)>
    decreases s.len() - i,
{
    if !(0 <= i < s.len()) {
        None
    } else if s[i] == q && char_at(s, i + 1) != Some(q) {
        Some((Seq::empty(), i + 1))
    } else {
        let next = if s[i] == q {
            i + 2
        } else {
            i + 1
        };
        match quoted_from(s, next, q) {
            Some((rest, j)) => Some((seq![s[i]] + rest, j)),
            None => None,
        }
    }
}

fn quoted(s: &[char], i: usize, q: char) -> (r: Option<(Vec<char>, usize)>)
    requires
        i <= s@.len(),
    ensures
        (match quoted_from(s@, i as int, q) {
            Some((t, j)) => r is Some && (r->0).0@ == t && (r->0).1 == j && i < j <= s@.len(),
            None => r is None,
        }),
{
    let mut out: Vec<char> = Vec::new();
    let mut j: usize = i;
    let ghost all = quoted_from(s@, i as int, q);
    while j < s.len()
        invariant
            i <= j <= s@.len(),
            all == quoted_from(s@, i as int, q),
            all == (match quoted_from(s@, j as int, q) {
                Some((rest, k)) => Some((out@ + rest, k)),
                None => None,
            }),
        decreases s@.len() - j,
    {
        let ghost before = out@;
        let c: char = s[j];
        if c == q {
            if j + 1 < s.len() && s[j + 1] == q {
                out.push(c);
                j = j + 2;
            } else {
                assert(before + Seq::<char>::empty() =~= before);
                return Some((out, j + 1));
            }
        } else {
            out.push(c);
            j = j + 1;
        }
        proof {
            match quoted_from(s@, j as int, q) {
                Some((rest, k)) => {
                    assert(before + (seq![c] + rest) =~= out@ + rest);
                },
                None => {},
            }
        }
    }
    None
}

pub open spec fn all_hex(s: Seq<char>) -> bool {
    forall|i: int| 0 <= i < s.len() ==> hex_value(#[trigger] s[i]) is Some
}

/// The bytes that pairs of hexadecimal digits denote.
pub open spec fn hex_bytes(s: Seq<char>) -> Seq<u8> {
    Seq::new(
        s.len() / 2,
        |k: int| (hex_value(s[2 * k])->0 * 16 + hex_value(s[2 * k + 1])->0) as u8,
    )
}

fn blob_of(s: &Vec<char>) -> (r: Option<Vec<u8>>)
    ensures
        (match r {
            Some(b) => s@.len() % 2 == 0 && all_hex(s@) && b@ == hex_bytes(s@),
            None => !(s@.len() % 2 == 0 && all_hex(s@)),
        }),
{
    if s.len() % 2 != 0 {
        return None;
    }
    let mut out: Vec<u8> = Vec::new();
    let mut k: usize = 0;
    let half: usize = s.len() / 2;
    while k < half
        invariant
            k <= half,
            s@.len() == 2 * half,
            out@.len() == k,
            forall|i: int| 0 <= i < 2 * k ==> hex_value(#[trigger] s@[i]) is Some,
            forall|i: int| 0 <= i < k ==> #[trigger] out@[i] == hex_bytes(s@)[i],
        decreases half - k,
    {
        assert(s.len() == s@.len());
        match (hex_digit(s[2 * k]), hex_digit(s[2 * k + 1])) {
            (Some(a), Some(b)) => {
                out.push((a * 16 + b) as u8);
            },
            _ => {
                assert(hex_value(s@[2 * k as int]) is None || hex_value(s@[2 * k + 1]) is None);
                return None;
            },
        }
        k = k + 1;
    }
    assert(out@ =~= hex_bytes(s@));
    Some(out)
}

/// The end of the fraction of a numeral whose digits end at `d`, if it has one.
pub open spec fn fraction_end(s: Seq<char>, d: int) -> Option<int> {
    if char_at(s, d) == Some('.') && !(d + 1 < s.len() && is_letter(s[d + 1])) {
        Some(digits_end(s, d + 1))
    } else {
        None
    }
}

/// The end of the exponent that starts at `f`, if there is one.
pub open spec fn exponent_end(s: Seq<char>, f: int) -> Option<int> {
    if char_at(s, f) == Some('e') || char_at(s, f) == Some('E') {
        let j = if char_at(s, f + 1) == Some('+') || char_at(s, f + 1) == Some('-') {
            f + 2
        } else {
            f + 1
        };
        if j < s.len() && is_digit(s[j]) {
            Some(digits_end(s, j + 1))
        } else {
            None
        }
    } else {
        None
    }
}

/// The end of the numeral at `i`, and whether it is a real.
pub open spec fn numeral_end(s: Seq<char>, i: int) -> (int, bool) {
    let d = digits_end(s, i);
    let (f, frac) = match fraction_end(s, d) {
        Some(e) => (e, true),
        None => (d, false),
    };
    match exponent_end(s, f) {
        Some(e) => (e, true),
        None => (f, frac),
    }
}

fn skip_numeral(s: &[char], i: usize) -> (r: (usize, bool))
    requires
        i <= s@.len(),
    ensures
        r.0 == numeral_end(s@, i as int).0,
        r.1 == numeral_end(s@, i as int).1,
        i <= r.0 <= s@.len(),
{
    let d: usize = skip_digits(s, i);
    let mut f: usize = d;
    let mut is_real = false;
    if d < s.len() && s[d] == '.' && !(d + 1 < s.len() && letter(s[d + 1])) {
        f = skip_digits(s, d + 1);
        is_real = true;
    }
    if f < s.len() && (s[f] == 'e' || s[f] == 'E') {
        let mut j: usize = f + 1;
        if j < s.len() && (s[j] == '+' || s[j] == '-') {
            j = j + 1;
        }
        if j < s.len() && digit(s[j]) {
            f = skip_digits(s, j + 1);
            is_real = true;
        }
    }
    (f, is_real)
}

/// The token of a numeral.
pub open spec fn numeral_token(s: Seq<char>, i: int, reals: RealTableV) -> Result<TokV, ErrorV> {
    let (end, is_real) = numeral_end(s, i);
    let text = s.subrange(i, end);
    if is_real {
        match known_numeral(reals, text) {
            Ok(Some(b)) => Ok(TokV::Float(b)),
            Ok(None) => Err(lex_error(s, i, "literal real inválido"@)),
            Err(op) => Err(ErrorV::NeedsReal(op)),
        }
    } else {
        match i64_of(text) {
            Some(n) => Ok(TokV::Int(n)),
            None => Err(lex_error(s, i, "entero fuera de rango (i64)"@)),
        }
    }
}

/// The token of `?` and the digits after it.
pub open spec fn param_token(s: Seq<char>, i: int) -> Result<TokV, ErrorV> {
    let end = digits_end(s, i + 1);
    if end == i + 1 {
        Err(lex_error(s, i, "parámetro sin número: usa ?1, ?2, …"@))
    } else {
        match usize_of(s.subrange(i + 1, end)) {
            None => Err(lex_error(s, i, "número de parámetro demasiado grande"@)),
            Some(n) => if n == 0 {
                Err(lex_error(s, i, "los parámetros empiezan en ?1"@))
            } else {
                Ok(TokV::Param(n))
            },
        }
    }
}

/// The token written with the one character `c`.
pub open spec fn sign_of(c: char) -> Option<TokV> {
    match c {
        '(' => Some(TokV::LParen),
        ')' => Some(TokV::RParen),
        ',' => Some(TokV::Comma),
        ';' => Some(TokV::Semi),
        '.' => Some(TokV::Dot),
        '+' => Some(TokV::Plus),
        '-' => Some(TokV::Minus),
        '*' => Some(TokV::Star),
        '/' => Some(TokV::Slash),
        '%' => Some(TokV::Percent),
        '=' => Some(TokV::Eq),
        '<' => Some(TokV::Lt),
        '>' => Some(TokV::Gt),
        _ => None,
    }
}

/// The token written with the two characters `c` and `d`.
pub open spec fn pair_of(c: char, d: char) -> Option<TokV> {
    match (c, d) {
        ('|', '|') => Some(TokV::Concat),
        ('!', '=') => Some(TokV::Ne),
        ('<', '=') => Some(TokV::Le),
        ('<', '>') => Some(TokV::Ne),
        ('>', '=') => Some(TokV::Ge),
        ('-', '>') => Some(TokV::Arrow),
        _ => None,
    }
}

fn sign(c: char) -> (r: Option<Tok>)
    ensures
        (match sign_of(c) {
            Some(t) => r is Some && r->0@ == t,
            None => r is None,
        }),
{
    match c {
        '(' => Some(Tok::LParen),
        ')' => Some(Tok::RParen),
        ',' => Some(Tok::Comma),
        ';' => Some(Tok::Semi),
        '.' => Some(Tok::Dot),
        '+' => Some(Tok::Plus),
        '-' => Some(Tok::Minus),
        '*' => Some(Tok::Star),
        '/' => Some(Tok::Slash),
        '%' => Some(Tok::Percent),
        '=' => Some(Tok::Eq),
        '<' => Some(Tok::Lt),
        '>' => Some(Tok::Gt),
        _ => None,
    }
}

fn pair(c: char, d: char) -> (r: Option<Tok>)
    ensures
        (match pair_of(c, d) {
            Some(t) => r is Some && r->0@ == t,
            None => r is None,
        }),
{
    match (c, d) {
        ('|', '|') => Some(Tok::Concat),
        ('!', '=') => Some(Tok::Ne),
        ('<', '=') => Some(Tok::Le),
        ('<', '>') => Some(Tok::Ne),
        ('>', '=') => Some(Tok::Ge),
        ('-', '>') => Some(Tok::Arrow),
        _ => None,
    }
}

/// What stands at the character `i`: a token, or nothing for blanks and comments, and
/// the index after it.
pub open spec fn lexeme(s: Seq<char>, i: int, reals: RealTableV) -> Result<
    (Option<TokV>, int),
    ErrorV,
> {
    let c = s[i];
    let next = char_at(s, i + 1);
    if c == ' ' || c == '\t' || c == '\r' || c == '\n' {
        Ok((None, i + 1))
    } else if c == '-' && next == Some('-') {
        Ok((None, line_end(s, i)))
    } else if c == '-' && next == Some('>') && char_at(s, i + 2) == Some('>') {
        Ok((Some(TokV::ArrowArrow), i + 3))
    } else if next is Some && pair_of(c, next->0) is Some {
        Ok((pair_of(c, next->0), i + 2))
    } else if sign_of(c) is Some {
        Ok((sign_of(c), i + 1))
    } else if c == '?' {
        match param_token(s, i) {
            Ok(t) => Ok((Some(t), digits_end(s, i + 1))),
            Err(e) => Err(e),
        }
    } else if c == ':' {
        if next is Some && (is_letter(next->0) || next->0 == '_') {
            let end = name_end(s, i + 1);
            Ok((Some(TokV::NamedParam(s.subrange(i + 1, end))), end))
        } else {
            Err(lex_error(s, i, "parámetro nombrado sin nombre: usa :nombre"@))
        }
    } else if c == '\'' {
        match quoted_from(s, i + 1, '\'') {
            Some((t, j)) => Ok((Some(TokV::Str(t)), j)),
            None => Err(lex_error(s, i, "cadena sin cerrar"@)),
        }
    } else if c == '"' {
        match quoted_from(s, i + 1, '"') {
            Some((t, j)) => if t.len() == 0 {
                Err(lex_error(s, i, "identificador entre comillas vacío"@))
            } else {
                Ok((Some(TokV::Ident(t)), j))
            },
            None => Err(lex_error(s, i, "identificador entre comillas sin cerrar"@)),
        }
    } else if (c == 'x' || c == 'X') && next == Some('\'') {
        match quoted_from(s, i + 2, '\'') {
            Some((t, j)) => if t.len() % 2 == 0 && all_hex(t) {
                Ok((Some(TokV::Blob(hex_bytes(t))), j))
            } else {
                Err(lex_error(s, i, "literal de blob inválido: usa x'AABB…'"@))
            },
            None => Err(lex_error(s, i + 1, "cadena sin cerrar"@)),
        }
    } else if is_digit(c) {
        match numeral_token(s, i, reals) {
            Ok(t) => Ok((Some(t), numeral_end(s, i).0)),
            Err(e) => Err(e),
        }
    } else if starts_word(c) {
        let end = word_end(s, i);
        let word = s.subrange(i, end);
        match keyword_of(word) {
            Some(k) => Ok((Some(TokV::Kw(k)), end)),
            None => Ok((Some(TokV::Ident(word)), end)),
        }
    } else {
        Err(lex_error(s, i, "carácter inesperado"@))
    }
}

/// The tokens from the character `i` on.
pub open spec fn lexed_from(s: Seq<char>, i: int, reals: RealTableV) -> Result<
    Seq<SpannedV>,
    ErrorV,
>
    decreases s.len() - i,
{
    if !(0 <= i < s.len()) {
        Ok(Seq::empty())
    } else {
        match lexeme(s, i, reals) {
            Err(e) => Err(e),
            Ok((t, j)) => if i < j <= s.len() {
                match lexed_from(s, j, reals) {
                    Err(e) => Err(e),
                    Ok(rest) => match t {
                        Some(tok) => Ok(seq![SpannedV { tok, pos: byte_at(s, i) }] + rest),
                        None => Ok(rest),
                    },
                }
            } else {
                Ok(Seq::empty())
            },
        }
    }
}

/// The tokens of a text.
pub open spec fn lexed(s: Seq<char>, reals: RealTableV) -> Result<Seq<SpannedV>, ErrorV> {
    lexed_from(s, 0, reals)
}

fn err_at(s: &[char], pos: usize, msg: &str, Ghost(i): Ghost<int>) -> (r: Error)
    requires
        pos == byte_at(s@, i),
    ensures
        r@ == lex_error(s@, i, msg@),
{
    sql_at(msg.to_owned(), pos)
}

/// The byte positions of the characters of `text`, and of its end.
fn byte_positions(text: &str, s: &[char]) -> (r: Vec<usize>)
    requires
        s@ == text@,
    ensures
        r@.len() == s@.len() + 1,
        forall|i: int| 0 <= i <= s@.len() ==> #[trigger] r@[i] == byte_at(s@, i),
        r@[s@.len() as int] == text_width(s@),
{
    let total: usize = text.as_bytes().len();
    proof {
        lemma_text_bytes(text@);
        assert(s@.take(0) =~= Seq::empty());
    }
    assert(total == text_width(s@));
    let mut out: Vec<usize> = Vec::new();
    let mut at: usize = 0;
    out.push(at);
    let mut i: usize = 0;
    while i < s.len()
        invariant
            i <= s@.len(),
            total == text_width(s@),
            out@.len() == i + 1,
            at == text_width(s@.take(i as int)),
            forall|k: int| 0 <= k <= i ==> #[trigger] out@[k] == byte_at(s@, k),
        decreases s@.len() - i,
    {
        proof {
            lemma_take_width(s@, i as int, i + 1);
            lemma_take_width(s@, i + 1, s@.len() as int);
            assert(s@.take(s@.len() as int) =~= s@);
            assert(s@.take(i + 1).drop_last() =~= s@.take(i as int));
        }
        at = at + utf8_width(s[i]);
        out.push(at);
        i = i + 1;
    }
    assert(s@.take(s@.len() as int) =~= s@);
    out
}

#[verifier::spinoff_prover]
#[verifier::rlimit(60)]
fn next_lexeme(s: &[char], at: &Vec<usize>, i: usize, reals: &RealTable) -> (r: Result<
    (Option<Tok>, usize),
    Error,
>)
    requires
        i < s@.len(),
        at@.len() == s@.len() + 1,
        forall|k: int| 0 <= k <= s@.len() ==> #[trigger] at@[k] == byte_at(s@, k),
    ensures
        (match lexeme(s@, i as int, reals@) {
            Ok((t, j)) => r is Ok && (r->Ok_0).1 == j && i < j <= s@.len() && (match t {
                Some(t) => (r->Ok_0).0 is Some && (r->Ok_0).0->0@ == t,
                None => (r->Ok_0).0 is None,
            }),
            Err(e) => r is Err && r->Err_0@ == e,
        }),
{
    let c: char = s[i];
    let n: usize = s.len();
    let pos: usize = at[i];
    let ghost gi = i as int;
    let next: Option<char> = if i + 1 < n {
        Some(s[i + 1])
    } else {
        None
    };
    assert(next == char_at(s@, i + 1));
    if c == ' ' || c == '\t' || c == '\r' || c == '\n' {
        return Ok((None, i + 1));
    }
    if c == '-' && i + 1 < n && s[i + 1] == '-' {
        let e: usize = skip_line(s, i + 1);
        assert(line_end(s@, i as int) == line_end(s@, i + 1));
        return Ok((None, e));
    }
    if c == '-' && i + 1 < n && s[i + 1] == '>' && n - i > 2 && s[i + 2] == '>' {
        return Ok((Some(Tok::ArrowArrow), i + 3));
    }
    if let Some(d) = next {
        if let Some(t) = pair(c, d) {
            return Ok((Some(t), i + 2));
        }
    }
    if let Some(t) = sign(c) {
        return Ok((Some(t), i + 1));
    }
    if c == '?' {
        let e: usize = skip_digits(s, i + 1);
        if e == i + 1 {
            return Err(err_at(s, pos, "parámetro sin número: usa ?1, ?2, …", Ghost(gi)));
        }
        let text = string_range(s, i + 1, e);
        let digits = chars_of(text.as_str());
        return match parse_usize(digits.as_slice()) {
            None => Err(err_at(s, pos, "número de parámetro demasiado grande", Ghost(gi))),
            Some(k) => if k == 0 {
                Err(err_at(s, pos, "los parámetros empiezan en ?1", Ghost(gi)))
            } else {
                Ok((Some(Tok::Param(k)), e))
            },
        };
    }
    if c == ':' {
        if i + 1 < n && (letter(s[i + 1]) || s[i + 1] == '_') {
            let e: usize = skip_name(s, i + 1);
            return Ok((Some(Tok::NamedParam(string_range(s, i + 1, e))), e));
        }
        return Err(err_at(s, pos, "parámetro nombrado sin nombre: usa :nombre", Ghost(gi)));
    }
    if c == '\'' {
        return match quoted(s, i + 1, '\'') {
            Some((t, j)) => Ok((Some(Tok::Str(string_of(t))), j)),
            None => Err(err_at(s, pos, "cadena sin cerrar", Ghost(gi))),
        };
    }
    if c == '"' {
        return match quoted(s, i + 1, '"') {
            Some((t, j)) => if t.len() == 0 {
                Err(err_at(s, pos, "identificador entre comillas vacío", Ghost(gi)))
            } else {
                Ok((Some(Tok::Ident(string_of(t))), j))
            },
            None => Err(err_at(s, pos, "identificador entre comillas sin cerrar", Ghost(gi))),
        };
    }
    if (c == 'x' || c == 'X') && i + 1 < n && s[i + 1] == '\'' {
        return match quoted(s, i + 2, '\'') {
            Some((t, j)) => match blob_of(&t) {
                Some(b) => Ok((Some(Tok::Blob(b)), j)),
                None => Err(
                    err_at(s, pos, "literal de blob inválido: usa x'AABB…'", Ghost(gi)),
                ),
            },
            None => Err(err_at(s, at[i + 1], "cadena sin cerrar", Ghost(gi + 1))),
        };
    }
    if digit(c) {
        let (e, is_real) = skip_numeral(s, i);
        assert(digits_end(s@, i as int) == digits_end(s@, i + 1));
        proof {
            lemma_numeral_end(s@, i as int);
        }
        let text = string_range(s, i, e);
        if is_real {
            return match reals.numeral(text) {
                Ok(Some(b)) => Ok((Some(Tok::Float(b)), e)),
                Ok(None) => Err(err_at(s, pos, "literal real inválido", Ghost(gi))),
                Err(op) => Err(Error::NeedsReal(op)),
            };
        }
        let digits = chars_of(text.as_str());
        return match parse_i64(digits.as_slice()) {
            Some(v) => Ok((Some(Tok::Int(v)), e)),
            None => Err(err_at(s, pos, "entero fuera de rango (i64)", Ghost(gi))),
        };
    }
    if letter(c) || c == '_' || c as u32 >= 0x80 {
        let e: usize = skip_word(s, i);
        assert(word_end(s@, i as int) == word_end(s@, i + 1));
        proof {
            lemma_word_end(s@, i + 1);
        }
        let word = string_range(s, i, e);
        return match keyword(word.as_str()) {
            Some(k) => Ok((Some(Tok::Kw(k)), e)),
            None => Ok((Some(Tok::Ident(word)), e)),
        };
    }
    Err(err_at(s, pos, "carácter inesperado", Ghost(gi)))
}

proof fn lemma_digits_end(s: Seq<char>, i: int)
    requires
        0 <= i <= s.len(),
    ensures
        i <= digits_end(s, i) <= s.len(),
    decreases s.len() - i,
{
    if i < s.len() && is_digit(s[i]) {
        lemma_digits_end(s, i + 1);
    }
}

proof fn lemma_word_end(s: Seq<char>, i: int)
    requires
        0 <= i <= s.len(),
    ensures
        i <= word_end(s, i) <= s.len(),
    decreases s.len() - i,
{
    if i < s.len() && in_word(s[i]) {
        lemma_word_end(s, i + 1);
    }
}

proof fn lemma_numeral_end(s: Seq<char>, i: int)
    requires
        0 <= i < s.len(),
        is_digit(s[i]),
    ensures
        i < numeral_end(s, i).0 <= s.len(),
{
    lemma_digits_end(s, i + 1);
    let d = digits_end(s, i);
    if d + 1 <= s.len() {
        lemma_digits_end(s, d + 1);
    }
    let f = match fraction_end(s, d) {
        Some(e) => e,
        None => d,
    };
    if f + 2 <= s.len() {
        lemma_digits_end(s, f + 2);
    }
    if f + 3 <= s.len() {
        lemma_digits_end(s, f + 3);
    }
}

/// The tokens of `sql`; reals are read through `reals`.
pub fn lex(sql: &str, reals: &RealTable) -> (r: Result<Vec<Spanned>, Error>)
    ensures
        (match lexed(sql@, reals@) {
            Ok(ts) => r is Ok && spanned_v(r->Ok_0@) == ts,
            Err(e) => r is Err && r->Err_0@ == e,
        }),
{
    let chars = chars_of(sql);
    let s = chars.as_slice();
    let at = byte_positions(sql, s);
    let mut out: Vec<Spanned> = Vec::new();
    let mut i: usize = 0;
    let ghost all = lexed(s@, reals@);
    assert(spanned_v(out@) =~= Seq::empty());
    assert(all is Ok ==> Seq::<SpannedV>::empty() + all->Ok_0 =~= all->Ok_0);
    while i < s.len()
        invariant
            i <= s@.len(),
            s@ == sql@,
            at@.len() == s@.len() + 1,
            forall|k: int| 0 <= k <= s@.len() ==> #[trigger] at@[k] == byte_at(s@, k),
            all == lexed(sql@, reals@),
            (match lexed_from(s@, i as int, reals@) {
                Ok(rest) => all == Ok::<Seq<SpannedV>, ErrorV>(spanned_v(out@) + rest),
                Err(e) => all == Err::<Seq<SpannedV>, ErrorV>(e),
            }),
        decreases s@.len() - i,
    {
        let ghost before = spanned_v(out@);
        let (t, j) = next_lexeme(s, &at, i, reals)?;
        match t {
            Some(tok) => {
                out.push(Spanned { tok, pos: at[i] });
                assert(spanned_v(out@) =~= before.push(SpannedV { tok: tok@, pos: byte_at(s@, i as int) }));
                proof {
                    match lexed_from(s@, j as int, reals@) {
                        Ok(rest) => {
                            assert(before + (seq![SpannedV { tok: tok@, pos: byte_at(s@, i as int) }] + rest)
                                =~= spanned_v(out@) + rest);
                        },
                        Err(_) => {},
                    }
                }
            },
            None => {},
        }
        i = j;
    }
    assert(spanned_v(out@) + Seq::<SpannedV>::empty() =~= spanned_v(out@));
    Ok(out)
}

} // verus!
