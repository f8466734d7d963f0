//! The parser of the dialect: reads tokens into syntax trees, by recursive descent.
use vstd::prelude::*;

use crate::catalog::{ColType, ColumnFk, ColumnPos, FkAction, ForeignKeySpec, TriggerEvent, TriggerForEach, TriggerTiming};
#[allow(unused_imports)]
use crate::catalog::{foreign_key_specs_v, strings_v};
use crate::error::{sql_at, Error};
#[allow(unused_imports)]
use crate::error::{gives, ErrorV};
use crate::reals::{RealTable, RealTableV};
use crate::record::Value;
use crate::sql::ast::{AggFunc, AsOfClause, BinOp, ColumnAst, CompoundSelect, Cte, Expr, InsertSource, Join, JoinKind, OnConflict, OrderBy, SelectItem, SelectStmt, SetOp, Stmt, TableRef, UnOp, WindowFunc};
#[allow(unused_imports)]
use crate::sql::ast::{expr_v, column_asts_v, compound_selects_v, ctes_v, expr_expr_pairs_v, exprs_v, exprss_v, joins_v, order_bys_v, select_items_v, string_expr_pairs_v, ColumnAstV, CompoundSelectV, CteV, ExprV, JoinV, OnConflictV, OrderByV, SelectItemV, SelectStmtV, StmtV, TableRefV};
#[allow(unused_imports)]
use crate::catalog::{ColumnFkV, ForeignKeySpecV};
use crate::sql::datetime::parse_rfc3339_ms;
use crate::sql::grammar::MAX_EXPR_DEPTH;
#[allow(unused_imports)]
use crate::sql::grammar::{cte_at, extreme_at, like_at, range_at, set_at, value_row_at, aggregate_at, aggregate_named, aggregate_rest, alter_at, args_at, as_of_at, attributes_at, binary, body_at, call_at, case_at, case_rest, cast_at, chain_at, chain_rest, clause_at, close_at, coltype_at, column_at, column_pos_at, compare_at, comparison, compounds_at, core_at, create_at, create_index_at, create_table_at, create_trigger_at, create_view_at, ctes_at, delete_at, drop_at, error_at, event_at, expect_at, expected, expr_at, exprs_at, fk_action_at, fk_actions_at, fk_reference_at, for_each_at, from_at, history_ahead, if_exists_at, if_not_exists_at, in_at, insert_at, insert_columns_at, is_kw, is_tok, item_at, items_at, join_kind_at, joins_at, keys_at, keyword_at, level_rank, members_at, mixed_params, name_at, name_list_at, name_place, names_at, not_at, on_conflict_at, operand_at, operator, order_item_at, order_items_at, ordering_at, over_at, parsed, parsed_full, parsed_many, pos_at, primary_at, returning_at, select_at, set_op_at, sets_at, skip, source_of, start, stmt_at, stmts_at, suffix_at, table_at, table_fk_at, targets_at, text_between, timing_at, tok_at, unary_at, update_at, value_rows_at, whens_at, window_call, window_named, with_at, with_name, At, Got, Source};
use crate::sql::lexer::{lex, Kw, Spanned, Tok};
#[allow(unused_imports)]
use crate::sql::lexer::{byte_at, lexed, lexed_from, lexeme, spanned_v, SpannedV, TokV};
use crate::text::{cat, cat3, chars_of, slice_of, str_eq, string_range, trim_bounds, upper_ascii};
#[allow(unused_imports)]
use crate::text::{boundary, lemma_take_width, lemma_text_bytes, text_width};

verus! {

/// Each token stands at a boundary of characters of the source, in order.
#[verifier::opaque]
pub open spec fn in_place(c: Source) -> bool {
    &&& c.end == text_width(c.src)
    &&& forall|i: int| 0 <= i < c.toks.len() ==> boundary(c.src, (#[trigger] c.toks[i]).pos as nat) && c.toks[i].pos <= c.end
    &&& forall|i: int, j: int| 0 <= i <= j < c.toks.len() ==> (#[trigger] c.toks[i]).pos <= (#[trigger] c.toks[j]).pos
}

/// The tokens of a text stand at boundaries of its characters, in order.
pub proof fn tokens_in_place(s: Seq<char>, reals: RealTableV)
    requires
        text_width(s) <= usize::MAX,
        lexed(s, reals) is Ok,
    ensures
        in_place(source_of(lexed(s, reals)->Ok_0, s)),
{
    lemma_tokens(s, 0, reals);
    reveal(in_place);
    assert(s.take(s.len() as int) =~= s);
}

proof fn lemma_tokens(s: Seq<char>, i: int, reals: RealTableV)
    requires
        0 <= i <= s.len(),
        text_width(s) <= usize::MAX,
        lexed_from(s, i, reals) is Ok,
    ensures
        ({
                let ts = lexed_from(s, i, reals)->Ok_0;
                &&& forall|k: int| 0 <= k < ts.len() ==> boundary(s, (#[trigger] ts[k]).pos as nat) && byte_at(s, i) <= ts[k].pos <= text_width(s)
                &&& forall|k: int, m: int| 0 <= k <= m < ts.len() ==> (#[trigger] ts[k]).pos <= (#[trigger] ts[m]).pos
        }),
    decreases s.len() - i,
{
    lemma_take_width(s, i, s.len() as int);
    assert(s.take(s.len() as int) =~= s);
    if i < s.len() {
        match lexeme(s, i, reals) {
            Err(_) => {},
            Ok((t, j)) => {
                if i < j <= s.len() {
                    lemma_take_width(s, i, j);
                    lemma_take_width(s, j, s.len() as int);
                    lemma_tokens(s, j, reals);
                    let rest = lexed_from(s, j, reals)->Ok_0;
                    match t {
                        Some(tok) => {
                            let ts = seq![SpannedV { tok, pos: byte_at(s, i) }] + rest;
                            assert(boundary(s, byte_at(s, i) as nat));
                            assert forall|k: int| 0 <= k < ts.len() implies boundary(s, (#[trigger] ts[k]).pos as nat) && byte_at(s, i) <= ts[k].pos <= text_width(s) by {
                                if k > 0 {
                                    assert(ts[k] == rest[k - 1]);
                                }
                            }
                            assert forall|k: int, m: int| 0 <= k <= m < ts.len() implies (#[trigger] ts[k]).pos <= (#[trigger] ts[m]).pos by {
                                if k > 0 {
                                    assert(ts[k] == rest[k - 1]);
                                }
                                if m > 0 {
                                    assert(ts[m] == rest[m - 1]);
                                }
                            }
                        },
                        None => {},
                    }
                }
            },
        }
    }
}

struct Parser<'a> {
    src: &'a str,
    toks: Vec<Spanned>,
    i: usize,
    end: usize,
    names: Vec<String>,
    numbered: bool,
}

/// The outcome `r` of a parser that went from `p` to `q` is `want`.
spec fn ran<V>(p: Parser<'_>, q: Parser<'_>, r: Result<V, ErrorV>, want: Got<V>) -> bool {
    &&& q.source() == p.source()
    &&& q.wf()
    &&& match want {
        Ok((v, s)) => r == Ok::<V, ErrorV>(v) && q.at() == s && p.i <= q.i,
        Err(e) => r == Err::<V, ErrorV>(e),
    }
}

/// As `ran`, with at least one token read.
spec fn moved<V>(p: Parser<'_>, q: Parser<'_>, r: Result<V, ErrorV>, want: Got<V>) -> bool {
    &&& ran(p, q, r, want)
    &&& want is Ok ==> p.i < q.i
}

fn unit_same(a: &Tok, b: &Tok) -> (r: bool)
    requires
        b is LParen || b is RParen || b is Comma || b is Semi || b is Dot || b is Star || b is Minus || b is Eq || b is Kw,
    ensures
        r == (a@ == b@),
{
    match (a, b) {
        (Tok::LParen, Tok::LParen) => true,
        (Tok::RParen, Tok::RParen) => true,
        (Tok::Comma, Tok::Comma) => true,
        (Tok::Semi, Tok::Semi) => true,
        (Tok::Dot, Tok::Dot) => true,
        (Tok::Star, Tok::Star) => true,
        (Tok::Minus, Tok::Minus) => true,
        (Tok::Eq, Tok::Eq) => true,
        (Tok::Kw(x), Tok::Kw(y)) => *x == *y,
        _ => false,
    }
}

fn aggregate_of(name: &str) -> (r: Option<AggFunc>)
    ensures
        r == aggregate_named(name@),
{
    if str_eq(name, "COUNT") {
        Some(AggFunc::Count)
    } else if str_eq(name, "SUM") {
        Some(AggFunc::Sum)
    } else if str_eq(name, "AVG") {
        Some(AggFunc::Avg)
    } else if str_eq(name, "GROUP_CONCAT") {
        Some(AggFunc::GroupConcat)
    } else {
        None
    }
}

fn window_of(name: &str) -> (r: Option<WindowFunc>)
    ensures
        r == window_named(name@),
{
    if str_eq(name, "ROW_NUMBER") {
        Some(WindowFunc::RowNumber)
    } else if str_eq(name, "RANK") {
        Some(WindowFunc::Rank)
    } else if str_eq(name, "DENSE_RANK") {
        Some(WindowFunc::DenseRank)
    } else if str_eq(name, "NTILE") {
        Some(WindowFunc::Ntile)
    } else if str_eq(name, "LAG") {
        Some(WindowFunc::Lag)
    } else if str_eq(name, "LEAD") {
        Some(WindowFunc::Lead)
    } else if str_eq(name, "FIRST_VALUE") {
        Some(WindowFunc::FirstValue)
    } else if str_eq(name, "LAST_VALUE") {
        Some(WindowFunc::LastValue)
    } else {
        None
    }
}

/// The window function that a call becomes, or the message.
fn to_window(call: Expr) -> (r: Result<(WindowFunc, Vec<Expr>), String>)
    ensures
        (match window_call(call@) {
                Ok((f, args)) => r is Ok && (r->Ok_0).0 == f && exprs_v((r->Ok_0).1@) == args,
                Err(msg) => r is Err && r->Err_0@ == msg,
        }),
{
    proof {
        reveal(window_call);
    }
    match call {
        Expr::Aggregate { func, arg, distinct, sep } => {
            if distinct {
                return Err("DISTINCT no se admite en una ventana".to_owned());
            }
            if sep.is_some() || func == AggFunc::GroupConcat {
                return Err("GROUP_CONCAT no se admite como ventana".to_owned());
            }
            let mut args: Vec<Expr> = Vec::new();
            let ghost garg = arg;
            match arg {
                Some(x) => {
                    args.push(*x);
                    assert(exprs_v(args@) =~= seq![expr_v(*garg->0)]);
                },
                None => {
                    assert(exprs_v(args@) =~= Seq::empty());
                },
            }
            let wf = match func {
                AggFunc::Sum => WindowFunc::Sum,
                AggFunc::Count => WindowFunc::Count,
                AggFunc::Avg => WindowFunc::Avg,
                AggFunc::Min => WindowFunc::Min,
                _ => WindowFunc::Max,
            };
            Ok((wf, args))
        },
        Expr::Function { name, args } => {
            let upper = upper_ascii(name.as_str());
            match window_of(upper.as_str()) {
                Some(wf) => Ok((wf, args)),
                None => Err(cat3("«", upper.as_str(), "» no es una función de ventana")),
            }
        },
        _ => Err("OVER solo puede seguir a una función".to_owned()),
    }
}

fn join2(l: Expr, op: BinOp, r: Expr) -> (e: Expr)
    ensures
        e@ == binary(l@, op, r@),
{
    Expr::Binary(Box::new(l), op, Box::new(r))
}

impl<'a> Parser<'a> {

    spec fn source(&self) -> Source {
        Source { toks: spanned_v(self.toks@), src: self.src@, end: self.end }
    }

    spec fn at(&self) -> At {
        At { i: self.i as int, names: strings_v(self.names@), numbered: self.numbered }
    }

    spec fn wf(&self) -> bool {
        self.i <= self.toks@.len() && in_place(self.source())
    }

    fn peek(&self) -> (r: Option<&Tok>)
        ensures
            (match tok_at(self.source(), self.i as int) {
                    Some(t) => r is Some && r->0@ == t,
                    None => r is None,
            }),
    {
        if self.i < self.toks.len() {
            assert(self.source().toks[self.i as int] == self.toks@[self.i as int]@);
            Some(&self.toks[self.i].tok)
        } else {
            None
        }
    }

    fn is_at(&self, t: Tok) -> (r: bool)
        requires
            t is LParen || t is RParen || t is Comma || t is Semi || t is Dot || t is Star || t is Minus || t is Eq || t is Kw,
        ensures
            r == is_tok(self.source(), self.i as int, t@),
            r ==> self.i < self.toks@.len(),
    {
        match self.peek() {
            Some(p) => unit_same(p, &t),
            None => false,
        }
    }

    fn is_next(&self, t: Tok) -> (r: bool)
        requires
            self.i < self.toks@.len(),
            t is LParen || t is RParen || t is Comma || t is Semi || t is Dot || t is Star || t is Minus || t is Eq || t is Kw,
        ensures
            r == is_tok(self.source(), self.i + 1, t@),
            r ==> self.i + 1 < self.toks@.len(),
    {
        assert(self.toks.len() == self.toks@.len());
        if self.i + 1 < self.toks.len() {
            assert(self.source().toks[self.i + 1] == self.toks@[self.i + 1]@);
            unit_same(&self.toks[self.i + 1].tok, &t)
        } else {
            false
        }
    }

    fn pos(&self) -> (r: usize)
        ensures
            r == pos_at(self.source(), self.i as int),
    {
        if self.i < self.toks.len() {
            assert(self.source().toks[self.i as int] == self.toks@[self.i as int]@);
            self.toks[self.i].pos
        } else {
            self.end
        }
    }

    fn fail(&self, msg: &str) -> (r: Error)
        ensures
            r@ == error_at(self.source(), self.i as int, msg@),
    {
        sql_at(msg.to_owned(), self.pos())
    }

    fn missing(&self, what: &str) -> (r: Error)
        ensures
            r@ == expected(self.source(), self.i as int, what@),
    {
        sql_at(cat("se esperaba ", what), self.pos())
    }

    fn step(&mut self)
        requires
            old(self).wf(),
            old(self).i < old(self).toks@.len(),
        ensures
            final(self).wf(),
            final(self).source() == old(self).source(),
            final(self).at() == skip(old(self).at(), 1),
            final(self).i == old(self).i + 1,
    {
        assert(self.toks.len() == self.toks@.len());
        self.i = self.i + 1;
    }

    fn eat(&mut self, t: Tok) -> (r: bool)
        requires
            old(self).wf(),
            t is LParen || t is RParen || t is Comma || t is Semi || t is Dot || t is Star || t is Minus || t is Eq || t is Kw,
        ensures
            final(self).wf(),
            final(self).source() == old(self).source(),
            r == is_tok(old(self).source(), old(self).i as int, t@),
            final(self).at() == (if r { skip(old(self).at(), 1) } else { old(self).at() }),
            final(self).i == old(self).i + (if r { 1int } else { 0int }),
    {
        if self.is_at(t) {
            self.step();
            true
        } else {
            false
        }
    }

    fn eat_kw(&mut self, k: Kw) -> (r: bool)
        requires
            old(self).wf(),
        ensures
            final(self).wf(),
            final(self).source() == old(self).source(),
            r == is_kw(old(self).source(), old(self).i as int, k),
            final(self).at() == (if r { skip(old(self).at(), 1) } else { old(self).at() }),
            final(self).i == old(self).i + (if r { 1int } else { 0int }),
    {
        self.eat(Tok::Kw(k))
    }

    fn expect(&mut self, t: Tok, what: &str) -> (r: Result<(), Error>)
        requires
            old(self).wf(),
            t is LParen || t is RParen || t is Comma || t is Semi || t is Dot || t is Star || t is Minus || t is Eq || t is Kw,
        ensures
            moved(*old(self), *final(self), (match r { Ok(v) => Ok(v), Err(e) => Err(e@) }), expect_at(old(self).source(), old(self).at(), t@, what@)),
    {
        if self.eat(t) {
            Ok(())
        } else {
            Err(self.missing(what))
        }
    }

    fn expect_kw(&mut self, k: Kw, what: &str) -> (r: Result<(), Error>)
        requires
            old(self).wf(),
        ensures
            moved(*old(self), *final(self), (match r { Ok(v) => Ok(v), Err(e) => Err(e@) }), keyword_at(old(self).source(), old(self).at(), k, what@)),
    {
        self.expect(Tok::Kw(k), what)
    }

    fn ident(&mut self, what: &str) -> (r: Result<String, Error>)
        requires
            old(self).wf(),
        ensures
            moved(*old(self), *final(self), (match r { Ok(v) => Ok(v@), Err(e) => Err(e@) }), name_at(old(self).source(), old(self).at(), what@)),
    {
        match self.peek() {
            Some(Tok::Ident(s)) => {
                let name = s.clone();
                self.step();
                Ok(name)
            },
            _ => Err(self.missing(what)),
        }
    }

    fn close(&mut self) -> (r: Result<(), Error>)
        requires
            old(self).wf(),
        ensures
            moved(*old(self), *final(self), (match r { Ok(v) => Ok(v), Err(e) => Err(e@) }), close_at(old(self).source(), old(self).at(), ())),
    {
        self.expect(Tok::RParen, "')'")
    }

    fn idents(&mut self, what: &str) -> (r: Result<Vec<String>, Error>)
        requires
            old(self).wf(),
        ensures
            moved(*old(self), *final(self), (match r { Ok(v) => Ok(strings_v(v@)), Err(e) => Err(e@) }), names_at(old(self).source(), old(self).at(), what@)),
    {
        proof {
            reveal(names_at);
        }
        let ghost c0 = self.source();
        let ghost want = names_at(c0, self.at(), what@);
        let mut out: Vec<String> = Vec::new();
        assert(strings_v(out@) =~= Seq::empty());
        assert(want is Ok ==> Seq::empty() + (want->Ok_0).0 =~= (want->Ok_0).0);
        #[verifier::loop_isolation(false)]
        loop
            invariant
                self.wf(),
                self.source() == c0,
                old(self).i <= self.i,
                match names_at(c0, self.at(), what@) {
                    Ok((rest, s)) => want == Ok::<_, ErrorV>((strings_v(out@) + rest, s)),
                    Err(e) => want == Err::<(Seq<Seq<char>>, At), _>(e),
                },
            decreases self.toks@.len() - self.i,
        {
            proof {
                reveal(names_at);
            }
            let ghost before = strings_v(out@);
            let ghost gs = self.at();
            let name = self.ident(what)?;
            let ghost v = name@;
            out.push(name);
            assert(strings_v(out@) =~= before.push(v));
            if !self.eat(Tok::Comma) {
                assert(before + seq![v] =~= strings_v(out@));
                return Ok(out);
            }
            proof {
                match names_at(c0, self.at(), what@) {
                    Ok((rest, s)) => {
                        assert(before + (seq![v] + rest) =~= strings_v(out@) + rest);
                    },
                    Err(_) => {},
                }
            }
        }
    }

    fn ident_list(&mut self, what: &str) -> (r: Result<Vec<String>, Error>)
        requires
            old(self).wf(),
        ensures
            moved(*old(self), *final(self), (match r { Ok(v) => Ok(strings_v(v@)), Err(e) => Err(e@) }), name_list_at(old(self).source(), old(self).at(), what@)),
    {
        proof {
            reveal(name_list_at);
        }
        let names = self.idents(what)?;
        self.close()?;
        Ok(names)
    }

    // --- expressions ---

    fn expr(&mut self, d: usize) -> (r: Result<Expr, Error>)
        requires
            old(self).wf(),
        ensures
            moved(*old(self), *final(self), (match r { Ok(v) => Ok(v@), Err(e) => Err(e@) }), expr_at(old(self).source(), old(self).at(), d as int)),
        decreases old(self).toks@.len() - old(self).i, 60int,
    {
        if d >= MAX_EXPR_DEPTH {
            return Err(self.fail("expresión demasiado anidada"));
        }
        self.chain(d + 1, 0)
    }

    fn operand(&mut self, d: usize, level: u8) -> (r: Result<Expr, Error>)
        requires
            old(self).wf(),
        ensures
            moved(*old(self), *final(self), (match r { Ok(v) => Ok(v@), Err(e) => Err(e@) }), operand_at(old(self).source(), old(self).at(), d as int, level as int)),
        decreases old(self).toks@.len() - old(self).i, 2*level_rank(level as int),
    {
        if level == 0 {
            self.chain(d, 1)
        } else if level == 1 {
            self.negation(d)
        } else if level == 2 {
            self.chain(d, 3)
        } else if level == 3 {
            self.chain(d, 4)
        } else {
            self.unary(d)
        }
    }

    fn operator_here(&self, level: u8) -> (r: Option<BinOp>)
        ensures
            r == operator(level as int, tok_at(self.source(), self.i as int)),
            r is Some ==> self.i < self.toks@.len(),
    {
        match self.peek() {
            Some(Tok::Kw(Kw::Or)) => if level == 0 { Some(BinOp::Or) } else { None },
            Some(Tok::Kw(Kw::And)) => if level == 1 { Some(BinOp::And) } else { None },
            Some(Tok::Plus) => if level == 2 { Some(BinOp::Add) } else { None },
            Some(Tok::Minus) => if level == 2 { Some(BinOp::Sub) } else { None },
            Some(Tok::Star) => if level == 3 { Some(BinOp::Mul) } else { None },
            Some(Tok::Slash) => if level == 3 { Some(BinOp::Div) } else { None },
            Some(Tok::Percent) => if level == 3 { Some(BinOp::Mod) } else { None },
            Some(Tok::Concat) => if level == 4 { Some(BinOp::Concat) } else { None },
            Some(Tok::Arrow) => if level == 4 { Some(BinOp::JsonGet) } else { None },
            Some(Tok::ArrowArrow) => if level == 4 { Some(BinOp::JsonGetText) } else { None },
            _ => None,
        }
    }

    fn chain(&mut self, d: usize, level: u8) -> (r: Result<Expr, Error>)
        requires
            old(self).wf(),
        ensures
            moved(*old(self), *final(self), (match r { Ok(v) => Ok(v@), Err(e) => Err(e@) }), chain_at(old(self).source(), old(self).at(), d as int, level as int)),
        decreases old(self).toks@.len() - old(self).i, 2*level_rank(level as int)+1,
    {
        let ghost c0 = self.source();
        let ghost want = chain_at(c0, self.at(), d as int, level as int);
        let mut l = self.operand(d, level)?;
        #[verifier::loop_isolation(false)]
        loop
            invariant
                self.wf(),
                self.source() == c0,
                old(self).i < self.i,
                want == chain_rest(c0, self.at(), d as int, level as int, l@),
            decreases self.toks@.len() - self.i,
        {
            match self.operator_here(level) {
                None => {
                    return Ok(l);
                },
                Some(op) => {
                    self.step();
                    let r = self.operand(d, level)?;
                    l = join2(l, op, r);
                },
            }
        }
    }

    fn negation(&mut self, d: usize) -> (r: Result<Expr, Error>)
        requires
            old(self).wf(),
        ensures
            moved(*old(self), *final(self), (match r { Ok(v) => Ok(v@), Err(e) => Err(e@) }), not_at(old(self).source(), old(self).at(), d as int)),
        decreases old(self).toks@.len() - old(self).i, 54int,
    {
        if self.eat_kw(Kw::Not) {
            if d >= MAX_EXPR_DEPTH {
                return Err(self.fail("expresión demasiado anidada"));
            }
            let e = self.negation(d + 1)?;
            return Ok(Expr::Unary(UnOp::Not, Box::new(e)));
        }
        self.compare(d)
    }

    fn compare(&mut self, d: usize) -> (r: Result<Expr, Error>)
        requires
            old(self).wf(),
        ensures
            moved(*old(self), *final(self), (match r { Ok(v) => Ok(v@), Err(e) => Err(e@) }), compare_at(old(self).source(), old(self).at(), d as int)),
        decreases old(self).toks@.len() - old(self).i, 52int,
    {
        let l = self.chain(d, 2)?;
        self.suffix(d, l)
    }

    fn comparison_here(&self) -> (r: Option<BinOp>)
        ensures
            r == comparison(tok_at(self.source(), self.i as int)),
            r is Some ==> self.i < self.toks@.len(),
    {
        match self.peek() {
            Some(Tok::Eq) => Some(BinOp::Eq),
            Some(Tok::Ne) => Some(BinOp::Ne),
            Some(Tok::Lt) => Some(BinOp::Lt),
            Some(Tok::Le) => Some(BinOp::Le),
            Some(Tok::Gt) => Some(BinOp::Gt),
            Some(Tok::Ge) => Some(BinOp::Ge),
            _ => None,
        }
    }

    #[verifier::spinoff_prover]
    #[verifier::rlimit(60)]
    fn suffix(&mut self, d: usize, l: Expr) -> (r: Result<Expr, Error>)
        requires
            old(self).wf(),
        ensures
            ran(*old(self), *final(self), (match r { Ok(v) => Ok(v@), Err(e) => Err(e@) }), suffix_at(old(self).source(), old(self).at(), d as int, l@)),
        decreases old(self).toks@.len() - old(self).i, 0int,
    {
        if self.eat_kw(Kw::Is) {
            let negated = self.eat_kw(Kw::Not);
            self.expect_kw(Kw::Null, "NULL")?;
            return Ok(Expr::IsNull { expr: Box::new(l), negated });
        }
        if self.is_at(Tok::Kw(Kw::Not)) {
            let like = self.is_next(Tok::Kw(Kw::Like));
            let inside = self.is_next(Tok::Kw(Kw::In));
            let range = self.is_next(Tok::Kw(Kw::Between));
            if like || inside || range {
                self.step();
                self.step();
                if like {
                    return self.like(d, l, true);
                }
                if inside {
                    return self.membership(d, l, true);
                }
                return self.range(d, l, true);
            }
            return Ok(l);
        }
        if self.eat_kw(Kw::Like) {
            return self.like(d, l, false);
        }
        if self.eat_kw(Kw::In) {
            return self.membership(d, l, false);
        }
        if self.eat_kw(Kw::Between) {
            return self.range(d, l, false);
        }
        match self.comparison_here() {
            None => Ok(l),
            Some(op) => {
                self.step();
                let r = self.chain(d, 2)?;
                Ok(join2(l, op, r))
            },
        }
    }

    fn like(&mut self, d: usize, l: Expr, negated: bool) -> (r: Result<Expr, Error>)
        requires
            old(self).wf(),
        ensures
            ran(*old(self), *final(self), (match r { Ok(v) => Ok(v@), Err(e) => Err(e@) }), like_at(old(self).source(), old(self).at(), d as int, l@, negated)),
        decreases old(self).toks@.len() - old(self).i, 58int,
    {
        let p = self.chain(d, 2)?;
        Ok(Expr::Like { expr: Box::new(l), pattern: Box::new(p), negated })
    }

    fn range(&mut self, d: usize, l: Expr, negated: bool) -> (r: Result<Expr, Error>)
        requires
            old(self).wf(),
        ensures
            ran(*old(self), *final(self), (match r { Ok(v) => Ok(v@), Err(e) => Err(e@) }), range_at(old(self).source(), old(self).at(), d as int, l@, negated)),
        decreases old(self).toks@.len() - old(self).i, 58int,
    {
        let lo = self.chain(d, 2)?;
        self.expect_kw(Kw::And, "AND")?;
        let hi = self.chain(d, 2)?;
        let again = l.clone();
        if negated {
            Ok(join2(join2(again, BinOp::Lt, lo), BinOp::Or, join2(l, BinOp::Gt, hi)))
        } else {
            Ok(join2(join2(again, BinOp::Ge, lo), BinOp::And, join2(l, BinOp::Le, hi)))
        }
    }

    #[verifier::spinoff_prover]
    #[verifier::rlimit(60)]
    fn membership(&mut self, d: usize, l: Expr, negated: bool) -> (r: Result<Expr, Error>)
        requires
            old(self).wf(),
        ensures
            ran(*old(self), *final(self), (match r { Ok(v) => Ok(v@), Err(e) => Err(e@) }), in_at(old(self).source(), old(self).at(), d as int, l@, negated)),
        decreases old(self).toks@.len() - old(self).i, 0int,
    {
        self.expect(Tok::LParen, "'(' tras IN")?;
        if self.is_at(Tok::Kw(Kw::Select)) {
            let q = self.select(d)?;
            self.close()?;
            return Ok(Expr::InSubquery { expr: Box::new(l), query: Box::new(q), negated });
        }
        let list = self.args(d)?;
        Ok(Expr::In { expr: Box::new(l), list, negated })
    }

    fn unary(&mut self, d: usize) -> (r: Result<Expr, Error>)
        requires
            old(self).wf(),
        ensures
            moved(*old(self), *final(self), (match r { Ok(v) => Ok(v@), Err(e) => Err(e@) }), unary_at(old(self).source(), old(self).at(), d as int)),
        decreases old(self).toks@.len() - old(self).i, 44int,
    {
        if self.eat(Tok::Minus) {
            if d >= MAX_EXPR_DEPTH {
                return Err(self.fail("expresión demasiado anidada"));
            }
            let e = self.unary(d + 1)?;
            return Ok(Expr::Unary(UnOp::Neg, Box::new(e)));
        }
        self.primary(d)
    }

    fn exprs(&mut self, d: usize) -> (r: Result<Vec<Expr>, Error>)
        requires
            old(self).wf(),
        ensures
            moved(*old(self), *final(self), (match r { Ok(v) => Ok(exprs_v(v@)), Err(e) => Err(e@) }), exprs_at(old(self).source(), old(self).at(), d as int)),
        decreases old(self).toks@.len() - old(self).i, 62int,
    {
        let ghost c0 = self.source();
        let ghost want = exprs_at(c0, self.at(), d as int);
        let mut out: Vec<Expr> = Vec::new();
        assert(exprs_v(out@) =~= Seq::empty());
        assert(want is Ok ==> Seq::empty() + (want->Ok_0).0 =~= (want->Ok_0).0);
        #[verifier::loop_isolation(false)]
        loop
            invariant
                self.wf(),
                self.source() == c0,
                old(self).i <= self.i,
                match exprs_at(c0, self.at(), d as int) {
                    Ok((rest, s)) => want == Ok::<_, ErrorV>((exprs_v(out@) + rest, s)),
                    Err(e) => want == Err::<(Seq<ExprV>, At), _>(e),
                },
            decreases self.toks@.len() - self.i,
        {
            let ghost before = exprs_v(out@);
            let x = self.expr(d)?;
            let ghost v = x@;
            out.push(x);
            assert(exprs_v(out@) =~= before.push(v));
            if !self.eat(Tok::Comma) {
                assert(before + seq![v] =~= exprs_v(out@));
                return Ok(out);
            }
            proof {
                match exprs_at(c0, self.at(), d as int) {
                    Ok((rest, s)) => {
                        assert(before + (seq![v] + rest) =~= exprs_v(out@) + rest);
                    },
                    Err(_) => {},
                }
            }
        }
    }

    fn args(&mut self, d: usize) -> (r: Result<Vec<Expr>, Error>)
        requires
            old(self).wf(),
        ensures
            moved(*old(self), *final(self), (match r { Ok(v) => Ok(exprs_v(v@)), Err(e) => Err(e@) }), args_at(old(self).source(), old(self).at(), d as int)),
        decreases old(self).toks@.len() - old(self).i, 64int,
    {
        if self.eat(Tok::RParen) {
            let none: Vec<Expr> = Vec::new();
            assert(exprs_v(none@) =~= Seq::empty());
            return Ok(none);
        }
        let es = self.exprs(d)?;
        self.close()?;
        Ok(es)
    }

    /// The index of a name among the parameters, or their number.
    fn place_of(&self, name: &str) -> (r: usize)
        ensures
            r == name_place(strings_v(self.names@), name@),
            r <= self.names@.len(),
    {
        let ghost all = strings_v(self.names@);
        let mut k: usize = 0;
        assert(all.skip(0) =~= all);
        while k < self.names.len()
            invariant
                k <= self.names@.len(),
                all == strings_v(self.names@),
                name_place(all, name@) == k + name_place(all.skip(k as int), name@),
            decreases self.names@.len() - k,
        {
            assert(all.skip(k as int)[0] == self.names@[k as int]@);
            if str_eq(self.names[k].as_str(), name) {
                return k;
            }
            assert(all.skip(k as int).drop_first() =~= all.skip(k + 1));
            k = k + 1;
        }
        k
    }

    fn parameter(&mut self, name: String) -> (r: Result<Expr, Error>)
        requires
            old(self).wf(),
            old(self).i < old(self).toks@.len(),
        ensures
            moved(*old(self), *final(self), (match r { Ok(v) => Ok(v@), Err(e) => Err(e@) }), if old(self).at().numbered { Err::<(ExprV, At), ErrorV>(mixed_params(old(self).source(), old(self).at().i)) } else { Ok((ExprV::Param((name_place(old(self).at().names, name@) + 1) as usize), with_name(old(self).at(), name@))) }),
    {
        if self.numbered {
            return Err(self.fail("no se pueden mezclar parámetros posicionales (?N) y nombrados (:nombre)"));
        }
        let k: usize = self.place_of(name.as_str());
        self.step();
        if k < self.names.len() {
            return Ok(Expr::Param(k + 1));
        }
        let ghost before = strings_v(self.names@);
        let ghost v = name@;
        self.names.push(name);
        assert(strings_v(self.names@) =~= before.push(v));
        let n: usize = self.names.len();
        assert(n == k + 1);
        Ok(Expr::Param(n))
    }

    #[verifier::spinoff_prover]
    #[verifier::rlimit(60)]
    fn primary(&mut self, d: usize) -> (r: Result<Expr, Error>)
        requires
            old(self).wf(),
        ensures
            moved(*old(self), *final(self), (match r { Ok(v) => Ok(v@), Err(e) => Err(e@) }), primary_at(old(self).source(), old(self).at(), d as int)),
        decreases old(self).toks@.len() - old(self).i, 42int,
    {
        let at: usize = self.pos();
        match self.peek() {
            Some(Tok::Int(n)) => {
                let n: i64 = *n;
                self.step();
                Ok(Expr::Literal(Value::Integer(n)))
            },
            Some(Tok::Float(b)) => {
                let b: u64 = *b;
                self.step();
                Ok(Expr::Literal(Value::Real(b)))
            },
            Some(Tok::Str(t)) => {
                let t = t.clone();
                self.step();
                Ok(Expr::Literal(Value::Text(t)))
            },
            Some(Tok::Blob(b)) => {
                assert(b@.subrange(0, b@.len() as int) =~= b@);
                let b = crate::bytes::copy_range(b.as_slice(), 0, b.len());
                self.step();
                Ok(Expr::Literal(Value::Blob(b)))
            },
            Some(Tok::Param(n)) => {
                let n: usize = *n;
                if self.names.len() > 0 {
                    return Err(self.fail("no se pueden mezclar parámetros posicionales (?N) y nombrados (:nombre)"));
                }
                self.step();
                self.numbered = true;
                Ok(Expr::Param(n))
            },
            Some(Tok::NamedParam(name)) => {
                let name = name.clone();
                self.parameter(name)
            },
            Some(Tok::Ident(name)) => {
                let name = name.clone();
                self.step();
                if self.eat(Tok::Dot) {
                    let col = self.ident("un nombre de columna")?;
                    return Ok(Expr::Column { table: Some(name), name: col });
                }
                if self.eat(Tok::LParen) {
                    return self.call(d, name, at, Ghost(old(self).i as int));
                }
                Ok(Expr::Column { table: None, name })
            },
            Some(Tok::LParen) => {
                self.step();
                if self.is_at(Tok::Kw(Kw::Select)) {
                    let q = self.select(d)?;
                    self.close()?;
                    return Ok(Expr::ScalarSubquery(Box::new(q)));
                }
                let e = self.expr(d)?;
                self.close()?;
                Ok(e)
            },
            Some(Tok::Kw(k)) => {
                let k: Kw = *k;
                self.reserved(d, k)
            },
            _ => Err(self.fail("se esperaba una expresión")),
        }
    }

    fn reserved(&mut self, d: usize, k: Kw) -> (r: Result<Expr, Error>)
        requires
            old(self).wf(),
            tok_at(old(self).source(), old(self).i as int) == Some(TokV::Kw(k)),
        ensures
            moved(*old(self), *final(self), (match r { Ok(v) => Ok(v@), Err(e) => Err(e@) }), primary_at(old(self).source(), old(self).at(), d as int)),
        decreases old(self).toks@.len() - old(self).i, 40int,
    {
        if k == Kw::Null {
            self.step();
            return Ok(Expr::Literal(Value::Null));
        }
        if k == Kw::True {
            self.step();
            return Ok(Expr::Literal(Value::Bool(true)));
        }
        if k == Kw::False {
            self.step();
            return Ok(Expr::Literal(Value::Bool(false)));
        }
        if k == Kw::Cast {
            self.step();
            return self.cast(d);
        }
        if k == Kw::Case {
            self.step();
            return self.case(d);
        }
        if k == Kw::Exists {
            self.step();
            self.expect(Tok::LParen, "'(' tras EXISTS")?;
            let q = self.select(d)?;
            self.close()?;
            return Ok(Expr::Exists(Box::new(q)));
        }
        Err(self.fail("se esperaba una expresión"))
    }

    fn coltype(&mut self) -> (r: Result<ColType, Error>)
        requires
            old(self).wf(),
        ensures
            moved(*old(self), *final(self), (match r { Ok(v) => Ok(v), Err(e) => Err(e@) }), coltype_at(old(self).source(), old(self).at())),
    {
        proof {
            reveal(coltype_at);
        }
        let t = match self.peek() {
            Some(Tok::Kw(Kw::Integer)) => Some(ColType::Integer),
            Some(Tok::Kw(Kw::Real)) => Some(ColType::Real),
            Some(Tok::Kw(Kw::Text)) => Some(ColType::Text),
            Some(Tok::Kw(Kw::Blob)) => Some(ColType::Blob),
            Some(Tok::Kw(Kw::Boolean)) => Some(ColType::Boolean),
            _ => None,
        };
        if self.i < self.toks.len() {
            self.step();
        }
        match t {
            Some(t) => Ok(t),
            None => Err(self.missing("un tipo: INTEGER, REAL, TEXT, BLOB o BOOLEAN")),
        }
    }

    fn cast(&mut self, d: usize) -> (r: Result<Expr, Error>)
        requires
            old(self).wf(),
        ensures
            ran(*old(self), *final(self), (match r { Ok(v) => Ok(v@), Err(e) => Err(e@) }), cast_at(old(self).source(), old(self).at(), d as int)),
        decreases old(self).toks@.len() - old(self).i, 0int,
    {
        self.expect(Tok::LParen, "'(' tras CAST")?;
        let x = self.expr(d)?;
        self.expect_kw(Kw::As, "AS")?;
        let to = self.coltype()?;
        self.close()?;
        Ok(Expr::Cast { expr: Box::new(x), to })
    }

    fn case(&mut self, d: usize) -> (r: Result<Expr, Error>)
        requires
            old(self).wf(),
        ensures
            ran(*old(self), *final(self), (match r { Ok(v) => Ok(v@), Err(e) => Err(e@) }), case_at(old(self).source(), old(self).at(), d as int)),
        decreases old(self).toks@.len() - old(self).i, 66int,
    {
        if self.is_at(Tok::Kw(Kw::When)) {
            return self.branches(d, None);
        }
        let x = self.expr(d)?;
        self.branches(d, Some(Box::new(x)))
    }

    fn branches(&mut self, d: usize, operand: Option<Box<Expr>>) -> (r: Result<Expr, Error>)
        requires
            old(self).wf(),
        ensures
            ran(*old(self), *final(self), (match r { Ok(v) => Ok(v@), Err(e) => Err(e@) }), case_rest(old(self).source(), old(self).at(), d as int, opt_box_v(operand))),
        decreases old(self).toks@.len() - old(self).i, 4int,
    {
        let whens = self.whens(d)?;
        assert(expr_expr_pairs_v(whens@).len() == whens@.len());
        if whens.len() == 0 {
            return Err(self.fail("CASE necesita al menos un WHEN … THEN"));
        }
        let mut else_: Option<Box<Expr>> = None;
        if self.eat_kw(Kw::Else) {
            let x = self.expr(d)?;
            else_ = Some(Box::new(x));
        }
        self.expect_kw(Kw::End, "END")?;
        Ok(Expr::Case { operand, whens, else_ })
    }

    fn whens(&mut self, d: usize) -> (r: Result<Vec<(Expr, Expr)>, Error>)
        requires
            old(self).wf(),
        ensures
            ran(*old(self), *final(self), (match r { Ok(v) => Ok(expr_expr_pairs_v(v@)), Err(e) => Err(e@) }), whens_at(old(self).source(), old(self).at(), d as int)),
        decreases old(self).toks@.len() - old(self).i, 2int,
    {
        let ghost c0 = self.source();
        let ghost want = whens_at(c0, self.at(), d as int);
        let mut out: Vec<(Expr, Expr)> = Vec::new();
        assert(expr_expr_pairs_v(out@) =~= Seq::empty());
        assert(want is Ok ==> Seq::empty() + (want->Ok_0).0 =~= (want->Ok_0).0);
        #[verifier::loop_isolation(false)]
        loop
            invariant
                self.wf(),
                self.source() == c0,
                old(self).i <= self.i,
                match whens_at(c0, self.at(), d as int) {
                    Ok((rest, s)) => want == Ok::<_, ErrorV>((expr_expr_pairs_v(out@) + rest, s)),
                    Err(e) => want == Err::<(Seq<(ExprV, ExprV)>, At), _>(e),
                },
            decreases self.toks@.len() - self.i,
        {
            let ghost before = expr_expr_pairs_v(out@);
            if !self.eat_kw(Kw::When) {
                assert(before + Seq::<(ExprV, ExprV)>::empty() =~= before);
                return Ok(out);
            }
            let a = self.expr(d)?;
            self.expect_kw(Kw::Then, "THEN")?;
            let b = self.expr(d)?;
            let ghost v = (a@, b@);
            out.push((a, b));
            assert(expr_expr_pairs_v(out@) =~= before.push(v));
            proof {
                match whens_at(c0, self.at(), d as int) {
                    Ok((rest, s)) => {
                        assert(before + (seq![v] + rest) =~= expr_expr_pairs_v(out@) + rest);
                    },
                    Err(_) => {},
                }
            }
        }
    }

    #[verifier::spinoff_prover]
    #[verifier::rlimit(60)]
    fn call(&mut self, d: usize, name: String, at: usize, Ghost(p): Ghost<int>) -> (r: Result<Expr, Error>)
        requires
            old(self).wf(),
            at == pos_at(old(self).source(), p),
        ensures
            ran(*old(self), *final(self), (match r { Ok(v) => Ok(v@), Err(e) => Err(e@) }), call_at(old(self).source(), old(self).at(), d as int, name@, p)),
        decreases old(self).toks@.len() - old(self).i, 68int,
    {
        let upper = upper_ascii(name.as_str());
        if str_eq(upper.as_str(), "MIN") || str_eq(upper.as_str(), "MAX") {
            let func = if str_eq(upper.as_str(), "MIN") {
                AggFunc::Min
            } else {
                AggFunc::Max
            };
            return self.extreme(d, name, func);
        }
        if let Some(func) = aggregate_of(upper.as_str()) {
            return self.aggregate(d, func, at, Ghost(p));
        }
        let mut args = self.args(d)?;
        if str_eq(upper.as_str(), "IIF") {
            assert(exprs_v(args@).len() == args@.len());
            if args.len() != 3 {
                return Err(sql_at("iif() requiere exactamente 3 argumentos".to_owned(), at));
            }
            let ghost es = exprs_v(args@);
            let no = args.remove(2);
            let yes = args.remove(1);
            let cond = args.remove(0);
            assert(no@ == es[2] && yes@ == es[1] && cond@ == es[0]);
            let mut whens: Vec<(Expr, Expr)> = Vec::new();
            whens.push((cond, yes));
            assert(expr_expr_pairs_v(whens@) =~= seq![(es[0], es[1])]);
            return Ok(Expr::Case { operand: None, whens, else_: Some(Box::new(no)) });
        }
        self.over(d, Expr::Function { name, args })
    }

    fn extreme(&mut self, d: usize, name: String, func: AggFunc) -> (r: Result<Expr, Error>)
        requires
            old(self).wf(),
        ensures
            ran(*old(self), *final(self), (match r { Ok(v) => Ok(v@), Err(e) => Err(e@) }), extreme_at(old(self).source(), old(self).at(), d as int, name@, func)),
        decreases old(self).toks@.len() - old(self).i, 66int,
    {
        if self.eat_kw(Kw::Distinct) {
            let x = self.expr(d)?;
            self.close()?;
            return self.over(d, Expr::Aggregate { func, arg: Some(Box::new(x)), distinct: true, sep: None });
        }
        let mut es = self.args(d)?;
        assert(exprs_v(es@).len() == es@.len());
        if es.len() == 1 {
            let ghost g = exprs_v(es@);
            let x = es.remove(0);
            assert(x@ == g[0]);
            return self.over(d, Expr::Aggregate { func, arg: Some(Box::new(x)), distinct: false, sep: None });
        }
        self.over(d, Expr::Function { name, args: es })
    }

    fn aggregate(&mut self, d: usize, func: AggFunc, at: usize, Ghost(p): Ghost<int>) -> (r: Result<Expr, Error>)
        requires
            old(self).wf(),
            at == pos_at(old(self).source(), p),
        ensures
            ran(*old(self), *final(self), (match r { Ok(v) => Ok(v@), Err(e) => Err(e@) }), aggregate_at(old(self).source(), old(self).at(), d as int, func, p)),
        decreases old(self).toks@.len() - old(self).i, 66int,
    {
        let distinct = self.eat_kw(Kw::Distinct);
        if self.eat(Tok::Star) {
            if distinct {
                return Err(sql_at("DISTINCT no admite '*'".to_owned(), at));
            }
            if func != AggFunc::Count {
                return Err(sql_at("solo COUNT admite '*'".to_owned(), at));
            }
            return self.aggregate_tail(d, func, distinct, None);
        }
        let x = self.expr(d)?;
        self.aggregate_tail(d, func, distinct, Some(Box::new(x)))
    }

    fn aggregate_tail(&mut self, d: usize, func: AggFunc, distinct: bool, arg: Option<Box<Expr>>) -> (r: Result<Expr, Error>)
        requires
            old(self).wf(),
        ensures
            ran(*old(self), *final(self), (match r { Ok(v) => Ok(v@), Err(e) => Err(e@) }), aggregate_rest(old(self).source(), old(self).at(), d as int, func, distinct, opt_box_v(arg))),
        decreases old(self).toks@.len() - old(self).i, 2int,
    {
        let mut sep: Option<Box<Expr>> = None;
        if func == AggFunc::GroupConcat && self.eat(Tok::Comma) {
            let x = self.expr(d)?;
            sep = Some(Box::new(x));
        }
        self.close()?;
        self.over(d, Expr::Aggregate { func, arg, distinct, sep })
    }

    fn over(&mut self, d: usize, call: Expr) -> (r: Result<Expr, Error>)
        requires
            old(self).wf(),
        ensures
            ran(*old(self), *final(self), (match r { Ok(v) => Ok(v@), Err(e) => Err(e@) }), over_at(old(self).source(), old(self).at(), d as int, call@)),
        decreases old(self).toks@.len() - old(self).i, 0int,
    {
        if !self.eat_kw(Kw::Over) {
            return Ok(call);
        }
        match to_window(call) {
            Err(msg) => Err(sql_at(msg, self.pos())),
            Ok((func, args)) => {
                self.expect(Tok::LParen, "'(' tras OVER")?;
                let partition_by = self.keys(d, Kw::Partition)?;
                let order_by = self.ordering()?;
                self.close()?;
                Ok(Expr::Window { func, args, partition_by, order_by, frame: None })
            },
        }
    }

    fn keys(&mut self, d: usize, k: Kw) -> (r: Result<Vec<Expr>, Error>)
        requires
            old(self).wf(),
        ensures
            ran(*old(self), *final(self), (match r { Ok(v) => Ok(exprs_v(v@)), Err(e) => Err(e@) }), keys_at(old(self).source(), old(self).at(), d as int, k)),
        decreases old(self).toks@.len() - old(self).i, 0int,
    {
        if !self.eat_kw(k) {
            let none: Vec<Expr> = Vec::new();
            assert(exprs_v(none@) =~= Seq::empty());
            return Ok(none);
        }
        self.expect_kw(Kw::By, "BY")?;
        self.exprs(d)
    }

    fn order_item(&mut self) -> (r: Result<OrderBy, Error>)
        requires
            old(self).wf(),
        ensures
            moved(*old(self), *final(self), (match r { Ok(v) => Ok(v@), Err(e) => Err(e@) }), order_item_at(old(self).source(), old(self).at())),
    {
        proof {
            reveal(order_item_at);
        }
        let first = self.ident("un nombre de columna")?;
        let expr = if self.eat(Tok::Dot) {
            let col = self.ident("un nombre de columna")?;
            Expr::Column { table: Some(first), name: col }
        } else {
            Expr::Column { table: None, name: first }
        };
        let desc = self.eat_kw(Kw::Desc);
        if !desc {
            let _asc = self.eat_kw(Kw::Asc);
        }
        Ok(OrderBy { expr, desc })
    }

    fn order_items(&mut self) -> (r: Result<Vec<OrderBy>, Error>)
        requires
            old(self).wf(),
        ensures
            moved(*old(self), *final(self), (match r { Ok(v) => Ok(order_bys_v(v@)), Err(e) => Err(e@) }), order_items_at(old(self).source(), old(self).at())),
    {
        proof {
            reveal(order_items_at);
        }
        let ghost c0 = self.source();
        let ghost want = order_items_at(c0, self.at());
        let mut out: Vec<OrderBy> = Vec::new();
        assert(order_bys_v(out@) =~= Seq::empty());
        assert(want is Ok ==> Seq::empty() + (want->Ok_0).0 =~= (want->Ok_0).0);
        #[verifier::loop_isolation(false)]
        loop
            invariant
                self.wf(),
                self.source() == c0,
                old(self).i <= self.i,
                match order_items_at(c0, self.at()) {
                    Ok((rest, s)) => want == Ok::<_, ErrorV>((order_bys_v(out@) + rest, s)),
                    Err(e) => want == Err::<(Seq<OrderByV>, At), _>(e),
                },
            decreases self.toks@.len() - self.i,
        {
            proof {
                reveal(order_items_at);
            }
            let ghost before = order_bys_v(out@);
            let x = self.order_item()?;
            let ghost v = x@;
            out.push(x);
            assert(order_bys_v(out@) =~= before.push(v));
            if !self.eat(Tok::Comma) {
                assert(before + seq![v] =~= order_bys_v(out@));
                return Ok(out);
            }
            proof {
                match order_items_at(c0, self.at()) {
                    Ok((rest, s)) => {
                        assert(before + (seq![v] + rest) =~= order_bys_v(out@) + rest);
                    },
                    Err(_) => {},
                }
            }
        }
    }

    fn ordering(&mut self) -> (r: Result<Vec<OrderBy>, Error>)
        requires
            old(self).wf(),
        ensures
            ran(*old(self), *final(self), (match r { Ok(v) => Ok(order_bys_v(v@)), Err(e) => Err(e@) }), ordering_at(old(self).source(), old(self).at())),
    {
        proof {
            reveal(ordering_at);
        }
        if !self.eat_kw(Kw::Order) {
            let none: Vec<OrderBy> = Vec::new();
            assert(order_bys_v(none@) =~= Seq::empty());
            return Ok(none);
        }
        self.expect_kw(Kw::By, "BY")?;
        self.order_items()
    }

    // --- SELECT ---

    fn as_of_ahead(&self) -> (r: bool)
        ensures
            r == history_ahead(self.source(), self.i as int),
            r ==> self.i + 1 < self.toks@.len(),
    {
        self.is_at(Tok::Kw(Kw::As)) && self.is_next(Tok::Kw(Kw::Of))
    }

    fn as_of(&mut self) -> (r: Result<Option<AsOfClause>, Error>)
        requires
            old(self).wf(),
        ensures
            ran(*old(self), *final(self), (match r { Ok(v) => Ok(v), Err(e) => Err(e@) }), as_of_at(old(self).source(), old(self).at())),
    {
        proof {
            reveal(as_of_at);
        }
        if !self.as_of_ahead() {
            return Ok(None);
        }
        self.step();
        self.step();
        if self.eat_kw(Kw::Version) {
            let n: Option<u64> = match self.peek() {
                Some(Tok::Int(n)) => if *n >= 0 { Some(*n as u64) } else { None },
                _ => None,
            };
            return match n {
                Some(n) => {
                    self.step();
                    Ok(Some(AsOfClause::Version(n)))
                },
                None => Err(self.missing("un número de versión entero no negativo")),
            };
        }
        if self.eat_kw(Kw::Timestamp) {
            let t: Option<Option<u64>> = match self.peek() {
                Some(Tok::Str(t)) => Some(parse_rfc3339_ms(t.as_str())),
                _ => None,
            };
            return match t {
                Some(Some(ms)) => {
                    self.step();
                    Ok(Some(AsOfClause::Timestamp(ms)))
                },
                Some(None) => Err(self.fail("timestamp RFC 3339 inválido")),
                None => Err(self.missing("un literal de timestamp RFC 3339 entre comillas")),
            };
        }
        Err(self.missing("VERSION o TIMESTAMP tras AS OF"))
    }

    fn is_ident(&self) -> (r: bool)
        ensures
            r == (tok_at(self.source(), self.i as int) is Some && tok_at(self.source(), self.i as int)->0 is Ident),
    {
        match self.peek() {
            Some(Tok::Ident(_)) => true,
            _ => false,
        }
    }

    fn table_ref(&mut self, d: usize) -> (r: Result<TableRef, Error>)
        requires
            old(self).wf(),
        ensures
            moved(*old(self), *final(self), (match r { Ok(v) => Ok(v@), Err(e) => Err(e@) }), table_at(old(self).source(), old(self).at(), d as int)),
        decreases old(self).toks@.len() - old(self).i, 0int,
    {
        if self.is_at(Tok::LParen) && self.is_next(Tok::Kw(Kw::Select)) {
            self.step();
            let q = self.select(d)?;
            self.close()?;
            let _as = self.eat_kw(Kw::As);
            let alias = self.ident("un alias para la subconsulta del FROM")?;
            let name = string_none();
            return Ok(TableRef { name, alias: Some(alias), subquery: Some(Box::new(q)) });
        }
        let name = self.ident("un nombre de tabla")?;
        if !self.as_of_ahead() {
            let word = self.eat_kw(Kw::As);
            if word || self.is_ident() {
                let alias = self.ident("un alias de tabla")?;
                return Ok(TableRef { name, alias: Some(alias), subquery: None });
            }
        }
        Ok(TableRef { name, alias: None, subquery: None })
    }

    fn select_item(&mut self, d: usize) -> (r: Result<SelectItem, Error>)
        requires
            old(self).wf(),
        ensures
            moved(*old(self), *final(self), (match r { Ok(v) => Ok(v@), Err(e) => Err(e@) }), item_at(old(self).source(), old(self).at(), d as int)),
        decreases old(self).toks@.len() - old(self).i, 64int,
    {
        if self.eat(Tok::Star) {
            return Ok(SelectItem::Star);
        }
        let expr = self.expr(d)?;
        if !self.as_of_ahead() && self.eat_kw(Kw::As) {
            let alias = self.ident("un alias de columna tras AS")?;
            return Ok(SelectItem::Expr { expr, alias: Some(alias) });
        }
        Ok(SelectItem::Expr { expr, alias: None })
    }

    fn select_items(&mut self, d: usize) -> (r: Result<Vec<SelectItem>, Error>)
        requires
            old(self).wf(),
        ensures
            moved(*old(self), *final(self), (match r { Ok(v) => Ok(select_items_v(v@)), Err(e) => Err(e@) }), items_at(old(self).source(), old(self).at(), d as int)),
        decreases old(self).toks@.len() - old(self).i, 66int,
    {
        let ghost c0 = self.source();
        let ghost want = items_at(c0, self.at(), d as int);
        let mut out: Vec<SelectItem> = Vec::new();
        assert(select_items_v(out@) =~= Seq::empty());
        assert(want is Ok ==> Seq::empty() + (want->Ok_0).0 =~= (want->Ok_0).0);
        #[verifier::loop_isolation(false)]
        loop
            invariant
                self.wf(),
                self.source() == c0,
                old(self).i <= self.i,
                match items_at(c0, self.at(), d as int) {
                    Ok((rest, s)) => want == Ok::<_, ErrorV>((select_items_v(out@) + rest, s)),
                    Err(e) => want == Err::<(Seq<SelectItemV>, At), _>(e),
                },
            decreases self.toks@.len() - self.i,
        {
            let ghost before = select_items_v(out@);
            let x = self.select_item(d)?;
            let ghost v = x@;
            out.push(x);
            assert(select_items_v(out@) =~= before.push(v));
            if !self.eat(Tok::Comma) {
                assert(before + seq![v] =~= select_items_v(out@));
                return Ok(out);
            }
            proof {
                match items_at(c0, self.at(), d as int) {
                    Ok((rest, s)) => {
                        assert(before + (seq![v] + rest) =~= select_items_v(out@) + rest);
                    },
                    Err(_) => {},
                }
            }
        }
    }

    fn join_kind(&mut self) -> (r: Result<Option<JoinKind>, Error>)
        requires
            old(self).wf(),
        ensures
            ran(*old(self), *final(self), (match r { Ok(v) => Ok(v), Err(e) => Err(e@) }), join_kind_at(old(self).source(), old(self).at())),
            r matches Ok(Some(_)) ==> old(self).i < final(self).i,
    {
        if self.eat_kw(Kw::Inner) {
            self.expect_kw(Kw::Join, "JOIN")?;
            return Ok(Some(JoinKind::Inner));
        }
        if self.eat_kw(Kw::Left) {
            self.expect_kw(Kw::Join, "JOIN")?;
            return Ok(Some(JoinKind::Left));
        }
        if self.eat_kw(Kw::Join) {
            return Ok(Some(JoinKind::Inner));
        }
        Ok(None)
    }

    #[verifier::spinoff_prover]
    #[verifier::rlimit(40)]
    fn joins(&mut self, d: usize) -> (r: Result<Vec<Join>, Error>)
        requires
            old(self).wf(),
        ensures
            ran(*old(self), *final(self), (match r { Ok(v) => Ok(joins_v(v@)), Err(e) => Err(e@) }), joins_at(old(self).source(), old(self).at(), d as int)),
        decreases old(self).toks@.len() - old(self).i, 0int,
    {
        let ghost c0 = self.source();
        let ghost want = joins_at(c0, self.at(), d as int);
        let mut out: Vec<Join> = Vec::new();
        assert(joins_v(out@) =~= Seq::empty());
        assert(want is Ok ==> Seq::empty() + (want->Ok_0).0 =~= (want->Ok_0).0);
        #[verifier::loop_isolation(false)]
        loop
            invariant
                self.wf(),
                self.source() == c0,
                old(self).i <= self.i,
                match joins_at(c0, self.at(), d as int) {
                    Ok((rest, s)) => want == Ok::<_, ErrorV>((joins_v(out@) + rest, s)),
                    Err(e) => want == Err::<(Seq<JoinV>, At), _>(e),
                },
            decreases self.toks@.len() - self.i,
        {
            let ghost before = joins_v(out@);
            let kind = match self.join_kind()? {
                Some(k) => k,
                None => {
                    assert(before + Seq::<JoinV>::empty() =~= before);
                    return Ok(out);
                },
            };
            let table = self.table_ref(d)?;
            self.expect_kw(Kw::On, "ON")?;
            let on = self.expr(d)?;
            let j = Join { kind, table, on };
            let ghost v = j@;
            out.push(j);
            assert(joins_v(out@) =~= before.push(v));
            proof {
                match joins_at(c0, self.at(), d as int) {
                    Ok((rest, s)) => {
                        assert(before + (seq![v] + rest) =~= joins_v(out@) + rest);
                    },
                    Err(_) => {},
                }
            }
        }
    }

    fn from(&mut self, d: usize) -> (r: Result<(Option<TableRef>, Vec<Join>), Error>)
        requires
            old(self).wf(),
        ensures
            ran(*old(self), *final(self), (match r { Ok(v) => Ok((opt_table_v(v.0), joins_v(v.1@))), Err(e) => Err(e@) }), from_at(old(self).source(), old(self).at(), d as int)),
        decreases old(self).toks@.len() - old(self).i, 0int,
    {
        if !self.eat_kw(Kw::From) {
            let none: Vec<Join> = Vec::new();
            assert(joins_v(none@) =~= Seq::empty());
            return Ok((None, none));
        }
        let table = self.table_ref(d)?;
        let joins = self.joins(d)?;
        Ok((Some(table), joins))
    }

    fn clause(&mut self, d: usize, k: Kw) -> (r: Result<Option<Expr>, Error>)
        requires
            old(self).wf(),
        ensures
            ran(*old(self), *final(self), (match r { Ok(v) => Ok(opt_expr_v(v)), Err(e) => Err(e@) }), clause_at(old(self).source(), old(self).at(), d as int, k)),
        decreases old(self).toks@.len() - old(self).i, 0int,
    {
        if !self.eat_kw(k) {
            return Ok(None);
        }
        let x = self.expr(d)?;
        Ok(Some(x))
    }

    #[verifier::spinoff_prover]
    #[verifier::rlimit(60)]
    fn select_core(&mut self, d: usize) -> (r: Result<SelectStmt, Error>)
        requires
            old(self).wf(),
        ensures
            moved(*old(self), *final(self), (match r { Ok(v) => Ok(v@), Err(e) => Err(e@) }), core_at(old(self).source(), old(self).at(), d as int)),
        decreases old(self).toks@.len() - old(self).i, 78int,
    {
        self.expect_kw(Kw::Select, "SELECT")?;
        let distinct = self.eat_kw(Kw::Distinct);
        let projection = self.select_items(d)?;
        let (from, joins) = self.from(d)?;
        let where_clause = self.clause(d, Kw::Where)?;
        let group_by = self.keys(d, Kw::Group)?;
        let having = self.clause(d, Kw::Having)?;
        let order_by: Vec<OrderBy> = Vec::new();
        let compound: Vec<CompoundSelect> = Vec::new();
        let with: Vec<Cte> = Vec::new();
        assert(order_bys_v(order_by@) =~= Seq::empty());
        assert(compound_selects_v(compound@) =~= Seq::empty());
        assert(ctes_v(with@) =~= Seq::empty());
        Ok(SelectStmt {
                distinct,
                projection,
                from,
                joins,
                where_clause,
                group_by,
                having,
                order_by,
                limit: None,
                offset: None,
                as_of: None,
                compound,
                with,
        })
    }

    fn set_op(&mut self) -> (r: Option<SetOp>)
        requires
            old(self).wf(),
        ensures
            final(self).wf(),
            final(self).source() == old(self).source(),
            (match set_op_at(old(self).source(), old(self).i as int) {
                    Some((op, n)) => r == Some(op) && final(self).at() == skip(old(self).at(), n) && final(self).i == old(self).i + n,
                    None => r is None && final(self).at() == old(self).at() && final(self).i == old(self).i,
            }),
    {
        if self.eat_kw(Kw::Union) {
            if self.eat_kw(Kw::All) {
                Some(SetOp::UnionAll)
            } else {
                Some(SetOp::Union)
            }
        } else if self.eat_kw(Kw::Intersect) {
            Some(SetOp::Intersect)
        } else if self.eat_kw(Kw::Except) {
            Some(SetOp::Except)
        } else {
            None
        }
    }

    fn compounds(&mut self, d: usize) -> (r: Result<Vec<CompoundSelect>, Error>)
        requires
            old(self).wf(),
        ensures
            ran(*old(self), *final(self), (match r { Ok(v) => Ok(compound_selects_v(v@)), Err(e) => Err(e@) }), compounds_at(old(self).source(), old(self).at(), d as int)),
        decreases old(self).toks@.len() - old(self).i, 0int,
    {
        let ghost c0 = self.source();
        let ghost want = compounds_at(c0, self.at(), d as int);
        let mut out: Vec<CompoundSelect> = Vec::new();
        assert(compound_selects_v(out@) =~= Seq::empty());
        assert(want is Ok ==> Seq::empty() + (want->Ok_0).0 =~= (want->Ok_0).0);
        #[verifier::loop_isolation(false)]
        loop
            invariant
                self.wf(),
                self.source() == c0,
                old(self).i <= self.i,
                match compounds_at(c0, self.at(), d as int) {
                    Ok((rest, s)) => want == Ok::<_, ErrorV>((compound_selects_v(out@) + rest, s)),
                    Err(e) => want == Err::<(Seq<CompoundSelectV>, At), _>(e),
                },
            decreases self.toks@.len() - self.i,
        {
            let ghost before = compound_selects_v(out@);
            let op = match self.set_op() {
                Some(op) => op,
                None => {
                    assert(before + Seq::<CompoundSelectV>::empty() =~= before);
                    return Ok(out);
                },
            };
            let select = self.select_core(d)?;
            let x = CompoundSelect { op, select };
            let ghost v = x@;
            out.push(x);
            assert(compound_selects_v(out@) =~= before.push(v));
            proof {
                match compounds_at(c0, self.at(), d as int) {
                    Ok((rest, s)) => {
                        assert(before + (seq![v] + rest) =~= compound_selects_v(out@) + rest);
                    },
                    Err(_) => {},
                }
            }
        }
    }

    #[verifier::spinoff_prover]
    #[verifier::rlimit(60)]
    fn select(&mut self, d: usize) -> (r: Result<SelectStmt, Error>)
        requires
            old(self).wf(),
        ensures
            moved(*old(self), *final(self), (match r { Ok(v) => Ok(v@), Err(e) => Err(e@) }), select_at(old(self).source(), old(self).at(), d as int)),
        decreases old(self).toks@.len() - old(self).i, 80int,
    {
        let lead = self.select_core(d)?;
        let compound = self.compounds(d)?;
        let order_by = self.ordering()?;
        let limit = self.clause(d, Kw::Limit)?;
        let offset = self.clause(d, Kw::Offset)?;
        let as_of = self.as_of()?;
        Ok(SelectStmt {
                distinct: lead.distinct,
                projection: lead.projection,
                from: lead.from,
                joins: lead.joins,
                where_clause: lead.where_clause,
                group_by: lead.group_by,
                having: lead.having,
                order_by,
                limit,
                offset,
                as_of,
                compound,
                with: lead.with,
        })
    }

    fn cte(&mut self) -> (r: Result<Cte, Error>)
        requires
            old(self).wf(),
        ensures
            moved(*old(self), *final(self), (match r { Ok(v) => Ok(v@), Err(e) => Err(e@) }), cte_at(old(self).source(), old(self).at())),
    {
        proof {
            reveal(cte_at);
        }
        let name = self.ident("un nombre de CTE")?;
        self.expect_kw(Kw::As, "AS")?;
        self.expect(Tok::LParen, "'(' tras AS")?;
        let query = self.select(0)?;
        self.close()?;
        Ok(Cte { name, query })
    }

    fn ctes(&mut self) -> (r: Result<Vec<Cte>, Error>)
        requires
            old(self).wf(),
        ensures
            moved(*old(self), *final(self), (match r { Ok(v) => Ok(ctes_v(v@)), Err(e) => Err(e@) }), ctes_at(old(self).source(), old(self).at())),
    {
        proof {
            reveal(ctes_at);
        }
        let ghost c0 = self.source();
        let ghost want = ctes_at(c0, self.at());
        let mut out: Vec<Cte> = Vec::new();
        assert(ctes_v(out@) =~= Seq::empty());
        assert(want is Ok ==> Seq::empty() + (want->Ok_0).0 =~= (want->Ok_0).0);
        #[verifier::loop_isolation(false)]
        loop
            invariant
                self.wf(),
                self.source() == c0,
                old(self).i <= self.i,
                match ctes_at(c0, self.at()) {
                    Ok((rest, s)) => want == Ok::<_, ErrorV>((ctes_v(out@) + rest, s)),
                    Err(e) => want == Err::<(Seq<CteV>, At), _>(e),
                },
            decreases self.toks@.len() - self.i,
        {
            proof {
                reveal(ctes_at);
            }
            let ghost before = ctes_v(out@);
            let x = self.cte()?;
            let ghost v = x@;
            out.push(x);
            assert(ctes_v(out@) =~= before.push(v));
            if !self.eat(Tok::Comma) {
                assert(before + seq![v] =~= ctes_v(out@));
                return Ok(out);
            }
            proof {
                match ctes_at(c0, self.at()) {
                    Ok((rest, s)) => {
                        assert(before + (seq![v] + rest) =~= ctes_v(out@) + rest);
                    },
                    Err(_) => {},
                }
            }
        }
    }

    fn with(&mut self) -> (r: Result<Stmt, Error>)
        requires
            old(self).wf(),
        ensures
            moved(*old(self), *final(self), (match r { Ok(v) => Ok(v@), Err(e) => Err(e@) }), with_at(old(self).source(), old(self).at())),
    {
        proof {
            reveal(with_at);
        }
        self.expect_kw(Kw::With, "WITH")?;
        let _recursive = self.eat_kw(Kw::Recursive);
        let with = self.ctes()?;
        let mut sel = self.select(0)?;
        let ghost g = sel@;
        sel.with = with;
        assert(sel@ == (SelectStmtV { with: ctes_v(with@), ..g }));
        Ok(Stmt::Select(sel))
    }

    // --- the other statements ---

    fn if_not_exists(&mut self) -> (r: Result<bool, Error>)
        requires
            old(self).wf(),
        ensures
            ran(*old(self), *final(self), (match r { Ok(v) => Ok(v), Err(e) => Err(e@) }), if_not_exists_at(old(self).source(), old(self).at())),
    {
        proof {
            reveal(if_not_exists_at);
        }
        if self.eat_kw(Kw::If) {
            self.expect_kw(Kw::Not, "NOT")?;
            self.expect_kw(Kw::Exists, "EXISTS")?;
            return Ok(true);
        }
        Ok(false)
    }

    fn if_exists(&mut self) -> (r: Result<bool, Error>)
        requires
            old(self).wf(),
        ensures
            ran(*old(self), *final(self), (match r { Ok(v) => Ok(v), Err(e) => Err(e@) }), if_exists_at(old(self).source(), old(self).at())),
    {
        proof {
            reveal(if_exists_at);
        }
        if self.eat_kw(Kw::If) {
            self.expect_kw(Kw::Exists, "EXISTS")?;
            return Ok(true);
        }
        Ok(false)
    }

    fn fk_action(&mut self) -> (r: Result<FkAction, Error>)
        requires
            old(self).wf(),
        ensures
            moved(*old(self), *final(self), (match r { Ok(v) => Ok(v), Err(e) => Err(e@) }), fk_action_at(old(self).source(), old(self).at())),
    {
        proof {
            reveal(fk_action_at);
        }
        if self.eat_kw(Kw::Cascade) {
            return Ok(FkAction::Cascade);
        }
        if self.eat_kw(Kw::Restrict) {
            return Ok(FkAction::Restrict);
        }
        if self.eat_kw(Kw::SetTo) {
            self.expect_kw(Kw::Null, "NULL")?;
            return Ok(FkAction::SetNull);
        }
        Err(self.missing("CASCADE, RESTRICT o SET NULL"))
    }

    fn fk_actions(&mut self) -> (r: Result<(FkAction, FkAction), Error>)
        requires
            old(self).wf(),
        ensures
            ran(*old(self), *final(self), (match r { Ok(v) => Ok(v), Err(e) => Err(e@) }), fk_actions_at(old(self).source(), old(self).at(), FkAction::Restrict, FkAction::Restrict)),
    {
        proof {
            reveal(fk_actions_at);
        }
        let ghost c0 = self.source();
        let ghost want = fk_actions_at(c0, self.at(), FkAction::Restrict, FkAction::Restrict);
        let mut on_delete = FkAction::Restrict;
        let mut on_update = FkAction::Restrict;
        #[verifier::loop_isolation(false)]
        loop
            invariant
                self.wf(),
                self.source() == c0,
                old(self).i <= self.i,
                want == fk_actions_at(c0, self.at(), on_delete, on_update),
            decreases self.toks@.len() - self.i,
        {
            proof {
                reveal(fk_actions_at);
            }
            if !self.eat_kw(Kw::On) {
                return Ok((on_delete, on_update));
            }
            if self.eat_kw(Kw::Delete) {
                on_delete = self.fk_action()?;
            } else if self.eat_kw(Kw::Update) {
                on_update = self.fk_action()?;
            } else {
                return Err(self.missing("DELETE o UPDATE tras ON"));
            }
        }
    }

    fn fk_reference(&mut self) -> (r: Result<ColumnFk, Error>)
        requires
            old(self).wf(),
        ensures
            moved(*old(self), *final(self), (match r { Ok(v) => Ok(v@), Err(e) => Err(e@) }), fk_reference_at(old(self).source(), old(self).at())),
    {
        proof {
            reveal(fk_reference_at);
        }
        let parent = self.ident("una tabla padre")?;
        let mut parent_column: Option<String> = None;
        if self.eat(Tok::LParen) {
            let col = self.ident("una columna del padre")?;
            self.close()?;
            parent_column = Some(col);
        }
        let (on_delete, on_update) = self.fk_actions()?;
        Ok(ColumnFk { parent, parent_column, on_delete, on_update })
    }

    fn table_fk(&mut self) -> (r: Result<ForeignKeySpec, Error>)
        requires
            old(self).wf(),
        ensures
            moved(*old(self), *final(self), (match r { Ok(v) => Ok(v@), Err(e) => Err(e@) }), table_fk_at(old(self).source(), old(self).at())),
    {
        proof {
            reveal(table_fk_at);
        }
        self.expect_kw(Kw::Foreign, "FOREIGN")?;
        self.expect_kw(Kw::Key, "KEY")?;
        self.expect(Tok::LParen, "'('")?;
        let columns = self.ident_list("una columna")?;
        self.expect_kw(Kw::References, "REFERENCES")?;
        let parent = self.ident("una tabla padre")?;
        let mut parent_columns: Vec<String> = Vec::new();
        assert(strings_v(parent_columns@) =~= Seq::empty());
        if self.eat(Tok::LParen) {
            parent_columns = self.ident_list("una columna del padre")?;
        }
        let (on_delete, on_update) = self.fk_actions()?;
        Ok(ForeignKeySpec { columns, parent, parent_columns, on_delete, on_update })
    }

    fn column_def(&mut self) -> (r: Result<ColumnAst, Error>)
        requires
            old(self).wf(),
        ensures
            moved(*old(self), *final(self), (match r { Ok(v) => Ok(v@), Err(e) => Err(e@) }), column_at(old(self).source(), old(self).at())),
    {
        proof {
            reveal(attributes_at);
            reveal(column_at);
        }
        let name = self.ident("un nombre de columna")?;
        let col_type = self.coltype()?;
        let ghost c0 = self.source();
        let ghost start = ColumnAstV { name: name@, col_type, not_null: false, primary_key: false, default: None, references: None, unique: false, check: None };
        let ghost want = attributes_at(c0, self.at(), start);
        let mut not_null = false;
        let mut primary_key = false;
        let mut default: Option<Expr> = None;
        let mut references: Option<ColumnFk> = None;
        let ghost mut col = start;
        #[verifier::loop_isolation(false)]
        loop
            invariant
                self.wf(),
                self.source() == c0,
                old(self).i < self.i,
                col == (ColumnAstV { name: name@, col_type, not_null, primary_key, default: opt_expr_v(default), references: opt_fk_v(references), unique: false, check: None }),
                want == attributes_at(c0, self.at(), col),
            decreases self.toks@.len() - self.i,
        {
            proof {
                reveal(attributes_at);
                reveal(column_at);
            }
            if self.eat_kw(Kw::Primary) {
                self.expect_kw(Kw::Key, "KEY")?;
                primary_key = true;
            } else if self.eat_kw(Kw::Not) {
                self.expect_kw(Kw::Null, "NULL")?;
                not_null = true;
            } else if self.eat_kw(Kw::Default) {
                let x = self.expr(0)?;
                default = Some(x);
            } else if self.eat_kw(Kw::References) {
                let fk = self.fk_reference()?;
                references = Some(fk);
            } else {
                return Ok(ColumnAst { name, col_type, not_null, primary_key, default, references, unique: false, check: None });
            }
            proof {
                col = ColumnAstV { name: name@, col_type, not_null, primary_key, default: opt_expr_v(default), references: opt_fk_v(references), unique: false, check: None };
            }
        }
    }

    #[verifier::spinoff_prover]
    #[verifier::rlimit(60)]
    fn members(&mut self) -> (r: Result<(Vec<ColumnAst>, Vec<ForeignKeySpec>), Error>)
        requires
            old(self).wf(),
        ensures
            moved(*old(self), *final(self), (match r { Ok(v) => Ok((column_asts_v(v.0@), foreign_key_specs_v(v.1@))), Err(e) => Err(e@) }), members_at(old(self).source(), old(self).at())),
    {
        proof {
            reveal(members_at);
        }
        let ghost c0 = self.source();
        let ghost want = members_at(c0, self.at());
        let mut columns: Vec<ColumnAst> = Vec::new();
        let mut fks: Vec<ForeignKeySpec> = Vec::new();
        assert(column_asts_v(columns@) =~= Seq::empty());
        assert(foreign_key_specs_v(fks@) =~= Seq::empty());
        assert(want is Ok ==> Seq::empty() + (want->Ok_0).0.0 =~= (want->Ok_0).0.0);
        assert(want is Ok ==> Seq::empty() + (want->Ok_0).0.1 =~= (want->Ok_0).0.1);
        #[verifier::loop_isolation(false)]
        loop
            invariant
                self.wf(),
                self.source() == c0,
                old(self).i <= self.i,
                match members_at(c0, self.at()) {
                    Ok((rest, s)) => want == Ok::<_, ErrorV>(((column_asts_v(columns@) + rest.0, foreign_key_specs_v(fks@) + rest.1), s)),
                    Err(e) => want == Err::<((Seq<ColumnAstV>, Seq<ForeignKeySpecV>), At), _>(e),
                },
            decreases self.toks@.len() - self.i,
        {
            proof {
                reveal(members_at);
            }
            let ghost cols0 = column_asts_v(columns@);
            let ghost fks0 = foreign_key_specs_v(fks@);
            if self.is_at(Tok::Kw(Kw::Foreign)) {
                let fk = self.table_fk()?;
                let ghost v = fk@;
                fks.push(fk);
                assert(foreign_key_specs_v(fks@) =~= fks0.push(v));
                if !self.eat(Tok::Comma) {
                    assert(cols0 + Seq::<ColumnAstV>::empty() =~= cols0);
                    assert(fks0 + seq![v] =~= foreign_key_specs_v(fks@));
                    return Ok((columns, fks));
                }
                proof {
                    match members_at(c0, self.at()) {
                        Ok((rest, s)) => {
                            assert(fks0 + (seq![v] + rest.1) =~= foreign_key_specs_v(fks@) + rest.1);
                        },
                        Err(_) => {},
                    }
                }
            } else {
                let col = self.column_def()?;
                let ghost v = col@;
                columns.push(col);
                assert(column_asts_v(columns@) =~= cols0.push(v));
                if !self.eat(Tok::Comma) {
                    assert(fks0 + Seq::<ForeignKeySpecV>::empty() =~= fks0);
                    assert(cols0 + seq![v] =~= column_asts_v(columns@));
                    return Ok((columns, fks));
                }
                proof {
                    match members_at(c0, self.at()) {
                        Ok((rest, s)) => {
                            assert(cols0 + (seq![v] + rest.0) =~= column_asts_v(columns@) + rest.0);
                        },
                        Err(_) => {},
                    }
                }
            }
        }
    }

    fn create_table(&mut self) -> (r: Result<Stmt, Error>)
        requires
            old(self).wf(),
        ensures
            moved(*old(self), *final(self), (match r { Ok(v) => Ok(v@), Err(e) => Err(e@) }), create_table_at(old(self).source(), old(self).at())),
    {
        proof {
            reveal(create_table_at);
        }
        self.expect_kw(Kw::Table, "TABLE")?;
        let if_not_exists = self.if_not_exists()?;
        let name = self.ident("un nombre de tabla")?;
        self.expect(Tok::LParen, "'('")?;
        let (columns, foreign_keys) = self.members()?;
        self.close()?;
        let uniques: Vec<Vec<String>> = Vec::new();
        let checks: Vec<String> = Vec::new();
        assert(crate::catalog::stringss_v(uniques@) =~= Seq::empty());
        assert(strings_v(checks@) =~= Seq::empty());
        Ok(Stmt::CreateTable { if_not_exists, name, columns, foreign_keys, uniques, checks })
    }

    fn create_index(&mut self) -> (r: Result<Stmt, Error>)
        requires
            old(self).wf(),
        ensures
            moved(*old(self), *final(self), (match r { Ok(v) => Ok(v@), Err(e) => Err(e@) }), create_index_at(old(self).source(), old(self).at())),
    {
        proof {
            reveal(create_index_at);
        }
        let unique = self.eat_kw(Kw::Unique);
        self.expect_kw(Kw::Index, "INDEX")?;
        let if_not_exists = self.if_not_exists()?;
        let name = self.ident("un nombre de índice")?;
        self.expect_kw(Kw::On, "ON")?;
        let table = self.ident("un nombre de tabla")?;
        self.expect(Tok::LParen, "'('")?;
        let columns = self.ident_list("un nombre de columna")?;
        Ok(Stmt::CreateIndex { if_not_exists, unique, name, table, columns })
    }

    /// The text from the byte `lo`, where the token `k` stands, to the current token.
    fn text_from(&self, lo: usize, Ghost(k): Ghost<int>) -> (r: String)
        requires
            self.wf(),
            0 <= k <= self.i,
            lo == pos_at(self.source(), k),
        ensures
            r@ == text_between(self.source(), k, self.i as int),
    {
        let hi: usize = self.pos();
        proof {
            reveal(in_place);
            assert(self.src@.take(self.src@.len() as int) =~= self.src@);
            assert(boundary(self.src@, text_width(self.src@)));
        }
        let ghost c = self.source();
        assert(c.toks.len() == self.toks@.len());
        assert(lo <= hi) by {
            if k < c.toks.len() && self.i < c.toks.len() {
                assert(c.toks[k].pos <= c.toks[self.i as int].pos);
            } else if k < c.toks.len() {
                assert(c.toks[k].pos <= c.end);
            }
        }
        assert(boundary(self.src@, lo as nat)) by {
            if k < c.toks.len() {
                assert(boundary(c.src, c.toks[k].pos as nat));
            }
        }
        assert(boundary(self.src@, hi as nat)) by {
            if self.i < c.toks.len() {
                assert(boundary(c.src, c.toks[self.i as int].pos as nat));
            }
        }
        let t = slice_of(self.src, lo, hi);
        match t {
            Some(t) => {
                let chars = chars_of(t);
                let (a, b) = trim_bounds(chars.as_slice(), true, true);
                string_range(chars.as_slice(), a, b)
            },
            None => string_none(),
        }
    }

    fn create_view(&mut self) -> (r: Result<Stmt, Error>)
        requires
            old(self).wf(),
        ensures
            moved(*old(self), *final(self), (match r { Ok(v) => Ok(v@), Err(e) => Err(e@) }), create_view_at(old(self).source(), old(self).at())),
    {
        proof {
            reveal(create_view_at);
        }
        self.expect_kw(Kw::View, "VIEW")?;
        let if_not_exists = self.if_not_exists()?;
        let name = self.ident("un nombre de vista")?;
        self.expect_kw(Kw::As, "AS")?;
        let lo: usize = self.pos();
        let ghost k = self.i as int;
        let _q = self.select(0)?;
        let select_sql = self.text_from(lo, Ghost(k));
        Ok(Stmt::CreateView { if_not_exists, name, select_sql })
    }

    fn timing(&mut self) -> (r: Result<TriggerTiming, Error>)
        requires
            old(self).wf(),
        ensures
            moved(*old(self), *final(self), (match r { Ok(v) => Ok(v), Err(e) => Err(e@) }), timing_at(old(self).source(), old(self).at())),
    {
        proof {
            reveal(timing_at);
        }
        if self.eat_kw(Kw::Before) {
            return Ok(TriggerTiming::Before);
        }
        if self.eat_kw(Kw::After) {
            return Ok(TriggerTiming::After);
        }
        if self.eat_kw(Kw::Instead) {
            self.expect_kw(Kw::Of, "OF")?;
            return Ok(TriggerTiming::InsteadOf);
        }
        Err(self.missing("BEFORE, AFTER o INSTEAD OF"))
    }

    fn event(&mut self) -> (r: Result<TriggerEvent, Error>)
        requires
            old(self).wf(),
        ensures
            moved(*old(self), *final(self), (match r { Ok(v) => Ok(v), Err(e) => Err(e@) }), event_at(old(self).source(), old(self).at())),
    {
        proof {
            reveal(event_at);
        }
        if self.eat_kw(Kw::Insert) {
            return Ok(TriggerEvent::Insert);
        }
        if self.eat_kw(Kw::Update) {
            return Ok(TriggerEvent::Update);
        }
        if self.eat_kw(Kw::Delete) {
            return Ok(TriggerEvent::Delete);
        }
        Err(self.missing("INSERT, UPDATE o DELETE"))
    }

    fn for_each(&mut self) -> (r: Result<TriggerForEach, Error>)
        requires
            old(self).wf(),
        ensures
            ran(*old(self), *final(self), (match r { Ok(v) => Ok(v), Err(e) => Err(e@) }), for_each_at(old(self).source(), old(self).at())),
    {
        proof {
            reveal(for_each_at);
        }
        if !self.eat_kw(Kw::For) {
            return Ok(TriggerForEach::Row);
        }
        self.expect_kw(Kw::Each, "EACH")?;
        if self.eat_kw(Kw::Row) {
            return Ok(TriggerForEach::Row);
        }
        if self.eat_kw(Kw::Statement) {
            return Ok(TriggerForEach::Statement);
        }
        Err(self.missing("ROW o STATEMENT"))
    }

    #[verifier::spinoff_prover]
    #[verifier::rlimit(60)]
    fn create_trigger(&mut self) -> (r: Result<Stmt, Error>)
        requires
            old(self).wf(),
        ensures
            moved(*old(self), *final(self), (match r { Ok(v) => Ok(v@), Err(e) => Err(e@) }), create_trigger_at(old(self).source(), old(self).at())),
        decreases old(self).toks@.len() - old(self).i, 0int,
    {
        self.expect_kw(Kw::Trigger, "TRIGGER")?;
        let if_not_exists = self.if_not_exists()?;
        let name = self.ident("un nombre de trigger")?;
        let timing = self.timing()?;
        let event = self.event()?;
        self.expect_kw(Kw::On, "ON")?;
        let table = self.ident("una tabla")?;
        let for_each = self.for_each()?;
        self.expect_kw(Kw::Begin, "BEGIN")?;
        let lo: usize = self.pos();
        let ghost k = self.i as int;
        let _stmts = self.body()?;
        let body_sql = self.text_from(lo, Ghost(k));
        self.expect_kw(Kw::End, "END")?;
        Ok(Stmt::CreateTrigger { if_not_exists, name, timing, event, for_each, table, body_sql })
    }

    fn body(&mut self) -> (r: Result<Vec<Stmt>, Error>)
        requires
            old(self).wf(),
        ensures
            ran(*old(self), *final(self), (match r { Ok(v) => Ok(stmts_v(v@)), Err(e) => Err(e@) }), body_at(old(self).source(), old(self).at())),
        decreases old(self).toks@.len() - old(self).i, 10int,
    {
        let ghost c0 = self.source();
        let ghost want = body_at(c0, self.at());
        let mut out: Vec<Stmt> = Vec::new();
        assert(stmts_v(out@) =~= Seq::empty());
        assert(want is Ok ==> Seq::empty() + (want->Ok_0).0 =~= (want->Ok_0).0);
        #[verifier::loop_isolation(false)]
        loop
            invariant
                self.wf(),
                self.source() == c0,
                old(self).i <= self.i,
                match body_at(c0, self.at()) {
                    Ok((rest, s)) => want == Ok::<_, ErrorV>((stmts_v(out@) + rest, s)),
                    Err(e) => want == Err::<(Seq<StmtV>, At), _>(e),
                },
            decreases self.toks@.len() - self.i,
        {
            let ghost before = stmts_v(out@);
            if self.i >= self.toks.len() || self.is_at(Tok::Kw(Kw::End)) {
                assert(before + Seq::<StmtV>::empty() =~= before);
                return Ok(out);
            }
            let s = self.statement()?;
            let ghost v = s@;
            out.push(s);
            assert(stmts_v(out@) =~= before.push(v));
            let _semi = self.eat(Tok::Semi);
            proof {
                match body_at(c0, self.at()) {
                    Ok((rest, s)) => {
                        assert(before + (seq![v] + rest) =~= stmts_v(out@) + rest);
                    },
                    Err(_) => {},
                }
            }
        }
    }

    fn create(&mut self) -> (r: Result<Stmt, Error>)
        requires
            old(self).wf(),
        ensures
            moved(*old(self), *final(self), (match r { Ok(v) => Ok(v@), Err(e) => Err(e@) }), create_at(old(self).source(), old(self).at())),
        decreases old(self).toks@.len() - old(self).i, 2int,
    {
        if self.is_at(Tok::Kw(Kw::Unique)) || self.is_at(Tok::Kw(Kw::Index)) {
            return self.create_index();
        }
        if self.is_at(Tok::Kw(Kw::View)) {
            return self.create_view();
        }
        if self.is_at(Tok::Kw(Kw::Trigger)) {
            return self.create_trigger();
        }
        self.create_table()
    }

    fn drop_stmt(&mut self) -> (r: Result<Stmt, Error>)
        requires
            old(self).wf(),
        ensures
            moved(*old(self), *final(self), (match r { Ok(v) => Ok(v@), Err(e) => Err(e@) }), drop_at(old(self).source(), old(self).at())),
    {
        proof {
            reveal(drop_at);
        }
        if self.eat_kw(Kw::Index) {
            let if_exists = self.if_exists()?;
            let name = self.ident("un nombre de índice")?;
            return Ok(Stmt::DropIndex { if_exists, name });
        }
        if self.eat_kw(Kw::View) {
            let if_exists = self.if_exists()?;
            let name = self.ident("un nombre de vista")?;
            return Ok(Stmt::DropView { if_exists, name });
        }
        if self.eat_kw(Kw::Trigger) {
            let if_exists = self.if_exists()?;
            let name = self.ident("un nombre de trigger")?;
            return Ok(Stmt::DropTrigger { if_exists, name });
        }
        self.expect_kw(Kw::Table, "TABLE")?;
        let if_exists = self.if_exists()?;
        let name = self.ident("un nombre de tabla")?;
        Ok(Stmt::DropTable { if_exists, name })
    }

    fn column_pos(&mut self) -> (r: Result<ColumnPos, Error>)
        requires
            old(self).wf(),
        ensures
            moved(*old(self), *final(self), (match r { Ok(v) => Ok(v@), Err(e) => Err(e@) }), column_pos_at(old(self).source(), old(self).at())),
    {
        proof {
            reveal(column_pos_at);
        }
        if self.eat_kw(Kw::First) {
            return Ok(ColumnPos::First);
        }
        if self.eat_kw(Kw::Before) {
            let name = self.ident("un nombre de columna")?;
            return Ok(ColumnPos::Before(name));
        }
        if self.eat_kw(Kw::After) {
            let name = self.ident("un nombre de columna")?;
            return Ok(ColumnPos::After(name));
        }
        Err(self.missing("FIRST, BEFORE o AFTER"))
    }

    #[verifier::spinoff_prover]
    #[verifier::rlimit(60)]
    fn alter_table(&mut self) -> (r: Result<Stmt, Error>)
        requires
            old(self).wf(),
        ensures
            moved(*old(self), *final(self), (match r { Ok(v) => Ok(v@), Err(e) => Err(e@) }), alter_at(old(self).source(), old(self).at())),
    {
        proof {
            reveal(alter_at);
        }
        self.expect_kw(Kw::Table, "TABLE")?;
        let table = self.ident("un nombre de tabla")?;
        if self.eat_kw(Kw::Add) {
            let _word = self.eat_kw(Kw::Column);
            let column = self.column_def()?;
            return Ok(Stmt::AlterTableAddColumn { table, column });
        }
        if self.eat_kw(Kw::Move) {
            self.expect_kw(Kw::Column, "COLUMN")?;
            let column = self.ident("un nombre de columna")?;
            let pos = self.column_pos()?;
            return Ok(Stmt::AlterTableMoveColumn { table, column, pos });
        }
        if self.eat_kw(Kw::Reorder) {
            self.expect_kw(Kw::Columns, "COLUMNS")?;
            self.expect(Tok::LParen, "'('")?;
            let order = self.ident_list("un nombre de columna")?;
            return Ok(Stmt::AlterTableReorderColumns { table, order });
        }
        if self.eat_kw(Kw::Rename) {
            let _word = self.eat_kw(Kw::Column);
            let from = self.ident("un nombre de columna")?;
            self.expect_kw(Kw::To, "TO")?;
            let to = self.ident("un nombre de columna")?;
            return Ok(Stmt::AlterTableRenameColumn { table, old: from, new: to });
        }
        if self.eat_kw(Kw::Drop) {
            let _word = self.eat_kw(Kw::Column);
            let column = self.ident("un nombre de columna")?;
            return Ok(Stmt::AlterTableDropColumn { table, column });
        }
        Err(self.missing("ADD, DROP, RENAME, MOVE o REORDER tras ALTER TABLE"))
    }

    fn value_row(&mut self) -> (r: Result<Vec<Expr>, Error>)
        requires
            old(self).wf(),
        ensures
            moved(*old(self), *final(self), (match r { Ok(v) => Ok(exprs_v(v@)), Err(e) => Err(e@) }), value_row_at(old(self).source(), old(self).at())),
    {
        proof {
            reveal(value_row_at);
        }
        self.expect(Tok::LParen, "'('")?;
        let row = self.exprs(0)?;
        self.close()?;
        Ok(row)
    }

    fn value_rows(&mut self) -> (r: Result<Vec<Vec<Expr>>, Error>)
        requires
            old(self).wf(),
        ensures
            moved(*old(self), *final(self), (match r { Ok(v) => Ok(exprss_v(v@)), Err(e) => Err(e@) }), value_rows_at(old(self).source(), old(self).at())),
    {
        proof {
            reveal(value_rows_at);
        }
        let ghost c0 = self.source();
        let ghost want = value_rows_at(c0, self.at());
        let mut out: Vec<Vec<Expr>> = Vec::new();
        assert(exprss_v(out@) =~= Seq::empty());
        assert(want is Ok ==> Seq::empty() + (want->Ok_0).0 =~= (want->Ok_0).0);
        #[verifier::loop_isolation(false)]
        loop
            invariant
                self.wf(),
                self.source() == c0,
                old(self).i <= self.i,
                match value_rows_at(c0, self.at()) {
                    Ok((rest, s)) => want == Ok::<_, ErrorV>((exprss_v(out@) + rest, s)),
                    Err(e) => want == Err::<(Seq<Seq<ExprV>>, At), _>(e),
                },
            decreases self.toks@.len() - self.i,
        {
            proof {
                reveal(value_rows_at);
            }
            let ghost before = exprss_v(out@);
            let x = self.value_row()?;
            let ghost v = exprs_v(x@);
            out.push(x);
            assert(exprss_v(out@) =~= before.push(v));
            if !self.eat(Tok::Comma) {
                assert(before + seq![v] =~= exprss_v(out@));
                return Ok(out);
            }
            proof {
                match value_rows_at(c0, self.at()) {
                    Ok((rest, s)) => {
                        assert(before + (seq![v] + rest) =~= exprss_v(out@) + rest);
                    },
                    Err(_) => {},
                }
            }
        }
    }

    fn assignment(&mut self) -> (r: Result<(String, Expr), Error>)
        requires
            old(self).wf(),
        ensures
            moved(*old(self), *final(self), (match r { Ok(v) => Ok((v.0@, v.1@)), Err(e) => Err(e@) }), set_at(old(self).source(), old(self).at())),
    {
        proof {
            reveal(set_at);
        }
        let col = self.ident("un nombre de columna")?;
        self.expect(Tok::Eq, "'='")?;
        let x = self.expr(0)?;
        Ok((col, x))
    }

    fn assignments(&mut self) -> (r: Result<Vec<(String, Expr)>, Error>)
        requires
            old(self).wf(),
        ensures
            moved(*old(self), *final(self), (match r { Ok(v) => Ok(string_expr_pairs_v(v@)), Err(e) => Err(e@) }), sets_at(old(self).source(), old(self).at())),
    {
        proof {
            reveal(sets_at);
        }
        let ghost c0 = self.source();
        let ghost want = sets_at(c0, self.at());
        let mut out: Vec<(String, Expr)> = Vec::new();
        assert(string_expr_pairs_v(out@) =~= Seq::empty());
        assert(want is Ok ==> Seq::empty() + (want->Ok_0).0 =~= (want->Ok_0).0);
        #[verifier::loop_isolation(false)]
        loop
            invariant
                self.wf(),
                self.source() == c0,
                old(self).i <= self.i,
                match sets_at(c0, self.at()) {
                    Ok((rest, s)) => want == Ok::<_, ErrorV>((string_expr_pairs_v(out@) + rest, s)),
                    Err(e) => want == Err::<(Seq<(Seq<char>, ExprV)>, At), _>(e),
                },
            decreases self.toks@.len() - self.i,
        {
            proof {
                reveal(sets_at);
            }
            let ghost before = string_expr_pairs_v(out@);
            let x = self.assignment()?;
            let ghost v = (x.0@, x.1@);
            out.push(x);
            assert(string_expr_pairs_v(out@) =~= before.push(v));
            if !self.eat(Tok::Comma) {
                assert(before + seq![v] =~= string_expr_pairs_v(out@));
                return Ok(out);
            }
            proof {
                match sets_at(c0, self.at()) {
                    Ok((rest, s)) => {
                        assert(before + (seq![v] + rest) =~= string_expr_pairs_v(out@) + rest);
                    },
                    Err(_) => {},
                }
            }
        }
    }

    fn targets(&mut self) -> (r: Result<(), Error>)
        requires
            old(self).wf(),
        ensures
            ran(*old(self), *final(self), (match r { Ok(v) => Ok(v), Err(e) => Err(e@) }), targets_at(old(self).source(), old(self).at())),
    {
        proof {
            reveal(targets_at);
        }
        if self.eat(Tok::LParen) {
            let _names = self.ident_list("una columna")?;
        }
        Ok(())
    }

    fn on_conflict(&mut self) -> (r: Result<Option<OnConflict>, Error>)
        requires
            old(self).wf(),
        ensures
            ran(*old(self), *final(self), (match r { Ok(v) => Ok(opt_conflict_v(v)), Err(e) => Err(e@) }), on_conflict_at(old(self).source(), old(self).at())),
    {
        proof {
            reveal(on_conflict_at);
        }
        if !(self.is_at(Tok::Kw(Kw::On)) && self.is_next(Tok::Kw(Kw::Conflict))) {
            return Ok(None);
        }
        self.step();
        self.step();
        self.targets()?;
        self.expect_kw(Kw::Do, "DO")?;
        if self.eat_kw(Kw::Nothing) {
            return Ok(Some(OnConflict::Nothing));
        }
        self.expect_kw(Kw::Update, "UPDATE")?;
        self.expect_kw(Kw::SetTo, "SET")?;
        let sets = self.assignments()?;
        let where_clause = self.clause(0, Kw::Where)?;
        Ok(Some(OnConflict::Update { sets, where_clause }))
    }

    fn returning(&mut self) -> (r: Result<Option<Vec<SelectItem>>, Error>)
        requires
            old(self).wf(),
        ensures
            ran(*old(self), *final(self), (match r { Ok(v) => Ok(opt_items_v(v)), Err(e) => Err(e@) }), returning_at(old(self).source(), old(self).at())),
    {
        proof {
            reveal(returning_at);
        }
        if !self.eat_kw(Kw::Returning) {
            return Ok(None);
        }
        let items = self.select_items(0)?;
        Ok(Some(items))
    }

    fn insert_columns(&mut self) -> (r: Result<Option<Vec<String>>, Error>)
        requires
            old(self).wf(),
        ensures
            ran(*old(self), *final(self), (match r { Ok(v) => Ok(opt_strings_v(v)), Err(e) => Err(e@) }), insert_columns_at(old(self).source(), old(self).at())),
    {
        proof {
            reveal(insert_columns_at);
        }
        if !self.eat(Tok::LParen) {
            return Ok(None);
        }
        let names = self.ident_list("un nombre de columna")?;
        Ok(Some(names))
    }

    fn insert(&mut self) -> (r: Result<Stmt, Error>)
        requires
            old(self).wf(),
        ensures
            moved(*old(self), *final(self), (match r { Ok(v) => Ok(v@), Err(e) => Err(e@) }), insert_at(old(self).source(), old(self).at())),
    {
        proof {
            reveal(insert_at);
        }
        self.expect_kw(Kw::Into, "INTO")?;
        let table = self.ident("un nombre de tabla")?;
        let columns = self.insert_columns()?;
        self.expect_kw(Kw::Values, "VALUES")?;
        let rows = self.value_rows()?;
        let on_conflict = self.on_conflict()?;
        let returning = self.returning()?;
        Ok(Stmt::Insert { table, columns, source: InsertSource::Values(rows), on_conflict, returning })
    }

    fn update(&mut self) -> (r: Result<Stmt, Error>)
        requires
            old(self).wf(),
        ensures
            moved(*old(self), *final(self), (match r { Ok(v) => Ok(v@), Err(e) => Err(e@) }), update_at(old(self).source(), old(self).at())),
    {
        proof {
            reveal(update_at);
        }
        let table = self.ident("un nombre de tabla")?;
        self.expect_kw(Kw::SetTo, "SET")?;
        let sets = self.assignments()?;
        let where_clause = self.clause(0, Kw::Where)?;
        let returning = self.returning()?;
        Ok(Stmt::Update { table, sets, where_clause, returning })
    }

    fn delete(&mut self) -> (r: Result<Stmt, Error>)
        requires
            old(self).wf(),
        ensures
            moved(*old(self), *final(self), (match r { Ok(v) => Ok(v@), Err(e) => Err(e@) }), delete_at(old(self).source(), old(self).at())),
    {
        proof {
            reveal(delete_at);
        }
        self.expect_kw(Kw::From, "FROM")?;
        let table = self.ident("un nombre de tabla")?;
        let where_clause = self.clause(0, Kw::Where)?;
        let returning = self.returning()?;
        Ok(Stmt::Delete { table, where_clause, returning })
    }

    #[verifier::spinoff_prover]
    #[verifier::rlimit(60)]
    fn statement(&mut self) -> (r: Result<Stmt, Error>)
        requires
            old(self).wf(),
        ensures
            moved(*old(self), *final(self), (match r { Ok(v) => Ok(v@), Err(e) => Err(e@) }), stmt_at(old(self).source(), old(self).at())),
        decreases old(self).toks@.len() - old(self).i, 8int,
    {
        let k = match self.peek() {
            Some(Tok::Kw(k)) => *k,
            _ => {
                return Err(self.missing("CREATE, DROP, INSERT, SELECT, UPDATE, DELETE, BEGIN, COMMIT o ROLLBACK"));
            },
        };
        if k == Kw::With {
            return self.with();
        }
        if k == Kw::Select {
            let q = self.select(0)?;
            return Ok(Stmt::Select(q));
        }
        if k == Kw::Create {
            self.step();
            return self.create();
        }
        if k == Kw::Alter {
            self.step();
            return self.alter_table();
        }
        if k == Kw::Drop {
            self.step();
            return self.drop_stmt();
        }
        if k == Kw::Insert {
            self.step();
            return self.insert();
        }
        if k == Kw::Update {
            self.step();
            return self.update();
        }
        if k == Kw::Delete {
            self.step();
            return self.delete();
        }
        if k == Kw::Begin {
            self.step();
            return Ok(Stmt::Begin);
        }
        if k == Kw::Commit {
            self.step();
            return Ok(Stmt::Commit);
        }
        if k == Kw::Rollback {
            self.step();
            return Ok(Stmt::Rollback);
        }
        Err(self.missing("CREATE, DROP, INSERT, SELECT, UPDATE, DELETE, BEGIN, COMMIT o ROLLBACK"))
    }

    fn statements(&mut self) -> (r: Result<Vec<Stmt>, Error>)
        requires
            old(self).wf(),
        ensures
            ran(*old(self), *final(self), (match r { Ok(v) => Ok(stmts_v(v@)), Err(e) => Err(e@) }), stmts_at(old(self).source(), old(self).at())),
    {
        proof {
            reveal(stmts_at);
        }
        let ghost c0 = self.source();
        let ghost want = stmts_at(c0, self.at());
        let mut out: Vec<Stmt> = Vec::new();
        assert(stmts_v(out@) =~= Seq::empty());
        assert(want is Ok ==> Seq::empty() + (want->Ok_0).0 =~= (want->Ok_0).0);
        #[verifier::loop_isolation(false)]
        loop
            invariant
                self.wf(),
                self.source() == c0,
                old(self).i <= self.i,
                match stmts_at(c0, self.at()) {
                    Ok((rest, s)) => want == Ok::<_, ErrorV>((stmts_v(out@) + rest, s)),
                    Err(e) => want == Err::<(Seq<StmtV>, At), _>(e),
                },
            decreases self.toks@.len() - self.i,
        {
            proof {
                reveal(stmts_at);
            }
            let ghost before = stmts_v(out@);
            if self.i >= self.toks.len() {
                assert(before + Seq::<StmtV>::empty() =~= before);
                return Ok(out);
            }
            let s = self.statement()?;
            let ghost v = s@;
            out.push(s);
            assert(stmts_v(out@) =~= before.push(v));
            let _semi = self.eat(Tok::Semi);
            proof {
                match stmts_at(c0, self.at()) {
                    Ok((rest, s)) => {
                        assert(before + (seq![v] + rest) =~= stmts_v(out@) + rest);
                    },
                    Err(_) => {},
                }
            }
        }
    }

    /// A parser at the start of `sql`.
    fn open(sql: &'a str, reals: &RealTable) -> (r: Result<Parser<'a>, Error>)
        ensures
            (match lexed(sql@, reals@) {
                    Ok(ts) => r is Ok && r->Ok_0.wf() && r->Ok_0.source() == source_of(ts, sql@) && r->Ok_0.at() == start(),
                    Err(e) => r is Err && r->Err_0@ == e,
            }),
    {
        let toks = lex(sql, reals)?;
        let end: usize = sql.as_bytes().len();
        proof {
            lemma_text_bytes(sql@);
            tokens_in_place(sql@, reals@);
        }
        assert(end == text_width(sql@));
        let names: Vec<String> = Vec::new();
        assert(strings_v(names@) =~= Seq::empty());
        Ok(Parser { src: sql, toks, i: 0, end, names, numbered: false })
    }

}

pub open spec fn stmts_v(s: Seq<Stmt>) -> Seq<StmtV> {
    Seq::new(s.len(), |i: int| s[i]@)
}

spec fn opt_box_v(x: Option<Box<Expr>>) -> Option<Box<ExprV>> {
    match x {
        Some(e) => Some(Box::new(e@)),
        None => None,
    }
}

spec fn opt_expr_v(x: Option<Expr>) -> Option<ExprV> {
    match x {
        Some(e) => Some(e@),
        None => None,
    }
}

spec fn opt_fk_v(x: Option<ColumnFk>) -> Option<ColumnFkV> {
    match x {
        Some(e) => Some(e@),
        None => None,
    }
}

spec fn opt_table_v(x: Option<TableRef>) -> Option<TableRefV> {
    match x {
        Some(e) => Some(e@),
        None => None,
    }
}

spec fn opt_conflict_v(x: Option<OnConflict>) -> Option<OnConflictV> {
    match x {
        Some(e) => Some(e@),
        None => None,
    }
}

spec fn opt_items_v(x: Option<Vec<SelectItem>>) -> Option<Seq<SelectItemV>> {
    match x {
        Some(v) => Some(select_items_v(v@)),
        None => None,
    }
}

spec fn opt_strings_v(x: Option<Vec<String>>) -> Option<Seq<Seq<char>>> {
    match x {
        Some(v) => Some(strings_v(v@)),
        None => None,
    }
}

fn string_none() -> (r: String)
    ensures
        r@ == Seq::<char>::empty(),
{
    let none: Vec<char> = Vec::new();
    string_range(none.as_slice(), 0, 0)
}

/// The statement of `sql`.
pub fn parse(sql: &str, reals: &RealTable) -> (r: Result<Stmt, Error>)
    ensures
        gives(r, parsed(sql@, reals@)),
{
    let (s, _names) = parse_full(sql, reals)?;
    Ok(s)
}

/// The statement of `sql` and the names of its parameters `:name`, by index; there are
/// none with numbered parameters.
#[verifier::spinoff_prover]
#[verifier::rlimit(60)]
pub fn parse_full(sql: &str, reals: &RealTable) -> (r: Result<(Stmt, Vec<String>), Error>)
    ensures
        (match parsed_full(sql@, reals@) {
                Ok((s, names)) => r is Ok && (r->Ok_0).0@ == s && strings_v((r->Ok_0).1@) == names,
                Err(e) => r is Err && r->Err_0@ == e,
        }),
{
    let mut p = Parser::open(sql, reals)?;
    let s = p.statement()?;
    let _semi = p.eat(Tok::Semi);
    if p.i < p.toks.len() {
        return Err(p.missing("el final de la sentencia"));
    }
    Ok((s, p.names))
}

/// The statements of `sql`, separated by semicolons.
pub fn parse_many(sql: &str, reals: &RealTable) -> (r: Result<Vec<Stmt>, Error>)
    ensures
        (match parsed_many(sql@, reals@) {
                Ok(ss) => r is Ok && stmts_v(r->Ok_0@) == ss,
                Err(e) => r is Err && r->Err_0@ == e,
        }),
{
    let mut p = Parser::open(sql, reals)?;
    p.statements()
}

} // verus!
