//! The parser: a cursor over the tokens, the tracker of the furthest
//! failure, and the rules for statements and queries.
//!
//! Every rule is stated twice: as a function on plain values, from the
//! tokens and the progress made so far to a `Step`, and as a method that
//! does the work. Each method ends in the progress, and with the result, that
//! the function gives.
//!
//! The functions are defined on every sequence of tokens. Before a rule
//! calls itself, it makes sure that a token has been taken since it began,
//! and rejects the input otherwise. In a sequence that ends with the end
//! mark this never happens, since the parser takes every token but the last
//! one.

use crate::ast::{
    all_grouped, are_sound_ctes, ctes_view, debug_form, debug_string, exprs_of, is_sound_cte,
    is_sound_query, is_sound_select, is_sound_statement, is_sound_with, names_of, CteView, Query,
    QueryView, SelectStmt, SelectView, Statement, StatementView, TableRef, TableRefView, With,
    WithView, CTE,
};
use crate::error::{
    is_keyword, is_report, is_sound, lemma_report_is_placed, track, Backtrace, Failure,
    ParseError,
};
use crate::expr::{
    expr_step, is_grouped, lemma_expr_grouped, lemma_expr_reads_back, Expr, ExprView,
};
use crate::text::{
    begins_with, chars_of, has_part, holds_part, lemma_chars_within_bytes, to_upper_case,
    upper_case,
};
use crate::token::{
    end_mark, is_stream, kind_name, tokenize, tokens_of, views_of, Token, TokenKind, TokenView,
};
use vstd::prelude::*;
use vstd::string::*;

verus! {

/// What a rule of the parser hands out: a value, or a diagnostic.
pub type ParseResult<T> = Result<T, ParseError>;

/// How far a parse has come: the index of the token it looks at, and the
/// furthest failure it has run into.
pub struct Progress {
    pub pos: nat,
    pub trace: Option<Failure>,
}

/// How a rule ends: with a value, or with the diagnostic for the furthest
/// failure, or with that diagnostic and a message of the rule's own.
pub enum Outcome<T> {
    Accepted(T),
    Rejected,
    RejectedWith(Seq<char>),
}

/// What a rule does: how it ends, and the progress it leaves.
pub struct Step<T> {
    pub outcome: Outcome<T>,
    pub after: Progress,
}

/// A rule that ends well with `value`.
pub open spec fn accept<T>(value: T, after: Progress) -> Step<T> {
    Step { outcome: Outcome::Accepted(value), after }
}

/// A rule that ends with the diagnostic for the furthest failure.
pub open spec fn reject<T>(after: Progress) -> Step<T> {
    Step { outcome: Outcome::Rejected, after }
}

/// A rule that ends because a rule inside it ended with a diagnostic.
pub open spec fn pass_on<S, T>(step: Step<S>) -> Step<T> {
    Step {
        outcome: match step.outcome {
            Outcome::RejectedWith(note) => Outcome::RejectedWith(note),
            _ => Outcome::Rejected,
        },
        after: step.after,
    }
}

/// The progress after the token at hand has been taken. The last token is
/// never left behind.
pub open spec fn advanced(toks: Seq<TokenView>, at: Progress) -> Progress {
    Progress {
        pos: if at.pos + 1 < toks.len() {
            at.pos + 1
        } else {
            at.pos
        },
        trace: at.trace,
    }
}

/// The progress after a failure has been reported at the token at hand,
/// where `label` was expected.
pub open spec fn noted(toks: Seq<TokenView>, input: Seq<char>, at: Progress, label: Seq<char>)
    -> Progress {
    let token = toks[at.pos as int];
    Progress {
        pos: at.pos,
        trace: track(at.trace, token.start, label, Some(token.text), input),
    }
}

/// The rule for one token of a given kind.
pub open spec fn expect_step(
    toks: Seq<TokenView>,
    input: Seq<char>,
    at: Progress,
    kind: TokenKind,
) -> Step<TokenView> {
    let token = toks[at.pos as int];
    if token.kind == kind {
        accept(token, advanced(toks, at))
    } else {
        reject(noted(toks, input, at, kind_name(kind)))
    }
}

/// The rule for an identifier.
pub open spec fn identifier_step(toks: Seq<TokenView>, input: Seq<char>, at: Progress) -> Step<
    Seq<char>,
> {
    let token = toks[at.pos as int];
    if token.kind == TokenKind::Identifier {
        accept(token.text, advanced(toks, at))
    } else {
        reject(noted(toks, input, at, "identifier"@))
    }
}

/// The progress after a token of `kind` has been taken if it is at hand.
pub open spec fn consumed(toks: Seq<TokenView>, at: Progress, kind: TokenKind) -> Progress {
    if toks[at.pos as int].kind == kind {
        advanced(toks, at)
    } else {
        at
    }
}

/// True if `result` is what a rule hands out when it ends as `step` says:
/// a value, or the diagnostic for the furthest failure after the step.
pub open spec fn yields<T, V>(result: Result<T, ParseError>, step: Step<V>, input: Seq<char>)
    -> bool {
    match step.outcome {
        Outcome::Accepted(_) => result is Ok,
        Outcome::Rejected => result is Err && is_report(
            result->Err_0,
            step.after.trace,
            input,
            None,
        ),
        Outcome::RejectedWith(note) => result is Err && is_report(
            result->Err_0,
            step.after.trace,
            input,
            Some(note),
        ),
    }
}

/// True if the token at hand is an identifier whose upper-case form begins
/// with one of `initials`.
pub open spec fn begins_like(toks: Seq<TokenView>, at: Progress, initials: Seq<char>) -> bool {
    let token = toks[at.pos as int];
    let upper = upper_case(token.text);
    &&& token.kind == TokenKind::Identifier
    &&& exists|i: int| 0 <= i < initials.len() && seq![#[trigger] initials[i]].is_prefix_of(upper)
}

/// True if the token at hand is an identifier that may be a misspelt
/// WHERE: its upper-case form begins with W or holds HER.
pub open spec fn resembles_where(toks: Seq<TokenView>, at: Progress) -> bool {
    let token = toks[at.pos as int];
    let upper = upper_case(token.text);
    &&& token.kind == TokenKind::Identifier
    &&& (seq!['W'].is_prefix_of(upper) || has_part(upper, "HER"@))
}

/// True if the token at hand is an identifier that is a misspelt WHERE
/// rather than an alias: its upper-case form begins with WHER, WHEER or
/// WHRE.
pub open spec fn misspells_where(toks: Seq<TokenView>, at: Progress) -> bool {
    let token = toks[at.pos as int];
    let upper = upper_case(token.text);
    &&& token.kind == TokenKind::Identifier
    &&& ("WHEER"@.is_prefix_of(upper) || "WHER"@.is_prefix_of(upper) || "WHRE"@.is_prefix_of(
        upper,
    ))
}

/// True if `text` may be a misspelt SELECT: its upper-case form begins with
/// SEL and has four characters or more.
pub open spec fn resembles_select(text: Seq<char>) -> bool {
    let upper = upper_case(text);
    "SEL"@.is_prefix_of(upper) && upper.len() >= 4
}

/// True if `text` begins with one of `initials`.
fn begins_with_any(text: &[char], initials: &[char]) -> (r: bool)
    ensures
        r == exists|i: int|
            0 <= i < initials@.len() && seq![#[trigger] initials@[i]].is_prefix_of(text@),
{
    let mut i: usize = 0;
    while i < initials.len()
        invariant
            i <= initials@.len(),
            forall|j: int| 0 <= j < i ==> !seq![#[trigger] initials@[j]].is_prefix_of(text@),
        decreases initials@.len() - i,
    {
        if text.len() > 0 && text[0] == initials[i] {
            assert(seq![initials@[i as int]] =~= text@.subrange(0, 1));
            return true;
        }
        assert(!seq![initials@[i as int]].is_prefix_of(text@)) by {
            if text@.len() > 0 {
                assert(text@.subrange(0, 1)[0] == text@[0]);
            }
        }
        i = i + 1;
    }
    false
}

/// The rule for what follows in a list of expressions: as long as a comma
/// is at hand, one more expression.
pub open spec fn expr_list_tail(
    toks: Seq<TokenView>,
    input: Seq<char>,
    at: Progress,
    list: Seq<ExprView>,
) -> Step<Seq<ExprView>>
    decreases toks.len() - at.pos,
{
    if at.pos < toks.len() && toks[at.pos as int].kind == TokenKind::Comma {
        let item = expr_step(toks, input, advanced(toks, at), 0);
        match item.outcome {
            Outcome::Accepted(e) => {
                if at.pos < item.after.pos < toks.len() {
                    expr_list_tail(toks, input, item.after, list.push(e))
                } else {
                    reject(item.after)
                }
            },
            _ => pass_on(item),
        }
    } else {
        accept(list, at)
    }
}

/// The rule for a list of expressions with commas between them.
#[verifier::opaque]
pub open spec fn expr_list_step(toks: Seq<TokenView>, input: Seq<char>, at: Progress) -> Step<
    Seq<ExprView>,
> {
    let first = expr_step(toks, input, at, 0);
    match first.outcome {
        Outcome::Accepted(e) => expr_list_tail(toks, input, first.after, seq![e]),
        _ => pass_on(first),
    }
}

/// The rule for what follows in a list of identifiers.
pub open spec fn identifier_list_tail(
    toks: Seq<TokenView>,
    input: Seq<char>,
    at: Progress,
    list: Seq<Seq<char>>,
) -> Step<Seq<Seq<char>>>
    decreases toks.len() - at.pos,
{
    if at.pos < toks.len() && toks[at.pos as int].kind == TokenKind::Comma {
        let item = identifier_step(toks, input, advanced(toks, at));
        match item.outcome {
            Outcome::Accepted(name) => {
                if at.pos < item.after.pos < toks.len() {
                    identifier_list_tail(toks, input, item.after, list.push(name))
                } else {
                    reject(item.after)
                }
            },
            _ => pass_on(item),
        }
    } else {
        accept(list, at)
    }
}

/// The rule for a list of identifiers with commas between them.
#[verifier::opaque]
pub open spec fn identifier_list_step(toks: Seq<TokenView>, input: Seq<char>, at: Progress) -> Step<
    Seq<Seq<char>>,
> {
    let first = identifier_step(toks, input, at);
    match first.outcome {
        Outcome::Accepted(name) => identifier_list_tail(toks, input, first.after, seq![name]),
        _ => pass_on(first),
    }
}

/// The rule for a table reference: a name, and an alias behind AS or right
/// behind the name. An identifier behind the name that is a misspelt WHERE
/// is reported and not taken for an alias.
#[verifier::opaque]
pub open spec fn table_ref_step(toks: Seq<TokenView>, input: Seq<char>, at: Progress) -> Step<
    TableRefView,
> {
    let name = identifier_step(toks, input, at);
    match name.outcome {
        Outcome::Accepted(n) => {
            let here = name.after;
            let token = toks[here.pos as int];
            if token.kind == TokenKind::As {
                let alias = identifier_step(toks, input, advanced(toks, here));
                match alias.outcome {
                    Outcome::Accepted(a) => accept(
                        TableRefView { name: n, alias: Some(a) },
                        alias.after,
                    ),
                    _ => pass_on(alias),
                }
            } else if token.kind == TokenKind::Identifier {
                if misspells_where(toks, here) {
                    reject(noted(toks, input, here, "WHERE"@))
                } else {
                    accept(
                        TableRefView { name: n, alias: Some(token.text) },
                        advanced(toks, here),
                    )
                }
            } else {
                accept(TableRefView { name: n, alias: None }, here)
            }
        },
        _ => pass_on(name),
    }
}

/// The end of the rule for SELECT. A statement whose first word was only
/// taken for SELECT is rejected however far it was read.
pub open spec fn select_end(at: Progress, select: SelectView, lenient: bool) -> Step<SelectView> {
    if lenient {
        reject(at)
    } else {
        accept(select, at)
    }
}

/// The rule for the WHERE clause, which may be missing. An identifier in
/// its place that may be a misspelt WHERE is reported.
pub open spec fn select_where(
    toks: Seq<TokenView>,
    input: Seq<char>,
    at: Progress,
    projection: Seq<ExprView>,
    from: Option<TableRefView>,
    lenient: bool,
) -> Step<SelectView> {
    if toks[at.pos as int].kind == TokenKind::Where {
        let condition = expr_step(toks, input, advanced(toks, at), 0);
        match condition.outcome {
            Outcome::Accepted(e) => select_end(
                condition.after,
                SelectView { projection, from, where_clause: Some(e) },
                lenient,
            ),
            _ => pass_on(condition),
        }
    } else if resembles_where(toks, at) {
        reject(noted(toks, input, at, "WHERE"@))
    } else {
        select_end(at, SelectView { projection, from, where_clause: None }, lenient)
    }
}

/// The rule for the FROM clause, which may be missing, and what follows. An
/// identifier in its place whose upper-case form begins with F is reported
/// as a misspelt FROM.
pub open spec fn select_from(
    toks: Seq<TokenView>,
    input: Seq<char>,
    at: Progress,
    projection: Seq<ExprView>,
    lenient: bool,
) -> Step<SelectView> {
    if toks[at.pos as int].kind == TokenKind::From {
        let table = table_ref_step(toks, input, advanced(toks, at));
        match table.outcome {
            Outcome::Accepted(t) => select_where(
                toks,
                input,
                table.after,
                projection,
                Some(t),
                lenient,
            ),
            _ => pass_on(table),
        }
    } else if begins_like(toks, at, seq!['F']) {
        reject(noted(toks, input, at, "FROM"@))
    } else {
        select_where(toks, input, at, projection, None, lenient)
    }
}

/// The rule for what follows the word SELECT: a star or a list of
/// expressions, then the clauses.
pub open spec fn select_body(toks: Seq<TokenView>, input: Seq<char>, at: Progress, lenient: bool)
    -> Step<SelectView> {
    if toks[at.pos as int].kind == TokenKind::Star {
        select_from(toks, input, advanced(toks, at), seq![ExprView::Star], lenient)
    } else {
        let list = expr_list_step(toks, input, at);
        match list.outcome {
            Outcome::Accepted(projection) => select_from(
                toks,
                input,
                list.after,
                projection,
                lenient,
            ),
            _ => pass_on(list),
        }
    }
}

/// The rule for a SELECT statement. An identifier that may be a misspelt
/// SELECT is reported and then taken for the keyword, so that a failure
/// further on can be found; the statement is rejected all the same.
#[verifier::opaque]
pub open spec fn select_step(toks: Seq<TokenView>, input: Seq<char>, at: Progress) -> Step<
    SelectView,
> {
    let token = toks[at.pos as int];
    if token.kind == TokenKind::Select {
        select_body(toks, input, advanced(toks, at), false)
    } else if token.kind == TokenKind::Identifier && resembles_select(token.text) {
        select_body(toks, input, advanced(toks, noted(toks, input, at, "SELECT"@)), true)
    } else {
        reject(noted(toks, input, at, "SELECT"@))
    }
}

/// The rule for a query: a WITH clause and the query it belongs to, or a
/// SELECT statement, which UNION or UNION ALL may join to the query that
/// follows.
pub open spec fn query_step(toks: Seq<TokenView>, input: Seq<char>, at: Progress) -> Step<
    QueryView,
>
    decreases toks.len() - at.pos, 3nat,
{
    if at.pos >= toks.len() {
        reject(at)
    } else if toks[at.pos as int].kind == TokenKind::With {
        let with = with_step(toks, input, at);
        if !(with.outcome is Accepted) {
            pass_on(with)
        } else if !(at.pos < with.after.pos < toks.len()) {
            reject(with.after)
        } else {
            let query = query_step(toks, input, with.after);
            match query.outcome {
                Outcome::Accepted(q) => accept(
                    QueryView::With { with: with.outcome->Accepted_0, query: Box::new(q) },
                    query.after,
                ),
                _ => query,
            }
        }
    } else {
        let select = select_step(toks, input, at);
        let here = select.after;
        let all = toks[advanced(toks, here).pos as int].kind == TokenKind::All;
        let next = consumed(toks, advanced(toks, here), TokenKind::All);
        if !(select.outcome is Accepted) {
            pass_on(select)
        } else if toks[here.pos as int].kind != TokenKind::Union {
            accept(QueryView::Select(select.outcome->Accepted_0), here)
        } else if !(at.pos < next.pos < toks.len()) {
            reject(next)
        } else {
            let right = query_step(toks, input, next);
            match right.outcome {
                Outcome::Accepted(r) => accept(
                    QueryView::Union {
                        left: Box::new(QueryView::Select(select.outcome->Accepted_0)),
                        all,
                        right: Box::new(r),
                    },
                    right.after,
                ),
                _ => right,
            }
        }
    }
}

/// The rule for a WITH clause: the word WITH, RECURSIVE or not, and a list
/// of common table expressions with commas between them.
pub open spec fn with_step(toks: Seq<TokenView>, input: Seq<char>, at: Progress) -> Step<WithView>
    decreases toks.len() - at.pos, 2nat,
{
    let word = expect_step(toks, input, at, TokenKind::With);
    let recursive = toks[word.after.pos as int].kind == TokenKind::Recursive;
    let here = consumed(toks, word.after, TokenKind::Recursive);
    if !(word.outcome is Accepted) {
        pass_on(word)
    } else if !(at.pos < here.pos < toks.len()) {
        reject(here)
    } else {
        let first = cte_step(toks, input, here);
        if !(first.outcome is Accepted) {
            pass_on(first)
        } else if !(at.pos < first.after.pos < toks.len()) {
            reject(first.after)
        } else {
            let list = cte_list_tail(toks, input, first.after, seq![first.outcome->Accepted_0]);
            match list.outcome {
                Outcome::Accepted(ctes) => accept(WithView { recursive, ctes }, list.after),
                _ => pass_on(list),
            }
        }
    }
}

/// The rule for what follows in a list of common table expressions.
pub open spec fn cte_list_tail(
    toks: Seq<TokenView>,
    input: Seq<char>,
    at: Progress,
    list: Seq<CteView>,
) -> Step<Seq<CteView>>
    decreases toks.len() - at.pos, 1nat,
{
    if at.pos < toks.len() && toks[at.pos as int].kind == TokenKind::Comma {
        let next = advanced(toks, at);
        if at.pos < next.pos < toks.len() {
            let item = cte_step(toks, input, next);
            match item.outcome {
                Outcome::Accepted(cte) => {
                    if at.pos < item.after.pos < toks.len() {
                        cte_list_tail(toks, input, item.after, list.push(cte))
                    } else {
                        reject(item.after)
                    }
                },
                _ => pass_on(item),
            }
        } else {
            reject(next)
        }
    } else {
        accept(list, at)
    }
}

/// The rule for the column names of a common table expression, which may
/// be missing: a list of identifiers in parentheses.
pub open spec fn cte_columns_step(toks: Seq<TokenView>, input: Seq<char>, at: Progress) -> Step<
    Option<Seq<Seq<char>>>,
> {
    if toks[at.pos as int].kind == TokenKind::LeftParen {
        let names = identifier_list_step(toks, input, advanced(toks, at));
        match names.outcome {
            Outcome::Accepted(columns) => {
                let close = expect_step(toks, input, names.after, TokenKind::RightParen);
                match close.outcome {
                    Outcome::Accepted(_) => accept(Some(columns), close.after),
                    _ => pass_on(close),
                }
            },
            _ => pass_on(names),
        }
    } else {
        accept(None, at)
    }
}

/// The rule for a common table expression: a name, column names or none,
/// the word AS, and a query in parentheses.
pub open spec fn cte_step(toks: Seq<TokenView>, input: Seq<char>, at: Progress) -> Step<CteView>
    decreases toks.len() - at.pos, 0nat,
{
    let name = identifier_step(toks, input, at);
    let columns = cte_columns_step(toks, input, name.after);
    let word = expect_step(toks, input, columns.after, TokenKind::As);
    let open = expect_step(toks, input, word.after, TokenKind::LeftParen);
    if !(name.outcome is Accepted) {
        pass_on(name)
    } else if !(columns.outcome is Accepted) {
        pass_on(columns)
    } else if !(word.outcome is Accepted) {
        pass_on(word)
    } else if !(open.outcome is Accepted) {
        pass_on(open)
    } else if !(at.pos < open.after.pos < toks.len()) {
        reject(open.after)
    } else {
        let query = query_step(toks, input, open.after);
        let close = expect_step(toks, input, query.after, TokenKind::RightParen);
        if !(query.outcome is Accepted) {
            pass_on(query)
        } else if !(close.outcome is Accepted) {
            pass_on(close)
        } else {
            accept(
                CteView {
                    name: name.outcome->Accepted_0,
                    columns: columns.outcome->Accepted_0,
                    query: Box::new(query.outcome->Accepted_0),
                },
                close.after,
            )
        }
    }
}

/// The progress after the statement kinds that are not parsed have been
/// reported as expected at the token at hand.
pub open spec fn noted_others(toks: Seq<TokenView>, input: Seq<char>, at: Progress) -> Progress {
    let first = noted(toks, input, at, "INSERT"@);
    let second = noted(toks, input, first, "UPDATE"@);
    let third = noted(toks, input, second, "DELETE"@);
    noted(toks, input, third, "WITH"@)
}

/// The second and last attempt at a statement: a SELECT statement. Where
/// that fails too, the other kinds of statement are reported as expected,
/// and the diagnostic is the one for the furthest failure of all attempts.
pub open spec fn statement_select(toks: Seq<TokenView>, input: Seq<char>, at: Progress) -> Step<
    StatementView,
> {
    let select = select_step(toks, input, at);
    match select.outcome {
        Outcome::Accepted(s) => accept(StatementView::Query(QueryView::Select(s)), select.after),
        _ => reject(
            noted_others(toks, input, Progress { pos: at.pos, trace: select.after.trace }),
        ),
    }
}

/// The rule for a statement. Where WITH is at hand, a WITH clause and its
/// query are tried first. Where that fails, or another token is at hand, a
/// SELECT statement is tried from the same token, with the failures of the
/// first attempt kept.
pub open spec fn statement_step(toks: Seq<TokenView>, input: Seq<char>, at: Progress) -> Step<
    StatementView,
> {
    if toks[at.pos as int].kind == TokenKind::With {
        let with = with_step(toks, input, at);
        match with.outcome {
            Outcome::Accepted(w) => {
                let query = query_step(toks, input, with.after);
                match query.outcome {
                    Outcome::Accepted(q) => accept(
                        StatementView::Query(QueryView::With { with: w, query: Box::new(q) }),
                        query.after,
                    ),
                    _ => statement_select(
                        toks,
                        input,
                        Progress { pos: at.pos, trace: query.after.trace },
                    ),
                }
            },
            _ => statement_select(
                toks,
                input,
                Progress { pos: at.pos, trace: with.after.trace },
            ),
        }
    } else {
        statement_select(toks, input, at)
    }
}

/// The parser structure with error tracking
pub struct Parser<'a> {
    tokens: &'a [Token<'a>],
    pos: usize,
    backtrace: Backtrace,
    input: &'a str,
}

impl<'a> Parser<'a> {
    /// The tokens that are parsed.
    pub closed spec fn stream(&self) -> Seq<TokenView> {
        views_of(self.tokens@)
    }

    /// The text that the tokens were made from.
    pub closed spec fn source(&self) -> Seq<char> {
        self.input@
    }

    /// How far the parser has come.
    pub closed spec fn progress(&self) -> Progress {
        Progress { pos: self.pos as nat, trace: self.backtrace@ }
    }

    /// The token at hand.
    pub open spec fn token(&self) -> TokenView {
        self.stream()[self.progress().pos as int]
    }

    /// What holds of a parser at all times.
    pub open spec fn wf(&self) -> bool {
        &&& is_stream(self.stream())
        &&& self.progress().pos < self.stream().len()
        &&& self.source().len() < usize::MAX
        &&& is_sound(self.progress().trace)
    }

    /// True if this parser is `before` with the progress `after`; a rule
    /// never goes back.
    pub open spec fn follows(&self, before: &Self, after: Progress) -> bool {
        &&& self.wf()
        &&& self.stream() == before.stream()
        &&& self.source() == before.source()
        &&& self.progress() == after
        &&& before.progress().pos <= after.pos
    }

    /// True if this parser has left the token behind that `before` looks at.
    pub open spec fn is_past(&self, before: &Self) -> bool {
        before.progress().pos < self.progress().pos
    }

    /// A parser at the first of `tokens`, which were made from `input`. It
    /// takes over the tracker.
    pub fn new(tokens: &'a [Token<'a>], backtrace: Backtrace, input: &'a str) -> (parser: Self)
        requires
            is_stream(views_of(tokens@)),
            backtrace.wf(),
            input@.len() < usize::MAX,
        ensures
            parser.wf(),
            parser.stream() == views_of(tokens@),
            parser.source() == input@,
            parser.progress() == (Progress { pos: 0, trace: backtrace@ }),
    {
        Parser { tokens, pos: 0, backtrace, input }
    }

    /// The tracker, with all that the parser has reported to it.
    pub fn backtrace(&self) -> (tracker: &Backtrace)
        ensures
            tracker@ == self.progress().trace,
    {
        &self.backtrace
    }

    /// The token at hand.
    pub(crate) fn peek(&self) -> (token: &'a Token<'a>)
        requires
            self.wf(),
        ensures
            token@ == self.token(),
    {
        let tokens: &'a [Token<'a>] = self.tokens;
        &tokens[self.pos]
    }

    /// Current token
    pub fn current(&self) -> (token: Option<&'a Token<'a>>)
        requires
            self.wf(),
        ensures
            token is Some,
            token.unwrap()@ == self.token(),
    {
        Some(self.peek())
    }

    /// Advance to next token
    pub fn advance(&mut self) -> (token: &'a Token<'a>)
        requires
            old(self).wf(),
        ensures
            final(self).follows(old(self), advanced(old(self).stream(), old(self).progress())),
            token@ == old(self).token(),
    {
        let token = self.peek();
        if self.pos < self.tokens.len() - 1 {
            self.pos += 1;
        }
        token
    }

    /// Reports that `label` was expected where the token at hand stands.
    pub(crate) fn note(&mut self, label: &str)
        requires
            old(self).wf(),
        ensures
            final(self).follows(
                old(self),
                noted(old(self).stream(), old(self).source(), old(self).progress(), label@),
            ),
    {
        let token = self.peek();
        self.backtrace.track_error(token.span.start, label, Some(token.text), self.input);
    }

    /// Expect a specific token kind
    pub fn expect(&mut self, expected: TokenKind) -> (result: ParseResult<&'a Token<'a>>)
        requires
            old(self).wf(),
        ensures
            final(self).follows(old(self), old(self).expect_step(expected).after),
            yields(result, old(self).expect_step(expected), old(self).source()),
            result matches Ok(token) ==> token@ == old(self).token(),
            result is Ok && expected != TokenKind::Eof ==> final(self).is_past(old(self)),
    {
        let token = self.peek();
        if token.kind == expected {
            Ok(self.advance())
        } else {
            self.note(expected.name());
            Err(self.backtrace.get_error(self.input))
        }
    }

    /// What `expect` does.
    pub open spec fn expect_step(&self, kind: TokenKind) -> Step<TokenView> {
        expect_step(self.stream(), self.source(), self.progress(), kind)
    }

    /// Try to consume a token
    pub fn try_consume(&mut self, kind: TokenKind) -> (taken: bool)
        requires
            old(self).wf(),
        ensures
            taken == (old(self).token().kind == kind),
            final(self).follows(
                old(self),
                consumed(old(self).stream(), old(self).progress(), kind),
            ),
            taken && kind != TokenKind::Eof ==> final(self).is_past(old(self)),
    {
        if self.peek().kind == kind {
            self.advance();
            true
        } else {
            false
        }
    }

    /// What `parse_identifier` does.
    pub open spec fn identifier_step(&self) -> Step<Seq<char>> {
        identifier_step(self.stream(), self.source(), self.progress())
    }

    /// Parse identifier
    pub fn parse_identifier(&mut self) -> (result: ParseResult<&'a str>)
        requires
            old(self).wf(),
        ensures
            final(self).follows(old(self), old(self).identifier_step().after),
            yields(result, old(self).identifier_step(), old(self).source()),
            result matches Ok(name) ==> name@ == old(self).token().text,
            result is Ok ==> final(self).is_past(old(self)),
    {
        let token = self.peek();
        if token.kind == TokenKind::Identifier {
            Ok(self.advance().text)
        } else {
            self.note("identifier");
            Err(self.backtrace.get_error(self.input))
        }
    }

    /// Create error at current position: the diagnostic for the furthest
    /// failure, with `msg` as its message.
    pub fn error_at_current(&self, msg: &str) -> (error: ParseError)
        requires
            self.wf(),
        ensures
            is_report(error, self.progress().trace, self.source(), Some(msg@)),
    {
        let mut error = self.backtrace.get_error(self.input);
        error.message = msg.to_owned();
        error
    }

    /// Check if current token might be a typo for the expected keyword: an
    /// identifier whose upper-case form begins with one of the given
    /// characters. If so, the failure is reported.
    fn check_for_keyword_typo(
        &mut self,
        expected_keyword: &str,
        starts_with_chars: &[char],
    ) -> (typo: bool)
        requires
            old(self).wf(),
        ensures
            typo == begins_like(old(self).stream(), old(self).progress(), starts_with_chars@),
            final(self).follows(
                old(self),
                if typo {
                    noted(
                        old(self).stream(),
                        old(self).source(),
                        old(self).progress(),
                        expected_keyword@,
                    )
                } else {
                    old(self).progress()
                },
            ),
    {
        let token = self.peek();
        if token.kind == TokenKind::Identifier {
            let upper = chars_of(to_upper_case(token.text).as_str());
            if begins_with_any(upper.as_slice(), starts_with_chars) {
                self.note(expected_keyword);
                return true;
            }
        }
        false
    }

    /// Check if current token might be a typo for WHERE keyword (with
    /// substring check). If so, the failure is reported.
    fn check_for_where_typo(&mut self) -> (typo: bool)
        requires
            old(self).wf(),
        ensures
            typo == resembles_where(old(self).stream(), old(self).progress()),
            final(self).follows(
                old(self),
                if typo {
                    noted(old(self).stream(), old(self).source(), old(self).progress(), "WHERE"@)
                } else {
                    old(self).progress()
                },
            ),
    {
        let token = self.peek();
        if token.kind == TokenKind::Identifier {
            let upper = chars_of(to_upper_case(token.text).as_str());
            let initial = chars_of("W");
            let part = chars_of("HER");
            proof {
                reveal_strlit("W");
            }
            assert(initial@ =~= seq!['W']);
            if begins_with(upper.as_slice(), initial.as_slice()) || holds_part(
                upper.as_slice(),
                part.as_slice(),
            ) {
                self.note("WHERE");
                return true;
            }
        }
        false
    }

    /// Check if current token is a specific WHERE typo pattern. If so, the
    /// failure is reported.
    fn check_for_specific_where_typos(&mut self) -> (typo: bool)
        requires
            old(self).wf(),
        ensures
            typo == misspells_where(old(self).stream(), old(self).progress()),
            final(self).follows(
                old(self),
                if typo {
                    noted(old(self).stream(), old(self).source(), old(self).progress(), "WHERE"@)
                } else {
                    old(self).progress()
                },
            ),
    {
        let token = self.peek();
        if token.kind == TokenKind::Identifier {
            let upper = chars_of(to_upper_case(token.text).as_str());
            if begins_with(upper.as_slice(), chars_of("WHEER").as_slice()) || begins_with(
                upper.as_slice(),
                chars_of("WHER").as_slice(),
            ) || begins_with(upper.as_slice(), chars_of("WHRE").as_slice()) {
                self.note("WHERE");
                return true;
            }
        }
        false
    }
}

impl<'a> Parser<'a> {
    /// The diagnostic for the furthest failure so far.
    pub(crate) fn report(&self) -> (error: ParseError)
        requires
            self.wf(),
        ensures
            is_report(error, self.progress().trace, self.source(), None),
    {
        self.backtrace.get_error(self.input)
    }

    /// What `parse_statement` does.
    pub open spec fn statement_step(&self) -> Step<StatementView> {
        statement_step(self.stream(), self.source(), self.progress())
    }

    /// What `parse_select` does.
    pub open spec fn select_step(&self) -> Step<SelectView> {
        select_step(self.stream(), self.source(), self.progress())
    }

    /// What `parse_with` does.
    pub open spec fn with_step(&self) -> Step<WithView> {
        with_step(self.stream(), self.source(), self.progress())
    }

    /// What `parse_query` does.
    pub open spec fn query_step(&self) -> Step<QueryView> {
        query_step(self.stream(), self.source(), self.progress())
    }

    /// Goes back to the token with the index `pos`.
    fn rewind(&mut self, pos: usize)
        requires
            old(self).wf(),
            pos <= old(self).progress().pos,
        ensures
            final(self).wf(),
            final(self).stream() == old(self).stream(),
            final(self).source() == old(self).source(),
            final(self).progress() == (Progress {
                pos: pos as nat,
                trace: old(self).progress().trace,
            }),
    {
        self.pos = pos;
    }

    /// Parse a complete SQL statement
    pub fn parse_statement(&mut self) -> (result: ParseResult<Statement<'a>>)
        requires
            old(self).wf(),
        ensures
            final(self).follows(old(self), old(self).statement_step().after),
            yields(result, old(self).statement_step(), old(self).source()),
            result matches Ok(statement) ==> old(self).statement_step().outcome
                == Outcome::Accepted(statement@) && is_sound_statement(statement@),
    {
        proof {
            lemma_statement_sound(self.stream(), self.source(), self.progress());
        }
        let start_pos = self.pos;

        // Try WITH clause first
        if self.peek().kind == TokenKind::With {
            match self.parse_with() {
                Ok(with) => {
                    match self.parse_query() {
                        Ok(query) => {
                            let query = Box::new(query);
                            return Ok(Statement::Query(Query::With { with, query }));
                        },
                        Err(_) => {},
                    }
                },
                Err(_) => {},
            }
        }
        // Try SELECT statement from the same token

        self.rewind(start_pos);
        match self.parse_select() {
            Ok(stmt) => {
                return Ok(Statement::Query(Query::Select(Box::new(stmt))));
            },
            Err(_) => {},
        }

        // Name the other statement types as alternatives
        self.rewind(start_pos);
        self.note("INSERT");
        self.note("UPDATE");
        self.note("DELETE");
        self.note("WITH");

        // If all fail, return the furthest error
        Err(self.report())
    }

    /// Parse SELECT statement with lenient keyword matching
    pub fn parse_select(&mut self) -> (result: ParseResult<SelectStmt<'a>>)
        requires
            old(self).wf(),
        ensures
            final(self).follows(old(self), old(self).select_step().after),
            yields(result, old(self).select_step(), old(self).source()),
            result matches Ok(select) ==> old(self).select_step().outcome == Outcome::Accepted(
                select@,
            ),
            result is Ok ==> final(self).is_past(old(self)),
    {
        reveal(select_step);
        let mut had_errors = false;

        // Try to parse SELECT, but be lenient about typos
        let token = self.peek();
        if token.kind == TokenKind::Select {
            self.advance();
        } else if token.kind == TokenKind::Identifier {
            // Track this as an error
            self.note("SELECT");
            had_errors = true;

            // Check if this looks like a SELECT typo
            let upper = chars_of(to_upper_case(token.text).as_str());
            if begins_with(upper.as_slice(), chars_of("SEL").as_slice()) && upper.len() >= 4 {
                // Could be a SELECT typo, continue to see how far we get
                self.advance();
            } else {
                return Err(self.report());
            }
        } else {
            self.note("SELECT");
            return Err(self.report());
        }

        // Parse projection
        let projection = if self.try_consume(TokenKind::Star) {
            let mut list: Vec<Expr<'a>> = Vec::new();
            list.push(Expr::Star);
            assert(exprs_of(list@) =~= seq![ExprView::Star]);
            list
        } else {
            match self.parse_expr_list() {
                Ok(list) => list,
                Err(error) => {
                    return Err(error);
                },
            }
        };

        // Parse FROM clause
        let from = if self.try_consume(TokenKind::From) {
            match self.parse_table_ref() {
                Ok(table) => Some(table),
                Err(error) => {
                    return Err(error);
                },
            }
        } else {
            // Check if there's an identifier that might be a misspelled FROM
            let initials = ['F'];
            assert(initials@ =~= seq!['F']);
            if self.check_for_keyword_typo("FROM", initials.as_slice()) {
                return Err(self.report());
            }
            None
        };

        // Parse WHERE clause (optional)
        let where_clause = if self.try_consume(TokenKind::Where) {
            match self.parse_expr() {
                Ok(condition) => Some(condition),
                Err(error) => {
                    return Err(error);
                },
            }
        } else {
            // Check if there's an identifier that might be a misspelled WHERE
            if self.check_for_where_typo() {
                return Err(self.report());
            }
            None
        };

        // If we encountered errors during parsing, return the error
        if had_errors {
            return Err(self.report());
        }
        Ok(SelectStmt { projection, from, where_clause })
    }

    /// What the rule for a table reference does.
    pub open spec fn table_ref_step(&self) -> Step<TableRefView> {
        table_ref_step(self.stream(), self.source(), self.progress())
    }

    /// Parse table reference
    fn parse_table_ref(&mut self) -> (result: ParseResult<TableRef<'a>>)
        requires
            old(self).wf(),
        ensures
            final(self).follows(old(self), old(self).table_ref_step().after),
            yields(result, old(self).table_ref_step(), old(self).source()),
            result matches Ok(table) ==> old(self).table_ref_step().outcome == Outcome::Accepted(
                table@,
            ),
    {
        reveal(table_ref_step);
        let name = match self.parse_identifier() {
            Ok(name) => name,
            Err(error) => {
                return Err(error);
            },
        };

        // Check for alias (but not common SQL keywords that are likely typos)
        let alias = if self.try_consume(TokenKind::As) {
            match self.parse_identifier() {
                Ok(alias) => Some(alias),
                Err(error) => {
                    return Err(error);
                },
            }
        } else if self.peek().kind == TokenKind::Identifier {
            // Check if this looks like a WHERE typo, not an alias
            if self.check_for_specific_where_typos() {
                return Err(self.report());
            }
            match self.parse_identifier() {
                Ok(alias) => Some(alias),
                Err(error) => {
                    return Err(error);
                },
            }
        } else {
            None
        };

        Ok(TableRef { name, alias })
    }

    /// What the rule for a list of expressions does.
    pub open spec fn expr_list_step(&self) -> Step<Seq<ExprView>> {
        expr_list_step(self.stream(), self.source(), self.progress())
    }

    /// Parse comma-separated expression list
    fn parse_expr_list(&mut self) -> (result: ParseResult<Vec<Expr<'a>>>)
        requires
            old(self).wf(),
        ensures
            final(self).follows(old(self), old(self).expr_list_step().after),
            yields(result, old(self).expr_list_step(), old(self).source()),
            result matches Ok(list) ==> old(self).expr_list_step().outcome == Outcome::Accepted(
                exprs_of(list@),
            ),
    {
        reveal(expr_list_step);
        let first = match self.parse_expr() {
            Ok(e) => e,
            Err(error) => {
                return Err(error);
            },
        };
        let mut exprs: Vec<Expr<'a>> = Vec::new();
        exprs.push(first);
        assert(exprs_of(exprs@) =~= seq![first@]);
        loop
            invariant
                self.wf(),
                self.stream() == old(self).stream(),
                self.source() == old(self).source(),
                old(self).progress().pos <= self.progress().pos,
                old(self).expr_list_step() == expr_list_tail(
                    self.stream(),
                    self.source(),
                    self.progress(),
                    exprs_of(exprs@),
                ),
            decreases self.tokens_left(),
        {
            if !self.try_consume(TokenKind::Comma) {
                return Ok(exprs);
            }
            let item = match self.parse_expr() {
                Ok(e) => e,
                Err(error) => {
                    return Err(error);
                },
            };
            let ghost before = exprs_of(exprs@);
            exprs.push(item);
            assert(exprs_of(exprs@) =~= before.push(item@));
        }
    }

    /// Parse WITH clause (including CTEs)
    pub fn parse_with(&mut self) -> (result: ParseResult<With<'a>>)
        requires
            old(self).wf(),
        ensures
            final(self).follows(old(self), old(self).with_step().after),
            yields(result, old(self).with_step(), old(self).source()),
            result matches Ok(with) ==> old(self).with_step().outcome == Outcome::Accepted(with@),
            result is Ok ==> final(self).is_past(old(self)),
        decreases old(self).tokens_left(), 2nat,
    {
        match self.expect(TokenKind::With) {
            Ok(_) => {},
            Err(error) => {
                return Err(error);
            },
        }

        // Check for RECURSIVE
        let recursive = self.try_consume(TokenKind::Recursive);

        // Parse CTEs
        let first = match self.parse_cte() {
            Ok(cte) => cte,
            Err(error) => {
                return Err(error);
            },
        };
        let mut ctes: Vec<CTE<'a>> = Vec::new();
        ctes.push(first);
        assert(ctes_view(ctes@) =~= seq![first@]);
        loop
            invariant
                self.wf(),
                self.stream() == old(self).stream(),
                self.source() == old(self).source(),
                self.is_past(old(self)),
                old(self).with_step() == match cte_list_tail(
                    self.stream(),
                    self.source(),
                    self.progress(),
                    ctes_view(ctes@),
                ).outcome {
                    Outcome::Accepted(list) => accept(
                        WithView { recursive, ctes: list },
                        cte_list_tail(
                            self.stream(),
                            self.source(),
                            self.progress(),
                            ctes_view(ctes@),
                        ).after,
                    ),
                    _ => pass_on(
                        cte_list_tail(
                            self.stream(),
                            self.source(),
                            self.progress(),
                            ctes_view(ctes@),
                        ),
                    ),
                },
            decreases self.tokens_left(),
        {
            if !self.try_consume(TokenKind::Comma) {
                return Ok(With { recursive, ctes });
            }
            let item = match self.parse_cte() {
                Ok(cte) => cte,
                Err(error) => {
                    return Err(error);
                },
            };
            let ghost before = ctes_view(ctes@);
            ctes.push(item);
            assert(ctes_view(ctes@) =~= before.push(item@));
        }
    }

    /// What the rule for a common table expression does.
    pub open spec fn cte_step(&self) -> Step<CteView> {
        cte_step(self.stream(), self.source(), self.progress())
    }

    /// Parse a single CTE
    fn parse_cte(&mut self) -> (result: ParseResult<CTE<'a>>)
        requires
            old(self).wf(),
        ensures
            final(self).follows(old(self), old(self).cte_step().after),
            yields(result, old(self).cte_step(), old(self).source()),
            result matches Ok(cte) ==> old(self).cte_step().outcome == Outcome::Accepted(cte@),
            result is Ok ==> final(self).is_past(old(self)),
        decreases old(self).tokens_left(), 0nat,
    {
        let name = match self.parse_identifier() {
            Ok(name) => name,
            Err(error) => {
                return Err(error);
            },
        };

        // Optional column list
        let columns = if self.peek().kind == TokenKind::LeftParen {
            self.advance();
            let cols = match self.parse_identifier_list() {
                Ok(cols) => cols,
                Err(error) => {
                    return Err(error);
                },
            };
            match self.expect(TokenKind::RightParen) {
                Ok(_) => {},
                Err(error) => {
                    return Err(error);
                },
            }
            Some(cols)
        } else {
            None
        };

        match self.expect(TokenKind::As) {
            Ok(_) => {},
            Err(error) => {
                return Err(error);
            },
        }
        match self.expect(TokenKind::LeftParen) {
            Ok(_) => {},
            Err(error) => {
                return Err(error);
            },
        }
        let query = match self.parse_query() {
            Ok(query) => Box::new(query),
            Err(error) => {
                return Err(error);
            },
        };
        match self.expect(TokenKind::RightParen) {
            Ok(_) => {},
            Err(error) => {
                return Err(error);
            },
        }

        Ok(CTE { name, columns, query })
    }

    /// What the rule for a list of identifiers does.
    pub open spec fn identifier_list_step(&self) -> Step<Seq<Seq<char>>> {
        identifier_list_step(self.stream(), self.source(), self.progress())
    }

    /// Parse identifier list
    fn parse_identifier_list(&mut self) -> (result: ParseResult<Vec<&'a str>>)
        requires
            old(self).wf(),
        ensures
            final(self).follows(old(self), old(self).identifier_list_step().after),
            yields(result, old(self).identifier_list_step(), old(self).source()),
            result matches Ok(list) ==> old(self).identifier_list_step().outcome
                == Outcome::Accepted(names_of(list@)),
    {
        reveal(identifier_list_step);
        let first = match self.parse_identifier() {
            Ok(name) => name,
            Err(error) => {
                return Err(error);
            },
        };
        let mut idents: Vec<&'a str> = Vec::new();
        idents.push(first);
        assert(names_of(idents@) =~= seq![first@]);
        loop
            invariant
                self.wf(),
                self.stream() == old(self).stream(),
                self.source() == old(self).source(),
                old(self).progress().pos <= self.progress().pos,
                old(self).identifier_list_step() == identifier_list_tail(
                    self.stream(),
                    self.source(),
                    self.progress(),
                    names_of(idents@),
                ),
            decreases self.tokens_left(),
        {
            if !self.try_consume(TokenKind::Comma) {
                return Ok(idents);
            }
            let item = match self.parse_identifier() {
                Ok(name) => name,
                Err(error) => {
                    return Err(error);
                },
            };
            let ghost before = names_of(idents@);
            idents.push(item);
            assert(names_of(idents@) =~= before.push(item@));
        }
    }

    /// Parse a query (can be SELECT or WITH)
    pub fn parse_query(&mut self) -> (result: ParseResult<Query<'a>>)
        requires
            old(self).wf(),
        ensures
            final(self).follows(old(self), old(self).query_step().after),
            yields(result, old(self).query_step(), old(self).source()),
            result matches Ok(query) ==> old(self).query_step().outcome == Outcome::Accepted(
                query@,
            ),
            result is Ok ==> final(self).is_past(old(self)),
        decreases old(self).tokens_left(), 3nat,
    {
        if self.peek().kind == TokenKind::With {
            let with = match self.parse_with() {
                Ok(with) => with,
                Err(error) => {
                    return Err(error);
                },
            };
            let query = match self.parse_query() {
                Ok(query) => Box::new(query),
                Err(error) => {
                    return Err(error);
                },
            };
            Ok(Query::With { with, query })
        } else {
            let select = match self.parse_select() {
                Ok(select) => select,
                Err(error) => {
                    return Err(error);
                },
            };

            // Check for UNION
            if self.try_consume(TokenKind::Union) {
                let all = self.try_consume(TokenKind::All);
                let right = match self.parse_query() {
                    Ok(query) => Box::new(query),
                    Err(error) => {
                        return Err(error);
                    },
                };
                let left = Query::Select(Box::new(select));
                assert(left@ == QueryView::Select(select@));
                Ok(Query::Union { left: Box::new(left), all, right })
            } else {
                Ok(Query::Select(Box::new(select)))
            }
        }
    }
}

/// Where every parse begins: at the first token, with no failure yet.
pub open spec fn start() -> Progress {
    Progress { pos: 0, trace: None }
}

/// What the rule for statements does on the tokens of `sql`.
pub open spec fn parse_step(sql: &str) -> Step<StatementView> {
    statement_step(tokens_of(sql.spec_bytes()), sql@, start())
}

/// True if a diagnostic has a message, a line and a column that count from
/// 1, and for a suggestion, if it has one, a keyword of the list.
pub open spec fn is_placed(error: ParseError) -> bool {
    &&& error.message@.len() > 0
    &&& error.line >= 1
    &&& error.column >= 1
    &&& (error.suggestion matches Some(word) ==> is_keyword(word@))
}

/// True if `sql` is short enough for lines and columns to be counted: it
/// has fewer bytes than the greatest number that an index can be.
pub open spec fn fits(sql: &str) -> bool {
    sql.spec_bytes().len() < usize::MAX
}

/// True if `error` is the diagnostic for a text that does not fit.
pub open spec fn is_too_long(error: ParseError) -> bool {
    &&& error.message@ == "Input too long"@
    &&& error.line == 1
    &&& error.column == 1
    &&& error.suggestion is None
    &&& error.context is None
}

/// What the parser hands out for a text: the statement if the text is one,
/// or else the diagnostic for the furthest failure. A text that does not
/// fit is rejected unread.
pub open spec fn is_parse<T>(result: Result<T, ParseError>, sql: &str) -> bool {
    if fits(sql) {
        yields(result, parse_step(sql), sql@)
    } else {
        result is Err && is_too_long(result->Err_0)
    }
}

/// Parses the statement at the beginning of `sql`.
fn parse_text<'a>(tokens: &'a [Token<'a>], sql: &'a str) -> (result: ParseResult<Statement<'a>>)
    requires
        fits(sql),
        views_of(tokens@) == tokens_of(sql.spec_bytes()),
        is_stream(views_of(tokens@)),
    ensures
        yields(result, parse_step(sql), sql@),
        result matches Ok(statement) ==> parse_step(sql).outcome == Outcome::Accepted(statement@),
        result matches Err(error) ==> is_placed(error),
{
    proof {
        lemma_chars_within_bytes(sql@);
    }
    let mut parser = Parser::new(tokens, Backtrace::new(), sql);
    let ghost step = parser.statement_step();
    match parser.parse_statement() {
        Ok(statement) => Ok(statement),
        Err(error) => {
            proof {
                lemma_report_is_placed(error, step.after.trace, sql@);
            }
            Err(error)
        },
    }
}

/// The diagnostic for a text that does not fit.
fn too_long() -> (error: ParseError)
    ensures
        is_too_long(error),
        is_placed(error),
{
    proof {
        reveal_strlit("Input too long");
    }
    ParseError {
        message: "Input too long".to_owned(),
        line: 1,
        column: 1,
        suggestion: None,
        context: None,
    }
}

/// Parse SQL from string: says whether `sql` is a statement, and gives the
/// diagnostic if it is not. Every text is taken.
pub fn parse_sql(sql: &str) -> (result: Result<(), ParseError>)
    ensures
        is_parse(result, sql),
        result matches Err(error) ==> is_placed(error),
{
    if sql.as_bytes().len() == usize::MAX {
        return Err(too_long());
    }
    let tokens = tokenize(sql);
    match parse_text(tokens.as_slice(), sql) {
        Ok(_) => Ok(()),
        Err(error) => Err(error),
    }
}

/// Parse SQL and return the statement written out for inspection. Every
/// text is taken.
pub fn parse_sql_to_string(sql: &str) -> (result: Result<String, ParseError>)
    ensures
        is_parse(result, sql),
        result matches Ok(text) ==> parse_step(sql).outcome matches Outcome::Accepted(statement)
            && text@ == debug_form(statement),
        result matches Err(error) ==> is_placed(error),
{
    if sql.as_bytes().len() == usize::MAX {
        return Err(too_long());
    }
    let tokens = tokenize(sql);
    match parse_text(tokens.as_slice(), sql) {
        Ok(statement) => Ok(debug_string(&statement)),
        Err(error) => Err(error),
    }
}

/// A statement whose first word was only taken for SELECT is never
/// accepted, however well the rest of it reads.
pub proof fn lemma_lenient_select_fails(toks: Seq<TokenView>, input: Seq<char>, at: Progress)
    requires
        toks[at.pos as int].kind != TokenKind::Select,
    ensures
        !(select_step(toks, input, at).outcome is Accepted),
{
    reveal(select_step);
}

/// Reporting the statement kinds that are not parsed changes no decision:
/// a statement is accepted exactly if the WITH clause and its query are, or
/// else the SELECT statement read from the same token is.
pub proof fn lemma_statement_accepts(toks: Seq<TokenView>, input: Seq<char>, at: Progress)
    ensures
        statement_step(toks, input, at).outcome is Accepted <==> {
            ||| (toks[at.pos as int].kind == TokenKind::With && with_step(
                toks,
                input,
                at,
            ).outcome is Accepted && query_step(
                toks,
                input,
                with_step(toks, input, at).after,
            ).outcome is Accepted)
            ||| toks[at.pos as int].kind == TokenKind::Select && select_step(
                toks,
                input,
                at,
            ).outcome is Accepted
        },
{
    reveal(select_step);
    if toks[at.pos as int].kind == TokenKind::With {
        let with = with_step(toks, input, at);
        match with.outcome {
            Outcome::Accepted(w) => {
                let query = query_step(toks, input, with.after);
                match query.outcome {
                    Outcome::Accepted(_) => {},
                    _ => {
                        lemma_lenient_select_fails(
                            toks,
                            input,
                            Progress { pos: at.pos, trace: query.after.trace },
                        );
                    },
                }
            },
            _ => {
                lemma_lenient_select_fails(
                    toks,
                    input,
                    Progress { pos: at.pos, trace: with.after.trace },
                );
            },
        }
    } else if toks[at.pos as int].kind != TokenKind::Select {
        lemma_lenient_select_fails(toks, input, at);
    }
}

/// True if the parser may stand at `at`: at a token of a sequence that ends
/// with the end mark's kind.
pub open spec fn is_inside(toks: Seq<TokenView>, at: Progress) -> bool {
    at.pos < toks.len() && toks.last().kind == TokenKind::Eof
}

/// An expression that is accepted where any operator counts is grouped, and
/// leaves the parser inside the tokens.
proof fn lemma_expr_sound(toks: Seq<TokenView>, input: Seq<char>, at: Progress)
    requires
        is_inside(toks, at),
    ensures
        expr_step(toks, input, at, 0).outcome matches Outcome::Accepted(e) ==> is_grouped(e)
            && is_inside(toks, expr_step(toks, input, at, 0).after),
{
    lemma_expr_grouped(toks, input, at, 0);
    lemma_expr_reads_back(toks, input, at, 0);
}

/// A list of grouped expressions stays one when the parser reads on.
proof fn lemma_expr_list_tail_sound(
    toks: Seq<TokenView>,
    input: Seq<char>,
    at: Progress,
    list: Seq<ExprView>,
)
    requires
        is_inside(toks, at),
        list.len() >= 1,
        all_grouped(list),
    ensures
        expr_list_tail(toks, input, at, list).outcome matches Outcome::Accepted(all) ==> all.len()
            >= 1 && all_grouped(all) && is_inside(
            toks,
            expr_list_tail(toks, input, at, list).after,
        ),
    decreases toks.len() - at.pos,
{
    if toks[at.pos as int].kind == TokenKind::Comma {
        let next = advanced(toks, at);
        lemma_expr_sound(toks, input, next);
        let item = expr_step(toks, input, next, 0);
        match item.outcome {
            Outcome::Accepted(e) => {
                if at.pos < item.after.pos < toks.len() {
                    let longer = list.push(e);
                    assert forall|i: int| 0 <= i < longer.len() implies is_grouped(
                        #[trigger] longer[i],
                    ) by {
                        if i < list.len() {
                            assert(longer[i] == list[i]);
                        }
                    }
                    lemma_expr_list_tail_sound(toks, input, item.after, longer);
                }
            },
            _ => {},
        }
    }
}

/// A list of expressions that the parser accepts is not empty, and its
/// expressions are grouped.
proof fn lemma_expr_list_sound(toks: Seq<TokenView>, input: Seq<char>, at: Progress)
    requires
        is_inside(toks, at),
    ensures
        expr_list_step(toks, input, at).outcome matches Outcome::Accepted(all) ==> all.len() >= 1
            && all_grouped(all) && is_inside(toks, expr_list_step(toks, input, at).after),
{
    reveal(expr_list_step);
    lemma_expr_sound(toks, input, at);
    let first = expr_step(toks, input, at, 0);
    match first.outcome {
        Outcome::Accepted(e) => {
            assert(seq![e][0] == e);
            lemma_expr_list_tail_sound(toks, input, first.after, seq![e]);
        },
        _ => {},
    }
}

/// A SELECT statement is sound if its projection is and the parser
/// accepts what follows its FROM clause.
proof fn lemma_select_where_sound(
    toks: Seq<TokenView>,
    input: Seq<char>,
    at: Progress,
    projection: Seq<ExprView>,
    from: Option<TableRefView>,
    lenient: bool,
)
    requires
        is_inside(toks, at),
        projection.len() >= 1,
        all_grouped(projection),
    ensures
        select_where(toks, input, at, projection, from, lenient).outcome matches Outcome::Accepted(
            s,
        ) ==> is_sound_select(s) && is_inside(
            toks,
            select_where(toks, input, at, projection, from, lenient).after,
        ),
{
    lemma_expr_sound(toks, input, advanced(toks, at));
}

/// A SELECT statement is sound if its projection is and the parser
/// accepts what follows the projection.
proof fn lemma_select_from_sound(
    toks: Seq<TokenView>,
    input: Seq<char>,
    at: Progress,
    projection: Seq<ExprView>,
    lenient: bool,
)
    requires
        is_inside(toks, at),
        projection.len() >= 1,
        all_grouped(projection),
    ensures
        select_from(toks, input, at, projection, lenient).outcome matches Outcome::Accepted(s)
            ==> is_sound_select(s) && is_inside(
            toks,
            select_from(toks, input, at, projection, lenient).after,
        ),
{
    reveal(table_ref_step);
    if toks[at.pos as int].kind == TokenKind::From {
        let table = table_ref_step(toks, input, advanced(toks, at));
        match table.outcome {
            Outcome::Accepted(t) => {
                lemma_select_where_sound(toks, input, table.after, projection, Some(t), lenient);
            },
            _ => {},
        }
    } else {
        lemma_select_where_sound(toks, input, at, projection, None, lenient);
    }
}

/// A SELECT statement that the parser accepts selects something, and its
/// expressions are grouped as the binding powers ask.
pub proof fn lemma_select_sound(toks: Seq<TokenView>, input: Seq<char>, at: Progress)
    requires
        is_inside(toks, at),
    ensures
        select_step(toks, input, at).outcome matches Outcome::Accepted(s) ==> is_sound_select(s)
            && is_inside(toks, select_step(toks, input, at).after),
{
    reveal(select_step);
    if toks[at.pos as int].kind == TokenKind::Select {
        let here = advanced(toks, at);
        if toks[here.pos as int].kind == TokenKind::Star {
            assert(seq![ExprView::Star][0] == ExprView::Star);
            lemma_select_from_sound(
                toks,
                input,
                advanced(toks, here),
                seq![ExprView::Star],
                false,
            );
        } else {
            lemma_expr_list_sound(toks, input, here);
            let list = expr_list_step(toks, input, here);
            match list.outcome {
                Outcome::Accepted(projection) => {
                    lemma_select_from_sound(toks, input, list.after, projection, false);
                },
                _ => {},
            }
        }
    } else {
        lemma_lenient_select_fails(toks, input, at);
    }
}

/// A query that the parser accepts is sound in all its parts.
pub proof fn lemma_query_sound(toks: Seq<TokenView>, input: Seq<char>, at: Progress)
    requires
        is_inside(toks, at),
    ensures
        query_step(toks, input, at).outcome matches Outcome::Accepted(q) ==> is_sound_query(q)
            && is_inside(toks, query_step(toks, input, at).after),
    decreases toks.len() - at.pos, 3nat,
{
    if toks[at.pos as int].kind == TokenKind::With {
        lemma_with_sound(toks, input, at);
        let with = with_step(toks, input, at);
        if with.outcome is Accepted && at.pos < with.after.pos < toks.len() {
            lemma_query_sound(toks, input, with.after);
        }
    } else {
        lemma_select_sound(toks, input, at);
        let select = select_step(toks, input, at);
        let here = select.after;
        let next = consumed(toks, advanced(toks, here), TokenKind::All);
        if select.outcome is Accepted {
            let left = QueryView::Select(select.outcome->Accepted_0);
            assert(is_sound_query(left));
            if toks[here.pos as int].kind == TokenKind::Union && at.pos < next.pos < toks.len() {
                lemma_query_sound(toks, input, next);
            }
        }
    }
}

/// A WITH clause that the parser accepts defines a table, and the queries
/// of its tables are sound.
pub proof fn lemma_with_sound(toks: Seq<TokenView>, input: Seq<char>, at: Progress)
    requires
        is_inside(toks, at),
    ensures
        with_step(toks, input, at).outcome matches Outcome::Accepted(w) ==> is_sound_with(w)
            && is_inside(toks, with_step(toks, input, at).after),
    decreases toks.len() - at.pos, 2nat,
{
    let word = expect_step(toks, input, at, TokenKind::With);
    let here = consumed(toks, word.after, TokenKind::Recursive);
    if word.outcome is Accepted && at.pos < here.pos < toks.len() {
        lemma_cte_sound(toks, input, here);
        let first = cte_step(toks, input, here);
        if first.outcome is Accepted && at.pos < first.after.pos < toks.len() {
            let list = seq![first.outcome->Accepted_0];
            assert(list[0] == first.outcome->Accepted_0);
            lemma_cte_list_tail_sound(toks, input, first.after, list);
        }
    }
}

/// A list of sound common table expressions stays one when the parser
/// reads on.
proof fn lemma_cte_list_tail_sound(
    toks: Seq<TokenView>,
    input: Seq<char>,
    at: Progress,
    list: Seq<CteView>,
)
    requires
        is_inside(toks, at),
        list.len() >= 1,
        are_sound_ctes(list),
    ensures
        cte_list_tail(toks, input, at, list).outcome matches Outcome::Accepted(all) ==> all.len()
            >= 1 && are_sound_ctes(all) && is_inside(
            toks,
            cte_list_tail(toks, input, at, list).after,
        ),
    decreases toks.len() - at.pos, 1nat,
{
    if toks[at.pos as int].kind == TokenKind::Comma {
        let next = advanced(toks, at);
        if at.pos < next.pos < toks.len() {
            lemma_cte_sound(toks, input, next);
            let item = cte_step(toks, input, next);
            match item.outcome {
                Outcome::Accepted(cte) => {
                    if at.pos < item.after.pos < toks.len() {
                        let longer = list.push(cte);
                        assert forall|i: int| 0 <= i < longer.len() implies is_sound_cte(
                            #[trigger] longer[i],
                        ) by {
                            if i < list.len() {
                                assert(longer[i] == list[i]);
                            }
                        }
                        lemma_cte_list_tail_sound(toks, input, item.after, longer);
                    }
                },
                _ => {},
            }
        }
    }
}

/// A list of identifiers does not get shorter when the parser reads on.
proof fn lemma_identifier_list_tail_long(
    toks: Seq<TokenView>,
    input: Seq<char>,
    at: Progress,
    list: Seq<Seq<char>>,
)
    requires
        list.len() >= 1,
    ensures
        identifier_list_tail(toks, input, at, list).outcome matches Outcome::Accepted(all)
            ==> all.len() >= 1,
    decreases toks.len() - at.pos,
{
    if at.pos < toks.len() && toks[at.pos as int].kind == TokenKind::Comma {
        let item = identifier_step(toks, input, advanced(toks, at));
        match item.outcome {
            Outcome::Accepted(name) => {
                if at.pos < item.after.pos < toks.len() {
                    lemma_identifier_list_tail_long(toks, input, item.after, list.push(name));
                }
            },
            _ => {},
        }
    }
}

/// A common table expression that the parser accepts has a sound query,
/// and column names if it has a list of them.
pub proof fn lemma_cte_sound(toks: Seq<TokenView>, input: Seq<char>, at: Progress)
    requires
        is_inside(toks, at),
    ensures
        cte_step(toks, input, at).outcome matches Outcome::Accepted(c) ==> is_sound_cte(c)
            && is_inside(toks, cte_step(toks, input, at).after),
    decreases toks.len() - at.pos, 0nat,
{
    reveal(identifier_list_step);
    let name = identifier_step(toks, input, at);
    let columns = cte_columns_step(toks, input, name.after);
    let word = expect_step(toks, input, columns.after, TokenKind::As);
    let open = expect_step(toks, input, word.after, TokenKind::LeftParen);
    if toks[name.after.pos as int].kind == TokenKind::LeftParen {
        let first = identifier_step(toks, input, advanced(toks, name.after));
        match first.outcome {
            Outcome::Accepted(n) => {
                lemma_identifier_list_tail_long(toks, input, first.after, seq![n]);
            },
            _ => {},
        }
    }
    if name.outcome is Accepted && columns.outcome is Accepted && word.outcome is Accepted
        && open.outcome is Accepted && at.pos < open.after.pos < toks.len() {
        lemma_query_sound(toks, input, open.after);
    }
}

/// A statement that the parser accepts is sound in all its parts: every
/// expression is grouped as the binding powers ask, every SELECT statement
/// selects something, and every WITH clause defines a table.
pub proof fn lemma_statement_sound(toks: Seq<TokenView>, input: Seq<char>, at: Progress)
    requires
        is_inside(toks, at),
    ensures
        statement_step(toks, input, at).outcome matches Outcome::Accepted(s)
            ==> is_sound_statement(s),
{
    if toks[at.pos as int].kind == TokenKind::With {
        lemma_with_sound(toks, input, at);
        let with = with_step(toks, input, at);
        if with.outcome is Accepted {
            lemma_query_sound(toks, input, with.after);
            let query = query_step(toks, input, with.after);
            if !(query.outcome is Accepted) {
                lemma_select_sound(
                    toks,
                    input,
                    Progress { pos: at.pos, trace: query.after.trace },
                );
            }
        } else {
            lemma_select_sound(toks, input, Progress { pos: at.pos, trace: with.after.trace });
        }
    } else {
        lemma_select_sound(toks, input, at);
    }
}

/// Whatever statement is read from a text is sound in all its parts.
pub proof fn lemma_parse_sound(sql: &str)
    ensures
        parse_step(sql).outcome matches Outcome::Accepted(statement) ==> is_sound_statement(
            statement,
        ),
{
    let toks = tokens_of(sql.spec_bytes());
    assert(toks.last() == end_mark(sql.spec_bytes().len()));
    lemma_statement_sound(toks, sql@, start());
}

} // verus!
