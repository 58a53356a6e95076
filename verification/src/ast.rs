//! The syntax tree of statements and queries.

use crate::error::join;
use crate::expr::{expr_text, is_grouped, Expr, ExprView};
use vstd::prelude::*;
use vstd::string::*;

verus! {

broadcast use {vstd::std_specs::vec::group_vec_axioms, vstd::seq::group_seq_axioms};

/// SQL Statement types
#[derive(Debug)]
pub enum Statement<'a> {
    Query(Query<'a>),
}

/// Query types
#[derive(Debug)]
pub enum Query<'a> {
    Select(Box<SelectStmt<'a>>),
    With { with: With<'a>, query: Box<Query<'a>> },
    Union { left: Box<Query<'a>>, all: bool, right: Box<Query<'a>> },
}

/// SELECT statement
#[derive(Debug)]
pub struct SelectStmt<'a> {
    pub projection: Vec<Expr<'a>>,
    pub from: Option<TableRef<'a>>,
    pub where_clause: Option<Expr<'a>>,
}

/// Table reference
#[derive(Debug)]
pub struct TableRef<'a> {
    pub name: &'a str,
    pub alias: Option<&'a str>,
}

/// WITH clause containing CTEs
#[derive(Debug)]
pub struct With<'a> {
    pub recursive: bool,
    pub ctes: Vec<CTE<'a>>,
}

/// Common Table Expression (CTE). Its body is an ordinary query; whether
/// the query may refer to the table it defines is a flag of the WITH clause.
#[derive(Debug)]
pub struct CTE<'a> {
    pub name: &'a str,
    pub columns: Option<Vec<&'a str>>,
    pub query: Box<Query<'a>>,
}

/// What a table reference says.
pub struct TableRefView {
    pub name: Seq<char>,
    pub alias: Option<Seq<char>>,
}

/// What a SELECT statement says.
pub struct SelectView {
    pub projection: Seq<ExprView>,
    pub from: Option<TableRefView>,
    pub where_clause: Option<ExprView>,
}

/// What a common table expression says.
pub struct CteView {
    pub name: Seq<char>,
    pub columns: Option<Seq<Seq<char>>>,
    pub query: Box<QueryView>,
}

/// What a WITH clause says.
pub struct WithView {
    pub recursive: bool,
    pub ctes: Seq<CteView>,
}

/// What a query says.
pub enum QueryView {
    Select(SelectView),
    With { with: WithView, query: Box<QueryView> },
    Union { left: Box<QueryView>, all: bool, right: Box<QueryView> },
}

/// What a statement says.
pub enum StatementView {
    Query(QueryView),
}

/// The views of a list of names.
pub open spec fn names_of(names: Seq<&str>) -> Seq<Seq<char>> {
    Seq::new(names.len(), |i: int| names[i]@)
}

/// The views of a list of expressions.
pub open spec fn exprs_of(exprs: Seq<Expr>) -> Seq<ExprView> {
    Seq::new(exprs.len(), |i: int| exprs[i]@)
}

impl<'a> View for TableRef<'a> {
    type V = TableRefView;

    open spec fn view(&self) -> TableRefView {
        TableRefView {
            name: self.name@,
            alias: match self.alias {
                Some(alias) => Some(alias@),
                None => None,
            },
        }
    }
}

impl<'a> View for SelectStmt<'a> {
    type V = SelectView;

    open spec fn view(&self) -> SelectView {
        SelectView {
            projection: exprs_of(self.projection@),
            from: match self.from {
                Some(table) => Some(table@),
                None => None,
            },
            where_clause: match self.where_clause {
                Some(condition) => Some(condition@),
                None => None,
            },
        }
    }
}

/// What a query says.
pub open spec fn query_view(query: Query) -> QueryView
    decreases query, 0nat,
{
    match query {
        Query::Select(select) => QueryView::Select((*select)@),
        Query::With { with, query } => QueryView::With {
            with: with_view(with),
            query: Box::new(query_view(*query)),
        },
        Query::Union { left, all, right } => QueryView::Union {
            left: Box::new(query_view(*left)),
            all,
            right: Box::new(query_view(*right)),
        },
    }
}

/// What a WITH clause says.
pub open spec fn with_view(with: With) -> WithView
    decreases with, 0nat,
{
    WithView { recursive: with.recursive, ctes: ctes_view(with.ctes@) }
}

/// What a list of common table expressions says.
pub open spec fn ctes_view(ctes: Seq<CTE>) -> Seq<CteView>
    decreases ctes, 0nat,
{
    Seq::new(ctes.len(), |i: int| if 0 <= i < ctes.len() { cte_view(ctes[i]) } else { arbitrary() })
}

/// What a common table expression says.
pub open spec fn cte_view(cte: CTE) -> CteView
    decreases cte, 0nat,
{
    CteView {
        name: cte.name@,
        columns: match cte.columns {
            Some(columns) => Some(names_of(columns@)),
            None => None,
        },
        query: Box::new(query_view(*cte.query)),
    }
}

impl<'a> View for Query<'a> {
    type V = QueryView;

    open spec fn view(&self) -> QueryView {
        query_view(*self)
    }
}

impl<'a> View for With<'a> {
    type V = WithView;

    open spec fn view(&self) -> WithView {
        with_view(*self)
    }
}

impl<'a> View for CTE<'a> {
    type V = CteView;

    open spec fn view(&self) -> CteView {
        cte_view(*self)
    }
}

impl<'a> View for Statement<'a> {
    type V = StatementView;

    open spec fn view(&self) -> StatementView {
        match self {
            Statement::Query(query) => StatementView::Query(query@),
        }
    }
}

/// Names the text that the standard library's `Debug` formatting gives for
/// a statement.
pub uninterp spec fn debug_form(statement: StatementView) -> Seq<char>;

/// `format!` of the standard library with `{:?}`, for which the statement
/// types derive `Debug`. The contract gives the result the name `debug_form`
/// and claims nothing more of it: the text is made from the names, numbers
/// and flags of the statement alone.
#[verifier::external_body]
pub(crate) fn debug_string(statement: &Statement) -> (text: String)
    ensures
        text@ == debug_form(statement@),
{
    format!("{:?}", statement)
}

/// Each expression of a list written out.
pub open spec fn expr_texts(exprs: Seq<ExprView>) -> Seq<Seq<char>> {
    Seq::new(exprs.len(), |i: int| expr_text(exprs[i]))
}

/// How a table reference is written.
pub open spec fn table_text(table: TableRefView) -> Seq<char> {
    match table.alias {
        Some(alias) => table.name + " AS "@ + alias,
        None => table.name,
    }
}

/// How a SELECT statement is written.
pub open spec fn select_text(select: SelectView) -> Seq<char> {
    "SELECT "@ + join(expr_texts(select.projection), ", "@) + match select.from {
        Some(table) => " FROM "@ + table_text(table),
        None => Seq::empty(),
    } + match select.where_clause {
        Some(condition) => " WHERE "@ + expr_text(condition),
        None => Seq::empty(),
    }
}

/// How a query is written.
pub open spec fn query_text(query: QueryView) -> Seq<char>
    decreases query, 0nat,
{
    match query {
        QueryView::Select(select) => select_text(select),
        QueryView::With { with, query } => with_text(with) + " "@ + query_text(*query),
        QueryView::Union { left, all, right } => query_text(*left) + " UNION "@ + if all {
            "ALL"@
        } else {
            Seq::empty()
        } + " "@ + query_text(*right),
    }
}

/// How a WITH clause is written.
pub open spec fn with_text(with: WithView) -> Seq<char>
    decreases with, 0nat,
{
    "WITH "@ + if with.recursive {
        "RECURSIVE "@
    } else {
        Seq::empty()
    } + join(cte_texts(with.ctes), ", "@)
}

/// Each common table expression of a list written out.
pub open spec fn cte_texts(ctes: Seq<CteView>) -> Seq<Seq<char>>
    decreases ctes, 0nat,
{
    Seq::new(
        ctes.len(),
        |i: int|
            if 0 <= i < ctes.len() {
                cte_text(ctes[i])
            } else {
                Seq::empty()
            },
    )
}

/// How a common table expression is written.
pub open spec fn cte_text(cte: CteView) -> Seq<char>
    decreases cte, 0nat,
{
    cte.name + match cte.columns {
        Some(columns) => "("@ + join(columns, ", "@) + ")"@,
        None => Seq::empty(),
    } + " AS ("@ + query_text(*cte.query) + ")"@
}

/// How a statement is written.
pub open spec fn statement_text(statement: StatementView) -> Seq<char> {
    match statement {
        StatementView::Query(query) => query_text(query),
    }
}

/// What one more part adds to a joined text.
proof fn lemma_join_next(parts: Seq<Seq<char>>, i: int, sep: Seq<char>)
    requires
        0 <= i < parts.len(),
    ensures
        join(parts.take(i + 1), sep) == if i == 0 {
            parts[0]
        } else {
            join(parts.take(i), sep) + sep + parts[i]
        },
{
    let next = parts.take(i + 1);
    assert(next.drop_last() =~= parts.take(i));
    assert(next.last() == parts[i]);
}

impl<'a> TableRef<'a> {
    /// Writes the table reference at the end of `out`.
    pub fn write_to(&self, out: &mut String)
        ensures
            final(out)@ == old(out)@ + table_text(self@),
    {
        out.append(self.name);
        match self.alias {
            Some(alias) => {
                out.append(" AS ");
                out.append(alias);
            },
            None => {},
        }
        assert(out@ =~= old(out)@ + table_text(self@));
    }

    /// The table reference written out.
    pub fn to_string(&self) -> (text: String)
        ensures
            text@ == table_text(self@),
    {
        let mut text = String::new();
        self.write_to(&mut text);
        assert(text@ =~= table_text(self@));
        text
    }
}

impl<'a> SelectStmt<'a> {
    /// Writes the statement at the end of `out`.
    pub fn write_to(&self, out: &mut String)
        ensures
            final(out)@ == old(out)@ + select_text(self@),
    {
        out.append("SELECT ");
        let ghost head = out@;
        let ghost texts = expr_texts(self@.projection);
        let mut i: usize = 0;
        assert(texts.take(0) =~= Seq::<Seq<char>>::empty());
        assert(out@ =~= head + join(texts.take(0), ", "@));
        while i < self.projection.len()
            invariant
                i <= self.projection@.len(),
                texts == expr_texts(self@.projection),
                texts.len() == self.projection@.len(),
                out@ == head + join(texts.take(i as int), ", "@),
            decreases self.projection@.len() - i,
        {
            if i > 0 {
                out.append(", ");
            }
            self.projection[i].write_to(out);
            proof {
                lemma_join_next(texts, i as int, ", "@);
                assert(texts[i as int] == expr_text(self.projection@[i as int]@));
                assert(out@ =~= head + join(texts.take(i + 1), ", "@));
            }
            i = i + 1;
        }
        assert(texts.take(i as int) =~= texts);
        match &self.from {
            Some(table) => {
                out.append(" FROM ");
                table.write_to(out);
            },
            None => {},
        }
        match &self.where_clause {
            Some(condition) => {
                out.append(" WHERE ");
                condition.write_to(out);
            },
            None => {},
        }
        assert(out@ =~= old(out)@ + select_text(self@));
    }

    /// The statement written out.
    pub fn to_string(&self) -> (text: String)
        ensures
            text@ == select_text(self@),
    {
        let mut text = String::new();
        self.write_to(&mut text);
        assert(text@ =~= select_text(self@));
        text
    }
}

/// Writes the names, with a comma and a blank between each two, at the end
/// of `out`.
fn write_names(names: &Vec<&str>, out: &mut String)
    ensures
        final(out)@ == old(out)@ + join(names_of(names@), ", "@),
{
    let ghost texts = names_of(names@);
    let mut i: usize = 0;
    assert(texts.take(0) =~= Seq::<Seq<char>>::empty());
    assert(out@ =~= old(out)@ + join(texts.take(0), ", "@));
    while i < names.len()
        invariant
            i <= names@.len(),
            texts == names_of(names@),
            out@ == old(out)@ + join(texts.take(i as int), ", "@),
        decreases names@.len() - i,
    {
        if i > 0 {
            out.append(", ");
        }
        out.append(names[i]);
        proof {
            lemma_join_next(texts, i as int, ", "@);
            assert(out@ =~= old(out)@ + join(texts.take(i + 1), ", "@));
        }
        i = i + 1;
    }
    assert(texts.take(i as int) =~= texts);
}

impl<'a> Query<'a> {
    /// Writes the query at the end of `out`.
    pub fn write_to(&self, out: &mut String)
        ensures
            final(out)@ == old(out)@ + query_text(self@),
        decreases self, 1nat,
    {
        match self {
            Query::Select(select) => {
                select.write_to(out);
            },
            Query::With { with, query } => {
                with.write_to(out);
                out.append(" ");
                query.write_to(out);
                assert(out@ =~= old(out)@ + query_text(self@));
            },
            Query::Union { left, all, right } => {
                left.write_to(out);
                out.append(" UNION ");
                if *all {
                    out.append("ALL");
                }
                out.append(" ");
                right.write_to(out);
                assert(out@ =~= old(out)@ + query_text(self@));
            },
        }
    }

    /// The query written out.
    pub fn to_string(&self) -> (text: String)
        ensures
            text@ == query_text(self@),
    {
        let mut text = String::new();
        self.write_to(&mut text);
        assert(text@ =~= query_text(self@));
        text
    }
}

impl<'a> With<'a> {
    /// Writes the clause at the end of `out`.
    pub fn write_to(&self, out: &mut String)
        ensures
            final(out)@ == old(out)@ + with_text(self@),
        decreases self, 1nat,
    {
        out.append("WITH ");
        if self.recursive {
            out.append("RECURSIVE ");
        }
        let ghost head = out@;
        let ghost texts = cte_texts(self@.ctes);
        let mut i: usize = 0;
        assert(texts.take(0) =~= Seq::<Seq<char>>::empty());
        assert(out@ =~= head + join(texts.take(0), ", "@));
        while i < self.ctes.len()
            invariant
                i <= self.ctes@.len(),
                texts == cte_texts(self@.ctes),
                texts.len() == self.ctes@.len(),
                out@ == head + join(texts.take(i as int), ", "@),
            decreases self.ctes@.len() - i,
        {
            if i > 0 {
                out.append(", ");
            }
            self.ctes[i].write_to(out);
            proof {
                lemma_join_next(texts, i as int, ", "@);
                assert(texts[i as int] == cte_text(self.ctes@[i as int]@));
                assert(out@ =~= head + join(texts.take(i + 1), ", "@));
            }
            i = i + 1;
        }
        assert(texts.take(i as int) =~= texts);
        assert(out@ =~= old(out)@ + with_text(self@));
    }

    /// The clause written out.
    pub fn to_string(&self) -> (text: String)
        ensures
            text@ == with_text(self@),
    {
        let mut text = String::new();
        self.write_to(&mut text);
        assert(text@ =~= with_text(self@));
        text
    }
}

impl<'a> CTE<'a> {
    /// Writes the common table expression at the end of `out`.
    pub fn write_to(&self, out: &mut String)
        ensures
            final(out)@ == old(out)@ + cte_text(self@),
        decreases self, 1nat,
    {
        out.append(self.name);
        match &self.columns {
            Some(columns) => {
                out.append("(");
                write_names(columns, out);
                out.append(")");
            },
            None => {},
        }
        out.append(" AS (");
        self.query.write_to(out);
        out.append(")");
        assert(out@ =~= old(out)@ + cte_text(self@));
    }

    /// The common table expression written out.
    pub fn to_string(&self) -> (text: String)
        ensures
            text@ == cte_text(self@),
    {
        let mut text = String::new();
        self.write_to(&mut text);
        assert(text@ =~= cte_text(self@));
        text
    }
}

impl<'a> Statement<'a> {
    /// The statement written out.
    pub fn to_string(&self) -> (text: String)
        ensures
            text@ == statement_text(self@),
    {
        match self {
            Statement::Query(query) => query.to_string(),
        }
    }
}

/// A copy of a list of expressions.
fn copy_exprs<'a>(exprs: &Vec<Expr<'a>>) -> (copy: Vec<Expr<'a>>)
    ensures
        copy@ == exprs@,
{
    let mut copy: Vec<Expr<'a>> = Vec::new();
    let mut i: usize = 0;
    while i < exprs.len()
        invariant
            i <= exprs@.len(),
            copy@ == exprs@.take(i as int),
        decreases exprs@.len() - i,
    {
        copy.push(exprs[i].clone());
        assert(copy@ =~= exprs@.take(i + 1));
        i = i + 1;
    }
    assert(exprs@.take(i as int) =~= exprs@);
    copy
}

/// A copy of a list of names.
fn copy_names<'a>(names: &Vec<&'a str>) -> (copy: Vec<&'a str>)
    ensures
        copy@ == names@,
{
    let mut copy: Vec<&'a str> = Vec::new();
    let mut i: usize = 0;
    while i < names.len()
        invariant
            i <= names@.len(),
            copy@ == names@.take(i as int),
        decreases names@.len() - i,
    {
        copy.push(names[i]);
        assert(copy@ =~= names@.take(i + 1));
        i = i + 1;
    }
    assert(names@.take(i as int) =~= names@);
    copy
}

/// A copy of a query.
fn copy_query<'a>(query: &Query<'a>) -> (copy: Query<'a>)
    ensures
        copy@ == query@,
    decreases query, 1nat,
{
    match query {
        Query::Select(select) => Query::Select(Box::new((**select).clone())),
        Query::With { with, query } => Query::With {
            with: copy_with(with),
            query: Box::new(copy_query(&**query)),
        },
        Query::Union { left, all, right } => Query::Union {
            left: Box::new(copy_query(&**left)),
            all: *all,
            right: Box::new(copy_query(&**right)),
        },
    }
}

/// A copy of a WITH clause.
fn copy_with<'a>(with: &With<'a>) -> (copy: With<'a>)
    ensures
        copy@ == with@,
    decreases with, 1nat,
{
    let mut ctes: Vec<CTE<'a>> = Vec::new();
    let mut i: usize = 0;
    while i < with.ctes.len()
        invariant
            i <= with.ctes@.len(),
            ctes@.len() == i,
            forall|j: int| 0 <= j < i ==> (#[trigger] ctes@[j])@ == with.ctes@[j]@,
        decreases with.ctes@.len() - i,
    {
        ctes.push(copy_cte(&with.ctes[i]));
        i = i + 1;
    }
    assert(ctes_view(ctes@) =~= ctes_view(with.ctes@));
    With { recursive: with.recursive, ctes }
}

/// A copy of a common table expression.
fn copy_cte<'a>(cte: &CTE<'a>) -> (copy: CTE<'a>)
    ensures
        copy@ == cte@,
    decreases cte, 1nat,
{
    CTE {
        name: cte.name,
        columns: match &cte.columns {
            Some(columns) => Some(copy_names(columns)),
            None => None,
        },
        query: Box::new(copy_query(&*cte.query)),
    }
}

impl<'a> Clone for TableRef<'a> {
    fn clone(&self) -> (copy: Self)
        ensures
            copy == *self,
    {
        TableRef { name: self.name, alias: self.alias }
    }
}

impl<'a> Clone for SelectStmt<'a> {
    fn clone(&self) -> (copy: Self)
        ensures
            copy@ == self@,
    {
        SelectStmt {
            projection: copy_exprs(&self.projection),
            from: match &self.from {
                Some(table) => Some(table.clone()),
                None => None,
            },
            where_clause: match &self.where_clause {
                Some(condition) => Some(condition.clone()),
                None => None,
            },
        }
    }
}

impl<'a> Clone for Query<'a> {
    fn clone(&self) -> (copy: Self)
        ensures
            copy@ == self@,
    {
        copy_query(self)
    }
}

impl<'a> Clone for With<'a> {
    fn clone(&self) -> (copy: Self)
        ensures
            copy@ == self@,
    {
        copy_with(self)
    }
}

impl<'a> Clone for CTE<'a> {
    fn clone(&self) -> (copy: Self)
        ensures
            copy@ == self@,
    {
        copy_cte(self)
    }
}

impl<'a> Clone for Statement<'a> {
    fn clone(&self) -> (copy: Self)
        ensures
            copy@ == self@,
    {
        match self {
            Statement::Query(query) => Statement::Query(query.clone()),
        }
    }
}

/// True if every expression of a list is grouped as the binding powers ask.
pub open spec fn all_grouped(exprs: Seq<ExprView>) -> bool {
    forall|i: int| 0 <= i < exprs.len() ==> is_grouped(#[trigger] exprs[i])
}

/// What holds of every SELECT statement that the parser builds: it selects
/// something, and its expressions are grouped as the binding powers ask.
pub open spec fn is_sound_select(select: SelectView) -> bool {
    &&& select.projection.len() >= 1
    &&& all_grouped(select.projection)
    &&& (select.where_clause matches Some(condition) ==> is_grouped(condition))
}

/// What holds of every query that the parser builds: each of its SELECT
/// statements is sound, each WITH clause defines a table, and a list of
/// column names is not empty.
pub open spec fn is_sound_query(query: QueryView) -> bool
    decreases query, 0nat,
{
    match query {
        QueryView::Select(select) => is_sound_select(select),
        QueryView::With { with, query } => is_sound_with(with) && is_sound_query(*query),
        QueryView::Union { left, all, right } => is_sound_query(*left) && is_sound_query(*right),
    }
}

/// What holds of every WITH clause that the parser builds.
pub open spec fn is_sound_with(with: WithView) -> bool
    decreases with, 0nat,
{
    &&& with.ctes.len() >= 1
    &&& are_sound_ctes(with.ctes)
}

/// True if each common table expression of a list is sound.
pub open spec fn are_sound_ctes(ctes: Seq<CteView>) -> bool
    decreases ctes, 0nat,
{
    forall|i: int| 0 <= i < ctes.len() ==> is_sound_cte(#[trigger] ctes[i])
}

/// What holds of every common table expression that the parser builds.
pub open spec fn is_sound_cte(cte: CteView) -> bool
    decreases cte, 0nat,
{
    &&& is_sound_query(*cte.query)
    &&& (cte.columns matches Some(columns) ==> columns.len() >= 1)
}

/// What holds of every statement that the parser builds.
pub open spec fn is_sound_statement(statement: StatementView) -> bool {
    match statement {
        StatementView::Query(query) => is_sound_query(query),
    }
}

} // verus!
