//! The parse tree: what a parsed module is made of, and the mathematical
//! view of each node that the contracts of this crate speak of.

use vstd::prelude::*;

verus! {

/// A name. Two identifiers are the same name when their characters agree.
#[derive(Debug, Hash, Eq, PartialEq)]
pub struct Id(pub String);

impl View for Id {
    type V = Seq<char>;

    open spec fn view(&self) -> Seq<char> {
        self.0@
    }
}

impl Clone for Id {
    fn clone(&self) -> (r: Self)
        ensures
            r@ == self@,
    {
        Id(self.0.clone())
    }
}

impl Id {
    /// Whether two identifiers are the same name.
    pub fn same(&self, other: &Id) -> (b: bool)
        ensures
            b == (self@ == other@),
    {
        self.0 == other.0
    }
}

/// A parameter pattern. The grammar produces identifier binds only.
#[derive(Debug, PartialEq)]
pub enum Pattern {
    Bind(Id),
}

/// What a pattern is, with its name as a sequence of characters.
pub enum PatternView {
    Bind(Seq<char>),
}

impl View for Pattern {
    type V = PatternView;

    open spec fn view(&self) -> PatternView {
        match self {
            Pattern::Bind(id) => PatternView::Bind(id@),
        }
    }
}

impl Clone for Pattern {
    fn clone(&self) -> (r: Self)
        ensures
            r@ == self@,
    {
        match self {
            Pattern::Bind(id) => Pattern::Bind(id.clone()),
        }
    }
}

/// One alternative of a function value: its parameter patterns and its body.
#[derive(Debug, PartialEq)]
pub struct FunClause {
    pub args: Vec<Pattern>,
    pub body: Expression,
}

/// What a clause is: the views of its patterns and of its body.
pub struct FunClauseView {
    pub args: Seq<PatternView>,
    pub body: ExpressionView,
}

/// An expression. A function value holds its clauses in source order.
#[derive(Debug, PartialEq)]
pub enum Expression {
    LiteralString(String),
    Variable(Id),
    Call { id: Id, args: Vec<Expression> },
    Function(Vec<FunClause>),
}

/// What an expression is, with text as sequences of characters and lists
/// as sequences.
pub enum ExpressionView {
    LiteralString(Seq<char>),
    Variable(Seq<char>),
    Call { id: Seq<char>, args: Seq<ExpressionView> },
    Function(Seq<FunClauseView>),
}

/// The views of a list of patterns, in order.
pub open spec fn patterns_view(ps: Seq<Pattern>) -> Seq<PatternView> {
    Seq::new(ps.len(), |i: int| ps[i]@)
}

impl View for FunClause {
    type V = FunClauseView;

    open spec fn view(&self) -> FunClauseView
        decreases self,
    {
        FunClauseView { args: patterns_view(self.args@), body: self.body@ }
    }
}

impl View for Expression {
    type V = ExpressionView;

    open spec fn view(&self) -> ExpressionView
        decreases self,
    {
        match self {
            Expression::LiteralString(s) => ExpressionView::LiteralString(s@),
            Expression::Variable(id) => ExpressionView::Variable(id@),
            Expression::Call { id, args } => ExpressionView::Call {
                id: id@,
                args: Seq::new(
                    args.len() as nat,
                    |i: int|
                        if 0 <= i < args.len() {
                            args[i]@
                        } else {
                            ExpressionView::LiteralString(Seq::empty())
                        },
                ),
            },
            Expression::Function(clauses) => ExpressionView::Function(
                Seq::new(
                    clauses.len() as nat,
                    |i: int|
                        if 0 <= i < clauses.len() {
                            clauses[i]@
                        } else {
                            FunClauseView {
                                args: Seq::empty(),
                                body: ExpressionView::LiteralString(Seq::empty()),
                            }
                        },
                ),
            ),
        }
    }
}

/// The views of a list of expressions, in order.
pub open spec fn expressions_view(es: Seq<Expression>) -> Seq<ExpressionView> {
    Seq::new(es.len(), |i: int| es[i]@)
}

/// The views of a list of clauses, in order.
pub open spec fn clauses_view(cs: Seq<FunClause>) -> Seq<FunClauseView> {
    Seq::new(cs.len(), |i: int| cs[i]@)
}

/// What the view of a call holds.
pub proof fn lemma_view_call(id: Id, args: Vec<Expression>)
    ensures
        (Expression::Call { id, args })@ == (ExpressionView::Call {
            id: id@,
            args: expressions_view(args@),
        }),
{
    let e = Expression::Call { id, args };
    assert(e@->Call_args =~= expressions_view(args@));
}

/// What the view of a function value holds.
pub proof fn lemma_view_function(clauses: Vec<FunClause>)
    ensures
        Expression::Function(clauses)@ == ExpressionView::Function(clauses_view(clauses@)),
{
    let e = Expression::Function(clauses);
    assert(e@->Function_0 =~= clauses_view(clauses@));
}

/// A copy of a list of patterns.
pub(crate) fn clone_patterns(ps: &Vec<Pattern>) -> (r: Vec<Pattern>)
    ensures
        patterns_view(r@) == patterns_view(ps@),
{
    let mut r: Vec<Pattern> = Vec::new();
    let mut i: usize = 0;
    while i < ps.len()
        invariant
            i <= ps.len(),
            r.len() == i,
            forall|j: int| 0 <= j < i ==> r[j]@ == ps[j]@,
        decreases ps.len() - i,
    {
        r.push(ps[i].clone());
        i += 1;
    }
    assert(patterns_view(r@) =~= patterns_view(ps@));
    r
}

/// A copy of a list of expressions.
pub(crate) fn clone_expressions(es: &Vec<Expression>) -> (r: Vec<Expression>)
    ensures
        expressions_view(r@) == expressions_view(es@),
    decreases es,
{
    let mut r: Vec<Expression> = Vec::new();
    let mut i: usize = 0;
    while i < es.len()
        invariant
            i <= es.len(),
            r.len() == i,
            forall|j: int| 0 <= j < i ==> r[j]@ == es[j]@,
        decreases es.len() - i,
    {
        r.push(es[i].clone());
        i += 1;
    }
    assert(expressions_view(r@) =~= expressions_view(es@));
    r
}

/// A copy of a list of clauses.
pub(crate) fn clone_clauses(cs: &Vec<FunClause>) -> (r: Vec<FunClause>)
    ensures
        clauses_view(r@) == clauses_view(cs@),
    decreases cs,
{
    let mut r: Vec<FunClause> = Vec::new();
    let mut i: usize = 0;
    while i < cs.len()
        invariant
            i <= cs.len(),
            r.len() == i,
            forall|j: int| 0 <= j < i ==> r[j]@ == cs[j]@,
        decreases cs.len() - i,
    {
        r.push(cs[i].clone());
        i += 1;
    }
    assert(clauses_view(r@) =~= clauses_view(cs@));
    r
}

impl Clone for FunClause {
    fn clone(&self) -> (r: Self)
        ensures
            r@ == self@,
        decreases self,
    {
        FunClause { args: clone_patterns(&self.args), body: self.body.clone() }
    }
}

impl Clone for Expression {
    fn clone(&self) -> (r: Self)
        ensures
            r@ == self@,
        decreases self,
    {
        match self {
            Expression::LiteralString(s) => Expression::LiteralString(s.clone()),
            Expression::Variable(id) => Expression::Variable(id.clone()),
            Expression::Call { id, args } => {
                let id2 = id.clone();
                let args2 = clone_expressions(args);
                proof {
                    lemma_view_call(*id, *args);
                    lemma_view_call(id2, args2);
                }
                Expression::Call { id: id2, args: args2 }
            },
            Expression::Function(clauses) => {
                let clauses2 = clone_clauses(clauses);
                proof {
                    lemma_view_function(*clauses);
                    lemma_view_function(clauses2);
                }
                Expression::Function(clauses2)
            },
        }
    }
}

/// A name bound to an expression at module scope.
#[derive(Debug, PartialEq)]
pub struct ValueDeclaration {
    pub name: Id,
    pub value: Expression,
}

/// What a declaration is: its name and the view of its value.
pub struct ValueDeclarationView {
    pub name: Seq<char>,
    pub value: ExpressionView,
}

impl View for ValueDeclaration {
    type V = ValueDeclarationView;

    open spec fn view(&self) -> ValueDeclarationView {
        ValueDeclarationView { name: self.name@, value: self.value@ }
    }
}

impl Clone for ValueDeclaration {
    fn clone(&self) -> (r: Self)
        ensures
            r@ == self@,
    {
        ValueDeclaration { name: self.name.clone(), value: self.value.clone() }
    }
}

/// One item of a module.
#[derive(Debug, PartialEq)]
pub enum ModuleItem {
    ValueDeclaration(ValueDeclaration),
}

/// What a module item is.
pub enum ModuleItemView {
    ValueDeclaration(ValueDeclarationView),
}

impl View for ModuleItem {
    type V = ModuleItemView;

    open spec fn view(&self) -> ModuleItemView {
        match self {
            ModuleItem::ValueDeclaration(d) => ModuleItemView::ValueDeclaration(d@),
        }
    }
}

impl Clone for ModuleItem {
    fn clone(&self) -> (r: Self)
        ensures
            r@ == self@,
    {
        match self {
            ModuleItem::ValueDeclaration(d) => ModuleItem::ValueDeclaration(d.clone()),
        }
    }
}

/// The views of a list of module items, in order.
pub open spec fn items_view(items: Seq<ModuleItem>) -> Seq<ModuleItemView> {
    Seq::new(items.len(), |i: int| items[i]@)
}

/// A parsed module: its name and its items in source order.
#[derive(Debug)]
pub struct Module {
    pub name: Id,
    pub items: Vec<ModuleItem>,
}

/// What a module is: its name and the views of its items, in order.
pub struct ModuleView {
    pub name: Seq<char>,
    pub items: Seq<ModuleItemView>,
}

impl View for Module {
    type V = ModuleView;

    open spec fn view(&self) -> ModuleView {
        ModuleView { name: self.name@, items: items_view(self.items@) }
    }
}

impl Clone for Module {
    fn clone(&self) -> (r: Self)
        ensures
            r@ == self@,
    {
        let mut items: Vec<ModuleItem> = Vec::new();
        let mut i: usize = 0;
        while i < self.items.len()
            invariant
                i <= self.items.len(),
                items.len() == i,
                forall|j: int| 0 <= j < i ==> items[j]@ == self.items[j]@,
            decreases self.items.len() - i,
        {
            items.push(self.items[i].clone());
            i += 1;
        }
        assert(items_view(items@) =~= items_view(self.items@));
        Module { name: self.name.clone(), items }
    }
}

/// Appends one pattern: the views of the list grow by its view.
pub(crate) fn push_pattern(list: &mut Vec<Pattern>, item: Pattern)
    ensures
        final(list)@ == old(list)@.push(item),
        patterns_view(final(list)@) == patterns_view(old(list)@).push(item@),
{
    list.push(item);
    assert(patterns_view(list@) =~= patterns_view(old(list)@).push(item@));
}

/// Appends one expression: the views of the list grow by its view.
pub(crate) fn push_expression(list: &mut Vec<Expression>, item: Expression)
    ensures
        final(list)@ == old(list)@.push(item),
        expressions_view(final(list)@) == expressions_view(old(list)@).push(item@),
{
    list.push(item);
    assert(expressions_view(list@) =~= expressions_view(old(list)@).push(item@));
}

/// Appends one clause: the views of the list grow by its view.
pub(crate) fn push_clause(list: &mut Vec<FunClause>, item: FunClause)
    ensures
        final(list)@ == old(list)@.push(item),
        clauses_view(final(list)@) == clauses_view(old(list)@).push(item@),
{
    list.push(item);
    assert(clauses_view(list@) =~= clauses_view(old(list)@).push(item@));
}

/// Appends one module item: the views of the list grow by its view.
pub(crate) fn push_item(list: &mut Vec<ModuleItem>, item: ModuleItem)
    ensures
        final(list)@ == old(list)@.push(item),
        items_view(final(list)@) == items_view(old(list)@).push(item@),
{
    list.push(item);
    assert(items_view(list@) =~= items_view(old(list)@).push(item@));
}

} // verus!
