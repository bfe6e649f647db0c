//! The evaluator: walks an expression and gives its value.

use crate::environment::{Environment, EnvironmentError, Frames};
use crate::parsetree::{
    clauses_view, expressions_view, items_view, lemma_view_call, lemma_view_function,
    patterns_view, push_expression, Expression, ExpressionView, FunClause, Id, Module,
    ModuleItem, ModuleView, Pattern,
};
use crate::semantics::{
    bound_in, called, declared, dispatched, entered, entry_call, evaluated, evaluated_all,
    first_match, left_by_dispatch, lemma_scope_pairing, module_frames, print_name, selected,
    InterpreterErrorView,
};
use crate::views::view_result;
use vstd::prelude::*;
use vstd::string::StringExecFns;

verus! {

/// How deep calls of functions may nest where the caller sets no bound of
/// its own: as deep as the machine can count.
pub const MAX_CALL_DEPTH: usize = usize::MAX;

/// An error of evaluation.
#[derive(Debug)]
pub enum InterpreterError {
    /// A call names something that is bound to `expr`, which is no
    /// function.
    CannotCallNonFunctionValue { id: Id, expr: Expression },
    /// No clause of the called function takes as many arguments as the
    /// call gives.
    ClauseMatchError,
    /// The environment failed.
    EnvironmentError(EnvironmentError),
    /// Calls nest deeper than the bound that the evaluation was given.
    CallDepthExceeded,
}

impl View for InterpreterError {
    type V = InterpreterErrorView;

    open spec fn view(&self) -> InterpreterErrorView {
        match self {
            InterpreterError::CannotCallNonFunctionValue { id, expr } => {
                InterpreterErrorView::CannotCallNonFunctionValue { id: id@, expr: expr@ }
            },
            InterpreterError::ClauseMatchError => InterpreterErrorView::ClauseMatchError,
            InterpreterError::EnvironmentError(e) => InterpreterErrorView::EnvironmentError(e@),
            InterpreterError::CallDepthExceeded => InterpreterErrorView::CallDepthExceeded,
        }
    }
}

/// The view of a list of values, or of the error in its place.
pub open spec fn view_values(r: Result<Vec<Expression>, InterpreterError>) -> Result<
    Seq<ExpressionView>,
    InterpreterErrorView,
> {
    match r {
        Ok(values) => Ok(expressions_view(values@)),
        Err(e) => Err(e@),
    }
}

/// The views of the argument lists of a sequence of calls of `print`.
pub open spec fn printed_view(output: Seq<Vec<Expression>>) -> Seq<Seq<ExpressionView>> {
    Seq::new(output.len(), |i: int| expressions_view(output[i]@))
}

/// Whether `id` names the built-in that prints.
fn is_print(id: &Id) -> (b: bool)
    ensures
        b == (id@ == print_name()),
{
    let print = String::from_str("print");
    id.0 == print
}

/// An evaluator for the declarations of one module.
pub struct Interpreter {
    program: Module,
    env: Environment,
    output: Vec<Vec<Expression>>,
}

impl Interpreter {
    /// The module whose declarations this evaluator holds.
    pub closed spec fn program(&self) -> ModuleView {
        self.program@
    }

    /// The tables of the scopes in which evaluation stands, innermost
    /// first.
    pub closed spec fn frames(&self) -> Frames {
        self.env@
    }

    /// The arguments of each call of `print` made so far, in the order of
    /// the calls.
    pub closed spec fn printed(&self) -> Seq<Seq<ExpressionView>> {
        printed_view(self.output@)
    }

    /// An evaluator for `program`. Every declaration is bound in the
    /// outermost scope, in source order, as it stands: none is evaluated.
    pub fn new(program: Module) -> (r: Interpreter)
        ensures
            r.program() == program@,
            r.frames() == module_frames(program@),
            r.printed() == Seq::<Seq<ExpressionView>>::empty(),
    {
        let mut env = Environment::new();
        let mut i: usize = 0;
        assert(items_view(program.items@).take(0) =~= Seq::empty());
        while i < program.items.len()
            invariant
                i <= program.items.len(),
                env@ == seq![declared(items_view(program.items@).take(i as int))],
            decreases program.items.len() - i,
        {
            match &program.items[i] {
                ModuleItem::ValueDeclaration(vd) => {
                    env.bind(vd.name.clone(), vd.value.clone());
                },
            }
            i += 1;
            proof {
                let views = items_view(program.items@);
                assert(views.take(i as int).drop_last() =~= views.take(i - 1));
                assert(env@ =~= seq![declared(views.take(i as int))]);
            }
        }
        assert(items_view(program.items@).take(i as int) =~= items_view(program.items@));
        let r = Interpreter { program, env, output: Vec::new() };
        assert(r.printed() =~= Seq::<Seq<ExpressionView>>::empty());
        r
    }

    /// The arguments of each call of `print` made so far, in the order of
    /// the calls.
    pub fn output(&self) -> (r: &Vec<Vec<Expression>>)
        ensures
            printed_view(r@) == self.printed(),
    {
        &self.output
    }

    /// Evaluates the call that starts a program: `main`, with the greeting
    /// as its only argument.
    pub fn main(&mut self) -> (r: Result<(), InterpreterError>)
        ensures
            final(self).program() == old(self).program(),
            final(self).frames() == old(self).frames(),
            ({
                let out = evaluated(old(self).frames(), entry_call(), MAX_CALL_DEPTH as nat);
                &&& final(self).printed() == old(self).printed() + out.printed
                &&& match r {
                    Ok(_) => out.result is Ok,
                    Err(e) => out.result == Err::<ExpressionView, _>(e@),
                }
            }),
    {
        let mut args: Vec<Expression> = Vec::new();
        args.push(Expression::LiteralString(String::from_str("hello world")));
        let id = Id(String::from_str("main"));
        proof {
            lemma_view_call(id, args);
            assert(expressions_view(args@) =~= seq![
                ExpressionView::LiteralString("hello world"@),
            ]);
        }
        match self.eval(Expression::Call { id, args }) {
            Ok(_) => Ok(()),
            Err(e) => Err(e),
        }
    }

    /// Evaluates `expr` in the current scope. Whatever the result, the
    /// scopes are afterwards what they were before.
    pub fn eval(&mut self, expr: Expression) -> (r: Result<Expression, InterpreterError>)
        ensures
            final(self).program() == old(self).program(),
            final(self).frames() == old(self).frames(),
            ({
                let out = evaluated(old(self).frames(), expr@, MAX_CALL_DEPTH as nat);
                &&& view_result(r) == out.result
                &&& final(self).printed() == old(self).printed() + out.printed
            }),
    {
        self.eval_within(&expr, MAX_CALL_DEPTH)
    }

    /// Evaluates `expr` in the current scope, where calls of functions may
    /// nest `depth` deep: a call inside `depth` nested calls fails.
    /// Whatever the result, the scopes are afterwards what they were
    /// before.
    pub fn eval_within(&mut self, expr: &Expression, depth: usize) -> (r: Result<
        Expression,
        InterpreterError,
    >)
        ensures
            final(self).program() == old(self).program(),
            final(self).frames() == old(self).frames(),
            ({
                let out = evaluated(old(self).frames(), expr@, depth as nat);
                &&& view_result(r) == out.result
                &&& final(self).printed() == old(self).printed() + out.printed
            }),
        decreases depth, 1nat, expr, 0nat,
    {
        match expr {
            Expression::Call { id, args } => {
                proof {
                    lemma_view_call(*id, *args);
                }
                if is_print(id) {
                    match self.eval_args(args, depth) {
                        Ok(values) => {
                            self.record(values);
                            Ok(Expression::LiteralString(String::from_str("ok")))
                        },
                        Err(e) => Err(e),
                    }
                } else {
                    match self.env.lookup(id.clone()) {
                        Ok(Expression::Function(clauses)) => {
                            proof {
                                lemma_view_function(clauses);
                            }
                            self.eval_function(&clauses, args, depth)
                        },
                        Ok(value) => Err(
                            InterpreterError::CannotCallNonFunctionValue {
                                id: id.clone(),
                                expr: value,
                            },
                        ),
                        Err(e) => Err(InterpreterError::EnvironmentError(e)),
                    }
                }
            },
            Expression::Variable(id) => {
                match self.env.lookup(id.clone()) {
                    Ok(value) => Ok(value),
                    Err(e) => Err(InterpreterError::EnvironmentError(e)),
                }
            },
            _ => Ok(expr.clone()),
        }
    }

    /// Notes one call of `print` with the values `values`.
    fn record(&mut self, values: Vec<Expression>)
        ensures
            final(self).program() == old(self).program(),
            final(self).frames() == old(self).frames(),
            final(self).printed() == old(self).printed().push(expressions_view(values@)),
    {
        self.output.push(values);
        assert(self.printed() =~= old(self).printed().push(expressions_view(values@)));
    }

    /// Evaluates `args` from left to right, up to the first one that
    /// fails.
    fn eval_args(&mut self, args: &Vec<Expression>, depth: usize) -> (r: Result<
        Vec<Expression>,
        InterpreterError,
    >)
        ensures
            final(self).program() == old(self).program(),
            final(self).frames() == old(self).frames(),
            ({
                let out = evaluated_all(
                    old(self).frames(),
                    expressions_view(args@),
                    depth as nat,
                );
                &&& view_values(r) == out.result
                &&& final(self).printed() == old(self).printed() + out.printed
            }),
        decreases depth, 1nat, args, 0nat,
    {
        let mut values: Vec<Expression> = Vec::new();
        let mut i: usize = 0;
        let ghost frames = self.frames();
        let ghost views = expressions_view(args@);
        proof {
            assert(views.take(0) =~= Seq::empty());
            assert(expressions_view(values@) =~= Seq::empty());
            assert(self.printed() =~= old(self).printed() + Seq::empty());
        }
        while i < args.len()
            invariant
                i <= args.len(),
                frames == old(self).frames(),
                views == expressions_view(args@),
                self.program() == old(self).program(),
                self.frames() == frames,
                evaluated_all(frames, views.take(i as int), depth as nat).result == Ok::<
                    _,
                    InterpreterErrorView,
                >(expressions_view(values@)),
                self.printed() == old(self).printed() + evaluated_all(
                    frames,
                    views.take(i as int),
                    depth as nat,
                ).printed,
            decreases args.len() - i,
        {
            proof {
                assert(views.take(i + 1).drop_last() =~= views.take(i as int));
                assert(views.take(i + 1).last() == args[i as int]@);
            }
            match self.eval_within(&args[i], depth) {
                Ok(value) => {
                    push_expression(&mut values, value);
                },
                Err(e) => {
                    proof {
                        let failed = evaluated_all(frames, views.take(i + 1), depth as nat);
                        assert(self.printed() =~= old(self).printed() + failed.printed);
                        lemma_error_stays(frames, views, i + 1, depth as nat);
                    }
                    return Err(e);
                },
            }
            i += 1;
            proof {
                let done = evaluated_all(frames, views.take(i as int), depth as nat);
                assert(self.printed() =~= old(self).printed() + done.printed);
            }
        }
        assert(views.take(i as int) =~= views);
        Ok(values)
    }

    /// Applies a function with the clauses `clauses` to the arguments
    /// `args`, where calls may nest `depth` deep: evaluates the arguments
    /// in the scope of the call, enters a new scope, dispatches the call
    /// there, and leaves that scope whatever the result. The scopes are
    /// afterwards what they were before.
    pub fn eval_function(
        &mut self,
        clauses: &Vec<FunClause>,
        args: &Vec<Expression>,
        depth: usize,
    ) -> (r: Result<Expression, InterpreterError>)
        ensures
            final(self).program() == old(self).program(),
            final(self).frames() == old(self).frames(),
            ({
                let out = called(
                    old(self).frames(),
                    clauses_view(clauses@),
                    expressions_view(args@),
                    depth as nat,
                );
                &&& view_result(r) == out.result
                &&& final(self).printed() == old(self).printed() + out.printed
            }),
        decreases depth, 1nat, args, 1nat,
    {
        let values = match self.eval_args(args, depth) {
            Ok(values) => values,
            Err(e) => {
                return Err(e);
            },
        };
        let ghost outer = self.frames();
        proof {
            self.env.lemma_nonempty();
        }
        self.env.push_scope();
        let ghost inside = self.frames();
        let result = self.bind_matching_clause(clauses, &values, depth);
        proof {
            lemma_scope_pairing(
                outer,
                clauses_view(clauses@),
                expressions_view(values@),
                depth as nat,
            );
            let given = evaluated_all(outer, expressions_view(args@), depth as nat);
            let done = dispatched(
                inside,
                clauses_view(clauses@),
                expressions_view(values@),
                depth as nat,
            );
            assert(self.printed() =~= old(self).printed() + (given.printed + done.printed));
        }
        match self.env.pop_scope() {
            Ok(_) => result,
            Err(e) => Err(InterpreterError::EnvironmentError(e)),
        }
    }

    /// Dispatches a call with the evaluated arguments `values` on
    /// `clauses`, in the current scope: selects the first clause that takes
    /// as many arguments as there are values, binds its patterns to the
    /// values in the current scope, and evaluates its body there. Clauses
    /// of another arity are passed over, and no clause but the selected
    /// one binds anything or is evaluated. Where no clause is selected,
    /// nothing is bound.
    pub fn bind_matching_clause(
        &mut self,
        clauses: &Vec<FunClause>,
        values: &Vec<Expression>,
        depth: usize,
    ) -> (r: Result<Expression, InterpreterError>)
        ensures
            final(self).program() == old(self).program(),
            final(self).frames() == left_by_dispatch(
                old(self).frames(),
                clauses_view(clauses@),
                expressions_view(values@),
                depth as nat,
            ),
            ({
                let out = dispatched(
                    old(self).frames(),
                    clauses_view(clauses@),
                    expressions_view(values@),
                    depth as nat,
                );
                &&& view_result(r) == out.result
                &&& final(self).printed() == old(self).printed() + out.printed
            }),
        decreases depth, 0nat, clauses, 0nat,
    {
        let ghost before = self.frames();
        let ghost views = clauses_view(clauses@);
        let ghost n = expressions_view(values@).len();
        let mut k: usize = 0;
        while k < clauses.len()
            invariant
                k <= clauses.len(),
                views == clauses_view(clauses@),
                n == values.len(),
                first_match(views, n, 0) == first_match(views, n, k as int),
                *self == *old(self),
                before == self.frames(),
            decreases clauses.len() - k,
        {
            let clause = &clauses[k];
            assert(views[k as int] == clause@);
            if clause.args.len() != values.len() {
                k += 1;
                continue ;
            }
            assert(selected(views, n) == Some(k as int));
            if depth == 0 {
                assert(self.printed() =~= old(self).printed() + Seq::empty());
                return Err(InterpreterError::CallDepthExceeded);
            }
            let ghost patterns = patterns_view(clause.args@);
            let ghost given = expressions_view(values@);
            let mut i: usize = 0;
            proof {
                self.env.lemma_nonempty();
                assert(patterns.take(0) =~= Seq::empty());
                assert(self.frames() =~= before.update(
                    0,
                    bound_in(before[0], patterns.take(0), given),
                ));
            }
            while i < clause.args.len()
                invariant
                    i <= clause.args.len(),
                    clause.args.len() == values.len(),
                    patterns == patterns_view(clause.args@),
                    given == expressions_view(values@),
                    before.len() >= 1,
                    self.program() == old(self).program(),
                    self.printed() == old(self).printed(),
                    self.frames() == before.update(
                        0,
                        bound_in(before[0], patterns.take(i as int), given),
                    ),
                decreases clause.args.len() - i,
            {
                match &clause.args[i] {
                    Pattern::Bind(id) => {
                        self.env.bind(id.clone(), values[i].clone());
                    },
                }
                i += 1;
                proof {
                    assert(patterns.take(i as int).drop_last() =~= patterns.take(i - 1));
                    assert(self.frames() =~= before.update(
                        0,
                        bound_in(before[0], patterns.take(i as int), given),
                    ));
                }
            }
            assert(patterns.take(i as int) =~= patterns);
            assert(self.frames() == entered(before, clause@, given));
            return self.eval_within(&clause.body, depth - 1);
        }
        assert(self.printed() =~= old(self).printed() + Seq::empty());
        Err(InterpreterError::ClauseMatchError)
    }
}

/// Once an argument has failed, the arguments after it change nothing.
pub proof fn lemma_error_stays(frames: Frames, es: Seq<ExpressionView>, k: int, depth: nat)
    requires
        0 <= k <= es.len(),
        evaluated_all(frames, es.take(k), depth).result is Err,
    ensures
        evaluated_all(frames, es, depth) == evaluated_all(frames, es.take(k), depth),
    decreases es.len() - k,
{
    if k < es.len() {
        assert(es.take(k + 1).drop_last() =~= es.take(k));
        lemma_error_stays(frames, es, k + 1, depth);
    } else {
        assert(es.take(k) =~= es);
    }
}

} // verus!
