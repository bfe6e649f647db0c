//! What evaluation means, stated over the views of expressions and of the
//! environment.
//!
//! A value is an expression that evaluates to itself: a string literal or
//! a function. Evaluation gives a value or an error, and the arguments of
//! each call of `print` that it made, in the order of the calls.

use crate::environment::{resolve, EnvironmentErrorView, Frames};
use crate::parsetree::{
    ExpressionView, FunClauseView, ModuleItemView, ModuleView, PatternView,
};
use vstd::prelude::*;

verus! {

/// What an error of evaluation is.
pub enum InterpreterErrorView {
    CannotCallNonFunctionValue { id: Seq<char>, expr: ExpressionView },
    ClauseMatchError,
    EnvironmentError(EnvironmentErrorView),
    CallDepthExceeded,
}

/// What an evaluation ends in, and what it has printed by then.
pub struct Outcome<T> {
    pub result: Result<T, InterpreterErrorView>,
    pub printed: Seq<Seq<ExpressionView>>,
}

/// The name of the built-in that prints its arguments.
pub open spec fn print_name() -> Seq<char> {
    "print"@
}

/// What a call of `print` returns.
pub open spec fn print_value() -> ExpressionView {
    ExpressionView::LiteralString("ok"@)
}

/// The first clause from the index `from` on that takes `n` arguments, if
/// there is one.
pub open spec fn first_match(clauses: Seq<FunClauseView>, n: nat, from: int) -> Option<int>
    decreases clauses.len() - from,
{
    if from < 0 || from >= clauses.len() {
        None
    } else if clauses[from].args.len() == n {
        Some(from)
    } else {
        first_match(clauses, n, from + 1)
    }
}

/// The clause that a call with `n` arguments selects: the first one, in
/// source order, that takes `n` arguments.
pub open spec fn selected(clauses: Seq<FunClauseView>, n: nat) -> Option<int> {
    first_match(clauses, n, 0)
}

/// The table `scope` after each pattern was bound in it to the value at
/// its place, from left to right. Where a name stands twice, the later
/// place counts.
pub open spec fn bound_in(
    scope: Map<Seq<char>, ExpressionView>,
    patterns: Seq<PatternView>,
    values: Seq<ExpressionView>,
) -> Map<Seq<char>, ExpressionView>
    decreases patterns.len(),
{
    if patterns.len() == 0 {
        scope
    } else {
        match patterns.last() {
            PatternView::Bind(id) => bound_in(scope, patterns.drop_last(), values).insert(
                id,
                values[patterns.len() - 1],
            ),
        }
    }
}

/// The table of a new scope in which each pattern is bound to the value at
/// its place.
pub open spec fn bound(patterns: Seq<PatternView>, values: Seq<ExpressionView>) -> Map<
    Seq<char>,
    ExpressionView,
> {
    bound_in(Map::empty(), patterns, values)
}

/// The frames once the patterns of `clause` are bound to `values` in the
/// innermost scope. No other scope changes.
pub open spec fn entered(frames: Frames, clause: FunClauseView, values: Seq<ExpressionView>) -> Frames {
    frames.update(0, bound_in(frames[0], clause.args, values))
}

/// The table of the outermost scope of a module: each declared name with
/// the expression it is declared as. Where a name is declared twice, the
/// later declaration counts.
pub open spec fn declared(items: Seq<ModuleItemView>) -> Map<Seq<char>, ExpressionView>
    decreases items.len(),
{
    if items.len() == 0 {
        Map::empty()
    } else {
        match items.last() {
            ModuleItemView::ValueDeclaration(d) => declared(items.drop_last()).insert(
                d.name,
                d.value,
            ),
        }
    }
}

/// What evaluating `e` in `frames` gives, where calls of functions may
/// nest `depth` deep.
///
/// A string literal and a function are their own value. A variable is
/// what the environment holds for it. A call of `print` evaluates its
/// arguments and prints them. Any other call looks its name up, which must
/// be bound to a function, evaluates its arguments in the scope of the
/// call, and applies the function to them.
pub open spec fn evaluated(frames: Frames, e: ExpressionView, depth: nat) -> Outcome<
    ExpressionView,
>
    decreases depth, 1nat, e,
{
    match e {
        ExpressionView::LiteralString(_) => Outcome { result: Ok(e), printed: Seq::empty() },
        ExpressionView::Function(_) => Outcome { result: Ok(e), printed: Seq::empty() },
        ExpressionView::Variable(id) => Outcome {
            result: match resolve(frames, id) {
                Some(value) => Ok(value),
                None => Err(
                    InterpreterErrorView::EnvironmentError(
                        EnvironmentErrorView::UndefinedSymbol { id },
                    ),
                ),
            },
            printed: Seq::empty(),
        },
        ExpressionView::Call { id, args } => if id == print_name() {
            let given = evaluated_all(frames, args, depth);
            match given.result {
                Err(error) => Outcome { result: Err(error), printed: given.printed },
                Ok(values) => Outcome {
                    result: Ok(print_value()),
                    printed: given.printed.push(values),
                },
            }
        } else {
            match resolve(frames, id) {
                None => Outcome {
                    result: Err(
                        InterpreterErrorView::EnvironmentError(
                            EnvironmentErrorView::UndefinedSymbol { id },
                        ),
                    ),
                    printed: Seq::empty(),
                },
                Some(ExpressionView::Function(clauses)) => {
                    let given = evaluated_all(frames, args, depth);
                    match given.result {
                        Err(error) => Outcome { result: Err(error), printed: given.printed },
                        Ok(values) => {
                            let called = dispatched(
                                seq![Map::<Seq<char>, ExpressionView>::empty()] + frames,
                                clauses,
                                values,
                                depth,
                            );
                            Outcome {
                                result: called.result,
                                printed: given.printed + called.printed,
                            }
                        },
                    }
                },
                Some(expr) => Outcome {
                    result: Err(InterpreterErrorView::CannotCallNonFunctionValue { id, expr }),
                    printed: Seq::empty(),
                },
            }
        },
    }
}

/// What evaluating the expressions `es` from left to right gives: their
/// values in order, or the error of the first one that fails, after which
/// none is evaluated.
pub open spec fn evaluated_all(frames: Frames, es: Seq<ExpressionView>, depth: nat) -> Outcome<
    Seq<ExpressionView>,
>
    decreases depth, 1nat, es,
{
    if es.len() == 0 {
        Outcome { result: Ok(Seq::empty()), printed: Seq::empty() }
    } else {
        let before = evaluated_all(frames, es.drop_last(), depth);
        match before.result {
            Err(_) => before,
            Ok(values) => {
                let last = evaluated(frames, es.last(), depth);
                Outcome {
                    result: match last.result {
                        Ok(value) => Ok(values.push(value)),
                        Err(error) => Err(error),
                    },
                    printed: before.printed + last.printed,
                }
            },
        }
    }
}

/// What dispatching a call with the arguments `values` on `clauses` gives,
/// in the innermost scope of `frames`: the patterns of the selected clause
/// are bound to the values there, and its body is evaluated. It is an
/// error where no clause takes as many arguments, and where calls already
/// nest as deep as they may.
pub open spec fn dispatched(
    frames: Frames,
    clauses: Seq<FunClauseView>,
    values: Seq<ExpressionView>,
    depth: nat,
) -> Outcome<ExpressionView>
    decreases depth, 0nat, clauses,
{
    match selected(clauses, values.len()) {
        None => Outcome {
            result: Err(InterpreterErrorView::ClauseMatchError),
            printed: Seq::empty(),
        },
        Some(i) => if depth == 0 {
            Outcome {
                result: Err(InterpreterErrorView::CallDepthExceeded),
                printed: Seq::empty(),
            }
        } else {
            evaluated(entered(frames, clauses[i], values), clauses[i].body, (depth - 1) as nat)
        },
    }
}

/// The frames that dispatching a call leaves behind: those in which the
/// body of the selected clause was evaluated, or the frames as they were
/// where no body was.
pub open spec fn left_by_dispatch(
    frames: Frames,
    clauses: Seq<FunClauseView>,
    values: Seq<ExpressionView>,
    depth: nat,
) -> Frames {
    match selected(clauses, values.len()) {
        Some(i) => if depth == 0 {
            frames
        } else {
            entered(frames, clauses[i], values)
        },
        None => frames,
    }
}

/// What applying a function with the clauses `clauses` to `values` gives:
/// the call is dispatched in a new scope inside `frames`, which binds
/// nothing but the patterns of the selected clause.
pub open spec fn applied(
    frames: Frames,
    clauses: Seq<FunClauseView>,
    values: Seq<ExpressionView>,
    depth: nat,
) -> Outcome<ExpressionView> {
    dispatched(
        seq![Map::<Seq<char>, ExpressionView>::empty()] + frames,
        clauses,
        values,
        depth,
    )
}

/// What applying a function to the arguments `args` gives: the arguments
/// are evaluated in `frames`, and the function is applied to their values
/// unless one of them fails.
pub open spec fn called(
    frames: Frames,
    clauses: Seq<FunClauseView>,
    args: Seq<ExpressionView>,
    depth: nat,
) -> Outcome<ExpressionView> {
    let given = evaluated_all(frames, args, depth);
    match given.result {
        Err(error) => Outcome { result: Err(error), printed: given.printed },
        Ok(values) => {
            let done = applied(frames, clauses, values, depth);
            Outcome { result: done.result, printed: given.printed + done.printed }
        },
    }
}

/// The call that starts a program: `main` with the greeting as its only
/// argument.
pub open spec fn entry_call() -> ExpressionView {
    ExpressionView::Call {
        id: "main"@,
        args: seq![ExpressionView::LiteralString("hello world"@)],
    }
}

/// The frames in which the declarations of `module` are evaluated.
pub open spec fn module_frames(module: ModuleView) -> Frames {
    seq![declared(module.items)]
}

/// A selected clause takes as many arguments as the call gives, and no
/// clause before it does.
pub proof fn lemma_first_match(clauses: Seq<FunClauseView>, n: nat, from: int)
    requires
        0 <= from,
    ensures
        match first_match(clauses, n, from) {
            Some(i) => from <= i < clauses.len() && clauses[i].args.len() == n && forall|j: int|
                from <= j < i ==> (#[trigger] clauses[j]).args.len() != n,
            None => forall|j: int|
                from <= j < clauses.len() ==> (#[trigger] clauses[j]).args.len() != n,
        },
    decreases clauses.len() - from,
{
    if from < clauses.len() && clauses[from].args.len() != n {
        lemma_first_match(clauses, n, from + 1);
    }
}

/// Clause dispatch: the first clause that takes as many arguments as the
/// call gives is the one selected, whatever the clauses after it: its
/// patterns are bound to the arguments in the innermost scope and its body
/// is evaluated there. A call that gives a number of arguments that no
/// clause takes fails for want of a matching clause, prints nothing and
/// binds nothing, and only such a call fails so by dispatch.
pub proof fn lemma_dispatch(
    frames: Frames,
    clauses: Seq<FunClauseView>,
    values: Seq<ExpressionView>,
    depth: nat,
)
    ensures
        match selected(clauses, values.len()) {
            Some(i) => {
                &&& 0 <= i < clauses.len()
                &&& clauses[i].args.len() == values.len()
                &&& forall|j: int| 0 <= j < i ==> (#[trigger] clauses[j]).args.len() != values.len()
                &&& depth > 0 ==> dispatched(frames, clauses, values, depth) == evaluated(
                    entered(frames, clauses[i], values),
                    clauses[i].body,
                    (depth - 1) as nat,
                )
                &&& depth > 0 ==> left_by_dispatch(frames, clauses, values, depth) == entered(
                    frames,
                    clauses[i],
                    values,
                )
                &&& depth > 0 ==> applied(frames, clauses, values, depth) == evaluated(
                    seq![bound(clauses[i].args, values)] + frames,
                    clauses[i].body,
                    (depth - 1) as nat,
                )
            },
            None => {
                &&& forall|j: int|
                    0 <= j < clauses.len() ==> (#[trigger] clauses[j]).args.len() != values.len()
                &&& dispatched(frames, clauses, values, depth) == (Outcome {
                    result: Err::<ExpressionView, _>(InterpreterErrorView::ClauseMatchError),
                    printed: Seq::empty(),
                })
                &&& left_by_dispatch(frames, clauses, values, depth) == frames
                &&& applied(frames, clauses, values, depth) == (Outcome {
                    result: Err::<ExpressionView, _>(InterpreterErrorView::ClauseMatchError),
                    printed: Seq::empty(),
                })
            },
        },
{
    lemma_first_match(clauses, values.len(), 0);
    match selected(clauses, values.len()) {
        Some(i) => {
            let inside = seq![Map::<Seq<char>, ExpressionView>::empty()] + frames;
            assert(entered(inside, clauses[i], values) =~= seq![bound(clauses[i].args, values)]
                + frames);
        },
        None => {},
    }
}

/// Scope pairing: whatever a call binds, it binds in the scope that was
/// entered for it, so that leaving that scope gives back the frames in
/// which the call was made, whether the call succeeds or fails.
pub proof fn lemma_scope_pairing(
    frames: Frames,
    clauses: Seq<FunClauseView>,
    values: Seq<ExpressionView>,
    depth: nat,
)
    ensures
        left_by_dispatch(
            seq![Map::<Seq<char>, ExpressionView>::empty()] + frames,
            clauses,
            values,
            depth,
        ).drop_first() == frames,
        left_by_dispatch(
            seq![Map::<Seq<char>, ExpressionView>::empty()] + frames,
            clauses,
            values,
            depth,
        ).len() == frames.len() + 1,
{
    let inside = seq![Map::<Seq<char>, ExpressionView>::empty()] + frames;
    assert(inside.drop_first() =~= frames);
    assert(left_by_dispatch(inside, clauses, values, depth).drop_first() =~= frames);
}

/// Each pattern of a clause is bound to the argument at its place: a name
/// that stands at `j` and at no later place is bound to the value at `j`,
/// and a name that is no pattern keeps what the scope held for it.
pub proof fn lemma_bound(
    scope: Map<Seq<char>, ExpressionView>,
    patterns: Seq<PatternView>,
    values: Seq<ExpressionView>,
    id: Seq<char>,
)
    ensures
        forall|j: int|
            0 <= j < patterns.len() && #[trigger] patterns[j] == PatternView::Bind(id) && (forall|
                k: int,
            |
                j < k < patterns.len() ==> #[trigger] patterns[k] != PatternView::Bind(id))
                ==> bound_in(scope, patterns, values).contains_key(id) && bound_in(
                scope,
                patterns,
                values,
            )[id] == values[j],
        (forall|k: int| 0 <= k < patterns.len() ==> #[trigger] patterns[k] != PatternView::Bind(id))
            ==> (bound_in(scope, patterns, values).contains_key(id) <==> scope.contains_key(id))
            && bound_in(scope, patterns, values)[id] == scope[id],
    decreases patterns.len(),
{
    if patterns.len() > 0 {
        let rest = patterns.drop_last();
        lemma_bound(scope, rest, values, id);
        assert forall|j: int|
            0 <= j < patterns.len() && #[trigger] patterns[j] == PatternView::Bind(id) && (forall|
                k: int,
            |
                j < k < patterns.len() ==> #[trigger] patterns[k] != PatternView::Bind(
                    id,
                )) implies bound_in(scope, patterns, values).contains_key(id) && bound_in(
            scope,
            patterns,
            values,
        )[id] == values[j] by {
            if j < patterns.len() - 1 {
                assert(patterns[patterns.len() - 1] != PatternView::Bind(id));
                assert(rest[j] == patterns[j]);
                assert forall|k: int| j < k < rest.len() implies #[trigger] rest[k]
                    != PatternView::Bind(id) by {
                    assert(rest[k] == patterns[k]);
                }
            }
        }
        if forall|k: int| 0 <= k < patterns.len() ==> #[trigger] patterns[k] != PatternView::Bind(id) {
            assert(patterns[patterns.len() - 1] != PatternView::Bind(id));
            assert forall|k: int| 0 <= k < rest.len() implies #[trigger] rest[k]
                != PatternView::Bind(id) by {
                assert(rest[k] == patterns[k]);
            }
        }
    }
}

} // verus!
