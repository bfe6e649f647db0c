//! The environment: a chain of scopes, each a table from names to values,
//! innermost first.

use crate::parsetree::{Expression, ExpressionView, Id};
use crate::views::view_result;
use vstd::prelude::*;

verus! {

/// The tables of a chain of scopes, innermost first.
pub type Frames = Seq<Map<Seq<char>, ExpressionView>>;

/// What `id` stands for in `frames`: its value in the innermost scope that
/// binds it, if any scope does.
pub open spec fn resolve(frames: Frames, id: Seq<char>) -> Option<ExpressionView>
    decreases frames.len(),
{
    if frames.len() == 0 {
        None
    } else if frames[0].contains_key(id) {
        Some(frames[0][id])
    } else {
        resolve(frames.drop_first(), id)
    }
}

/// An error of the environment.
#[derive(Debug)]
pub enum EnvironmentError {
    /// No scope of the chain binds `id`.
    UndefinedSymbol { id: Id },
    /// The outermost scope cannot be left.
    ScopeUnderflow,
}

/// What an error of the environment is.
pub enum EnvironmentErrorView {
    UndefinedSymbol { id: Seq<char> },
    ScopeUnderflow,
}

impl View for EnvironmentError {
    type V = EnvironmentErrorView;

    open spec fn view(&self) -> EnvironmentErrorView {
        match self {
            EnvironmentError::UndefinedSymbol { id } => EnvironmentErrorView::UndefinedSymbol {
                id: id@,
            },
            EnvironmentError::ScopeUnderflow => EnvironmentErrorView::ScopeUnderflow,
        }
    }
}

/// What looking `id` up in `frames` gives.
pub open spec fn looked_up(frames: Frames, id: Seq<char>) -> Result<
    ExpressionView,
    EnvironmentErrorView,
> {
    match resolve(frames, id) {
        Some(value) => Ok(value),
        None => Err(EnvironmentErrorView::UndefinedSymbol { id }),
    }
}

/// One binding of a scope.
#[derive(Debug)]
struct Binding {
    id: Id,
    value: Expression,
}

/// The table that a list of bindings stands for. A later binding of a name
/// replaces an earlier one.
spec fn table(bindings: Seq<Binding>) -> Map<Seq<char>, ExpressionView>
    decreases bindings.len(),
{
    if bindings.len() == 0 {
        Map::empty()
    } else {
        table(bindings.drop_last()).insert(bindings.last().id@, bindings.last().value@)
    }
}

/// The index of the last binding of `id`, if there is one.
spec fn last_binding(bindings: Seq<Binding>, id: Seq<char>) -> Option<int>
    decreases bindings.len(),
{
    if bindings.len() == 0 {
        None
    } else if bindings.last().id@ == id {
        Some(bindings.len() - 1)
    } else {
        last_binding(bindings.drop_last(), id)
    }
}

/// The last binding of a name is what the table holds for it, and a name
/// that no binding names is not in the table.
proof fn lemma_table(bindings: Seq<Binding>, id: Seq<char>)
    ensures
        match last_binding(bindings, id) {
            Some(i) => 0 <= i < bindings.len() && table(bindings).contains_key(id) && table(
                bindings,
            )[id] == bindings[i].value@,
            None => !table(bindings).contains_key(id),
        },
    decreases bindings.len(),
{
    if bindings.len() > 0 && bindings.last().id@ != id {
        lemma_table(bindings.drop_last(), id);
    }
}

/// Whether no two of the bindings are of one name.
spec fn names_differ(bindings: Seq<Binding>) -> bool {
    forall|i: int, j: int|
        0 <= i < j < bindings.len() ==> (#[trigger] bindings[i]).id@ != (#[trigger] bindings[j]).id@
}

/// Where a name has no last binding, it has none.
proof fn lemma_unbound(bindings: Seq<Binding>, id: Seq<char>)
    requires
        last_binding(bindings, id) is None,
    ensures
        forall|i: int| 0 <= i < bindings.len() ==> (#[trigger] bindings[i]).id@ != id,
    decreases bindings.len(),
{
    if bindings.len() > 0 {
        lemma_unbound(bindings.drop_last(), id);
        assert forall|i: int| 0 <= i < bindings.len() implies (#[trigger] bindings[i]).id@
            != id by {
            if i < bindings.len() - 1 {
                assert(bindings.drop_last()[i].id@ != id);
            }
        }
    }
}

/// Putting a new value in the place of the last binding of a name does to
/// the table what binding the name does.
proof fn lemma_table_update(bindings: Seq<Binding>, i: int, binding: Binding)
    requires
        last_binding(bindings, binding.id@) == Some(i),
    ensures
        0 <= i < bindings.len(),
        table(bindings.update(i, binding)) == table(bindings).insert(
            binding.id@,
            binding.value@,
        ),
    decreases bindings.len(),
{
    lemma_table(bindings, binding.id@);
    let updated = bindings.update(i, binding);
    if bindings.last().id@ == binding.id@ {
        assert(updated.drop_last() =~= bindings.drop_last());
    } else {
        lemma_table_update(bindings.drop_last(), i, binding);
        assert(updated.drop_last() =~= bindings.drop_last().update(i, binding));
    }
    assert(table(updated) =~= table(bindings).insert(binding.id@, binding.value@));
}

/// The index of the last binding of `id`, if there is one.
fn find(bindings: &Vec<Binding>, id: &Id) -> (r: Option<usize>)
    ensures
        match r {
            Some(i) => i < bindings.len() && last_binding(bindings@, id@) == Some(i as int)
                && bindings[i as int].id@ == id@ && table(bindings@).contains_key(id@) && table(
                bindings@,
            )[id@] == bindings[i as int].value@,
            None => last_binding(bindings@, id@) is None && !table(bindings@).contains_key(id@),
        },
{
    let mut i: usize = bindings.len();
    assert(bindings@.take(i as int) =~= bindings@);
    while i > 0
        invariant
            i <= bindings.len(),
            last_binding(bindings@, id@) == last_binding(bindings@.take(i as int), id@),
        decreases i,
    {
        i -= 1;
        assert(bindings@.take(i + 1).drop_last() =~= bindings@.take(i as int));
        if bindings[i].id.same(id) {
            proof {
                lemma_table(bindings@, id@);
            }
            return Some(i);
        }
    }
    proof {
        lemma_table(bindings@, id@);
    }
    None
}

impl Binding {
    /// A copy of this binding.
    fn copy(&self) -> (r: Binding)
        ensures
            r.id@ == self.id@,
            r.value@ == self.value@,
    {
        Binding { id: self.id.clone(), value: self.value.clone() }
    }
}

/// One copy of each binding, in order.
fn clone_bindings(bindings: &Vec<Binding>) -> (r: Vec<Binding>)
    ensures
        table(r@) == table(bindings@),
        names_differ(bindings@) ==> names_differ(r@),
{
    let mut r: Vec<Binding> = Vec::new();
    let mut i: usize = 0;
    assert(bindings@.take(0) =~= r@);
    while i < bindings.len()
        invariant
            i <= bindings.len(),
            r.len() == i,
            table(r@) == table(bindings@.take(i as int)),
            forall|j: int| 0 <= j < i ==> (#[trigger] r@[j]).id@ == bindings@[j].id@,
        decreases bindings.len() - i,
    {
        let ghost before = r@;
        r.push(bindings[i].copy());
        i += 1;
        assert(r@.drop_last() =~= before);
        assert(bindings@.take(i as int).drop_last() =~= bindings@.take(i - 1));
    }
    assert(bindings@.take(i as int) =~= bindings@);
    assert(names_differ(bindings@) ==> names_differ(r@)) by {
        if names_differ(bindings@) {
            assert forall|x: int, y: int| 0 <= x < y < r@.len() implies (#[trigger] r@[x]).id@ != (
            #[trigger] r@[y]).id@ by {
                assert(bindings@[x].id@ != bindings@[y].id@);
            }
        }
    }
    r
}

/// One scope: its own bindings, and the scope around it.
///
/// A scope binds a name at most once: binding it again puts the new value
/// in the place of the old one.
#[derive(Debug)]
pub struct Scope {
    parent: Option<Box<Scope>>,
    bindings: Vec<Binding>,
}

impl Default for Scope {
    /// A scope that binds nothing and has no scope around it.
    fn default() -> (r: Scope)
        ensures
            r.frames() == seq![Map::<Seq<char>, ExpressionView>::empty()],
    {
        let r = Scope { parent: None, bindings: Vec::new() };
        assert(r.frames() =~= seq![Map::<Seq<char>, ExpressionView>::empty()]);
        r
    }
}

impl Clone for Scope {
    fn clone(&self) -> (r: Self)
        ensures
            r.frames() == self.frames(),
        decreases self,
    {
        let parent = match &self.parent {
            Some(parent) => Some(Box::new((&**parent).clone())),
            None => None,
        };
        proof {
            use_type_invariant(self);
        }
        Scope { parent, bindings: clone_bindings(&self.bindings) }
    }
}

impl Scope {
    #[verifier::type_invariant]
    spec fn well_formed(self) -> bool {
        names_differ(self.bindings@)
    }

    /// The tables of this scope and of the scopes around it, this one
    /// first.
    pub closed spec fn frames(&self) -> Frames
        decreases self,
    {
        seq![table(self.bindings@)] + match self.parent {
            Some(parent) => parent.frames(),
            None => Seq::empty(),
        }
    }

    /// A scope has its own table, whatever is around it.
    pub proof fn lemma_frames_nonempty(&self)
        ensures
            self.frames().len() >= 1,
    {
    }

    /// The value of `id` in the innermost scope that binds it, from this
    /// scope outwards.
    pub fn lookup(&self, id: Id) -> (r: Result<Expression, EnvironmentError>)
        ensures
            view_result(r) == looked_up(self.frames(), id@),
        decreases self,
    {
        proof {
            reveal_with_fuel(resolve, 2);
            assert(self.frames().drop_first() =~= match self.parent {
                Some(parent) => parent.frames(),
                None => Seq::empty(),
            });
        }
        match find(&self.bindings, &id) {
            Some(i) => Ok(self.bindings[i].value.clone()),
            None => match &self.parent {
                Some(parent) => parent.lookup(id),
                None => Err(EnvironmentError::UndefinedSymbol { id }),
            },
        }
    }
}

/// A chain of scopes, of which the innermost is the current one.
#[derive(Debug)]
pub struct Environment {
    current_scope: Scope,
}

impl View for Environment {
    type V = Frames;

    closed spec fn view(&self) -> Frames {
        self.current_scope.frames()
    }
}

impl Environment {
    /// An environment has a current scope.
    pub proof fn lemma_nonempty(&self)
        ensures
            self@.len() >= 1,
    {
    }

    /// An environment of one scope, which binds nothing.
    pub fn new() -> (r: Environment)
        ensures
            r@ == seq![Map::<Seq<char>, ExpressionView>::empty()],
    {
        let r = Environment { current_scope: Scope { parent: None, bindings: Vec::new() } };
        assert(r@ =~= seq![Map::<Seq<char>, ExpressionView>::empty()]);
        r
    }

    /// Enters a new scope, which binds nothing, inside the current one.
    pub fn push_scope(&mut self)
        ensures
            final(self)@ == seq![Map::<Seq<char>, ExpressionView>::empty()] + old(self)@,
    {
        let mut scope = Scope { parent: None, bindings: Vec::new() };
        std::mem::swap(&mut self.current_scope, &mut scope);
        self.current_scope.parent = Some(Box::new(scope));
    }

    /// Leaves the current scope for the one around it, and forgets what it
    /// bound. The outermost scope cannot be left.
    pub fn pop_scope(&mut self) -> (r: Result<(), EnvironmentError>)
        ensures
            match r {
                Ok(_) => old(self)@.len() > 1 && final(self)@ == old(self)@.drop_first(),
                Err(e) => old(self)@.len() == 1 && final(self)@ == old(self)@ && e@
                    == EnvironmentErrorView::ScopeUnderflow,
            },
    {
        let mut parent: Option<Box<Scope>> = None;
        proof {
            use_type_invariant(&self.current_scope);
        }
        std::mem::swap(&mut self.current_scope.parent, &mut parent);
        match parent {
            Some(parent) => {
                proof {
                    parent.lemma_frames_nonempty();
                }
                assert(old(self)@.drop_first() =~= parent.frames());
                self.current_scope = *parent;
                Ok(())
            },
            None => Err(EnvironmentError::ScopeUnderflow),
        }
    }

    /// Binds `id` to `expr` in the current scope, in place of what that
    /// scope bound it to, if anything. No other scope changes.
    pub fn bind(&mut self, id: Id, expr: Expression)
        ensures
            final(self)@ == old(self)@.update(0, old(self)@[0].insert(id@, expr@)),
    {
        let ghost before = self.current_scope.bindings@;
        let mut bindings: Vec<Binding> = Vec::new();
        proof {
            use_type_invariant(&self.current_scope);
        }
        std::mem::swap(&mut self.current_scope.bindings, &mut bindings);
        let place = find(&bindings, &id);
        let binding = Binding { id, value: expr };
        match place {
            Some(i) => {
                proof {
                    lemma_table_update(before, i as int, binding);
                }
                bindings.set(i, binding);
            },
            None => {
                proof {
                    lemma_unbound(before, id@);
                }
                bindings.push(binding);
                assert(bindings@.drop_last() =~= before);
            },
        }
        self.current_scope.bindings = bindings;
        assert(self@ =~= old(self)@.update(0, old(self)@[0].insert(id@, expr@)));
    }

    /// The value of `id` in the innermost scope that binds it.
    pub fn lookup(&self, id: Id) -> (r: Result<Expression, EnvironmentError>)
        ensures
            view_result(r) == looked_up(self@, id@),
    {
        self.current_scope.lookup(id)
    }
}

/// The frames after a new scope was entered in `frames` and `id` was bound
/// to `value` there.
pub open spec fn entered_and_bound(frames: Frames, id: Seq<char>, value: ExpressionView) -> Frames {
    let entered = seq![Map::<Seq<char>, ExpressionView>::empty()] + frames;
    entered.update(0, entered[0].insert(id, value))
}

/// What the scopes around a new scope bind is seen from inside it: every
/// name resolves in a scope just entered as it did outside.
pub proof fn lemma_parent_visible(frames: Frames, id: Seq<char>)
    ensures
        resolve(seq![Map::<Seq<char>, ExpressionView>::empty()] + frames, id) == resolve(
            frames,
            id,
        ),
{
    let entered = seq![Map::<Seq<char>, ExpressionView>::empty()] + frames;
    assert(entered.drop_first() =~= frames);
}

/// A binding made in a scope shadows the scopes around it and changes none
/// of them: inside, the name resolves to the new value and every other
/// name as before; once the scope is left, the frames are what they were,
/// so the binding is gone and a shadowed one is back.
pub proof fn lemma_shadowing(frames: Frames, id: Seq<char>, value: ExpressionView)
    ensures
        resolve(entered_and_bound(frames, id, value), id) == Some(value),
        forall|other: Seq<char>|
            other != id ==> resolve(entered_and_bound(frames, id, value), other) == resolve(
                frames,
                other,
            ),
        entered_and_bound(frames, id, value).drop_first() == frames,
{
    let inside = entered_and_bound(frames, id, value);
    assert(inside.drop_first() =~= frames);
}

} // verus!
