//! Chained scopes: an arena of scopes, each with a link to its parent.
//!
//! A scope is named by a handle, its index in the arena. Several scopes may
//! share one parent, and what is assigned through one of them to a name that
//! the parent holds is seen from all of them.

use vstd::prelude::*;
use crate::value::{SpecValue, Value};

verus! {

/// The handle of a scope.
pub type ScopeId = usize;

/// A name bound to a value.
pub struct Binding {
    name: String,
    value: Value,
}

/// One scope: its bindings, oldest first, and its parent.
pub struct Scope {
    parent: Option<ScopeId>,
    entries: Vec<Binding>,
}

/// The scopes of a run.
pub struct Environment {
    scopes: Vec<Scope>,
}

/// The lookup of a name failed in every scope of the chain.
#[derive(Debug, PartialEq, Eq)]
pub struct UndefinedVariable {
    pub name: String,
}

/// The mathematical model of a scope.
pub struct SpecScope {
    pub parent: Option<nat>,
    pub bindings: Map<Seq<char>, SpecValue>,
}

/// The scope at which the lookup of `name` that starts in `scope` ends: the
/// innermost scope of the chain that binds `name`. The chain goes from a
/// scope to its parent as long as the parent is older than the scope.
pub open spec fn resolve(env: Seq<SpecScope>, scope: nat, name: Seq<char>) -> Option<nat>
    decreases scope,
{
    if scope >= env.len() {
        None
    } else if env[scope as int].bindings.contains_key(name) {
        Some(scope)
    } else {
        match env[scope as int].parent {
            Some(p) => if p < scope {
                resolve(env, p, name)
            } else {
                None
            },
            None => None,
        }
    }
}

/// The value that `name` has when looked up from `scope`.
pub open spec fn lookup(env: Seq<SpecScope>, scope: nat, name: Seq<char>) -> Option<SpecValue> {
    match resolve(env, scope, name) {
        Some(s) => Some(env[s as int].bindings[name]),
        None => None,
    }
}

/// The environment after `name` is bound to `value` in `scope` itself. A
/// handle that names no scope changes nothing.
pub open spec fn define_in(env: Seq<SpecScope>, scope: nat, name: Seq<char>, value: SpecValue) -> Seq<
    SpecScope,
> {
    if scope < env.len() {
        env.update(
            scope as int,
            SpecScope {
                parent: env[scope as int].parent,
                bindings: env[scope as int].bindings.insert(name, value),
            },
        )
    } else {
        env
    }
}

/// The environment after `value` is assigned to `name` from `scope`: the
/// binding in the innermost scope of the chain that holds `name` changes.
/// There is none if no scope of the chain binds `name`.
pub open spec fn assign_in(env: Seq<SpecScope>, scope: nat, name: Seq<char>, value: SpecValue) -> Option<
    Seq<SpecScope>,
> {
    match resolve(env, scope, name) {
        Some(s) => Some(define_in(env, s, name, value)),
        None => None,
    }
}

/// The environment with a new, empty scope under `parent`.
pub open spec fn with_scope(env: Seq<SpecScope>, parent: Option<nat>) -> Seq<SpecScope> {
    env.push(SpecScope { parent, bindings: Map::empty() })
}

/// The environment without `scope`, if `scope` is the newest scope; else the
/// environment as it is.
pub open spec fn without_scope(env: Seq<SpecScope>, scope: nat) -> Seq<SpecScope> {
    if scope + 1 == env.len() {
        env.drop_last()
    } else {
        env
    }
}

/// The model of an optional handle.
pub open spec fn parent_view(parent: Option<ScopeId>) -> Option<nat> {
    match parent {
        Some(p) => Some(p as nat),
        None => None,
    }
}

/// The bindings that a list of entries stands for: a later entry hides an
/// earlier one of the same name.
pub closed spec fn entries_map(entries: Seq<Binding>) -> Map<Seq<char>, SpecValue>
    decreases entries.len(),
{
    if entries.len() == 0 {
        Map::empty()
    } else {
        entries_map(entries.drop_last()).insert(entries.last().name@, entries.last().value@)
    }
}

pub closed spec fn scope_model(s: Scope) -> SpecScope {
    SpecScope { parent: parent_view(s.parent), bindings: entries_map(s.entries@) }
}

impl View for Environment {
    type V = Seq<SpecScope>;

    closed spec fn view(&self) -> Seq<SpecScope> {
        Seq::new(self.scopes@.len(), |i: int| scope_model(self.scopes@[i]))
    }
}

proof fn lemma_entries_push(entries: Seq<Binding>, b: Binding)
    ensures
        entries_map(entries.push(b)) == entries_map(entries).insert(b.name@, b.value@),
{
    assert(entries.push(b).drop_last() =~= entries);
}

/// The entry that holds `name` and has no entry of that name after it gives
/// the value of `name`.
proof fn lemma_entries_found(entries: Seq<Binding>, name: Seq<char>, i: int)
    requires
        0 <= i < entries.len(),
        entries[i].name@ == name,
        forall|j: int| i < j < entries.len() ==> entries[j].name@ != name,
    ensures
        entries_map(entries).contains_key(name),
        entries_map(entries)[name] == entries[i].value@,
    decreases entries.len(),
{
    if i < entries.len() - 1 {
        lemma_entries_found(entries.drop_last(), name, i);
    }
}

proof fn lemma_entries_absent(entries: Seq<Binding>, name: Seq<char>)
    requires
        forall|j: int| 0 <= j < entries.len() ==> entries[j].name@ != name,
    ensures
        !entries_map(entries).contains_key(name),
    decreases entries.len(),
{
    if entries.len() > 0 {
        lemma_entries_absent(entries.drop_last(), name);
    }
}

/// Replacing the value of the last entry that holds `name` binds `name` anew.
proof fn lemma_entries_replace(entries: Seq<Binding>, i: int, b: Binding)
    requires
        0 <= i < entries.len(),
        entries[i].name@ == b.name@,
        forall|j: int| i < j < entries.len() ==> entries[j].name@ != b.name@,
    ensures
        entries_map(entries.update(i, b)) == entries_map(entries).insert(b.name@, b.value@),
    decreases entries.len(),
{
    let changed = entries.update(i, b);
    if i < entries.len() - 1 {
        lemma_entries_replace(entries.drop_last(), i, b);
        assert(changed.drop_last() =~= entries.drop_last().update(i, b));
        assert(changed.last() == entries.last());
        assert(entries_map(changed) =~= entries_map(entries).insert(b.name@, b.value@));
    } else {
        assert(changed.drop_last() =~= entries.drop_last());
        assert(entries_map(changed) =~= entries_map(entries).insert(b.name@, b.value@));
    }
}

/// The index of the last entry that holds `name`.
fn find(entries: &Vec<Binding>, name: &String) -> (r: Option<usize>)
    ensures
        match r {
            Some(i) => i < entries.len() && entries@[i as int].name@ == name@
                && entries_map(entries@).contains_key(name@) && entries_map(entries@)[name@]
                == entries@[i as int].value@ && forall|j: int|
                i < j < entries.len() ==> entries@[j].name@ != name@,
            None => !entries_map(entries@).contains_key(name@),
        },
{
    let mut i: usize = entries.len();
    while i > 0
        invariant
            i <= entries.len(),
            forall|j: int| i <= j < entries.len() ==> entries@[j].name@ != name@,
        decreases i,
    {
        i -= 1;
        if entries[i].name == *name {
            proof {
                lemma_entries_found(entries@, name@, i as int);
            }
            return Some(i);
        }
    }
    proof {
        lemma_entries_absent(entries@, name@);
    }
    None
}

impl Environment {
    /// An environment without any scope.
    pub fn new() -> (env: Environment)
        ensures
            env@ == Seq::<SpecScope>::empty(),
    {
        let env = Environment { scopes: Vec::new() };
        assert(env@ =~= Seq::<SpecScope>::empty());
        env
    }

    /// How many scopes there are.
    pub fn len(&self) -> (n: usize)
        ensures
            n == self@.len(),
    {
        self.scopes.len()
    }

    /// Adds an empty scope under `parent` and gives its handle. With `None`
    /// the scope is a top-level scope.
    pub fn new_scope(&mut self, parent: Option<ScopeId>) -> (id: ScopeId)
        ensures
            id == old(self)@.len(),
            final(self)@ == with_scope(old(self)@, parent_view(parent)),
    {
        let id: usize = self.scopes.len();
        self.scopes.push(Scope { parent, entries: Vec::new() });
        assert(self@ =~= with_scope(old(self)@, parent_view(parent)));
        id
    }

    /// Removes `scope` if it is the newest scope, and says whether it was.
    pub fn discard(&mut self, scope: ScopeId) -> (removed: bool)
        ensures
            removed == (scope + 1 == old(self)@.len()),
            final(self)@ == without_scope(old(self)@, scope as nat),
    {
        if self.scopes.len() > 0 && scope == self.scopes.len() - 1 {
            self.scopes.pop();
            assert(self@ =~= old(self)@.drop_last());
            true
        } else {
            false
        }
    }

    /// Binds `name` to `value` in `scope` itself, whether or not `name` is
    /// already bound there or in an enclosing scope.
    pub fn define(&mut self, scope: ScopeId, name: String, value: Value)
        ensures
            final(self)@ == define_in(old(self)@, scope as nat, name@, value@),
    {
        if scope < self.scopes.len() {
            let b = Binding { name, value };
            proof {
                lemma_entries_push(self.scopes@[scope as int].entries@, b);
            }
            self.scopes[scope].entries.push(b);
            assert(self@ =~= define_in(old(self)@, scope as nat, name@, value@));
        }
    }

    /// The scope and the entry that the lookup of `name` from `scope` ends at.
    fn locate(&self, scope: ScopeId, name: &String) -> (r: Option<(usize, usize)>)
        ensures
            match r {
                Some((s, i)) => resolve(self@, scope as nat, name@) == Some(s as nat) && s
                    < self.scopes.len() && i < self.scopes@[s as int].entries.len()
                    && self.scopes@[s as int].entries@[i as int].name@ == name@
                    && self@[s as int].bindings[name@] == self.scopes@[s as int].entries@[i as int].value@
                    && forall|j: int|
                    i < j < self.scopes@[s as int].entries.len()
                        ==> self.scopes@[s as int].entries@[j].name@ != name@,
                None => resolve(self@, scope as nat, name@) is None,
            },
    {
        let mut cur: usize = scope;
        loop
            invariant
                resolve(self@, scope as nat, name@) == resolve(self@, cur as nat, name@),
            decreases cur,
        {
            if cur >= self.scopes.len() {
                return None;
            }
            match find(&self.scopes[cur].entries, name) {
                Some(i) => {
                    return Some((cur, i));
                },
                None => {},
            }
            match self.scopes[cur].parent {
                Some(p) => {
                    if p < cur {
                        cur = p;
                    } else {
                        return None;
                    }
                },
                None => {
                    return None;
                },
            }
        }
    }

    /// The value of `name` as seen from `scope`: that of the innermost scope
    /// of the chain that binds it.
    pub fn get(&self, scope: ScopeId, name: &str) -> (r: Result<Value, UndefinedVariable>)
        ensures
            match r {
                Ok(v) => lookup(self@, scope as nat, name@) == Some(v@),
                Err(e) => lookup(self@, scope as nat, name@) is None && e.name@ == name@,
            },
    {
        let key: String = String::from_str(name);
        match self.locate(scope, &key) {
            Some((s, i)) => Ok(self.scopes[s].entries[i].value.clone()),
            None => Err(UndefinedVariable { name: key }),
        }
    }

    /// Assigns `value` to `name` in the innermost scope of the chain from
    /// `scope` that binds it. If none does, nothing changes.
    pub fn assign(&mut self, scope: ScopeId, name: &str, value: Value) -> (r: Result<
        (),
        UndefinedVariable,
    >)
        ensures
            match r {
                Ok(_) => assign_in(old(self)@, scope as nat, name@, value@) == Some(final(self)@),
                Err(e) => {
                    &&& assign_in(old(self)@, scope as nat, name@, value@) is None
                    &&& final(self)@ == old(self)@
                    &&& e.name@ == name@
                },
            },
    {
        let key: String = String::from_str(name);
        match self.locate(scope, &key) {
            Some((s, i)) => {
                let b = Binding { name: key, value };
                proof {
                    lemma_entries_replace(self.scopes@[s as int].entries@, i as int, b);
                }
                self.scopes[s].entries[i] = b;
                assert(self@ =~= define_in(old(self)@, s as nat, name@, value@));
                Ok(())
            },
            None => Err(UndefinedVariable { name: key }),
        }
    }
}

/// What is defined in a scope is what a lookup from that scope gives.
pub proof fn lemma_define_then_get(
    env: Seq<SpecScope>,
    scope: nat,
    name: Seq<char>,
    value: SpecValue,
)
    requires
        scope < env.len(),
    ensures
        lookup(define_in(env, scope, name, value), scope, name) == Some(value),
{
}

/// A lookup sees no scope that is newer than the one it starts from: what is
/// defined in a scope changes no lookup from an older scope, such as its
/// parent.
pub proof fn lemma_define_unseen_from_older(
    env: Seq<SpecScope>,
    scope: nat,
    older: nat,
    name: Seq<char>,
    value: SpecValue,
    sought: Seq<char>,
)
    requires
        older < scope,
    ensures
        resolve(define_in(env, scope, name, value), older, sought) == resolve(env, older, sought),
        lookup(define_in(env, scope, name, value), older, sought) == lookup(env, older, sought),
    decreases older,
{
    if older < env.len() && !env[older as int].bindings.contains_key(sought) {
        if let Some(p) = env[older as int].parent {
            if p < older {
                lemma_define_unseen_from_older(env, scope, p, name, value, sought);
            }
        }
    }
    lemma_resolve_bounds(env, older, sought);
}

/// A lookup ends in the scope it starts from or in an older one, and that
/// scope binds the name.
pub proof fn lemma_resolve_bounds(env: Seq<SpecScope>, scope: nat, name: Seq<char>)
    ensures
        match resolve(env, scope, name) {
            Some(s) => s <= scope && s < env.len() && env[s as int].bindings.contains_key(name),
            None => true,
        },
    decreases scope,
{
    if scope < env.len() && !env[scope as int].bindings.contains_key(name) {
        if let Some(p) = env[scope as int].parent {
            if p < scope {
                lemma_resolve_bounds(env, p, name);
            }
        }
    }
}

/// A definition changes no lookup of another name.
pub proof fn lemma_define_other_name(
    env: Seq<SpecScope>,
    scope: nat,
    from: nat,
    name: Seq<char>,
    value: SpecValue,
    sought: Seq<char>,
)
    requires
        sought != name,
    ensures
        resolve(define_in(env, scope, name, value), from, sought) == resolve(env, from, sought),
        lookup(define_in(env, scope, name, value), from, sought) == lookup(env, from, sought),
    decreases from,
{
    if from < env.len() && !env[from as int].bindings.contains_key(sought) {
        if let Some(p) = env[from as int].parent {
            if p < from {
                lemma_define_other_name(env, scope, p, name, value, sought);
            }
        }
    }
    lemma_resolve_bounds(env, from, sought);
}

/// Binding a name anew in a scope that binds it already changes no scope at
/// which a lookup ends.
pub proof fn lemma_rebind_keeps_resolution(
    env: Seq<SpecScope>,
    holder: nat,
    name: Seq<char>,
    value: SpecValue,
    from: nat,
    sought: Seq<char>,
)
    requires
        holder < env.len(),
        env[holder as int].bindings.contains_key(name),
    ensures
        resolve(define_in(env, holder, name, value), from, sought) == resolve(env, from, sought),
    decreases from,
{
    if from < env.len() && !env[from as int].bindings.contains_key(sought) {
        if let Some(p) = env[from as int].parent {
            if p < from {
                lemma_rebind_keeps_resolution(env, holder, name, value, p, sought);
            }
        }
    }
}

/// An assignment is seen from every scope whose lookup of the name ends at
/// the same scope: from the scope that holds the name, and from each scope
/// under it that does not hide the name.
pub proof fn lemma_assign_seen_by_all(
    env: Seq<SpecScope>,
    from: nat,
    other: nat,
    name: Seq<char>,
    value: SpecValue,
)
    requires
        resolve(env, from, name) is Some,
        resolve(env, other, name) == resolve(env, from, name),
    ensures
        assign_in(env, from, name, value) is Some,
        lookup(assign_in(env, from, name, value)->0, from, name) == Some(value),
        lookup(assign_in(env, from, name, value)->0, other, name) == Some(value),
        lookup(assign_in(env, from, name, value)->0, resolve(env, from, name)->0, name) == Some(
            value,
        ),
{
    let holder = resolve(env, from, name)->0;
    lemma_resolve_bounds(env, from, name);
    lemma_rebind_keeps_resolution(env, holder, name, value, from, name);
    lemma_rebind_keeps_resolution(env, holder, name, value, other, name);
    lemma_rebind_keeps_resolution(env, holder, name, value, holder, name);
}

/// An assignment through a child to a name that its parent holds, and that
/// the child does not hide, changes the parent's binding, and a sibling that
/// does not hide the name sees the new value.
pub proof fn lemma_assign_in_child_updates_parent(
    env: Seq<SpecScope>,
    parent: nat,
    child: nat,
    sibling: nat,
    name: Seq<char>,
    value: SpecValue,
)
    requires
        parent < child < env.len(),
        parent < sibling < env.len(),
        env[child as int].parent == Some(parent),
        env[sibling as int].parent == Some(parent),
        env[parent as int].bindings.contains_key(name),
        !env[child as int].bindings.contains_key(name),
        !env[sibling as int].bindings.contains_key(name),
    ensures
        assign_in(env, child, name, value) == Some(define_in(env, parent, name, value)),
        lookup(define_in(env, parent, name, value), parent, name) == Some(value),
        lookup(define_in(env, parent, name, value), sibling, name) == Some(value),
        lookup(define_in(env, parent, name, value), child, name) == Some(value),
{
    assert(resolve(env, parent, name) == Some(parent));
    assert(resolve(env, child, name) == Some(parent));
    assert(resolve(env, sibling, name) == Some(parent));
    lemma_assign_seen_by_all(env, child, sibling, name, value);
}

/// What is defined in a child is found from the child and not from its
/// parent, unless the parent's chain binds the name itself.
pub proof fn lemma_define_in_child(
    env: Seq<SpecScope>,
    parent: nat,
    child: nat,
    name: Seq<char>,
    value: SpecValue,
)
    requires
        parent < child < env.len(),
        lookup(env, parent, name) is None,
    ensures
        lookup(define_in(env, child, name, value), child, name) == Some(value),
        lookup(define_in(env, child, name, value), parent, name) is None,
{
    lemma_define_unseen_from_older(env, child, parent, name, value, name);
}

} // verus!
