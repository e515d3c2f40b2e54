//! The environment: scopes that bind names to values, each with an optional
//! enclosing scope. The scopes live in one store and are named by their
//! index in it, so that closures can share a scope and outlive the call
//! that made it.

use vstd::prelude::*;
use crate::object::{ObjView, Object};

verus! {

/// One name bound to one value.
#[derive(Debug, PartialEq)]
struct Binding {
    name: String,
    value: Object,
}

/// One scope: its bindings, the later taking precedence, and the index of
/// the scope around it.
#[derive(Debug, PartialEq)]
struct Scope {
    bindings: Vec<Binding>,
    outer: Option<usize>,
}

/// A store of scopes. Scope 0 is the root.
#[derive(Debug, PartialEq)]
pub struct Environment {
    scopes: Vec<Scope>,
}

/// The mathematical value of a scope: a map from names to values and the
/// index of the enclosing scope.
pub struct ScopeView {
    pub store: Map<Seq<char>, ObjView>,
    pub outer: Option<nat>,
}

/// The value that `name` resolves to from `scope`: that of the nearest
/// scope, from `scope` outwards, that binds it. A scope is enclosed only by
/// a scope made before it.
pub open spec fn lookup(env: Seq<ScopeView>, scope: nat, name: Seq<char>) -> Option<ObjView>
    decreases scope,
{
    if scope >= env.len() {
        None
    } else if env[scope as int].store.contains_key(name) {
        Some(env[scope as int].store[name])
    } else {
        match env[scope as int].outer {
            Some(outer) => if outer < scope {
                lookup(env, outer, name)
            } else {
                None
            },
            None => None,
        }
    }
}

/// The environment after binding `name` to `value` in `scope` and in no
/// other scope. Nothing changes where there is no such scope.
pub open spec fn bind(env: Seq<ScopeView>, scope: nat, name: Seq<char>, value: ObjView) -> Seq<
    ScopeView,
> {
    if scope < env.len() {
        env.update(
            scope as int,
            ScopeView {
                store: env[scope as int].store.insert(name, value),
                outer: env[scope as int].outer,
            },
        )
    } else {
        env
    }
}

/// The environment with one more scope, empty and enclosed by `outer`.
pub open spec fn extend(env: Seq<ScopeView>, outer: nat) -> Seq<ScopeView> {
    env.push(ScopeView { store: Map::empty(), outer: Some(outer) })
}

/// The environment that holds the empty root scope alone.
pub open spec fn root_only() -> Seq<ScopeView> {
    seq![ScopeView { store: Map::empty(), outer: None }]
}

/// The model of the outcome of a lookup.
pub open spec fn found_view(found: Option<Object>) -> Option<ObjView> {
    match found {
        Some(value) => Some(value@),
        None => None,
    }
}

/// The map that a list of bindings stands for: a later binding of a name
/// overrides an earlier one.
spec fn store_of(bindings: Seq<Binding>) -> Map<Seq<char>, ObjView>
    decreases bindings.len(),
{
    if bindings.len() == 0 {
        Map::empty()
    } else {
        store_of(bindings.drop_last()).insert(bindings.last().name@, bindings.last().value@)
    }
}

/// The model of a scope.
spec fn scope_view(scope: Scope) -> ScopeView {
    ScopeView {
        store: store_of(scope.bindings@),
        outer: match scope.outer {
            Some(outer) => Some(outer as nat),
            None => None,
        },
    }
}

/// A name is bound exactly when some binding holds it, and then to the
/// value of the last such binding.
proof fn lemma_store_last_match(bindings: Seq<Binding>, name: Seq<char>, i: int)
    requires
        0 <= i < bindings.len(),
        bindings[i].name@ == name,
        forall|j: int| i < j < bindings.len() ==> bindings[j].name@ != name,
    ensures
        store_of(bindings).contains_key(name),
        store_of(bindings)[name] == bindings[i].value@,
    decreases bindings.len(),
{
    if i < bindings.len() - 1 {
        lemma_store_last_match(bindings.drop_last(), name, i);
    }
}

/// A name that no binding holds is not bound.
proof fn lemma_store_absent(bindings: Seq<Binding>, name: Seq<char>)
    requires
        forall|j: int| 0 <= j < bindings.len() ==> bindings[j].name@ != name,
    ensures
        !store_of(bindings).contains_key(name),
    decreases bindings.len(),
{
    if bindings.len() > 0 {
        lemma_store_absent(bindings.drop_last(), name);
    }
}

/// Replacing the value of the last binding of a name binds the name to the
/// new value and changes nothing else.
proof fn lemma_store_replace(bindings: Seq<Binding>, i: int, replaced: Binding)
    requires
        0 <= i < bindings.len(),
        replaced.name@ == bindings[i].name@,
        forall|j: int| i < j < bindings.len() ==> bindings[j].name@ != replaced.name@,
    ensures
        store_of(bindings.update(i, replaced)) == store_of(bindings).insert(
            replaced.name@,
            replaced.value@,
        ),
    decreases bindings.len(),
{
    let last = bindings.len() - 1;
    if i == last {
        assert(bindings.update(i, replaced).drop_last() =~= bindings.drop_last());
        assert(store_of(bindings.update(i, replaced)) =~= store_of(bindings).insert(
            replaced.name@,
            replaced.value@,
        ));
    } else {
        lemma_store_replace(bindings.drop_last(), i, replaced);
        assert(bindings.update(i, replaced).drop_last() =~= bindings.drop_last().update(
            i,
            replaced,
        ));
        assert(store_of(bindings.update(i, replaced)) =~= store_of(bindings).insert(
            replaced.name@,
            replaced.value@,
        ));
    }
}

impl Scope {
    /// The index of the last binding of `name`, if there is one.
    fn find(&self, name: &String) -> (res: Option<usize>)
        ensures
            match res {
                Some(i) => {
                    &&& i < self.bindings.len()
                    &&& self.bindings@[i as int].name@ == name@
                    &&& forall|j: int|
                        i < j < self.bindings.len() ==> self.bindings@[j].name@ != name@
                    &&& store_of(self.bindings@).contains_key(name@)
                    &&& store_of(self.bindings@)[name@] == self.bindings@[i as int].value@
                },
                None => !store_of(self.bindings@).contains_key(name@),
            },
    {
        let mut i: usize = self.bindings.len();
        while i > 0
            invariant
                i <= self.bindings.len(),
                forall|j: int| i <= j < self.bindings.len() ==> self.bindings@[j].name@ != name@,
            decreases i,
        {
            i = i - 1;
            if self.bindings[i].name == *name {
                proof {
                    lemma_store_last_match(self.bindings@, name@, i as int);
                }
                return Some(i);
            }
        }
        proof {
            lemma_store_absent(self.bindings@, name@);
        }
        None
    }

    /// Binds `name` to `value` in this scope.
    fn set(&mut self, name: String, value: Object)
        ensures
            final(self).outer == old(self).outer,
            store_of(final(self).bindings@) == store_of(old(self).bindings@).insert(
                name@,
                value@,
            ),
    {
        match self.find(&name) {
            Some(i) => {
                let replaced = Binding { name, value };
                proof {
                    lemma_store_replace(self.bindings@, i as int, replaced);
                }
                self.bindings[i] = replaced;
            },
            None => {
                let added = Binding { name, value };
                proof {
                    assert(self.bindings@.push(added).drop_last() =~= self.bindings@);
                }
                self.bindings.push(added);
            },
        }
    }
}

impl View for Environment {
    type V = Seq<ScopeView>;

    closed spec fn view(&self) -> Seq<ScopeView> {
        Seq::new(self.scopes@.len(), |i: int| scope_view(self.scopes@[i]))
    }
}

impl Environment {
    /// A new environment that holds the empty root scope, scope 0.
    pub fn new_rc() -> (env: Environment)
        ensures
            env@ == root_only(),
    {
        let mut scopes: Vec<Scope> = Vec::new();
        scopes.push(Scope { bindings: Vec::new(), outer: None });
        let env = Environment { scopes };
        proof {
            assert(store_of(env.scopes@[0].bindings@) =~= Map::<Seq<char>, ObjView>::empty());
            assert(env@ =~= root_only());
        }
        env
    }

    /// The number of scopes.
    pub fn size(&self) -> (n: usize)
        ensures
            n == self@.len(),
    {
        self.scopes.len()
    }

    /// Adds an empty scope enclosed by `outer` and gives its index.
    pub fn with_outer(&mut self, outer: usize) -> (scope: usize)
        ensures
            final(self)@ == extend(old(self)@, outer as nat),
            scope == old(self)@.len(),
    {
        let scope = self.scopes.len();
        self.scopes.push(Scope { bindings: Vec::new(), outer: Some(outer) });
        proof {
            assert(store_of(self.scopes@[scope as int].bindings@) =~= Map::<
                Seq<char>,
                ObjView,
            >::empty());
            assert(self@ =~= extend(old(self)@, outer as nat));
        }
        scope
    }

    /// The value that `name` resolves to from `scope`, or `None` where no
    /// scope from `scope` outwards binds it.
    pub fn get(&self, scope: usize, name: &String) -> (res: Option<Object>)
        ensures
            found_view(res) == lookup(self@, scope as nat, name@),
    {
        let mut current = scope;
        loop
            invariant
                lookup(self@, current as nat, name@) == lookup(self@, scope as nat, name@),
            decreases current,
        {
            if current >= self.scopes.len() {
                return None;
            }
            let found = self.scopes[current].find(name);
            match found {
                Some(i) => {
                    return Some(self.scopes[current].bindings[i].value.clone());
                },
                None => {},
            }
            match self.scopes[current].outer {
                Some(outer) => {
                    if outer < current {
                        current = outer;
                    } else {
                        return None;
                    }
                },
                None => {
                    return None;
                },
            }
        }
    }

    /// Binds `name` to `value` in `scope`, and in no enclosing scope, and
    /// gives the value back. Nothing is bound where there is no such scope.
    pub fn set(&mut self, scope: usize, name: String, value: Object) -> (res: Object)
        ensures
            final(self)@ == bind(old(self)@, scope as nat, name@, value@),
            res@ == value@,
    {
        if scope < self.scopes.len() {
            let res = value.clone();
            self.scopes[scope].set(name, value);
            proof {
                assert(self@ =~= bind(old(self)@, scope as nat, name@, value@));
            }
            res
        } else {
            value
        }
    }
}

} // verus!
