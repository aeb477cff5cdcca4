//! Environments: scopes of bindings, each with the scope that encloses it.
//!
//! All the scopes of one interpreter live in one `Environment` and are named
//! by their index in it. A closure holds the index of the scope that it was
//! made in, so every holder of that index sees the same bindings, and a scope
//! lives as long as the environment does.
use vstd::prelude::*;
use vstd::string::StringExecFns;
use crate::builtins::builtin_table;
use crate::expression::Expression;
use crate::expression::Value;

verus! {

/// The mathematical content of one scope.
pub struct Scope {
    /// The scope that encloses this one, where there is one.
    pub parent: Option<nat>,
    /// What the scope itself binds.
    pub bindings: Map<Seq<char>, Value>,
}

/// The mathematical content of an environment.
pub struct Store {
    /// The scopes, each at its index.
    pub scopes: Seq<Scope>,
    /// How many closures were made so far.
    pub closures: nat,
}

impl Store {
    /// Whether `scope` names a scope of this store.
    pub open spec fn has_scope(self, scope: nat) -> bool {
        scope < self.scopes.len()
    }

    /// Whether the store has a global scope and every scope is enclosed by an
    /// older one.
    pub open spec fn well_formed(self) -> bool {
        &&& self.scopes.len() > 0
        &&& forall|i: int|
            0 <= i < self.scopes.len() ==> match (#[trigger] self.scopes[i]).parent {
                Some(p) => p < i,
                None => true,
            }
    }

    /// The nearest scope, from `scope` outwards, that binds `key`.
    pub open spec fn defining_scope(self, scope: nat, key: Seq<char>) -> Option<nat>
        decreases scope,
    {
        if !self.has_scope(scope) {
            None
        } else if self.scopes[scope as int].bindings.contains_key(key) {
            Some(scope)
        } else {
            match self.scopes[scope as int].parent {
                Some(p) => if p < scope {
                    self.defining_scope(p, key)
                } else {
                    None
                },
                None => None,
            }
        }
    }

    /// What `key` is bound to, seen from `scope`.
    pub open spec fn lookup(self, scope: nat, key: Seq<char>) -> Option<Value> {
        match self.defining_scope(scope, key) {
            Some(d) => Some(self.scopes[d as int].bindings[key]),
            None => None,
        }
    }

    /// The store after `key` is bound to `value` in `scope` itself.
    pub open spec fn define(self, scope: nat, key: Seq<char>, value: Value) -> Store {
        if self.has_scope(scope) {
            Store {
                scopes: self.scopes.update(
                    scope as int,
                    Scope {
                        parent: self.scopes[scope as int].parent,
                        bindings: self.scopes[scope as int].bindings.insert(key, value),
                    },
                ),
                closures: self.closures,
            }
        } else {
            self
        }
    }

    /// The store after the binding of `key` that is seen from `scope` is
    /// changed to `value`; the same store where there is none.
    pub open spec fn reset(self, scope: nat, key: Seq<char>, value: Value) -> Store {
        match self.defining_scope(scope, key) {
            Some(d) => self.define(d, key, value),
            None => self,
        }
    }

    /// The store with one more scope, empty and enclosed by `parent`.
    pub open spec fn extend(self, parent: nat) -> Store {
        Store {
            scopes: self.scopes.push(Scope { parent: Some(parent), bindings: Map::empty() }),
            closures: self.closures,
        }
    }

    /// The store with its first `count` scopes only.
    pub open spec fn truncate(self, count: nat) -> Store {
        Store { scopes: self.scopes.subrange(0, count as int), closures: self.closures }
    }

    /// The store after one more closure was made.
    pub open spec fn count_closure(self) -> Store {
        Store { scopes: self.scopes, closures: self.closures + 1 }
    }
}

/// A scope that binds nothing, with its enclosing scope.
pub open spec fn empty_scope(parent: Option<nat>) -> Scope {
    Scope { parent, bindings: Map::empty() }
}

/// What the global scope binds once the first `n` procedures are bound, each
/// under its name.
pub open spec fn global_bindings(n: nat) -> Map<Seq<char>, Value>
    decreases n,
{
    if n == 0 || n > builtin_table().len() {
        Map::empty()
    } else {
        global_bindings((n - 1) as nat).insert(
            builtin_table()[n - 1].name_text(),
            Value::Proc(builtin_table()[n - 1]),
        )
    }
}

/// The store of a new interpreter: one scope, which binds every procedure
/// under its name, and no closure yet.
pub open spec fn global_store() -> Store {
    Store {
        scopes: seq![
            Scope { parent: None, bindings: global_bindings(builtin_table().len()) },
        ],
        closures: 0,
    }
}

/// Why a binding could not be changed.
#[derive(Clone, Copy, Debug, PartialEq, Eq, Structural)]
pub enum EnvironmentError {
    /// No scope from the given one outwards binds the name.
    UndefinedVariable,
}

/// One scope: its names and, at the same indices, what they are bound to. No
/// name stands twice, so the two vectors are a finite map from names to
/// values, which `bindings` gives; a name is found by comparing it with every
/// name in turn.
pub struct Frame {
    parent: Option<usize>,
    names: Vec<String>,
    values: Vec<Expression>,
}

impl Frame {
    /// Whether every name stands once and has its value.
    pub closed spec fn wf(&self) -> bool {
        &&& self.names@.len() == self.values@.len()
        &&& forall|i: int, j: int|
            0 <= i < j < self.names@.len() ==> self.names@[i]@ != self.names@[j]@
    }

    /// Whether `key` stands at index `i`.
    pub closed spec fn holds_at(&self, key: Seq<char>, i: int) -> bool {
        0 <= i < self.names@.len() && self.names@[i]@ == key
    }

    /// What the scope binds.
    pub closed spec fn bindings(&self) -> Map<Seq<char>, Value> {
        Map::new(
            |key: Seq<char>| exists|i: int| self.holds_at(key, i),
            |key: Seq<char>| self.values@[choose|i: int| self.holds_at(key, i)]@,
        )
    }

    /// The content of the scope.
    pub closed spec fn scope(&self) -> Scope {
        Scope {
            parent: match self.parent {
                Some(p) => Some(p as nat),
                None => None,
            },
            bindings: self.bindings(),
        }
    }

    /// The index at which `key` stands.
    fn find(&self, key: &str) -> (r: Option<usize>)
        requires
            self.wf(),
        ensures
            match r {
                Some(i) => self.holds_at(key@, i as int) && self.bindings().contains_key(key@)
                    && self.bindings()[key@] == self.values@[i as int]@,
                None => !self.bindings().contains_key(key@),
            },
    {
        let mut i: usize = 0;
        while i < self.names.len()
            invariant
                self.wf(),
                i <= self.names@.len(),
                forall|j: int| 0 <= j < i ==> self.names@[j]@ != key@,
            decreases self.names@.len() - i,
        {
            if crate::text::same_text(self.names[i].as_str(), key) {
                proof {
                    assert(self.holds_at(key@, i as int));
                    let c = choose|c: int| self.holds_at(key@, c);
                    if c < i {
                        assert(self.names@[c]@ != self.names@[i as int]@);
                    } else if i < c {
                        assert(self.names@[i as int]@ != self.names@[c]@);
                    }
                }
                return Some(i);
            }
            i = i + 1;
        }
        None
    }
}

impl Frame {
    /// Binds `key` to `value`, in place of what it was bound to.
    fn bind(&mut self, key: String, value: Expression)
        requires
            old(self).wf(),
        ensures
            final(self).wf(),
            final(self).parent == old(self).parent,
            final(self).bindings() == old(self).bindings().insert(key@, value@),
    {
        match self.find(key.as_str()) {
            Some(i) => {
                self.values.set(i, value);
                proof {
                    assert forall|k: Seq<char>, c: int| self.holds_at(k, c) == old(self).holds_at(k, c) by {}
                    assert forall|k: Seq<char>| #[trigger] self.bindings().contains_key(k) implies self.bindings()[k] == old(self).bindings().insert(key@, value@)[k] by {
                        let c = choose|c: int| self.holds_at(k, c);
                        assert(self.holds_at(k, c));
                        let d = choose|d: int| old(self).holds_at(k, d);
                        assert(old(self).holds_at(k, c));
                        assert(old(self).holds_at(k, d));
                        if c < d {
                            assert(self.names@[c]@ != self.names@[d]@);
                        } else if d < c {
                            assert(self.names@[d]@ != self.names@[c]@);
                        }
                        if k == key@ {
                            if c < i {
                                assert(self.names@[c]@ != self.names@[i as int]@);
                            } else if i < c {
                                assert(self.names@[i as int]@ != self.names@[c]@);
                            }
                        }
                    }
                    assert(self.bindings() =~= old(self).bindings().insert(key@, value@));
                }
            },
            None => {
                let ghost n = self.names@.len() as int;
                self.names.push(key);
                self.values.push(value);
                proof {
                    assert forall|k: Seq<char>, c: int| self.holds_at(k, c) == (old(self).holds_at(k, c) || (c == n && k == key@)) by {}
                    assert forall|c: int| 0 <= c < n implies self.names@[c]@ != key@ by {
                        if self.names@[c]@ == key@ {
                            assert(old(self).holds_at(key@, c));
                        }
                    }
                    assert(self.holds_at(key@, n));
                    assert forall|k: Seq<char>| #[trigger] self.bindings().contains_key(k) implies self.bindings()[k] == old(self).bindings().insert(key@, value@)[k] by {
                        let c = choose|c: int| self.holds_at(k, c);
                        assert(self.holds_at(k, c));
                        if k != key@ {
                            let d = choose|d: int| old(self).holds_at(k, d);
                            assert(old(self).holds_at(k, c));
                            assert(old(self).holds_at(k, d));
                            if c < d {
                                assert(self.names@[c]@ != self.names@[d]@);
                            } else if d < c {
                                assert(self.names@[d]@ != self.names@[c]@);
                            }
                        }
                    }
                    assert forall|k: Seq<char>| old(self).bindings().insert(key@, value@).contains_key(k) implies #[trigger] self.bindings().contains_key(k) by {
                        if k == key@ {
                            assert(self.holds_at(k, n));
                        } else {
                            let d = choose|d: int| old(self).holds_at(k, d);
                            assert(old(self).holds_at(k, d));
                            assert(self.holds_at(k, d));
                        }
                    }
                    assert(self.bindings() =~= old(self).bindings().insert(key@, value@));
                }
            },
        }
    }
}

/// The scopes of one interpreter.
pub struct Environment {
    frames: Vec<Frame>,
    closures: u64,
}

impl View for Environment {
    type V = Store;

    closed spec fn view(&self) -> Store {
        Store {
            scopes: Seq::new(self.frames@.len(), |i: int| self.frames@[i].scope()),
            closures: self.closures as nat,
        }
    }
}

impl Environment {
    /// Whether the environment is in order: every scope is, and each is
    /// enclosed by an older one.
    pub closed spec fn wf(&self) -> bool {
        &&& self.frames@.len() > 0
        &&& forall|i: int| 0 <= i < self.frames@.len() ==> (#[trigger] self.frames@[i]).wf()
        &&& forall|i: int|
            0 <= i < self.frames@.len() ==> match (#[trigger] self.frames@[i]).parent {
                Some(p) => p < i,
                None => true,
            }
    }

    /// An environment in order has a store in order.
    pub proof fn lemma_wf(&self)
        requires
            self.wf(),
        ensures
            self@.well_formed(),
            self@.closures <= u64::MAX,
    {
        assert forall|i: int| 0 <= i < self@.scopes.len() implies match (#[trigger] self@.scopes[i]).parent {
            Some(p) => p < i,
            None => true,
        } by {
            assert(self.frames@[i].wf());
        }
    }

    /// An environment with one scope, the global one, which binds nothing.
    pub fn empty() -> (env: Environment)
        ensures
            env.wf(),
            env@ == (Store { scopes: seq![empty_scope(None)], closures: 0 }),
    {
        let frame = Frame { parent: None, names: Vec::new(), values: Vec::new() };
        let mut frames: Vec<Frame> = Vec::new();
        frames.push(frame);
        let env = Environment { frames, closures: 0 };
        assert(env.frames@[0].bindings() =~= Map::<Seq<char>, Value>::empty());
        assert(env@.scopes =~= seq![empty_scope(None)]);
        env
    }

    /// The environment of a new interpreter: one scope, the global one, which
    /// binds every procedure of the language under its name.
    pub fn new_global_environment() -> (env: Environment)
        ensures
            env.wf(),
            env@ == global_store(),
    {
        let mut env = Environment::empty();
        let table = crate::builtins::builtins();
        let mut i: usize = 0;
        while i < table.len()
            invariant
                i <= table@.len(),
                table@.len() == builtin_table().len(),
                forall|j: int|
                    0 <= j < table@.len() ==> (#[trigger] table@[j]).1 == builtin_table()[j]
                        && table@[j].0@ == builtin_table()[j].name_text(),
                env.wf(),
                env@ == (Store {
                    scopes: seq![Scope { parent: None, bindings: global_bindings(i as nat) }],
                    closures: 0,
                }),
            decreases table@.len() - i,
        {
            let ghost before = env@;
            let name = String::from_str(table[i].0.as_str());
            let builtin = table[i].1;
            env.define(0, name, Expression::Proc(builtin));
            i = i + 1;
            assert(env@.scopes =~= seq![
                Scope { parent: None, bindings: global_bindings(i as nat) },
            ]);
        }
        env
    }

    /// The global scope.
    pub fn global(&self) -> (scope: usize)
        ensures
            scope == 0,
    {
        0
    }

    /// How many scopes there are.
    pub fn scope_count(&self) -> (n: usize)
        ensures
            n == self@.scopes.len(),
    {
        self.frames.len()
    }

    /// Whether `scope` names a scope of this environment.
    pub fn has_scope(&self, scope: usize) -> (r: bool)
        ensures
            r == self@.has_scope(scope as nat),
    {
        scope < self.frames.len()
    }

    /// How many closures were made so far.
    pub fn closure_count(&self) -> (n: u64)
        ensures
            n == self@.closures,
    {
        self.closures
    }

    /// Makes a new scope, empty and enclosed by `enclosure`, and returns it.
    pub fn new(&mut self, enclosure: usize) -> (scope: usize)
        requires
            old(self).wf(),
            old(self)@.has_scope(enclosure as nat),
        ensures
            final(self).wf(),
            final(self)@ == old(self)@.extend(enclosure as nat),
            scope == old(self)@.scopes.len(),
    {
        let scope = self.frames.len();
        let frame = Frame { parent: Some(enclosure), names: Vec::new(), values: Vec::new() };
        assert(frame.bindings() =~= Map::<Seq<char>, Value>::empty());
        self.frames.push(frame);
        assert(self@.scopes =~= old(self)@.extend(enclosure as nat).scopes);
        scope
    }

    /// Discards the scopes from index `count` on. No closure and no scope
    /// that is kept may hold one of them.
    pub(crate) fn discard_from(&mut self, count: usize)
        requires
            old(self).wf(),
            0 < count <= old(self)@.scopes.len(),
        ensures
            final(self).wf(),
            final(self)@ == old(self)@.truncate(count as nat),
    {
        self.frames.truncate(count);
        assert(self@.scopes =~= old(self)@.truncate(count as nat).scopes);
        assert forall|i: int| 0 <= i < self.frames@.len() implies (#[trigger] self.frames@[i]).wf() by {
            assert(old(self).frames@[i].wf());
        }
    }

    /// The nearest scope, from `scope` outwards, that binds `key`.
    fn find_scope(&self, scope: usize, key: &str) -> (r: Option<(usize, usize)>)
        requires
            self.wf(),
        ensures
            match r {
                Some((d, i)) => self@.defining_scope(scope as nat, key@) == Some(d as nat)
                    && d < self.frames@.len() && self.frames@[d as int].holds_at(key@, i as int)
                    && self@.scopes[d as int].bindings[key@] == self.frames@[d as int].values@[i as int]@,
                None => self@.defining_scope(scope as nat, key@).is_none(),
            },
        decreases scope,
    {
        if scope >= self.frames.len() {
            return None;
        }
        let frame = &self.frames[scope];
        assert(frame.wf());
        match frame.find(key) {
            Some(i) => Some((scope, i)),
            None => match frame.parent {
                Some(p) => self.find_scope(p, key),
                None => None,
            },
        }
    }

    /// What `key` is bound to, seen from `scope`: the binding of the nearest
    /// scope, from `scope` outwards, that has one.
    pub fn lookup(&self, scope: usize, key: &str) -> (r: Option<Expression>)
        requires
            self.wf(),
        ensures
            match r {
                Some(value) => self@.lookup(scope as nat, key@) == Some(value@),
                None => self@.lookup(scope as nat, key@).is_none(),
            },
    {
        match self.find_scope(scope, key) {
            Some((d, i)) => {
                assert(self.frames@[d as int].wf());
                Some(self.frames[d].values[i].copy())
            },
            None => None,
        }
    }

    /// Binds `key` to `value` in `scope` itself, whatever the enclosing scopes
    /// bind.
    pub fn define(&mut self, scope: usize, key: String, value: Expression)
        requires
            old(self).wf(),
            old(self)@.has_scope(scope as nat),
        ensures
            final(self).wf(),
            final(self)@ == old(self)@.define(scope as nat, key@, value@),
    {
        assert(self.frames@[scope as int].wf());
        self.frames[scope].bind(key, value);
        proof {
            assert forall|i: int| 0 <= i < self.frames@.len() implies (#[trigger] self.frames@[i]).wf() by {
                if i != scope {
                    assert(old(self).frames@[i].wf());
                }
            }
            assert forall|i: int| 0 <= i < self.frames@.len() implies match (#[trigger] self.frames@[i]).parent {
                Some(p) => p < i,
                None => true,
            } by {
                assert(old(self).frames@[i].wf());
            }
            assert(self@.scopes =~= old(self)@.define(scope as nat, key@, value@).scopes);
        }
    }

    /// Changes the binding of `key` that is seen from `scope` to `value`, in
    /// the scope that holds it. Where no scope binds `key`, nothing changes
    /// and the error is returned.
    pub fn reset(&mut self, scope: usize, key: String, value: Expression) -> (r: Result<
        (),
        EnvironmentError,
    >)
        requires
            old(self).wf(),
        ensures
            final(self).wf(),
            final(self)@ == old(self)@.reset(scope as nat, key@, value@),
            r is Ok == old(self)@.lookup(scope as nat, key@).is_some(),
    {
        match self.find_scope(scope, key.as_str()) {
            Some((d, _)) => {
                self.define(d, key, value);
                Ok(())
            },
            None => Err(EnvironmentError::UndefinedVariable),
        }
    }

    /// Counts one more closure and returns its number; `None`, and no change,
    /// where the numbers have run out.
    pub fn new_identity(&mut self) -> (r: Option<u64>)
        requires
            old(self).wf(),
        ensures
            final(self).wf(),
            match r {
                Some(identity) => identity == old(self)@.closures && old(self)@.closures
                    < u64::MAX && final(self)@ == old(self)@.count_closure(),
                None => old(self)@.closures == u64::MAX && final(self)@ == old(self)@,
            },
    {
        if self.closures == u64::MAX {
            None
        } else {
            let identity = self.closures;
            self.closures = identity + 1;
            assert(self@.scopes =~= old(self)@.scopes);
            Some(identity)
        }
    }

    /// What `key` is bound to in the scopes that enclose `scope`.
    pub fn check_enclosure(&self, scope: usize, key: &str) -> (r: Option<Expression>)
        requires
            self.wf(),
            self@.has_scope(scope as nat),
        ensures
            match self@.scopes[scope as int].parent {
                Some(p) => match r {
                    Some(value) => self@.lookup(p, key@) == Some(value@),
                    None => self@.lookup(p, key@).is_none(),
                },
                None => r.is_none(),
            },
    {
        match self.frames[scope].parent {
            Some(p) => self.lookup(p, key),
            None => None,
        }
    }

    /// Whether a binding of `key` is seen from `scope`.
    pub fn is_defined(&self, scope: usize, key: &str) -> (r: bool)
        requires
            self.wf(),
        ensures
            r == self@.lookup(scope as nat, key@).is_some(),
    {
        self.find_scope(scope, key).is_some()
    }
}

} // verus!
