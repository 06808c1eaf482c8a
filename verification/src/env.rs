//! The scopes of evaluation. All scopes live in one store and are known by
//! their number; a closure keeps the number of the scope it was made in.

use vstd::prelude::*;
use crate::dictionary::Dictionary;
use crate::object::{Object, ObjectView};

verus! {

/// One scope: its bindings, and the number of the scope around it.
#[derive(Debug)]
pub struct Scope {
    bindings: Dictionary<Object>,
    outer: Option<usize>,
}

/// The mathematical value of a scope.
pub ghost struct ScopeView {
    pub store: Map<Seq<char>, ObjectView>,
    pub outer: Option<nat>,
}

impl Scope {
    /// The invariant of a scope: that of its dictionary.
    pub closed spec fn wf(&self) -> bool {
        self.bindings.wf()
    }

    /// The bindings of this scope.
    pub closed spec fn store(&self) -> Map<Seq<char>, ObjectView> {
        self.bindings.map().map_values(|o: Object| o@)
    }

    /// The number of the scope around this one.
    pub closed spec fn outer(&self) -> Option<nat> {
        match self.outer {
            Some(o) => Some(o as nat),
            None => None,
        }
    }

    fn new(outer: Option<usize>) -> (r: Scope)
        ensures
            r.wf(),
            r@ == (ScopeView {
                store: Map::empty(),
                outer: match outer {
                    Some(o) => Some(o as nat),
                    None => None,
                },
            }),
    {
        let r = Scope { bindings: Dictionary::new(), outer };
        assert(r.store() =~= Map::empty());
        r
    }

    fn get(&self, key: &String) -> (r: Option<Object>)
        requires
            self.wf(),
        ensures
            match r {
                Some(o) => self@.store.contains_key(key@) && self@.store[key@] == o@,
                None => !self@.store.contains_key(key@),
            },
    {
        match self.bindings.get(key) {
            Some(o) => Some(o.clone()),
            None => None,
        }
    }

    fn set(&mut self, key: String, val: Object)
        requires
            old(self).wf(),
        ensures
            final(self).wf(),
            final(self)@ == (ScopeView {
                store: old(self)@.store.insert(key@, val@),
                outer: old(self)@.outer,
            }),
    {
        self.bindings.set(key, val);
        assert(self.store() =~= old(self).store().insert(key@, val@));
    }
}

impl View for Scope {
    type V = ScopeView;

    open spec fn view(&self) -> ScopeView {
        ScopeView { store: self.store(), outer: self.outer() }
    }
}

/// The value bound to `key` in the scope `scope` or, if that scope does not
/// bind it, in the nearest of the scopes around it that does.
pub open spec fn lookup(scopes: Seq<ScopeView>, scope: nat, key: Seq<char>) -> Option<ObjectView>
    decreases scope,
{
    if scope >= scopes.len() {
        None
    } else if scopes[scope as int].store.contains_key(key) {
        Some(scopes[scope as int].store[key])
    } else {
        match scopes[scope as int].outer {
            Some(outer) => if outer < scope {
                lookup(scopes, outer, key)
            } else {
                None
            },
            None => None,
        }
    }
}

/// The scopes with `key` bound to `val` in the scope `scope`.
pub open spec fn bind(scopes: Seq<ScopeView>, scope: nat, key: Seq<char>, val: ObjectView) -> Seq<
    ScopeView,
> {
    if scope < scopes.len() {
        scopes.update(
            scope as int,
            ScopeView {
                store: scopes[scope as int].store.insert(key, val),
                outer: scopes[scope as int].outer,
            },
        )
    } else {
        scopes
    }
}

/// The scopes with one more, empty, inside the scope `older`.
pub open spec fn extended(scopes: Seq<ScopeView>, older: nat) -> Seq<ScopeView> {
    scopes.push(ScopeView { store: Map::empty(), outer: Some(older) })
}

/// Whether every scope lies inside one that was made before it.
pub open spec fn scopes_nest(scopes: Seq<ScopeView>) -> bool {
    forall|i: int|
        0 <= i < scopes.len() ==> match (#[trigger] scopes[i]).outer {
            Some(outer) => outer < i,
            None => true,
        }
}

/// The store of all scopes of one evaluation.
#[derive(Debug)]
pub struct Env {
    scopes: Vec<Scope>,
}

impl View for Env {
    type V = Seq<ScopeView>;

    closed spec fn view(&self) -> Seq<ScopeView> {
        Seq::new(self.scopes.len() as nat, |i: int| self.scopes[i]@)
    }
}

impl Env {
    /// The invariant of the store: each scope is well formed and lies inside
    /// an older one.
    pub closed spec fn wf(&self) -> bool {
        &&& forall|i: int| 0 <= i < self.scopes.len() ==> (#[trigger] self.scopes[i]).wf()
        &&& scopes_nest(self@)
    }

    /// A store with one scope, the outermost, which has the number 0.
    pub fn new() -> (r: Env)
        ensures
            r.wf(),
            r@ == seq![ScopeView { store: Map::empty(), outer: None }],
    {
        let mut scopes: Vec<Scope> = Vec::new();
        scopes.push(Scope::new(None));
        let r = Env { scopes };
        assert(r@ =~= seq![ScopeView { store: Map::empty(), outer: None }]);
        r
    }

    /// The number of scopes.
    pub fn len(&self) -> (r: usize)
        ensures
            r == self@.len(),
    {
        self.scopes.len()
    }

    /// Makes a new, empty scope inside the scope `older` and returns its
    /// number.
    pub fn extend(&mut self, older: usize) -> (r: usize)
        requires
            old(self).wf(),
            older < old(self)@.len(),
        ensures
            final(self).wf(),
            final(self)@ == extended(old(self)@, older as nat),
            r == old(self)@.len(),
    {
        let id = self.scopes.len();
        self.scopes.push(Scope::new(Some(older)));
        assert(self@ =~= extended(old(self)@, older as nat));
        id
    }

    /// The value of `key` as seen from the scope `scope`.
    pub fn get(&self, scope: usize, key: &String) -> (r: Option<Object>)
        requires
            self.wf(),
            scope < self@.len(),
        ensures
            match r {
                Some(o) => lookup(self@, scope as nat, key@) == Some(o@),
                None => lookup(self@, scope as nat, key@) is None,
            },
    {
        let mut current = scope;
        loop
            invariant
                self.wf(),
                current < self@.len(),
                lookup(self@, current as nat, key@) == lookup(self@, scope as nat, key@),
            decreases current,
        {
            let found = self.scopes[current].get(key);
            if found.is_some() {
                return found;
            }
            match self.scopes[current].outer {
                Some(outer) => {
                    assert(self@[current as int].outer == Some(outer as nat));
                    current = outer;
                },
                None => {
                    return None;
                },
            }
        }
    }

    /// Binds `key` to `val` in the scope `scope`.
    pub fn set(&mut self, scope: usize, key: String, val: Object)
        requires
            old(self).wf(),
            scope < old(self)@.len(),
        ensures
            final(self).wf(),
            final(self)@ == bind(old(self)@, scope as nat, key@, val@),
    {
        let mut target = Scope::new(None);
        core::mem::swap(&mut target, &mut self.scopes[scope]);
        target.set(key, val);
        core::mem::swap(&mut target, &mut self.scopes[scope]);
        assert(self@ =~= bind(old(self)@, scope as nat, key@, val@));
    }
}

} // verus!
