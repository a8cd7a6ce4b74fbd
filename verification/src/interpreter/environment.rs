use std::collections::HashMap;
use vstd::prelude::*;

use super::values::{not_callable_message, undefined_message, RuntimeError};

verus! {

broadcast use vstd::std_specs::hash::group_hash_axioms;

/// The variables of one scope, each with its value, and the scope it is
/// nested in.
struct Scope<V> {
    vars: Vec<(String, V)>,
    enclosing: Option<usize>,
}

/// What one scope holds: its variables and the index of the enclosing scope.
pub struct ScopeView<V> {
    pub vars: Map<Seq<char>, V>,
    pub enclosing: Option<usize>,
}

/// Law: right after `name` is defined in scope `env`, reading `name` from
/// `env` gives the value just defined.
pub proof fn law_read_after_define<V>(s: Seq<ScopeView<V>>, env: int, name: Seq<char>, value: V)
    requires
        0 <= env < s.len(),
    ensures
        lookup(bind(s, env, name, value), env, name) == Some(value),
{
}

/// Law: defining `name` changes what no read of another name finds.
pub proof fn law_define_keeps_other_names<V>(
    s: Seq<ScopeView<V>>,
    env: int,
    name: Seq<char>,
    value: V,
    from: int,
    other: Seq<char>,
)
    requires
        0 <= env < s.len(),
        other != name,
    ensures
        lookup(bind(s, env, name, value), from, other) == lookup(s, from, other),
    decreases from,
{
    let t = bind(s, env, name, value);
    if 0 <= from < s.len() {
        assert(t[from].enclosing == s[from].enclosing);
        assert(t[from].vars.contains_key(other) == s[from].vars.contains_key(other));
        if s[from].vars.contains_key(other) {
            assert(t[from].vars[other] == s[from].vars[other]);
        } else {
            if let Some(p) = s[from].enclosing {
                if p < from {
                    law_define_keeps_other_names(s, env, name, value, p as int, other);
                }
            }
        }
    }
}

/// Law: a definition in a scope is not seen from the scopes opened before
/// it, the scopes it is nested in among them.
pub proof fn law_inner_definition_hidden<V>(
    s: Seq<ScopeView<V>>,
    env: int,
    name: Seq<char>,
    value: V,
    from: int,
    any: Seq<char>,
)
    requires
        0 <= env < s.len(),
        from < env,
    ensures
        lookup(bind(s, env, name, value), from, any) == lookup(s, from, any),
    decreases from,
{
    if 0 <= from {
        if let Some(p) = s[from].enclosing {
            if p < from {
                law_inner_definition_hidden(s, env, name, value, p as int, any);
            }
        }
    }
}

/// Law: once an assignment to `name` from `env` has succeeded, reading
/// `name` from `env` gives the value assigned.
pub proof fn law_read_after_assign<V>(s: Seq<ScopeView<V>>, env: int, name: Seq<char>, value: V)
    requires
        defining_scope(s, env, name) is Some,
    ensures
        lookup(bind(s, defining_scope(s, env, name)->0, name, value), env, name) == Some(value),
    decreases env,
{
    let k = defining_scope(s, env, name)->0;
    lemma_defining_scope_in_range(s, env, name);
    if !s[env].vars.contains_key(name) {
        let p = s[env].enclosing->0;
        law_read_after_assign(s, p as int, name, value);
    }
}

/// Law: a scope just opened, still empty, reads every name as its enclosing
/// scope does.
pub proof fn law_fresh_scope_reads_enclosing<V>(s: Seq<ScopeView<V>>, parent: usize, name: Seq<char>)
    requires
        parent < s.len(),
    ensures
        lookup(s.push(ScopeView { vars: Map::empty(), enclosing: Some(parent) }), s.len() as int, name)
            == lookup(s, parent as int, name),
{
    let t = s.push(ScopeView { vars: Map::empty(), enclosing: Some(parent) });
    assert(!t[s.len() as int].vars.contains_key(name));
    lemma_lookup_push(s, t[s.len() as int], parent as int, name);
}

proof fn lemma_lookup_push<V>(s: Seq<ScopeView<V>>, scope: ScopeView<V>, from: int, name: Seq<char>)
    requires
        from < s.len(),
    ensures
        lookup(s.push(scope), from, name) == lookup(s, from, name),
    decreases from,
{
    if 0 <= from {
        assert(s.push(scope)[from] == s[from]);
        if let Some(p) = s[from].enclosing {
            if p < from {
                lemma_lookup_push(s, scope, p as int, name);
            }
        }
    }
}

proof fn lemma_defining_scope_in_range<V>(s: Seq<ScopeView<V>>, env: int, name: Seq<char>)
    ensures
        defining_scope(s, env, name) matches Some(k) ==> 0 <= k <= env < s.len()
            && s[k].vars.contains_key(name),
    decreases env,
{
    if 0 <= env < s.len() && !s[env].vars.contains_key(name) {
        if let Some(p) = s[env].enclosing {
            if p < env {
                lemma_defining_scope_in_range(s, p as int, name);
            }
        }
    }
}

/// The variables of an association list, a later entry winning over an
/// earlier one of the same name.
pub open spec fn bindings<V>(vars: Seq<(String, V)>) -> Map<Seq<char>, V>
    decreases vars.len(),
{
    if vars.len() == 0 {
        Map::empty()
    } else {
        bindings(vars.drop_last()).insert(vars.last().0@, vars.last().1)
    }
}

/// The value that reading `name` in scope `env` finds: that of the nearest
/// scope, from `env` outwards, that defines it.
pub open spec fn lookup<V>(s: Seq<ScopeView<V>>, env: int, name: Seq<char>) -> Option<V>
    decreases env,
{
    if env < 0 || env >= s.len() {
        None
    } else if s[env].vars.contains_key(name) {
        Some(s[env].vars[name])
    } else {
        match s[env].enclosing {
            Some(p) => if p < env { lookup(s, p as int, name) } else { None },
            None => None,
        }
    }
}

/// The index of the nearest scope, from `env` outwards, that defines `name`.
pub open spec fn defining_scope<V>(s: Seq<ScopeView<V>>, env: int, name: Seq<char>) -> Option<int>
    decreases env,
{
    if env < 0 || env >= s.len() {
        None
    } else if s[env].vars.contains_key(name) {
        Some(env)
    } else {
        match s[env].enclosing {
            Some(p) => if p < env { defining_scope(s, p as int, name) } else { None },
            None => None,
        }
    }
}

/// The scope reached from `env` by going out `depth` times, if there is one.
pub open spec fn ancestor<V>(s: Seq<ScopeView<V>>, env: int, depth: nat) -> Option<int>
    decreases depth,
{
    if env < 0 || env >= s.len() {
        None
    } else if depth == 0 {
        Some(env)
    } else {
        match s[env].enclosing {
            Some(p) => ancestor(s, p as int, (depth - 1) as nat),
            None => None,
        }
    }
}

proof fn lemma_ancestor_in_range<V>(s: Seq<ScopeView<V>>, env: int, depth: nat)
    ensures
        ancestor(s, env, depth) matches Some(a) ==> 0 <= a < s.len(),
    decreases depth,
{
    if 0 <= env < s.len() && depth > 0 {
        if let Some(p) = s[env].enclosing {
            lemma_ancestor_in_range(s, p as int, (depth - 1) as nat);
        }
    }
}

/// The scope a variable expression `id`, evaluated in scope `current`, is
/// read from: as many scopes out as `locals` holds for it, else the global one.
pub open spec fn resolved_scope<V>(s: Seq<ScopeView<V>>, locals: Map<usize, usize>, current: usize, id: usize) -> int {
    if locals.contains_key(id) {
        ancestor(s, current as int, locals[id] as nat)->0
    } else {
        0
    }
}

/// `s` with `value` given to `name` in scope `env`.
pub open spec fn bind<V>(s: Seq<ScopeView<V>>, env: int, name: Seq<char>, value: V) -> Seq<ScopeView<V>> {
    s.update(env, ScopeView { vars: s[env].vars.insert(name, value), enclosing: s[env].enclosing })
}

/// What a read answers: the value found, or the error for an undefined name.
pub open spec fn read_outcome<V>(r: Result<&V, RuntimeError<V>>, found: Option<V>, name: Seq<char>, line: u64) -> bool {
    match found {
        Some(v) => r matches Ok(x) && *x == v,
        None => r matches Err(RuntimeError::Error { line: l, message: m }) && l == line
            && m@ == undefined_message(name),
    }
}

/// What an assignment answers and leaves: with a defining scope, the value
/// given there, and that value answered; without, the error for an
/// undefined name and nothing changed.
pub open spec fn assign_outcome<V>(
    r: Result<&V, RuntimeError<V>>,
    before: Seq<ScopeView<V>>,
    after: Seq<ScopeView<V>>,
    env: int,
    name: Seq<char>,
    value: V,
    line: u64,
) -> bool {
    match defining_scope(before, env, name) {
        Some(k) => (r matches Ok(x) && *x == value) && after == bind(before, k, name, value),
        None => after == before && (r matches Err(RuntimeError::Error { line: l, message: m })
            && l == line && m@ == undefined_message(name)),
    }
}

/// All the scopes of a run of a program, each known by its index: the
/// global scope first, then every scope opened since, nested in one opened
/// before it.
pub struct Environment<V> {
    scopes: Vec<Scope<V>>,
}

impl<V> View for Environment<V> {
    type V = Seq<ScopeView<V>>;

    closed spec fn view(&self) -> Seq<ScopeView<V>> {
        self.scopes@.map_values(|s: Scope<V>| ScopeView { vars: bindings(s.vars@), enclosing: s.enclosing })
    }
}

proof fn lemma_bindings_found<V>(vars: Seq<(String, V)>, k: int)
    requires
        0 <= k < vars.len(),
        forall|j: int| k < j < vars.len() ==> vars[j].0@ != vars[k].0@,
    ensures
        bindings(vars).contains_key(vars[k].0@),
        bindings(vars)[vars[k].0@] == vars[k].1,
    decreases vars.len(),
{
    if k < vars.len() - 1 {
        lemma_bindings_found(vars.drop_last(), k);
    }
}

proof fn lemma_bindings_absent<V>(vars: Seq<(String, V)>, name: Seq<char>)
    requires
        forall|j: int| 0 <= j < vars.len() ==> vars[j].0@ != name,
    ensures
        !bindings(vars).contains_key(name),
    decreases vars.len(),
{
    if vars.len() > 0 {
        lemma_bindings_absent(vars.drop_last(), name);
    }
}

proof fn lemma_bindings_update<V>(vars: Seq<(String, V)>, k: int, entry: (String, V))
    requires
        0 <= k < vars.len(),
        entry.0@ == vars[k].0@,
        forall|j: int| k < j < vars.len() ==> vars[j].0@ != vars[k].0@,
    ensures
        bindings(vars.update(k, entry)) == bindings(vars).insert(entry.0@, entry.1),
    decreases vars.len(),
{
    let n = vars.len();
    if k == n - 1 {
        assert(vars.update(k, entry).drop_last() =~= vars.drop_last());
    } else {
        lemma_bindings_update(vars.drop_last(), k, entry);
        assert(vars.update(k, entry).drop_last() =~= vars.drop_last().update(k, entry));
        assert(bindings(vars.update(k, entry)) =~= bindings(vars).insert(entry.0@, entry.1));
    }
}

impl<V> Environment<V> {
    /// Every scope is nested only in a scope opened before it, and the global
    /// scope is there.
    pub closed spec fn wf(&self) -> bool {
        &&& self.scopes@.len() >= 1
        &&& forall|i: int|
            0 <= i < self.scopes@.len() ==> match (#[trigger] self.scopes@[i]).enclosing {
                Some(p) => p < i,
                None => true,
            }
    }

    proof fn lemma_view(&self)
        ensures
            self@.len() == self.scopes@.len(),
            forall|i: int| 0 <= i < self.scopes@.len() ==> (#[trigger] self@[i]).vars == bindings(self.scopes@[i].vars@)
                && self@[i].enclosing == self.scopes@[i].enclosing,
    {
    }

    /// An environment with the global scope alone, empty; it has index 0.
    pub fn new() -> (e: Environment<V>)
        ensures
            e.wf(),
            e@ == seq![ScopeView::<V> { vars: Map::empty(), enclosing: None }],
    {
        let mut scopes: Vec<Scope<V>> = Vec::new();
        scopes.push(Scope { vars: Vec::new(), enclosing: None });
        let e = Environment { scopes };
        proof {
            assert(bindings(Seq::<(String, V)>::empty()) == Map::<Seq<char>, V>::empty());
            assert(e@ =~= seq![ScopeView::<V> { vars: Map::empty(), enclosing: None }]);
        }
        e
    }

    /// Opens a new, empty scope nested in `parent` and answers its index.
    pub fn new_enclosed(&mut self, parent: usize) -> (id: usize)
        requires
            old(self).wf(),
            parent < old(self)@.len(),
            old(self)@.len() < usize::MAX,
        ensures
            final(self).wf(),
            id == old(self)@.len(),
            final(self)@ == old(self)@.push(ScopeView { vars: Map::empty(), enclosing: Some(parent) }),
    {
        let id = self.scopes.len();
        self.scopes.push(Scope { vars: Vec::new(), enclosing: Some(parent) });
        proof {
            assert(bindings(Seq::<(String, V)>::empty()) == Map::<Seq<char>, V>::empty());
            assert(self@ =~= old(self)@.push(ScopeView { vars: Map::empty(), enclosing: Some(parent) }));
        }
        id
    }

    /// The number of scopes opened so far, the global one included.
    pub fn len(&self) -> (n: usize)
        ensures
            n == self@.len(),
    {
        self.scopes.len()
    }

    /// The position in `vars` of the entry for `name` that counts: the last one.
    fn find(vars: &Vec<(String, V)>, name: &String) -> (r: Option<usize>)
        ensures
            match r {
                Some(k) => k < vars@.len() && vars@[k as int].0@ == name@
                    && bindings(vars@).contains_key(name@)
                    && bindings(vars@)[name@] == vars@[k as int].1
                    && forall|j: int| k < j < vars@.len() ==> vars@[j].0@ != name@,
                None => !bindings(vars@).contains_key(name@),
            },
    {
        let mut i = vars.len();
        while i > 0
            invariant
                i <= vars@.len(),
                forall|j: int| i <= j < vars@.len() ==> vars@[j].0@ != name@,
            decreases i,
        {
            if vars[i - 1].0.eq(name) {
                proof {
                    lemma_bindings_found(vars@, i - 1);
                }
                return Some(i - 1);
            }
            i = i - 1;
        }
        proof {
            lemma_bindings_absent(vars@, name@);
        }
        None
    }

    /// Gives `name` the value `value` in scope `env`, whether or not it had one.
    pub fn define(&mut self, env: usize, name: String, value: V)
        requires
            old(self).wf(),
            env < old(self)@.len(),
        ensures
            final(self).wf(),
            final(self)@ == bind(old(self)@, env as int, name@, value),
    {
        proof {
            self.lemma_view();
        }
        let found = Self::find(&self.scopes[env].vars, &name);
        let ghost old_vars = self.scopes@[env as int].vars@;
        let ghost key = name@;
        let ghost entry = (name, value);
        match found {
            Some(k) => {
                self.scopes[env].vars.set(k, (name, value));
                proof {
                    lemma_bindings_update(old_vars, k as int, entry);
                }
            },
            None => {
                self.scopes[env].vars.push((name, value));
                proof {
                    assert(old_vars.push(entry).drop_last() =~= old_vars);
                }
            },
        }
        proof {
            self.lemma_view();
            assert(self@ =~= bind(old(self)@, env as int, key, entry.1));
        }
    }

    /// The value of `name` as seen from scope `env`: that of the nearest
    /// scope outwards that defines it; an error at `line` if none does.
    pub fn get(&self, env: usize, name: &String, line: u64) -> (r: Result<&V, RuntimeError<V>>)
        requires
            self.wf(),
            env < self@.len(),
        ensures
            read_outcome(r, lookup(self@, env as int, name@), name@, line),
    {
        proof {
            self.lemma_view();
        }
        let mut cur = env;
        loop
            invariant
                self.wf(),
                cur < self@.len(),
                self@.len() == self.scopes@.len(),
                forall|i: int| 0 <= i < self.scopes@.len() ==> (#[trigger] self@[i]).vars == bindings(self.scopes@[i].vars@)
                    && self@[i].enclosing == self.scopes@[i].enclosing,
                lookup(self@, cur as int, name@) == lookup(self@, env as int, name@),
            decreases cur,
        {
            match Self::find(&self.scopes[cur].vars, name) {
                Some(k) => {
                    return Ok(&self.scopes[cur].vars[k].1);
                },
                None => {
                    match self.scopes[cur].enclosing {
                        Some(p) => {
                            cur = p;
                        },
                        None => {
                            return Err(RuntimeError::undefined(name.as_str(), line));
                        },
                    }
                },
            }
        }
    }

    /// Gives `name` the value `value` in the nearest scope, from `env`
    /// outwards, that defines it; an error at `line`, and nothing changed,
    /// if none does.
    pub fn assign(&mut self, env: usize, name: String, line: u64, value: V) -> (r: Result<&V, RuntimeError<V>>)
        requires
            old(self).wf(),
            env < old(self)@.len(),
        ensures
            final(self).wf(),
            assign_outcome(r, old(self)@, final(self)@, env as int, name@, value, line),
    {
        proof {
            self.lemma_view();
        }
        let mut cur = env;
        loop
            invariant
                self == old(self),
                self.wf(),
                cur < self@.len(),
                self@.len() == self.scopes@.len(),
                forall|i: int| 0 <= i < self.scopes@.len() ==> (#[trigger] self@[i]).vars == bindings(self.scopes@[i].vars@)
                    && self@[i].enclosing == self.scopes@[i].enclosing,
                defining_scope(self@, cur as int, name@) == defining_scope(self@, env as int, name@),
            decreases cur,
        {
            if Self::find(&self.scopes[cur].vars, &name).is_some() {
                let key = name.clone();
                let ghost before = self@;
                let ghost v = value;
                self.define(cur, name, value);
                proof {
                    law_read_after_define(before, cur as int, key@, v);
                }
                return self.get(cur, &key, line);
            }
            match self.scopes[cur].enclosing {
                Some(p) => {
                    cur = p;
                },
                None => {
                    return Err(RuntimeError::undefined(name.as_str(), line));
                },
            }
        }
    }

    /// Whether going out `depth` times from scope `env` reaches a scope.
    pub fn reaches(&self, env: usize, depth: usize) -> (b: bool)
        requires
            self.wf(),
        ensures
            b == ancestor(self@, env as int, depth as nat) is Some,
    {
        proof {
            self.lemma_view();
        }
        if env >= self.scopes.len() {
            return false;
        }
        let mut cur = env;
        let mut counter = depth;
        while counter > 0
            invariant
                self.wf(),
                cur < self@.len(),
                self@.len() == self.scopes@.len(),
                forall|i: int| 0 <= i < self.scopes@.len() ==> (#[trigger] self@[i]).enclosing == self.scopes@[i].enclosing,
                ancestor(self@, cur as int, counter as nat) == ancestor(self@, env as int, depth as nat),
            decreases counter,
        {
            match self.scopes[cur].enclosing {
                Some(p) => {
                    cur = p;
                },
                None => {
                    return false;
                },
            }
            counter = counter - 1;
        }
        true
    }

    /// The scope reached from `env` by going out `depth` times.
    pub fn ancestor(&self, env: usize, depth: usize) -> (a: usize)
        requires
            self.wf(),
            ancestor(self@, env as int, depth as nat) is Some,
        ensures
            ancestor(self@, env as int, depth as nat) == Some(a as int),
    {
        proof {
            self.lemma_view();
        }
        let mut cur = env;
        let mut counter = depth;
        while counter > 0
            invariant
                self.wf(),
                cur < self@.len(),
                self@.len() == self.scopes@.len(),
                forall|i: int| 0 <= i < self.scopes@.len() ==> (#[trigger] self@[i]).enclosing == self.scopes@[i].enclosing,
                ancestor(self@, cur as int, counter as nat) == ancestor(self@, env as int, depth as nat),
                ancestor(self@, env as int, depth as nat) is Some,
            decreases counter,
        {
            proof {
                let sc = self.scopes@[cur as int];
                assert(self@[cur as int].enclosing == sc.enclosing);
            }
            cur = self.scopes[cur].enclosing.unwrap();
            counter = counter - 1;
        }
        cur
    }

    /// The value of `name` read from the scope `depth` levels out from `env`.
    pub fn get_at(&self, env: usize, depth: usize, name: &String, line: u64) -> (r: Result<&V, RuntimeError<V>>)
        requires
            self.wf(),
            ancestor(self@, env as int, depth as nat) is Some,
        ensures
            read_outcome(r, lookup(self@, ancestor(self@, env as int, depth as nat)->0, name@), name@, line),
    {
        let a = self.ancestor(env, depth);
        proof {
            lemma_ancestor_in_range(self@, env as int, depth as nat);
        }
        self.get(a, name, line)
    }

    /// Assigns `name` from the scope `depth` levels out from `env`.
    pub fn assign_at(&mut self, env: usize, depth: usize, name: String, value: V, line: u64) -> (r: Result<&V, RuntimeError<V>>)
        requires
            old(self).wf(),
            ancestor(old(self)@, env as int, depth as nat) is Some,
        ensures
            final(self).wf(),
            assign_outcome(r, old(self)@, final(self)@, ancestor(old(self)@, env as int, depth as nat)->0, name@, value, line),
    {
        let a = self.ancestor(env, depth);
        proof {
            lemma_ancestor_in_range(self@, env as int, depth as nat);
        }
        self.assign(a, name, line, value)
    }
    /// The value that a variable expression `id` reads from scope `current`:
    /// where `locals` holds the number of scopes between the expression and
    /// the definition, from that scope outwards; elsewhere from the global
    /// scope.
    pub fn get_resolved(
        &self,
        locals: &HashMap<usize, usize>,
        current: usize,
        id: usize,
        name: &String,
        line: u64,
    ) -> (r: Result<&V, RuntimeError<V>>)
        requires
            self.wf(),
            current < self@.len(),
            locals@.contains_key(id) ==> ancestor(self@, current as int, locals@[id] as nat) is Some,
        ensures
            read_outcome(r, lookup(self@, resolved_scope(self@, locals@, current, id), name@), name@, line),
    {
        match locals.get(&id) {
            Some(depth) => self.get_at(current, *depth, name, line),
            None => {
                proof {
                    self.lemma_view();
                }
                self.get(0, name, line)
            },
        }
    }

    /// Assigns the variable of the assignment expression `id` as seen from
    /// scope `current`, going out as many scopes as `locals` holds for it, or
    /// in the global scope where it holds nothing.
    pub fn assign_resolved(
        &mut self,
        locals: &HashMap<usize, usize>,
        current: usize,
        id: usize,
        name: String,
        value: V,
        line: u64,
    ) -> (r: Result<&V, RuntimeError<V>>)
        requires
            old(self).wf(),
            current < old(self)@.len(),
            locals@.contains_key(id) ==> ancestor(old(self)@, current as int, locals@[id] as nat) is Some,
        ensures
            final(self).wf(),
            assign_outcome(r, old(self)@, final(self)@, resolved_scope(old(self)@, locals@, current, id), name@, value, line),
    {
        match locals.get(&id) {
            Some(depth) => self.assign_at(current, *depth, name, value, line),
            None => {
                proof {
                    self.lemma_view();
                }
                self.assign(0, name, line, value)
            },
        }
    }
}

/// The fields of an object: each name with its value, the last set winning.
pub struct Fields<V> {
    vars: Vec<(String, V)>,
}

impl<V> View for Fields<V> {
    type V = Map<Seq<char>, V>;

    closed spec fn view(&self) -> Map<Seq<char>, V> {
        bindings(self.vars@)
    }
}

impl<V> Fields<V> {
    /// No fields.
    pub fn new() -> (f: Fields<V>)
        ensures
            f@ == Map::<Seq<char>, V>::empty(),
    {
        let f = Fields { vars: Vec::new() };
        assert(bindings(f.vars@) == Map::<Seq<char>, V>::empty());
        f
    }

    /// The value of the field `name`, if it has been set.
    pub fn get(&self, name: &String) -> (r: Option<&V>)
        ensures
            match r {
                Some(v) => self@.contains_key(name@) && *v == self@[name@],
                None => !self@.contains_key(name@),
            },
    {
        match Environment::<V>::find(&self.vars, name) {
            Some(k) => Some(&self.vars[k].1),
            None => None,
        }
    }

    /// Sets the field `name` to `value`.
    pub fn set(&mut self, name: String, value: V)
        ensures
            final(self)@ == old(self)@.insert(name@, value),
    {
        let found = Environment::<V>::find(&self.vars, &name);
        let ghost old_vars = self.vars@;
        let ghost entry = (name, value);
        match found {
            Some(k) => {
                self.vars.set(k, (name, value));
                proof {
                    lemma_bindings_update(old_vars, k as int, entry);
                }
            },
            None => {
                self.vars.push((name, value));
                proof {
                    assert(old_vars.push(entry).drop_last() =~= old_vars);
                }
            },
        }
    }
}

/// What reading a property of an object finds.
pub enum Property<'a, V, M> {
    /// The value of the object's field of that name.
    Field(&'a V),
    /// The method of that name of the object's class.
    Method(M),
}

impl<V> Fields<V> {
    /// Reads the property `name` of an object with these fields whose class
    /// has `method` under that name, if any: a field comes before a method;
    /// with neither, the error that the expression cannot be called, at
    /// `line`.
    pub fn property<'a, M>(&'a self, method: Option<M>, name: &String, line: u64) -> (r: Result<
        Property<'a, V, M>,
        RuntimeError<V>,
    >)
        ensures
            self@.contains_key(name@) ==> (r matches Ok(Property::Field(x)) && *x == self@[name@]),
            !self@.contains_key(name@) && method is Some ==> (r matches Ok(Property::Method(m)) && m == method->0),
            !self@.contains_key(name@) && method is None ==> (r matches Err(RuntimeError::Error { line: l, message: msg })
                && l == line && msg@ == not_callable_message(name@)),
    {
        match self.get(name) {
            Some(v) => Ok(Property::Field(v)),
            None => match method {
                Some(m) => Ok(Property::Method(m)),
                None => Err(RuntimeError::not_callable(name.as_str(), line)),
            },
        }
    }
}

} // verus!
