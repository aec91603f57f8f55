//! The variable environments of a running program.
//!
//! All environments live in one store and are named by their index in it.
//! Each holds the variables defined in it and, except for the global one,
//! the environment it is enclosed in. A closure keeps the index of the
//! environment it was made in, so that it shares that environment's
//! variables with every other holder of the index.
use vstd::prelude::*;
use crate::text::str_eq;

verus! {

/// The variables of one environment, in the order they were first defined,
/// each seen through the characters of its name.
pub type VarsView<V> = Seq<(Seq<char>, V)>;

/// One environment: its variables and the environment enclosing it.
pub struct FrameView<V> {
    pub vars: VarsView<V>,
    pub parent: Option<usize>,
}

/// The index of the last entry of `vars` named `name`, if any.
pub open spec fn last_index<V>(vars: VarsView<V>, name: Seq<char>) -> Option<int>
    decreases vars.len(),
{
    if vars.len() == 0 {
        None
    } else if vars.last().0 == name {
        Some(vars.len() - 1)
    } else {
        last_index(vars.drop_last(), name)
    }
}

/// The value of `name` in `vars`, if it is there.
pub open spec fn vars_get<V>(vars: VarsView<V>, name: Seq<char>) -> Option<V> {
    match last_index(vars, name) {
        Some(k) => Some(vars[k].1),
        None => None,
    }
}

/// `vars` with `name` bound to `value`: its entry replaced where it has
/// one, else a new entry added at the end.
pub open spec fn vars_put<V>(vars: VarsView<V>, name: Seq<char>, value: V) -> VarsView<V> {
    match last_index(vars, name) {
        Some(k) => vars.update(k, (name, value)),
        None => vars.push((name, value)),
    }
}

/// The environments are consistent: each enclosing environment was made
/// before the one it encloses.
pub open spec fn frames_wf<V>(frames: Seq<FrameView<V>>) -> bool {
    forall|i: int|
        0 <= i < frames.len() ==> match (#[trigger] frames[i]).parent {
            Some(p) => p < i,
            None => true,
        }
}

/// The value that `name` has when read in environment `env`: its value in
/// the nearest of `env` and its enclosing environments that defines it.
pub open spec fn lookup<V>(frames: Seq<FrameView<V>>, env: int, name: Seq<char>) -> Option<V>
    decreases env,
{
    if env < 0 || env >= frames.len() {
        None
    } else {
        match vars_get(frames[env].vars, name) {
            Some(v) => Some(v),
            None => match frames[env].parent {
                Some(p) => if p < env {
                    lookup(frames, p as int, name)
                } else {
                    None
                },
                None => None,
            },
        }
    }
}

/// The nearest of `env` and its enclosing environments that defines
/// `name`, if any.
pub open spec fn defining_frame<V>(frames: Seq<FrameView<V>>, env: int, name: Seq<char>) -> Option<int>
    decreases env,
{
    if env < 0 || env >= frames.len() {
        None
    } else {
        match last_index(frames[env].vars, name) {
            Some(_) => Some(env),
            None => match frames[env].parent {
                Some(p) => if p < env {
                    defining_frame(frames, p as int, name)
                } else {
                    None
                },
                None => None,
            },
        }
    }
}

/// The environment `depth` steps out from `env`, if there is one.
pub open spec fn ancestor<V>(frames: Seq<FrameView<V>>, env: int, depth: nat) -> Option<int>
    decreases depth,
{
    if env < 0 || env >= frames.len() {
        None
    } else if depth == 0 {
        Some(env)
    } else {
        match frames[env].parent {
            Some(p) => ancestor(frames, p as int, (depth - 1) as nat),
            None => None,
        }
    }
}

/// `frames` with `name` bound to `value` in environment `env`.
pub open spec fn frames_put<V>(frames: Seq<FrameView<V>>, env: int, name: Seq<char>, value: V) -> Seq<
    FrameView<V>,
> {
    frames.update(
        env,
        FrameView { vars: vars_put(frames[env].vars, name, value), parent: frames[env].parent },
    )
}

/// Each last index is an index.
pub proof fn lemma_last_index<V>(vars: VarsView<V>, name: Seq<char>)
    ensures
        last_index(vars, name) matches Some(k) ==> 0 <= k < vars.len() && vars[k].0 == name,
    decreases vars.len(),
{
    if vars.len() > 0 && vars.last().0 != name {
        lemma_last_index(vars.drop_last(), name);
    }
}

/// The stored variables of an environment, seen through their names'
/// characters.
pub open spec fn vars_view<V>(v: Seq<(String, V)>) -> VarsView<V> {
    Seq::new(v.len(), |i: int| (v[i].0@, v[i].1))
}

/// The environment found by `defining_frame` exists, and defines the name.
pub proof fn lemma_defining_frame<V>(frames: Seq<FrameView<V>>, env: int, name: Seq<char>)
    ensures
        defining_frame(frames, env, name) matches Some(f) ==> 0 <= f < frames.len()
            && last_index(frames[f].vars, name) is Some,
    decreases env,
{
    if 0 <= env < frames.len() && last_index(frames[env].vars, name) is None {
        match frames[env].parent {
            Some(p) => if p < env {
                lemma_defining_frame(frames, p as int, name);
            },
            None => {},
        }
    }
}

/// The environment found by `ancestor` exists.
pub proof fn lemma_ancestor<V>(frames: Seq<FrameView<V>>, env: int, depth: nat)
    ensures
        ancestor(frames, env, depth) matches Some(a) ==> 0 <= a < frames.len(),
    decreases depth,
{
    if 0 <= env < frames.len() && depth > 0 {
        match frames[env].parent {
            Some(p) => lemma_ancestor(frames, p as int, (depth - 1) as nat),
            None => {},
        }
    }
}

/// Binding `name` leaves the entries of every other name where they were.
pub proof fn lemma_last_index_put_other<V>(vars: VarsView<V>, name: Seq<char>, value: V, other: Seq<char>)
    requires
        other != name,
    ensures
        last_index(vars_put(vars, name, value), other) == last_index(vars, other),
    decreases vars.len(),
{
    lemma_last_index(vars, name);
    match last_index(vars, name) {
        Some(k) => {
            lemma_last_index_update_other(vars, k, (name, value), other);
        },
        None => {
            assert(vars.push((name, value)).drop_last() =~= vars);
        },
    }
}

/// Replacing an entry by one of another name leaves the last entry of
/// `other` where it was, when the replaced entry was not named `other`.
proof fn lemma_last_index_update_other<V>(vars: VarsView<V>, k: int, entry: (Seq<char>, V), other: Seq<char>)
    requires
        0 <= k < vars.len(),
        vars[k].0 != other,
        entry.0 != other,
    ensures
        last_index(vars.update(k, entry), other) == last_index(vars, other),
    decreases vars.len(),
{
    if vars.len() > 0 {
        if k == vars.len() - 1 {
            assert(vars.update(k, entry).drop_last() =~= vars.drop_last());
        } else {
            assert(vars.update(k, entry).drop_last() =~= vars.drop_last().update(k, entry));
            if vars.last().0 != other {
                lemma_last_index_update_other(vars.drop_last(), k, entry, other);
            }
        }
    }
}

/// After binding `name` to `value`, `name` has the value `value`.
pub proof fn lemma_vars_get_put<V>(vars: VarsView<V>, name: Seq<char>, value: V)
    ensures
        vars_get(vars_put(vars, name, value), name) == Some(value),
{
    lemma_last_index(vars, name);
    match last_index(vars, name) {
        Some(k) => {
            lemma_last_index_update_same(vars, k, value, name);
        },
        None => {},
    }
}

/// Replacing the value of the last entry of `name` keeps it the last one.
proof fn lemma_last_index_update_same<V>(vars: VarsView<V>, k: int, value: V, name: Seq<char>)
    requires
        last_index(vars, name) == Some(k),
    ensures
        last_index(vars.update(k, (name, value)), name) == Some(k),
    decreases vars.len(),
{
    lemma_last_index(vars, name);
    if vars.last().0 != name {
        assert(vars.update(k, (name, value)).drop_last() =~= vars.drop_last().update(k, (name, value)));
        lemma_last_index_update_same(vars.drop_last(), k, value, name);
    }
}

/// Binding a name in one environment keeps the store consistent.
pub proof fn lemma_frames_put_wf<V>(frames: Seq<FrameView<V>>, env: int, name: Seq<char>, value: V)
    requires
        frames_wf(frames),
        0 <= env < frames.len(),
    ensures
        frames_wf(frames_put(frames, env, name, value)),
        frames_put(frames, env, name, value).len() == frames.len(),
{
    let f2 = frames_put(frames, env, name, value);
    assert forall|i: int| 0 <= i < f2.len() implies match (#[trigger] f2[i]).parent {
        Some(p) => p < i,
        None => true,
    } by {
        assert(f2[i].parent == frames[i].parent);
    }
}

/// Law (read after write): after `name` is bound to `value` in `env`,
/// reading `name` in `env` gives `value`.
pub proof fn law_lookup_after_define<V>(frames: Seq<FrameView<V>>, env: int, name: Seq<char>, value: V)
    requires
        frames_wf(frames),
        0 <= env < frames.len(),
    ensures
        lookup(frames_put(frames, env, name, value), env, name) == Some(value),
{
    lemma_vars_get_put(frames[env].vars, name, value);
}

/// Law (other names untouched): binding `name` in any environment changes
/// what no other name reads as, from any environment.
pub proof fn law_lookup_other_after_define<V>(
    frames: Seq<FrameView<V>>,
    env: int,
    name: Seq<char>,
    value: V,
    from: int,
    other: Seq<char>,
)
    requires
        frames_wf(frames),
        0 <= env < frames.len(),
        other != name,
    ensures
        lookup(frames_put(frames, env, name, value), from, other) == lookup(frames, from, other),
    decreases from,
{
    let f2 = frames_put(frames, env, name, value);
    if 0 <= from < frames.len() {
        if from == env {
            let vars = frames[env].vars;
            lemma_last_index_put_other(vars, name, value, other);
            lemma_last_index(vars, other);
            lemma_last_index(vars, name);
            match last_index(vars, other) {
                Some(k) => {
                    assert(vars_put(vars, name, value)[k] == vars[k]);
                },
                None => {},
            }
        } else {
            assert(f2[from] == frames[from]);
        }
        match frames[from].parent {
            Some(p) => if p < from {
                law_lookup_other_after_define(frames, env, name, value, p as int, other);
            },
            None => {},
        }
    }
}

/// Law (assignment reaches every sharer): where the nearest environment
/// defining `name`, seen from `from`, is `f`, then after `name` is given
/// `value` in `f`, reading `name` from `from` gives `value`. So a closure and
/// the code around it, which share the environment holding a variable, see
/// each other's assignments to it.
pub proof fn law_lookup_after_assign<V>(
    frames: Seq<FrameView<V>>,
    f: int,
    name: Seq<char>,
    value: V,
    from: int,
)
    requires
        frames_wf(frames),
        defining_frame(frames, from, name) == Some(f),
    ensures
        lookup(frames_put(frames, f, name, value), from, name) == Some(value),
    decreases from,
{
    lemma_defining_frame(frames, from, name);
    let f2 = frames_put(frames, f, name, value);
    if from == f {
        lemma_vars_get_put(frames[f].vars, name, value);
    } else {
        assert(f2[from] == frames[from]);
        match frames[from].parent {
            Some(p) => {
                law_lookup_after_assign(frames, f, name, value, p as int);
            },
            None => {},
        }
    }
}

/// Law (a new environment changes no reading): making a new environment
/// leaves what every name reads as in every existing environment.
pub proof fn law_lookup_after_new_enclosed<V>(
    frames: Seq<FrameView<V>>,
    parent: usize,
    from: int,
    name: Seq<char>,
)
    requires
        frames_wf(frames),
        0 <= from < frames.len(),
    ensures
        lookup(frames.push(FrameView { vars: Seq::empty(), parent: Some(parent) }), from, name)
            == lookup(frames, from, name),
    decreases from,
{
    let f2 = frames.push(FrameView { vars: Seq::empty(), parent: Some(parent) });
    assert(f2[from] == frames[from]);
    match frames[from].parent {
        Some(p) => {
            if p < from {
                law_lookup_after_new_enclosed(frames, parent, p as int, name);
            }
        },
        None => {},
    }
}

/// Law (shadowing): where environment `env` itself defines `name`, reading
/// it there gives its own binding, whatever the enclosing ones hold.
pub proof fn law_inner_binding_shadows<V>(frames: Seq<FrameView<V>>, env: int, name: Seq<char>)
    requires
        0 <= env < frames.len(),
        vars_get(frames[env].vars, name) is Some,
    ensures
        lookup(frames, env, name) == vars_get(frames[env].vars, name),
{
}

/// One environment as stored.
pub struct Frame<V> {
    vars: Vec<(String, V)>,
    parent: Option<usize>,
}

impl<V> Frame<V> {
    pub closed spec fn view(&self) -> FrameView<V> {
        FrameView { vars: vars_view(self.vars@), parent: self.parent }
    }
}

/// The store of all environments of a running program. The environment
/// with index 0 is the global one.
pub struct Environment<V> {
    frames: Vec<Frame<V>>,
}

impl<V> Environment<V> {
    /// The environments, by index.
    pub closed spec fn frames(&self) -> Seq<FrameView<V>> {
        Seq::new(self.frames@.len(), |i: int| self.frames@[i].view())
    }

    /// The store is consistent.
    pub closed spec fn wf(&self) -> bool {
        &&& frames_wf(self.frames())
        &&& self.frames@.len() > 0
        &&& self.frames@.len() < usize::MAX
    }

    /// A consistent store: its environments are consistent (each one's
    /// enclosing environment comes before it), and there is at least one.
    pub proof fn lemma_wf(&self)
        requires
            self.wf(),
        ensures
            frames_wf(self.frames()),
            self.frames().len() > 0,
    {
    }

    /// A store holding only an empty global environment.
    pub fn new() -> (r: Self)
        ensures
            r.wf(),
            r.frames() == seq![FrameView::<V> { vars: Seq::empty(), parent: None }],
    {
        let mut frames: Vec<Frame<V>> = Vec::new();
        frames.push(Frame { vars: Vec::new(), parent: None });
        let r = Environment { frames };
        assert(r.frames()[0].vars =~= Seq::<(Seq<char>, V)>::empty());
        assert(r.frames() =~= seq![FrameView::<V> { vars: Seq::empty(), parent: None }]);
        r
    }

    /// The number of environments.
    pub fn len(&self) -> (n: usize)
        ensures
            n == self.frames().len(),
    {
        self.frames.len()
    }

    /// Makes a new empty environment enclosed in `parent`, and returns its
    /// index. Returns `None`, changing nothing, where the store cannot hold
    /// another environment.
    pub fn new_enclosed(&mut self, parent: usize) -> (r: Option<usize>)
        requires
            old(self).wf(),
            parent < old(self).frames().len(),
        ensures
            final(self).wf(),
            match r {
                Some(e) => {
                    &&& e == old(self).frames().len()
                    &&& final(self).frames() == old(self).frames().push(
                        FrameView { vars: Seq::empty(), parent: Some(parent) },
                    )
                },
                None => final(self).frames() == old(self).frames(),
            },
            r is None <==> old(self).frames().len() >= usize::MAX - 1,
    {
        if self.frames.len() >= usize::MAX - 1 {
            return None;
        }
        let e = self.frames.len();
        let ghost before = self.frames();
        let f = Frame { vars: Vec::new(), parent: Some(parent) };
        assert(f.view().vars =~= Seq::<(Seq<char>, V)>::empty());
        self.frames.push(f);
        assert(self.frames() =~= before.push(FrameView { vars: Seq::empty(), parent: Some(parent) }));
        Some(e)
    }

    /// The index of the last entry named `name` in environment `env`.
    fn find(&self, env: usize, name: &String) -> (r: Option<usize>)
        requires
            env < self.frames().len(),
        ensures
            match r {
                Some(k) => last_index(self.frames()[env as int].vars, name@) == Some(k as int)
                    && k < self.frames@[env as int].vars@.len(),
                None => last_index(self.frames()[env as int].vars, name@) is None,
            },
    {
        let vars = &self.frames[env].vars;
        let ghost vv = self.frames()[env as int].vars;
        assert(vv == vars_view(vars@));
        assert(vv.subrange(0, vv.len() as int) =~= vv);
        let mut i = vars.len();
        while i > 0
            invariant
                i <= vars@.len(),
                env < self.frames().len(),
                vv == self.frames()[env as int].vars,
                vars@ == self.frames@[env as int].vars@,
                vv == vars_view(vars@),
                match last_index(vv.subrange(0, i as int), name@) {
                    Some(k) => last_index(vv, name@) == Some(k),
                    None => last_index(vv, name@) is None,
                },
            decreases i,
        {
            assert(vv.subrange(0, i as int).drop_last() =~= vv.subrange(0, i - 1));
            if str_eq(&vars[i - 1].0, name) {
                assert(last_index(vv.subrange(0, i as int), name@) == Some(i - 1));
                return Some(i - 1);
            }
            i = i - 1;
        }
        None
    }

    /// Binds `name` to `value` in environment `env` (replacing its binding
    /// there, if it has one).
    pub fn define(&mut self, env: usize, name: &String, value: V)
        requires
            old(self).wf(),
            env < old(self).frames().len(),
        ensures
            final(self).wf(),
            final(self).frames() == frames_put(old(self).frames(), env as int, name@, value),
    {
        let ghost before = self.frames();
        let ghost name_v = name@;
        let found = self.find(env, name);
        let ghost old_vars = self.frames@[env as int].vars@;
        proof {
            lemma_last_index(before[env as int].vars, name_v);
        }
        match found {
            Some(k) => {
                self.frames[env].vars.set(k, (name.clone(), value));
            },
            None => {
                self.frames[env].vars.push((name.clone(), value));
            },
        }
        proof {
            let nv = self.frames@[env as int].view().vars;
            assert(before[env as int].vars == vars_view(old_vars));
            assert(nv =~= vars_put(before[env as int].vars, name_v, value));
            assert(self.frames() =~= frames_put(before, env as int, name_v, value));
        }
    }

    /// The value of `name` in environment `env` alone, if it defines it.
    pub fn get_local(&self, env: usize, name: &String) -> (r: Option<&V>)
        requires
            env < self.frames().len(),
        ensures
            match r {
                Some(v) => vars_get(self.frames()[env as int].vars, name@) == Some(*v),
                None => vars_get(self.frames()[env as int].vars, name@) is None,
            },
    {
        match self.find(env, name) {
            Some(k) => {
                assert(self.frames()[env as int].vars == vars_view(self.frames@[env as int].vars@));
                Some(&self.frames[env].vars[k].1)
            },
            None => None,
        }
    }

    /// The value that `name` has when read in environment `env`, if any of
    /// `env` and its enclosing environments defines it.
    pub fn get(&self, env: usize, name: &String) -> (r: Option<&V>)
        requires
            self.wf(),
            env < self.frames().len(),
        ensures
            match r {
                Some(v) => lookup(self.frames(), env as int, name@) == Some(*v),
                None => lookup(self.frames(), env as int, name@) is None,
            },
    {
        let mut e = env;
        loop
            invariant
                self.wf(),
                e < self.frames().len(),
                lookup(self.frames(), e as int, name@) == lookup(self.frames(), env as int, name@),
            decreases e,
        {
            if let Some(v) = self.get_local(e, name) {
                return Some(v);
            }
            assert(self.frames()[e as int].parent == self.frames@[e as int].parent);
            match self.frames[e].parent {
                Some(p) => {
                    assert(p < e);
                    e = p;
                },
                None => {
                    return None;
                },
            }
        }
    }

    /// The environment `depth` steps out from `env`, if there is one.
    pub fn ancestor_of(&self, env: usize, depth: usize) -> (r: Option<usize>)
        requires
            self.wf(),
            env < self.frames().len(),
        ensures
            match r {
                Some(a) => ancestor(self.frames(), env as int, depth as nat) == Some(a as int)
                    && a < self.frames().len(),
                None => ancestor(self.frames(), env as int, depth as nat) is None,
            },
    {
        let mut e = env;
        let mut d = depth;
        while d > 0
            invariant
                self.wf(),
                e < self.frames().len(),
                ancestor(self.frames(), e as int, d as nat) == ancestor(
                    self.frames(),
                    env as int,
                    depth as nat,
                ),
            decreases d,
        {
            assert(self.frames()[e as int].parent == self.frames@[e as int].parent);
            match self.frames[e].parent {
                Some(p) => {
                    e = p;
                    d = d - 1;
                },
                None => {
                    return None;
                },
            }
        }
        Some(e)
    }

    /// The value of `name` in the environment `depth` steps out from `env`,
    /// if there is such an environment and it defines the name.
    pub fn get_at(&self, env: usize, name: &String, depth: usize) -> (r: Option<&V>)
        requires
            self.wf(),
            env < self.frames().len(),
        ensures
            match r {
                Some(v) => ancestor(self.frames(), env as int, depth as nat) matches Some(a)
                    && vars_get(self.frames()[a].vars, name@) == Some(*v),
                None => match ancestor(self.frames(), env as int, depth as nat) {
                    Some(a) => vars_get(self.frames()[a].vars, name@) is None,
                    None => true,
                },
            },
    {
        match self.ancestor_of(env, depth) {
            Some(a) => self.get_local(a, name),
            None => None,
        }
    }

    /// Assigns `value` to `name` in the nearest of `env` and its enclosing
    /// environments that defines it. Returns whether one did; where none
    /// did, nothing changes.
    pub fn set(&mut self, env: usize, name: &String, value: V) -> (r: bool)
        requires
            old(self).wf(),
            env < old(self).frames().len(),
        ensures
            final(self).wf(),
            match defining_frame(old(self).frames(), env as int, name@) {
                Some(f) => r && final(self).frames() == frames_put(
                    old(self).frames(),
                    f,
                    name@,
                    value,
                ),
                None => !r && final(self).frames() == old(self).frames(),
            },
    {
        let mut e = env;
        loop
            invariant
                self.wf(),
                *self == *old(self),
                e < self.frames().len(),
                defining_frame(self.frames(), e as int, name@) == defining_frame(
                    self.frames(),
                    env as int,
                    name@,
                ),
            decreases e,
        {
            if self.find(e, name).is_some() {
                self.define(e, name, value);
                return true;
            }
            assert(self.frames()[e as int].parent == self.frames@[e as int].parent);
            match self.frames[e].parent {
                Some(p) => {
                    assert(p < e);
                    e = p;
                },
                None => {
                    return false;
                },
            }
        }
    }

    /// Assigns `value` to `name` in the environment `depth` steps out from
    /// `env`, where there is one and it defines the name. Returns whether it
    /// did; where it did not, nothing changes.
    pub fn set_at(&mut self, env: usize, name: &String, value: V, depth: usize) -> (r: bool)
        requires
            old(self).wf(),
            env < old(self).frames().len(),
        ensures
            final(self).wf(),
            match ancestor(old(self).frames(), env as int, depth as nat) {
                Some(a) => if last_index(old(self).frames()[a].vars, name@) is Some {
                    r && final(self).frames() == frames_put(old(self).frames(), a, name@, value)
                } else {
                    !r && final(self).frames() == old(self).frames()
                },
                None => !r && final(self).frames() == old(self).frames(),
            },
    {
        match self.ancestor_of(env, depth) {
            Some(a) => {
                if self.find(a, name).is_some() {
                    self.define(a, name, value);
                    true
                } else {
                    false
                }
            },
            None => false,
        }
    }
}

} // verus!
