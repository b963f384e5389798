//! Environments: finite maps from names to schemes.
use vstd::prelude::*;
use crate::subst::{apply_scheme, ftv_scheme, occurs_in, contains_id, Subst};
use crate::types::{Scheme, SchemeModel};

verus! {

/// One entry of an environment.
#[derive(Debug)]
pub struct EnvEntry {
    pub name: String,
    pub scheme: Scheme,
}

/// An environment, held as a list of entries. Where two entries have the same
/// name, the later one counts.
#[derive(Debug)]
pub struct Env {
    pub entries: Vec<EnvEntry>,
}

/// The map that the first `n` entries of `es` stand for.
pub open spec fn entries_map(es: Seq<EnvEntry>, n: int) -> Map<Seq<char>, SchemeModel>
    decreases n,
{
    if n <= 0 {
        Map::empty()
    } else {
        entries_map(es, n - 1).insert(es[n - 1].name@, es[n - 1].scheme@)
    }
}

impl View for Env {
    type V = Map<Seq<char>, SchemeModel>;

    open spec fn view(&self) -> Map<Seq<char>, SchemeModel> {
        entries_map(self.entries@, self.entries.len() as int)
    }
}

/// [`apply_scheme`] on every scheme of an environment.
pub open spec fn apply_env(env: Map<Seq<char>, SchemeModel>, s: Map<int, crate::types::Ty>) -> Map<
    Seq<char>,
    SchemeModel,
> {
    Map::new(|n: Seq<char>| env.contains_key(n), |n: Seq<char>| apply_scheme(env[n], s))
}

/// Whether the variable `id` is free in one of the schemes of `env`.
pub open spec fn env_occurs(id: int, env: Map<Seq<char>, SchemeModel>) -> bool {
    exists|n: Seq<char>| #[trigger] env.contains_key(n) && ftv_scheme(env[n]).contains(id)
}

/// An entry that no later entry among the first `n` shadows gives the scheme
/// of its name.
pub proof fn lemma_entries_found(es: Seq<EnvEntry>, n: int, i: int)
    requires
        0 <= i < n <= es.len(),
        forall|j: int| i < j < n ==> (#[trigger] es[j]).name@ != es[i].name@,
    ensures
        entries_map(es, n).contains_key(es[i].name@),
        entries_map(es, n)[es[i].name@] == es[i].scheme@,
    decreases n,
{
    if i < n - 1 {
        lemma_entries_found(es, n - 1, i);
    }
}

/// A name that none of the first `n` entries has is not mapped.
pub proof fn lemma_entries_absent(es: Seq<EnvEntry>, n: int, name: Seq<char>)
    requires
        n <= es.len(),
        forall|j: int| 0 <= j < n ==> (#[trigger] es[j]).name@ != name,
    ensures
        !entries_map(es, n).contains_key(name),
    decreases n,
{
    if n > 0 {
        lemma_entries_absent(es, n - 1, name);
    }
}

/// The first `n` entries stand for the same map whatever follows them.
pub proof fn lemma_entries_prefix(es: Seq<EnvEntry>, fs: Seq<EnvEntry>, n: int)
    requires
        n <= es.len(),
        n <= fs.len(),
        forall|j: int| 0 <= j < n ==> es[j] == fs[j],
    ensures
        entries_map(es, n) == entries_map(fs, n),
    decreases n,
{
    if n > 0 {
        lemma_entries_prefix(es, fs, n - 1);
    }
}

/// Every name that is mapped has an entry that no later entry shadows.
pub proof fn lemma_entries_live(es: Seq<EnvEntry>, n: int, name: Seq<char>) -> (i: int)
    requires
        n <= es.len(),
        entries_map(es, n).contains_key(name),
    ensures
        0 <= i < n,
        es[i].name@ == name,
        forall|j: int| i < j < n ==> (#[trigger] es[j]).name@ != name,
        entries_map(es, n)[name] == es[i].scheme@,
    decreases n,
{
    if n <= 0 {
        0
    } else if es[n - 1].name@ == name {
        n - 1
    } else {
        lemma_entries_live(es, n - 1, name)
    }
}

/// Whether no later entry has the name of the entry at `i`.
pub open spec fn entry_live(es: Seq<EnvEntry>, i: int) -> bool {
    forall|j: int| i < j < es.len() ==> (#[trigger] es[j]).name@ != es[i].name@
}

impl Env {
    /// Whether the entry at `i` is the one that counts for its name.
    pub fn is_live(&self, i: usize) -> (r: bool)
        requires
            i < self.entries.len(),
        ensures
            r == entry_live(self.entries@, i as int),
    {
        let n = self.entries.len();
        let mut k: usize = i + 1;
        while k < n
            invariant
                i < k <= n,
                n == self.entries.len(),
                forall|m: int|
                    i < m < k ==> (#[trigger] self.entries[m]).name@ != self.entries[i as int].name@,
            decreases n - k,
        {
            if self.entries[k].name == self.entries[i].name {
                return false;
            }
            k += 1;
        }
        true
    }

    /// The empty environment.
    pub fn new() -> (r: Env)
        ensures
            r@ == Map::<Seq<char>, SchemeModel>::empty(),
    {
        Env { entries: Vec::new() }
    }

    /// Binds `name` to `scheme`, in place of what it was bound to before.
    pub fn insert(&mut self, name: String, scheme: Scheme)
        ensures
            final(self)@ == old(self)@.insert(name@, scheme@),
    {
        let ghost before = self.entries@;
        self.entries.push(EnvEntry { name, scheme });
        proof {
            lemma_entries_prefix(before, self.entries@, before.len() as int);
        }
    }

    /// The scheme that `name` is bound to, if any.
    pub fn get(&self, name: &str) -> (r: Option<&Scheme>)
        ensures
            match r {
                Some(sc) => self@.contains_key(name@) && sc@ == self@[name@],
                None => !self@.contains_key(name@),
            },
    {
        let key = name.to_owned();
        let mut i: usize = self.entries.len();
        while i > 0
            invariant
                i <= self.entries.len(),
                key@ == name@,
                forall|j: int|
                    i <= j < self.entries.len() ==> (#[trigger] self.entries[j]).name@ != name@,
            decreases i,
        {
            i -= 1;
            if self.entries[i].name == key {
                proof {
                    lemma_entries_found(self.entries@, self.entries.len() as int, i as int);
                }
                return Some(&self.entries[i].scheme);
            }
        }
        proof {
            lemma_entries_absent(self.entries@, self.entries.len() as int, name@);
        }
        None
    }

    /// Whether `name` is bound.
    pub fn contains(&self, name: &str) -> (r: bool)
        ensures
            r == self@.contains_key(name@),
    {
        self.get(name).is_some()
    }

    /// The environment with `s` applied to every scheme.
    pub fn apply(&self, s: &Subst) -> (r: Env)
        ensures
            r@ == apply_env(self@, s@),
    {
        let mut out = Env::new();
        let mut i: usize = 0;
        assert(out@ =~= apply_env(entries_map(self.entries@, 0), s@));
        while i < self.entries.len()
            invariant
                i <= self.entries.len(),
                out@ == apply_env(entries_map(self.entries@, i as int), s@),
            decreases self.entries.len() - i,
        {
            let e = &self.entries[i];
            out.insert(e.name.clone(), e.scheme.apply(s));
            assert(out@ =~= apply_env(entries_map(self.entries@, i + 1), s@));
            i += 1;
        }
        out
    }

    /// Adds every binding of `other`, in place of what its names were bound to
    /// before.
    pub fn extend(&mut self, other: &Env)
        ensures
            final(self)@ == old(self)@.union_prefer_right(other@),
    {
        let mut i: usize = 0;
        assert(self@ =~= old(self)@.union_prefer_right(entries_map(other.entries@, 0)));
        while i < other.entries.len()
            invariant
                i <= other.entries.len(),
                self@ == old(self)@.union_prefer_right(entries_map(other.entries@, i as int)),
            decreases other.entries.len() - i,
        {
            let e = &other.entries[i];
            self.insert(e.name.clone(), e.scheme.clone());
            assert(self@ =~= old(self)@.union_prefer_right(entries_map(other.entries@, i + 1)));
            i += 1;
        }
    }

    /// Whether the variable `id` is free in one of the schemes.
    pub fn has_free(&self, id: i32) -> (r: bool)
        ensures
            r == env_occurs(id as int, self@),
    {
        let n = self.entries.len();
        let mut i: usize = 0;
        while i < n
            invariant
                i <= n,
                n == self.entries.len(),
                forall|j: int|
                    0 <= j < i && (forall|k: int|
                        j < k < n ==> (#[trigger] self.entries[k]).name@ != self.entries[j].name@)
                        ==> !ftv_scheme((#[trigger] self.entries[j]).scheme@).contains(id as int),
            decreases n - i,
        {
            let e = &self.entries[i];
            let mut live = true;
            let mut k: usize = i + 1;
            while k < n
                invariant
                    i < k <= n,
                    n == self.entries.len(),
                    e.name@ == self.entries[i as int].name@,
                    live == (forall|m: int|
                        i < m < k ==> (#[trigger] self.entries[m]).name@ != self.entries[i as int].name@),
                decreases n - k,
            {
                if self.entries[k].name == e.name {
                    assert(self.entries[k as int].name@ == self.entries[i as int].name@);
                    live = false;
                }
                k += 1;
            }
            if live && occurs_in(id, &e.scheme.ty) && !contains_id(&e.scheme.qualifiers, id) {
                proof {
                    lemma_entries_found(self.entries@, n as int, i as int);
                    assert(self@.contains_key(e.name@));
                }
                return true;
            }
            i += 1;
        }
        proof {
            if env_occurs(id as int, self@) {
                let name = choose|name: Seq<char>| #[trigger]
                    self@.contains_key(name) && ftv_scheme(self@[name]).contains(id as int);
                let j = lemma_entries_live(self.entries@, n as int, name);
                assert(!ftv_scheme(self.entries[j].scheme@).contains(id as int));
            }
        }
        false
    }
}

impl Clone for Env {
    fn clone(&self) -> (r: Env)
        ensures
            r@ == self@,
    {
        let mut out = Env::new();
        let mut i: usize = 0;
        while i < self.entries.len()
            invariant
                i <= self.entries.len(),
                out@ == entries_map(self.entries@, i as int),
            decreases self.entries.len() - i,
        {
            let e = &self.entries[i];
            out.insert(e.name.clone(), e.scheme.clone());
            i += 1;
        }
        out
    }
}

} // verus!
