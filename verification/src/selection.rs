//! Sets of names: the files selected in the list, and the paths on the
//! clipboard. A set holds each name once; its order of insertion is kept
//! but nothing depends on it.
use vstd::prelude::*;

use crate::json::string_views;
use crate::text::spec_join_path;

verus! {

pub struct NameSet {
    names: Vec<String>,
}

/// The names of a sequence of strings, as a set.
pub open spec fn names_set(v: Seq<String>) -> Set<Seq<char>> {
    string_views(v).to_set()
}

/// No name occurs twice.
pub open spec fn distinct_names(v: Seq<String>) -> bool {
    forall|i: int, j: int| 0 <= i < j < v.len() ==> #[trigger] v[i]@ != #[trigger] v[j]@
}

/// The set after a click on a name: it leaves the set if it was in it, and
/// joins it otherwise.
pub open spec fn toggled(s: Set<Seq<char>>, name: Seq<char>) -> Set<Seq<char>> {
    if s.contains(name) {
        s.remove(name)
    } else {
        s.insert(name)
    }
}

impl View for NameSet {
    type V = Set<Seq<char>>;

    closed spec fn view(&self) -> Set<Seq<char>> {
        names_set(self.names@)
    }
}

proof fn lemma_names_set_push(v: Seq<String>, x: String)
    ensures
        names_set(v.push(x)) == names_set(v).insert(x@),
{
    assert(string_views(v.push(x)) =~= string_views(v).push(x@));
    assert(string_views(v).push(x@).to_set() =~= string_views(v).to_set().insert(x@)) by {
        assert forall|e: Seq<char>| #[trigger] string_views(v).push(x@).to_set().contains(e) <==> string_views(v).to_set().insert(x@).contains(e) by {
            if string_views(v).push(x@).to_set().contains(e) {
                let i = choose|i: int| 0 <= i < string_views(v).push(x@).len() && string_views(v).push(x@)[i] == e;
                if i < v.len() {
                    assert(string_views(v)[i] == e);
                }
            }
            if string_views(v).to_set().contains(e) {
                let i = choose|i: int| 0 <= i < string_views(v).len() && string_views(v)[i] == e;
                assert(string_views(v).push(x@)[i] == e);
            }
            if e == x@ {
                assert(string_views(v).push(x@)[v.len() as int] == e);
            }
        }
    }
}

proof fn lemma_names_set_contains(v: Seq<String>, e: Seq<char>)
    ensures
        names_set(v).contains(e) <==> exists|i: int| 0 <= i < v.len() && #[trigger] v[i]@ == e,
{
    if names_set(v).contains(e) {
        let i = choose|i: int| 0 <= i < string_views(v).len() && string_views(v)[i] == e;
        assert(v[i]@ == e);
    }
    if exists|i: int| 0 <= i < v.len() && #[trigger] v[i]@ == e {
        let i = choose|i: int| 0 <= i < v.len() && #[trigger] v[i]@ == e;
        assert(string_views(v)[i] == e);
    }
}

proof fn lemma_names_set_remove(v: Seq<String>, k: int)
    requires
        0 <= k < v.len(),
        distinct_names(v),
    ensures
        names_set(v.remove(k)) == names_set(v).remove(v[k]@),
        distinct_names(v.remove(k)),
{
    let w = v.remove(k);
    assert forall|e: Seq<char>| names_set(w).contains(e) <==> #[trigger] names_set(v).remove(v[k]@).contains(e) by {
        lemma_names_set_contains(w, e);
        lemma_names_set_contains(v, e);
        if names_set(w).contains(e) {
            let i = choose|i: int| 0 <= i < w.len() && #[trigger] w[i]@ == e;
            if i < k {
                assert(v[i]@ == e);
            } else {
                assert(v[i + 1]@ == e);
            }
        }
        if names_set(v).remove(v[k]@).contains(e) {
            let i = choose|i: int| 0 <= i < v.len() && #[trigger] v[i]@ == e;
            assert(i != k);
            if i < k {
                assert(w[i]@ == e);
            } else {
                assert(w[i - 1]@ == e);
            }
        }
    }
    assert(names_set(w) =~= names_set(v).remove(v[k]@));
    assert forall|i: int, j: int| 0 <= i < j < w.len() implies #[trigger] w[i]@ != #[trigger] w[j]@ by {
        let a = if i < k { i } else { i + 1 };
        let b = if j < k { j } else { j + 1 };
        assert(w[i] == v[a]);
        assert(w[j] == v[b]);
    }
}

impl NameSet {
    #[verifier::type_invariant]
    closed spec fn inv(self) -> bool {
        distinct_names(self.names@)
    }

    /// An empty set.
    pub fn new() -> (s: Self)
        ensures
            s@ == Set::<Seq<char>>::empty(),
    {
        let s = NameSet { names: Vec::new() };
        assert(string_views(s.names@) =~= Seq::<Seq<char>>::empty());
        assert(s@ =~= Set::<Seq<char>>::empty());
        s
    }

    fn position(&self, name: &String) -> (r: Option<usize>)
        ensures
            match r {
                Some(k) => k < self.names@.len() && self.names@[k as int]@ == name@,
                None => !self@.contains(name@),
            },
    {
        let mut k: usize = 0;
        while k < self.names.len()
            invariant
                0 <= k <= self.names@.len(),
                forall|i: int| 0 <= i < k ==> #[trigger] self.names@[i]@ != name@,
            decreases self.names.len() - k,
        {
            if self.names[k] == *name {
                return Some(k);
            }
            k = k + 1;
        }
        proof {
            lemma_names_set_contains(self.names@, name@);
        }
        None
    }

    pub fn contains(&self, name: &String) -> (r: bool)
        ensures
            r == self@.contains(name@),
    {
        let p = self.position(name);
        proof {
            lemma_names_set_contains(self.names@, name@);
        }
        p.is_some()
    }

    /// Adds a name; one already there stays once.
    pub fn insert(&mut self, name: String)
        ensures
            final(self)@ == old(self)@.insert(name@),
    {
        proof {
            use_type_invariant(&*self);
        }
        match self.position(&name) {
            Some(_) => {
                proof {
                    lemma_names_set_contains(self.names@, name@);
                }
                assert(self@.insert(name@) =~= self@);
            },
            None => {
                let ghost before = self.names@;
                proof {
                    lemma_names_set_push(before, name);
                    lemma_names_set_contains(before, name@);
                }
                let mut names = Vec::new();
                std::mem::swap(&mut names, &mut self.names);
                names.push(name);
                assert(names@ == before.push(name));
                assert(distinct_names(names@)) by {
                    assert forall|i: int, j: int| 0 <= i < j < names@.len() implies #[trigger] names@[i]@ != #[trigger] names@[j]@ by {
                        if j == before.len() {
                            assert(names@[i] == before[i]);
                        } else {
                            assert(names@[i] == before[i]);
                            assert(names@[j] == before[j]);
                        }
                    }
                }
                self.names = names;
            },
        }
    }

    /// Takes a name out, if it is there.
    pub fn remove(&mut self, name: &String)
        ensures
            final(self)@ == old(self)@.remove(name@),
    {
        proof {
            use_type_invariant(&*self);
        }
        match self.position(name) {
            Some(k) => {
                let ghost before = self.names@;
                proof {
                    lemma_names_set_remove(before, k as int);
                }
                let mut names = Vec::new();
                std::mem::swap(&mut names, &mut self.names);
                names.remove(k);
                assert(names@ == before.remove(k as int));
                self.names = names;
            },
            None => {
                assert(self@.remove(name@) =~= self@);
            },
        }
    }

    /// A click on a name.
    pub fn toggle(&mut self, name: String)
        ensures
            final(self)@ == toggled(old(self)@, name@),
    {
        if self.contains(&name) {
            self.remove(&name);
        } else {
            self.insert(name);
        }
    }

    /// Empties the set.
    pub fn clear(&mut self)
        ensures
            final(self)@ == Set::<Seq<char>>::empty(),
    {
        self.names = Vec::new();
        assert(string_views(self.names@) =~= Seq::<Seq<char>>::empty());
        assert(self@ =~= Set::<Seq<char>>::empty());
    }

    pub fn len(&self) -> (r: usize)
        ensures
            r == self@.len(),
    {
        proof {
            use_type_invariant(self);
            self.lemma_len();
        }
        self.names.len()
    }

    pub fn is_empty(&self) -> (r: bool)
        ensures
            r == (self@ == Set::<Seq<char>>::empty()),
    {
        proof {
            use_type_invariant(self);
            self.lemma_len();
            if self.names@.len() > 0 {
                assert(self@.contains(self.names@[0]@)) by {
                    lemma_names_set_contains(self.names@, self.names@[0]@);
                }
            }
            if self.names@.len() == 0 {
                assert(string_views(self.names@) =~= Seq::<Seq<char>>::empty());
                assert(self@ =~= Set::<Seq<char>>::empty());
            }
        }
        self.names.len() == 0
    }

    proof fn lemma_len(&self)
        requires
            distinct_names(self.names@),
        ensures
            self@.finite(),
            self@.len() == self.names@.len(),
    {
        let sv = string_views(self.names@);
        assert(sv.no_duplicates()) by {
            assert forall|i: int, j: int| 0 <= i < sv.len() && 0 <= j < sv.len() && i != j implies sv[i] != sv[j] by {
                if i < j {
                    assert(self.names@[i]@ != self.names@[j]@);
                } else {
                    assert(self.names@[j]@ != self.names@[i]@);
                }
            }
        }
        sv.unique_seq_to_set();
        vstd::seq_lib::seq_to_set_is_finite(sv);
    }

    /// The names, each once, in the order they were added.
    pub fn to_vec(&self) -> (r: Vec<String>)
        ensures
            names_set(r@) == self@,
            distinct_names(r@),
            r@.len() == self@.len(),
    {
        proof {
            use_type_invariant(self);
            self.lemma_len();
        }
        self.names.clone()
    }
}

/// The full paths of the names of a folder (`dir/name`, or the name alone
/// at the top), as the clipboard and the delete dialog hold them.
pub open spec fn full_paths_of(dir: Seq<char>, names: Set<Seq<char>>) -> Set<Seq<char>> {
    names.map(|n: Seq<char>| spec_join_path(dir, n))
}

/// `dir/name` is one to one in `name`.
proof fn lemma_join_injective(dir: Seq<char>, a: Seq<char>, b: Seq<char>)
    requires
        spec_join_path(dir, a) == spec_join_path(dir, b),
    ensures
        a == b,
{
    if dir.len() > 0 {
        let k = dir.len() + 1;
        assert(a =~= spec_join_path(dir, a).skip(k as int));
        assert(b =~= spec_join_path(dir, b).skip(k as int));
    }
}

/// The full paths of the selected names, each once (the clipboard of a cut
/// or a copy, and the paths a delete asks for).
pub fn full_paths(dir: &str, names: &NameSet) -> (r: Vec<String>)
    ensures
        names_set(r@) == full_paths_of(dir@, names@),
        distinct_names(r@),
        r@.len() == names@.len(),
{
    let v = names.to_vec();
    let mut out: Vec<String> = Vec::new();
    let mut k: usize = 0;
    while k < v.len()
        invariant
            0 <= k <= v@.len(),
            distinct_names(v@),
            out@.len() == k,
            forall|i: int| 0 <= i < k ==> #[trigger] out@[i]@ == spec_join_path(dir@, v@[i]@),
        decreases v.len() - k,
    {
        out.push(crate::text::join_path(dir, v[k].as_str()));
        k = k + 1;
    }
    proof {
        assert(distinct_names(out@)) by {
            assert forall|i: int, j: int| 0 <= i < j < out@.len() implies #[trigger] out@[i]@ != #[trigger] out@[j]@ by {
                if out@[i]@ == out@[j]@ {
                    lemma_join_injective(dir@, v@[i]@, v@[j]@);
                }
            }
        }
        assert forall|e: Seq<char>| names_set(out@).contains(e) <==> #[trigger] full_paths_of(dir@, names@).contains(e) by {
            lemma_names_set_contains(out@, e);
            if names_set(out@).contains(e) {
                let i = choose|i: int| 0 <= i < out@.len() && #[trigger] out@[i]@ == e;
                lemma_names_set_contains(v@, v@[i]@);
                assert(names@.contains(v@[i]@));
            }
            if full_paths_of(dir@, names@).contains(e) {
                let n = choose|n: Seq<char>| names@.contains(n) && spec_join_path(dir@, n) == e;
                lemma_names_set_contains(v@, n);
                let i = choose|i: int| 0 <= i < v@.len() && #[trigger] v@[i]@ == n;
                assert(out@[i]@ == e);
            }
        }
        assert(names_set(out@) =~= full_paths_of(dir@, names@));
    }
    out
}

/// A click on a name twice leaves the selection as it was.
pub proof fn lemma_toggle_twice(s: Set<Seq<char>>, name: Seq<char>)
    ensures
        toggled(toggled(s, name), name) == s,
{
    if s.contains(name) {
        assert(s.remove(name).insert(name) =~= s);
    } else {
        assert(s.insert(name).remove(name) =~= s);
    }
}

/// After a click the name is selected exactly when it was not, and no other
/// name changes.
pub proof fn lemma_toggle_flips(s: Set<Seq<char>>, name: Seq<char>, other: Seq<char>)
    ensures
        toggled(s, name).contains(name) == !s.contains(name),
        other != name ==> toggled(s, name).contains(other) == s.contains(other),
{
}

} // verus!
