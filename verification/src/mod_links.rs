use vstd::prelude::*;

verus! {

use crate::mod_info::ModInfo;
use crate::text::{str_eq, str_compare, str_lt, lemma_str_lt_trichotomy, lemma_str_lt_trans,
    seq_contains_str, strs_set, strs_unique, vec_contains_str, lemma_seq_contains_push,
    lemma_seq_contains_drop_last};

/// The registry: a mapping from mod name to manifest, kept sorted by name
/// with unique keys.
#[derive(Debug, Clone)]
pub struct ModLinks {
    entries: Vec<(String, ModInfo)>,
}

impl ModLinks {
    /// The registry's entries, in storage order.
    pub closed spec fn entries_seq(&self) -> Seq<(String, ModInfo)> {
        self.entries@
    }

    /// The registry's key sequence, in storage order.
    pub open spec fn spec_names(&self) -> Seq<Seq<char>> {
        self.entries_seq().map_values(|e: (String, ModInfo)| e.0@)
    }

    /// The registry's key set.
    pub open spec fn key_set(&self) -> Set<Seq<char>> {
        Set::new(|x: Seq<char>| self.spec_contains(x))
    }

    /// True iff `name` is a key of the registry.
    pub open spec fn spec_contains(&self, name: Seq<char>) -> bool {
        exists|i: int|
            0 <= i < self.entries_seq().len() && (#[trigger] self.entries_seq()[i]).0@ == name
    }

    /// The position of key `name`; meaningful only when the key is present.
    pub open spec fn spec_index_of(&self, name: Seq<char>) -> int {
        choose|i: int|
            0 <= i < self.entries_seq().len() && (#[trigger] self.entries_seq()[i]).0@ == name
    }

    /// The manifest under key `name`; meaningful only when the key is
    /// present.
    pub open spec fn spec_get(&self, name: Seq<char>) -> ModInfo {
        self.entries_seq()[self.spec_index_of(name)].1
    }

    /// Well-formed: keys strictly sorted, hence unique.
    pub open spec fn wf(&self) -> bool {
        forall|i: int, j: int|
            0 <= i < j < self.entries_seq().len() ==> str_lt(
                (#[trigger] self.entries_seq()[i]).0@,
                (#[trigger] self.entries_seq()[j]).0@,
            )
    }

    /// In a well-formed registry no two entries share a key.
    pub proof fn lemma_wf_unique(&self)
        requires
            self.wf(),
        ensures
            forall|i: int, j: int|
                0 <= i < self.entries_seq().len() && 0 <= j < self.entries_seq().len() && i != j
                    ==> (#[trigger] self.entries_seq()[i]).0@ != (
                #[trigger] self.entries_seq()[j]).0@,
    {
        assert forall|i: int, j: int|
            0 <= i < self.entries_seq().len() && 0 <= j < self.entries_seq().len() && i
                != j implies (#[trigger] self.entries_seq()[i]).0@ != (
        #[trigger] self.entries_seq()[j]).0@ by {
            if i < j {
                lemma_str_lt_trichotomy(self.entries_seq()[i].0@, self.entries_seq()[j].0@);
            } else {
                lemma_str_lt_trichotomy(self.entries_seq()[j].0@, self.entries_seq()[i].0@);
            }
        }
    }

    /// A present key's position holds it, and is the only one that does.
    pub proof fn lemma_index_of(&self, name: Seq<char>)
        requires
            self.wf(),
            self.spec_contains(name),
        ensures
            0 <= self.spec_index_of(name) < self.entries_seq().len(),
            self.entries_seq()[self.spec_index_of(name)].0@ == name,
            forall|i: int|
                0 <= i < self.entries_seq().len() && (#[trigger] self.entries_seq()[i]).0@ == name
                    ==> i == self.spec_index_of(name),
    {
        self.lemma_wf_unique();
    }

    /// An empty registry.
    pub fn new() -> (r: Self)
        ensures
            r.entries_seq() == Seq::<(String, ModInfo)>::empty(),
            r.wf(),
    {
        ModLinks { entries: Vec::new() }
    }

    /// The number of entries.
    pub fn len(&self) -> (r: usize)
        ensures
            r == self.entries_seq().len(),
    {
        self.entries.len()
    }

    /// True iff the registry has no entry.
    pub fn is_empty(&self) -> (r: bool)
        ensures
            r == (self.entries_seq().len() == 0),
    {
        self.entries.len() == 0
    }

    /// The key at a storage position.
    pub fn name_at(&self, i: usize) -> (r: &String)
        requires
            i < self.entries_seq().len(),
        ensures
            r@ == self.spec_names()[i as int],
    {
        &self.entries[i].0
    }

    /// The manifest at a storage position.
    pub fn info_at(&self, i: usize) -> (r: &ModInfo)
        requires
            i < self.entries_seq().len(),
        ensures
            *r == self.entries_seq()[i as int].1,
    {
        &self.entries[i].1
    }

    /// Test whether `name` is a key of the registry.
    pub fn contains(&self, name: &str) -> (r: bool)
        ensures
            r == self.spec_contains(name@),
    {
        let n = self.entries.len();
        let mut i: usize = 0;
        while i < n
            invariant
                0 <= i <= n,
                n == self.entries_seq().len(),
                forall|j: int| 0 <= j < i ==> (#[trigger] self.entries_seq()[j]).0@ != name@,
            decreases n - i,
        {
            if str_eq(self.entries[i].0.as_str(), name) {
                return true;
            }
            i += 1;
        }
        false
    }

    /// Look up the manifest under `name`.
    pub fn get(&self, name: &str) -> (r: Option<&ModInfo>)
        requires
            self.wf(),
        ensures
            (r is Some) == self.spec_contains(name@),
            r matches Some(info) ==> *info == self.spec_get(name@),
    {
        let n = self.entries.len();
        let mut i: usize = 0;
        while i < n
            invariant
                0 <= i <= n,
                n == self.entries_seq().len(),
                self.wf(),
                forall|j: int| 0 <= j < i ==> (#[trigger] self.entries_seq()[j]).0@ != name@,
            decreases n - i,
        {
            if str_eq(self.entries[i].0.as_str(), name) {
                proof {
                    self.lemma_index_of(name@);
                }
                return Some(&self.entries[i].1);
            }
            i += 1;
        }
        None
    }

    /// The display name of a mod: its manifest's display name where set, the
    /// key itself otherwise; `None` for an unknown key.
    pub fn get_display_name<'a>(&'a self, name: &'a str) -> (r: Option<&'a str>)
        requires
            self.wf(),
        ensures
            (r is Some) == self.spec_contains(name@),
            r matches Some(d) ==> d@ == (if self.spec_get(name@).display_name is Some {
                self.spec_get(name@).display_name->0@
            } else {
                name@
            }),
    {
        match self.get(name) {
            None => None,
            Some(info) => match &info.display_name {
                Some(display) => Some(display.as_str()),
                None => Some(name),
            },
        }
    }

    /// The registry's keys, in order.
    pub fn mod_names(&self) -> (r: Vec<String>)
        ensures
            r@.map_values(|s: String| s@) == self.spec_names(),
    {
        let n = self.entries.len();
        let mut out: Vec<String> = Vec::new();
        let mut i: usize = 0;
        while i < n
            invariant
                0 <= i <= n,
                n == self.entries_seq().len(),
                out@.len() == i,
                forall|j: int| 0 <= j < i ==> (#[trigger] out@[j])@ == self.spec_names()[j],
            decreases n - i,
        {
            out.push(self.entries[i].0.clone());
            i += 1;
        }
        proof {
            assert(out@.map_values(|s: String| s@) =~= self.spec_names());
        }
        out
    }

    /// Entries under any key but `name` are the same in `post` as in
    /// `pre`.
    pub open spec fn preserves_except(pre: ModLinks, post: ModLinks, name: Seq<char>) -> bool {
        &&& forall|k: Seq<char>|
            k != name ==> (#[trigger] post.spec_contains(k)) == pre.spec_contains(k)
        &&& forall|k: Seq<char>|
            k != name && pre.spec_contains(k) ==> #[trigger] post.spec_get(k) == pre.spec_get(k)
    }

    /// The position `name` sits at or would be inserted at, and whether it
    /// is present there.
    fn find_slot(&self, name: &str) -> (r: (usize, bool))
        requires
            self.wf(),
        ensures
            r.0 <= self.entries_seq().len(),
            forall|j: int| 0 <= j < r.0 ==> str_lt((#[trigger] self.entries_seq()[j]).0@, name@),
            r.1 ==> r.0 < self.entries_seq().len() && self.entries_seq()[r.0 as int].0@ == name@,
            !r.1 && r.0 < self.entries_seq().len() ==> str_lt(
                name@,
                self.entries_seq()[r.0 as int].0@,
            ),
            r.1 == self.spec_contains(name@),
    {
        let n = self.entries.len();
        let mut i: usize = 0;
        while i < n
            invariant
                0 <= i <= n,
                n == self.entries_seq().len(),
                self.wf(),
                forall|j: int| 0 <= j < i ==> str_lt((#[trigger] self.entries_seq()[j]).0@, name@),
            decreases n - i,
        {
            let ord = str_compare(self.entries[i].0.as_str(), name);
            match ord {
                core::cmp::Ordering::Less => {
                    i += 1;
                },
                core::cmp::Ordering::Equal => {
                    return (i, true);
                },
                core::cmp::Ordering::Greater => {
                    proof {
                        self.lemma_wf_unique();
                        assert forall|j: int|
                            0 <= j < self.entries_seq().len() implies (
                        #[trigger] self.entries_seq()[j]).0@ != name@ by {
                            lemma_str_lt_trichotomy(self.entries_seq()[j].0@, name@);
                            if j >= i {
                                if j > i {
                                    lemma_str_lt_trans(
                                        name@,
                                        self.entries_seq()[i as int].0@,
                                        self.entries_seq()[j].0@,
                                    );
                                }
                            }
                        }
                    }
                    return (i, false);
                },
            }
        }
        proof {
            assert forall|j: int|
                0 <= j < self.entries_seq().len() implies (#[trigger] self.entries_seq()[j]).0@
                != name@ by {
                lemma_str_lt_trichotomy(self.entries_seq()[j].0@, name@);
            }
        }
        (n, false)
    }

    /// Insert a manifest under `name`, keeping the registry sorted; an
    /// already-present key has its manifest replaced and the old one handed
    /// back.
    pub fn insert(&mut self, name: String, mod_info: ModInfo) -> (r: Option<ModInfo>)
        requires
            old(self).wf(),
        ensures
            final(self).wf(),
            final(self).spec_contains(name@),
            final(self).spec_get(name@) == mod_info,
            Self::preserves_except(*old(self), *final(self), name@),
            (r is Some) == old(self).spec_contains(name@),
            r matches Some(prev) ==> prev == old(self).spec_get(name@),
            final(self).entries_seq().len() == old(self).entries_seq().len() + (
            if old(self).spec_contains(name@) {
                0int
            } else {
                1int
            }),
    {
        let ghost pre = *self;
        let (i, present) = self.find_slot(name.as_str());
        if present {
            proof {
                self.lemma_index_of(name@);
            }
            let (_, prev) = self.entries.remove(i);
            self.entries.insert(i, (name, mod_info));
            proof {
                let post = self.entries_seq();
                let preq = pre.entries_seq();
                assert(post =~= preq.update(i as int, post[i as int]));
                assert(post[i as int].0@ == preq[i as int].0@);
                assert forall|a: int, b: int|
                    0 <= a < b < post.len() implies str_lt(
                    (#[trigger] post[a]).0@,
                    (#[trigger] post[b]).0@,
                ) by {
                    assert(preq[a].0@ == post[a].0@ || a == i);
                    assert(preq[b].0@ == post[b].0@ || b == i);
                }
                assert(self.spec_contains(name@));
                self.lemma_index_of(name@);
                assert forall|k: Seq<char>|
                    k != name@ implies (#[trigger] self.spec_contains(k)) == pre.spec_contains(
                    k,
                ) by {
                    if self.spec_contains(k) {
                        let j = self.spec_index_of(k);
                        assert(post[j].0@ == k && j != i);
                        assert(preq[j].0@ == k);
                    }
                    if pre.spec_contains(k) {
                        let j = pre.spec_index_of(k);
                        assert(preq[j].0@ == k && j != i);
                        assert(post[j].0@ == k);
                    }
                }
                assert forall|k: Seq<char>|
                    k != name@ && pre.spec_contains(k) implies #[trigger] self.spec_get(k)
                        == pre.spec_get(k) by {
                    let j = pre.spec_index_of(k);
                    pre.lemma_index_of(k);
                    assert(post[j].0@ == k);
                    self.lemma_index_of(k);
                    assert(self.spec_index_of(k) == j);
                }
                assert(Self::preserves_except(pre, *self, name@));
            }
            Some(prev)
        } else {
            self.entries.insert(i, (name, mod_info));
            proof {
                let post = self.entries_seq();
                let preq = pre.entries_seq();
                assert(post.len() == preq.len() + 1);
                assert(forall|j: int| 0 <= j < i ==> post[j] == preq[j]);
                assert(post[i as int].0@ == name@);
                assert(forall|j: int| i < j < post.len() ==> post[j] == preq[j - 1]);
                // the new key is smaller than every key at or after position i
                assert forall|j: int| i < j < post.len() implies str_lt(name@, post[j].0@) by {
                    if j > i + 1 {
                        lemma_str_lt_trans(name@, preq[i as int].0@, preq[j - 1].0@);
                    }
                }
                assert forall|a: int, b: int|
                    0 <= a < b < post.len() implies str_lt(
                    (#[trigger] post[a]).0@,
                    (#[trigger] post[b]).0@,
                ) by {
                    if a == i {
                        assert(str_lt(name@, post[b].0@));
                    } else if b == i {
                        assert(str_lt(post[a].0@, name@));
                    } else {
                        let a0 = if a < i {
                            a
                        } else {
                            a - 1
                        };
                        let b0 = if b < i {
                            b
                        } else {
                            b - 1
                        };
                        assert(post[a].0@ == preq[a0].0@);
                        assert(post[b].0@ == preq[b0].0@);
                    }
                }
                assert(self.wf());
                assert(self.spec_contains(name@));
                self.lemma_index_of(name@);
                assert forall|k: Seq<char>|
                    k != name@ implies (#[trigger] self.spec_contains(k)) == pre.spec_contains(
                    k,
                ) by {
                    if self.spec_contains(k) {
                        let j = self.spec_index_of(k);
                        assert(post[j].0@ == k && j != i);
                        if j < i {
                            assert(preq[j].0@ == k);
                        } else {
                            assert(preq[j - 1].0@ == k);
                        }
                    }
                    if pre.spec_contains(k) {
                        let j = pre.spec_index_of(k);
                        assert(preq[j].0@ == k);
                        if j < i {
                            assert(post[j].0@ == k);
                        } else {
                            assert(post[j + 1].0@ == k);
                        }
                    }
                }
                assert forall|k: Seq<char>|
                    k != name@ && pre.spec_contains(k) implies #[trigger] self.spec_get(k)
                        == pre.spec_get(k) by {
                    let j = pre.spec_index_of(k);
                    pre.lemma_index_of(k);
                    self.lemma_index_of(k);
                    if j < i {
                        assert(post[j].0@ == k);
                        assert(self.spec_index_of(k) == j);
                    } else {
                        assert(post[j + 1].0@ == k);
                        assert(self.spec_index_of(k) == j + 1);
                    }
                }
                assert(Self::preserves_except(pre, *self, name@));
            }
            None
        }
    }

    /// Remove the entry under `name`, handing its manifest back.
    pub fn remove(&mut self, name: &str) -> (r: Option<ModInfo>)
        requires
            old(self).wf(),
        ensures
            final(self).wf(),
            !final(self).spec_contains(name@),
            Self::preserves_except(*old(self), *final(self), name@),
            (r is Some) == old(self).spec_contains(name@),
            r matches Some(prev) ==> prev == old(self).spec_get(name@),
    {
        let ghost pre = *self;
        let (i, present) = self.find_slot(name);
        if !present {
            proof {
                assert(Self::preserves_except(pre, *self, name@));
            }
            return None;
        }
        proof {
            self.lemma_index_of(name@);
        }
        let (_, prev) = self.entries.remove(i);
        proof {
            let post = self.entries_seq();
            let preq = pre.entries_seq();
            assert(forall|j: int| 0 <= j < i ==> post[j] == preq[j]);
            assert(forall|j: int| i <= j < post.len() ==> post[j] == preq[j + 1]);
            assert forall|a: int, b: int|
                0 <= a < b < post.len() implies str_lt(
                (#[trigger] post[a]).0@,
                (#[trigger] post[b]).0@,
            ) by {
                let a0 = if a < i {
                    a
                } else {
                    a + 1
                };
                let b0 = if b < i {
                    b
                } else {
                    b + 1
                };
                assert(post[a].0@ == preq[a0].0@);
                assert(post[b].0@ == preq[b0].0@);
            }
            pre.lemma_wf_unique();
            assert forall|j: int| 0 <= j < post.len() implies post[j].0@ != name@ by {
                if j < i {
                    assert(preq[j].0@ != name@);
                } else {
                    assert(post[j].0@ == preq[j + 1].0@);
                }
            }
            assert forall|k: Seq<char>|
                k != name@ implies (#[trigger] self.spec_contains(k)) == pre.spec_contains(
                k,
            ) by {
                if self.spec_contains(k) {
                    let j = self.spec_index_of(k);
                    assert(post[j].0@ == k);
                    if j < i {
                        assert(preq[j].0@ == k);
                    } else {
                        assert(preq[j + 1].0@ == k);
                    }
                }
                if pre.spec_contains(k) {
                    let j = pre.spec_index_of(k);
                    assert(preq[j].0@ == k && j != i);
                    if j < i {
                        assert(post[j].0@ == k);
                    } else {
                        assert(post[j - 1].0@ == k);
                    }
                }
            }
            assert forall|k: Seq<char>|
                k != name@ && pre.spec_contains(k) implies #[trigger] self.spec_get(k)
                    == pre.spec_get(k) by {
                let j = pre.spec_index_of(k);
                pre.lemma_index_of(k);
                assert(preq[j].0@ == k && j != i);
                self.lemma_index_of(k);
                if j < i {
                    assert(post[j].0@ == k);
                    assert(self.spec_index_of(k) == j);
                } else {
                    assert(post[j - 1].0@ == k);
                    assert(self.spec_index_of(k) == j - 1);
                }
            }
            assert(Self::preserves_except(pre, *self, name@));
        }
        Some(prev)
    }

    /// Pour every entry of `other` into this registry; on a shared key,
    /// `other`'s manifest wins.
    pub fn merge(&mut self, other: Self)
        requires
            old(self).wf(),
            other.wf(),
        ensures
            final(self).wf(),
            forall|k: Seq<char>|
                #[trigger] final(self).spec_contains(k) == (old(self).spec_contains(k)
                    || other.spec_contains(k)),
            forall|k: Seq<char>|
                other.spec_contains(k) ==> #[trigger] final(self).spec_get(k) == other.spec_get(
                    k,
                ),
            forall|k: Seq<char>|
                !other.spec_contains(k) && old(self).spec_contains(k) ==> #[trigger] final(self).spec_get(k) == old(self).spec_get(k),
    {
        let ghost pre = *self;
        let mut rest = other;
        while rest.entries.len() > 0
            invariant
                self.wf(),
                rest.wf(),
                forall|k: Seq<char>|
                    #[trigger] self.spec_contains(k) == (pre.spec_contains(k) || (
                    other.spec_contains(k) && !rest.spec_contains(k))),
                forall|k: Seq<char>|
                    rest.spec_contains(k) ==> other.spec_contains(k) && other.spec_get(k)
                        == rest.spec_get(k),
                forall|k: Seq<char>|
                    other.spec_contains(k) && !rest.spec_contains(k) ==> self.spec_contains(k)
                        && #[trigger] self.spec_get(k) == other.spec_get(k),
                forall|k: Seq<char>|
                    !(other.spec_contains(k) && !rest.spec_contains(k)) && pre.spec_contains(k)
                        ==> self.spec_contains(k) && #[trigger] self.spec_get(k) == pre.spec_get(
                        k,
                    ),
            decreases rest.entries_seq().len(),
    {
            let ghost rest_pre = rest;
            let (name, info) = rest.entries.remove(0);
            proof {
                let preq = rest_pre.entries_seq();
                let post = rest.entries_seq();
                assert(forall|j: int| 0 <= j < post.len() ==> post[j] == preq[j + 1]);
                rest_pre.lemma_wf_unique();
                assert(preq[0].0@ == name@);
                assert forall|a: int, b: int|
                    0 <= a < b < post.len() implies str_lt(
                    (#[trigger] post[a]).0@,
                    (#[trigger] post[b]).0@,
                ) by {
                    assert(post[a].0@ == preq[a + 1].0@);
                    assert(post[b].0@ == preq[b + 1].0@);
                }
                assert(!rest.spec_contains(name@)) by {
                    if rest.spec_contains(name@) {
                        let j = rest.spec_index_of(name@);
                        assert(post[j].0@ == name@);
                        assert(preq[j + 1].0@ == name@);
                    }
                }
                assert forall|k: Seq<char>|
                    rest.spec_contains(k) implies rest_pre.spec_contains(k)
                        && rest_pre.spec_get(k) == rest.spec_get(k) by {
                    let j = rest.spec_index_of(k);
                    rest.lemma_index_of(k);
                    assert(preq[j + 1].0@ == k);
                    rest_pre.lemma_index_of(k);
                    assert(rest_pre.spec_index_of(k) == j + 1);
                }
                assert forall|k: Seq<char>|
                    rest_pre.spec_contains(k) && k != name@ implies rest.spec_contains(k) by {
                    let j = rest_pre.spec_index_of(k);
                    rest_pre.lemma_index_of(k);
                    assert(j != 0);
                    assert(post[j - 1].0@ == k);
                }
                assert(rest_pre.spec_contains(name@));
                rest_pre.lemma_index_of(name@);
                assert(rest_pre.spec_index_of(name@) == 0);
                assert(rest_pre.spec_get(name@) == info);
                assert(other.spec_contains(name@) && other.spec_get(name@) == info);
            }
            self.insert(name, info);
        }
        proof {
            assert(forall|k: Seq<char>|
                !(#[trigger] rest.spec_contains(k)));
        }
    }

    /// The names an entry's dependency list spells, as a set.
    pub open spec fn spec_deps(&self, k: Seq<char>) -> Set<Seq<char>> {
        strs_set(self.spec_get(k).dependencies@)
    }

    /// A dependency path: it starts at a seed, and every step follows a
    /// dependency edge out of a registry entry.
    pub open spec fn is_dep_path(&self, seeds: Set<Seq<char>>, p: Seq<Seq<char>>) -> bool {
        &&& p.len() >= 1
        &&& seeds.contains(p[0])
        &&& forall|i: int|
            0 <= i < p.len() - 1 ==> self.spec_contains(#[trigger] p[i]) && self.spec_deps(
                p[i],
            ).contains(p[i + 1])
    }

    /// `x` is reachable from the seeds by zero or more dependency edges.
    pub open spec fn reaches(&self, seeds: Set<Seq<char>>, x: Seq<char>) -> bool {
        exists|p: Seq<Seq<char>>| self.is_dep_path(seeds, p) && p.last() == x
    }

    /// The set of names reachable from the seeds: the dependency closure.
    pub open spec fn dep_closure(&self, seeds: Set<Seq<char>>) -> Set<Seq<char>> {
        Set::new(|x: Seq<char>| self.reaches(seeds, x))
    }

    /// `e` holds the seeds and is closed under dependency edges out of its
    /// members that are registry keys.
    pub open spec fn closed_set(&self, seeds: Set<Seq<char>>, e: Set<Seq<char>>) -> bool {
        &&& seeds.subset_of(e)
        &&& forall|m: Seq<char>|
            e.contains(m) && self.spec_contains(m) ==> (#[trigger] self.spec_deps(
                m,
            )).subset_of(e)
    }

    /// Every seed is reachable.
    pub proof fn lemma_reaches_seed(&self, seeds: Set<Seq<char>>, x: Seq<char>)
        requires
            seeds.contains(x),
        ensures
            self.reaches(seeds, x),
    {
        let p = seq![x];
        assert(p.last() == x);
        assert(self.is_dep_path(seeds, p));
    }

    /// A dependency edge out of a reachable key reaches its target.
    pub proof fn lemma_reaches_step(&self, seeds: Set<Seq<char>>, m: Seq<char>, d: Seq<char>)
        requires
            self.reaches(seeds, m),
            self.spec_contains(m),
            self.spec_deps(m).contains(d),
        ensures
            self.reaches(seeds, d),
    {
        let p = choose|p: Seq<Seq<char>>| self.is_dep_path(seeds, p) && p.last() == m;
        let q = p.push(d);
        assert(q[0] == p[0]);
        assert forall|i: int|
            0 <= i < q.len() - 1 implies self.spec_contains(#[trigger] q[i]) && self.spec_deps(
            q[i],
        ).contains(q[i + 1]) by {
            if i < p.len() - 1 {
                assert(q[i] == p[i] && q[i + 1] == p[i + 1]);
            } else {
                assert(q[i] == p.last() && q[i + 1] == d);
            }
        }
        assert(self.is_dep_path(seeds, q) && q.last() == d);
    }

    /// Whatever a dependency path ends at lies in every closed set.
    pub proof fn lemma_path_in_closed(
        &self,
        seeds: Set<Seq<char>>,
        e: Set<Seq<char>>,
        p: Seq<Seq<char>>,
    )
        requires
            self.closed_set(seeds, e),
            self.is_dep_path(seeds, p),
        ensures
            e.contains(p.last()),
        decreases p.len(),
    {
        if p.len() == 1 {
            assert(p.last() == p[0]);
        } else {
            let q = p.drop_last();
            assert forall|i: int|
                0 <= i < q.len() - 1 implies self.spec_contains(#[trigger] q[i])
                    && self.spec_deps(q[i]).contains(q[i + 1]) by {
                assert(q[i] == p[i] && q[i + 1] == p[i + 1]);
            }
            assert(q[0] == p[0]);
            assert(self.is_dep_path(seeds, q));
            self.lemma_path_in_closed(seeds, e, q);
            let m = p[p.len() - 2];
            assert(q.last() == m);
            assert(self.spec_contains(m) && self.spec_deps(m).contains(p[p.len() - 1]));
            assert(self.spec_deps(m).subset_of(e));
        }
    }

    /// The dependency closure is the least closed set: it lies inside every
    /// closed set.
    pub proof fn lemma_closure_in_closed(&self, seeds: Set<Seq<char>>, e: Set<Seq<char>>)
        requires
            self.closed_set(seeds, e),
        ensures
            self.dep_closure(seeds).subset_of(e),
    {
        assert forall|x: Seq<char>| self.dep_closure(seeds).contains(x) implies e.contains(
            x,
        ) by {
            let p = choose|p: Seq<Seq<char>>| self.is_dep_path(seeds, p) && p.last() == x;
            self.lemma_path_in_closed(seeds, e, p);
        }
    }

    /// The work still ahead of the resolver: one unit for each entry not yet
    /// resolved, plus one for each of its dependency references.
    pub open spec fn pending_weight(s: Seq<(String, ModInfo)>, resolved: Set<Seq<char>>) -> nat
        decreases s.len(),
    {
        if s.len() == 0 {
            0
        } else {
            Self::pending_weight(s.drop_last(), resolved) + (if resolved.contains(
                s.last().0@,
            ) {
                0nat
            } else {
                1 + s.last().1.dependencies@.len()
            })
        }
    }

    /// Resolving more entries never adds work.
    pub proof fn lemma_weight_monotone(
        s: Seq<(String, ModInfo)>,
        r1: Set<Seq<char>>,
        r2: Set<Seq<char>>,
    )
        requires
            r1.subset_of(r2),
        ensures
            Self::pending_weight(s, r2) <= Self::pending_weight(s, r1),
        decreases s.len(),
    {
        if s.len() > 0 {
            Self::lemma_weight_monotone(s.drop_last(), r1, r2);
        }
    }

    /// Resolving an entry removes its own work from the total.
    pub proof fn lemma_weight_insert(s: Seq<(String, ModInfo)>, resolved: Set<Seq<char>>, i: int)
        requires
            0 <= i < s.len(),
            !resolved.contains(s[i].0@),
        ensures
            Self::pending_weight(s, resolved.insert(s[i].0@)) + 1 + s[i].1.dependencies@.len()
                <= Self::pending_weight(s, resolved),
        decreases s.len(),
    {
        let r2 = resolved.insert(s[i].0@);
        if i == s.len() - 1 {
            Self::lemma_weight_monotone(s.drop_last(), resolved, r2);
        } else {
            assert(s.drop_last()[i] == s[i]);
            Self::lemma_weight_insert(s.drop_last(), resolved, i);
        }
    }

    /// Every name the resolver is tracking: already resolved, found unknown,
    /// or still to visit.
    pub open spec fn gathered(
        resolved: Seq<String>,
        unknown: Seq<String>,
        to_visit: Seq<String>,
    ) -> Set<Seq<char>> {
        strs_set(resolved).union(strs_set(unknown)).union(strs_set(to_visit))
    }

    /// Resolve the transitive dependency closure of the seed names `mods`.
    ///
    /// Returns the closure when every name it meets is a registry key, and
    /// the set of unknown names met otherwise; no partial result survives an
    /// unknown reference. Cycles among entries are followed once and are not
    /// an error.
    pub fn resolve_deps(&self, mods: &Vec<String>) -> (r: Result<Vec<String>, Vec<String>>)
        requires
            self.wf(),
        ensures
            ({
                let closure = self.dep_closure(strs_set(mods@));
                &&& ((r matches Ok(res)) <==> closure.subset_of(self.key_set()))
                &&& (r matches Ok(res) ==> strs_set(res@) == closure && strs_unique(res@))
                &&& (r matches Err(unk) ==> strs_set(unk@) == closure.difference(self.key_set())
                    && strs_unique(unk@) && unk@.len() > 0)
            }),
    {
        let ghost seeds = strs_set(mods@);
        let ghost closure = self.dep_closure(seeds);
        let mut to_visit: Vec<String> = Vec::new();
        let mut i: usize = 0;
        let n = mods.len();
        while i < n
            invariant
                0 <= i <= n,
                n == mods@.len(),
                to_visit@.len() == i,
                forall|j: int| 0 <= j < i ==> (#[trigger] to_visit@[j])@ == mods@[j]@,
            decreases n - i,
        {
            to_visit.push(mods[i].clone());
            i += 1;
        }
        proof {
            assert forall|x: Seq<char>|
                seq_contains_str(to_visit@, x) == seq_contains_str(mods@, x) by {
                if seq_contains_str(to_visit@, x) {
                    let j = choose|j: int| 0 <= j < to_visit@.len() && to_visit@[j]@ == x;
                    assert(mods@[j]@ == x);
                }
                if seq_contains_str(mods@, x) {
                    let j = choose|j: int| 0 <= j < mods@.len() && mods@[j]@ == x;
                    assert(to_visit@[j]@ == x);
                }
            }
            assert(strs_set(to_visit@) =~= seeds);
            assert forall|x: Seq<char>|
                Self::gathered(Seq::empty(), Seq::empty(), to_visit@).contains(x) implies self
                .reaches(seeds, x) by {
                self.lemma_reaches_seed(seeds, x);
            }
        }
        let mut resolved: Vec<String> = Vec::new();
        let mut unknown: Vec<String> = Vec::new();
        while to_visit.len() > 0
            invariant
                self.wf(),
                seeds == strs_set(mods@),
                seeds.subset_of(Self::gathered(resolved@, unknown@, to_visit@)),
                forall|j: int|
                    0 <= j < resolved@.len() ==> self.spec_contains((#[trigger] resolved@[j])@)
                        && self.spec_deps(resolved@[j]@).subset_of(
                        Self::gathered(resolved@, unknown@, to_visit@),
                    ),
                forall|j: int|
                    0 <= j < unknown@.len() ==> !self.spec_contains((#[trigger] unknown@[j])@),
                forall|x: Seq<char>|
                    Self::gathered(resolved@, unknown@, to_visit@).contains(x)
                        ==> self.reaches(seeds, x),
                strs_unique(resolved@),
                strs_unique(unknown@),
            decreases Self::pending_weight(self.entries_seq(), strs_set(resolved@))
                + to_visit@.len(),
        {
            let ghost pre_res = resolved@;
            let ghost pre_unk = unknown@;
            let ghost pre_tv = to_visit@;
            let ghost pre_e = Self::gathered(pre_res, pre_unk, pre_tv);
            let name = match to_visit.pop() {
                Some(popped) => popped,
                None => {
                    proof {
                        assert(false);
                    }
                    continue ;
                },
            };
            let ghost nm = name@;
            proof {
                assert(nm == pre_tv.last()@);
                assert(pre_e.contains(nm)) by {
                    assert(seq_contains_str(pre_tv, nm));
                }
                assert(self.reaches(seeds, nm));
            }
            match self.get(name.as_str()) {
                None => {
                    if !vec_contains_str(&unknown, name.as_str()) {
                        unknown.push(name);
                    }
                    proof {
                        let e2 = Self::gathered(resolved@, unknown@, to_visit@);
                        assert forall|x: Seq<char>| pre_e.contains(x) implies e2.contains(
                            x,
                        ) by {
                            lemma_seq_contains_drop_last(pre_tv, x);
                            if seq_contains_str(pre_unk, x) {
                                lemma_seq_contains_push(pre_unk, pre_tv.last(), x);
                            }
                            if x == nm {
                                if unknown@.len() > pre_unk.len() {
                                    lemma_seq_contains_push(pre_unk, pre_tv.last(), x);
                                }
                            }
                        }
                        assert forall|x: Seq<char>| e2.contains(x) implies pre_e.contains(
                            x,
                        ) by {
                            if seq_contains_str(unknown@, x) && !seq_contains_str(pre_unk, x) {
                                lemma_seq_contains_push(pre_unk, pre_tv.last(), x);
                                assert(x == nm);
                            }
                            if seq_contains_str(to_visit@, x) {
                                lemma_seq_contains_drop_last(pre_tv, x);
                            }
                        }
                        assert forall|j: int|
                            0 <= j < unknown@.len() implies !self.spec_contains(
                            (#[trigger] unknown@[j])@,
                        ) by {
                            if j < pre_unk.len() {
                                assert(unknown@[j]@ == pre_unk[j]@);
                            } else {
                                assert(unknown@[j]@ == nm);
                            }
                        }
                        assert(strs_unique(unknown@)) by {
                            if unknown@.len() > pre_unk.len() {
                                assert forall|a: int, b: int|
                                    0 <= a < b < unknown@.len() implies (
                                #[trigger] unknown@[a])@ != (#[trigger] unknown@[b])@ by {
                                    if b == unknown@.len() - 1 {
                                        assert(!seq_contains_str(pre_unk, nm));
                                        assert(unknown@[a]@ == pre_unk[a]@);
                                    }
                                }
                            }
                        }
                        assert(strs_set(resolved@) == strs_set(pre_res));
                    }
                },
                Some(info) => {
                    if vec_contains_str(&resolved, name.as_str()) {
                        proof {
                            let e2 = Self::gathered(resolved@, unknown@, to_visit@);
                            assert forall|x: Seq<char>| pre_e.contains(x) implies e2.contains(
                                x,
                            ) by {
                                lemma_seq_contains_drop_last(pre_tv, x);
                            }
                            assert forall|x: Seq<char>| e2.contains(x) implies pre_e.contains(
                                x,
                            ) by {
                                if seq_contains_str(to_visit@, x) {
                                    lemma_seq_contains_drop_last(pre_tv, x);
                                }
                            }
                        }
                    } else {
                        let ghost gidx = self.spec_index_of(nm);
                        proof {
                            self.lemma_index_of(nm);
                            lemma_seq_contains_push(pre_res, name, nm);
                            assert forall|x: Seq<char>|
                                strs_set(pre_res.push(name)).contains(x) implies (strs_set(
                                pre_res,
                            ).insert(nm)).contains(x) by {
                                lemma_seq_contains_push(pre_res, name, x);
                            }
                            assert forall|x: Seq<char>|
                                (strs_set(pre_res).insert(nm)).contains(x) implies strs_set(
                                pre_res.push(name),
                            ).contains(x) by {
                                lemma_seq_contains_push(pre_res, name, x);
                            }
                            assert(strs_set(pre_res.push(name)) =~= strs_set(pre_res).insert(
                                nm,
                            ));
                            assert(!strs_set(pre_res).contains(nm));
                            Self::lemma_weight_insert(
                                self.entries_seq(),
                                strs_set(pre_res),
                                gidx,
                            );
                        }
                        let ghost deps_len = info.dependencies@.len();
                        proof {
                            assert(self.entries_seq()[gidx].1 == self.spec_get(nm));
                            assert(deps_len == self.entries_seq()[gidx].1.dependencies@.len());
                        }
                        resolved.push(name);
                        let ghost mid_res = resolved@;
                        let ghost mid_e = Self::gathered(mid_res, pre_unk, to_visit@);
                        proof {
                            // the popped name moves into the resolved list
                            assert forall|x: Seq<char>| pre_e.contains(x) implies mid_e.contains(
                                x,
                            ) by {
                                lemma_seq_contains_drop_last(pre_tv, x);
                                lemma_seq_contains_push(pre_res, pre_tv.last(), x);
                            }
                            assert forall|x: Seq<char>| mid_e.contains(x) implies pre_e.contains(
                                x,
                            ) by {
                                if seq_contains_str(mid_res, x) {
                                    lemma_seq_contains_push(pre_res, pre_tv.last(), x);
                                }
                                if seq_contains_str(to_visit@, x) {
                                    lemma_seq_contains_drop_last(pre_tv, x);
                                }
                            }
                            assert(strs_unique(mid_res)) by {
                                assert forall|a: int, b: int|
                                    0 <= a < b < mid_res.len() implies (#[trigger] mid_res[a])@
                                    != (#[trigger] mid_res[b])@ by {
                                    if b == mid_res.len() - 1 {
                                        assert(!seq_contains_str(pre_res, nm));
                                        assert(mid_res[a]@ == pre_res[a]@);
                                    }
                                }
                            }
                        }
                        let dn = info.dependencies.len();
                        let mut dj: usize = 0;
                        while dj < dn
                            invariant
                                0 <= dj <= dn,
                                dn == info.dependencies@.len(),
                                info == self.spec_get(nm),
                                self.wf(),
                                self.spec_contains(nm),
                                seq_contains_str(mid_res, nm),
                                resolved@ == mid_res,
                                unknown@ == pre_unk,
                                to_visit@.len() == pre_tv.len() - 1 + dj,
                                forall|x: Seq<char>|
                                    mid_e.contains(x) ==> Self::gathered(
                                        mid_res,
                                        pre_unk,
                                        to_visit@,
                                    ).contains(x),
                                forall|x: Seq<char>|
                                    Self::gathered(mid_res, pre_unk, to_visit@).contains(x)
                                        ==> self.reaches(seeds, x),
                                forall|jj: int|
                                    0 <= jj < dj ==> seq_contains_str(
                                        to_visit@,
                                        (#[trigger] info.dependencies@[jj])@,
                                    ),
                            decreases dn - dj,
                        {
                            let ghost tv_in = to_visit@;
                            let dep = info.dependencies[dj].clone();
                            proof {
                                assert(dep@ == info.dependencies@[dj as int]@);
                                assert(self.spec_deps(nm).contains(dep@)) by {
                                    assert(seq_contains_str(
                                        self.spec_get(nm).dependencies@,
                                        dep@,
                                    ));
                                }
                                assert(self.reaches(seeds, nm)) by {
                                    assert(Self::gathered(mid_res, pre_unk, to_visit@).contains(
                                        nm,
                                    ));
                                }
                                self.lemma_reaches_step(seeds, nm, dep@);
                            }
                            to_visit.push(dep);
                            proof {
                                assert forall|x: Seq<char>|
                                    Self::gathered(mid_res, pre_unk, to_visit@).contains(
                                        x,
                                    ) implies self.reaches(seeds, x) by {
                                    if seq_contains_str(to_visit@, x) {
                                        lemma_seq_contains_push(
                                            tv_in,
                                            to_visit@.last(),
                                            x,
                                        );
                                    }
                                }
                                assert forall|x: Seq<char>|
                                    mid_e.contains(x) implies Self::gathered(
                                    mid_res,
                                    pre_unk,
                                    to_visit@,
                                ).contains(x) by {
                                    if seq_contains_str(tv_in, x) {
                                        lemma_seq_contains_push(
                                            tv_in,
                                            to_visit@.last(),
                                            x,
                                        );
                                    }
                                }
                                assert forall|jj: int|
                                    0 <= jj <= dj implies seq_contains_str(
                                    to_visit@,
                                    (#[trigger] info.dependencies@[jj])@,
                                ) by {
                                    lemma_seq_contains_push(tv_in, to_visit@.last(), info.dependencies@[jj]@);
                                    if jj < dj {
                                        assert(seq_contains_str(tv_in, info.dependencies@[jj]@));
                                    } else {
                                        assert(to_visit@.last()@ == dep@);
                                    }
                                }
                            }
                            dj += 1;
                        }
                        proof {
                            let e2 = Self::gathered(resolved@, unknown@, to_visit@);
                            // the new entry's dependencies all sit in the worklist
                            assert forall|x: Seq<char>|
                                self.spec_deps(nm).contains(x) implies e2.contains(x) by {
                                let jj = choose|jj: int|
                                    0 <= jj < self.spec_get(nm).dependencies@.len() && (
                                    self.spec_get(nm).dependencies@[jj])@ == x;
                                assert(seq_contains_str(to_visit@, info.dependencies@[jj]@));
                            }
                            // older invariant facts carry through the grown set
                            assert forall|j: int|
                                0 <= j < resolved@.len() implies self.spec_contains(
                                (#[trigger] resolved@[j])@,
                            ) && self.spec_deps(resolved@[j]@).subset_of(e2) by {
                                if j < pre_res.len() {
                                    assert(resolved@[j]@ == pre_res[j]@);
                                    assert forall|x: Seq<char>|
                                        self.spec_deps(resolved@[j]@).contains(x) implies e2
                                        .contains(x) by {
                                        assert(pre_e.contains(x));
                                    }
                                } else {
                                    assert(resolved@[j]@ == nm);
                                    assert(self.spec_deps(resolved@[j]@) =~= self.spec_deps(
                                        nm,
                                    ));
                                }
                            }
                            assert(seeds.subset_of(e2)) by {
                                assert forall|x: Seq<char>| seeds.contains(x) implies e2.contains(
                                    x,
                                ) by {
                                    assert(pre_e.contains(x));
                                }
                            }
                            // the decrease: the entry's weight paid for the pushes
                            assert(strs_set(resolved@) =~= strs_set(pre_res).insert(nm));
                            assert(Self::pending_weight(
                                self.entries_seq(),
                                strs_set(resolved@),
                            ) + 1 + deps_len <= Self::pending_weight(
                                self.entries_seq(),
                                strs_set(pre_res),
                            ));
                            assert(to_visit@.len() == pre_tv.len() - 1 + deps_len);
                        }
                    }
                },
            }
        }
        proof {
            let final_e = Self::gathered(resolved@, unknown@, to_visit@);
            assert(strs_set(to_visit@) =~= Set::<Seq<char>>::empty());
            assert(final_e =~= strs_set(resolved@).union(strs_set(unknown@)));
            assert(self.closed_set(seeds, final_e)) by {
                assert forall|m: Seq<char>|
                    final_e.contains(m) && self.spec_contains(m) implies (
                #[trigger] self.spec_deps(m)).subset_of(final_e) by {
                    if seq_contains_str(unknown@, m) {
                        let j = choose|j: int| 0 <= j < unknown@.len() && unknown@[j]@ == m;
                        assert(!self.spec_contains(unknown@[j]@));
                        assert(false);
                    }
                    assert(seq_contains_str(resolved@, m));
                    let j = choose|j: int| 0 <= j < resolved@.len() && resolved@[j]@ == m;
                    assert(self.spec_deps(resolved@[j]@).subset_of(final_e));
                }
            }
            self.lemma_closure_in_closed(seeds, final_e);
            assert forall|x: Seq<char>| final_e.contains(x) implies closure.contains(x) by {
                assert(self.reaches(seeds, x));
            }
            assert(closure =~= final_e);
        }
        if unknown.len() == 0 {
            proof {
                assert(strs_set(unknown@) =~= Set::<Seq<char>>::empty());
                assert(closure =~= strs_set(resolved@));
                assert forall|x: Seq<char>| closure.contains(x) implies self.key_set().contains(
                    x,
                ) by {
                    assert(seq_contains_str(resolved@, x));
                    let j = choose|j: int| 0 <= j < resolved@.len() && resolved@[j]@ == x;
                    assert(self.spec_contains(resolved@[j]@));
                }
            }
            Ok(resolved)
        } else {
            proof {
                assert(unknown@.len() > 0);
                assert(!self.spec_contains(unknown@[0]@));
                assert(seq_contains_str(unknown@, unknown@[0]@));
                assert(closure.contains(unknown@[0]@));
                assert(!closure.subset_of(self.key_set()));
                assert forall|x: Seq<char>|
                    strs_set(unknown@).contains(x) implies closure.difference(
                    self.key_set(),
                ).contains(x) by {
                    let j = choose|j: int| 0 <= j < unknown@.len() && unknown@[j]@ == x;
                    assert(!self.spec_contains(unknown@[j]@));
                }
                assert forall|x: Seq<char>|
                    closure.difference(self.key_set()).contains(x) implies strs_set(
                    unknown@,
                ).contains(x) by {
                    assert(Self::gathered(resolved@, unknown@, to_visit@).contains(x));
                    if seq_contains_str(resolved@, x) {
                        let j = choose|j: int| 0 <= j < resolved@.len() && resolved@[j]@ == x;
                        assert(self.spec_contains(resolved@[j]@));
                        assert(false);
                    }
                }
                assert(strs_set(unknown@) =~= closure.difference(self.key_set()));
            }
            Err(unknown)
        }
    }

    /// Resolve the dependency closure of one mod name.
    pub fn resolve_deps_single(&self, name: &str) -> (r: Result<Vec<String>, Vec<String>>)
        requires
            self.wf(),
        ensures
            ({
                let closure = self.dep_closure(Set::<Seq<char>>::empty().insert(name@));
                &&& ((r matches Ok(res)) <==> closure.subset_of(self.key_set()))
                &&& (r matches Ok(res) ==> strs_set(res@) == closure && strs_unique(res@))
                &&& (r matches Err(unk) ==> strs_set(unk@) == closure.difference(self.key_set())
                    && strs_unique(unk@) && unk@.len() > 0)
            }),
    {
        let mut mods: Vec<String> = Vec::new();
        mods.push(String::from_str(name));
        proof {
            assert forall|x: Seq<char>|
                strs_set(mods@).contains(x) == Set::<Seq<char>>::empty().insert(name@).contains(
                    x,
                ) by {
                if seq_contains_str(mods@, x) {
                    let j = choose|j: int| 0 <= j < mods@.len() && mods@[j]@ == x;
                    assert(j == 0);
                }
                if x == name@ {
                    assert(mods@[0]@ == x);
                }
            }
            assert(strs_set(mods@) =~= Set::<Seq<char>>::empty().insert(name@));
        }
        self.resolve_deps(&mods)
    }


    /// The closure always holds the seed set itself: every seed is reached
    /// by a path of length one.
    pub proof fn lemma_closure_contains_seeds(&self, seeds: Set<Seq<char>>)
        ensures
            seeds.subset_of(self.dep_closure(seeds)),
    {
        assert forall|x: Seq<char>| seeds.contains(x) implies self.dep_closure(seeds).contains(
            x,
        ) by {
            self.lemma_reaches_seed(seeds, x);
        }
    }

    /// The dependency closure is a fixpoint: resolving a closure again gives
    /// the same set. With `resolve_deps`'s contract this says that feeding a
    /// successful resolution back in as the seed set returns it unchanged.
    pub proof fn lemma_closure_idempotent(&self, seeds: Set<Seq<char>>)
        ensures
            self.dep_closure(self.dep_closure(seeds)) == self.dep_closure(seeds),
    {
        let c = self.dep_closure(seeds);
        assert(self.closed_set(c, c)) by {
            assert forall|m: Seq<char>|
                c.contains(m) && self.spec_contains(m) implies (
            #[trigger] self.spec_deps(m)).subset_of(c) by {
                assert forall|d: Seq<char>|
                    self.spec_deps(m).contains(d) implies c.contains(d) by {
                    self.lemma_reaches_step(seeds, m, d);
                }
            }
        }
        self.lemma_closure_in_closed(c, c);
        assert forall|x: Seq<char>| c.contains(x) implies self.dep_closure(c).contains(x) by {
            self.lemma_reaches_seed(c, x);
        }
        assert(self.dep_closure(c) =~= c);
    }

    /// Every name in a list is a registry key.
    pub open spec fn all_names_known(&self, list: Seq<String>) -> bool {
        forall|j: int| 0 <= j < list.len() ==> self.spec_contains((#[trigger] list[j])@)
    }

    /// Every dependency and integration reference of a manifest names a
    /// registry entry.
    pub open spec fn relations_ok(&self, info: ModInfo) -> bool {
        self.all_names_known(info.dependencies@) && self.all_names_known(info.integrations@)
    }

    /// The keys of the entries of `s` whose relations dangle, in order.
    pub open spec fn bad_relation_names(&self, s: Seq<(String, ModInfo)>) -> Seq<Seq<char>>
        decreases s.len(),
    {
        if s.len() == 0 {
            Seq::empty()
        } else {
            self.bad_relation_names(s.drop_last()) + (if !self.relations_ok(s.last().1) {
                seq![s.last().0@]
            } else {
                Seq::empty()
            })
        }
    }

    /// The members of `names` that are not valid mod names, in order.
    pub open spec fn invalid_names_of(names: Seq<Seq<char>>) -> Seq<Seq<char>>
        decreases names.len(),
    {
        if names.len() == 0 {
            Seq::empty()
        } else {
            Self::invalid_names_of(names.drop_last()) + (
            if !crate::valid_mod_name(names.last()) {
                seq![names.last()]
            } else {
                Seq::empty()
            })
        }
    }

    /// Test that every name in `list` is a registry key.
    fn list_known(&self, list: &Vec<String>) -> (r: bool)
        ensures
            r == self.all_names_known(list@),
    {
        let n = list.len();
        let mut j: usize = 0;
        while j < n
            invariant
                0 <= j <= n,
                n == list@.len(),
                forall|k: int| 0 <= k < j ==> self.spec_contains((#[trigger] list@[k])@),
            decreases n - j,
        {
            if !self.contains(list[j].as_str()) {
                return false;
            }
            j += 1;
        }
        true
    }

    /// Check that every registry key is a valid mod name; the offenders are
    /// handed back in registry order.
    pub fn validate_names(&self) -> (r: Result<(), Vec<String>>)
        ensures
            (r is Ok) <==> (forall|i: int|
                0 <= i < self.spec_names().len() ==> crate::valid_mod_name(
                    #[trigger] self.spec_names()[i],
                )),
            r matches Err(v) ==> v@.map_values(|s: String| s@) == Self::invalid_names_of(
                self.spec_names(),
            ) && v@.len() > 0,
    {
        let n = self.entries.len();
        let mut out: Vec<String> = Vec::new();
        let mut i: usize = 0;
        proof {
            assert(self.spec_names().take(0) =~= Seq::<Seq<char>>::empty());
        }
        while i < n
            invariant
                0 <= i <= n,
                n == self.entries_seq().len(),
                out@.map_values(|s: String| s@) == Self::invalid_names_of(
                    self.spec_names().take(i as int),
                ),
                (out@.len() == 0) == (forall|j: int|
                    0 <= j < i ==> crate::valid_mod_name(#[trigger] self.spec_names()[j])),
            decreases n - i,
        {
            let ghost pre = out@;
            let ghost names_i = self.spec_names().take(i as int);
            let ghost names_i1 = self.spec_names().take(i as int + 1);
            proof {
                assert(names_i1.drop_last() =~= names_i);
                assert(names_i1.last() == self.spec_names()[i as int]);
            }
            if !crate::is_valid_mod_name(self.entries[i].0.as_str()) {
                out.push(self.entries[i].0.clone());
                proof {
                    assert(out@.map_values(|s: String| s@) =~= pre.map_values(|s: String| s@)
                        + seq![self.spec_names()[i as int]]);
                }
            } else {
                proof {
                    assert(out@.map_values(|s: String| s@) =~= pre.map_values(
                        |s: String| s@,
                    ) + Seq::<Seq<char>>::empty());
                }
            }
            i += 1;
        }
        proof {
            assert(self.spec_names().take(n as int) =~= self.spec_names());
        }
        if out.len() == 0 {
            Ok(())
        } else {
            Err(out)
        }
    }

    /// Check that every dependency and integration reference in the registry
    /// names an existing entry; the names of the offending entries (not the
    /// missing references) are handed back in registry order. Cycles among
    /// existing entries are legal and not reported.
    pub fn validate_relations(&self) -> (r: Result<(), Vec<String>>)
        requires
            self.wf(),
        ensures
            (r is Ok) <==> (forall|i: int|
                0 <= i < self.entries_seq().len() ==> self.relations_ok(
                    (#[trigger] self.entries_seq()[i]).1,
                )),
            r matches Err(v) ==> v@.map_values(|s: String| s@) == self.bad_relation_names(
                self.entries_seq(),
            ) && v@.len() > 0,
    {
        let n = self.entries.len();
        let mut out: Vec<String> = Vec::new();
        let mut i: usize = 0;
        proof {
            assert(self.entries_seq().take(0) =~= Seq::<(String, ModInfo)>::empty());
        }
        while i < n
            invariant
                0 <= i <= n,
                n == self.entries_seq().len(),
                self.wf(),
                out@.map_values(|s: String| s@) == self.bad_relation_names(
                    self.entries_seq().take(i as int),
                ),
                (out@.len() == 0) == (forall|j: int|
                    0 <= j < i ==> self.relations_ok((#[trigger] self.entries_seq()[j]).1)),
            decreases n - i,
        {
            let ghost pre = out@;
            let ghost ents_i = self.entries_seq().take(i as int);
            let ghost ents_i1 = self.entries_seq().take(i as int + 1);
            proof {
                assert(ents_i1.drop_last() =~= ents_i);
                assert(ents_i1.last() == self.entries_seq()[i as int]);
            }
            let deps_ok = self.list_known(&self.entries[i].1.dependencies);
            let ints_ok = self.list_known(&self.entries[i].1.integrations);
            if !(deps_ok && ints_ok) {
                out.push(self.entries[i].0.clone());
                proof {
                    assert(out@.map_values(|s: String| s@) =~= pre.map_values(|s: String| s@)
                        + seq![self.entries_seq()[i as int].0@]);
                }
            } else {
                proof {
                    assert(out@.map_values(|s: String| s@) =~= pre.map_values(
                        |s: String| s@,
                    ) + Seq::<Seq<char>>::empty());
                }
            }
            i += 1;
        }
        proof {
            assert(self.entries_seq().take(n as int) =~= self.entries_seq());
        }
        if out.len() == 0 {
            Ok(())
        } else {
            Err(out)
        }
    }


    /// One downloaded file of a plan matches another: same digest, same URL.
    pub open spec fn file_like(a: crate::file_def::FileDef, b: crate::file_def::FileDef) -> bool {
        a.sha256@ == b.sha256@ && a.url@ == b.url@
    }

    /// Plan the downloads for a set of mods: resolve the dependency closure
    /// (unless told not to), and pair every name with the file serving the
    /// platform. Unknown names fail the whole plan.
    pub fn plan_downloads(
        &self,
        mods: &Vec<String>,
        no_deps: bool,
        platform: crate::platform::Platform,
    ) -> (r: Result<Vec<(String, crate::file_def::FileDef)>, Vec<String>>)
        requires
            self.wf(),
            no_deps ==> (forall|j: int|
                0 <= j < mods@.len() ==> self.spec_contains((#[trigger] mods@[j])@)),
        ensures
            ({
                let closure = self.dep_closure(strs_set(mods@));
                &&& (no_deps ==> (r matches Ok(v) && v@.map_values(
                    |e: (String, crate::file_def::FileDef)| e.0@,
                ) == mods@.map_values(|s: String| s@)))
                &&& (!no_deps ==> ((r matches Ok(v)) <==> closure.subset_of(self.key_set())))
                &&& (r matches Ok(v) ==> (!no_deps ==> strs_set(
                    v@.map_values(|e: (String, crate::file_def::FileDef)| e.0),
                ) == closure))
                &&& (r matches Err(unk) ==> (!no_deps ==> (strs_set(unk@) == closure.difference(
                    self.key_set(),
                ) && unk@.len() > 0)))
                &&& (r matches Ok(v) ==> forall|j: int|
                    0 <= j < v@.len() ==> self.spec_contains((#[trigger] v@[j]).0@)
                        && Self::file_like(
                        v@[j].1,
                        self.spec_get(v@[j].0@).links.spec_file(platform),
                    ))
            }),
    {
        let names: Vec<String> = if no_deps {
            let mut copy: Vec<String> = Vec::new();
            let mut i: usize = 0;
            let n = mods.len();
            while i < n
                invariant
                    0 <= i <= n,
                    n == mods@.len(),
                    copy@.len() == i,
                    forall|j: int| 0 <= j < i ==> (#[trigger] copy@[j])@ == mods@[j]@,
                decreases n - i,
            {
                copy.push(mods[i].clone());
                i += 1;
            }
            copy
        } else {
            match self.resolve_deps(mods) {
                Ok(res) => res,
                Err(unk) => {
                    return Err(unk);
                },
            }
        };
        let ghost closure = self.dep_closure(strs_set(mods@));
        proof {
            if no_deps {
                assert(names@.map_values(|s: String| s@) =~= mods@.map_values(|s: String| s@));
            }
            assert forall|j: int| 0 <= j < names@.len() implies self.spec_contains(
                (#[trigger] names@[j])@,
            ) by {
                if no_deps {
                    assert(names@[j]@ == mods@[j]@);
                } else {
                    assert(seq_contains_str(names@, names@[j]@));
                    assert(strs_set(names@).contains(names@[j]@));
                    assert(closure.contains(names@[j]@));
                    assert(self.key_set().contains(names@[j]@));
                }
            }
        }
        let n = names.len();
        let mut out: Vec<(String, crate::file_def::FileDef)> = Vec::new();
        let mut i: usize = 0;
        while i < n
            invariant
                0 <= i <= n,
                n == names@.len(),
                self.wf(),
                forall|j: int|
                    0 <= j < n ==> self.spec_contains((#[trigger] names@[j])@),
                out@.len() == i,
                forall|j: int| 0 <= j < i ==> (#[trigger] out@[j]).0@ == names@[j]@,
                forall|j: int| 0 <= j < i ==> (#[trigger] out@[j]).0 == names@[j],
                forall|j: int|
                    0 <= j < i ==> self.spec_contains((#[trigger] out@[j]).0@) && Self::file_like(
                        out@[j].1,
                        self.spec_get(out@[j].0@).links.spec_file(platform),
                    ),
            decreases n - i,
        {
            let info = match self.get(names[i].as_str()) {
                Some(inf) => inf,
                None => {
                    proof {
                        assert(false);
                    }
                    return Err(Vec::new());
                },
            };
            let file = info.links.file(platform);
            out.push((names[i].clone(), file.duplicate()));
            i += 1;
        }
        proof {
            assert(out@.map_values(|e: (String, crate::file_def::FileDef)| e.0@)
                =~= names@.map_values(|s: String| s@));
            if !no_deps {
                assert forall|x: Seq<char>|
                    strs_set(out@.map_values(|e: (String, crate::file_def::FileDef)| e.0))
                        .contains(x) == strs_set(names@).contains(x) by {
                    let ons = out@.map_values(|e: (String, crate::file_def::FileDef)| e.0);
                    if seq_contains_str(ons, x) {
                        let j = choose|j: int| 0 <= j < ons.len() && ons[j]@ == x;
                        assert(ons[j] == out@[j].0);
                        assert(names@[j]@ == x);
                    }
                    if seq_contains_str(names@, x) {
                        let j = choose|j: int| 0 <= j < names@.len() && names@[j]@ == x;
                        assert(ons[j] == out@[j].0);
                        assert(ons[j]@ == x);
                    }
                }
                assert(strs_set(out@.map_values(|e: (String, crate::file_def::FileDef)| e.0))
                    =~= strs_set(names@));
            }
        }
        Ok(out)
    }

}

impl Default for ModLinks {
    /// The default registry is empty.
    fn default() -> (r: Self)
        ensures
            r.entries_seq() == Seq::<(String, ModInfo)>::empty(),
            r.wf(),
    {
        ModLinks::new()
    }
}

} // verus!
