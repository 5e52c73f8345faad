use vstd::prelude::*;

verus! {

use crate::mod_info::ModInfo;
use crate::mod_links::ModLinks;
use crate::tag::Tag;
use crate::text::seq_contains_str;

/// The before and after of a changed text field.
#[derive(Debug)]
pub struct FieldChange {
    pub old: String,
    pub new: String,
}

/// The members leaving and entering a name set; a side with no members is
/// absent rather than empty.
#[derive(Debug)]
pub struct SetChange {
    pub removed: Option<Vec<String>>,
    pub added: Option<Vec<String>>,
}

/// The members leaving and entering a tag set; a side with no members is
/// absent rather than empty.
#[derive(Debug)]
pub struct TagSetChange {
    pub removed: Option<Vec<Tag>>,
    pub added: Option<Vec<Tag>>,
}

/// What a changelog reports of a brand-new mod.
#[derive(Debug)]
pub struct NewMod {
    pub description: String,
    pub dependencies: Vec<String>,
    pub integrations: Vec<String>,
    pub tags: Vec<Tag>,
}

/// What a changelog reports of an updated mod. An entry appears at all only
/// when the version text changed, so the version diff is always present;
/// every other field is reported only where it differs.
#[derive(Debug)]
pub struct ModUpdate {
    pub version: FieldChange,
    pub description: Option<FieldChange>,
    pub dependencies: Option<SetChange>,
    pub integrations: Option<SetChange>,
    pub tags: Option<TagSetChange>,
}

/// The structured difference between two registry snapshots. The `new` and
/// `updated` sections are absent, not empty, when nothing fell under them,
/// so that a renderer can tell "nothing happened" apart from "no field
/// changed".
#[derive(Debug)]
pub struct Changelog {
    pub new: Option<Vec<(String, NewMod)>>,
    pub removed: Vec<String>,
    pub updated: Option<Vec<(String, ModUpdate)>>,
}

/// The members of `a` (a name list) that do not occur in `b`, in `a`'s
/// order.
pub open spec fn diff_strs(a: Seq<String>, b: Seq<String>) -> Seq<Seq<char>>
    decreases a.len(),
{
    if a.len() == 0 {
        Seq::empty()
    } else {
        diff_strs(a.drop_last(), b) + (if !seq_contains_str(b, a.last()@) {
            seq![a.last()@]
        } else {
            Seq::empty()
        })
    }
}

/// A tag occurs in a tag list.
pub open spec fn seq_contains_tag(v: Seq<Tag>, t: Tag) -> bool {
    exists|i: int| 0 <= i < v.len() && v[i] == t
}

/// The members of `a` (a tag list) that do not occur in `b`, in `a`'s order.
pub open spec fn diff_tags(a: Seq<Tag>, b: Seq<Tag>) -> Seq<Tag>
    decreases a.len(),
{
    if a.len() == 0 {
        Seq::empty()
    } else {
        diff_tags(a.drop_last(), b) + (if !seq_contains_tag(b, a.last()) {
            seq![a.last()]
        } else {
            Seq::empty()
        })
    }
}

/// The reported change of a name set is exactly the two set differences,
/// with empty sides and empty diffs left absent.
pub open spec fn set_change_ok(c: Option<SetChange>, a: Seq<String>, b: Seq<String>) -> bool {
    let rem = diff_strs(a, b);
    let add = diff_strs(b, a);
    match c {
        None => rem.len() == 0 && add.len() == 0,
        Some(sc) => {
            &&& (rem.len() > 0 || add.len() > 0)
            &&& (match sc.removed {
                None => rem.len() == 0,
                Some(v) => rem.len() > 0 && v@.map_values(|s: String| s@) == rem,
            })
            &&& (match sc.added {
                None => add.len() == 0,
                Some(v) => add.len() > 0 && v@.map_values(|s: String| s@) == add,
            })
        },
    }
}

/// The reported change of a tag set is exactly the two set differences,
/// with empty sides and empty diffs left absent.
pub open spec fn tag_change_ok(c: Option<TagSetChange>, a: Seq<Tag>, b: Seq<Tag>) -> bool {
    let rem = diff_tags(a, b);
    let add = diff_tags(b, a);
    match c {
        None => rem.len() == 0 && add.len() == 0,
        Some(tc) => {
            &&& (rem.len() > 0 || add.len() > 0)
            &&& (match tc.removed {
                None => rem.len() == 0,
                Some(v) => rem.len() > 0 && v@ == rem,
            })
            &&& (match tc.added {
                None => add.len() == 0,
                Some(v) => add.len() > 0 && v@ == add,
            })
        },
    }
}

/// A new-mod summary carries the entry's description, dependencies,
/// integrations and tags.
pub open spec fn new_mod_ok(nm: NewMod, info: ModInfo) -> bool {
    &&& nm.description@ == info.description@
    &&& nm.dependencies@.map_values(|s: String| s@) == info.dependencies@.map_values(
        |s: String| s@,
    )
    &&& nm.integrations@.map_values(|s: String| s@) == info.integrations@.map_values(
        |s: String| s@,
    )
    &&& nm.tags@ == info.tags@
}

/// An update entry reports the version texts, and each other watched field
/// exactly where it differs.
pub open spec fn mod_update_ok(u: ModUpdate, old_info: ModInfo, new_info: ModInfo) -> bool {
    &&& u.version.old@ == old_info.version.spec_str()
    &&& u.version.new@ == new_info.version.spec_str()
    &&& (u.description is Some) == (old_info.description@ != new_info.description@)
    &&& (u.description matches Some(c) ==> c.old@ == old_info.description@ && c.new@
        == new_info.description@)
    &&& set_change_ok(u.dependencies, old_info.dependencies@, new_info.dependencies@)
    &&& set_change_ok(u.integrations, old_info.integrations@, new_info.integrations@)
    &&& tag_change_ok(u.tags, old_info.tags@, new_info.tags@)
}

/// The keys of `s` that are not keys of `reg`, in `s`'s order.
pub open spec fn absent_names(s: Seq<(String, ModInfo)>, reg: ModLinks) -> Seq<Seq<char>>
    decreases s.len(),
{
    if s.len() == 0 {
        Seq::empty()
    } else {
        absent_names(s.drop_last(), reg) + (if !reg.spec_contains(s.last().0@) {
            seq![s.last().0@]
        } else {
            Seq::empty()
        })
    }
}

/// The keys of `s` that are keys of `old` under a different version text, in
/// `s`'s order; membership in a changelog's `updated` section is gated on
/// the version text alone, as the rest of the fields are diffed only for
/// entries that re-released.
pub open spec fn updated_names(s: Seq<(String, ModInfo)>, old: ModLinks) -> Seq<Seq<char>>
    decreases s.len(),
{
    if s.len() == 0 {
        Seq::empty()
    } else {
        updated_names(s.drop_last(), old) + (if old.spec_contains(s.last().0@) && old.spec_get(
            s.last().0@,
        ).version.spec_str() != s.last().1.version.spec_str() {
            seq![s.last().0@]
        } else {
            Seq::empty()
        })
    }
}

/// Copy a name list.
fn clone_strings(v: &Vec<String>) -> (r: Vec<String>)
    ensures
        r@.map_values(|s: String| s@) == v@.map_values(|s: String| s@),
        r@.len() == v@.len(),
{
    let n = v.len();
    let mut out: Vec<String> = Vec::new();
    let mut i: usize = 0;
    while i < n
        invariant
            0 <= i <= n,
            n == v@.len(),
            out@.len() == i,
            forall|j: int| 0 <= j < i ==> (#[trigger] out@[j])@ == v@[j]@,
        decreases n - i,
    {
        out.push(v[i].clone());
        i += 1;
    }
    proof {
        assert(out@.map_values(|s: String| s@) =~= v@.map_values(|s: String| s@));
    }
    out
}

/// Copy a tag list.
fn clone_tags(v: &Vec<Tag>) -> (r: Vec<Tag>)
    ensures
        r@ == v@,
{
    let n = v.len();
    let mut out: Vec<Tag> = Vec::new();
    let mut i: usize = 0;
    while i < n
        invariant
            0 <= i <= n,
            n == v@.len(),
            out@ =~= v@.take(i as int),
        decreases n - i,
    {
        out.push(v[i]);
        proof {
            assert(out@ =~= v@.take(i + 1));
        }
        i += 1;
    }
    proof {
        assert(v@.take(n as int) =~= v@);
    }
    out
}

/// A tag occurs in a tag list.
fn vec_contains_tag(v: &Vec<Tag>, t: Tag) -> (r: bool)
    ensures
        r == seq_contains_tag(v@, t),
{
    let n = v.len();
    let mut i: usize = 0;
    while i < n
        invariant
            0 <= i <= n,
            n == v@.len(),
            forall|j: int| 0 <= j < i ==> v@[j] != t,
        decreases n - i,
    {
        if v[i] == t {
            return true;
        }
        i += 1;
    }
    false
}

/// The members of `a` that do not occur in `b`, in `a`'s order.
fn string_set_diff(a: &Vec<String>, b: &Vec<String>) -> (r: Vec<String>)
    ensures
        r@.map_values(|s: String| s@) == diff_strs(a@, b@),
{
    let n = a.len();
    let mut out: Vec<String> = Vec::new();
    let mut i: usize = 0;
    proof {
        assert(a@.take(0) =~= Seq::<String>::empty());
    }
    while i < n
        invariant
            0 <= i <= n,
            n == a@.len(),
            out@.map_values(|s: String| s@) == diff_strs(a@.take(i as int), b@),
        decreases n - i,
    {
        let ghost pre = out@;
        proof {
            assert(a@.take(i + 1).drop_last() =~= a@.take(i as int));
            assert(a@.take(i + 1).last() == a@[i as int]);
        }
        if !crate::text::vec_contains_str(b, a[i].as_str()) {
            out.push(a[i].clone());
            proof {
                assert(out@.map_values(|s: String| s@) =~= pre.map_values(|s: String| s@)
                    + seq![a@[i as int]@]);
            }
        } else {
            proof {
                assert(out@.map_values(|s: String| s@) =~= pre.map_values(|s: String| s@)
                    + Seq::<Seq<char>>::empty());
            }
        }
        i += 1;
    }
    proof {
        assert(a@.take(n as int) =~= a@);
    }
    out
}

/// The members of `a` that do not occur in `b`, in `a`'s order.
fn tag_set_diff(a: &Vec<Tag>, b: &Vec<Tag>) -> (r: Vec<Tag>)
    ensures
        r@ == diff_tags(a@, b@),
{
    let n = a.len();
    let mut out: Vec<Tag> = Vec::new();
    let mut i: usize = 0;
    proof {
        assert(a@.take(0) =~= Seq::<Tag>::empty());
    }
    while i < n
        invariant
            0 <= i <= n,
            n == a@.len(),
            out@ == diff_tags(a@.take(i as int), b@),
        decreases n - i,
    {
        let ghost pre = out@;
        proof {
            assert(a@.take(i + 1).drop_last() =~= a@.take(i as int));
            assert(a@.take(i + 1).last() == a@[i as int]);
        }
        if !vec_contains_tag(b, a[i]) {
            out.push(a[i]);
            proof {
                assert(out@ =~= pre + seq![a@[i as int]]);
            }
        } else {
            proof {
                assert(out@ =~= pre + Seq::<Tag>::empty());
            }
        }
        i += 1;
    }
    proof {
        assert(a@.take(n as int) =~= a@);
    }
    out
}

/// The change of a text field: absent when the texts are equal.
fn gen_old_new(old: &String, new: &String) -> (r: Option<FieldChange>)
    ensures
        (r is Some) == (old@ != new@),
        r matches Some(c) ==> c.old@ == old@ && c.new@ == new@,
{
    if crate::text::str_eq(old.as_str(), new.as_str()) {
        None
    } else {
        Some(FieldChange { old: old.clone(), new: new.clone() })
    }
}

/// The change of a name set: absent when nothing left and nothing entered;
/// a side that is empty is absent, never reported as an empty list.
fn gen_removed_added(removed: Vec<String>, added: Vec<String>) -> (r: Option<SetChange>)
    ensures
        (r is Some) == (removed@.len() > 0 || added@.len() > 0),
        r matches Some(c) ==> {
            &&& (match c.removed {
                None => removed@.len() == 0,
                Some(v) => removed@.len() > 0 && v == removed,
            })
            &&& (match c.added {
                None => added@.len() == 0,
                Some(v) => added@.len() > 0 && v == added,
            })
        },
{
    let removed_empty = removed.len() == 0;
    let added_empty = added.len() == 0;
    if removed_empty && added_empty {
        return None;
    }
    Some(
        SetChange {
            removed: if removed_empty {
                None
            } else {
                Some(removed)
            },
            added: if added_empty {
                None
            } else {
                Some(added)
            },
        },
    )
}

/// The change of a tag set: absent when nothing left and nothing entered; a
/// side that is empty is absent, never reported as an empty list.
fn gen_removed_added_tags(removed: Vec<Tag>, added: Vec<Tag>) -> (r: Option<TagSetChange>)
    ensures
        (r is Some) == (removed@.len() > 0 || added@.len() > 0),
        r matches Some(c) ==> {
            &&& (match c.removed {
                None => removed@.len() == 0,
                Some(v) => removed@.len() > 0 && v == removed,
            })
            &&& (match c.added {
                None => added@.len() == 0,
                Some(v) => added@.len() > 0 && v == added,
            })
        },
{
    let removed_empty = removed.len() == 0;
    let added_empty = added.len() == 0;
    if removed_empty && added_empty {
        return None;
    }
    Some(
        TagSetChange {
            removed: if removed_empty {
                None
            } else {
                Some(removed)
            },
            added: if added_empty {
                None
            } else {
                Some(added)
            },
        },
    )
}

/// Diff one mod's manifests: an update is reported only when the version
/// text changed; the other watched fields are then each reported where they
/// differ.
fn diff_entry(old_info: &ModInfo, new_info: &ModInfo) -> (r: Option<ModUpdate>)
    ensures
        (r is Some) == (old_info.version.spec_str() != new_info.version.spec_str()),
        r matches Some(u) ==> mod_update_ok(u, *old_info, *new_info),
{
    let ver = match gen_old_new(old_info.version.str(), new_info.version.str()) {
        None => {
            return None;
        },
        Some(c) => c,
    };
    let description = gen_old_new(&old_info.description, &new_info.description);
    let dependencies = gen_removed_added(
        string_set_diff(&old_info.dependencies, &new_info.dependencies),
        string_set_diff(&new_info.dependencies, &old_info.dependencies),
    );
    let integrations = gen_removed_added(
        string_set_diff(&old_info.integrations, &new_info.integrations),
        string_set_diff(&new_info.integrations, &old_info.integrations),
    );
    let tags = gen_removed_added_tags(
        tag_set_diff(&old_info.tags, &new_info.tags),
        tag_set_diff(&new_info.tags, &old_info.tags),
    );
    Some(ModUpdate { version: ver, description, dependencies, integrations, tags })
}

impl Changelog {
    /// Diff two registry snapshots into a changelog: mods only in `new_reg`
    /// under `new` with a summary; mods only in `old_reg` under `removed` by
    /// name; mods in both whose version text changed under `updated` with
    /// field diffs.
    pub fn new(old_reg: &ModLinks, new_reg: &ModLinks) -> (r: Changelog)
        requires
            old_reg.wf(),
            new_reg.wf(),
        ensures
            r.removed@.map_values(|s: String| s@) == absent_names(old_reg.entries_seq(), *new_reg),
            (r.new is Some) == (absent_names(new_reg.entries_seq(), *old_reg).len() > 0),
            r.new matches Some(v) ==> {
                &&& v@.map_values(|e: (String, NewMod)| e.0@) == absent_names(
                    new_reg.entries_seq(),
                    *old_reg,
                )
                &&& forall|j: int|
                    0 <= j < v@.len() ==> new_reg.spec_contains((#[trigger] v@[j]).0@)
                        && new_mod_ok(v@[j].1, new_reg.spec_get(v@[j].0@))
            },
            (r.updated is Some) == (updated_names(new_reg.entries_seq(), *old_reg).len() > 0),
            r.updated matches Some(v) ==> {
                &&& v@.map_values(|e: (String, ModUpdate)| e.0@) == updated_names(
                    new_reg.entries_seq(),
                    *old_reg,
                )
                &&& forall|j: int|
                    0 <= j < v@.len() ==> old_reg.spec_contains((#[trigger] v@[j]).0@)
                        && new_reg.spec_contains(v@[j].0@) && mod_update_ok(
                        v@[j].1,
                        old_reg.spec_get(v@[j].0@),
                        new_reg.spec_get(v@[j].0@),
                    )
            },
    {
        let n_new = new_reg.len();
        let mut new_list: Vec<(String, NewMod)> = Vec::new();
        let mut updated_list: Vec<(String, ModUpdate)> = Vec::new();
        let mut i: usize = 0;
        proof {
            assert(new_reg.entries_seq().take(0) =~= Seq::<(String, ModInfo)>::empty());
        }
        while i < n_new
            invariant
                0 <= i <= n_new,
                n_new == new_reg.entries_seq().len(),
                old_reg.wf(),
                new_reg.wf(),
                new_list@.map_values(|e: (String, NewMod)| e.0@) == absent_names(
                    new_reg.entries_seq().take(i as int),
                    *old_reg,
                ),
                forall|j: int|
                    0 <= j < new_list@.len() ==> new_reg.spec_contains(
                        (#[trigger] new_list@[j]).0@,
                    ) && new_mod_ok(new_list@[j].1, new_reg.spec_get(new_list@[j].0@)),
                updated_list@.map_values(|e: (String, ModUpdate)| e.0@) == updated_names(
                    new_reg.entries_seq().take(i as int),
                    *old_reg,
                ),
                forall|j: int|
                    0 <= j < updated_list@.len() ==> old_reg.spec_contains(
                        (#[trigger] updated_list@[j]).0@,
                    ) && new_reg.spec_contains(updated_list@[j].0@) && mod_update_ok(
                        updated_list@[j].1,
                        old_reg.spec_get(updated_list@[j].0@),
                        new_reg.spec_get(updated_list@[j].0@),
                    ),
            decreases n_new - i,
        {
            let ghost pre_new = new_list@;
            let ghost pre_upd = updated_list@;
            proof {
                assert(new_reg.entries_seq().take(i + 1).drop_last() =~= new_reg.entries_seq()
                    .take(i as int));
                assert(new_reg.entries_seq().take(i + 1).last() == new_reg.entries_seq()[i as int]);
            }
            let name = new_reg.name_at(i);
            let info = new_reg.info_at(i);
            proof {
                assert(new_reg.entries_seq()[i as int].0@ == name@);
                assert(new_reg.spec_contains(name@));
                new_reg.lemma_index_of(name@);
                assert(new_reg.spec_get(name@) == *info);
            }
            match old_reg.get(name.as_str()) {
                None => {
                    let summary = NewMod {
                        description: info.description.clone(),
                        dependencies: clone_strings(&info.dependencies),
                        integrations: clone_strings(&info.integrations),
                        tags: clone_tags(&info.tags),
                    };
                    new_list.push((name.clone(), summary));
                    proof {
                        assert(new_list@.map_values(|e: (String, NewMod)| e.0@) =~= pre_new
                            .map_values(|e: (String, NewMod)| e.0@) + seq![name@]);
                        assert(updated_list@.map_values(|e: (String, ModUpdate)| e.0@)
                            =~= pre_upd.map_values(|e: (String, ModUpdate)| e.0@)
                            + Seq::<Seq<char>>::empty());
                    }
                },
                Some(old_info) => {
                    match diff_entry(old_info, info) {
                        None => {
                            proof {
                                assert(new_list@.map_values(|e: (String, NewMod)| e.0@)
                                    =~= pre_new.map_values(|e: (String, NewMod)| e.0@)
                                    + Seq::<Seq<char>>::empty());
                                assert(updated_list@.map_values(|e: (String, ModUpdate)| e.0@)
                                    =~= pre_upd.map_values(|e: (String, ModUpdate)| e.0@)
                                    + Seq::<Seq<char>>::empty());
                            }
                        },
                        Some(update) => {
                            updated_list.push((name.clone(), update));
                            proof {
                                assert(new_list@.map_values(|e: (String, NewMod)| e.0@)
                                    =~= pre_new.map_values(|e: (String, NewMod)| e.0@)
                                    + Seq::<Seq<char>>::empty());
                                assert(updated_list@.map_values(|e: (String, ModUpdate)| e.0@)
                                    =~= pre_upd.map_values(|e: (String, ModUpdate)| e.0@)
                                    + seq![name@]);
                            }
                        },
                    }
                },
            }
            i += 1;
        }
        proof {
            assert(new_reg.entries_seq().take(n_new as int) =~= new_reg.entries_seq());
        }
        let n_old = old_reg.len();
        let mut removed: Vec<String> = Vec::new();
        let mut k: usize = 0;
        proof {
            assert(old_reg.entries_seq().take(0) =~= Seq::<(String, ModInfo)>::empty());
        }
        while k < n_old
            invariant
                0 <= k <= n_old,
                n_old == old_reg.entries_seq().len(),
                new_reg.wf(),
                removed@.map_values(|s: String| s@) == absent_names(
                    old_reg.entries_seq().take(k as int),
                    *new_reg,
                ),
            decreases n_old - k,
        {
            let ghost pre_rem = removed@;
            proof {
                assert(old_reg.entries_seq().take(k + 1).drop_last() =~= old_reg.entries_seq()
                    .take(k as int));
                assert(old_reg.entries_seq().take(k + 1).last() == old_reg.entries_seq()[k as int]);
            }
            let name = old_reg.name_at(k);
            proof {
                assert(old_reg.entries_seq()[k as int].0@ == name@);
            }
            if !new_reg.contains(name.as_str()) {
                removed.push(name.clone());
                proof {
                    assert(removed@.map_values(|s: String| s@) =~= pre_rem.map_values(
                        |s: String| s@,
                    ) + seq![name@]);
                }
            } else {
                proof {
                    assert(removed@.map_values(|s: String| s@) =~= pre_rem.map_values(
                        |s: String| s@,
                    ) + Seq::<Seq<char>>::empty());
                }
            }
            k += 1;
        }
        proof {
            assert(old_reg.entries_seq().take(n_old as int) =~= old_reg.entries_seq());
        }
        let ghost new_names = absent_names(new_reg.entries_seq(), *old_reg);
        let ghost upd_names = updated_names(new_reg.entries_seq(), *old_reg);
        proof {
            assert(new_list@.len() == new_names.len()) by {
                assert(new_list@.map_values(|e: (String, NewMod)| e.0@).len()
                    == new_list@.len());
            }
            assert(updated_list@.len() == upd_names.len()) by {
                assert(updated_list@.map_values(|e: (String, ModUpdate)| e.0@).len()
                    == updated_list@.len());
            }
        }
        Changelog {
            new: if new_list.len() == 0 {
                None
            } else {
                Some(new_list)
            },
            removed,
            updated: if updated_list.len() == 0 {
                None
            } else {
                Some(updated_list)
            },
        }
    }
}

impl ModLinks {
    /// The changelog from the older snapshot `old` up to this registry.
    pub fn changelog_since(&self, old: &ModLinks) -> (r: Changelog)
        requires
            self.wf(),
            old.wf(),
        ensures
            r.removed@.map_values(|s: String| s@) == absent_names(old.entries_seq(), *self),
            (r.new is Some) == (absent_names(self.entries_seq(), *old).len() > 0),
            (r.updated is Some) == (updated_names(self.entries_seq(), *old).len() > 0),
            r.new matches Some(v) ==> v@.map_values(|e: (String, NewMod)| e.0@) == absent_names(
                self.entries_seq(),
                *old,
            ),
            r.updated matches Some(v) ==> v@.map_values(|e: (String, ModUpdate)| e.0@)
                == updated_names(self.entries_seq(), *old),
    {
        Changelog::new(old, self)
    }

    /// The changelog from this registry up to the newer snapshot `new`.
    pub fn changelog_until(&self, new: &ModLinks) -> (r: Changelog)
        requires
            self.wf(),
            new.wf(),
        ensures
            r.removed@.map_values(|s: String| s@) == absent_names(self.entries_seq(), *new),
            (r.new is Some) == (absent_names(new.entries_seq(), *self).len() > 0),
            (r.updated is Some) == (updated_names(new.entries_seq(), *self).len() > 0),
            r.new matches Some(v) ==> v@.map_values(|e: (String, NewMod)| e.0@) == absent_names(
                new.entries_seq(),
                *self,
            ),
            r.updated matches Some(v) ==> v@.map_values(|e: (String, ModUpdate)| e.0@)
                == updated_names(new.entries_seq(), *self),
    {
        Changelog::new(self, new)
    }
}

} // verus!
