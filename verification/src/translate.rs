use vstd::prelude::*;

verus! {

use crate::mod_info::ModInfo;
use crate::mod_links::ModLinks;
use crate::text::str_eq;

/// One mod's translation: the translated display name and the translated
/// description.
#[derive(Debug, Clone)]
pub struct ModTranslation {
    pub name: String,
    pub desc: String,
}

/// The first translation filed under `name`, if any.
pub open spec fn find_translation(
    ts: Seq<(String, ModTranslation)>,
    name: Seq<char>,
) -> Option<ModTranslation>
    decreases ts.len(),
{
    if ts.len() == 0 {
        None
    } else if ts[0].0@ == name {
        Some(ts[0].1)
    } else {
        find_translation(ts.drop_first(), name)
    }
}

/// A translated description whose translated name differs from the mod's
/// key is prefixed with that name in parentheses on a line of its own.
pub open spec fn annotated_desc(tname: Seq<char>, tdesc: Seq<char>) -> Seq<char> {
    seq!['('] + tname + seq![')', '\n'] + tdesc
}

/// The description an entry ends up with: untouched without a translation;
/// the translated description, annotated when the translated name differs
/// from the key.
pub open spec fn expected_desc(
    t: Option<ModTranslation>,
    key: Seq<char>,
    old_desc: Seq<char>,
) -> Seq<char> {
    match t {
        None => old_desc,
        Some(tr) => if tr.name@ == key {
            tr.desc@
        } else {
            annotated_desc(tr.name@, tr.desc@)
        },
    }
}

/// Applying a translation changes the description as `expected_desc` says
/// and nothing else.
pub open spec fn translated_info_ok(
    g: ModInfo,
    o: ModInfo,
    t: Option<ModTranslation>,
    key: Seq<char>,
) -> bool {
    &&& g.description@ == expected_desc(t, key, o.description@)
    &&& g.display_name == o.display_name
    &&& g.version == o.version
    &&& g.links == o.links
    &&& g.dependencies == o.dependencies
    &&& g.repository == o.repository
    &&& g.issues == o.issues
    &&& g.integrations == o.integrations
    &&& g.tags == o.tags
    &&& g.authors == o.authors
}

/// The names of `names` that have no translation, in order.
pub open spec fn untranslated_names(
    names: Seq<Seq<char>>,
    ts: Seq<(String, ModTranslation)>,
) -> Seq<Seq<char>>
    decreases names.len(),
{
    if names.len() == 0 {
        Seq::empty()
    } else {
        untranslated_names(names.drop_last(), ts) + (if find_translation(
            ts,
            names.last(),
        ) is None {
            seq![names.last()]
        } else {
            Seq::empty()
        })
    }
}

/// The translation keys that name no registry entry, in order.
pub open spec fn redundant_names(ts: Seq<(String, ModTranslation)>, reg: ModLinks) -> Seq<
    Seq<char>,
>
    decreases ts.len(),
{
    if ts.len() == 0 {
        Seq::empty()
    } else {
        redundant_names(ts.drop_last(), reg) + (if !reg.spec_contains(ts.last().0@) {
            seq![ts.last().0@]
        } else {
            Seq::empty()
        })
    }
}

/// Find the first translation filed under `name`.
fn lookup_translation(ts: &Vec<(String, ModTranslation)>, name: &str) -> (r: Option<usize>)
    ensures
        r matches Some(j) ==> j < ts@.len() && ts@[j as int].0@ == name@ && find_translation(
            ts@,
            name@,
        ) == Some(ts@[j as int].1),
        (r is None) == (find_translation(ts@, name@) is None),
{
    let n = ts.len();
    let mut i: usize = 0;
    proof {
        assert(ts@.skip(0) =~= ts@);
    }
    while i < n
        invariant
            0 <= i <= n,
            n == ts@.len(),
            find_translation(ts@, name@) == find_translation(ts@.skip(i as int), name@),
        decreases n - i,
    {
        proof {
            assert(ts@.skip(i as int)[0] == ts@[i as int]);
            assert(ts@.skip(i as int).drop_first() =~= ts@.skip(i as int + 1));
        }
        if str_eq(ts[i].0.as_str(), name) {
            return Some(i);
        }
        i += 1;
    }
    proof {
        assert(ts@.skip(n as int).len() == 0);
    }
    None
}

/// Rewrite every entry's description from its translation, leaving every
/// other field alone. Returns the names of entries that had no translation,
/// and the translation keys that named no entry, each in order.
pub fn apply_translations(reg: &mut ModLinks, ts: &Vec<(String, ModTranslation)>) -> (r: (
    Vec<String>,
    Vec<String>,
))
    requires
        old(reg).wf(),
    ensures
        final(reg).wf(),
        forall|k: Seq<char>|
            #[trigger] final(reg).spec_contains(k) == old(reg).spec_contains(k),
        forall|k: Seq<char>|
            old(reg).spec_contains(k) ==> translated_info_ok(
                #[trigger] final(reg).spec_get(k),
                old(reg).spec_get(k),
                find_translation(ts@, k),
                k,
            ),
        r.0@.map_values(|s: String| s@) == untranslated_names(old(reg).spec_names(), ts@),
        r.1@.map_values(|s: String| s@) == redundant_names(ts@, *old(reg)),
{
    let ghost pre = *reg;
    let names = reg.mod_names();
    proof {
        pre.lemma_wf_unique();
        assert(names@.len() == pre.spec_names().len());
        assert forall|a: int, b: int|
            0 <= a < names@.len() && 0 <= b < names@.len() && a != b implies (
        #[trigger] names@[a])@ != (#[trigger] names@[b])@ by {
            assert(names@.map_values(|s: String| s@)[a] == names@[a]@);
            assert(names@.map_values(|s: String| s@)[b] == names@[b]@);
            assert(pre.entries_seq()[a].0@ == names@[a]@);
            assert(pre.entries_seq()[b].0@ == names@[b]@);
        }
        assert forall|j: int| 0 <= j < names@.len() implies pre.spec_contains(
            (#[trigger] names@[j])@,
        ) by {
            assert(names@.map_values(|s: String| s@)[j] == names@[j]@);
            assert(pre.entries_seq()[j].0@ == names@[j]@);
        }
        assert(pre.spec_names().take(0) =~= Seq::<Seq<char>>::empty());
    }
    let n = names.len();
    let mut missing: Vec<String> = Vec::new();
    let mut i: usize = 0;
    while i < n
        invariant
            0 <= i <= n,
            n == names@.len(),
            n == pre.spec_names().len(),
            reg.wf(),
            pre.wf(),
            forall|j: int| 0 <= j < n ==> (#[trigger] names@[j])@ == pre.spec_names()[j],
            forall|j: int| 0 <= j < n ==> pre.spec_contains((#[trigger] names@[j])@),
            forall|a: int, b: int|
                0 <= a < n && 0 <= b < n && a != b ==> (#[trigger] names@[a])@ != (
                #[trigger] names@[b])@,
            forall|k: Seq<char>| #[trigger] reg.spec_contains(k) == pre.spec_contains(k),
            forall|j: int|
                0 <= j < i ==> translated_info_ok(
                    #[trigger] reg.spec_get(names@[j]@),
                    pre.spec_get(names@[j]@),
                    find_translation(ts@, names@[j]@),
                    names@[j]@,
                ),
            forall|j: int|
                i <= j < n ==> #[trigger] reg.spec_get(names@[j]@) == pre.spec_get(names@[j]@),
            missing@.map_values(|s: String| s@) == untranslated_names(
                pre.spec_names().take(i as int),
                ts@,
            ),
        decreases n - i,
    {
        let ghost pre_missing = missing@;
        proof {
            assert(pre.spec_names().take(i + 1).drop_last() =~= pre.spec_names().take(i as int));
            assert(pre.spec_names().take(i + 1).last() == pre.spec_names()[i as int]);
        }
        match lookup_translation(ts, names[i].as_str()) {
            None => {
                missing.push(names[i].clone());
                proof {
                    assert(missing@.map_values(|s: String| s@) =~= pre_missing.map_values(
                        |s: String| s@,
                    ) + seq![names@[i as int]@]);
                }
            },
            Some(j) => {
                let ghost reg_mid = *reg;
                let removed = reg.remove(names[i].as_str());
                let mut info = match removed {
                    Some(inf) => inf,
                    None => {
                        proof {
                            assert(false);
                        }
                        return (missing, Vec::new());
                    },
                };
                let tr_name = &ts[j].1.name;
                let tr_desc = &ts[j].1.desc;
                if str_eq(tr_name.as_str(), names[i].as_str()) {
                    info.description = tr_desc.clone();
                } else {
                    let mut d = String::from_str("(");
                    d.append(tr_name.as_str());
                    d.append(")\n");
                    d.append(tr_desc.as_str());
                    proof {
                        reveal_strlit("(");
                        reveal_strlit(")\n");
                        assert(d@ =~= annotated_desc(tr_name@, tr_desc@));
                    }
                    info.description = d;
                }
                reg.insert(names[i].clone(), info);
                proof {
                    assert(reg.spec_contains(names@[i as int]@));
                    assert forall|k: Seq<char>|
                        #[trigger] reg.spec_contains(k) == pre.spec_contains(k) by {
                        if k != names@[i as int]@ {
                            assert(reg_mid.spec_contains(k) == pre.spec_contains(k));
                        }
                    }
                    assert(translated_info_ok(
                        reg.spec_get(names@[i as int]@),
                        pre.spec_get(names@[i as int]@),
                        find_translation(ts@, names@[i as int]@),
                        names@[i as int]@,
                    ));
                    assert forall|j2: int|
                        0 <= j2 < n && j2 != i implies #[trigger] reg.spec_get(names@[j2]@)
                        == reg_mid.spec_get(names@[j2]@) by {
                        assert(names@[j2]@ != names@[i as int]@);
                    }
                    assert(missing@.map_values(|s: String| s@) =~= pre_missing.map_values(
                        |s: String| s@,
                    ) + Seq::<Seq<char>>::empty());
                }
            },
        }
        i += 1;
    }
    proof {
        assert(pre.spec_names().take(n as int) =~= pre.spec_names());
        assert forall|k: Seq<char>|
            pre.spec_contains(k) implies translated_info_ok(
            #[trigger] reg.spec_get(k),
            pre.spec_get(k),
            find_translation(ts@, k),
            k,
        ) by {
            let j = pre.spec_index_of(k);
            pre.lemma_index_of(k);
            assert(names@[j]@ == pre.spec_names()[j]);
            assert(pre.spec_names()[j] == k);
        }
    }
    let tn = ts.len();
    let mut redundant: Vec<String> = Vec::new();
    let mut t: usize = 0;
    proof {
        assert(ts@.take(0) =~= Seq::<(String, ModTranslation)>::empty());
    }
    while t < tn
        invariant
            0 <= t <= tn,
            tn == ts@.len(),
            forall|k: Seq<char>| #[trigger] reg.spec_contains(k) == pre.spec_contains(k),
            redundant@.map_values(|s: String| s@) == redundant_names(ts@.take(t as int), pre),
        decreases tn - t,
    {
        let ghost pre_red = redundant@;
        proof {
            assert(ts@.take(t + 1).drop_last() =~= ts@.take(t as int));
            assert(ts@.take(t + 1).last() == ts@[t as int]);
        }
        if !reg.contains(ts[t].0.as_str()) {
            redundant.push(ts[t].0.clone());
            proof {
                assert(redundant@.map_values(|s: String| s@) =~= pre_red.map_values(
                    |s: String| s@,
                ) + seq![ts@[t as int].0@]);
            }
        } else {
            proof {
                assert(redundant@.map_values(|s: String| s@) =~= pre_red.map_values(
                    |s: String| s@,
                ) + Seq::<Seq<char>>::empty());
            }
        }
        t += 1;
    }
    proof {
        assert(ts@.take(tn as int) =~= ts@);
    }
    (missing, redundant)
}

/// Build a translation table from a registry: each entry keyed by its mod
/// name, carrying that name and the entry's description.
pub fn generate_translations(reg: &ModLinks) -> (r: Vec<(String, ModTranslation)>)
    requires
        reg.wf(),
    ensures
        r@.len() == reg.entries_seq().len(),
        forall|j: int|
            0 <= j < r@.len() ==> (#[trigger] r@[j]).0@ == reg.spec_names()[j] && r@[j].1.name@
                == reg.spec_names()[j] && r@[j].1.desc@ == reg.spec_get(
                reg.spec_names()[j],
            ).description@,
{
    let n = reg.len();
    let mut out: Vec<(String, ModTranslation)> = Vec::new();
    let mut i: usize = 0;
    while i < n
        invariant
            0 <= i <= n,
            n == reg.entries_seq().len(),
            reg.wf(),
            out@.len() == i,
            forall|j: int|
                0 <= j < i ==> (#[trigger] out@[j]).0@ == reg.spec_names()[j] && out@[j].1.name@
                    == reg.spec_names()[j] && out@[j].1.desc@ == reg.spec_get(
                    reg.spec_names()[j],
                ).description@,
        decreases n - i,
    {
        let name = reg.name_at(i);
        let info = reg.info_at(i);
        proof {
            assert(reg.entries_seq()[i as int].0@ == name@);
            assert(reg.spec_contains(name@));
            reg.lemma_index_of(name@);
            assert(reg.spec_get(name@) == *info);
        }
        out.push(
            (
                name.clone(),
                ModTranslation { name: name.clone(), desc: info.description.clone() },
            ),
        );
        i += 1;
    }
    out
}

} // verus!
