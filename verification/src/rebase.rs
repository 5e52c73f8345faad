use vstd::prelude::*;

verus! {

use crate::file_def::FileDef;
use crate::links::Links;
use crate::mod_info::ModInfo;
use crate::mod_links::ModLinks;
use crate::text::safe_name_seq;

/// How download links are rewritten: replace one base URL with another, or
/// point every link at a mirror root under a fixed naming rule.
#[derive(Debug, Clone)]
pub enum Operation {
    Replace { from: String, to: String },
    Root { root: String },
}

/// `p` is a prefix of `s`.
pub open spec fn is_prefix(s: Seq<char>, p: Seq<char>) -> bool {
    p.len() <= s.len() && s.take(p.len() as int) == p
}

/// The URL with the prefix `from` swapped for `to`; a URL not under `from`
/// is left alone.
pub open spec fn replaced_url(u: Seq<char>, from: Seq<char>, to: Seq<char>) -> Seq<char> {
    if is_prefix(u, from) {
        to + u.skip(from.len() as int)
    } else {
        u
    }
}

/// The mirror-root URL of one file: the root, then `/mods/`, the safe mod
/// name, `-v`, the version text, and the platform suffix.
pub open spec fn rooted_url(
    root: Seq<char>,
    key: Seq<char>,
    ver: Seq<char>,
    suffix: Seq<char>,
) -> Seq<char> {
    root + "/mods/"@ + safe_name_seq(key, true) + "-v"@ + ver + suffix
}

/// The URL an operation gives one file, from the file's original URL, the
/// entry's key and version text, and the file's platform suffix.
pub open spec fn op_url(
    op: Operation,
    key: Seq<char>,
    ver: Seq<char>,
    orig: Seq<char>,
    suffix: Seq<char>,
) -> Seq<char> {
    match op {
        Operation::Replace { from, to } => replaced_url(orig, from@, to@),
        Operation::Root { root } => rooted_url(root@, key, ver, suffix),
    }
}

/// A rewritten file keeps its digest and gets the given URL.
pub open spec fn rebased_file_ok(g: FileDef, o: FileDef, url: Seq<char>) -> bool {
    g.sha256@ == o.sha256@ && g.url@ == url
}

/// A rewritten link set keeps its shape and digests; each file's URL is
/// rewritten by the operation under its platform suffix.
pub open spec fn rebased_links_ok(g: Links, o: Links, op: Operation, key: Seq<char>, ver: Seq<
    char,
>) -> bool {
    match o {
        Links::Universal(of) => g matches Links::Universal(gf) && rebased_file_ok(
            gf,
            of,
            op_url(op, key, ver, of.url@, ".zip"@),
        ),
        Links::PlatformSpecific { windows: ow, mac: om, linux: ol } => g matches
            Links::PlatformSpecific { windows: gw, mac: gm, linux: gl } && rebased_file_ok(
            *gw,
            *ow,
            op_url(op, key, ver, ow.url@, "-Win.zip"@),
        ) && rebased_file_ok(*gm, *om, op_url(op, key, ver, om.url@, "-Mac.zip"@))
            && rebased_file_ok(*gl, *ol, op_url(op, key, ver, ol.url@, "-Linux.zip"@)),
    }
}

/// A rewritten entry differs from the old one in its link URLs alone.
pub open spec fn rebased_info_ok(g: ModInfo, o: ModInfo, op: Operation, key: Seq<char>) -> bool {
    &&& rebased_links_ok(g.links, o.links, op, key, o.version.spec_str())
    &&& g.display_name == o.display_name
    &&& g.description == o.description
    &&& g.version == o.version
    &&& g.dependencies == o.dependencies
    &&& g.repository == o.repository
    &&& g.issues == o.issues
    &&& g.integrations == o.integrations
    &&& g.tags == o.tags
    &&& g.authors == o.authors
}

/// Test whether `p` is a prefix of `s`.
fn str_starts_with(s: &str, p: &str) -> (r: bool)
    ensures
        r == is_prefix(s@, p@),
{
    let pn = p.unicode_len();
    let sn = s.unicode_len();
    if pn > sn {
        proof {
            assert(!is_prefix(s@, p@));
        }
        return false;
    }
    let mut i: usize = 0;
    while i < pn
        invariant
            0 <= i <= pn,
            pn == p@.len(),
            sn == s@.len(),
            pn <= sn,
            forall|j: int| 0 <= j < i ==> s@[j] == p@[j],
        decreases pn - i,
    {
        if s.get_char(i) != p.get_char(i) {
            proof {
                assert(s@.take(pn as int)[i as int] != p@[i as int]);
            }
            return false;
        }
        i += 1;
    }
    proof {
        assert(s@.take(pn as int) =~= p@);
    }
    true
}

/// The URL with the prefix `from` swapped for `to`, left alone when `from`
/// is not its prefix.
fn replace_url(url: &String, from: &str, to: &str) -> (r: String)
    ensures
        r@ == replaced_url(url@, from@, to@),
{
    if str_starts_with(url.as_str(), from) {
        let n = url.as_str().unicode_len();
        let fn_len = from.unicode_len();
        let rest = url.as_str().substring_char(fn_len, n);
        let mut out = String::from_str(to);
        out.append(rest);
        proof {
            assert(rest@ == url@.skip(from@.len() as int));
        }
        out
    } else {
        url.clone()
    }
}

/// The mirror-root URL of one file.
fn build_rooted_url(root: &str, safe: &str, ver: &str, suffix: &str) -> (r: String)
    ensures
        r@ == root@ + "/mods/"@ + safe@ + "-v"@ + ver@ + suffix@,
{
    let mut out = String::from_str(root);
    out.append("/mods/");
    out.append(safe);
    out.append("-v");
    out.append(ver);
    out.append(suffix);
    proof {
        assert(out@ =~= root@ + "/mods/"@ + safe@ + "-v"@ + ver@ + suffix@);
    }
    out
}

/// Rewrite one file's URL under the operation.
fn rebase_file(file: &mut FileDef, op: &Operation, safe: &str, ver: &str, suffix: &str)
    ensures
        final(file).sha256@ == old(file).sha256@,
        final(file).url@ == (match *op {
            Operation::Replace { from, to } => replaced_url(old(file).url@, from@, to@),
            Operation::Root { root } => root@ + "/mods/"@ + safe@ + "-v"@ + ver@ + suffix@,
        }),
{
    match op {
        Operation::Replace { from, to } => {
            let new_url = replace_url(&file.url, from.as_str(), to.as_str());
            file.url = new_url;
        },
        Operation::Root { root } => {
            let new_url = build_rooted_url(root.as_str(), safe, ver, suffix);
            file.url = new_url;
        },
    }
}

/// Rewrite every link URL of one entry under the operation.
fn rebase_info(info: &mut ModInfo, op: &Operation, key: &str)
    ensures
        rebased_info_ok(*final(info), *old(info), *op, key@),
{
    let safe = crate::get_safe_mod_name(key);
    let ver = info.version.str().clone();
    match &mut info.links {
        Links::Universal(file) => {
            rebase_file(file, op, safe.as_str(), ver.as_str(), ".zip");
        },
        Links::PlatformSpecific { windows, mac, linux } => {
            rebase_file(windows, op, safe.as_str(), ver.as_str(), "-Win.zip");
            rebase_file(mac, op, safe.as_str(), ver.as_str(), "-Mac.zip");
            rebase_file(linux, op, safe.as_str(), ver.as_str(), "-Linux.zip");
        },
    }
}

/// Rewrite every entry's download links under the operation, leaving every
/// other field and the key set alone.
pub fn rebase(reg: &mut ModLinks, op: &Operation)
    requires
        old(reg).wf(),
    ensures
        final(reg).wf(),
        forall|k: Seq<char>|
            #[trigger] final(reg).spec_contains(k) == old(reg).spec_contains(k),
        forall|k: Seq<char>|
            old(reg).spec_contains(k) ==> rebased_info_ok(
                #[trigger] final(reg).spec_get(k),
                old(reg).spec_get(k),
                *op,
                k,
            ),
{
    let ghost pre = *reg;
    let names = reg.mod_names();
    proof {
        pre.lemma_wf_unique();
        assert(names@.map_values(|s: String| s@) == pre.spec_names());
        assert(names@.len() == pre.spec_names().len());
        assert forall|j: int| 0 <= j < names@.len() implies pre.spec_contains(
            (#[trigger] names@[j])@,
        ) by {
            assert(names@.map_values(|s: String| s@)[j] == names@[j]@);
            assert(pre.entries_seq()[j].0@ == names@[j]@);
        }
        assert forall|a: int, b: int|
            0 <= a < names@.len() && 0 <= b < names@.len() && a != b implies (
        #[trigger] names@[a])@ != (#[trigger] names@[b])@ by {
            assert(names@.map_values(|s: String| s@)[a] == names@[a]@);
            assert(names@.map_values(|s: String| s@)[b] == names@[b]@);
            assert(pre.entries_seq()[a].0@ == names@[a]@);
            assert(pre.entries_seq()[b].0@ == names@[b]@);
        }
    }
    let n = names.len();
    let mut i: usize = 0;
    while i < n
        invariant
            0 <= i <= n,
            n == names@.len(),
            n == pre.spec_names().len(),
            reg.wf(),
            pre.wf(),
            forall|j: int| 0 <= j < n ==> (#[trigger] names@[j])@ == pre.spec_names()[j],
            forall|j: int| 0 <= j < n ==> pre.spec_contains((#[trigger] names@[j])@),
            forall|a: int, b: int|
                0 <= a < n && 0 <= b < n && a != b ==> (#[trigger] names@[a])@ != (
                #[trigger] names@[b])@,
            forall|k: Seq<char>| #[trigger] reg.spec_contains(k) == pre.spec_contains(k),
            forall|j: int|
                0 <= j < i ==> rebased_info_ok(
                    #[trigger] reg.spec_get(names@[j]@),
                    pre.spec_get(names@[j]@),
                    *op,
                    names@[j]@,
                ),
            forall|j: int|
                i <= j < n ==> #[trigger] reg.spec_get(names@[j]@) == pre.spec_get(names@[j]@),
        decreases n - i,
    {
        let ghost reg_mid = *reg;
        let removed = reg.remove(names[i].as_str());
        let mut info = match removed {
            Some(inf) => inf,
            None => {
                proof {
                    assert(false);
                }
                return ;
            },
        };
        rebase_info(&mut info, op, names[i].as_str());
        reg.insert(names[i].clone(), info);
        proof {
            assert(reg.spec_contains(names@[i as int]@));
            assert forall|k: Seq<char>|
                #[trigger] reg.spec_contains(k) == pre.spec_contains(k) by {
                if k != names@[i as int]@ {
                    assert(reg_mid.spec_contains(k) == pre.spec_contains(k));
                }
            }
            assert(rebased_info_ok(
                reg.spec_get(names@[i as int]@),
                pre.spec_get(names@[i as int]@),
                *op,
                names@[i as int]@,
            ));
            assert forall|j2: int|
                0 <= j2 < n && j2 != i implies #[trigger] reg.spec_get(names@[j2]@)
                == reg_mid.spec_get(names@[j2]@) by {
                assert(names@[j2]@ != names@[i as int]@);
            }
        }
        i += 1;
    }
    proof {
        assert forall|k: Seq<char>|
            pre.spec_contains(k) implies rebased_info_ok(
            #[trigger] reg.spec_get(k),
            pre.spec_get(k),
            *op,
            k,
        ) by {
            let j = pre.spec_index_of(k);
            pre.lemma_index_of(k);
            assert(names@[j]@ == pre.spec_names()[j]);
            assert(pre.spec_names()[j] == k);
        }
    }
}

} // verus!
