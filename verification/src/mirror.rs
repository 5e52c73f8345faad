use vstd::prelude::*;

verus! {

use crate::file_def::{FileDef, bytes_eq};
use crate::links::Links;
use crate::mod_info::ModInfo;
use crate::text::safe_name_seq;

/// What a mirror run does with one file: copy it over from the previous
/// mirror, or download it afresh under the given archive name.
#[derive(Debug)]
pub enum MirrorAction {
    Migrate,
    Download { file_name: String },
}

/// The actions for one entry's files, one per link.
#[derive(Debug)]
pub enum MirrorPlan {
    Universal(MirrorAction),
    PlatformSpecific { windows: MirrorAction, mac: MirrorAction, linux: MirrorAction },
}

/// The stem archives of an entry are named with: the safe mod name, `-v`,
/// and the version text.
pub open spec fn base_name_seq(key: Seq<char>, ver: Seq<char>) -> Seq<char> {
    safe_name_seq(key, true) + "-v"@ + ver
}

/// The right action for one file: migrate when the previous mirror's source
/// had the same digest, else download under the stem plus the platform
/// suffix.
pub open spec fn mirror_action_ok(
    a: MirrorAction,
    cur: FileDef,
    prev: Option<FileDef>,
    base: Seq<char>,
    suffix: Seq<char>,
) -> bool {
    match prev {
        Some(p) => if p.sha256@ == cur.sha256@ {
            a == MirrorAction::Migrate
        } else {
            a matches MirrorAction::Download { file_name } && file_name@ == base + suffix
        },
        None => a matches MirrorAction::Download { file_name } && file_name@ == base + suffix,
    }
}

/// The previous universal file of an entry, if its links had that shape.
pub open spec fn prev_universal(prev: Option<ModInfo>) -> Option<FileDef> {
    match prev {
        Some(pi) => match pi.links {
            Links::Universal(pf) => Some(pf),
            Links::PlatformSpecific { .. } => None,
        },
        None => None,
    }
}

/// The previous file of an entry for one platform slot, if its links were
/// platform-specific; the slot is picked by the suffix text.
pub open spec fn prev_platform(prev: Option<ModInfo>, suffix: Seq<char>) -> Option<FileDef> {
    match prev {
        Some(pi) => match pi.links {
            Links::Universal(_) => None,
            Links::PlatformSpecific { windows, mac, linux } => if suffix == "-Win.zip"@ {
                Some(*windows)
            } else if suffix == "-Mac.zip"@ {
                Some(*mac)
            } else {
                Some(*linux)
            },
        },
        None => None,
    }
}

/// The plan matches the entry's link shape, and each file's action is the
/// right one against the previous mirror's source entry.
pub open spec fn mirror_plan_ok(
    plan: MirrorPlan,
    info: ModInfo,
    prev: Option<ModInfo>,
    key: Seq<char>,
) -> bool {
    let base = base_name_seq(key, info.version.spec_str());
    match info.links {
        Links::Universal(cur) => plan matches MirrorPlan::Universal(a) && mirror_action_ok(
            a,
            cur,
            prev_universal(prev),
            base,
            ".zip"@,
        ),
        Links::PlatformSpecific { windows, mac, linux } => plan matches
            MirrorPlan::PlatformSpecific { windows: aw, mac: am, linux: al }
            && mirror_action_ok(aw, *windows, prev_platform(prev, "-Win.zip"@), base, "-Win.zip"@)
            && mirror_action_ok(am, *mac, prev_platform(prev, "-Mac.zip"@), base, "-Mac.zip"@)
            && mirror_action_ok(al, *linux, prev_platform(prev, "-Linux.zip"@), base, "-Linux.zip"@),
    }
}

/// The previous entry of `prev`, as a value.
pub open spec fn deref_opt(o: Option<&ModInfo>) -> Option<ModInfo> {
    match o {
        Some(p) => Some(*p),
        None => None,
    }
}

/// Pick one file's action.
fn plan_file(cur: &FileDef, prev: Option<&FileDef>, base: &str, suffix: &str) -> (r: MirrorAction)
    ensures
        mirror_action_ok(r, *cur, (match prev {
            Some(p) => Some(*p),
            None => None,
        }), base@, suffix@),
{
    match prev {
        Some(p) => {
            if bytes_eq(&p.sha256, &cur.sha256) {
                return MirrorAction::Migrate;
            }
        },
        None => {},
    }
    let mut file_name = String::from_str(base);
    file_name.append(suffix);
    MirrorAction::Download { file_name }
}

/// Plan the mirroring of one entry: a file whose digest the previous
/// mirror's source entry already had is migrated; every other file is
/// downloaded under the entry's archive name.
pub fn plan_mirror_entry(name: &str, info: &ModInfo, prev: Option<&ModInfo>) -> (r: MirrorPlan)
    ensures
        mirror_plan_ok(r, *info, deref_opt(prev), name@),
{
    let safe = crate::get_safe_mod_name(name);
    let mut base = safe;
    base.append("-v");
    base.append(info.version.str().as_str());
    proof {
        assert(base@ =~= base_name_seq(name@, info.version.spec_str()));
    }
    match &info.links {
        Links::Universal(cur) => {
            let prev_file = match prev {
                Some(pi) => match &pi.links {
                    Links::Universal(pf) => Some(pf),
                    Links::PlatformSpecific { .. } => None,
                },
                None => None,
            };
            MirrorPlan::Universal(plan_file(cur, prev_file, base.as_str(), ".zip"))
        },
        Links::PlatformSpecific { windows, mac, linux } => {
            let (pw, pm, pl) = match prev {
                Some(pi) => match &pi.links {
                    Links::Universal(_) => (None, None, None),
                    Links::PlatformSpecific { windows: w, mac: m, linux: l } => (
                        Some(&**w),
                        Some(&**m),
                        Some(&**l),
                    ),
                },
                None => (None, None, None),
            };
            let aw = plan_file(windows, pw, base.as_str(), "-Win.zip");
            let am = plan_file(mac, pm, base.as_str(), "-Mac.zip");
            let al = plan_file(linux, pl, base.as_str(), "-Linux.zip");
            proof {
                reveal_strlit("-Win.zip");
                reveal_strlit("-Mac.zip");
                reveal_strlit("-Linux.zip");
                assert(("-Mac.zip"@)[1] == 'M');
                assert(("-Win.zip"@)[1] == 'W');
                assert(("-Linux.zip"@).len() == 10);
                assert(("-Win.zip"@).len() == 8);
                assert(("-Mac.zip"@).len() == 8);
                assert("-Mac.zip"@ != "-Win.zip"@);
                assert("-Linux.zip"@ != "-Win.zip"@);
                assert("-Linux.zip"@ != "-Mac.zip"@);
            }
            MirrorPlan::PlatformSpecific { windows: aw, mac: am, linux: al }
        },
    }
}

} // verus!
