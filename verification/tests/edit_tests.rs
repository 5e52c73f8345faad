use hk_modlinks::file_def::{FileDef, FromHexError};
use hk_modlinks::file_format::{Format, FormatError};
use hk_modlinks::links::Links;
use hk_modlinks::mirror::{plan_mirror_entry, MirrorAction, MirrorPlan};
use hk_modlinks::mod_info::{ModInfo, ModInfoBuilderError};
use hk_modlinks::mod_links::ModLinks;
use hk_modlinks::platform::Platform;
use hk_modlinks::rebase::{rebase, Operation};
use hk_modlinks::tag::{ParseTagError, Tag};
use hk_modlinks::translate::{apply_translations, generate_translations, ModTranslation};
use hk_modlinks::version::Version;
use hk_modlinks::xml_lists;

fn file(url: &str) -> FileDef {
    FileDef::new(vec![0u8; 32], String::from(url))
}

fn entry(url: &str) -> ModInfo {
    ModInfo {
        display_name: None,
        description: String::from("words"),
        version: Version::new(1, 2, 3, 4),
        links: Links::new_universal(file(url)),
        dependencies: Vec::new(),
        repository: None,
        issues: None,
        integrations: Vec::new(),
        tags: Vec::new(),
        authors: Vec::new(),
    }
}

#[test]
fn rebase_replace_swaps_matching_prefix() {
    let mut reg = ModLinks::new();
    reg.insert(String::from("My Mod"), entry("https://old.example/mods/m.zip"));
    reg.insert(String::from("Other"), entry("https://elsewhere.example/o.zip"));
    rebase(
        &mut reg,
        &Operation::Replace {
            from: String::from("https://old.example/"),
            to: String::from("https://new.example/"),
        },
    );
    let touched = match &reg.get("My Mod").unwrap().links {
        Links::Universal(f) => f.url.clone(),
        _ => unreachable!(),
    };
    assert_eq!(touched, "https://new.example/mods/m.zip");
    let untouched = match &reg.get("Other").unwrap().links {
        Links::Universal(f) => f.url.clone(),
        _ => unreachable!(),
    };
    assert_eq!(untouched, "https://elsewhere.example/o.zip");
}

#[test]
fn rebase_root_renames_universal_link() {
    let mut reg = ModLinks::new();
    reg.insert(String::from("My [Cool] Mod"), entry("https://old.example/m.zip"));
    rebase(
        &mut reg,
        &Operation::Root {
            root: String::from("https://mirror.example"),
        },
    );
    let url = match &reg.get("My [Cool] Mod").unwrap().links {
        Links::Universal(f) => f.url.clone(),
        _ => unreachable!(),
    };
    assert_eq!(url, "https://mirror.example/mods/MyCoolMod-v1.2.3.4.zip");
}

#[test]
fn rebase_root_renames_platform_links() {
    let mut reg = ModLinks::new();
    let mut info = entry("ignored");
    info.links = Links::new_platform_specific(
        file("https://a/w.zip"),
        file("https://a/m.zip"),
        file("https://a/l.zip"),
    );
    reg.insert(String::from("Abc"), info);
    rebase(
        &mut reg,
        &Operation::Root {
            root: String::from("https://m.example"),
        },
    );
    match &reg.get("Abc").unwrap().links {
        Links::PlatformSpecific { windows, mac, linux } => {
            assert_eq!(windows.url, "https://m.example/mods/Abc-v1.2.3.4-Win.zip");
            assert_eq!(mac.url, "https://m.example/mods/Abc-v1.2.3.4-Mac.zip");
            assert_eq!(linux.url, "https://m.example/mods/Abc-v1.2.3.4-Linux.zip");
        }
        _ => unreachable!(),
    }
}

#[test]
fn translations_apply_and_report() {
    let mut reg = ModLinks::new();
    reg.insert(String::from("Kept"), entry("https://a/k.zip"));
    reg.insert(String::from("Renamed"), entry("https://a/r.zip"));
    reg.insert(String::from("Missing"), entry("https://a/m.zip"));
    let table = vec![
        (
            String::from("Kept"),
            ModTranslation {
                name: String::from("Kept"),
                desc: String::from("kept words"),
            },
        ),
        (
            String::from("Renamed"),
            ModTranslation {
                name: String::from("Nom"),
                desc: String::from("mots"),
            },
        ),
        (
            String::from("Stray"),
            ModTranslation {
                name: String::from("Stray"),
                desc: String::from("nobody"),
            },
        ),
    ];
    let (missing, redundant) = apply_translations(&mut reg, &table);
    assert_eq!(missing, vec![String::from("Missing")]);
    assert_eq!(redundant, vec![String::from("Stray")]);
    assert_eq!(reg.get("Kept").unwrap().description, "kept words");
    assert_eq!(reg.get("Renamed").unwrap().description, "(Nom)\nmots");
    assert_eq!(reg.get("Missing").unwrap().description, "words");
}

#[test]
fn translations_generate_from_registry() {
    let mut reg = ModLinks::new();
    reg.insert(String::from("A"), entry("https://a/a.zip"));
    let table = generate_translations(&reg);
    assert_eq!(table.len(), 1);
    assert_eq!(table[0].0, "A");
    assert_eq!(table[0].1.name, "A");
    assert_eq!(table[0].1.desc, "words");
}

#[test]
fn mirror_plan_migrates_on_equal_digest() {
    let cur = entry("https://a/cur.zip");
    let prev = entry("https://a/prev.zip");
    match plan_mirror_entry("My Mod", &cur, Some(&prev)) {
        MirrorPlan::Universal(MirrorAction::Migrate) => {}
        other => panic!("expected a migrate plan, got {other:?}"),
    }
}

#[test]
fn mirror_plan_downloads_on_changed_digest() {
    let cur = entry("https://a/cur.zip");
    let mut prev = entry("https://a/prev.zip");
    prev.links = Links::new_universal(FileDef::new(vec![1u8; 32], String::from("https://a/p.zip")));
    match plan_mirror_entry("My Mod", &cur, Some(&prev)) {
        MirrorPlan::Universal(MirrorAction::Download { file_name }) => {
            assert_eq!(file_name, "MyMod-v1.2.3.4.zip");
        }
        other => panic!("expected a download plan, got {other:?}"),
    }
}

#[test]
fn mirror_plan_without_previous_downloads_everything() {
    let mut cur = entry("ignored");
    cur.links = Links::new_platform_specific(
        file("https://a/w.zip"),
        file("https://a/m.zip"),
        file("https://a/l.zip"),
    );
    match plan_mirror_entry("Abc", &cur, None) {
        MirrorPlan::PlatformSpecific { windows, mac, linux } => {
            match windows {
                MirrorAction::Download { file_name } => {
                    assert_eq!(file_name, "Abc-v1.2.3.4-Win.zip")
                }
                other => panic!("unexpected {other:?}"),
            }
            match mac {
                MirrorAction::Download { file_name } => {
                    assert_eq!(file_name, "Abc-v1.2.3.4-Mac.zip")
                }
                other => panic!("unexpected {other:?}"),
            }
            match linux {
                MirrorAction::Download { file_name } => {
                    assert_eq!(file_name, "Abc-v1.2.3.4-Linux.zip")
                }
                other => panic!("unexpected {other:?}"),
            }
        }
        other => panic!("expected a platform plan, got {other:?}"),
    }
}

#[test]
fn format_from_extension() {
    assert_eq!(Format::from_file_extension("xml").unwrap(), Format::Xml);
    assert_eq!(Format::from_file_extension("json").unwrap(), Format::Json);
    assert_eq!(Format::from_file_extension("toml").unwrap(), Format::Toml);
    assert_eq!(Format::from_file_extension("yml").unwrap(), Format::Yaml);
    assert_eq!(Format::from_file_extension("yaml").unwrap(), Format::Yaml);
    assert_eq!(Format::from_file_extension("ron").unwrap(), Format::Ron);
    match Format::from_file_extension("zip") {
        Err(FormatError::UnknownExtension(e)) => assert_eq!(e, "zip"),
        other => panic!("unexpected {other:?}"),
    }
}

#[test]
fn tag_names_round_trip() {
    let tags = [
        Tag::Boss,
        Tag::Cosmetic,
        Tag::Expansion,
        Tag::Gameplay,
        Tag::Library,
        Tag::Utility,
    ];
    for t in tags {
        assert_eq!(Tag::from_str(t.as_str()).unwrap(), t);
    }
    assert_eq!(Tag::Boss.as_str(), "Boss");
    match Tag::from_str("boss") {
        Err(ParseTagError::UnknownVariant(s)) => assert_eq!(s, "boss"),
        other => panic!("unexpected {other:?}"),
    }
}

#[test]
fn file_def_hex_round_trip() {
    // the digest comes back out exactly as it went in, uppercased
    let hex = "00ff10ab00000000000000000000000000000000000000000000000000000000";
    let fd = FileDef::new_from_hex(hex, String::from("https://a/f.zip")).unwrap();
    assert_eq!(fd.sha256.len(), 32);
    assert_eq!(fd.sha256[0], 0x00);
    assert_eq!(fd.sha256[1], 0xff);
    assert_eq!(fd.sha256[2], 0x10);
    assert_eq!(fd.sha256[3], 0xab);
    assert_eq!(
        fd.sha256(),
        "00FF10AB00000000000000000000000000000000000000000000000000000000"
    );
}

#[test]
fn file_def_hex_errors() {
    let url = || String::from("https://a/f.zip");
    assert!(matches!(
        FileDef::new_from_hex("abc", url()),
        Err(FromHexError::OddLength)
    ));
    assert!(matches!(
        FileDef::new_from_hex("abcd", url()),
        Err(FromHexError::InvalidStringLength)
    ));
    let bad = "zz000000000000000000000000000000000000000000000000000000000000ff";
    assert!(matches!(
        FileDef::new_from_hex(bad, url()),
        Err(FromHexError::InvalidHexCharacter { c: 'z', index: 0 })
    ));
}

#[test]
fn file_def_encodes_known_bytes() {
    let mut bytes = vec![0u8; 32];
    bytes[0] = 0xde;
    bytes[1] = 0xad;
    bytes[31] = 0x01;
    let fd = FileDef::new(bytes, String::from("https://a/f.zip"));
    assert_eq!(
        fd.sha256(),
        "DEAD000000000000000000000000000000000000000000000000000000000001"
    );
}

#[test]
fn links_pick_platform_file() {
    let l = Links::new_platform_specific(
        file("https://a/w.zip"),
        file("https://a/m.zip"),
        file("https://a/l.zip"),
    );
    assert_eq!(l.file(Platform::Windows).url, "https://a/w.zip");
    assert_eq!(l.file(Platform::Mac).url, "https://a/m.zip");
    assert_eq!(l.file(Platform::Linux).url, "https://a/l.zip");
    let u = Links::new_universal(file("https://a/u.zip"));
    assert_eq!(u.file(Platform::Mac).url, "https://a/u.zip");
    assert_eq!(u.into_file(Platform::Linux).url, "https://a/u.zip");
}

#[test]
fn builder_requires_version_and_links() {
    let missing_version = ModInfo::builder()
        .links(Links::new_universal(file("https://a/u.zip")))
        .build();
    assert!(matches!(
        missing_version,
        Err(ModInfoBuilderError::MissingVersion)
    ));
    let missing_links = ModInfo::builder().version(Version::new(1, 0, 0, 0)).build();
    assert!(matches!(missing_links, Err(ModInfoBuilderError::MissingLinks)));
}

#[test]
fn builder_fills_defaults_and_each_setters() {
    let info = ModInfo::builder()
        .version(Version::new(1, 0, 0, 0))
        .links(Links::new_universal(file("https://a/u.zip")))
        .dependency(String::from("Dep"))
        .integration(String::from("Int"))
        .tag(Tag::Library)
        .author(String::from("Someone"))
        .build()
        .unwrap();
    assert_eq!(info.description, "");
    assert!(info.display_name.is_none());
    assert!(info.repository.is_none());
    assert_eq!(info.dependencies, vec![String::from("Dep")]);
    assert_eq!(info.integrations, vec![String::from("Int")]);
    assert_eq!(info.tags, vec![Tag::Library]);
    assert_eq!(info.authors, vec![String::from("Someone")]);
}

#[test]
fn builder_round_trips_through_into_builder() {
    let mut info = entry("https://a/u.zip");
    info.display_name = Some(String::from("Pretty"));
    info.repository = Some(String::from("https://r.example"));
    let rebuilt = info
        .clone()
        .into_builder()
        .description(String::from("changed"))
        .build()
        .unwrap();
    assert_eq!(rebuilt.display_name, Some(String::from("Pretty")));
    assert_eq!(rebuilt.description, "changed");
    assert_eq!(rebuilt.repository, Some(String::from("https://r.example")));
    assert_eq!(rebuilt.version, info.version);
}

#[test]
fn xml_list_shells_round_trip() {
    let names = vec![String::from("A"), String::from("B")];
    assert_eq!(xml_lists::Authors::new(names.clone()).inner(), names);
    assert_eq!(xml_lists::Dependencies::new(names.clone()).inner(), names);
    assert_eq!(xml_lists::Integrations::new(names.clone()).inner(), names);
    assert_eq!(xml_lists::Tags::new(names.clone()).into_inner(), names);
    let fl = xml_lists::FileList::new(names.clone());
    assert_eq!(fl.inner(), &names);
    assert_eq!(fl.into_inner(), names);
}
