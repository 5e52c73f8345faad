use hk_modlinks::changelog::Changelog;
use hk_modlinks::file_def::FileDef;
use hk_modlinks::links::Links;
use hk_modlinks::mod_info::ModInfo;
use hk_modlinks::mod_links::ModLinks;
use hk_modlinks::tag::Tag;
use hk_modlinks::version::Version;

fn entry(version: &str, description: &str, deps: &[&str], tags: &[Tag]) -> ModInfo {
    ModInfo {
        display_name: None,
        description: String::from(description),
        version: Version::new_from_str(version).unwrap(),
        links: Links::new_universal(FileDef::new(
            vec![0u8; 32],
            String::from("https://example.com/mod.zip"),
        )),
        dependencies: deps.iter().map(|d| String::from(*d)).collect(),
        repository: None,
        issues: None,
        integrations: Vec::new(),
        tags: tags.to_vec(),
        authors: Vec::new(),
    }
}

fn registry(entries: Vec<(&str, ModInfo)>) -> ModLinks {
    let mut reg = ModLinks::new();
    for (name, info) in entries {
        reg.insert(String::from(name), info);
    }
    reg
}

#[test]
fn changelog_version_bump_and_new_mod() {
    // old {A: v1.0.0.0}, new {A: v1.0.0.1, B: v1.0.0.0}
    let old = registry(vec![("A", entry("1.0.0.0", "d", &[], &[]))]);
    let new = registry(vec![
        ("A", entry("1.0.0.1", "d", &[], &[])),
        ("B", entry("1.0.0.0", "fresh", &[], &[])),
    ]);
    let log = Changelog::new(&old, &new);

    let added = log.new.expect("B is new");
    assert_eq!(added.len(), 1);
    assert_eq!(added[0].0, "B");
    assert_eq!(added[0].1.description, "fresh");

    assert!(log.removed.is_empty());

    let updated = log.updated.expect("A re-released");
    assert_eq!(updated.len(), 1);
    assert_eq!(updated[0].0, "A");
    let diff = &updated[0].1;
    assert_eq!(diff.version.old, "1.0.0.0");
    assert_eq!(diff.version.new, "1.0.0.1");
    assert!(diff.description.is_none());
    assert!(diff.dependencies.is_none());
    assert!(diff.integrations.is_none());
    assert!(diff.tags.is_none());
}

#[test]
fn changelog_dependency_only_change_is_not_reported() {
    // membership in `updated` is gated on the version text: an entry whose
    // dependencies changed under an unchanged version does not appear
    let old = registry(vec![("A", entry("1.0.0.0", "d", &["X"], &[]))]);
    let new = registry(vec![("A", entry("1.0.0.0", "d", &["Y"], &[]))]);
    let log = Changelog::new(&old, &new);
    assert!(log.new.is_none());
    assert!(log.removed.is_empty());
    assert!(log.updated.is_none());
}

#[test]
fn changelog_removed_mods_listed_by_name() {
    let old = registry(vec![
        ("A", entry("1.0.0.0", "d", &[], &[])),
        ("B", entry("1.0.0.0", "d", &[], &[])),
    ]);
    let new = registry(vec![("B", entry("1.0.0.0", "d", &[], &[]))]);
    let log = Changelog::new(&old, &new);
    assert!(log.new.is_none());
    assert_eq!(log.removed, vec![String::from("A")]);
    assert!(log.updated.is_none());
}

#[test]
fn changelog_field_diffs_on_version_change() {
    let old = registry(vec![(
        "A",
        entry("1.0.0.0", "old words", &["Keep", "Drop"], &[Tag::Boss]),
    )]);
    let new = registry(vec![(
        "A",
        entry("2.0.0.0", "new words", &["Keep", "Add"], &[Tag::Cosmetic]),
    )]);
    let log = Changelog::new(&old, &new);
    let updated = log.updated.unwrap();
    let diff = &updated[0].1;

    let desc = diff.description.as_ref().unwrap();
    assert_eq!(desc.old, "old words");
    assert_eq!(desc.new, "new words");

    let deps = diff.dependencies.as_ref().unwrap();
    assert_eq!(deps.removed.as_ref().unwrap(), &vec![String::from("Drop")]);
    assert_eq!(deps.added.as_ref().unwrap(), &vec![String::from("Add")]);

    let tags = diff.tags.as_ref().unwrap();
    assert_eq!(tags.removed.as_ref().unwrap(), &vec![Tag::Boss]);
    assert_eq!(tags.added.as_ref().unwrap(), &vec![Tag::Cosmetic]);
}

#[test]
fn changelog_one_sided_set_change_omits_empty_side() {
    let old = registry(vec![("A", entry("1.0.0.0", "d", &["Dep"], &[]))]);
    let new = registry(vec![("A", entry("1.0.0.1", "d", &[], &[]))]);
    let log = Changelog::new(&old, &new);
    let updated = log.updated.unwrap();
    let deps = updated[0].1.dependencies.as_ref().unwrap();
    assert_eq!(deps.removed.as_ref().unwrap(), &vec![String::from("Dep")]);
    assert!(deps.added.is_none());
}

#[test]
fn changelog_empty_registries() {
    let old = ModLinks::new();
    let new = ModLinks::new();
    let log = Changelog::new(&old, &new);
    assert!(log.new.is_none());
    assert!(log.removed.is_empty());
    assert!(log.updated.is_none());
}

#[test]
fn changelog_since_and_until_agree() {
    let old = registry(vec![("A", entry("1.0.0.0", "d", &[], &[]))]);
    let new = registry(vec![
        ("A", entry("1.0.0.1", "d", &[], &[])),
        ("B", entry("1.0.0.0", "d", &[], &[])),
    ]);
    let since = new.changelog_since(&old);
    let until = old.changelog_until(&new);
    assert_eq!(
        since.new.unwrap().iter().map(|e| e.0.clone()).collect::<Vec<_>>(),
        until.new.unwrap().iter().map(|e| e.0.clone()).collect::<Vec<_>>()
    );
    assert_eq!(since.removed, until.removed);
}

#[test]
fn changelog_version_text_gates_even_when_tuple_equal() {
    // inclusion is decided on the display text, not on the parsed tuple
    let old = registry(vec![("A", entry("1.0.0.0", "d", &[], &[]))]);
    let new = registry(vec![("A", entry("01.0.0.0", "d", &[], &[]))]);
    let log = Changelog::new(&old, &new);
    let updated = log.updated.unwrap();
    assert_eq!(updated[0].1.version.old, "1.0.0.0");
    assert_eq!(updated[0].1.version.new, "01.0.0.0");
}
