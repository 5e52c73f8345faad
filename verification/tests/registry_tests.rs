use hk_modlinks::file_def::FileDef;
use hk_modlinks::links::Links;
use hk_modlinks::mod_info::ModInfo;
use hk_modlinks::mod_links::ModLinks;
use hk_modlinks::platform::Platform;
use hk_modlinks::version::Version;

fn file(url: &str) -> FileDef {
    FileDef::new(vec![0u8; 32], String::from(url))
}

fn entry(deps: &[&str], integrations: &[&str]) -> ModInfo {
    ModInfo {
        display_name: None,
        description: String::from("a mod"),
        version: Version::new(1, 0, 0, 0),
        links: Links::new_universal(file("https://example.com/mod.zip")),
        dependencies: deps.iter().map(|d| String::from(*d)).collect(),
        repository: None,
        issues: None,
        integrations: integrations.iter().map(|d| String::from(*d)).collect(),
        tags: Vec::new(),
        authors: Vec::new(),
    }
}

fn registry(entries: &[(&str, &[&str])]) -> ModLinks {
    let mut reg = ModLinks::new();
    for (name, deps) in entries {
        reg.insert(String::from(*name), entry(deps, &[]));
    }
    reg
}

fn sorted(mut v: Vec<String>) -> Vec<String> {
    v.sort();
    v
}

#[test]
fn insert_get_contains_len() {
    let mut reg = ModLinks::new();
    assert!(reg.is_empty());
    assert_eq!(reg.len(), 0);
    assert!(reg.insert(String::from("B"), entry(&[], &[])).is_none());
    assert!(reg.insert(String::from("A"), entry(&["B"], &[])).is_none());
    assert_eq!(reg.len(), 2);
    assert!(reg.contains("A"));
    assert!(reg.contains("B"));
    assert!(!reg.contains("C"));
    assert_eq!(reg.get("A").unwrap().dependencies, vec![String::from("B")]);
    assert!(reg.get("C").is_none());
    // keys come out sorted
    assert_eq!(reg.mod_names(), vec![String::from("A"), String::from("B")]);
}

#[test]
fn insert_replaces_and_returns_old() {
    let mut reg = ModLinks::new();
    reg.insert(String::from("A"), entry(&[], &[]));
    let old = reg.insert(String::from("A"), entry(&["B"], &[]));
    assert_eq!(old.unwrap().dependencies, Vec::<String>::new());
    assert_eq!(reg.len(), 1);
    assert_eq!(reg.get("A").unwrap().dependencies, vec![String::from("B")]);
}

#[test]
fn remove_takes_entry_out() {
    let mut reg = registry(&[("A", &[]), ("B", &[])]);
    let gone = reg.remove("A");
    assert!(gone.is_some());
    assert!(!reg.contains("A"));
    assert!(reg.contains("B"));
    assert!(reg.remove("A").is_none());
}

#[test]
fn merge_prefers_other() {
    let mut left = ModLinks::new();
    left.insert(String::from("A"), entry(&[], &[]));
    left.insert(String::from("B"), entry(&[], &[]));
    let mut right = ModLinks::new();
    right.insert(String::from("B"), entry(&["A"], &[]));
    right.insert(String::from("C"), entry(&[], &[]));
    left.merge(right);
    assert_eq!(
        left.mod_names(),
        vec![String::from("A"), String::from("B"), String::from("C")]
    );
    assert_eq!(left.get("B").unwrap().dependencies, vec![String::from("A")]);
}

#[test]
fn display_name_falls_back_to_key() {
    let mut reg = ModLinks::new();
    let mut named = entry(&[], &[]);
    named.display_name = Some(String::from("Pretty"));
    reg.insert(String::from("A"), named);
    reg.insert(String::from("B"), entry(&[], &[]));
    assert_eq!(reg.get_display_name("A"), Some("Pretty"));
    assert_eq!(reg.get_display_name("B"), Some("B"));
    assert_eq!(reg.get_display_name("C"), None);
}

#[test]
fn resolve_simple_chain() {
    let reg = registry(&[("A", &["B"]), ("B", &["C"]), ("C", &[]), ("D", &[])]);
    let closure = reg.resolve_deps(&vec![String::from("A")]).unwrap();
    assert_eq!(
        sorted(closure),
        vec![String::from("A"), String::from("B"), String::from("C")]
    );
}

#[test]
fn resolve_includes_all_seeds() {
    let reg = registry(&[("A", &[]), ("B", &[]), ("C", &[])]);
    let closure = reg
        .resolve_deps(&vec![String::from("C"), String::from("A")])
        .unwrap();
    assert_eq!(sorted(closure), vec![String::from("A"), String::from("C")]);
}

#[test]
fn resolve_duplicate_seeds_collapse() {
    let reg = registry(&[("A", &["B"]), ("B", &[])]);
    let closure = reg
        .resolve_deps(&vec![
            String::from("A"),
            String::from("A"),
            String::from("B"),
        ])
        .unwrap();
    assert_eq!(sorted(closure), vec![String::from("A"), String::from("B")]);
}

#[test]
fn resolve_cycle_terminates() {
    // mutual dependency: the closure of {A} is {A, B}, with no
    // non-termination
    let reg = registry(&[("A", &["B"]), ("B", &["A"])]);
    let closure = reg.resolve_deps(&vec![String::from("A")]).unwrap();
    assert_eq!(sorted(closure), vec![String::from("A"), String::from("B")]);
}

#[test]
fn resolve_self_loop_terminates() {
    let reg = registry(&[("A", &["A"])]);
    let closure = reg.resolve_deps(&vec![String::from("A")]).unwrap();
    assert_eq!(sorted(closure), vec![String::from("A")]);
}

#[test]
fn resolve_diamond() {
    let reg = registry(&[
        ("A", &["B", "C"]),
        ("B", &["D"]),
        ("C", &["D"]),
        ("D", &[]),
    ]);
    let closure = reg.resolve_deps(&vec![String::from("A")]).unwrap();
    assert_eq!(
        sorted(closure),
        vec![
            String::from("A"),
            String::from("B"),
            String::from("C"),
            String::from("D")
        ]
    );
}

#[test]
fn resolve_unknown_seed() {
    let reg = registry(&[("A", &[])]);
    let unknown = reg.resolve_deps(&vec![String::from("Nope")]).unwrap_err();
    assert_eq!(unknown, vec![String::from("Nope")]);
}

#[test]
fn resolve_unknown_dependency_discards_partial_result() {
    let reg = registry(&[("A", &["B", "X"]), ("B", &["Y"])]);
    let unknown = reg.resolve_deps(&vec![String::from("A")]).unwrap_err();
    assert_eq!(sorted(unknown), vec![String::from("X"), String::from("Y")]);
}

#[test]
fn resolve_idempotent_on_closure() {
    // resolving the result of a resolution returns the same set: the
    // closure is a fixpoint
    let reg = registry(&[("A", &["B"]), ("B", &["C"]), ("C", &["A"]), ("D", &[])]);
    let once = reg.resolve_deps(&vec![String::from("A")]).unwrap();
    let twice = reg.resolve_deps(&once).unwrap();
    assert_eq!(sorted(once.clone()), sorted(twice));
}

#[test]
fn resolve_single_matches_list_form() {
    let reg = registry(&[("A", &["B"]), ("B", &[])]);
    let single = reg.resolve_deps_single("A").unwrap();
    let listed = reg.resolve_deps(&vec![String::from("A")]).unwrap();
    assert_eq!(sorted(single), sorted(listed));
}

#[test]
fn validate_relations_all_present() {
    let mut reg = registry(&[("A", &["B"]), ("B", &[])]);
    reg.insert(String::from("C"), entry(&[], &["A"]));
    assert!(reg.validate_relations().is_ok());
}

#[test]
fn validate_relations_flags_exactly_the_dangling_entry() {
    let mut reg = registry(&[("A", &["B"]), ("B", &[])]);
    reg.insert(String::from("C"), entry(&["Ghost"], &[]));
    let bad = reg.validate_relations().unwrap_err();
    assert_eq!(bad, vec![String::from("C")]);
}

#[test]
fn validate_relations_checks_integrations_too() {
    let mut reg = ModLinks::new();
    reg.insert(String::from("A"), entry(&[], &["Ghost"]));
    let bad = reg.validate_relations().unwrap_err();
    assert_eq!(bad, vec![String::from("A")]);
}

#[test]
fn validate_names_flags_bad_keys() {
    let mut reg = ModLinks::new();
    reg.insert(String::from("Good"), entry(&[], &[]));
    reg.insert(String::from("1Bad"), entry(&[], &[]));
    let bad = reg.validate_names().unwrap_err();
    assert_eq!(bad, vec![String::from("1Bad")]);
    reg.remove("1Bad");
    assert!(reg.validate_names().is_ok());
}

#[test]
fn plan_downloads_resolves_and_picks_files() {
    let mut reg = ModLinks::new();
    let mut a = entry(&["B"], &[]);
    a.links = Links::new_platform_specific(
        file("https://example.com/a-win.zip"),
        file("https://example.com/a-mac.zip"),
        file("https://example.com/a-linux.zip"),
    );
    reg.insert(String::from("A"), a);
    reg.insert(String::from("B"), entry(&[], &[]));
    let plan = reg
        .plan_downloads(&vec![String::from("A")], false, Platform::Mac)
        .unwrap();
    let mut names: Vec<String> = plan.iter().map(|(n, _)| n.clone()).collect();
    names.sort();
    assert_eq!(names, vec![String::from("A"), String::from("B")]);
    for (name, fd) in &plan {
        if name == "A" {
            assert_eq!(fd.url, "https://example.com/a-mac.zip");
        } else {
            assert_eq!(fd.url, "https://example.com/mod.zip");
        }
    }
}

#[test]
fn plan_downloads_no_deps_keeps_order() {
    let reg = registry(&[("A", &["B"]), ("B", &[])]);
    let plan = reg
        .plan_downloads(
            &vec![String::from("B"), String::from("A")],
            true,
            Platform::Linux,
        )
        .unwrap();
    let names: Vec<String> = plan.iter().map(|(n, _)| n.clone()).collect();
    assert_eq!(names, vec![String::from("B"), String::from("A")]);
}

#[test]
fn plan_downloads_unknown_fails_whole_plan() {
    let reg = registry(&[("A", &["X"])]);
    let unknown = reg
        .plan_downloads(&vec![String::from("A")], false, Platform::Windows)
        .unwrap_err();
    assert_eq!(unknown, vec![String::from("X")]);
}
