use hk_modlinks::{get_safe_mod_name, is_valid_file_url, is_valid_mod_name, parse_mods_list};

#[test]
fn valid_name_ordinary() {
    assert!(is_valid_mod_name("Qwe"));
}

#[test]
fn valid_name_must_start_with_letter() {
    assert!(!is_valid_mod_name("1Abc"));
}

#[test]
fn valid_name_needs_nonempty_rest() {
    assert!(!is_valid_mod_name("A"));
}

#[test]
fn valid_name_rejects_forbidden_char() {
    assert!(!is_valid_mod_name("A/B"));
}

#[test]
fn valid_name_rejects_each_metacharacter() {
    for c in ['\\', '/', ':', '*', '?', '<', '>', '"', '|'] {
        let name = format!("Ab{c}");
        assert!(!is_valid_mod_name(&name), "expected {name:?} to be invalid");
    }
}

#[test]
fn valid_name_empty_and_space() {
    assert!(!is_valid_mod_name(""));
    assert!(is_valid_mod_name("A b"));
}

#[test]
fn safe_name_splits_and_uppercases() {
    assert_eq!(get_safe_mod_name("My [Cool] Mod"), "MyCoolMod");
}

#[test]
fn safe_name_strips_odd_characters() {
    assert_eq!(get_safe_mod_name("lower case"), "LowerCase");
    assert_eq!(get_safe_mod_name("a+b c!"), "AbC");
    assert_eq!(get_safe_mod_name("x.y-z_0"), "X.y-z_0");
}

#[test]
fn safe_name_drops_empty_parts() {
    assert_eq!(get_safe_mod_name("  [] "), "");
    assert_eq!(get_safe_mod_name("[a][b]"), "AB");
}

#[test]
fn file_url_schemes() {
    assert!(is_valid_file_url("http://example.com/file.zip"));
    assert!(is_valid_file_url("https://example.com/file.zip"));
    assert!(!is_valid_file_url("ftp://example.com/file.zip"));
    assert!(!is_valid_file_url("file:///tmp/x"));
}

#[test]
fn mods_list_parsing() {
    let text = "ModA\n# a comment\r\nModB\n\nModC";
    let mods = parse_mods_list(text);
    assert_eq!(mods, vec!["ModA", "ModB", "ModC"]);
}

#[test]
fn mods_list_empty_input() {
    assert_eq!(parse_mods_list(""), Vec::<String>::new());
    assert_eq!(parse_mods_list("#only\n#comments\n"), Vec::<String>::new());
}
