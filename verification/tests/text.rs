use aurene::text::{chars_of, comes_before, is_profile_file, join, split_components};

fn strings(parts: &[&str]) -> Vec<String> {
    parts.iter().map(|p| p.to_string()).collect()
}

#[test]
fn chars_of_keeps_every_character() {
    assert_eq!(chars_of("a/é.dat"), vec!['a', '/', 'é', '.', 'd', 'a', 't']);
    assert_eq!(chars_of(""), Vec::<char>::new());
}

#[test]
fn split_components_drops_empty_components() {
    assert_eq!(split_components("a/b/c.dat"), strings(&["a", "b", "c.dat"]));
    assert_eq!(split_components("/a//b/"), strings(&["a", "b"]));
    assert_eq!(split_components("x.dat"), strings(&["x.dat"]));
    assert_eq!(split_components(""), Vec::<String>::new());
    assert_eq!(split_components("///"), Vec::<String>::new());
}

#[test]
fn split_components_keeps_dots_and_backslashes() {
    assert_eq!(split_components("./profiles/y.dat"), strings(&[".", "profiles", "y.dat"]));
    assert_eq!(split_components("a\\b"), strings(&["a\\b"]));
}

#[test]
fn comes_before_is_dictionary_order() {
    assert!(comes_before("a", "b"));
    assert!(!comes_before("b", "a"));
    assert!(comes_before("a", "ab"));
    assert!(!comes_before("ab", "a"));
    assert!(!comes_before("same", "same"));
    assert!(comes_before("", "a"));
    assert!(!comes_before("", ""));
    assert!(comes_before("a-b", "a/b"));
    assert!(comes_before("Z", "a"));
    assert!(comes_before("z", "é"));
}

#[test]
fn join_puts_one_separator_between() {
    assert_eq!(join("/home/u", "a/x.dat"), "/home/u/a/x.dat");
    assert_eq!(join("/home/u/", "a/x.dat"), "/home/u/a/x.dat");
    assert_eq!(join("", "a/x.dat"), "a/x.dat");
    assert_eq!(join("/", "x.dat"), "/x.dat");
    assert_eq!(join(".", "x.dat"), "./x.dat");
}

#[test]
fn joined_path_has_the_components_of_both() {
    let path = join("/home//u", "a/x.dat");
    assert_eq!(split_components(&path), strings(&["home", "u", "a", "x.dat"]));
}

#[test]
fn is_profile_file_wants_a_name_before_the_extension() {
    assert!(is_profile_file("Local.dat"));
    assert!(is_profile_file("/some/where/x.dat"));
    assert!(!is_profile_file(".dat"));
    assert!(!is_profile_file("dir/.dat"));
    assert!(!is_profile_file("x.DAT"));
    assert!(!is_profile_file("x.dat/"));
    assert!(!is_profile_file("x.data"));
    assert!(!is_profile_file("xdat"));
    assert!(!is_profile_file(""));
}
