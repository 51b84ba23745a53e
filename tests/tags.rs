use bliet::tags::{join_tags, normalize_tags};

#[test]
fn tags_are_trimmed_lowercased_and_joined() {
    assert_eq!(normalize_tags(" Foo , BAR ,, baz"), Some("foo,bar,baz".to_string()));
    assert_eq!(normalize_tags("Calc"), Some("calc".to_string()));
    assert_eq!(normalize_tags("a,,b,"), Some("a,b".to_string()));
    assert_eq!(normalize_tags("Ärger, ÖL"), Some("ärger,öl".to_string()));
}

#[test]
fn empty_tags_are_none() {
    assert_eq!(normalize_tags(""), None);
    assert_eq!(normalize_tags("  "), None);
    assert_eq!(normalize_tags(" , ,\t,"), None);
}

#[test]
fn join_skips_empty_names() {
    let names = vec!["".to_string(), "x".to_string(), "".to_string(), "y z".to_string()];
    assert_eq!(join_tags(&names), Some("x,y z".to_string()));
    assert_eq!(join_tags(&vec![]), None);
    assert_eq!(join_tags(&vec!["".to_string()]), None);
}

#[test]
fn unicode_white_space_is_trimmed() {
    assert_eq!(normalize_tags("\u{3000}Tag\u{a0},\u{2003}"), Some("tag".to_string()));
    assert_eq!(normalize_tags("\u{85}\u{2028}"), None);
}
