use hydroperx_path::extension;
use hydroperx_path::{FlexPath, FlexPathVariant};

#[test]
fn extension_and_base_name() {
    assert!(FlexPath::new_common("a.x").has_extensions(&[".x", ".y"]));
    assert_eq!("a.y", FlexPath::new_common("a.x").change_extension(".y").to_string());
    assert_eq!("a.0", FlexPath::new_common("a.x.y").change_extension(".0").to_string());
    assert_eq!("a.0.1", FlexPath::new_common("a.x.y").change_extension(".0.1").to_string());

    assert_eq!("qux.html", FlexPath::new_common("foo/qux.html").base_name());
    assert_eq!("qux", FlexPath::new_common("foo/qux.html").base_name_without_ext(&[".html"]));
}

#[test]
fn change_extension_adds_the_missing_full_stop() {
    assert_eq!("a.y", extension::change_extension("a.x", "y"));
    assert_eq!("a.z.w", extension::change_extension("a.x.y", ".z.w"));
    assert_eq!("a.", extension::change_extension("a", ""));
}

#[test]
fn change_extension_without_extension_appends() {
    assert_eq!("a.y", extension::change_extension("a", ".y"));
    assert_eq!(".y", extension::change_extension("", ".y"));
    assert_eq!("a..y", extension::change_extension("a.", ".y"));
    assert_eq!("a.b..y", extension::change_extension("a.b.", "y"));
}

#[test]
fn change_extension_stops_at_two_full_stops() {
    assert_eq!("a..y", extension::change_extension("a..x", ".y"));
    assert_eq!("a.b..z", extension::change_extension("a.b..x.y", ".z"));
}

#[test]
fn change_extension_reaches_over_slashes() {
    assert_eq!("a.z", extension::change_extension("a.b/c.d", ".z"));
}

#[test]
fn change_last_extension_replaces_from_the_first_full_stop() {
    assert_eq!("a.z", extension::change_last_extension("a.x", ".z"));
    assert_eq!("a.z", extension::change_last_extension("a.x.y", "z"));
    assert_eq!("a.z", extension::change_last_extension("a", ".z"));
    assert_eq!("a..z", extension::change_last_extension("a.", ".z"));
    assert_eq!("a.z", extension::change_last_extension("a..", ".z"));
}

#[test]
fn change_last_extension_does_not_cross_a_line_feed() {
    assert_eq!("a.x\nb.z", extension::change_last_extension("a.x\nb.y", ".z"));
    assert_eq!("a.x\n.z", extension::change_last_extension("a.x\n", ".z"));
    assert_eq!("a.\nb.z", extension::change_last_extension("a.\nb", ".z"));
}

#[test]
fn change_last_extension_on_a_path_value() {
    let path = FlexPath::new("C:/a/b.txt", FlexPathVariant::Windows);
    assert!(extension::single_extension(".md"));
    let changed = path.change_last_extension(".md");
    assert_eq!(r"C:\a\b.md", changed.to_string());
    assert_eq!(FlexPathVariant::Windows, changed.variant());
}

#[test]
fn single_extension_counts_full_stops() {
    assert!(extension::single_extension("x"));
    assert!(extension::single_extension(".x"));
    assert!(extension::single_extension(""));
    assert!(extension::single_extension("."));
    assert!(!extension::single_extension("x.y"));
    assert!(!extension::single_extension(".x.y"));
    assert!(!extension::single_extension(".."));
    assert!(!extension::single_extension("x."));
}

#[test]
fn has_extension_ignores_letter_case() {
    assert!(extension::has_extension("A.X", ".x"));
    assert!(extension::has_extension("a.x", "X"));
    assert!(extension::has_extension("a.TXT", "txt"));
    assert!(!extension::has_extension("a.x", ".y"));
    assert!(!extension::has_extension("ax", ".x"));
    assert!(extension::has_extension("ÀB.ÉT", ".ét"));
}

#[test]
fn ends_with_extension_keeps_letter_case() {
    assert!(extension::ends_with_extension("a.x", ".x"));
    assert!(extension::ends_with_extension("a.x", "x"));
    assert!(!extension::ends_with_extension("a.X", ".x"));
    assert!(!extension::ends_with_extension("x", ".x"));
    assert!(extension::ends_with_extension(".x", "x"));
}

#[test]
fn has_extensions_of_none_is_false() {
    assert!(!extension::has_extensions("a.x", &[]));
    assert!(!FlexPath::new_common("a.x").has_extensions(&[".y", ".z"]));
    assert!(FlexPath::new_common("a.x").has_extension("x"));
}

#[test]
fn base_name_follows_the_last_forward_slash() {
    assert_eq!("c", extension::base_name("a/b/c"));
    assert_eq!("", extension::base_name("a/b/"));
    assert_eq!("abc", extension::base_name("abc"));
    assert_eq!("", extension::base_name(""));
    assert_eq!(r"a\b", extension::base_name(r"a\b"));
}

#[test]
fn base_name_without_ext_keeps_only_the_last_unknown_extension() {
    assert_eq!("qux", extension::base_name_without_ext("foo/qux.html", &["html"]));
    assert_eq!("qux.html", extension::base_name_without_ext("foo/qux.html", &[".txt"]));
    assert_eq!("qux", extension::base_name_without_ext("foo/qux.tar.gz", &[".gz"]));
    assert_eq!("qux.gz", extension::base_name_without_ext("foo/qux.tar.gz", &[".tar"]));
    assert_eq!("qux", extension::base_name_without_ext("foo/qux", &[".gz"]));
    assert_eq!("qux.", extension::base_name_without_ext("qux.", &["."]));
    assert_eq!("qux.html", extension::base_name_without_ext("qux.html", &[".HTML"]));
}

#[test]
fn to_path_buf_holds_the_rendered_text() {
    let path = FlexPath::new("C:/a/b", FlexPathVariant::Windows);
    assert_eq!(Some(r"C:\a\b"), path.to_path_buf().to_str());
    let path = FlexPath::new_common("/a/./b");
    assert_eq!(Some("/a/b"), path.to_path_buf().to_str());
}
