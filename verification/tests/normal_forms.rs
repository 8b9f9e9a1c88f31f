use hydroperx_path::normalize::{find_trimmed_len, normalize_text, to_upper_letter, with_long_prefix_chars};
use hydroperx_path::FlexPathVariant;

fn long_prefix(text: &str) -> String {
    with_long_prefix_chars(text.chars().collect()).into_iter().collect()
}

#[test]
fn normalization() {
    let windows = FlexPathVariant::Windows;
    assert_eq!(r"\\?\C:\program files", normalize_text(r"D:\work", r"C:/Program Files/", windows));
    assert_eq!(r"\\?\UNC\server\foo", normalize_text(r"D:\work", r"\\server\foo\", windows));
    assert_eq!(r"\\?\C:\foo", normalize_text(r"D:\work", r"\\?\c:/foo/", windows));
    assert_eq!(r"\\?\UNC\server\foo", normalize_text(r"D:\work", r"\\?\unc\server\Foo\", windows));
}

#[test]
fn normalization_of_a_bare_long_drive() {
    let windows = FlexPathVariant::Windows;
    assert_eq!(r"\\?\C:", normalize_text(r"D:\work", r"\\?\C:\\", windows));
    assert_eq!(r"\\?\C:", normalize_text(r"D:\work", r"\\?\C:", windows));
}

#[test]
fn normalization_resolves_against_the_working_directory() {
    let windows = FlexPathVariant::Windows;
    assert_eq!(r"\\?\D:\work\a\b", normalize_text(r"D:\Work", r"A\.\B\", windows));
    assert_eq!(r"\\?\D:\a", normalize_text(r"D:\Work", r"..\A", windows));
    assert_eq!("/home/User/a", normalize_text("/home/User", "x/../a/", FlexPathVariant::Common));
    assert_eq!("/", normalize_text("/home", "..", FlexPathVariant::Common));
    assert_eq!("/etc", normalize_text("/home", "/etc//", FlexPathVariant::Common));
}

#[test]
fn normalization_keeps_letter_case_without_a_prefix() {
    assert_eq!("/Home/ÉCOLE", normalize_text("/Home", "ÉCOLE", FlexPathVariant::Common));
    assert_eq!(r"\Home\ÉCOLE", normalize_text("/Home", "ÉCOLE", FlexPathVariant::Windows));
    assert_eq!(r"\\?\C:\home\école", normalize_text("C:/Home", "ÉCOLE", FlexPathVariant::Windows));
}

#[test]
fn normalization_of_a_relative_working_directory() {
    assert_eq!(r"\\?\C:/x", normalize_text("c:", "X", FlexPathVariant::Common));
    assert_eq!("a/b", normalize_text("a", "b", FlexPathVariant::Common));
    assert_eq!("", normalize_text("", "", FlexPathVariant::Windows));
}

#[test]
fn trimmed_len_keeps_a_text_of_separators() {
    let chars = |s: &str| s.chars().collect::<Vec<char>>();
    assert_eq!(0, find_trimmed_len(&chars("")));
    assert_eq!(1, find_trimmed_len(&chars("/")));
    assert_eq!(3, find_trimmed_len(&chars(r"/\/")));
    assert_eq!(1, find_trimmed_len(&chars(r"a/\")));
    assert_eq!(2, find_trimmed_len(&chars(r"/a//")));
    assert_eq!(3, find_trimmed_len(&chars("a/b")));
}

#[test]
fn upper_letter_changes_only_small_ascii_letters() {
    assert_eq!('A', to_upper_letter('a'));
    assert_eq!('Z', to_upper_letter('z'));
    assert_eq!('M', to_upper_letter('M'));
    assert_eq!('é', to_upper_letter('é'));
    assert_eq!('`', to_upper_letter('`'));
    assert_eq!('{', to_upper_letter('{'));
    assert_eq!(':', to_upper_letter(':'));
}

#[test]
fn long_prefix_forms() {
    assert_eq!(r"\\?\UNC\host\share", long_prefix(r"\\?\uNc\Host\Share"));
    assert_eq!(r"\\?\UNC", long_prefix(r"\\?\unc"));
    assert_eq!(r"\\?\X:\dir", long_prefix(r"\\?\x:\Dir"));
    assert_eq!(r"\\?\X:dir", long_prefix(r"x:Dir"));
    assert_eq!(r"\\?\UNC\host", long_prefix(r"\\Host"));
    assert_eq!(r"\\?\UNC\", long_prefix(r"\\"));
    assert_eq!(r"\\?", long_prefix(r"\\?"));
    assert_eq!(r"\\?\Dir", long_prefix(r"\\?\Dir"));
    assert_eq!(r"//Host", long_prefix(r"//Host"));
    assert_eq!(r"\Dir", long_prefix(r"\Dir"));
    assert_eq!("Dir", long_prefix("Dir"));
    assert_eq!("", long_prefix(""));
}
