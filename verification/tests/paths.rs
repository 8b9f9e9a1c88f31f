use hydroperx_path::{FlexPath, FlexPathVariant};

#[test]
fn resolution() {
    assert_eq!("a", FlexPath::from_n_common(&["a/b/.."]).to_string());
    assert_eq!("a", FlexPath::from_n_common(&["a", "b", ".."]).to_string());
    assert_eq!("/a/b", FlexPath::new_common("/c").resolve("/a/b").to_string());
    assert_eq!("a", FlexPath::new_common("a/b").resolve("..").to_string());
    assert_eq!("a/b", FlexPath::new_common("a/b/").to_string());
    assert_eq!("a/b", FlexPath::new_common("a//b").to_string());

    let windows = FlexPathVariant::Windows;
    assert_eq!(r"\\Whack\a\Box", FlexPath::from_n(&["foo", r"\\Whack////a//Box", "..", "Box"], windows).to_string());
    assert_eq!(r"\\?\X:\", FlexPath::from_n(&[r"\\?\X:", r".."], windows).to_string());
    assert_eq!(r"\\?\X:\", FlexPath::from_n(&[r"\\?\X:\", r".."], windows).to_string());
    assert_eq!(r"\\?\UNC\Whack\a\Box", FlexPath::from_n(&[r"\\?\UNC\Whack\a\Box", r"..", "Box"], windows).to_string());
    assert_eq!(r"C:\a", FlexPath::new("C:/", windows).resolve("a").to_string());
    assert_eq!(r"D:\", FlexPath::new("C:/", windows).resolve("D:/").to_string());
    assert_eq!(r"D:\a", FlexPath::new("D:/a", windows).to_string());
    assert_eq!(r"C:\a\f\b", FlexPath::new("a", windows).resolve("C:/a///f//b").to_string());
}

#[test]
fn relativity() {
    assert_eq!("", FlexPath::new_common("/a/b").relative("/a/b"));
    assert_eq!("c", FlexPath::new_common("/a/b").relative("/a/b/c"));
    assert_eq!("../../c/d", FlexPath::new_common("/a/b/c").relative("/a/c/d"));
    assert_eq!("..", FlexPath::new_common("/a/b/c").relative("/a/b"));
    assert_eq!("../..", FlexPath::new_common("/a/b/c").relative("/a"));
    assert_eq!("..", FlexPath::new_common("/a").relative("/"));
    assert_eq!("a", FlexPath::new_common("/").relative("/a"));
    assert_eq!("", FlexPath::new_common("/").relative("/"));
    assert_eq!("../../c/d", FlexPath::new_common("/a/b").relative("/c/d"));
    assert_eq!("../c", FlexPath::new_common("/a/b").relative("/a/c"));

    let windows = FlexPathVariant::Windows;
    assert_eq!("", FlexPath::new("C:/", windows).relative("C:/"));
    assert_eq!("", FlexPath::new("C:/foo", windows).relative("C:/foo"));
    assert_eq!(r"\\foo", FlexPath::new("C:/", windows).relative(r"\\foo"));
    assert_eq!("../../foo", FlexPath::new(r"\\a/b", windows).relative(r"\\foo"));
    assert_eq!("D:/", FlexPath::new("C:/", windows).relative(r"D:"));
    assert_eq!("../bar", FlexPath::new(r"\\?\C:\foo", windows).relative(r"\\?\C:\bar"));
}
