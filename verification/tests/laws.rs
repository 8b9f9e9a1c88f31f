use hydroperx_path::{common, flexible, FlexPath, FlexPathVariant};

const COMMON: FlexPathVariant = FlexPathVariant::Common;
const WINDOWS: FlexPathVariant = FlexPathVariant::Windows;

#[test]
fn common_literal_cases() {
    assert_eq!("a", common::resolve_one("a/b/.."));
    assert_eq!("a", common::resolve_n(&["a", "b", ".."]));
    assert_eq!("", common::relative("/a/b", "/a/b"));
    assert_eq!("../../c/d", common::relative("/a/b", "/c/d"));
    assert_eq!("..", common::relative("/a", "/"));
    assert_eq!("a", flexible::resolve_one("a/b/..", COMMON));
    assert_eq!("a", flexible::resolve_n(&["a", "b", ".."], COMMON));
    assert_eq!("../../c/d", flexible::relative("/a/b", "/c/d", COMMON));
}

#[test]
fn windows_literal_cases() {
    assert_eq!(
        "\\\\Whack\\a\\Box",
        FlexPath::from_n(&["foo", "\\\\Whack\\\\\\\\a\\\\Box", "..", "Box"], WINDOWS).to_string()
    );
    assert_eq!("\\\\Whack/a/Box", flexible::resolve_n(&["foo", "\\\\Whack\\\\\\\\a\\\\Box", "..", "Box"], WINDOWS));
    assert_eq!("\\\\?\\X:\\", FlexPath::from_n(&["\\\\?\\X:", ".."], WINDOWS).to_string());
    assert_eq!("\\\\?\\X:/", flexible::resolve_n(&["\\\\?\\X:", ".."], WINDOWS));
    assert_eq!("D:/", flexible::relative("C:/", "D:", WINDOWS));
}

#[test]
fn separators_collapse() {
    assert_eq!("a/b", common::resolve_one("a//b/"));
    assert_eq!("a/b", common::resolve_one(r"a\\b\"));
    assert_eq!("/a/b", common::resolve_one(r"\\a//\\b"));
    assert_eq!("a/b", flexible::resolve_one("a//b/", COMMON));
}

#[test]
fn degenerate_paths_resolve() {
    assert_eq!("", common::resolve_one(""));
    assert_eq!("/", common::resolve_one("/"));
    assert_eq!("/", common::resolve_one(r"\"));
    assert_eq!("/", common::resolve_one("////"));
    assert_eq!("", common::resolve_one("."));
    assert_eq!("", common::resolve_one(".."));
    assert_eq!("/", common::resolve_one("/.."));
    assert_eq!("", common::resolve_n(&[]));
    assert_eq!("", flexible::resolve_n(&[], WINDOWS));
    assert_eq!("", flexible::resolve_one("", WINDOWS));
    assert_eq!("", FlexPath::from_n(&[], COMMON).to_string());
}

#[test]
fn leading_parent_segments_are_dropped() {
    assert_eq!("a", common::resolve_one("../a"));
    assert_eq!("a", common::resolve_one("../../a"));
    assert_eq!("b", common::resolve_one("a/../../b"));
    assert_eq!("/b", common::resolve_one("/a/../../b"));
    assert_eq!("...", common::resolve_one("a/../..."));
}

#[test]
fn an_absolute_second_path_wins() {
    assert_eq!("/x", common::resolve("/a/b", "/x"));
    assert_eq!("/x", common::resolve("a/b", r"\x"));
    assert_eq!("/a/b/x", common::resolve("/a/b", "x"));
    assert_eq!("a/x", common::resolve("a/b", "../x"));
    assert_eq!("/a/b", common::resolve("/a/b/", ""));
    assert_eq!("a/b", common::resolve("a/./b", ""));
}

#[test]
fn resolve_n_folds_from_the_left() {
    assert_eq!("a/b/c/d/e", common::resolve_n(&["a/b", "c/d", "e/f", ".."]));
    assert_eq!("a/b/c/d/e", FlexPath::from_n_common(&["a/b", "c/d", "e/f", ".."]).to_string());
    assert_eq!("/x/y", common::resolve_n(&["a", "/x", "y"]));
    assert_eq!(common::resolve_one("a/./b/"), common::resolve_n(&["a/./b/"]));
    assert_eq!("/r/a/c", FlexPath::new_common("/r").resolve_n(&["a", "b", "../c"]).to_string());
    assert_eq!("/r", FlexPath::new_common("/r").resolve_n(&[]).to_string());
}

#[test]
fn resolving_twice_changes_nothing() {
    for path in ["", "/", "a", "/a/b/../c", r"a\.\b\\c", "../x", "./C:/x", "a/b/", "//a"] {
        let once = common::resolve_one(path);
        assert_eq!(once, common::resolve_one(&once), "path {:?}", path);
        let once = flexible::resolve_one(path, COMMON);
        assert_eq!(once, flexible::resolve_one(&once, COMMON), "path {:?}", path);
    }
    for path in ["C:", "C:/a/../b", r"\\host\share\..", r"\\?\C:\a", r"\\?\a\b", "/a/b", "a/b", r"\\?\C:"] {
        let once = flexible::resolve_one(path, WINDOWS);
        assert_eq!(once, flexible::resolve_one(&once, WINDOWS), "path {:?}", path);
    }
}

#[test]
fn a_drive_that_resolution_uncovers_becomes_a_prefix() {
    assert_eq!("C:", flexible::resolve_one("./C:", WINDOWS));
    assert_eq!("C:/", flexible::resolve_one("C:", WINDOWS));
    assert_eq!(r"\\?\C:", flexible::resolve_one(r"\\?\/C:", WINDOWS));
    assert_eq!(r"\\?\C:/", flexible::resolve_one(r"\\?\C:", WINDOWS));
}

#[test]
fn the_way_to_itself_is_empty() {
    for path in ["/", "/a", "/a/b/../c", r"\a\b", "//a/./b/"] {
        assert_eq!("", common::relative(path, path), "path {:?}", path);
        assert_eq!("", flexible::relative(path, path, COMMON), "path {:?}", path);
    }
    for path in ["C:", "C:/a", r"\\host\share", r"\\?\C:\a", r"\\?/C:a", "/a/b", r"\", r"\\"] {
        assert_eq!("", flexible::relative(path, path, WINDOWS), "path {:?}", path);
    }
}

#[test]
fn resolving_the_way_leads_to_the_target() {
    let paths = ["/", "/a", "/a/b", "/a/b/c", "/a/c/d", "/x/../a/./q", r"\a\b", "//a//z/"];
    for from in paths {
        for to in paths {
            let way = common::relative(from, to);
            assert_eq!(common::resolve_one(to), common::resolve(from, &way), "{:?} {:?}", from, to);
            let way = flexible::relative(from, to, COMMON);
            assert_eq!(
                flexible::resolve_one(to, COMMON),
                flexible::resolve(from, &way, COMMON),
                "{:?} {:?}",
                from,
                to
            );
        }
    }
}

#[test]
fn resolving_the_way_leads_to_the_target_in_the_windows_dialect() {
    let groups: [&[&str]; 5] = [
        &["C:", "C:/", "C:/a/b", "C:a", r"C:\x\..\a\c"],
        &[r"\\host\share", r"\\host", r"\\", r"\\a\b\c"],
        &[r"\\?\C:\a", r"\\?\C:", r"\\?\C:\a\b\..\c", r"\\?\C:x"],
        &[r"\\?\a\b", r"\\?\", r"\\?\a\c\d", r"\\?/a", r"\\?/b/c"],
        &["/a/b", "/", "/ab/c", "/ad/e", "/a"],
    ];
    for group in groups {
        for from in group {
            for to in group {
                let way = flexible::relative(from, to, WINDOWS);
                assert_eq!(
                    flexible::resolve_one(to, WINDOWS),
                    flexible::resolve(from, &way, WINDOWS),
                    "{:?} {:?}",
                    from,
                    to
                );
            }
        }
    }
}

#[test]
fn a_way_that_begins_with_a_drive_does_not_lead_back() {
    let way = flexible::relative("C:/", "C:/D:/x", WINDOWS);
    assert_eq!("D:/x", way);
    assert_eq!("D:/x", flexible::resolve("C:/", &way, WINDOWS));
    assert_eq!("C:/D:/x", flexible::resolve_one("C:/D:/x", WINDOWS));
}

#[test]
fn a_single_leading_separator_is_a_prefix_of_its_own() {
    assert_eq!("../../ad/e", flexible::relative("/ab/c", "/ad/e", WINDOWS));
    assert_eq!("../b", flexible::relative("/a", "/b", WINDOWS));
    assert_eq!("/b", flexible::relative("/a", r"\b", WINDOWS));
    assert_eq!("b", flexible::relative("/", "/b", WINDOWS));
}

#[test]
fn the_way_climbs_first_and_descends_after() {
    let paths = ["/", "/a", "/a/b", "/a/b/c", "/a/c/d", "/x/y", "/a/b/c/d/e"];
    for from in paths {
        for to in paths {
            let way = common::relative(from, to);
            let depth = |p: &str| p.split('/').filter(|s| !s.is_empty()).count();
            let segments: Vec<&str> = way.split('/').filter(|s| !s.is_empty()).collect();
            let climbs = segments.iter().take_while(|s| **s == "..").count();
            assert!(segments[climbs..].iter().all(|s| *s != ".."), "{:?} {:?}", from, to);
            assert!(segments.len() <= depth(from) + depth(to), "{:?} {:?}", from, to);
            assert!(!way.starts_with('/') && !way.ends_with('/'), "{:?} {:?}", from, to);
        }
    }
    assert_eq!("../..", common::relative("/a/b/c", "/a"));
    assert_eq!("b/c", common::relative("/a", "/a/b/c"));
}

#[test]
fn the_way_keeps_the_spaces_of_its_segments() {
    assert_eq!(" b", common::relative("/a", "/a/ b"));
    assert_eq!("b ", common::relative("/a", "/a/b "));
}

#[test]
fn letter_case_is_kept() {
    assert_eq!("/Ab/cD", common::resolve_one("/Ab/./cD"));
    assert_eq!("c:/Ab", flexible::resolve_one("c:Ab", WINDOWS));
    assert_eq!(r"\\?\c:/Ab", flexible::resolve_one(r"\\?\c:\Ab", WINDOWS));
    assert_eq!("../B", flexible::relative("C:/a", "C:/B", WINDOWS));
    assert_eq!("c:/a", flexible::relative("C:/a", "c:/a", WINDOWS));
}

#[test]
fn is_absolute_by_dialect() {
    assert!(flexible::is_absolute("/a", COMMON));
    assert!(flexible::is_absolute(r"\a", COMMON));
    assert!(!flexible::is_absolute("C:/a", COMMON));
    assert!(!flexible::is_absolute("", COMMON));
    assert!(flexible::is_absolute("C:", WINDOWS));
    assert!(flexible::is_absolute(r"\\host", WINDOWS));
    assert!(flexible::is_absolute(r"\\?\C:", WINDOWS));
    assert!(flexible::is_absolute("/", WINDOWS));
    assert!(!flexible::is_absolute("a/b", WINDOWS));
    assert!(!flexible::is_absolute("", WINDOWS));
    assert!(!flexible::is_absolute("1:", WINDOWS));
    assert!(FlexPath::new("C:/a", WINDOWS).is_absolute());
    assert!(!FlexPath::new("C:/a", COMMON).is_absolute());
    assert!(FlexPath::new_common("/a").is_absolute());
}

#[test]
fn the_later_prefix_wins() {
    assert_eq!("D:/x", flexible::resolve("C:/a", "D:x", WINDOWS));
    assert_eq!("C:/a/x", flexible::resolve("C:/a", "x", WINDOWS));
    assert_eq!("C:/x", flexible::resolve("C:/a", "/x", WINDOWS));
    assert_eq!(r"\\x", flexible::resolve("C:/a", r"\\x", WINDOWS));
    assert_eq!(r"\\?\x", flexible::resolve(r"\\?\a", "../x", WINDOWS));
    assert_eq!("//?", flexible::resolve("//?/a", "..", WINDOWS));
}

#[test]
fn variants_and_rendering() {
    assert_eq!(COMMON, FlexPath::new_common("a").variant());
    assert_eq!(WINDOWS, FlexPath::new("a", WINDOWS).variant());
    assert_eq!(FlexPathVariant::native(), FlexPath::new_native("a").variant());
    assert_eq!(FlexPathVariant::native(), FlexPath::from_n_native(&["a", "b"]).variant());
    assert_eq!(WINDOWS, FlexPathVariant::for_separator('\\'));
    assert_eq!(COMMON, FlexPathVariant::for_separator('/'));
    assert_eq!(
        FlexPathVariant::for_separator(std::path::MAIN_SEPARATOR),
        FlexPathVariant::native()
    );
    assert_eq!(r"a\b\c", FlexPath::new("a/b/c", WINDOWS).to_string());
    assert_eq!("a/b/c", FlexPath::new(r"a\b\c", COMMON).to_string());
    assert!(FlexPath::new_common("a/./b") == FlexPath::new_common("a/b"));
    assert!(FlexPath::new_common("a/b") != FlexPath::new("a/b", WINDOWS));
    assert!(FlexPath::new_common("a/b") != FlexPath::new_common("a/c"));
    assert_eq!(FlexPath::new_common("a/b"), FlexPath::new_common("a/b").clone());
}

#[test]
fn a_drive_behind_a_marker_with_a_forward_slash_may_not_lead_back() {
    let way = flexible::relative(r"\\?/C:y", r"\\?/C:/x", WINDOWS);
    assert_eq!("../x", way);
    assert_eq!(r"\\?/x", flexible::resolve(r"\\?/C:y", &way, WINDOWS));
    assert_eq!(r"\\?/C:/x", flexible::resolve_one(r"\\?/C:/x", WINDOWS));
}

#[test]
fn resolve_n_on_a_path_value_folds_from_the_path() {
    assert_eq!("a/c", FlexPath::new_common("a/b").resolve_n(&["..", "c"]).to_string());
    assert_eq!("x", FlexPath::new_common("a/b").resolve_n(&["..", "..", "..", "x"]).to_string());
    assert_eq!("a/b", FlexPath::new_common("a/b").resolve_n(&[]).to_string());
    assert_eq!("/x/y", FlexPath::new_common("/a").resolve_n(&["b", "/x", "y"]).to_string());
    assert_eq!(
        FlexPath::new_common("a/b").resolve("..").resolve("c"),
        FlexPath::new_common("a/b").resolve_n(&["..", "c"])
    );
    assert_eq!(r"C:\x", FlexPath::new("C:/a/b", WINDOWS).resolve_n(&["..", "..", "x"]).to_string());
    assert_eq!(r"D:\x", FlexPath::new("C:/a/b", WINDOWS).resolve_n(&["..", "D:", "x"]).to_string());
}

#[test]
fn a_resolved_form_with_a_longer_prefix_stays_if_a_slash_follows_it() {
    assert_eq!("C:/x", flexible::resolve_one("./C:/x", WINDOWS));
    assert_eq!("C:/x", flexible::resolve_one("C:/x", WINDOWS));
    assert_eq!(r"\\?\C:/x", flexible::resolve_one(r"\\?\/C:/x", WINDOWS));
    assert_eq!(r"\\?\C:/x", flexible::resolve_one(r"\\?\C:/x", WINDOWS));
    assert_eq!("C:x", flexible::resolve_one("./C:x", WINDOWS));
    assert_eq!("C:/x", flexible::resolve_one("C:x", WINDOWS));
    for path in ["./C:/x", r"\\?\/C:/x", r"\\?\.\C:\a\b", "x/../c:/d"] {
        let once = flexible::resolve_one(path, WINDOWS);
        assert_eq!(once, flexible::resolve_one(&once, WINDOWS), "path {:?}", path);
    }
}

#[test]
fn ways_behind_a_marker_with_a_forward_slash_that_lead_back() {
    let pairs = [
        (r"\\?/C:y", r"\\?/C:y"),
        (r"\\?/../a", r"\\?/../b"),
        (r"\\?/a/b", r"\\?/a/c"),
        (r"\\?/C:/a", r"\\?/C:/b/c"),
        (r"\\?/C:y/a", r"\\?/C:y/b"),
    ];
    for (from, to) in pairs {
        let way = flexible::relative(from, to, WINDOWS);
        assert_eq!(
            flexible::resolve_one(to, WINDOWS),
            flexible::resolve(from, &way, WINDOWS),
            "{:?} {:?}",
            from,
            to
        );
    }
    assert_eq!("../b", flexible::relative(r"\\?/../a", r"\\?/../b", WINDOWS));
    assert_eq!(r"\\b", flexible::resolve_one(r"\\?/../b", WINDOWS));
}

#[test]
fn ways_behind_a_marker_with_a_forward_slash_that_do_not_lead_back() {
    let pairs = [(r"\\?/../a", r"\\?/b"), (r"\\?/a", r"\\?/../b"), (r"\\?/C:y", r"\\?/C:z")];
    for (from, to) in pairs {
        let way = flexible::relative(from, to, WINDOWS);
        assert_ne!(
            flexible::resolve_one(to, WINDOWS),
            flexible::resolve(from, &way, WINDOWS),
            "{:?} {:?}",
            from,
            to
        );
    }
}
