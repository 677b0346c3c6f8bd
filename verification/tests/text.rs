use dotsync::paths::{components_of, find, insert_path, put, FilePath};
use dotsync::text::{
    decimal_text, fill_count, find_char, join, strip_prefix, strip_suffix, trim, trim_trailing,
};

fn texts(list: &[&str]) -> Vec<String> {
    list.iter().map(|text| text.to_string()).collect()
}

#[test]
fn texts_are_joined_with_what_stands_between_them() {
    assert_eq!(join(&texts(&["a", "b", "c"]), ", "), "a, b, c");
    assert_eq!(join(&texts(&["a"]), ", "), "a");
    assert_eq!(join(&texts(&[]), ", "), "");
}

#[test]
fn numbers_are_written_in_decimal() {
    assert_eq!(decimal_text(0), "0");
    assert_eq!(decimal_text(7), "7");
    assert_eq!(decimal_text(1050), "1050");
    assert_eq!(decimal_text(usize::MAX), usize::MAX.to_string());
}

#[test]
fn a_prefix_or_suffix_comes_off_once() {
    assert_eq!(strip_prefix("abab", "ab").as_deref(), Some("ab"));
    assert_eq!(strip_prefix("ba", "ab"), None);
    assert_eq!(strip_suffix("linux scope", " scope").as_deref(), Some("linux"));
    assert_eq!(strip_suffix("scope", " scope"), None);
    assert_eq!(strip_prefix("é", "").as_deref(), Some("é"));
}

#[test]
fn white_space_is_trimmed_from_both_ends_only() {
    for text in ["  a b \n", "\u{a0}a\u{2003}", "\u{85}\u{3000}", "", "a", "\t\r\n", "\u{200b}a"] {
        assert_eq!(trim(text), text.trim(), "trimmed {text:?} wrong");
    }
    assert_eq!(trim_trailing("a/b//", '/'), "a/b");
    assert_eq!(trim_trailing("///", '/'), "");
}

#[test]
fn a_character_is_found_where_it_comes_first() {
    assert_eq!(find_char("aéb\nc\n", '\n'), 3);
    assert_eq!(find_char("abc", 'x'), 3);
}

#[test]
fn a_count_takes_the_place_of_its_mark() {
    assert_eq!(fill_count("{n} of {n} file(s)", "3"), "3 of 3 file(s)");
}

#[test]
fn a_path_is_its_components() {
    for (text, parts) in [
        ("a/b", vec!["a", "b"]),
        ("./a//b/", vec![".", "a", "b"]),
        ("a/./b", vec!["a", "b"]),
        ("/a/../b", vec!["/", "a", "..", "b"]),
        ("", vec![]),
    ] {
        let expected: Vec<String> = std::path::Path::new(text)
            .components()
            .map(|part| part.as_os_str().to_string_lossy().into_owned())
            .collect();
        assert_eq!(expected, parts, "the case for {text:?} is wrong");
        assert_eq!(components_of(text), parts, "split {text:?} wrong");
    }
}

#[test]
fn two_spellings_of_one_path_are_the_same() {
    let one = FilePath::new(".config//nvim/./init.lua");
    let other = FilePath::new(".config/nvim/init.lua");
    assert!(one.same(&other));
    assert!(!one.same(&FilePath::new(".config/nvim")));
    assert!(one.starts_with(&FilePath::new(".config/nvim")));
    assert!(!one.starts_with(&FilePath::new(".config/nv")));
    assert_eq!(one.normalised().text, ".config/nvim/init.lua");
}

#[test]
fn paths_are_ordered_component_by_component() {
    let paths = ["a/b", "a-b", "a", "a/b/c", "B", "é", "/a", ".config", "../x", "./y", "-x", "", "a/../b"];
    for one in paths {
        for other in paths {
            let expected = std::path::Path::new(one) < std::path::Path::new(other);
            assert_eq!(
                FilePath::new(one).before(&FilePath::new(other)),
                expected,
                "ordered {one:?} and {other:?} wrong"
            );
        }
    }
}

#[test]
fn paths_are_joined_and_taken_apart() {
    let home = FilePath::new("/home/max");
    let joined = home.join(&FilePath::new(".bashrc"));
    assert_eq!(joined.text, "/home/max/.bashrc");
    assert_eq!(home.join(&FilePath::new("/etc/hosts")).text, "/etc/hosts");
    assert_eq!(FilePath::new("").join(&FilePath::new("a")).text, "a");
    assert_eq!(FilePath::new("/").join(&FilePath::new("a")).text, "/a");
    let rest = joined.strip_prefix(&home);
    assert_eq!(rest.map(|path| path.text).as_deref(), Some(".bashrc"));
    assert!(joined.strip_prefix(&FilePath::new("/home/m")).is_none());
}

#[test]
fn paths_are_kept_in_order_and_once() {
    let mut list: Vec<FilePath> = Vec::new();
    for text in ["b", "a", "./c", "a/", "c"] {
        insert_path(&mut list, FilePath::new(text));
    }
    let shown: Vec<String> = list.iter().map(|path| path.normalised().text).collect();
    assert_eq!(shown, texts(&["c", "a", "b", "c"]));
    assert_eq!(list[0].text, "./c");

    let mut entries: Vec<(FilePath, u8)> = Vec::new();
    put(&mut entries, FilePath::new("b"), 1);
    put(&mut entries, FilePath::new("a"), 2);
    put(&mut entries, FilePath::new("b/"), 3);
    assert_eq!(find(&entries, &FilePath::new("b")), Some(&3));
    assert_eq!(find(&entries, &FilePath::new("a")), Some(&2));
    assert_eq!(find(&entries, &FilePath::new("c")), None);
    assert_eq!(entries.len(), 2);
}
