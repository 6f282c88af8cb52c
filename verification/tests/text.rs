use trusty_search::paths::{
    extension, file_name, join_path, parent, path_sort_key, plain_path, strip_prefix,
    with_file_name,
};
use trusty_search::sorting::{key_le, sort_order, sort_slots};
use trusty_search::text::{
    self, chars_of, contains_char, contains_text, copy_texts, decimal_text, ends_with,
    eq_ignore_ascii_case, join, lines, parse_u64, replace_char, same_text, trim,
};

#[test]
fn trimming_is_that_of_unicode() {
    for s in ["", " ", "\t a b \n", "\u{3000}x\u{a0}", "\u{200b}x", "\u{85}é\u{2028}"] {
        assert_eq!(trim(s), s.trim(), "{s:?}");
    }
}

#[test]
fn lines_are_those_of_the_standard_library() {
    for s in ["", "a", "a\n", "a\r\nb", "\n\n", "a\r", "a\n\r\nb\r\n", "x\ry"] {
        let want: Vec<&str> = s.lines().collect();
        assert_eq!(lines(s), want, "{s:?}");
    }
}

#[test]
fn numbers_are_read_as_the_standard_library_does() {
    for s in ["0", "7", "+7", "-7", "", "+", "007", "1 ", "18446744073709551615",
        "18446744073709551616", "99999999999999999999999", "1_000", "٣"] {
        assert_eq!(parse_u64(s), s.parse::<u64>().ok(), "{s:?}");
    }
    for n in [0u64, 9, 10, 1234567890, u64::MAX] {
        assert_eq!(decimal_text(n), n.to_string());
    }
}

#[test]
fn small_text_operations() {
    assert_eq!(chars_of("aé"), vec!['a', 'é']);
    assert!(same_text("é", "é") && !same_text("e", "é"));
    assert_eq!(text::concat("a", "b"), "ab");
    assert!(ends_with("path/a.rs", "a.rs") && !ends_with("rs", "a.rs") && ends_with("x", ""));
    assert_eq!(replace_char("a b c", ' ', "--"), "a--b--c");
    assert!(eq_ignore_ascii_case("FooBar", "fOObAR") && !eq_ignore_ascii_case("É", "é"));
    let list = vec!["x".to_string(), "y".to_string(), "z".to_string()];
    assert_eq!(join(&list, 0, 2, ", "), "x, y");
    assert_eq!(join(&list, 1, 2, ", "), "y");
    assert!(contains_text(&list, "z") && !contains_text(&list, "w"));
    assert_eq!(copy_texts(&list), list);
    assert!(contains_char("abc", 'b') && !contains_char("abc", 'd'));
}

const PATHS: [&str; 22] = [
    "", "/", "a", "/a", "a/b", "/a/b", "/a/b/", "a//b", "./a", "a/./b", "a/..", "..", ".", "/..",
    "a/b.rs", "a/.hidden", "a/x.tar.gz", "a/b.", "/a/./b/../c.d", "//a", "a/.", ".rs",
];

fn shown(p: &std::path::Path) -> String {
    p.to_str().unwrap().to_string()
}

#[test]
fn paths_are_taken_apart_as_the_standard_library_does() {
    for s in PATHS {
        let p = std::path::Path::new(s);
        assert_eq!(file_name(s), p.file_name().map(|n| n.to_str().unwrap().to_string()), "{s:?}");
        assert_eq!(parent(s), p.parent().map(shown), "{s:?}");
        assert_eq!(extension(s), p.extension().map(|n| n.to_str().unwrap().to_string()), "{s:?}");
        assert_eq!(with_file_name(s, "n.x"), shown(&p.with_file_name("n.x")), "{s:?}");
    }
}

#[test]
fn paths_are_put_together_as_the_standard_library_does() {
    for a in PATHS {
        for b in PATHS {
            let p = std::path::Path::new(a);
            if !b.is_empty() {
                assert_eq!(join_path(a, b), shown(&p.join(b)), "{a:?} {b:?}");
            }
            assert_eq!(strip_prefix(a, b), p.strip_prefix(b).ok().map(shown), "{a:?} {b:?}");
        }
    }
}

#[test]
fn paths_are_ordered_as_the_standard_library_does() {
    for a in PATHS {
        for b in PATHS {
            let le = std::path::Path::new(a) <= std::path::Path::new(b);
            assert_eq!(key_le(&path_sort_key(a), &path_sort_key(b)), le, "{a:?} {b:?}");
        }
    }
}

#[test]
fn sorting_is_stable() {
    let keys = vec![vec![2], vec![1, 5], vec![1], vec![2], vec![]];
    assert_eq!(sort_order(&keys), vec![4, 2, 1, 0, 3]);
    assert_eq!(sort_slots(&keys), vec![4, 2, 1, 0, 3]);
    let none: Vec<Vec<u64>> = Vec::new();
    assert!(sort_slots(&none).is_empty());
}

#[test]
fn plain_forms_are_equal_where_paths_are() {
    let all = [
        "", ".", "..", "/", "//", "/.", "./", "a", "./a", "a/", "a/.", "a//b", "a/b", "a/./b/", "/a",
        "//a", "/./a", "/a/.", "../a", ".././a", "a/..", "a/../b", ".a", "./.", "././a", "/a/b", "/a//b/.",
    ];
    for a in all {
        for b in all {
            let same = std::path::Path::new(a) == std::path::Path::new(b);
            assert_eq!(plain_path(a) == plain_path(b), same, "{a:?} {b:?}");
        }
        assert_eq!(plain_path(&plain_path(a)), plain_path(a));
    }
    assert_eq!(plain_path("/r/.//a/"), "/r/a");
    assert_eq!(plain_path("././a/../b"), "./a/../b");
}
