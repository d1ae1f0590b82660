use tinyrs::text::{
    fields, find, join, leading, part_at, runs, same_text, split_once, white_space, words,
};

#[test]
fn words_between_any_white_space() {
    assert_eq!(words("a b"), vec!["a", "b"]);
    assert_eq!(words("  1.5\t-2 \r\n 3e4  "), vec!["1.5", "-2", "3e4"]);
    assert_eq!(words("one"), vec!["one"]);
    assert_eq!(words(""), Vec::<&str>::new());
    assert_eq!(words(" \t "), Vec::<&str>::new());
    assert_eq!(words("a\u{a0}b\u{3000}c"), vec!["a", "b", "c"]);
    assert_eq!(words("é ü"), vec!["é", "ü"]);
}

#[test]
fn fields_between_separators() {
    assert_eq!(fields("1/2/3", '/'), vec!["1", "2", "3"]);
    assert_eq!(fields("1//3", '/'), vec!["1", "", "3"]);
    assert_eq!(fields("1", '/'), vec!["1"]);
    assert_eq!(fields("", '/'), vec![""]);
    assert_eq!(fields("/", '/'), vec!["", ""]);
    assert_eq!(fields("1/2/", '/'), vec!["1", "2", ""]);
}

#[test]
fn split_at_the_first_separator() {
    assert_eq!(split_once("v 1 2", ' '), Some(("v", "1 2")));
    assert_eq!(split_once(" v", ' '), Some(("", "v")));
    assert_eq!(split_once("v ", ' '), Some(("v", "")));
    assert_eq!(split_once("v", ' '), None);
    assert_eq!(split_once("", ' '), None);
    assert_eq!(split_once("é ü ö", ' '), Some(("é", "ü ö")));
}

#[test]
fn find_counts_characters() {
    assert_eq!(find("abc/def", '/', 0), 3);
    assert_eq!(find("abc/def", '/', 3), 3);
    assert_eq!(find("abc/def", '/', 4), 7);
    assert_eq!(find("éé/", '/', 0), 2);
    assert_eq!(find("", '/', 0), 0);
}

#[test]
fn parts_by_position() {
    let parts = vec!["a", "b"];
    assert_eq!(part_at(&parts, 0), Some("a"));
    assert_eq!(part_at(&parts, 1), Some("b"));
    assert_eq!(part_at(&parts, 2), None);
}

#[test]
fn texts_compare_by_characters() {
    assert!(same_text("vn", "vn"));
    assert!(!same_text("vn", "vt"));
    assert!(!same_text("v", "vn"));
    assert!(!same_text("vn", "v"));
    assert!(same_text("", ""));
}

#[test]
fn join_appends() {
    assert_eq!(join("at line ", "4"), "at line 4");
    assert_eq!(join("", ""), "");
}

#[test]
fn white_space_is_marked_by_position() {
    assert_eq!(white_space("a b\tc"), vec![false, true, false, true, false]);
    assert_eq!(white_space("\u{2003}é\n"), vec![true, false, true]);
    assert_eq!(white_space(""), Vec::<bool>::new());
}

#[test]
fn runs_between_gaps() {
    assert_eq!(runs("a-b--c", &vec![false, true, false, true, true, false]), vec!["a", "b", "c"]);
    assert_eq!(runs("abc", &vec![true, false, false]), vec!["bc"]);
    assert_eq!(runs("abc", &vec![false, false, true]), vec!["ab"]);
    assert_eq!(runs("abc", &vec![true, true, true]), Vec::<&str>::new());
    assert_eq!(runs("abc", &Vec::new()), vec!["abc"]);
    assert_eq!(runs("abc", &vec![false, true]), vec!["a", "c"]);
    assert_eq!(runs("ab", &vec![false, false, true, true]), vec!["ab"]);
    assert_eq!(runs("", &vec![true]), Vec::<&str>::new());
}

#[test]
fn leading_parts() {
    assert_eq!(leading(vec!["a", "b", "c"], 2), vec!["a", "b"]);
    assert_eq!(leading(vec!["a", "b", "c"], 3), vec!["a", "b", "c"]);
    assert_eq!(leading(vec!["a", "b", "c"], 9), vec!["a", "b", "c"]);
    assert_eq!(leading(vec!["a", "b", "c"], 0), Vec::<&str>::new());
    assert_eq!(leading(Vec::new(), 2), Vec::<&str>::new());
}
