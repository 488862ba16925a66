use kraken::text::{
    contains, find, find_from, insert_at, matches_at, replace_all, replace_range, same_text,
    to_chars,
};

#[test]
fn to_chars_gives_one_element_per_character() {
    assert_eq!(to_chars("aé\n"), vec!['a', 'é', '\n']);
    assert_eq!(to_chars(""), Vec::<char>::new());
}

#[test]
fn find_gives_the_leftmost_character_position() {
    assert_eq!(find("abcabc", "bc"), Some(1));
    assert_eq!(find("ééx", "x"), Some(2));
    assert_eq!(find("abc", "abcd"), None);
    assert_eq!(find("abc", "d"), None);
    assert_eq!(find("abc", ""), Some(0));
    assert_eq!(find("", ""), Some(0));
    assert_eq!(find("", "a"), None);
    assert_eq!(find("aab", "ab"), Some(1));
}

#[test]
fn find_from_skips_what_lies_before_the_start() {
    let text = to_chars("abcabc");
    let pattern = to_chars("bc");
    assert_eq!(find_from(&text, &pattern, 0), Some(1));
    assert_eq!(find_from(&text, &pattern, 1), Some(1));
    assert_eq!(find_from(&text, &pattern, 2), Some(4));
    assert_eq!(find_from(&text, &pattern, 5), None);
    assert_eq!(find_from(&text, &pattern, 60), None);
    assert_eq!(find_from(&text, &to_chars(""), 6), Some(6));
    assert_eq!(find_from(&text, &to_chars(""), 7), None);
}

#[test]
fn matches_at_compares_a_window() {
    let text = to_chars("abcabc");
    assert!(matches_at(&text, &to_chars("cab"), 2));
    assert!(!matches_at(&text, &to_chars("cab"), 3));
    assert!(!matches_at(&text, &to_chars("bc"), 5));
    assert!(matches_at(&text, &to_chars(""), 6));
    assert!(!matches_at(&text, &to_chars(""), 7));
}

#[test]
fn contains_and_same_text() {
    assert!(contains("pub mod about;\n", "pub mod about;"));
    assert!(!contains("pub mod about", "pub mod about;"));
    assert!(contains("x", ""));
    assert!(same_text("index", "index"));
    assert!(!same_text("index", "indexes"));
    assert!(!same_text("index", "indey"));
    assert!(same_text("", ""));
}

#[test]
fn insert_at_splices_before_the_position() {
    assert_eq!(insert_at("abc", 0, "--"), "--abc");
    assert_eq!(insert_at("abc", 1, "--"), "a--bc");
    assert_eq!(insert_at("abc", 3, "--"), "abc--");
    assert_eq!(insert_at("éé", 1, "x"), "éxé");
}

#[test]
fn replace_range_exchanges_a_span() {
    assert_eq!(replace_range("get(old)", 4, 7, "new::main"), "get(new::main)");
    assert_eq!(replace_range("abc", 1, 1, "-"), "a-bc");
    assert_eq!(replace_range("abc", 0, 3, ""), "");
}

#[test]
fn replace_all_scans_from_the_left_without_rereading() {
    assert_eq!(replace_all("a-b-c", "-", "+"), "a+b+c");
    assert_eq!(replace_all("aaa", "aa", "b"), "ba");
    assert_eq!(replace_all("aabb", "ab", ""), "ab");
    assert_eq!(replace_all("abc", "", "x"), "abc");
    assert_eq!(replace_all("abc", "abcd", "x"), "abc");
    assert_eq!(replace_all("", "a", "x"), "");
    assert_eq!(replace_all("ééé", "é", "e"), "eee");
    assert_eq!(replace_all("xyxy", "xy", "xyxy"), "xyxyxyxy");
}
