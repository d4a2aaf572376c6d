use dotenvage::order::{chars_precede, sort_names};
use dotenvage::text::{
    append_chars, append_str, char_is_space, chars_contain, chars_contain_char, chars_end_with,
    chars_eq, chars_field, chars_find, chars_index_of, chars_leading_digits, chars_split,
    chars_start_with, copy_range, decimal_chars, from_chars, index_of_from, str_eq, to_chars,
    trim_chars,
};
use dotenvage::VarMap;

fn cs(s: &str) -> Vec<char> {
    s.chars().collect()
}

fn st(v: Vec<char>) -> String {
    v.into_iter().collect()
}

#[test]
fn strings_and_characters_convert_both_ways() {
    for s in ["", "a", "h\u{e9}llo \u{1F512}", "line\nbreak"] {
        assert_eq!(to_chars(s), cs(s));
        assert_eq!(from_chars(&cs(s)), s);
    }
}

#[test]
fn white_space_is_the_unicode_property() {
    for c in 0u32..=0x3100 {
        let c = char::from_u32(c).unwrap();
        assert_eq!(char_is_space(c), c.is_whitespace(), "{:?}", c);
    }
    assert!(!char_is_space('\u{200b}'));
    assert!(!char_is_space('\u{feff}'));
}

#[test]
fn trim_matches_the_standard_trim() {
    for s in [
        "",
        " ",
        "a",
        " a ",
        "\t a b \n",
        "\u{a0}x\u{3000}",
        "no-trim",
        "   ",
        " \u{200b} ",
        "a\u{2003}",
    ] {
        assert_eq!(st(trim_chars(&cs(s))), s.trim(), "{:?}", s);
    }
}

#[test]
fn prefix_suffix_and_equality() {
    assert!(chars_start_with(&cs("hello"), &cs("he")));
    assert!(chars_start_with(&cs("hello"), &cs("")));
    assert!(chars_start_with(&cs("hello"), &cs("hello")));
    assert!(!chars_start_with(&cs("hello"), &cs("hello!")));
    assert!(!chars_start_with(&cs("hello"), &cs("el")));
    assert!(chars_end_with(&cs("hello"), &cs("lo")));
    assert!(chars_end_with(&cs("hello"), &cs("")));
    assert!(!chars_end_with(&cs("hello"), &cs("hel")));
    assert!(!chars_end_with(&cs("lo"), &cs("hello")));
    assert!(chars_eq(&cs("abc"), &cs("abc")));
    assert!(!chars_eq(&cs("abc"), &cs("abd")));
    assert!(!chars_eq(&cs("abc"), &cs("ab")));
    assert!(str_eq("", ""));
    assert!(!str_eq("a", "A"));
}

#[test]
fn searching_finds_the_first_occurrence() {
    assert_eq!(chars_index_of(&cs("a=b=c"), '='), Some(1));
    assert_eq!(chars_index_of(&cs("abc"), '='), None);
    assert_eq!(chars_index_of(&cs(""), '='), None);
    assert_eq!(index_of_from(&cs("a=b=c"), '=', 2), Some(3));
    assert_eq!(index_of_from(&cs("a=b=c"), '=', 4), None);
    assert_eq!(index_of_from(&cs("a=b=c"), '=', 5), None);
    assert_eq!(chars_find(&cs("refs/pull/1/pull/2"), &cs("/pull/")), Some(4));
    assert_eq!(chars_find(&cs("abc"), &cs("")), Some(0));
    assert_eq!(chars_find(&cs(""), &cs("")), Some(0));
    assert_eq!(chars_find(&cs("abc"), &cs("abcd")), None);
    assert_eq!(chars_find(&cs("aab"), &cs("ab")), Some(1));
    assert_eq!(chars_find(&cs("abc"), &cs("c")), Some(2));
    assert!(chars_contain(&cs("DATABASE_PASSWORD"), &cs("PASSWORD")));
    assert!(!chars_contain(&cs("PASSWOR"), &cs("PASSWORD")));
    assert!(chars_contain_char(&cs("a b"), ' '));
    assert!(!chars_contain_char(&cs("ab"), ' '));
}

#[test]
fn fields_and_pieces() {
    let triple = cs("x86_64-unknown-linux-gnu");
    assert_eq!(chars_field(&triple, '-', 0).map(st).as_deref(), Some("x86_64"));
    assert_eq!(chars_field(&triple, '-', 2).map(st).as_deref(), Some("linux"));
    assert_eq!(chars_field(&triple, '-', 3).map(st).as_deref(), Some("gnu"));
    assert_eq!(chars_field(&triple, '-', 4), None);
    assert_eq!(chars_field(&cs(""), '-', 0).map(st).as_deref(), Some(""));
    assert_eq!(chars_field(&cs(""), '-', 1), None);
    assert_eq!(chars_field(&cs("a--b"), '-', 1).map(st).as_deref(), Some(""));
    assert_eq!(chars_field(&cs("a-"), '-', 1).map(st).as_deref(), Some(""));
    for s in ["", "a", "a\nb", "\n", "a\n", "\n\nb\n\n"] {
        let got: Vec<String> = chars_split(&cs(s), '\n').into_iter().map(st).collect();
        let want: Vec<String> = s.split('\n').map(|p| p.to_string()).collect();
        assert_eq!(got, want, "{:?}", s);
    }
}

#[test]
fn ranges_and_appending() {
    assert_eq!(st(copy_range(&cs("hello"), 1, 4)), "ell");
    assert_eq!(st(copy_range(&cs("hello"), 2, 2)), "");
    assert_eq!(st(copy_range(&cs("hello"), 0, 5)), "hello");
    let mut v = cs("ab");
    append_chars(&mut v, &cs("cd"));
    append_str(&mut v, "ef");
    append_str(&mut v, "");
    assert_eq!(st(v), "abcdef");
}

#[test]
fn decimal_and_digits() {
    for n in [0usize, 1, 9, 10, 11, 99, 100, 101, 12345, usize::MAX] {
        assert_eq!(st(decimal_chars(n)), n.to_string());
    }
    assert_eq!(st(chars_leading_digits(&cs("123/merge"))), "123");
    assert_eq!(st(chars_leading_digits(&cs("x123"))), "");
    assert_eq!(st(chars_leading_digits(&cs(""))), "");
    assert_eq!(st(chars_leading_digits(&cs("0042"))), "0042");
    assert_eq!(st(chars_leading_digits(&cs("\u{661}2"))), "");
}

#[test]
fn order_is_the_order_of_strings() {
    let words = ["", "a", "A", "ab", "b", "aa", "\u{e9}", "z", "Z", "a\u{0}", "\u{1F512}", "~"];
    for x in words {
        for y in words {
            assert_eq!(chars_precede(&cs(x), &cs(y)), x < y, "{:?} {:?}", x, y);
        }
    }
}

#[test]
fn sorting_gives_the_sorted_names() {
    let given: Vec<String> = ["pear", "Apple", "apple", "", "pear", "fig", "a", "\u{e9}clair"]
        .iter()
        .map(|s| s.to_string())
        .collect();
    let mut want = given.clone();
    want.sort();
    assert_eq!(sort_names(given), want);
    assert_eq!(sort_names(Vec::new()), Vec::<String>::new());
}

#[test]
fn map_keeps_one_entry_per_name_in_order_of_first_insertion() {
    let mut m = VarMap::new();
    assert!(m.is_empty());
    assert_eq!(m.len(), 0);
    assert_eq!(m.get("A"), None);
    m.insert("B".into(), "1".into());
    m.insert("A".into(), "2".into());
    m.insert("B".into(), "3".into());
    assert_eq!(m.len(), 2);
    assert!(!m.is_empty());
    assert_eq!(m.get("B").unwrap(), "3");
    assert_eq!(m.get("A").unwrap(), "2");
    assert_eq!(m.get("b"), None);
    assert!(m.contains_key("A"));
    assert!(!m.contains_key(""));
    assert_eq!(m.keys(), vec!["B", "A"]);
    assert_eq!(m.name_at(0), "B");
    assert_eq!(m.value_at(0), "3");
    assert_eq!(m.name_at(1), "A");
    let copy = m.duplicate();
    m.insert("C".into(), "4".into());
    assert_eq!(copy.len(), 2);
    assert_eq!(copy.get("B").unwrap(), "3");
    assert_eq!(m.len(), 3);
}

#[test]
fn extend_prefers_the_other_map() {
    let mut a = VarMap::new();
    a.insert("X".into(), "a".into());
    a.insert("Y".into(), "a".into());
    let mut b = VarMap::new();
    b.insert("Y".into(), "b".into());
    b.insert("Z".into(), "b".into());
    a.extend(&b);
    assert_eq!(a.keys(), vec!["X", "Y", "Z"]);
    assert_eq!(a.get("X").unwrap(), "a");
    assert_eq!(a.get("Y").unwrap(), "b");
    assert_eq!(a.get("Z").unwrap(), "b");
    assert_eq!(b.len(), 2);
    a.extend(&VarMap::new());
    assert_eq!(a.len(), 3);
}
