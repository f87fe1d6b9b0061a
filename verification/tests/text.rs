use pacman_ostree::name_map::NameMap;
use pacman_ostree::name_set::NameSet;
use pacman_ostree::order::{
    compare_by, compare_names, compare_paths, same_name, NameOrder, Order,
};
use pacman_ostree::text::{
    char_is_space, chars_of, contains_text, decimal_text, ends_with_char, join, lines_of,
    lines_of_bytes, parse_u64, split_bytes, split_on, split_once, split_whitespace,
    starts_with_char, strip_prefix, trim, trim_matches, trim_start_matches,
};

fn strings(items: &[&str]) -> Vec<String> {
    items.iter().map(|s| s.to_string()).collect()
}

#[test]
fn compare_names_orders_by_bytes() {
    assert_eq!(compare_names("a", "b"), Order::Less);
    assert_eq!(compare_names("b", "a"), Order::Greater);
    assert_eq!(compare_names("vim", "vim"), Order::Equal);
    assert_eq!(compare_names("a", "aa"), Order::Less);
    assert_eq!(compare_names("", "a"), Order::Less);
    assert_eq!(compare_names("", ""), Order::Equal);
    // A two-byte character comes after every ASCII character.
    assert_eq!(compare_names("\u{e9}", "z"), Order::Greater);
}

#[test]
fn compare_paths_puts_the_separator_first() {
    assert_eq!(compare_paths("/a/b", "/a-b"), Order::Less);
    assert_eq!(compare_names("/a/b", "/a-b"), Order::Greater);
    assert_eq!(compare_paths("/a", "/a/b"), Order::Less);
    assert_eq!(compare_paths("/a b", "/a/b"), Order::Greater);
    assert_eq!(compare_paths("/usr", "usr"), Order::Less);
    assert_eq!(compare_paths("/usr/bin", "/usr/bin"), Order::Equal);
    assert_eq!(compare_paths("", "/"), Order::Less);
    assert_eq!(compare_by(NameOrder::Components, "/z", "/a/b"), Order::Greater);
    assert_eq!(compare_by(NameOrder::Bytes, "a", "b"), Order::Less);
}

#[test]
fn compare_paths_agrees_with_the_order_of_paths() {
    let samples = [
        "/", "/a", "/a/b", "/a-b", "/a.b/c", "/a b", "/usr/lib/foo", "/usr/lib/foo-1",
        "/usr/lib/foo/x", "/usr/lib64", "/z\u{e9}", "/\u{e9}", "rel/x", "rel-x", "/A", "/a/B/c",
    ];
    for a in samples {
        for b in samples {
            let pa = camino::Utf8Path::new(a);
            let pb = camino::Utf8Path::new(b);
            let expected = if pa < pb {
                Order::Less
            } else if pa == pb {
                Order::Equal
            } else {
                Order::Greater
            };
            assert_eq!(compare_paths(a, b), expected, "{:?} against {:?}", a, b);
        }
    }
}

#[test]
fn compare_names_agrees_with_the_order_of_str() {
    let samples = ["", "a", "A", "ab", "b", "curl", "vim", "vim-9", "z\u{e9}", "\u{e9}", "\u{3000}"];
    for a in samples {
        for b in samples {
            let expected = if a < b {
                Order::Less
            } else if a == b {
                Order::Equal
            } else {
                Order::Greater
            };
            assert_eq!(compare_names(a, b), expected, "{:?} against {:?}", a, b);
            assert_eq!(same_name(a, b), a == b);
        }
    }
}

#[test]
fn name_set_lists_in_ascending_order_whatever_the_order_of_insertion() {
    let mut s = NameSet::new();
    assert!(s.is_empty());
    assert!(s.insert("vim".to_string()));
    assert!(s.insert("curl".to_string()));
    assert!(s.insert("zsh".to_string()));
    assert!(!s.insert("curl".to_string()));
    assert_eq!(s.len(), 3);
    assert_eq!(s.to_vec(), strings(&["curl", "vim", "zsh"]));
    assert_eq!(s.first().map(|n| n.as_str()), Some("curl"));
    assert_eq!(s.get(2).map(|n| n.as_str()), Some("zsh"));
    assert!(s.get(3).is_none());
    assert!(s.contains("vim"));
    assert!(!s.contains("bash"));

    let t = NameSet::from_vec(strings(&["zsh", "vim", "curl", "vim"]));
    assert_eq!(t.to_vec(), s.to_vec());
    assert_eq!(t.clone().to_vec(), s.to_vec());
}

#[test]
fn name_set_remove_says_whether_the_name_was_there() {
    let mut s = NameSet::from_vec(strings(&["a", "b", "c"]));
    assert!(s.remove("b"));
    assert!(!s.remove("b"));
    assert_eq!(s.to_vec(), strings(&["a", "c"]));
    assert!(s.remove("a"));
    assert!(s.remove("c"));
    assert!(s.is_empty());
    assert!(s.first().is_none());
}

#[test]
fn name_map_keeps_keys_sorted_and_replaces_values() {
    let mut m: NameMap<u32> = NameMap::new();
    assert_eq!(m.len(), 0);
    assert!(!m.insert("b".to_string(), 2));
    assert!(!m.insert("a".to_string(), 1));
    assert!(!m.insert("c".to_string(), 3));
    assert!(m.insert("b".to_string(), 20));
    assert_eq!(m.len(), 3);
    assert_eq!(m.get("b"), Some(&20));
    assert_eq!(m.get("d"), None);
    assert_eq!(m.find("a"), Some(0));
    assert_eq!(m.find("c"), Some(2));
    assert!(m.contains_key("a"));
    assert!(!m.contains_key("z"));
    let (k, v) = m.entry(1).unwrap();
    assert_eq!((k.as_str(), *v), ("b", 20));
    assert!(m.entry(3).is_none());
    *m.value_mut(0) += 10;
    assert_eq!(m.get("a"), Some(&11));
}

#[test]
fn white_space_is_that_of_unicode() {
    for c in [' ', '\t', '\n', '\r', '\u{b}', '\u{c}', '\u{85}', '\u{a0}', '\u{1680}', '\u{2000}',
        '\u{200a}', '\u{2028}', '\u{2029}', '\u{202f}', '\u{205f}', '\u{3000}']
    {
        assert!(char_is_space(c), "{:?}", c);
    }
    for c in ['a', '0', '%', '\u{200b}', '\u{feff}', '\u{0}', '\u{1f}'] {
        assert!(!char_is_space(c), "{:?}", c);
    }
    for u in 0u32..0x3100 {
        if let Some(c) = char::from_u32(u) {
            assert_eq!(char_is_space(c), c.is_whitespace(), "{:?}", c);
        }
    }
}

#[test]
fn trim_takes_white_space_from_both_ends() {
    assert_eq!(trim("  a b \n"), "a b");
    assert_eq!(trim("\u{3000}x\u{a0}"), "x");
    assert_eq!(trim(""), "");
    assert_eq!(trim(" \t "), "");
    assert_eq!(trim("abc"), "abc");
    for s in ["  a b \n", "", " ", "x ", " x", "\t\u{2003}y z\u{2003}\r\n"] {
        assert_eq!(trim(s), s.trim());
    }
}

#[test]
fn trim_matches_takes_runs_of_one_character() {
    assert_eq!(trim_matches("%NAME%", '%'), "NAME");
    assert_eq!(trim_matches("%%a%b%%", '%'), "a%b");
    assert_eq!(trim_matches("%", '%'), "");
    assert_eq!(trim_matches("NAME", '%'), "NAME");
    assert_eq!(trim_start_matches("** x*", '*'), " x*");
    assert_eq!(trim_start_matches("x", '*'), "x");
    assert_eq!(trim_start_matches("***", '*'), "");
}

#[test]
fn starts_and_ends() {
    assert!(starts_with_char("%a", '%'));
    assert!(!starts_with_char("a%", '%'));
    assert!(!starts_with_char("", '%'));
    assert!(ends_with_char("a%", '%'));
    assert!(!ends_with_char("%a", '%'));
    assert!(!ends_with_char("", '%'));
    assert!(ends_with_char("%", '%') && starts_with_char("%", '%'));
}

#[test]
fn split_on_gives_one_piece_more_than_separators() {
    assert_eq!(split_on("a,b,,c", ','), strings(&["a", "b", "", "c"]));
    assert_eq!(split_on("", ','), strings(&[""]));
    assert_eq!(split_on(",", ','), strings(&["", ""]));
    assert_eq!(split_on("abc", ','), strings(&["abc"]));
    assert_eq!(split_on("archlinux/x86_64/base", '/'), strings(&["archlinux", "x86_64", "base"]));
}

#[test]
fn split_bytes_gives_one_piece_more_than_separators() {
    assert_eq!(split_bytes(b"a\nb\n", 10), vec![b"a".to_vec(), b"b".to_vec(), b"".to_vec()]);
    assert_eq!(split_bytes(b"", 10), vec![b"".to_vec()]);
}

#[test]
fn lines_end_at_line_feeds() {
    assert_eq!(lines_of("a\r\nb\nc"), strings(&["a", "b", "c"]));
    assert_eq!(lines_of("a\n"), strings(&["a"]));
    assert_eq!(lines_of(""), Vec::<String>::new());
    assert_eq!(lines_of("a\r"), strings(&["a\r"]));
    assert_eq!(lines_of("\n\n"), strings(&["", ""]));
    assert_eq!(lines_of("a\r\r\n"), strings(&["a\r"]));
    for s in ["a\r\nb\nc", "a\n", "", "a\r", "\n\n", "x\n\ny", "\r\n", "\n"] {
        let expected: Vec<String> = s.lines().map(|l| l.to_string()).collect();
        assert_eq!(lines_of(s), expected, "{:?}", s);
    }
}

#[test]
fn byte_lines_end_at_line_feeds() {
    assert_eq!(lines_of_bytes(b"a\r\nb\nc"), vec![b"a".to_vec(), b"b".to_vec(), b"c".to_vec()]);
    assert_eq!(lines_of_bytes(b"a\n"), vec![b"a".to_vec()]);
    assert_eq!(lines_of_bytes(b""), Vec::<Vec<u8>>::new());
    assert_eq!(lines_of_bytes(b"a\r"), vec![b"a\r".to_vec()]);
    assert_eq!(lines_of_bytes(b"\xff\n\n"), vec![b"\xff".to_vec(), b"".to_vec()]);
}

#[test]
fn words_are_runs_without_white_space() {
    assert_eq!(split_whitespace("  foo \t bar\nbaz "), strings(&["foo", "bar", "baz"]));
    assert_eq!(split_whitespace(""), Vec::<String>::new());
    assert_eq!(split_whitespace("   "), Vec::<String>::new());
    assert_eq!(split_whitespace("one"), strings(&["one"]));
    assert_eq!(split_whitespace("a\u{3000}b"), strings(&["a", "b"]));
}

#[test]
fn join_puts_the_separator_between() {
    assert_eq!(join(&strings(&["a", "b", "c"]), ","), "a,b,c");
    assert_eq!(join(&strings(&["a"]), ","), "a");
    assert_eq!(join(&strings(&[]), ","), "");
    assert_eq!(join(&strings(&["", ""]), ","), ",");
    assert_eq!(join(&strings(&["a", "b"]), ", "), "a, b");
}

#[test]
fn split_gives_back_what_was_joined() {
    let names = strings(&["curl", "vim", "zsh"]);
    assert_eq!(split_on(&join(&names, ","), ','), names);
    let one = strings(&["vim"]);
    assert_eq!(split_on(&join(&one, ","), ','), one);
}

#[test]
fn split_once_cuts_at_the_first_separator() {
    assert_eq!(split_once("k=v=w", '='), Some(("k".to_string(), "v=w".to_string())));
    assert_eq!(split_once("=v", '='), Some(("".to_string(), "v".to_string())));
    assert_eq!(split_once("k=", '='), Some(("k".to_string(), "".to_string())));
    assert_eq!(split_once("kv", '='), None);
    assert_eq!(split_once("", '='), None);
}

#[test]
fn prefixes_and_infixes() {
    assert_eq!(strip_prefix("refspec=a:b", "refspec="), Some("a:b".to_string()));
    assert_eq!(strip_prefix("refspec=", "refspec="), Some("".to_string()));
    assert_eq!(strip_prefix("refspe", "refspec="), None);
    assert_eq!(strip_prefix("xrefspec=a", "refspec="), None);
    assert_eq!(strip_prefix("abc", ""), Some("abc".to_string()));
    assert!(contains_text("* archlinux 1a2b3c4d.0", "archlinux"));
    assert!(contains_text("* archlinux 1a2b3c4d.0", "1a2b3c4d"));
    assert!(!contains_text("* archlinux 1a2b3c4d.0", "fedora"));
    assert!(contains_text("abc", ""));
    assert!(contains_text("", ""));
    assert!(!contains_text("", "a"));
    assert!(contains_text("aab", "ab"));
}

#[test]
fn numbers_are_read_as_the_standard_library_reads_them() {
    assert_eq!(parse_u64("123"), Some(123));
    assert_eq!(parse_u64("+7"), Some(7));
    assert_eq!(parse_u64("007"), Some(7));
    assert_eq!(parse_u64("0"), Some(0));
    assert_eq!(parse_u64(""), None);
    assert_eq!(parse_u64("+"), None);
    assert_eq!(parse_u64("-1"), None);
    assert_eq!(parse_u64("12a"), None);
    assert_eq!(parse_u64(" 12"), None);
    assert_eq!(parse_u64("++1"), None);
    assert_eq!(parse_u64("18446744073709551615"), Some(u64::MAX));
    assert_eq!(parse_u64("18446744073709551616"), None);
    assert_eq!(parse_u64("99999999999999999999999"), None);
    for s in ["123", "+7", "007", "", "+", "-1", "12a", "18446744073709551615", "18446744073709551616", "1_0", "\u{661}"] {
        assert_eq!(parse_u64(s), s.parse::<u64>().ok(), "{:?}", s);
    }
}

#[test]
fn numbers_are_written_in_decimal() {
    assert_eq!(decimal_text(0), "0");
    assert_eq!(decimal_text(9), "9");
    assert_eq!(decimal_text(10), "10");
    assert_eq!(decimal_text(64), "64");
    assert_eq!(decimal_text(1700000000), "1700000000");
    assert_eq!(decimal_text(u64::MAX), "18446744073709551615");
    for n in [0u64, 1, 2, 99, 100, 101, 4096, u64::MAX - 1] {
        assert_eq!(parse_u64(&decimal_text(n)), Some(n));
    }
}

#[test]
fn chars_of_lists_the_characters() {
    assert_eq!(chars_of("a\u{e9}z"), vec!['a', '\u{e9}', 'z']);
    assert_eq!(chars_of(""), Vec::<char>::new());
}
