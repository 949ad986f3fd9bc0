use plugins_rs::text::{
    count_chars, extension, file_name, parse_usize, replace_str, reverse_dotted_str, str_ends_with,
    str_eq, str_starts_with, strip_curdir_str, usize_to_string,
};

#[test]
fn file_name_takes_the_last_normal_component() {
    assert_eq!(file_name("plugins/demo/index.ts"), Some("index.ts"));
    assert_eq!(file_name("plugins/demo/"), Some("demo"));
    assert_eq!(file_name("plugins/demo/."), Some("demo"));
    assert_eq!(file_name("index.ts"), Some("index.ts"));
}

#[test]
fn file_name_of_root_or_parent_is_none() {
    assert_eq!(file_name("/"), None);
    assert_eq!(file_name(""), None);
    assert_eq!(file_name("a/.."), None);
    assert_eq!(file_name(".."), None);
    assert_eq!(file_name("./"), None);
}

#[test]
fn extension_follows_the_last_dot_of_the_file_name() {
    assert_eq!(extension("dir/file.tar.gz"), Some("gz"));
    assert_eq!(extension("dir/index.ts"), Some("ts"));
    assert_eq!(extension("dir/file."), Some(""));
    assert_eq!(extension("dir/.hidden"), None);
    assert_eq!(extension("dir/noext"), None);
    assert_eq!(extension("a.b/noext"), None);
}

#[test]
fn replace_str_replaces_every_occurrence() {
    assert_eq!(replace_str("a\\b\\c.js", "\\", "/"), "a/b/c.js");
    assert_eq!(replace_str("aaa", "aa", "b"), "ba");
    assert_eq!(replace_str("@name", "@", ""), "name");
    assert_eq!(replace_str("plain", "x", "y"), "plain");
}

#[test]
fn reverse_dotted_reverses_the_parts() {
    assert_eq!(reverse_dotted_str("com.example.demo"), "demo.example.com");
    assert_eq!(reverse_dotted_str("single"), "single");
    assert_eq!(reverse_dotted_str("a..b"), "b..a");
    assert_eq!(reverse_dotted_str(""), "");
}

#[test]
fn reverse_dotted_twice_gives_back_the_identifier() {
    let id = "com.test.plugin";
    assert_eq!(reverse_dotted_str(&reverse_dotted_str(id)), id);
}

#[test]
fn numbers_are_written_in_decimal() {
    assert_eq!(usize_to_string(0), "0");
    assert_eq!(usize_to_string(7), "7");
    assert_eq!(usize_to_string(1234), "1234");
    assert_eq!(usize_to_string(usize::MAX), usize::MAX.to_string());
}

#[test]
fn parse_usize_reads_what_str_parse_reads() {
    assert_eq!(parse_usize("007"), Some(7));
    assert_eq!(parse_usize("+5"), Some(5));
    assert_eq!(parse_usize("-5"), None);
    assert_eq!(parse_usize(""), None);
    assert_eq!(parse_usize("+"), None);
    assert_eq!(parse_usize("12a"), None);
    for s in ["0", "+0", "42", "00", "+", "-1", "1 ", " 1", "99999999999999999999999"] {
        assert_eq!(parse_usize(s), s.parse::<usize>().ok(), "{}", s);
    }
}

#[test]
fn written_numbers_parse_back() {
    for n in [0usize, 1, 9, 10, 99, 100, 65535, usize::MAX] {
        assert_eq!(parse_usize(&usize_to_string(n)), Some(n));
    }
}

#[test]
fn count_chars_counts_occurrences() {
    assert_eq!(count_chars("a/b/c", '/'), 2);
    assert_eq!(count_chars("", '/'), 0);
}

#[test]
fn string_comparisons() {
    assert!(str_eq("plugin.json", "plugin.json"));
    assert!(!str_eq("plugin.json", "plugin.jsonx"));
    assert!(str_ends_with("a/entry.ts", "entry.ts"));
    assert!(!str_ends_with("ts", "entry.ts"));
    assert!(str_starts_with("\\a", "\\"));
    assert!(!str_starts_with("/a", "\\"));
}

#[test]
fn strip_curdir_drops_a_leading_dot_component() {
    assert_eq!(strip_curdir_str("./plugin/index.js"), Some("plugin/index.js"));
    assert_eq!(strip_curdir_str("./"), Some(""));
    assert_eq!(strip_curdir_str("."), Some(""));
    assert_eq!(strip_curdir_str(".//a/./"), Some("a"));
    assert_eq!(strip_curdir_str("plugin/index.js"), None);
    assert_eq!(strip_curdir_str(".hidden"), None);
}
