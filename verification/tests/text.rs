use rust_api::table::Table;
use rust_api::text;
use rust_api::text::Duplicate;

#[test]
fn white_space_is_that_of_unicode() {
    for n in 0..=0x10ffffu32 {
        if let Some(c) = char::from_u32(n) {
            assert_eq!(text::is_whitespace(c), c.is_whitespace(), "{n:#x}");
        }
    }
}

#[test]
fn trimming_takes_white_space_off_both_ends() {
    for s in ["", " ", "a", " a", "a ", "\t a b \n", "\u{3000}x\u{a0}", "  \u{2028} "] {
        assert_eq!(text::trim(s), s.trim());
        assert_eq!(text::trim(s.trim()), s.trim());
        assert_eq!(text::blank(s), s.trim().is_empty());
    }
}

#[test]
fn trailing_runs_are_cut_off() {
    for s in ["", "/", "///", "a/", "a//", "/a", "a/b//", "ü/"] {
        assert_eq!(text::trim_end_char(s, '/'), s.trim_end_matches('/'));
    }
    assert_eq!(text::tidied(" http://a// "), "http://a");
}

#[test]
fn tidying_twice_can_go_further_than_once() {
    assert_eq!(text::tidied("http://a /"), "http://a ");
    assert_eq!(text::tidied("http://a "), "http://a");
}

#[test]
fn splitting_and_joining() {
    for s in ["", ";", "a", "a;b", ";a;", "a;;b", "é;ü"] {
        let got = text::split(s, ';');
        let want: Vec<String> = s.split(';').map(|p| p.to_string()).collect();
        assert_eq!(got, want);
        assert_eq!(text::join(&got, ";"), s);
    }
    assert_eq!(text::join(&vec![], "; "), "");
}

#[test]
fn only_ascii_letters_are_made_small() {
    assert_eq!(text::lower("AZaz[@É-09"), "azaz[@É-09");
}

#[test]
fn parts_and_prefixes() {
    assert!(text::contains("application/json", "json"));
    assert!(text::contains("abc", ""));
    assert!(text::contains("", ""));
    assert!(!text::contains("", "a"));
    assert!(!text::contains("jso", "json"));
    assert!(!text::contains("jsjso", "json"));
    assert!(text::starts_with("/api/x", "/api"));
    assert!(!text::starts_with("/ap", "/api"));
    assert_eq!(text::strip_prefix("ü/x", "ü"), Some("/x".to_string()));
    assert_eq!(text::strip_prefix("x", "y"), None);
    assert!(text::first_is("/a", '/'));
    assert!(!text::first_is("", '/'));
    assert!(text::has_char("a/b", '/'));
    assert!(!text::has_char("ab", '/'));
    assert_eq!(text::head_of("a/b/c", '/'), "a");
    assert_eq!(text::head_of("/b", '/'), "");
    assert_eq!(text::head_of("abc", '/'), "abc");
}

#[test]
fn strings_are_ordered_by_code_points() {
    let all = ["", "a", "aa", "ab", "b", "A", "é", "\u{ffff}", "\u{10000}"];
    for a in all {
        for b in all {
            assert_eq!(text::before(a, b), a < b, "{a:?} {b:?}");
            assert_eq!(text::same(a, b), a == b);
        }
        assert_eq!(text::utf8_len(a), a.len());
    }
}

#[test]
fn optional_parameters() {
    assert_eq!(text::wanted_text(&None), None);
    assert_eq!(text::wanted_text(&Some("  ".to_string())), None);
    assert_eq!(text::wanted_text(&Some(" x ".to_string())), Some("x".to_string()));
}

#[test]
fn lists_of_origins_lose_what_is_empty() {
    let list: Vec<String> = [" http://a/ ", "/", "", "http://b"].iter().map(|s| s.to_string()).collect();
    assert_eq!(text::tidy_nonempty(&list), vec!["http://a".to_string(), "http://b".to_string()]);
    assert_eq!(
        text::tidy_all(&list),
        vec!["http://a".to_string(), String::new(), String::new(), "http://b".to_string()]
    );
}

fn table(pairs: &[(&str, &str)]) -> Table<String> {
    let mut t: Table<String> = Table::new();
    for (k, v) in pairs {
        t.insert(k.to_string(), v.to_string());
    }
    t
}

#[test]
fn a_table_holds_each_name_once() {
    let mut t = table(&[("b", "1"), ("a", "2"), ("b", "3")]);
    assert_eq!(t.len(), 2);
    assert_eq!(t.key_at(0), "b");
    assert_eq!(t.value_at(0), "3");
    assert_eq!(t.get("a"), Some(&"2".to_string()));
    assert_eq!(t.get("c"), None);
    assert_eq!(t.find("a"), Some(1));
    assert!(t.contains_key("a"));
    t.set_at(1, "9".to_string());
    assert_eq!(t.get("a"), Some(&"9".to_string()));
    assert!(t.remove("b"));
    assert!(!t.remove("b"));
    assert_eq!(t.len(), 1);
    assert!(!t.is_empty());
    assert_eq!(t.key_at(0), "a");
}

#[test]
fn the_names_of_a_table_come_sorted() {
    let t = table(&[("b", ""), ("é", ""), ("a", ""), ("aa", ""), ("B", "")]);
    let mut want: Vec<String> = ["b", "é", "a", "aa", "B"].iter().map(|s| s.to_string()).collect();
    want.sort();
    assert_eq!(t.sorted_keys(), want);
}

#[test]
fn a_copy_of_a_table_is_the_same() {
    let t = table(&[("b", "1"), ("a", "2")]);
    assert_eq!(format!("{:?}", t.duplicate()), format!("{t:?}"));
}
