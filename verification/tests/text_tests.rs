use neix::db::db_path;
use neix::query::tier_of;
use neix::text::{chars_of, has_prefix, has_substring, lex_order, matches_at, opt_order, Order};

fn cs(text: &str) -> Vec<char> {
    text.chars().collect()
}

#[test]
fn chars_of_lists_the_characters() {
    assert_eq!(chars_of("a\u{e9}z"), vec!['a', '\u{e9}', 'z']);
    assert_eq!(chars_of(""), Vec::<char>::new());
}

#[test]
fn matches_at_checks_one_position() {
    assert!(matches_at(&cs("xabcx"), &cs("abc"), 1));
    assert!(!matches_at(&cs("xabcx"), &cs("abc"), 0));
    assert!(!matches_at(&cs("xabcx"), &cs("abc"), 3));
    assert!(!matches_at(&cs("ab"), &cs("abc"), 0));
    assert!(matches_at(&cs("ab"), &cs(""), 2));
    assert!(!matches_at(&cs("ab"), &cs(""), 3));
    assert!(!matches_at(&cs("ab"), &cs("b"), usize::MAX));
}

#[test]
fn prefix_and_substring() {
    assert!(has_prefix(&cs("abcd"), &cs("abc")));
    assert!(has_prefix(&cs("abc"), &cs("abc")));
    assert!(has_prefix(&cs("abc"), &cs("")));
    assert!(!has_prefix(&cs("xabc"), &cs("abc")));
    assert!(!has_prefix(&cs("ab"), &cs("abc")));
    assert!(has_substring(&cs("xabcx"), &cs("abc")));
    assert!(has_substring(&cs("xxabc"), &cs("abc")));
    assert!(has_substring(&cs(""), &cs("")));
    assert!(!has_substring(&cs("xabxc"), &cs("abc")));
    assert!(!has_substring(&cs(""), &cs("a")));
}

#[test]
fn tiers() {
    assert_eq!(tier_of("abc", &cs("abc")), 0);
    assert_eq!(tier_of("abcd", &cs("abc")), 1);
    assert_eq!(tier_of("xabcx", &cs("abc")), 2);
    assert_eq!(tier_of("xabx", &cs("abc")), 3);
    assert_eq!(tier_of("", &cs("")), 0);
    assert_eq!(tier_of("a", &cs("")), 1);
}

#[test]
fn lex_order_agrees_with_string_order() {
    let words = ["", "a", "ab", "b", "B", "10", "9", "1.0", "2.0", "\u{e9}", "z", "\u{ffff}", "\u{10000}", "a\u{e9}", "az"];
    for x in words {
        for y in words {
            let expected = match x.cmp(y) {
                std::cmp::Ordering::Less => Order::Less,
                std::cmp::Ordering::Equal => Order::Equal,
                std::cmp::Ordering::Greater => Order::Greater,
            };
            assert_eq!(lex_order(x, y), expected, "{:?} against {:?}", x, y);
        }
    }
}

#[test]
fn nine_sorts_after_ten() {
    assert_eq!(lex_order("9", "10"), Order::Greater);
    assert_eq!(lex_order("1.0", "2.0"), Order::Less);
}

#[test]
fn absent_sorts_below_present() {
    let none: Option<String> = None;
    let empty = Some(String::new());
    let one = Some("1".to_string());
    assert_eq!(opt_order(&none, &none), Order::Equal);
    assert_eq!(opt_order(&none, &empty), Order::Less);
    assert_eq!(opt_order(&empty, &none), Order::Greater);
    assert_eq!(opt_order(&empty, &one), Order::Less);
    assert_eq!(opt_order(&one, &one), Order::Equal);
}

#[test]
fn db_path_prefers_the_data_directory() {
    let got = db_path(Some("/data".to_string()), Some("/home/u".to_string()));
    assert_eq!(got, Some(vec!["/data".to_string(), "neix".to_string(), "neix.db".to_string()]));
}

#[test]
fn db_path_falls_back_to_home() {
    let got = db_path(None, Some("/home/u".to_string()));
    let want: Vec<String> = ["/home/u", ".local", "share", "neix", "neix.db"].iter().map(|p| p.to_string()).collect();
    assert_eq!(got, Some(want));
}

#[test]
fn db_path_needs_one_of_the_two() {
    assert_eq!(db_path(None, None), None);
}

#[test]
fn db_path_joins_as_the_platform_does() {
    let parts = db_path(Some("/data".to_string()), None).unwrap();
    let path: std::path::PathBuf = parts.iter().collect();
    assert_eq!(path, std::path::PathBuf::from("/data").join("neix").join("neix.db"));
}
