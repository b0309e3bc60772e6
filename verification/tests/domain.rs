use state_list::domain::key_of;
use state_list::domain::lex_in_order;
use state_list::domain::rank_of;
use state_list::domain::ReverseSegments;
use state_list::order::sort;
use state_list::order::ItemOrder;
use state_list::sequence::dedup;
use state_list::sequence::find_same;
use state_list::sequence::retain;
use state_list::text::char_is_white_space;
use state_list::text::chars_of;
use state_list::text::string_of;
use state_list::text::trim_bounds;

fn key(name: &str) -> String {
    key_of(name).into_iter().collect()
}

fn chars(s: &str) -> Vec<char> {
    s.chars().collect()
}

fn before(a: &str, b: &str) -> bool {
    ReverseSegments.in_order(&a.to_string(), &b.to_string())
}

#[test]
fn key_reverses_the_segments() {
    assert_eq!(key("mail.example.com"), "com.example.mail");
    assert_eq!(key("a.b.c"), "c.b.a");
    assert_eq!(key("localhost"), "localhost");
    assert_eq!(key(""), "");
}

#[test]
fn key_keeps_empty_segments() {
    assert_eq!(key(".com"), "com.");
    assert_eq!(key("com."), ".com");
    assert_eq!(key("a..b"), "b..a");
    assert_eq!(key("."), ".");
}

#[test]
fn key_handles_characters_of_several_bytes() {
    assert_eq!(key("bücher.example"), "example.bücher");
}

#[test]
fn texts_compare_character_by_character() {
    assert!(lex_in_order(&chars(""), &chars("")));
    assert!(lex_in_order(&chars(""), &chars("a")));
    assert!(!lex_in_order(&chars("a"), &chars("")));
    assert!(lex_in_order(&chars("ab"), &chars("abc")));
    assert!(!lex_in_order(&chars("abc"), &chars("ab")));
    assert!(lex_in_order(&chars("abc"), &chars("abd")));
    assert!(!lex_in_order(&chars("abd"), &chars("abc")));
    assert!(lex_in_order(&chars("same"), &chars("same")));
    assert!(lex_in_order(&chars("z"), &chars("é")));
}

#[test]
fn names_of_one_parent_stand_together() {
    assert!(before("a.b.c", "x.b.c"));
    assert!(!before("x.b.c", "a.b.c"));
    assert!(before("x.b.c", "q.z"));
    assert!(!before("q.z", "a.b.c"));
    assert!(before("example.com", "mail.example.com"));
    assert!(before("a.b.c", "a.b.c"));
}

#[test]
fn keys_compare_segment_by_segment() {
    assert!(before("x.a.com", "a-b.com"));
    assert!(!before("a-b.com", "x.a.com"));
    assert!(before("b.c", "x.b.c"));
    assert!(before("x.b.c", "b-a.c"));
    assert!(!before("b-a.c", "x.b.c"));
    assert!(before("example.com", "example-cdn.com"));
    assert!(before("mail.example.com", "example-cdn.com"));
    assert!(before("a b.com", "a-b.com"));
    assert!(before("x.a.com", "a b.com"));
}

#[test]
fn the_dot_has_the_lowest_rank() {
    assert_eq!(rank_of('.'), 0);
    assert_eq!(rank_of('\0'), 1);
    assert_eq!(rank_of('-'), 0x2e);
    assert_eq!(rank_of('/'), 0x30);
    assert_eq!(rank_of('a'), 0x62);
    assert_eq!(rank_of('\u{10ffff}'), 0x110000);
    assert!(lex_in_order(&chars("a."), &chars("a-")));
    assert!(!lex_in_order(&chars("a-"), &chars("a.")));
    assert!(lex_in_order(&chars("a.z"), &chars("a!")));
    assert!(lex_in_order(&chars("a"), &chars("a.")));
}

#[test]
fn a_name_and_the_names_below_it_stand_together() {
    let names: Vec<String> =
        ["x.b.c", "b-a.c", "b.c"].iter().map(|s| s.to_string()).collect();
    let sorted = sort(&ReverseSegments, names);
    assert_eq!(sorted, vec!["b.c".to_string(), "x.b.c".to_string(), "b-a.c".to_string()]);
    let names: Vec<String> = ["example-cdn.com", "mail.example.com", "example.com", "a.mail.example.com", "example!.com"]
        .iter()
        .map(|s| s.to_string())
        .collect();
    let sorted = sort(&ReverseSegments, names);
    let expected: Vec<String> = ["example.com", "mail.example.com", "a.mail.example.com", "example!.com", "example-cdn.com"]
        .iter()
        .map(|s| s.to_string())
        .collect();
    assert_eq!(sorted, expected);
}

#[test]
fn order_agrees_with_comparing_the_reversed_segment_lists() {
    let names = [
        "", ".", "a", "a.", ".a", "a.b", "b.a", "a-b", "a.b.c", "x.b.c", "b-a.c", "b.c", "c", "a..c",
        "a b.c", "é.c", "b!.c", "B.c", "b.C", "0.b.c",
    ];
    for a in names.iter() {
        for b in names.iter() {
            let left: Vec<&str> = a.split('.').rev().collect();
            let right: Vec<&str> = b.split('.').rev().collect();
            let left: Vec<Vec<char>> = left.iter().map(|s| s.chars().collect()).collect();
            let right: Vec<Vec<char>> = right.iter().map(|s| s.chars().collect()).collect();
            assert_eq!(before(a, b), left <= right);
        }
    }
}

#[test]
fn white_space_is_what_the_standard_library_calls_so() {
    let mut found = 0;
    for code in 0..=0x10ffffu32 {
        if let Some(c) = char::from_u32(code) {
            assert_eq!(char_is_white_space(c), c.is_whitespace());
            if char_is_white_space(c) {
                found += 1;
            }
        }
    }
    assert_eq!(found, 25);
}

#[test]
fn sort_by_reversed_segments() {
    let names: Vec<String> = ["a.b.c", "q.z", "x.b.c"].iter().map(|s| s.to_string()).collect();
    let sorted = sort(&ReverseSegments, names);
    assert_eq!(sorted, vec!["a.b.c".to_string(), "x.b.c".to_string(), "q.z".to_string()]);
}

#[test]
fn sort_of_short_lists() {
    let none: Vec<String> = Vec::new();
    assert_eq!(sort(&ReverseSegments, none), Vec::<String>::new());
    assert_eq!(sort(&ReverseSegments, vec!["a".to_string()]), vec!["a".to_string()]);
    assert_eq!(
        sort(&ReverseSegments, vec!["b".to_string(), "a".to_string()]),
        vec!["a".to_string(), "b".to_string()]
    );
}

#[test]
fn dedup_drops_equal_neighbours_only() {
    let items: Vec<String> = ["a", "a", "b", "a", "a", "a", "c", "c"].iter().map(|s| s.to_string()).collect();
    let kept = dedup(items);
    assert_eq!(kept, vec!["a".to_string(), "b".to_string(), "a".to_string(), "c".to_string()]);
}

#[test]
fn retain_keeps_accepted_items() {
    let items: Vec<String> = ["a", "bb", "c"].iter().map(|s| s.to_string()).collect();
    assert_eq!(retain(items, |s: &String| s.len() == 1), vec!["a".to_string(), "c".to_string()]);
}

#[test]
fn find_same_gives_first_position_or_length() {
    let items: Vec<String> = ["a", "b", "a"].iter().map(|s| s.to_string()).collect();
    assert_eq!(find_same(&items, &"a".to_string()), 0);
    assert_eq!(find_same(&items, &"b".to_string()), 1);
    assert_eq!(find_same(&items, &"c".to_string()), 3);
}

#[test]
fn chars_and_strings_convert_both_ways() {
    let all = chars_of("héllo wörld");
    assert_eq!(all.len(), 11);
    assert_eq!(string_of(&all, 0, 5), "héllo");
    assert_eq!(string_of(&all, 6, 11), "wörld");
    assert_eq!(string_of(&all, 3, 3), "");
}

#[test]
fn trim_bounds_skip_white_space_at_both_ends() {
    let all = chars_of("..  a b \t..");
    assert_eq!(trim_bounds(&all, 2, 9), (4, 7));
    assert_eq!(trim_bounds(&all, 0, 11), (0, 11));
    assert_eq!(trim_bounds(&all, 2, 4), (4, 4));
    assert_eq!(trim_bounds(&all, 5, 5), (5, 5));
}
