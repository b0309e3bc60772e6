use state_list::codec::reads_back_all;
use state_list::codec::reads_back_one;
use state_list::domain::ReverseSegments;
use state_list::item::Item;
use state_list::item::TextItem;
use state_list::list::StateList;
use state_list::order::ItemOrder;

fn strings(items: &[&str]) -> Vec<String> {
    items.iter().map(|s| s.to_string()).collect()
}

fn list_of(items: &[&str]) -> StateList<String> {
    let mut list: StateList<String> = StateList::new();
    list.init_empty();
    for s in items {
        list.add_item(s.to_string());
    }
    list
}

/// A word that refuses to be read from the text "bar".
#[derive(Debug, PartialEq, Clone)]
struct Word(String);

impl vstd::view::View for Word {
    type V = vstd::seq::Seq<char>;

    fn view(&self) -> Self::V {
        unreachable!()
    }
}

impl Item for Word {
    fn is_same(&self, other: &Self) -> bool {
        self.0 == other.0
    }

    fn duplicate(&self) -> Self {
        self.clone()
    }
}

impl TextItem for Word {
    fn text_of(_v: Self::V) -> vstd::seq::Seq<char> {
        unreachable!()
    }

    fn item_of(_text: vstd::seq::Seq<char>) -> Option<Self::V> {
        unreachable!()
    }

    fn to_text(&self) -> String {
        self.0.clone()
    }

    fn from_text(text: &str) -> Option<Self> {
        if text == "bar" {
            None
        } else {
            Some(Word(text.to_string()))
        }
    }
}

/// Orders strings by their length only.
struct ByLength;

impl ItemOrder<String> for ByLength {
    fn precedes(&self, _a: String, _b: String) -> bool {
        unreachable!()
    }

    fn precedes_total(&self, _a: String, _b: String) {
    }

    fn precedes_transitive(&self, _a: String, _b: String, _c: String) {
    }

    fn in_order(&self, a: &String, b: &String) -> bool {
        a.len() <= b.len()
    }
}

#[test]
fn new_list_is_uninitialized_and_answers_as_empty() {
    let mut list: StateList<String> = StateList::new();
    assert_eq!(list.length(), 0);
    assert!(!list.contains(&"a".to_string()));
    assert_eq!(list.pop(), None);
    assert_eq!(list.get_entries(), Vec::<String>::new());
    assert!(list.save_state().is_none());
}

#[test]
fn writes_on_uninitialized_list_are_dropped() {
    let mut list: StateList<String> = StateList::new();
    list.add_item("a".to_string());
    list.remove(&"a".to_string());
    list.retain_matching(|_| true);
    list.sort_dedup_list(&ReverseSegments);
    assert_eq!(list.length(), 0);
    list.init_empty();
    assert_eq!(list.length(), 0);
    assert_eq!(list.get_entries(), Vec::<String>::new());
}

#[test]
fn init_empty_discards_prior_items() {
    let mut list = list_of(&["a", "b"]);
    list.init_empty();
    assert_eq!(list.length(), 0);
    assert_eq!(list.get_entries(), Vec::<String>::new());
}

#[test]
fn add_item_appends_in_order_and_keeps_duplicates() {
    let list = list_of(&["b", "a", "b"]);
    assert_eq!(list.get_entries(), strings(&["b", "a", "b"]));
    assert_eq!(list.length(), 3);
}

#[test]
fn add_then_contains_and_length_grows_by_one() {
    let mut list = list_of(&["a", "b"]);
    let x = "x".to_string();
    assert!(!list.contains(&x));
    let before = list.length();
    list.add_item(x.clone());
    assert!(list.contains(&x));
    assert_eq!(list.length(), before + 1);
}

#[test]
fn contains_compares_by_value() {
    let list = list_of(&["alpha", "beta"]);
    assert!(list.contains(&String::from("beta")));
    assert!(!list.contains(&String::from("bet")));
    assert!(!list.contains(&String::from("")));
}

#[test]
fn pop_returns_last_then_none() {
    let mut list = list_of(&["a", "b"]);
    assert_eq!(list.pop(), Some("b".to_string()));
    assert_eq!(list.get_entries(), strings(&["a"]));
    assert_eq!(list.pop(), Some("a".to_string()));
    assert_eq!(list.pop(), None);
    assert_eq!(list.length(), 0);
}

#[test]
fn remove_takes_first_equal_item_only() {
    let mut list = list_of(&["a", "b", "a", "c"]);
    list.remove(&"a".to_string());
    assert_eq!(list.get_entries(), strings(&["b", "a", "c"]));
    list.remove(&"zzz".to_string());
    assert_eq!(list.get_entries(), strings(&["b", "a", "c"]));
    list.remove(&"c".to_string());
    assert_eq!(list.get_entries(), strings(&["b", "a"]));
}

#[test]
fn retain_matching_keeps_relative_order() {
    let mut list = list_of(&["aa", "b", "cc", "d", "ee"]);
    list.retain_matching(|s: &String| s.len() == 2);
    assert_eq!(list.get_entries(), strings(&["aa", "cc", "ee"]));
    list.retain_matching(|_| false);
    assert_eq!(list.length(), 0);
}

#[test]
fn get_entries_is_an_independent_copy() {
    let mut list = list_of(&["a", "b"]);
    let mut copy = list.get_entries();
    copy.push("c".to_string());
    list.add_item("d".to_string());
    assert_eq!(copy, strings(&["a", "b", "c"]));
    assert_eq!(list.get_entries(), strings(&["a", "b", "d"]));
}

#[test]
fn sort_dedup_orders_by_reversed_segments() {
    let mut list = list_of(&["a.b.c", "q.z", "x.b.c"]);
    list.sort_dedup_list(&ReverseSegments);
    assert_eq!(list.get_entries(), strings(&["a.b.c", "x.b.c", "q.z"]));
}

#[test]
fn sort_dedup_clusters_names_of_one_parent() {
    let mut list = list_of(&["x.b.c", "q.z", "a.b.c", "b.c", "c", "z"]);
    list.sort_dedup_list(&ReverseSegments);
    assert_eq!(list.get_entries(), strings(&["c", "b.c", "a.b.c", "x.b.c", "z", "q.z"]));
}

#[test]
fn sort_dedup_keeps_a_parent_and_its_children_together() {
    let mut list = list_of(&["x.b.c", "b-a.c", "b.c", "x.b.c"]);
    list.sort_dedup_list(&ReverseSegments);
    assert_eq!(list.get_entries(), strings(&["b.c", "x.b.c", "b-a.c"]));
    let mut list = list_of(&["mail.example.com", "example-cdn.com", "example.com"]);
    list.sort_dedup_list(&ReverseSegments);
    assert_eq!(
        list.get_entries(),
        strings(&["example.com", "mail.example.com", "example-cdn.com"])
    );
}

/// Orders numbers by their size.
struct BySize;

impl ItemOrder<u64> for BySize {
    fn precedes(&self, _a: u64, _b: u64) -> bool {
        unreachable!()
    }

    fn precedes_total(&self, _a: u64, _b: u64) {
    }

    fn precedes_transitive(&self, _a: u64, _b: u64, _c: u64) {
    }

    fn in_order(&self, a: &u64, b: &u64) -> bool {
        a <= b
    }
}

#[test]
fn numbers_and_other_plain_values_are_items() {
    let mut list: StateList<u64> = StateList::new();
    list.init_empty();
    for n in [5u64, 3, 5, 9, 3] {
        list.add_item(n);
    }
    assert!(list.contains(&9));
    assert!(!list.contains(&4));
    list.remove(&5);
    assert_eq!(list.get_entries(), vec![3, 5, 9, 3]);
    list.sort_dedup_list(&BySize);
    assert_eq!(list.get_entries(), vec![3, 5, 9]);
    assert_eq!(list.pop(), Some(9));
    list.retain_matching(|n| *n > 3);
    assert_eq!(list.get_entries(), vec![5]);

    let mut signed: StateList<i32> = StateList::new();
    signed.init_empty();
    signed.add_item(-7);
    assert!(signed.contains(&-7));
    assert!(!signed.contains(&7));
    let mut flags: StateList<bool> = StateList::new();
    flags.init_empty();
    flags.add_item(true);
    assert!(flags.contains(&true));
    assert!(!flags.contains(&false));
    let mut letters: StateList<char> = StateList::new();
    letters.init_empty();
    letters.add_item('x');
    assert!(letters.contains(&'x'));
    assert_eq!(letters.get_entries(), vec!['x']);
}

#[test]
fn reads_back_all_tells_whether_a_save_loads_back_unchanged() {
    assert!(reads_back_all::<String>(&strings(&[])));
    assert!(reads_back_all(&strings(&["a", "b c", "mail.example.com"])));
    assert!(!reads_back_all(&strings(&["a", " b"])));
    assert!(!reads_back_all(&strings(&["a", "b\u{3000}"])));
    assert!(!reads_back_all(&strings(&["", "a"])));
    assert!(!reads_back_all(&strings(&["a\nb"])));
    assert!(!reads_back_all(&strings(&["a", "\t"])));
    assert!(reads_back_one(&"x".to_string()));
    assert!(!reads_back_one(&"x\n".to_string()));
    assert!(reads_back_all(&vec![Word("foo".to_string())]));
    assert!(!reads_back_all(&vec![Word("foo".to_string()), Word("bar".to_string())]));
}

#[test]
fn sort_dedup_removes_duplicates() {
    let mut list = list_of(&["b.com", "a.com", "b.com", "a.com", "a.com"]);
    list.sort_dedup_list(&ReverseSegments);
    assert_eq!(list.get_entries(), strings(&["a.com", "b.com"]));
}

#[test]
fn sort_dedup_twice_is_as_once() {
    let mut list = list_of(&["mail.example.com", "example.com", "a.org", "example.com", "b.a.org"]);
    list.sort_dedup_list(&ReverseSegments);
    let once = list.get_entries();
    list.sort_dedup_list(&ReverseSegments);
    assert_eq!(list.get_entries(), once);
    assert_eq!(once, strings(&["example.com", "mail.example.com", "a.org", "b.a.org"]));
}

#[test]
fn sort_is_stable_and_dedup_only_drops_neighbours() {
    let mut list = list_of(&["bb", "a", "cc", "bb", "c", "a"]);
    list.sort_dedup_list(&ByLength);
    assert_eq!(list.get_entries(), strings(&["a", "c", "a", "bb", "cc", "bb"]));
}

#[test]
fn sort_dedup_on_long_list() {
    let mut list: StateList<String> = StateList::new();
    list.init_empty();
    for i in 0..500 {
        list.add_item(format!("h{}.example.com", (i * 37) % 100));
    }
    list.sort_dedup_list(&ReverseSegments);
    let entries = list.get_entries();
    assert_eq!(entries.len(), 100);
    let mut expected: Vec<String> = (0..100).map(|i| format!("h{}.example.com", i)).collect();
    expected.sort();
    assert_eq!(entries, expected);
}

#[test]
fn sort_dedup_of_many_names_is_quick_and_exact() {
    let mut list: StateList<String> = StateList::new();
    list.init_empty();
    let n: u64 = 5000;
    for i in 0..n {
        let k = (i * 7919) % n;
        list.add_item(format!("host{:04}.zone{}.example", k, k % 7));
        list.add_item(format!("host{:04}.zone{}.example", k, k % 7));
    }
    list.sort_dedup_list(&ReverseSegments);
    let entries = list.get_entries();
    let mut expected: Vec<String> =
        (0..n).map(|k| format!("host{:04}.zone{}.example", k, k % 7)).collect();
    expected.sort_by_key(|name| name.split('.').rev().map(String::from).collect::<Vec<_>>());
    assert_eq!(entries.len(), expected.len());
    assert_eq!(entries, expected);
}

#[test]
fn init_string_skips_blank_lines_and_trims() {
    let mut list: StateList<String> = StateList::new();
    let rejected = list.init_string("foo\n\n  \n bar \t\nbaz".to_string());
    assert_eq!(list.get_entries(), strings(&["foo", "bar", "baz"]));
    assert!(rejected.is_empty());
}

#[test]
fn init_string_trims_unicode_white_space_only_at_the_ends() {
    let mut list: StateList<String> = StateList::new();
    list.init_string("\u{2003}a b\u{00a0}\r\n\u{3000}\n_x_\n".to_string());
    assert_eq!(list.get_entries(), strings(&["a b", "_x_"]));
}

#[test]
fn init_string_of_empty_text_gives_empty_list() {
    let mut list = list_of(&["old"]);
    let rejected = list.init_string(String::new());
    assert_eq!(list.length(), 0);
    assert!(rejected.is_empty());
    assert_eq!(list.get_entries(), Vec::<String>::new());
}

#[test]
fn init_string_replaces_prior_items() {
    let mut list = list_of(&["old", "older"]);
    list.init_string("new\n".to_string());
    assert_eq!(list.get_entries(), strings(&["new"]));
}

#[test]
fn malformed_line_is_skipped_and_reported() {
    let mut list: StateList<Word> = StateList::new();
    let rejected = list.init_string("foo\n\n  \nbar\n".to_string());
    assert_eq!(list.get_entries(), vec![Word("foo".to_string())]);
    assert_eq!(rejected, strings(&["bar"]));
}

#[test]
fn rejected_lines_come_untrimmed_and_in_order() {
    let mut list: StateList<Word> = StateList::new();
    let rejected = list.init_string(" bar \nx\nbar\ny".to_string());
    assert_eq!(list.get_entries(), vec![Word("x".to_string()), Word("y".to_string())]);
    assert_eq!(rejected, strings(&[" bar ", "bar"]));
}

#[test]
fn load_binds_path_and_installs_items() {
    let mut list = list_of(&["old"]);
    let rejected = list.load("/tmp/names.txt".to_string(), Some("a\nb\n".to_string()));
    assert!(rejected.is_empty());
    assert_eq!(list.get_entries(), strings(&["a", "b"]));
    let request = list.save_state().unwrap();
    assert_eq!(request.path, "/tmp/names.txt");
    assert_eq!(request.content, "a\nb\n");
}

#[test]
fn load_of_unreadable_file_gives_empty_list_bound_to_path() {
    let mut list = list_of(&["old"]);
    list.load("/tmp/missing.txt".to_string(), None);
    assert_eq!(list.length(), 0);
    let request = list.save_state().unwrap();
    assert_eq!(request.path, "/tmp/missing.txt");
    assert_eq!(request.content, "");
}

#[test]
fn second_load_rebinds_the_path() {
    let mut list: StateList<String> = StateList::new();
    list.load("first".to_string(), Some("a\n".to_string()));
    list.load("second".to_string(), Some("b\n".to_string()));
    let request = list.save_state().unwrap();
    assert_eq!(request.path, "second");
    assert_eq!(request.content, "b\n");
}

#[test]
fn save_needs_a_bound_path() {
    let list = list_of(&["a"]);
    assert!(list.save_state().is_none());
    assert!(list.save_matching(|_| true).is_none());
}

#[test]
fn init_empty_keeps_the_bound_path() {
    let mut list: StateList<String> = StateList::new();
    list.load("p".to_string(), Some("a\n".to_string()));
    list.init_empty();
    let request = list.save_state().unwrap();
    assert_eq!(request.path, "p");
    assert_eq!(request.content, "");
}

#[test]
fn save_matching_writes_accepted_items_in_order() {
    let mut list: StateList<String> = StateList::new();
    list.load("p".to_string(), Some("aa\nb\ncc\nd\n".to_string()));
    let request = list.save_matching(|s: &String| s.len() == 2).unwrap();
    assert_eq!(request.content, "aa\ncc\n");
    assert_eq!(request.path, "p");
    assert_eq!(list.get_entries(), strings(&["aa", "b", "cc", "d"]));
    assert_eq!(list.save_matching(|_| false).unwrap().content, "");
}

#[test]
fn save_state_writes_one_line_per_item() {
    let mut list: StateList<String> = StateList::new();
    list.load("p".to_string(), None);
    list.add_item("x y".to_string());
    list.add_item("z".to_string());
    assert_eq!(list.save_state().unwrap().content, "x y\nz\n");
}

#[test]
fn saved_list_loads_back_in_order() {
    let mut list: StateList<String> = StateList::new();
    list.load("p".to_string(), None);
    for s in ["mail.example.com", "b", "a", "b", "x y z"] {
        list.add_item(s.to_string());
    }
    let saved = list.save_state().unwrap();
    let mut fresh: StateList<String> = StateList::new();
    let rejected = fresh.load(saved.path, Some(saved.content));
    assert!(rejected.is_empty());
    assert_eq!(fresh.get_entries(), list.get_entries());
}

#[test]
fn items_that_do_not_read_back_are_lost_on_reload() {
    let mut list: StateList<Word> = StateList::new();
    list.load("p".to_string(), None);
    for s in ["foo", "bar", "", " pad ", "end"] {
        list.add_item(Word(s.to_string()));
    }
    let saved = list.save_state().unwrap();
    assert_eq!(saved.content, "foo\nbar\n\n pad \nend\n");
    let mut fresh: StateList<Word> = StateList::new();
    let rejected = fresh.load(saved.path, Some(saved.content));
    assert_eq!(rejected, strings(&["bar"]));
    assert_eq!(
        fresh.get_entries(),
        vec![Word("foo".to_string()), Word("pad".to_string()), Word("end".to_string())]
    );
}
