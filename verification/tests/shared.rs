use state_list::ReverseSegments;
use state_list::SharedStateList;

fn strings(items: &[&str]) -> Vec<String> {
    items.iter().map(|s| s.to_string()).collect()
}

fn shared_of(items: &[&str]) -> SharedStateList<String> {
    let shared: SharedStateList<String> = SharedStateList::new();
    assert!(shared.init_empty());
    for s in items {
        assert!(shared.add_item(s.to_string()));
    }
    shared
}

#[test]
fn handle_without_list_answers_as_empty() {
    let shared: SharedStateList<String> = SharedStateList::new();
    assert!(!shared.add_item("a".to_string()));
    assert!(!shared.contains(&"a".to_string()));
    assert_eq!(shared.length(), 0);
    assert_eq!(shared.pop(), None);
    assert!(!shared.remove(&"a".to_string()));
    assert!(!shared.retain_matching(|_| true));
    assert!(!shared.sort_dedup_list(&ReverseSegments));
    assert_eq!(shared.get_entries(), Vec::<String>::new());
    assert!(shared.save_state().is_none());
    assert!(shared.read_access().is_none());
    assert!(shared.write_access().is_none());
}

#[test]
fn operations_reach_the_list_when_the_lock_is_free() {
    let shared = shared_of(&["b.com", "a.com", "b.com"]);
    assert_eq!(shared.length(), 3);
    assert!(shared.contains(&"a.com".to_string()));
    assert!(shared.sort_dedup_list(&ReverseSegments));
    assert_eq!(shared.get_entries(), strings(&["a.com", "b.com"]));
    assert_eq!(shared.pop(), Some("b.com".to_string()));
    assert!(shared.remove(&"a.com".to_string()));
    assert_eq!(shared.length(), 0);
}

#[test]
fn shared_add_then_contains() {
    let shared = shared_of(&[]);
    let x = "x".to_string();
    assert!(!shared.contains(&x));
    assert!(shared.add_item(x.clone()));
    assert!(shared.contains(&x));
    assert_eq!(shared.length(), 1);
}

#[test]
fn held_write_lock_degrades_every_operation() {
    let shared = shared_of(&["a", "b"]);
    let guard = shared.write_access();
    assert!(guard.is_some());
    assert!(!shared.contains(&"a".to_string()));
    assert_eq!(shared.length(), 0);
    assert_eq!(shared.pop(), None);
    assert_eq!(shared.get_entries(), Vec::<String>::new());
    assert!(!shared.add_item("c".to_string()));
    assert!(!shared.remove(&"a".to_string()));
    assert!(!shared.retain_matching(|_| false));
    assert!(!shared.sort_dedup_list(&ReverseSegments));
    assert!(!shared.init_empty());
    assert!(shared.save_state().is_none());
    assert!(shared.init_string("x\n".to_string()).is_none());
    assert!(shared.load("p".to_string(), Some("x\n".to_string())).is_none());
    drop(guard);
    assert_eq!(shared.get_entries(), strings(&["a", "b"]));
    assert!(shared.contains(&"a".to_string()));
    assert_eq!(shared.length(), 2);
}

#[test]
fn held_read_lock_admits_readers_and_turns_writers_away() {
    let shared = shared_of(&["a", "b"]);
    let guard = shared.read_access();
    assert!(guard.is_some());
    assert!(shared.contains(&"a".to_string()));
    assert_eq!(shared.length(), 2);
    assert_eq!(shared.get_entries(), strings(&["a", "b"]));
    assert!(!shared.add_item("c".to_string()));
    assert_eq!(shared.pop(), None);
    assert!(shared.save_state().is_none());
    drop(guard);
    assert!(shared.add_item("c".to_string()));
    assert_eq!(shared.length(), 3);
}

#[test]
fn guard_gives_the_list_itself() {
    let shared = shared_of(&["a"]);
    {
        let mut guard = shared.write_access().unwrap();
        guard.add_item("b".to_string());
        guard.add_item("c".to_string());
        assert_eq!(guard.length(), 3);
    }
    let guard = shared.read_access().unwrap();
    assert_eq!(guard.get_entries(), strings(&["a", "b", "c"]));
}

#[test]
fn shared_init_empty_discards_prior_items() {
    let shared = shared_of(&["a", "b"]);
    assert!(shared.init_empty());
    assert_eq!(shared.length(), 0);
}

#[test]
fn shared_load_installs_and_replaces() {
    let shared: SharedStateList<String> = SharedStateList::new();
    let rejected = shared.load("p".to_string(), Some("foo\n\n  \nbar\n".to_string()));
    assert_eq!(rejected, Some(Vec::<String>::new()));
    assert_eq!(shared.get_entries(), strings(&["foo", "bar"]));
    assert!(shared.load("q".to_string(), None).is_some());
    assert_eq!(shared.length(), 0);
    let request = shared.save_state().unwrap();
    assert_eq!(request.path, "q");
    assert_eq!(request.content, "");
}

#[test]
fn shared_init_string_keeps_the_bound_path() {
    let shared: SharedStateList<String> = SharedStateList::new();
    assert!(shared.init_string("a\n".to_string()).is_some());
    assert!(shared.save_state().is_none());
    assert!(shared.load("p".to_string(), Some("a\n".to_string())).is_some());
    assert!(shared.init_string("b\nc\n".to_string()).is_some());
    let request = shared.save_state().unwrap();
    assert_eq!(request.path, "p");
    assert_eq!(request.content, "b\nc\n");
}

#[test]
fn shared_save_matching_filters_and_leaves_the_list() {
    let shared: SharedStateList<String> = SharedStateList::new();
    shared.load("p".to_string(), Some("aa\nb\ncc\n".to_string()));
    let request = shared.save_matching(|s: &String| s.len() == 2).unwrap();
    assert_eq!(request.content, "aa\ncc\n");
    assert_eq!(shared.get_entries(), strings(&["aa", "b", "cc"]));
}

#[test]
fn shared_retain_matching_keeps_accepted_items() {
    let shared = shared_of(&["aa", "b", "cc"]);
    assert!(shared.retain_matching(|s: &String| s.len() == 1));
    assert_eq!(shared.get_entries(), strings(&["b"]));
}
