use shadowenv::digits::{decimal, hex16, hex_char_value, parse_hex16};
use shadowenv::env::{names_of_both, Env, NameSet};
use shadowenv::json::{find_member, Json};
use shadowenv::pathlist::{diff_vecs, elements_without, has_element, remove_element, skip_leading};
use shadowenv::text::{
    chars_of, chars_less, contains, ends_with, join, same_chars, split, starts_with, string_of,
    text_eq, text_less,
};

fn c(s: &str) -> Vec<char> {
    s.chars().collect()
}

fn cs(items: &[&str]) -> Vec<Vec<char>> {
    items.iter().map(|s| c(s)).collect()
}

#[test]
fn strings_and_characters() {
    assert_eq!(chars_of("héllo"), c("héllo"));
    assert_eq!(string_of(&c("héllo 🦀")), "héllo 🦀");
    assert_eq!(chars_of(""), Vec::<char>::new());
    assert!(same_chars(&c("ab"), &c("ab")));
    assert!(!same_chars(&c("ab"), &c("abc")));
    assert!(!same_chars(&c("ab"), &c("ac")));
    assert!(text_eq("", ""));
    assert!(!text_eq("a", ""));
}

#[test]
fn order_is_that_of_strings() {
    let words = ["", "a", "A", "ab", "b", "é", "z", "a b", "PATH", "Path", "_x", "🦀"];
    for x in words {
        for y in words {
            assert_eq!(text_less(x, y), x < y, "{:?} < {:?}", x, y);
            assert_eq!(chars_less(&c(x), &c(y)), x < y);
        }
    }
}

#[test]
fn split_and_join_are_those_of_strings() {
    for s in ["", "a", "a:b", ":a", "a:", "::", "/usr/bin:/bin", "a::b:"] {
        let expected: Vec<Vec<char>> = s.split(':').map(|p| c(p)).collect();
        assert_eq!(split(&c(s), ':'), expected);
        assert_eq!(string_of(&join(&split(&c(s), ':'), ':')), s);
    }
    assert_eq!(string_of(&join(&vec![], ':')), "");
    assert_eq!(string_of(&join(&cs(&["a", "", "b"]), ':')), "a::b");
}

#[test]
fn searching() {
    for (hay, needle) in [("abc", "bc"), ("abc", ""), ("", ""), ("abc", "abcd"), ("aab", "ab"), ("abc", "ac"), ("é/x", "/")] {
        assert_eq!(contains(&c(hay), &c(needle)), hay.contains(needle), "{:?} {:?}", hay, needle);
        assert_eq!(starts_with(&c(hay), &c(needle)), hay.starts_with(needle));
        assert_eq!(ends_with(&c(hay), &c(needle)), hay.ends_with(needle));
    }
}

#[test]
fn numbers_as_text() {
    assert_eq!(string_of(&decimal(0)), "0");
    assert_eq!(string_of(&decimal(9)), "9");
    assert_eq!(string_of(&decimal(10)), "10");
    assert_eq!(string_of(&decimal(u64::MAX)), u64::MAX.to_string());
    assert_eq!(string_of(&hex16(0)), "0000000000000000");
    assert_eq!(string_of(&hex16(0xabc)), "0000000000000abc");
    assert_eq!(string_of(&hex16(u64::MAX)), "ffffffffffffffff");
    assert_eq!(parse_hex16(&c("00000000000000Ff")), Some(255));
    assert_eq!(parse_hex16(&c("00000000000000f")), None);
    assert_eq!(parse_hex16(&c("000000000000000x")), None);
    assert_eq!(hex_char_value('a'), Some(10));
    assert_eq!(hex_char_value('F'), Some(15));
    assert_eq!(hex_char_value('7'), Some(7));
    assert_eq!(hex_char_value('g'), None);
}

#[test]
fn environments_are_maps() {
    let mut env = Env::from_pairs(vec![
        ("B".to_string(), "1".to_string()),
        ("A".to_string(), "2".to_string()),
        ("B".to_string(), "3".to_string()),
    ]);
    assert_eq!(env.len(), 2);
    assert_eq!(env.name_at(0), "A");
    assert_eq!(env.value_at(1), "3");
    assert_eq!(env.get("B"), Some("3".to_string()));
    assert!(env.contains("A"));
    env.remove("A");
    env.remove("missing");
    assert!(!env.contains("A"));
    env.set("C", Some("c"));
    env.set("B", None);
    env.insert("AA", "x");
    let copy = env.duplicate();
    assert_eq!(copy.len(), 2);
    assert_eq!(copy.name_at(0), "AA");
    assert_eq!(copy.name_at(1), "C");
    let both = names_of_both(&copy, &Env::from_pairs(vec![("B".to_string(), "".to_string())]));
    assert_eq!(both.to_vec(), vec!["AA", "B", "C"]);
}

#[test]
fn name_sets() {
    let mut set = NameSet::new();
    set.insert("b");
    set.insert("a");
    set.insert("b");
    assert_eq!(set.len(), 2);
    assert!(set.contains("a"));
    assert!(!set.contains("c"));
    assert_eq!(set.name_at(1), "b");
    assert_eq!(set.duplicate().to_vec(), vec!["a", "b"]);
}

#[test]
fn list_operations() {
    let mut items = cs(&["a", "b", "a", "c"]);
    assert!(has_element(&items, &c("c")));
    assert!(!has_element(&items, &c("d")));
    assert!(remove_element(&mut items, &c("a")));
    assert_eq!(items, cs(&["b", "a", "c"]));
    assert!(!remove_element(&mut items, &c("zz")));
    assert_eq!(items, cs(&["b", "a", "c"]));
    assert_eq!(skip_leading(&cs(&["xa", "ax", "b", "xa"]), &c("a")), cs(&["b", "xa"]));
    assert_eq!(skip_leading(&cs(&["xa"]), &c("")), cs(&[]));
    assert_eq!(elements_without(&cs(&["a", "b", "a", "c"]), &cs(&["b"])), cs(&["a", "a", "c"]));
    let (added, deleted) = diff_vecs(&cs(&["/path1", "/path2"]), &cs(&["/path4", "/path2", "/path3"]));
    assert_eq!(added, cs(&["/path4", "/path3"]));
    assert_eq!(deleted, cs(&["/path1"]));
}

#[test]
fn list_diff_laws_on_values() {
    // additions removed again give the list back
    let old = cs(&["/usr/bin", "/bin"]);
    let new = cs(&["/opt/bin", "/usr/bin", "/x", "/bin", "/opt/bin"]);
    let (added, deleted) = diff_vecs(&old, &new);
    assert!(deleted.is_empty());
    let mut undone = new.clone();
    for a in &added {
        remove_element(&mut undone, a);
    }
    assert_eq!(undone, old);
    // deletions put back in front give the same elements in another order
    let new = cs(&["/bin", "/new"]);
    let old = cs(&["/a", "/bin", "/b"]);
    let (added, deleted) = diff_vecs(&old, &new);
    let mut undone = new.clone();
    for a in &added {
        remove_element(&mut undone, a);
    }
    for d in &deleted {
        undone.insert(0, d.clone());
    }
    assert_eq!(undone, cs(&["/b", "/a", "/bin"]));
    let mut sorted_old = old.clone();
    sorted_old.sort();
    undone.sort();
    assert_eq!(undone, sorted_old);
}

#[test]
fn members_of_objects() {
    let entries = vec![
        ("a".to_string(), Json::Bool(true)),
        ("b".to_string(), Json::Null),
        ("a".to_string(), Json::Bool(false)),
    ];
    assert!(matches!(find_member(&entries, "a"), Some(Json::Bool(true))));
    assert!(matches!(find_member(&entries, "b"), Some(Json::Null)));
    assert!(find_member(&entries, "c").is_none());
}
