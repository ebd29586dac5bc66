use http::client::Client;
use http::headers::HeaderSet;

#[test]
fn merge_prefers_explicit_and_keeps_the_rest() {
    // A: the permanent set; B: the per-request set; they overlap on "shared".
    let mut client = Client::new();
    client.set_property(String::from("shared"), String::from("from-a"));
    client.set_property(String::from("only-a"), String::from("1"));
    let mut b = HeaderSet::new();
    b.set(String::from("shared"), String::from("from-b"));
    b.set(String::from("only-b"), String::from("2"));

    let merged = client.update_properties(Some(&b));
    assert_eq!(
        merged.get(&String::from("shared")),
        Some(&String::from("from-b"))
    );
    assert_eq!(merged.get(&String::from("only-a")), Some(&String::from("1")));
    assert_eq!(merged.get(&String::from("only-b")), Some(&String::from("2")));
    assert_eq!(merged.len(), 3);

    // Merging never mutates the permanent set.
    assert_eq!(
        client.get_property(&String::from("shared")),
        Some(&String::from("from-a"))
    );
    assert_eq!(client.iter().len(), 2);
    // Nor the per-request set.
    assert_eq!(b.get(&String::from("shared")), Some(&String::from("from-b")));
    assert_eq!(b.len(), 2);
}

#[test]
fn update_properties_without_explicit_headers_copies_permanent() {
    let mut client = Client::new();
    client.set_property(String::from("a"), String::from("1"));
    let merged = client.update_properties(None);
    assert_eq!(merged.get(&String::from("a")), Some(&String::from("1")));
    assert_eq!(merged.len(), 1);
}

#[test]
fn set_overwrites_and_unset_removes() {
    let mut h = HeaderSet::new();
    h.set(String::from("k"), String::from("v1"));
    h.set(String::from("k"), String::from("v2"));
    assert_eq!(h.len(), 1);
    assert_eq!(h.get(&String::from("k")), Some(&String::from("v2")));
    assert!(h.contains(&String::from("k")));
    h.unset(&String::from("k"));
    assert_eq!(h.get(&String::from("k")), None);
    assert!(!h.contains(&String::from("k")));
    assert_eq!(h.len(), 0);
}

#[test]
fn unset_of_absent_key_changes_nothing() {
    let mut h = HeaderSet::new();
    h.set(String::from("a"), String::from("1"));
    h.unset(&String::from("b"));
    assert_eq!(h.len(), 1);
    assert_eq!(h.get(&String::from("a")), Some(&String::from("1")));
}

#[test]
fn keys_and_pairs_follow_insertion_order() {
    let mut h = HeaderSet::new();
    h.set(String::from("b"), String::from("2"));
    h.set(String::from("a"), String::from("1"));
    assert_eq!(h.keys(), vec![String::from("b"), String::from("a")]);
    assert_eq!(
        h.to_pairs(),
        vec![
            (String::from("b"), String::from("2")),
            (String::from("a"), String::from("1")),
        ]
    );
}

#[test]
fn client_property_accessors() {
    let mut client = Client::new();
    assert_eq!(client.get_property(&String::from("x")), None);
    client.set_property(String::from("x"), String::from("1"));
    assert_eq!(client.get_property(&String::from("x")), Some(&String::from("1")));
    assert_eq!(client.get_properties_name(), vec![String::from("x")]);
    assert_eq!(
        client.iter(),
        vec![(String::from("x"), String::from("1"))]
    );
    client.unset_property(&String::from("x"));
    assert_eq!(client.get_property(&String::from("x")), None);
    assert_eq!(client.get_properties_name(), Vec::<String>::new());
}

#[test]
fn duplicate_copies_pairs() {
    let mut h = HeaderSet::new();
    h.set(String::from("a"), String::from("1"));
    let d = h.duplicate();
    assert_eq!(d.to_pairs(), h.to_pairs());
}
