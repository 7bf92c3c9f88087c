use bambangshop::registry::SubscriberRegistry;
use bambangshop::subscriber::Subscriber;

fn sub(url: &str, name: &str) -> Subscriber {
    Subscriber { url: String::from(url), name: String::from(name) }
}

#[test]
fn add_returns_stored_and_lists_in_insertion_order() {
    let mut reg = SubscriberRegistry::new();
    let stored = reg.add("book", sub("http://a", "Alice"));
    assert_eq!(stored.url, "http://a");
    assert_eq!(stored.name, "Alice");
    reg.add("book", sub("http://b", "Bob"));
    let listed = reg.list_all("book");
    assert_eq!(listed.len(), 2);
    assert_eq!(listed[0].url, "http://a");
    assert_eq!(listed[1].url, "http://b");
}

#[test]
fn overwrite_keeps_position_and_takes_new_name() {
    let mut reg = SubscriberRegistry::new();
    reg.add("book", sub("http://a", "Alice"));
    reg.add("book", sub("http://b", "Bob"));
    reg.add("book", sub("http://a", "Carol"));
    let listed = reg.list_all("book");
    assert_eq!(listed.len(), 2);
    assert_eq!(listed[0].url, "http://a");
    assert_eq!(listed[0].name, "Carol");
    assert_eq!(listed[1].url, "http://b");
    assert_eq!(listed[1].name, "Bob");
}

#[test]
fn remove_returns_entry_and_keeps_order_of_rest() {
    let mut reg = SubscriberRegistry::new();
    reg.add("book", sub("http://a", "Alice"));
    reg.add("book", sub("http://b", "Bob"));
    reg.add("book", sub("http://c", "Carol"));
    let removed = reg.remove("BOOK", "http://b").unwrap();
    assert_eq!(removed.name, "Bob");
    let listed = reg.list_all("book");
    assert_eq!(listed.len(), 2);
    assert_eq!(listed[0].url, "http://a");
    assert_eq!(listed[1].url, "http://c");
}

#[test]
fn remove_from_absent_category_is_none() {
    let mut reg = SubscriberRegistry::new();
    assert!(reg.remove("book", "http://a").is_none());
    reg.add("book", sub("http://a", "Alice"));
    assert!(reg.remove("food", "http://a").is_none());
}

#[test]
fn list_all_of_absent_category_is_empty() {
    let reg = SubscriberRegistry::new();
    assert!(reg.list_all("anything").is_empty());
}

#[test]
fn mixed_case_and_non_letters_normalize_alike() {
    let mut reg = SubscriberRegistry::new();
    reg.add("sci-fi 2", sub("http://a", "Alice"));
    assert_eq!(reg.list_all("SCI-FI 2").len(), 1);
    assert_eq!(reg.list_all("Sci-Fi 2").len(), 1);
    assert!(reg.list_all("sci-fi").is_empty());
}

#[test]
fn listed_snapshot_is_a_copy() {
    let mut reg = SubscriberRegistry::new();
    reg.add("book", sub("http://a", "Alice"));
    let snapshot = reg.list_all("book");
    reg.remove("book", "http://a").unwrap();
    assert_eq!(snapshot.len(), 1);
    assert_eq!(snapshot[0].name, "Alice");
    assert!(reg.list_all("book").is_empty());
}
