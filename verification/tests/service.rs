use bambangshop::notification::NotificationService;
use bambangshop::notification::Product;
use bambangshop::notification::ServiceError;
use bambangshop::subscriber::Subscriber;

fn sub(url: &str, name: &str) -> Subscriber {
    Subscriber { url: String::from(url), name: String::from(name) }
}

#[test]
fn idempotent_overwrite() {
    let mut svc = NotificationService::new();
    svc.subscribe("book", sub("http://a", "first")).unwrap();
    svc.subscribe("book", sub("http://a", "second")).unwrap();
    let listed = svc.registry.list_all("book");
    assert_eq!(listed.len(), 1);
    assert_eq!(listed[0].url, "http://a");
    assert_eq!(listed[0].name, "second");
}

#[test]
fn case_insensitive_category() {
    let mut svc = NotificationService::new();
    svc.subscribe("book", sub("http://a", "Alice")).unwrap();
    let listed = svc.registry.list_all("BOOK");
    assert_eq!(listed.len(), 1);
    assert_eq!(listed[0].url, "http://a");
    assert_eq!(listed[0].name, "Alice");
}

#[test]
fn removal_correctness() {
    let mut svc = NotificationService::new();
    svc.subscribe("book", sub("http://a", "Alice")).unwrap();
    let removed = svc.unsubscribe("book", "http://a").unwrap();
    assert_eq!(removed.url, "http://a");
    assert_eq!(removed.name, "Alice");
    let listed = svc.registry.list_all("book");
    assert!(listed.is_empty());
}

#[test]
fn not_found_on_empty_category() {
    let mut svc = NotificationService::new();
    let r = svc.unsubscribe("book", "http://nonexistent");
    assert_eq!(r.unwrap_err(), ServiceError::SubscriberNotFound);
}

#[test]
fn not_found_on_non_matching_url() {
    let mut svc = NotificationService::new();
    svc.subscribe("book", sub("http://a", "Alice")).unwrap();
    let r = svc.unsubscribe("book", "http://nonexistent");
    assert_eq!(r.unwrap_err(), ServiceError::SubscriberNotFound);
    let listed = svc.registry.list_all("book");
    assert_eq!(listed.len(), 1);
}

#[test]
fn not_found_message() {
    let err = ServiceError::SubscriberNotFound;
    assert_eq!(err.message(), "Subscriber not found");
}

#[test]
fn isolation_across_categories() {
    let mut svc = NotificationService::new();
    svc.subscribe("book", sub("http://a", "Alice")).unwrap();
    assert!(svc.registry.list_all("food").is_empty());
    assert!(svc.registry.list_all("BOO").is_empty());
    assert!(svc.registry.list_all("bookshelf").is_empty());
    assert_eq!(svc.registry.list_all("Book").len(), 1);
}

#[test]
fn subscribe_returns_stored_subscriber() {
    let mut svc = NotificationService::new();
    let stored = svc.subscribe("book", sub("http://a", "Alice")).unwrap();
    assert_eq!(stored.url, "http://a");
    assert_eq!(stored.name, "Alice");
}

#[test]
fn fan_out_builds_one_payload_per_subscriber() {
    let mut svc = NotificationService::new();
    svc.subscribe("Book", sub("http://a", "Alice")).unwrap();
    svc.subscribe("BOOK", sub("http://b", "Bob")).unwrap();
    let product = Product { title: String::from("T"), url: String::from("http://product/1") };
    let deliveries = svc.notify("book", "created", product);
    assert_eq!(deliveries.len(), 2);
    assert_eq!(deliveries[0].0.url, "http://a");
    assert_eq!(deliveries[0].1.subscriber_name, "Alice");
    assert_eq!(deliveries[1].0.url, "http://b");
    assert_eq!(deliveries[1].1.subscriber_name, "Bob");
    for (_, p) in &deliveries {
        assert_eq!(p.product_title, "T");
        assert_eq!(p.product_url, "http://product/1");
        assert_eq!(p.product_type, "book");
        assert_eq!(p.status, "created");
    }
}

#[test]
fn notify_on_empty_category_builds_nothing() {
    let svc = NotificationService::new();
    let product = Product { title: String::from("T"), url: String::from("http://product/1") };
    let deliveries = svc.notify("book", "created", product);
    assert!(deliveries.is_empty());
}

#[test]
fn snapshot_unaffected_by_later_removal() {
    let mut svc = NotificationService::new();
    svc.subscribe("book", sub("http://a", "Alice")).unwrap();
    svc.subscribe("book", sub("http://b", "Bob")).unwrap();
    let product = Product { title: String::from("T"), url: String::from("http://product/1") };
    let deliveries = svc.notify("book", "created", product);
    svc.unsubscribe("book", "http://a").unwrap();
    assert_eq!(deliveries.len(), 2);
    assert_eq!(deliveries[0].1.subscriber_name, "Alice");
    assert_eq!(deliveries[1].1.subscriber_name, "Bob");
    assert_eq!(svc.registry.list_all("book").len(), 1);
}
