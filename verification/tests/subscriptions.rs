use websockit::connection_id::ConnectionId;
use websockit::subscription::Subscription;
use websockit::subscriptions::{SubscriptionTable, Unsubscribed};

fn sorted_values(ids: &[ConnectionId]) -> Vec<u128> {
    let mut values: Vec<u128> = ids.iter().map(|id| id.as_u128()).collect();
    values.sort();
    values
}

#[test]
fn subscription_new_keeps_name() {
    let subscription = Subscription::new("prices");
    assert_eq!(subscription.as_str(), "prices");
    assert_eq!(subscription.to_string(), "prices");
}

#[test]
fn subscription_debug_text() {
    assert_eq!(Subscription::new("prices").debug_text(), "Subscription(prices)");
}

#[test]
fn subscription_from_string_and_str() {
    let from_string: Subscription = String::from("news").into();
    let from_str: Subscription = "news".into();
    assert!(from_string == from_str);
    assert!(from_string.same_as(&Subscription::new("news")));
    assert!(from_string != Subscription::new("sports"));
}

#[test]
fn subscription_clone_is_equal() {
    let original = Subscription::new("weather");
    let copy = original.clone();
    assert!(copy == original);
}

#[test]
fn new_table_has_no_subscriptions() {
    let table = SubscriptionTable::new();
    assert!(table.get_subscriptions(ConnectionId::from_u128(1)).is_none());
    assert!(table.get_subscribers(Subscription::new("a")).is_empty());
}

#[test]
fn add_subscription_counts_each_time() {
    let mut table = SubscriptionTable::new();
    let id = ConnectionId::from_u128(7);
    table.add_subscription(id, Subscription::new("a"));
    table.add_subscription(id, Subscription::new("a"));
    table.add_subscription(id, Subscription::new("b"));
    assert_eq!(table.count_of(id, &Subscription::new("a")), 2);
    assert_eq!(table.count_of(id, &Subscription::new("b")), 1);
    assert_eq!(table.count_of(id, &Subscription::new("c")), 0);
    let counts = table.get_subscriptions(id).unwrap();
    let mut pairs: Vec<(String, usize)> =
        counts.pairs().into_iter().map(|(s, n)| (s.to_string(), n)).collect();
    pairs.sort();
    assert_eq!(pairs, vec![("a".to_string(), 2), ("b".to_string(), 1)]);
}

#[test]
fn remove_subscription_outcomes() {
    let mut table = SubscriptionTable::new();
    let id = ConnectionId::from_u128(3);
    assert_eq!(
        table.remove_subscription(id, Subscription::new("a")),
        Unsubscribed::NoSubscriptions
    );
    table.add_subscription(id, Subscription::new("a"));
    table.add_subscription(id, Subscription::new("a"));
    table.add_subscription(id, Subscription::new("b"));
    assert_eq!(
        table.remove_subscription(id, Subscription::new("c")),
        Unsubscribed::NotSubscribed
    );
    assert_eq!(
        table.remove_subscription(id, Subscription::new("a")),
        Unsubscribed::Decremented
    );
    assert_eq!(table.count_of(id, &Subscription::new("a")), 1);
    assert_eq!(
        table.remove_subscription(id, Subscription::new("a")),
        Unsubscribed::SubscriptionDropped
    );
    assert_eq!(table.count_of(id, &Subscription::new("a")), 0);
    assert!(table.get_subscriptions(id).is_some());
    assert_eq!(
        table.remove_subscription(id, Subscription::new("b")),
        Unsubscribed::ConnectionDropped
    );
    assert!(table.get_subscriptions(id).is_none());
    assert_eq!(
        table.remove_subscription(id, Subscription::new("b")),
        Unsubscribed::NoSubscriptions
    );
}

#[test]
fn add_then_remove_restores_table() {
    let mut table = SubscriptionTable::new();
    let first = ConnectionId::from_u128(1);
    let second = ConnectionId::from_u128(2);
    table.add_subscription(first, Subscription::new("x"));
    table.add_subscription(second, Subscription::new("x"));
    table.add_subscription(second, Subscription::new("y"));
    let before_first = table.get_subscriptions(first).unwrap().pairs().len();
    table.add_subscription(first, Subscription::new("z"));
    table.remove_subscription(first, Subscription::new("z"));
    assert_eq!(table.get_subscriptions(first).unwrap().pairs().len(), before_first);
    assert_eq!(table.count_of(first, &Subscription::new("x")), 1);
    assert_eq!(table.count_of(first, &Subscription::new("z")), 0);
    let third = ConnectionId::from_u128(3);
    table.add_subscription(third, Subscription::new("x"));
    table.remove_subscription(third, Subscription::new("x"));
    assert!(table.get_subscriptions(third).is_none());
}

#[test]
fn get_subscribers_lists_each_subscriber_once() {
    let mut table = SubscriptionTable::new();
    let a = ConnectionId::from_u128(10);
    let b = ConnectionId::from_u128(20);
    let c = ConnectionId::from_u128(30);
    table.add_subscription(a, Subscription::new("news"));
    table.add_subscription(a, Subscription::new("news"));
    table.add_subscription(b, Subscription::new("sports"));
    table.add_subscription(c, Subscription::new("news"));
    assert_eq!(sorted_values(&table.get_subscribers(Subscription::new("news"))), vec![10, 30]);
    assert_eq!(sorted_values(&table.get_subscribers(Subscription::new("sports"))), vec![20]);
    assert!(table.get_subscribers(Subscription::new("none")).is_empty());
}

#[test]
fn subscribers_after_add_include_new_connection() {
    let mut table = SubscriptionTable::new();
    table.add_subscription(ConnectionId::from_u128(1), Subscription::new("t"));
    table.add_subscription(ConnectionId::from_u128(2), Subscription::new("t"));
    assert_eq!(sorted_values(&table.get_subscribers(Subscription::new("t"))), vec![1, 2]);
}

#[test]
fn remove_all_subscriptions_clears_one_connection() {
    let mut table = SubscriptionTable::new();
    let a = ConnectionId::from_u128(1);
    let b = ConnectionId::from_u128(2);
    table.add_subscription(a, Subscription::new("t"));
    table.add_subscription(a, Subscription::new("u"));
    table.add_subscription(b, Subscription::new("t"));
    let removed = table.remove_all_subscriptions(a).unwrap();
    assert_eq!(removed.pairs().len(), 2);
    assert!(table.get_subscriptions(a).is_none());
    assert_eq!(sorted_values(&table.get_subscribers(Subscription::new("t"))), vec![2]);
    assert!(table.remove_all_subscriptions(a).is_none());
}

#[test]
fn subscription_counts_contains_and_is_empty() {
    let mut table = SubscriptionTable::new();
    let id = ConnectionId::from_u128(4);
    table.add_subscription(id, Subscription::new("a"));
    let counts = table.get_subscriptions(id).unwrap();
    assert!(counts.contains(&Subscription::new("a")));
    assert!(!counts.contains(&Subscription::new("b")));
    assert!(!counts.is_empty());
    assert_eq!(counts.count(&Subscription::new("a")), 1);
    assert_eq!(counts.duplicate().count(&Subscription::new("a")), 1);
}
