use arpeggio::domain_event_bus::InMemoryDomainEventBus;

#[test]
fn subscribers_are_found_by_event_name() {
    let mut bus = InMemoryDomainEventBus::new();
    assert_eq!(bus.add_subscriber("order_placed".to_string()), 0);
    assert_eq!(bus.add_subscriber("cart_emptied".to_string()), 1);
    assert_eq!(bus.add_subscriber("order_placed".to_string()), 2);
    assert_eq!(bus.subscribers_of("order_placed"), vec![0, 2]);
    assert_eq!(bus.subscribers_of("unknown"), Vec::<usize>::new());
}

#[test]
fn dispatch_follows_events_then_subscribers() {
    let mut bus = InMemoryDomainEventBus::new();
    bus.add_subscriber("a".to_string());
    bus.add_subscriber("b".to_string());
    bus.add_subscriber("a".to_string());
    let events = vec!["a".to_string(), "c".to_string(), "b".to_string()];
    assert_eq!(bus.dispatch_plan(&events), vec![(0, 0), (0, 2), (2, 1)]);
    assert!(InMemoryDomainEventBus::new().dispatch_plan(&events).is_empty());
}
