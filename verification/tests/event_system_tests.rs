use phira_mp_plugin::error::Error;
use phira_mp_plugin::event_system::{Event, EventBus, EventSubscription};
use std::sync::atomic::{AtomicUsize, Ordering};
use std::sync::{Arc, Mutex};

type Handler = Box<dyn Fn(&Event) -> Result<(), Error>>;

fn object(pairs: &[(&str, &str)]) -> serde_json::Value {
    let mut map = serde_json::Map::new();
    for (k, v) in pairs {
        map.insert(k.to_string(), serde_json::Value::String(v.to_string()));
    }
    serde_json::Value::Object(map)
}

fn counting(counter: &Arc<AtomicUsize>) -> Handler {
    let counter = Arc::clone(counter);
    Box::new(move |_event| {
        counter.fetch_add(1, Ordering::SeqCst);
        Ok(())
    })
}

#[test]
fn test_event_creation() {
    let data = object(&[("key", "value")]);
    let event = Event::new("test_event", data.clone(), "test_source");

    assert_eq!(event.event_type, "test_event");
    assert_eq!(event.data, data);
    assert_eq!(event.source, "test_source");
    assert!(event.timestamp > 0);
}

#[test]
fn test_event_bus_subscription() {
    let mut event_bus: EventBus<Handler> = EventBus::new();

    let handler_called = Arc::new(AtomicUsize::new(0));
    let handler = counting(&handler_called);

    event_bus.subscribe("test_event", handler, "test_plugin").unwrap();

    let data = object(&[]);
    let event = Event::new("test_event", data, "system");
    event_bus.emit(event).unwrap();

    assert_eq!(handler_called.load(Ordering::SeqCst), 1);
}

#[test]
fn test_event_bus_unsubscribe() {
    let mut event_bus: EventBus<Handler> = EventBus::new();

    let handler_called = Arc::new(AtomicUsize::new(0));
    let handler = counting(&handler_called);

    event_bus.subscribe("test_event", handler, "test_plugin").unwrap();
    event_bus.unsubscribe("test_event", "test_plugin").unwrap();

    let data = object(&[]);
    let event = Event::new("test_event", data, "system");
    event_bus.emit(event).unwrap();

    assert_eq!(handler_called.load(Ordering::SeqCst), 0);
}

#[test]
fn one_emit_runs_the_handler_once_and_after_unsubscribing_not_at_all() {
    let mut bus: EventBus<Handler> = EventBus::new();
    let calls = Arc::new(AtomicUsize::new(0));
    bus.subscribe("evt", counting(&calls), "p1").unwrap();
    bus.emit(Event::system("evt", object(&[]))).unwrap();
    assert_eq!(calls.load(Ordering::SeqCst), 1);
    bus.emit(Event::system("other", object(&[]))).unwrap();
    assert_eq!(calls.load(Ordering::SeqCst), 1);
    bus.unsubscribe("evt", "p1").unwrap();
    bus.emit(Event::system("evt", object(&[]))).unwrap();
    assert_eq!(calls.load(Ordering::SeqCst), 1);
    assert!(!bus.has_subscribers("evt"));
}

#[test]
fn handlers_run_in_the_order_of_subscription_and_a_failure_stops_nothing() {
    let mut bus: EventBus<Handler> = EventBus::new();
    let log: Arc<Mutex<Vec<String>>> = Arc::new(Mutex::new(Vec::new()));
    for (name, fails) in [("first", false), ("second", true), ("third", false)] {
        let log = Arc::clone(&log);
        let handler: Handler = Box::new(move |event| {
            log.lock().unwrap().push(format!("{}:{}", name, event.source));
            if fails {
                Err(Error::Event("second handler failed".to_string()))
            } else {
                Ok(())
            }
        });
        bus.subscribe("evt", handler, name).unwrap();
    }
    let skipped = Arc::new(AtomicUsize::new(0));
    bus.subscribe("elsewhere", counting(&skipped), "first").unwrap();

    let outcomes = bus.dispatch(&Event::plugin("evt", object(&[]), "src"));
    assert_eq!(outcomes.len(), 3);
    assert!(outcomes[0].is_ok());
    match &outcomes[1] {
        Err(Error::Event(m)) => assert_eq!(m, "second handler failed"),
        other => panic!("unexpected outcome {:?}", other),
    }
    assert!(outcomes[2].is_ok());
    assert_eq!(
        *log.lock().unwrap(),
        vec!["first:src".to_string(), "second:src".to_string(), "third:src".to_string()]
    );
    assert_eq!(skipped.load(Ordering::SeqCst), 0);
    assert!(bus.dispatch(&Event::system("nobody", object(&[]))).is_empty());
    assert!(bus.emit(Event::system("evt", object(&[]))).is_ok());
    assert_eq!(log.lock().unwrap().len(), 6);
}

#[test]
fn subscriptions_are_listed_and_removed_by_subscriber() {
    let mut bus: EventBus<Handler> = EventBus::new();
    let calls = Arc::new(AtomicUsize::new(0));
    bus.subscribe("a", counting(&calls), "p1").unwrap();
    bus.subscribe("b", counting(&calls), "p2").unwrap();
    bus.subscribe("a", counting(&calls), "p2").unwrap();
    bus.subscribe("a", counting(&calls), "p1").unwrap();
    bus.subscribe("c", counting(&calls), "p1").unwrap();

    assert_eq!(bus.get_event_types(), vec!["a".to_string(), "b".to_string(), "c".to_string()]);
    assert_eq!(
        bus.get_subscribers("a"),
        vec!["p1".to_string(), "p2".to_string(), "p1".to_string()]
    );
    assert!(bus.get_subscribers("zzz").is_empty());
    assert!(bus.has_subscribers("b"));
    assert!(!bus.has_subscribers("zzz"));
    let stats = bus.stats(2);
    assert_eq!(stats.total_event_types, 3);
    assert_eq!(stats.total_subscriptions, 5);
    assert_eq!(stats.broadcast_receivers, 2);

    bus.unsubscribe("a", "p1").unwrap();
    assert_eq!(bus.get_subscribers("a"), vec!["p2".to_string()]);
    assert_eq!(bus.get_subscribers("c"), vec!["p1".to_string()]);
    bus.unsubscribe("a", "nobody").unwrap();
    assert_eq!(bus.stats(0).total_subscriptions, 3);

    bus.unsubscribe_all("p2").unwrap();
    assert_eq!(bus.get_event_types(), vec!["c".to_string()]);
    assert!(!bus.has_subscribers("a"));
    assert!(!bus.has_subscribers("b"));
    bus.emit(Event::system("a", object(&[]))).unwrap();
    bus.emit(Event::system("c", object(&[]))).unwrap();
    assert_eq!(calls.load(Ordering::SeqCst), 1);
    bus.unsubscribe_all("p1").unwrap();
    assert_eq!(bus.stats(0).total_event_types, 0);
    assert_eq!(bus.stats(0).total_subscriptions, 0);
}

#[test]
fn events_carry_what_they_were_made_with() {
    let event = Event::at("t", object(&[("k", "v")]), 42, "s");
    assert_eq!(event.timestamp, 42);
    assert_eq!(event.event_type, "t");
    assert_eq!(event.source, "s");
    assert_eq!(Event::system("t", object(&[])).source, "system");
    assert_eq!(Event::plugin("t", object(&[]), "p").source, "p");
    let subscription = EventSubscription::new("t", 7u8, "p");
    assert_eq!(subscription.event_type, "t");
    assert_eq!(subscription.handler, 7u8);
    assert_eq!(subscription.subscriber, "p");
}
