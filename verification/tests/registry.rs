use std::cell::RefCell;
use std::rc::Rc;

use rust_event_listener::EmitError;
use rust_event_listener::EventListener;
use rust_event_listener::RegistrationError;
use rust_event_listener::listener::Callback;
use rust_event_listener::listener::ListenerTypes;

/// Records every invocation it receives, tagged with its own id.
struct Recorder {
    id: u32,
    log: Rc<RefCell<Vec<(u32, String, String)>>>,
}

impl Callback for Recorder {
    fn call(&self, name: String, data: String) {
        self.log.borrow_mut().push((self.id, name, data));
    }
}

fn recorder(id: u32, log: &Rc<RefCell<Vec<(u32, String, String)>>>) -> Box<Recorder> {
    Box::new(Recorder { id, log: Rc::clone(log) })
}

fn new_log() -> Rc<RefCell<Vec<(u32, String, String)>>> {
    Rc::new(RefCell::new(Vec::new()))
}

#[test]
fn register_then_emit_invokes_once() {
    let log = new_log();
    let mut reg = EventListener::new();
    assert!(reg.on("test", recorder(1, &log)).is_ok());
    assert!(reg.emit("test", "payload".to_string()).is_ok());
    let entries = log.borrow().clone();
    assert_eq!(entries, vec![(1, "test".to_string(), "payload".to_string())]);
}

#[test]
fn once_listener_fires_only_on_first_emit() {
    let log = new_log();
    let mut reg = EventListener::new();
    assert!(reg.once("tick", recorder(7, &log)).is_ok());
    assert!(reg.emit("tick", "first".to_string()).is_ok());
    assert!(reg.emit("tick", "second".to_string()).is_ok());
    let entries = log.borrow().clone();
    assert_eq!(entries, vec![(7, "tick".to_string(), "first".to_string())]);
}

#[test]
fn listeners_fire_in_registration_order() {
    let log = new_log();
    let mut reg = EventListener::new();
    assert!(reg.on("go", recorder(1, &log)).is_ok());
    assert!(reg.on("go", recorder(2, &log)).is_ok());
    assert!(reg.emit("go", "d".to_string()).is_ok());
    let ids: Vec<u32> = log.borrow().iter().map(|e| e.0).collect();
    assert_eq!(ids, vec![1, 2]);
}

#[test]
fn cap_rejects_registration_on_full_event() {
    let log = new_log();
    let mut reg = EventListener::new();
    reg.set_max_listeners(1);
    assert!(reg.on("n", recorder(1, &log)).is_ok());
    assert_eq!(reg.on("n", recorder(2, &log)), Err(RegistrationError::MaxListenersExceeded));
    assert_eq!(reg.once("n", recorder(3, &log)), Err(RegistrationError::MaxListenersExceeded));
    assert_eq!(reg.get_listeners("n").unwrap().len(), 1);
}

#[test]
fn cap_counts_each_event_separately() {
    let log = new_log();
    let mut reg = EventListener::new();
    reg.set_max_listeners(1);
    assert!(reg.on("a", recorder(1, &log)).is_ok());
    assert!(reg.on("b", recorder(2, &log)).is_ok());
    assert_eq!(reg.get_listeners("a").unwrap().len(), 1);
    assert_eq!(reg.get_listeners("b").unwrap().len(), 1);
}

#[test]
fn uncapped_mode_permits_unbounded_registrations() {
    let log = new_log();
    let mut reg = EventListener::new();
    reg.set_max_listeners(0);
    for id in 0..100 {
        assert!(reg.on("burst", recorder(id, &log)).is_ok());
    }
    assert_eq!(reg.get_listeners("burst").unwrap().len(), 100);
}

#[test]
fn unknown_event_fails_emit_and_lookup() {
    let mut reg = EventListener::new();
    assert_eq!(reg.emit("nope", "p".to_string()), Err(EmitError::UnknownEvent));
    assert!(reg.get_listeners("nope").is_err());
}

#[test]
fn remove_all_listeners_keeps_the_entry() {
    let log = new_log();
    let mut reg = EventListener::new();
    assert!(reg.on("n", recorder(1, &log)).is_ok());
    assert!(reg.remove_all_listeners("n"));
    assert!(reg.emit("n", "p".to_string()).is_ok());
    assert!(log.borrow().is_empty());
    assert_eq!(reg.get_listeners("n").unwrap().len(), 0);
    assert!(!reg.remove_all_listeners("neverSeen"));
}

#[test]
fn listener_added_after_an_emit_fires_only_later() {
    let log = new_log();
    let mut reg = EventListener::new();
    assert!(reg.on("n", recorder(1, &log)).is_ok());
    assert!(reg.emit("n", "p1".to_string()).is_ok());
    assert!(reg.on("n", recorder(2, &log)).is_ok());
    assert!(reg.emit("n", "p2".to_string()).is_ok());
    let entries = log.borrow().clone();
    assert_eq!(
        entries,
        vec![
            (1, "n".to_string(), "p1".to_string()),
            (1, "n".to_string(), "p2".to_string()),
            (2, "n".to_string(), "p2".to_string()),
        ]
    );
}

#[test]
fn fresh_registry_reports_reserved_entries() {
    let reg = EventListener::new();
    let names = reg.get_event_names();
    assert_eq!(names, vec!["newListener".to_string(), "removeListener".to_string()]);
    assert_eq!(reg.get_listeners("newListener").unwrap().len(), 0);
    assert_eq!(reg.get_listeners("removeListener").unwrap().len(), 0);
    let events = reg.get_events();
    assert_eq!(events.len(), 2);
    assert_eq!(events[0].name, "newListener");
    assert!(events[0].data.is_empty());
}

#[test]
fn max_listeners_is_configurable_and_defaults_to_ten() {
    let mut reg = EventListener::new();
    assert_eq!(reg.get_max_listeners(), 10);
    reg.set_max_listeners(3);
    assert_eq!(reg.get_max_listeners(), 3);
}

#[test]
fn default_cap_rejects_eleventh_listener() {
    let log = new_log();
    let mut reg = EventListener::new();
    for id in 0..10 {
        assert!(reg.on("full", recorder(id, &log)).is_ok());
    }
    assert_eq!(reg.on("full", recorder(10, &log)), Err(RegistrationError::MaxListenersExceeded));
}

#[test]
fn mixed_once_and_on_listeners() {
    let log = new_log();
    let mut reg = EventListener::new();
    assert!(reg.on("n", recorder(1, &log)).is_ok());
    assert!(reg.once("n", recorder(2, &log)).is_ok());
    assert!(reg.emit("n", "p1".to_string()).is_ok());
    assert!(reg.emit("n", "p2".to_string()).is_ok());
    let entries = log.borrow().clone();
    assert_eq!(
        entries,
        vec![
            (1, "n".to_string(), "p1".to_string()),
            (2, "n".to_string(), "p1".to_string()),
            (1, "n".to_string(), "p2".to_string()),
        ]
    );
    let left = reg.get_listeners("n").unwrap();
    assert_eq!(left.len(), 1);
    assert_eq!(left[0].rtype, ListenerTypes::On);
}

#[test]
fn empty_name_and_empty_payload_are_ordinary_values() {
    let log = new_log();
    let mut reg = EventListener::new();
    assert!(reg.on("", recorder(1, &log)).is_ok());
    assert!(reg.emit("", String::new()).is_ok());
    let entries = log.borrow().clone();
    assert_eq!(entries, vec![(1, String::new(), String::new())]);
}

#[test]
fn second_registration_appends_instead_of_duplicating_the_entry() {
    let log = new_log();
    let mut reg = EventListener::new();
    assert!(reg.on("n", recorder(1, &log)).is_ok());
    assert!(reg.on("n", recorder(2, &log)).is_ok());
    assert_eq!(reg.get_event_names().len(), 3);
    assert_eq!(reg.get_listeners("n").unwrap().len(), 2);
}

#[test]
fn registration_creates_the_entry_lazily() {
    let log = new_log();
    let mut reg = EventListener::new();
    assert_eq!(reg.get_event_names().len(), 2);
    assert!(reg.once("lazy", recorder(1, &log)).is_ok());
    let names = reg.get_event_names();
    assert_eq!(names.len(), 3);
    assert_eq!(names[2], "lazy".to_string());
}
