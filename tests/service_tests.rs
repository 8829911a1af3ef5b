use config_watch::codec::{decode_listener_items, ListenerItem};
use config_watch::key::ConfigKey;
use config_watch::service::{ConfigService, ListenReply, WriteIntent};

fn item(k: &ConfigKey, md5: &str) -> ListenerItem {
    ListenerItem { key: k.clone(), md5: md5.to_string() }
}

#[test]
fn scenario_watch_woken_by_write() {
    let mut svc = ConfigService::new();
    let a = ConfigKey::new("a", "DEFAULT_GROUP", "");
    assert!(svc.publish(&a, "v1", &None).is_empty());
    let f1 = svc.get(&a).unwrap().md5;
    assert_eq!(f1, "6654c734ccab8f440ff0825eb443dc7f");
    let now = 1_000_000;
    let id = match svc.listen(vec![item(&a, &f1)], now + 119500, now) {
        ListenReply::Pending(id) => id,
        _ => panic!("watch should wait"),
    };
    let released = svc.publish(&a, "v2", &None);
    assert_eq!(released.len(), 1);
    assert_eq!(released[0].id, id);
    assert_eq!(released[0].changed, vec![a.clone()]);
    assert!(!svc.on_deadline(id));
}

#[test]
fn scenario_watch_times_out() {
    let mut svc = ConfigService::new();
    let a = ConfigKey::new("a", "DEFAULT_GROUP", "");
    svc.publish(&a, "v1", &None);
    let f1 = svc.get(&a).unwrap().md5;
    let id = match svc.listen(vec![item(&a, &f1)], 200, 100) {
        ListenReply::Pending(id) => id,
        _ => panic!("watch should wait"),
    };
    assert!(svc.on_deadline(id));
    assert!(!svc.on_deadline(id));
    assert!(svc.publish(&a, "v2", &None).is_empty());
}

#[test]
fn stale_watch_answers_at_once() {
    let mut svc = ConfigService::new();
    let a = ConfigKey::new("a", "DEFAULT_GROUP", "");
    let b = ConfigKey::new("b", "DEFAULT_GROUP", "");
    svc.publish(&a, "v2", &None);
    match svc.listen(vec![item(&b, ""), item(&a, "old")], 1000, 0) {
        ListenReply::Changed(keys) => assert_eq!(keys, vec![a.clone()]),
        _ => panic!("change should be reported at once"),
    }
}

#[test]
fn empty_watch_is_refused() {
    let mut svc = ConfigService::new();
    let items = decode_listener_items("");
    assert!(matches!(svc.listen(items, 1000, 0), ListenReply::Empty));
}

#[test]
fn elapsed_deadline_checks_and_returns() {
    let mut svc = ConfigService::new();
    let a = ConfigKey::new("a", "g", "");
    assert!(matches!(svc.listen(vec![item(&a, "")], 0, 5), ListenReply::NoChange));
}

#[test]
fn absent_key_watch_woken_by_first_write() {
    let mut svc = ConfigService::new();
    let a = ConfigKey::new("a", "g", "");
    let id = match svc.listen(vec![item(&a, "")], 1000, 0) {
        ListenReply::Pending(id) => id,
        _ => panic!("watch should wait"),
    };
    let released = svc.publish(&a, "v1", &None);
    assert_eq!(released.len(), 1);
    assert_eq!(released[0].id, id);
}

#[test]
fn delete_wakes_watchers_and_others_stay() {
    let mut svc = ConfigService::new();
    let a = ConfigKey::new("a", "g", "");
    let b = ConfigKey::new("b", "g", "");
    svc.publish(&a, "v1", &None);
    let fa = svc.get(&a).unwrap().md5;
    let wa = match svc.listen(vec![item(&a, &fa)], 1000, 0) {
        ListenReply::Pending(id) => id,
        _ => panic!("watch should wait"),
    };
    let wb = match svc.listen(vec![item(&b, "")], 1000, 0) {
        ListenReply::Pending(id) => id,
        _ => panic!("watch should wait"),
    };
    assert_ne!(wa, wb);
    let (found, released) = svc.remove(&a);
    assert!(found);
    assert_eq!(released.len(), 1);
    assert_eq!(released[0].id, wa);
    assert!(svc.on_deadline(wb));
}

#[test]
fn refused_commit_changes_nothing() {
    let mut svc = ConfigService::new();
    let a = ConfigKey::new("a", "g", "");
    let intent = WriteIntent::Publish { key: a.clone(), content: "v1".to_string(), config_type: None };
    let r = svc.apply_committed(&intent, Err("not leader".to_string()));
    assert_eq!(r.err(), Some("not leader".to_string()));
    assert!(svc.get(&a).is_none());
    let r = svc.apply_committed(&intent, Ok(()));
    assert!(r.unwrap().is_empty());
    assert_eq!(svc.get(&a).unwrap().content, "v1");
    let del = WriteIntent::Remove { key: a.clone() };
    assert!(svc.apply_committed(&del, Ok(())).is_ok());
    assert!(svc.get(&a).is_none());
}
