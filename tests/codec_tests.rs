use config_watch::codec::{
    changed_keys_text, decode_listener_items, encode_changed_keys, encode_listener_items,
    split_text, ListenerItem,
};
use config_watch::key::ConfigKey;

#[test]
fn decode_empty_text_gives_no_items() {
    assert!(decode_listener_items("").is_empty());
}

#[test]
fn decode_reads_tenant_field() {
    let items = decode_listener_items("a\x02g\x02ns\x02f1\x01b\x02g\x02f2\x01");
    assert_eq!(items.len(), 2);
    assert_eq!(items[0].key, ConfigKey::new("a", "g", "ns"));
    assert_eq!(items[0].md5, "f1");
    assert_eq!(items[1].key, ConfigKey::new("b", "g", ""));
    assert_eq!(items[1].md5, "f2");
}

#[test]
fn decode_without_trailing_separator() {
    let items = decode_listener_items("a\x02g\x02f1");
    assert_eq!(items.len(), 1);
    assert_eq!(items[0].md5, "f1");
}

#[test]
fn decode_normalises_public_tenant() {
    let items = decode_listener_items("a\x02g\x02public\x02f\x01");
    assert_eq!(items[0].key.tenant, "");
}

#[test]
fn decode_malformed_list_gives_no_items() {
    assert!(decode_listener_items("a\x02f\x01").is_empty());
    assert!(decode_listener_items("a\x02g\x02f\x01junk\x01").is_empty());
    assert!(decode_listener_items("a\x02b\x02c\x02d\x02e\x01").is_empty());
    assert!(decode_listener_items("\x01\x01").is_empty());
}

#[test]
fn split_text_keeps_empty_pieces() {
    assert_eq!(split_text("a\x01\x01b", '\x01'), vec!["a", "", "b"]);
    assert_eq!(split_text("", '\x01'), vec![""]);
}

#[test]
fn watch_list_round_trip() {
    let items = vec![
        ListenerItem { key: ConfigKey::new("a", "DEFAULT_GROUP", ""), md5: "f1".to_string() },
        ListenerItem { key: ConfigKey::new("b", "g", "ns"), md5: "f2".to_string() },
    ];
    let text = encode_listener_items(&items);
    assert_eq!(text, "a\x02DEFAULT_GROUP\x02f1\x01b\x02g\x02ns\x02f2\x01");
    let back = decode_listener_items(&text);
    assert_eq!(back.len(), 2);
    for (x, y) in back.iter().zip(items.iter()) {
        assert_eq!(x.key, y.key);
        assert_eq!(x.md5, y.md5);
    }
}

#[test]
fn changed_keys_raw_text() {
    let keys = vec![ConfigKey::new("a", "DEFAULT_GROUP", ""), ConfigKey::new("b", "g", "ns")];
    assert_eq!(changed_keys_text(&keys), "a\x02DEFAULT_GROUP\x01b\x02g\x02ns\x01");
    assert_eq!(changed_keys_text(&vec![]), "");
}

#[test]
fn changed_keys_response_body() {
    let keys = vec![ConfigKey::new("a", "DEFAULT_GROUP", ""), ConfigKey::new("b", "g", "ns")];
    assert_eq!(encode_changed_keys(&keys), "a\x02DEFAULT_GROUP\x01b\x02g\x02ns\x01\n");
    let spaced = vec![ConfigKey::new("a b", "g", "")];
    assert_eq!(encode_changed_keys(&spaced), "a b\x02g\x01\n");
}
