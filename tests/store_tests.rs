use config_watch::key::ConfigKey;
use config_watch::media::{media_type_for, ConfigType};
use config_watch::store::ConfigStore;

#[test]
fn set_then_get_gives_content_and_digest() {
    let mut st = ConfigStore::new();
    let k = ConfigKey::new("a", "DEFAULT_GROUP", "");
    let e = st.set(&k, "v1", &None);
    assert_eq!(e.md5, "6654c734ccab8f440ff0825eb443dc7f");
    assert_eq!(e.version, 1);
    let g = st.get(&k).unwrap();
    assert_eq!(g.content, "v1");
    assert_eq!(g.md5, "6654c734ccab8f440ff0825eb443dc7f");
    assert_eq!(st.fingerprint(&k), "6654c734ccab8f440ff0825eb443dc7f");
}

#[test]
fn second_write_replaces_and_bumps_version() {
    let mut st = ConfigStore::new();
    let k = ConfigKey::new("a", "g", "");
    st.set(&k, "v1", &None);
    let e = st.set(&k, "v2", &Some("json".to_string()));
    assert_eq!(e.version, 2);
    assert_eq!(e.md5, "1b267619c4812cc46ee281747884ca50");
    let g = st.get(&k).unwrap();
    assert_eq!(g.content, "v2");
    assert_eq!(g.config_type, Some("json".to_string()));
}

#[test]
fn empty_content_has_its_digest() {
    let mut st = ConfigStore::new();
    let k = ConfigKey::new("a", "g", "");
    assert_eq!(st.set(&k, "", &None).md5, "d41d8cd98f00b204e9800998ecf8427e");
}

#[test]
fn absent_key_has_no_entry_and_empty_fingerprint() {
    let st = ConfigStore::new();
    let k = ConfigKey::new("a", "g", "");
    assert!(st.get(&k).is_none());
    assert_eq!(st.fingerprint(&k), "");
}

#[test]
fn delete_reports_whether_an_entry_existed() {
    let mut st = ConfigStore::new();
    let k = ConfigKey::new("a", "g", "");
    let other = ConfigKey::new("b", "g", "");
    st.set(&k, "v1", &None);
    st.set(&other, "x", &None);
    assert!(st.delete(&k));
    assert!(st.get(&k).is_none());
    assert!(!st.delete(&k));
    assert_eq!(st.get(&other).unwrap().content, "x");
}

#[test]
fn keys_differ_by_tenant() {
    let mut st = ConfigStore::new();
    st.set(&ConfigKey::new("a", "g", "ns"), "1", &None);
    st.set(&ConfigKey::new("a", "g", ""), "2", &None);
    assert_eq!(st.get(&ConfigKey::new("a", "g", "ns")).unwrap().content, "1");
    assert_eq!(st.get(&ConfigKey::new("a", "g", "public")).unwrap().content, "2");
}

#[test]
fn media_types_by_format() {
    assert_eq!(ConfigType::new_by_value("json"), ConfigType::Json);
    assert_eq!(ConfigType::new_by_value("yaml"), ConfigType::Yaml);
    assert_eq!(ConfigType::new_by_value("weird"), ConfigType::Text);
    assert_eq!(media_type_for(&Some("json".to_string())), "application/json; charset=utf-8");
    assert_eq!(media_type_for(&Some("xml".to_string())), "application/xml; charset=utf-8");
    assert_eq!(media_type_for(&None), "text/plain; charset=utf-8");
}
