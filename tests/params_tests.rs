use config_watch::params::{ConfigWebParams, ListenerParams};

fn s(v: &str) -> Option<String> {
    Some(v.to_string())
}

fn params(d: Option<String>, g: Option<String>, t: Option<String>, c: Option<String>) -> ConfigWebParams {
    ConfigWebParams { data_id: d, group: g, tenant: t, content: c }
}

#[test]
fn select_option_prefers_query_values() {
    let q = params(s("a"), None, s("t1"), None);
    let b = params(s("b"), s("g"), s("t2"), s("body"));
    let r = q.select_option(&b);
    assert_eq!(r.data_id, s("a"));
    assert_eq!(r.group, s("g"));
    assert_eq!(r.tenant, s("t1"));
    assert_eq!(r.content, s("body"));
}

#[test]
fn confirmed_param_applies_defaults() {
    let p = params(s("a"), None, None, None).to_confirmed_param().unwrap();
    assert_eq!(p.data_id, "a");
    assert_eq!(p.group, "DEFAULT_GROUP");
    assert_eq!(p.tenant, "");
    assert_eq!(p.content, "");
}

#[test]
fn confirmed_param_keeps_given_values() {
    let p = params(s("a"), s("g1"), s("ns"), s("v")).to_confirmed_param().unwrap();
    assert_eq!(p.data_id, "a");
    assert_eq!(p.group, "g1");
    assert_eq!(p.tenant, "ns");
    assert_eq!(p.content, "v");
}

#[test]
fn confirmed_param_rejects_empty_data_id() {
    let r = params(s(""), None, None, None).to_confirmed_param();
    assert_eq!(r.unwrap_err(), "dataId is empty");
}

#[test]
fn confirmed_param_missing_data_id_is_empty() {
    let p = params(None, None, None, None).to_confirmed_param().unwrap();
    assert_eq!(p.data_id, "");
}

#[test]
fn public_tenant_is_the_default_namespace() {
    let a = params(s("a"), None, s("public"), None).to_confirmed_param().unwrap();
    let b = params(s("a"), None, s(""), None).to_confirmed_param().unwrap();
    let c = params(s("a"), None, None, None).to_confirmed_param().unwrap();
    assert_eq!(a.tenant, "");
    assert_eq!(a.tenant, b.tenant);
    assert_eq!(b.tenant, c.tenant);
}

#[test]
fn listener_params_merge_and_decode() {
    let q = ListenerParams { configs: None };
    let b = ListenerParams { configs: s("a\x02DEFAULT_GROUP\x02f1\x01") };
    let m = q.select_option(&b);
    assert_eq!(m.configs, s("a\x02DEFAULT_GROUP\x02f1\x01"));
    let items = m.to_items();
    assert_eq!(items.len(), 1);
    assert_eq!(items[0].key.data_id, "a");
    assert_eq!(items[0].key.group, "DEFAULT_GROUP");
    assert_eq!(items[0].key.tenant, "");
    assert_eq!(items[0].md5, "f1");
}

#[test]
fn listener_params_missing_list_is_empty() {
    let p = ListenerParams { configs: None };
    assert!(p.to_items().is_empty());
}

#[test]
fn write_needs_a_data_id() {
    assert_eq!(params(None, None, None, None).check_write_params().unwrap_err(), "dataId is empty");
    assert_eq!(params(s(""), None, None, None).check_write_params().unwrap_err(), "dataId is empty");
    assert!(params(s("a"), None, None, None).check_write_params().is_ok());
}

#[test]
fn confirmed_param_default_is_empty() {
    let p = config_watch::params::ConfigWebConfirmedParam::default();
    assert_eq!(p.data_id, "");
    assert_eq!(p.group, "");
}
