use vstd::prelude::*;

verus! {

/// Mathematical model of a key: `(data_id, group, tenant)`.
pub type KeyModel = (Seq<char>, Seq<char>, Seq<char>);

/// The group used when a request names none.
pub open spec fn default_group() -> Seq<char> {
    "DEFAULT_GROUP"@
}

/// The tenant name that stands for the default namespace.
pub open spec fn public_tenant() -> Seq<char> {
    "public"@
}

/// A tenant as it is stored: `"public"` and the empty string are the same
/// namespace, written as the empty string.
pub open spec fn normal_tenant(t: Seq<char>) -> Seq<char> {
    if t == public_tenant() {
        Seq::empty()
    } else {
        t
    }
}

/// The identity of a configuration item.
#[derive(Debug, Clone, PartialEq, Eq, Hash)]
pub struct ConfigKey {
    pub data_id: String,
    pub group: String,
    pub tenant: String,
}

impl View for ConfigKey {
    type V = KeyModel;

    open spec fn view(&self) -> KeyModel {
        (self.data_id@, self.group@, self.tenant@)
    }
}

/// Copies a string slice into an owned string.
pub fn owned(s: &str) -> (r: String)
    ensures
        r@ == s@,
{
    s.to_owned()
}

/// Normalises a tenant name: `"public"` becomes the empty string.
pub fn normalize_tenant(t: &String) -> (r: String)
    ensures
        r@ == normal_tenant(t@),
{
    proof {
        reveal_strlit("public");
    }
    let public = owned("public");
    if *t == public {
        String::new()
    } else {
        t.clone()
    }
}

impl ConfigKey {
    /// Builds a key; the tenant is normalised.
    pub fn new(data_id: &str, group: &str, tenant: &str) -> (r: ConfigKey)
        ensures
            r@ == (data_id@, group@, normal_tenant(tenant@)),
    {
        let t = owned(tenant);
        ConfigKey { data_id: owned(data_id), group: owned(group), tenant: normalize_tenant(&t) }
    }

    /// Copies the key.
    pub fn copy(&self) -> (r: ConfigKey)
        ensures
            r@ == self@,
    {
        ConfigKey { data_id: self.data_id.clone(), group: self.group.clone(), tenant: self.tenant.clone() }
    }

    /// Exact triple equality.
    pub fn same(&self, o: &ConfigKey) -> (r: bool)
        ensures
            r == (self@ == o@),
    {
        self.data_id == o.data_id && self.group == o.group && self.tenant == o.tenant
    }
}

/// Two tenant spellings that name the default namespace give the same key.
pub proof fn lemma_public_tenant_is_default(d: Seq<char>, g: Seq<char>)
    ensures
        (d, g, normal_tenant(public_tenant())) == (d, g, normal_tenant(Seq::<char>::empty())),
{
    reveal_strlit("public");
    assert(Seq::<char>::empty() != public_tenant()) by {
        assert(public_tenant().len() == 6);
    }
}

} // verus!
