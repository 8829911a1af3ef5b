use vstd::prelude::*;

use crate::codec::{decode_listener_items, decode_spec, ListenerItem};
use crate::key::{default_group, normal_tenant, normalize_tenant, owned};

verus! {

/// The first of two optional values that is present: query parameters win
/// over body parameters.
pub open spec fn pick<T>(a: Option<T>, b: Option<T>) -> Option<T> {
    if a is Some {
        a
    } else {
        b
    }
}

pub open spec fn opt_view(o: Option<String>) -> Option<Seq<char>> {
    match o {
        Some(s) => Some(s@),
        None => None,
    }
}

/// Clones the first present value of `a` and `b`.
pub fn select_option_by_clone(a: &Option<String>, b: &Option<String>) -> (r: Option<String>)
    ensures
        r == pick(*a, *b),
{
    match a {
        Some(v) => Some(v.clone()),
        None => match b {
            Some(v) => Some(v.clone()),
            None => None,
        },
    }
}

/// Identifying fields and content of a publish, fetch or delete request, as
/// they arrive (every field optional).
pub struct ConfigWebParams {
    pub data_id: Option<String>,
    pub group: Option<String>,
    pub tenant: Option<String>,
    pub content: Option<String>,
}

/// The fields of a request once defaults are applied.
#[derive(Debug, Clone, Default)]
pub struct ConfigWebConfirmedParam {
    pub data_id: String,
    pub group: String,
    pub tenant: String,
    pub content: String,
}

/// The error returned for a present but empty data id.
pub open spec fn empty_data_id_message() -> Seq<char> {
    "dataId is empty"@
}

impl ConfigWebParams {
    /// Validates the identity of a write: a publish or delete must name a
    /// non-empty data id.
    pub fn check_write_params(&self) -> (r: Result<(), String>)
        ensures
            r is Ok <==> (self.data_id matches Some(d) && d@.len() > 0),
            r matches Err(e) ==> e@ == empty_data_id_message(),
    {
        match &self.data_id {
            Some(v) => {
                if v.as_str().is_empty() {
                    Err(owned("dataId is empty"))
                } else {
                    Ok(())
                }
            },
            None => Err(owned("dataId is empty")),
        }
    }

    /// Merges two parameter sets field by field; `self` wins where both are set.
    pub fn select_option(&self, o: &Self) -> (r: Self)
        ensures
            r.data_id == pick(self.data_id, o.data_id),
            r.group == pick(self.group, o.group),
            r.tenant == pick(self.tenant, o.tenant),
            r.content == pick(self.content, o.content),
    {
        ConfigWebParams {
            data_id: select_option_by_clone(&self.data_id, &o.data_id),
            group: select_option_by_clone(&self.group, &o.group),
            tenant: select_option_by_clone(&self.tenant, &o.tenant),
            content: select_option_by_clone(&self.content, &o.content),
        }
    }

    /// Applies the defaults: a missing group is the default group, a missing
    /// tenant or `"public"` is the empty tenant, missing content is empty.
    /// Fails exactly when a data id is given and empty.
    pub fn to_confirmed_param(&self) -> (r: Result<ConfigWebConfirmedParam, String>)
        ensures
            r is Err <==> (self.data_id matches Some(d) && d@.len() == 0),
            r matches Err(e) ==> e@ == empty_data_id_message(),
            r matches Ok(p) ==> {
                &&& p.data_id@ == (match self.data_id {
                    Some(d) => d@,
                    None => Seq::empty(),
                })
                &&& p.group@ == (match self.group {
                    Some(g) => g@,
                    None => default_group(),
                })
                &&& p.tenant@ == (match self.tenant {
                    Some(t) => normal_tenant(t@),
                    None => Seq::empty(),
                })
                &&& p.content@ == (match self.content {
                    Some(c) => c@,
                    None => Seq::empty(),
                })
            },
    {
        let data_id = match &self.data_id {
            Some(v) => {
                if v.as_str().is_empty() {
                    return Err(owned("dataId is empty"));
                }
                v.clone()
            },
            None => String::new(),
        };
        let group = match &self.group {
            Some(v) => v.clone(),
            None => owned("DEFAULT_GROUP"),
        };
        let tenant = match &self.tenant {
            Some(v) => normalize_tenant(v),
            None => String::new(),
        };
        let content = match &self.content {
            Some(v) => v.clone(),
            None => String::new(),
        };
        Ok(ConfigWebConfirmedParam { data_id, group, tenant, content })
    }
}

/// The body of a watch request: the encoded watch list, if any.
pub struct ListenerParams {
    pub configs: Option<String>,
}

impl ListenerParams {
    /// Merges two watch requests; `self` wins where both are set.
    pub fn select_option(&self, o: &Self) -> (r: Self)
        ensures
            r.configs == pick(self.configs, o.configs),
    {
        ListenerParams { configs: select_option_by_clone(&self.configs, &o.configs) }
    }

    /// Decodes the watch list; a missing list is an empty one.
    pub fn to_items(&self) -> (r: Vec<ListenerItem>)
        ensures
            r@.map_values(|i: ListenerItem| i@) == decode_spec(
                match self.configs {
                    Some(c) => c@,
                    None => Seq::empty(),
                },
            ),
    {
        match &self.configs {
            Some(c) => decode_listener_items(c.as_str()),
            None => decode_listener_items(String::new().as_str()),
        }
    }
}

} // verus!
