use vstd::prelude::*;

use crate::key::owned;

verus! {

/// The format hint of a config, used to choose a response media type.
#[derive(Debug, Clone, Copy, PartialEq, Eq, Structural)]
pub enum ConfigType {
    Text,
    Json,
    Xml,
    Yaml,
    Html,
    Properties,
}

/// The format a hint names; anything unknown is plain text.
pub open spec fn type_of(v: Seq<char>) -> ConfigType {
    if v == "json"@ {
        ConfigType::Json
    } else if v == "xml"@ {
        ConfigType::Xml
    } else if v == "yaml"@ {
        ConfigType::Yaml
    } else if v == "html"@ {
        ConfigType::Html
    } else if v == "properties"@ {
        ConfigType::Properties
    } else {
        ConfigType::Text
    }
}

/// The media type sent for a format.
pub open spec fn media_of(t: ConfigType) -> Seq<char> {
    match t {
        ConfigType::Text => "text/plain; charset=utf-8"@,
        ConfigType::Json => "application/json; charset=utf-8"@,
        ConfigType::Xml => "application/xml; charset=utf-8"@,
        ConfigType::Yaml => "text/yaml; charset=utf-8"@,
        ConfigType::Html => "text/html; charset=utf-8"@,
        ConfigType::Properties => "text/plain; charset=utf-8"@,
    }
}

fn same_text(a: &str, b: &str) -> (r: bool)
    ensures
        r == (a@ == b@),
{
    owned(a) == owned(b)
}

impl ConfigType {
    /// The format a hint names; anything unknown is plain text.
    pub fn new_by_value(v: &str) -> (r: ConfigType)
        ensures
            r == type_of(v@),
    {
        if same_text(v, "json") {
            ConfigType::Json
        } else if same_text(v, "xml") {
            ConfigType::Xml
        } else if same_text(v, "yaml") {
            ConfigType::Yaml
        } else if same_text(v, "html") {
            ConfigType::Html
        } else if same_text(v, "properties") {
            ConfigType::Properties
        } else {
            ConfigType::Text
        }
    }

    /// The media type sent for this format.
    pub fn get_media_type(&self) -> (r: &'static str)
        ensures
            r@ == media_of(*self),
    {
        match self {
            ConfigType::Text => "text/plain; charset=utf-8",
            ConfigType::Json => "application/json; charset=utf-8",
            ConfigType::Xml => "application/xml; charset=utf-8",
            ConfigType::Yaml => "text/yaml; charset=utf-8",
            ConfigType::Html => "text/html; charset=utf-8",
            ConfigType::Properties => "text/plain; charset=utf-8",
        }
    }
}

/// The media type for an optional format hint; none means plain text.
pub fn media_type_for(config_type: &Option<String>) -> (r: &'static str)
    ensures
        r@ == media_of(
            match config_type {
                Some(t) => type_of(t@),
                None => ConfigType::Text,
            },
        ),
{
    match config_type {
        Some(t) => ConfigType::new_by_value(t.as_str()).get_media_type(),
        None => ConfigType::Text.get_media_type(),
    }
}

} // verus!
