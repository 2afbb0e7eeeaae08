//! A configuration file's text read as a TOML document, by the `toml` crate.
use vstd::prelude::*;
use crate::value::{value_get, value_view, vget, ConfigValue, ValueView};

verus! {

#[verifier::external_type_specification]
#[verifier::external_body]
pub struct ExTomlValue(toml::Value);

/// The table a text holds as a TOML document, as the library holds values;
/// none where the `toml` crate refuses the text.
pub uninterp spec fn toml_document(text: Seq<char>) -> Option<ValueView>;

pub open spec fn opt_value_view(v: Option<ConfigValue>) -> Option<ValueView> {
    match v {
        Some(x) => Some(value_view(x)),
        None => None,
    }
}

/// `FromStr` of `toml::Table`: parses a document. Claimed: the outcome
/// depends on the text alone (named [`toml_document`]), and a document is a
/// table.
#[verifier::external_body]
fn parse_toml(text: &str) -> (r: Option<ConfigValue>)
    ensures
        opt_value_view(r) == toml_document(text@),
        r matches Some(v) ==> v is Table,
{
    match text.parse::<toml::Table>() {
        Ok(t) => Some(from_toml(&toml::Value::Table(t))),
        Err(_) => None,
    }
}

/// A `toml::Value` as the library holds it, variant for variant: floats,
/// date-times, arrays and tables keep the text `toml`'s `Display` writes for
/// them. Nothing is claimed of it beyond what [`parse_toml`] states.
#[verifier::external_body]
fn from_toml(v: &toml::Value) -> ConfigValue {
    match v {
        toml::Value::Boolean(b) => ConfigValue::Boolean(*b),
        toml::Value::Integer(i) => ConfigValue::Integer(*i),
        toml::Value::Float(_) => ConfigValue::Float(v.to_string()),
        toml::Value::String(s) => ConfigValue::Text(s.clone()),
        toml::Value::Datetime(d) => ConfigValue::Datetime(d.to_string()),
        toml::Value::Array(a) => ConfigValue::Array(a.iter().map(from_toml).collect(), v.to_string()),
        toml::Value::Table(t) => ConfigValue::Table(t.iter().map(|(k, x)| (k.clone(), from_toml(x))).collect(), v.to_string()),
    }
}

/// Why a configuration's text cannot be used.
pub enum LoadError {
    /// The text is not a TOML document.
    Parse,
    /// The document sets `lock = true` and locked configurations are refused.
    Locked,
}

/// A document is locked when its `lock` key holds `true`.
pub open spec fn is_locked(doc: ValueView) -> bool {
    vget(doc, "lock"@) == Some(ValueView::Boolean(true))
}

/// Reads a configuration file's text: its TOML document, refused when it
/// does not parse, or when it is locked and `lock_check` is set.
pub fn load_config_text(text: &str, lock_check: bool) -> (r: Result<ConfigValue, LoadError>)
    ensures
        toml_document(text@) is None ==> r matches Err(LoadError::Parse),
        toml_document(text@) matches Some(doc) ==> if lock_check && is_locked(doc) {
            r matches Err(LoadError::Locked)
        } else {
            r matches Ok(c) && value_view(c) == doc
        },
{
    let doc = match parse_toml(text) {
        Some(d) => d,
        None => return Err(LoadError::Parse),
    };
    if lock_check {
        let locked = match value_get(&doc, "lock") {
            Some(ConfigValue::Boolean(b)) => *b,
            _ => false,
        };
        if locked {
            return Err(LoadError::Locked);
        }
    }
    Ok(doc)
}

} // verus!
