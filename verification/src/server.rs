//! Where the management plane listens.
use vstd::prelude::*;

use crate::text::{chars_of, owned, string_of, trim};

verus! {

/// The truth value that a document holds under a key of a table, if it holds
/// one there.
pub uninterp spec fn toml_truth(text: Seq<char>, table: Seq<char>, key: Seq<char>) -> Option<bool>;

/// `str::parse` into a `toml::Table`, `Table::get`, `Value::as_table` and
/// `Value::as_bool`: the truth value under a key of a table. It depends on the
/// document and the keys alone.
#[verifier::external_body]
fn truth_in(text: &str, table: &str, key: &str) -> (r: Option<bool>)
    ensures
        r == toml_truth(text@, table@, key@),
{
    text.parse::<toml::Table>().ok()?.get(table)?.as_table()?.get(key)?.as_bool()
}

/// The text that a document holds under a key of a table, if it holds one
/// there.
pub uninterp spec fn toml_words(text: Seq<char>, table: Seq<char>, key: Seq<char>) -> Option<Seq<char>>;

/// `str::parse` into a `toml::Table`, `Table::get`, `Value::as_table` and
/// `Value::as_str`: the text under a key of a table. It depends on the document
/// and the keys alone.
#[verifier::external_body]
fn words_in(text: &str, table: &str, key: &str) -> (r: Option<String>)
    ensures
        crate::text::text_of(r) == toml_words(text@, table@, key@),
{
    Some(text.parse::<toml::Table>().ok()?.get(table)?.as_table()?.get(key)?.as_str()?.to_string())
}

/// Where to listen, given what the configuration says of it and what the
/// environment says. Nowhere is an empty text.
pub open spec fn bind_of(enabled: Option<bool>, bind: Option<Seq<char>>, env: Option<Seq<char>>) -> Seq<char> {
    if enabled == Some(false) {
        Seq::empty()
    } else if bind is Some && crate::text::trimmed(bind->0).len() > 0 {
        crate::text::trimmed(bind->0)
    } else {
        match env {
            Some(e) => e,
            None => "127.0.0.1:8080"@,
        }
    }
}

/// Where to listen: what the configuration says comes first, then what the
/// environment says, then the loopback address.
pub fn choose_bind(enabled: Option<bool>, bind: &Option<String>, env: &Option<String>) -> (r: String)
    ensures
        r@ == bind_of(enabled, crate::text::text_of(*bind), crate::text::text_of(*env)),
{
    if let Some(false) = enabled {
        return String::new();
    }
    if let Some(b) = bind {
        let chars = chars_of(b.as_str());
        let t = trim(&chars);
        if t.len() > 0 {
            return string_of(t);
        }
    }
    match env {
        Some(e) => e.clone(),
        None => owned("127.0.0.1:8080"),
    }
}

/// Where to listen, given the configuration as far as there is one that could
/// be read, and the environment.
pub fn api_bind(config: &Option<String>, env: &Option<String>) -> (r: String)
    ensures
        r@ == match *config {
            Some(text) => bind_of(
                toml_truth(text@, "api"@, "enabled"@),
                toml_words(text@, "api"@, "bind"@),
                crate::text::text_of(*env),
            ),
            None => bind_of(None, None, crate::text::text_of(*env)),
        },
{
    match config {
        Some(text) => {
            let enabled = truth_in(text.as_str(), "api", "enabled");
            let bind = words_in(text.as_str(), "api", "bind");
            choose_bind(enabled, &bind, env)
        },
        None => choose_bind(None, &None, env),
    }
}

/// Whether there is a management plane: not where it listens nowhere.
pub fn api_enabled(bind: &str) -> (r: bool)
    ensures
        r == (crate::text::trimmed(bind@).len() > 0),
{
    let chars = chars_of(bind);
    trim(&chars).len() > 0
}

/// Where the interface is bound: nowhere where it is switched off; where it is
/// configured to be, without white space around it; otherwise where the
/// environment says, or on the machine itself.
pub proof fn where_the_interface_is_bound(
    enabled: Option<bool>,
    bind: Option<Seq<char>>,
    env: Option<Seq<char>>,
)
    ensures
        enabled == Some(false) ==> bind_of(enabled, bind, env).len() == 0,
        enabled != Some(false) && bind is Some && crate::text::trimmed(bind->0).len() > 0 ==> bind_of(
            enabled,
            bind,
            env,
        ) == crate::text::trimmed(bind->0),
        enabled != Some(false) && (bind is None || crate::text::trimmed(bind->0).len() == 0) && env is Some ==> bind_of(
            enabled,
            bind,
            env,
        ) == env->0,
        enabled != Some(false) && (bind is None || crate::text::trimmed(bind->0).len() == 0) && env is None ==> bind_of(
            enabled,
            bind,
            env,
        ) == "127.0.0.1:8080"@,
{
}

} // verus!
