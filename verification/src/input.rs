//! The values that reach an agent's input port.

use vstd::prelude::*;
use crate::error::{AgentError, ErrorView};

verus! {

/// What an agent reads of the value on one of its input ports: a string,
/// an array (each item a string or not), or anything else.
#[derive(Debug)]
pub enum InputValue {
    Text(String),
    List(Vec<Option<String>>),
    Other,
}

/// The message for an input that had to be a string.
pub open spec fn not_a_string_message(port: Seq<char>) -> Seq<char> {
    "Input value for '"@ + port + "' must be a string"@
}

/// Builds `prefix + middle + suffix`.
pub fn concat3(prefix: &str, middle: &str, suffix: &str) -> (s: String)
    ensures
        s@ == prefix@ + middle@ + suffix@,
{
    let mut s = String::from_str(prefix);
    s.append(middle);
    s.append(suffix);
    s
}

/// The string on a port that takes only strings; any other value is refused
/// with `InvalidValue("Input value for '<port>' must be a string")`.
pub fn require_string(value: &InputValue, port: &str) -> (r: Result<String, AgentError>)
    ensures
        match value {
            InputValue::Text(s) => r matches Ok(t) && t@ == s@,
            _ => r matches Err(e) && e@ == ErrorView::InvalidValue(not_a_string_message(port@)),
        },
{
    match value {
        InputValue::Text(s) => Ok(s.clone()),
        _ => {
            proof {
                reveal_strlit("Input value for '");
                reveal_strlit("' must be a string");
            }
            Err(AgentError::InvalidValue(concat3("Input value for '", port, "' must be a string")))
        },
    }
}

} // verus!
