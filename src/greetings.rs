//! The greeting that the greetings service replies with.
use vstd::prelude::*;
use vstd::string::StringExecFns;

verus! {

/// The greetings service.
#[derive(Debug, Default)]
pub struct DefaultGreetingsServer {}

impl DefaultGreetingsServer {
    /// The reply to a greeting request from `name`: `Hello <name>!`.
    pub fn say_hello(&self, name: &str) -> (r: String)
        ensures
            r@ == "Hello "@ + name@ + "!"@,
    {
        let mut message = String::from_str("Hello ");
        message.append(name);
        message.append("!");
        message
    }
}

} // verus!
