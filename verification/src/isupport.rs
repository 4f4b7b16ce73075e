//! What a server announces that it supports.

use vstd::prelude::*;

use crate::string_map::Duplicate;
use crate::text;

verus! {

/// Something that a server supports.
#[derive(Debug)]
#[allow(non_camel_case_types)]
pub enum Parameter {
    /// Lists of users to watch, with the most that a list may hold.
    MONITOR(Option<u16>),
    /// The extended form of `WHO`.
    WHOX,
    /// Something else: the kind that it is known by, if it is known, and its text.
    Other(Option<String>, String),
}

impl Clone for Parameter {
    fn clone(&self) -> (res: Self)
        ensures
            res == *self,
    {
        match self {
            Parameter::MONITOR(limit) => Parameter::MONITOR(*limit),
            Parameter::WHOX => Parameter::WHOX,
            Parameter::Other(kind, text) => Parameter::Other(
                text::copy_opt_text(kind),
                text.clone(),
            ),
        }
    }
}

impl View for Parameter {
    type V = Parameter;

    open spec fn view(&self) -> Parameter {
        *self
    }
}

impl Duplicate for Parameter {
    fn duplicate(&self) -> (copy: Parameter) {
        self.clone()
    }
}

/// The kind under which the extended form of `WHO` is kept.
pub open spec fn whox() -> Seq<char> {
    "WHOX"@
}

/// The kind under which lists of users to watch are kept.
pub open spec fn monitor() -> Seq<char> {
    "MONITOR"@
}

impl Parameter {
    /// The kind under which a parameter is kept; `None` for one that is not kept.
    pub open spec fn known_as(self) -> Option<Seq<char>> {
        match self {
            Parameter::MONITOR(_) => Some(monitor()),
            Parameter::WHOX => Some(whox()),
            Parameter::Other(kind, _) => text::opt_text(kind),
        }
    }

    /// The kind under which a parameter is kept; `None` for one that is not kept.
    pub fn kind(&self) -> (kind: Option<String>)
        ensures
            text::opt_text(kind) == self.known_as(),
    {
        match self {
            Parameter::MONITOR(_) => Some("MONITOR".to_owned()),
            Parameter::WHOX => Some("WHOX".to_owned()),
            Parameter::Other(kind, _) => text::copy_opt_text(kind),
        }
    }
}

/// What one word of an announcement says.
#[derive(Debug)]
pub enum Operation {
    /// The server supports something.
    Add(Parameter),
    /// The server no longer supports something of a kind; `None` for a kind that is not known.
    Remove(Option<String>),
}

/// By what a client knows the answers to a request of its own.
#[derive(Debug)]
pub struct WhoToken {
    pub text: String,
}

impl Clone for WhoToken {
    fn clone(&self) -> (res: Self)
        ensures
            res == *self,
    {
        WhoToken { text: self.text.clone() }
    }
}

/// What a server supports is kept by its kind: the two that this client acts on by their names.
pub proof fn law_known_as(parameter: Parameter)
    ensures
        parameter is WHOX ==> parameter.known_as() == Some("WHOX"@),
        parameter is MONITOR ==> parameter.known_as() == Some("MONITOR"@),
        parameter matches Parameter::Other(kind, _) ==> parameter.known_as() == text::opt_text(kind),
{
}

} // verus!
