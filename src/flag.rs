//! Flag descriptors and the registry that holds them.

use vstd::prelude::*;
use crate::value::{render, FlagValue, ValueModel};

verus! {

/// A command-line flag: its declaration and the value parsed for it.
#[derive(Clone, Debug)]
pub struct Flag {
    /// The flag's name, which is also its long option (`--name`).
    pub name: String,
    /// The text shown for the flag in the help message.
    pub description: String,
    /// The default value, which also fixes the flag's type.
    pub default_value: FlagValue,
    /// The value given on the command line, if any.
    pub parsed_value: Option<FlagValue>,
}

/// The help block of a flag: `--NAME=DEFAULT`, a newline, a tab and the description.
pub open spec fn help_text(f: Flag) -> Seq<char> {
    seq!['-', '-'] + f.name@ + seq!['='] + render(f.default_value@) + seq!['\n', '\t']
        + f.description@
}

/// Whether a flag is a boolean one, which also accepts `--noNAME`.
pub open spec fn is_boolean(f: Flag) -> bool {
    f.default_value@ is Bool
}

/// The long option that sets a boolean flag to false.
pub open spec fn negation(name: Seq<char>) -> Seq<char> {
    seq!['n', 'o'] + name
}

/// The view of an optional value.
pub open spec fn option_model(v: Option<FlagValue>) -> Option<ValueModel> {
    match v {
        Some(x) => Some(x@),
        None => None,
    }
}

impl Flag {
    /// A flag with the given declaration and no parsed value.
    pub fn new(name: &str, description: &str, default_value: FlagValue) -> (r: Flag)
        ensures
            r.name@ == name@,
            r.description@ == description@,
            r.default_value == default_value,
            r.parsed_value is None,
    {
        Flag {
            name: String::from_str(name),
            description: String::from_str(description),
            default_value,
            parsed_value: None,
        }
    }

    /// Whether the flag is a boolean one.
    pub fn is_boolean(&self) -> (r: bool)
        ensures
            r == is_boolean(*self),
    {
        self.default_value.is_bool()
    }

    /// The flag's help block: `--NAME=DEFAULT`, a newline, a tab and the description.
    pub fn help_message(&self) -> (r: String)
        ensures
            r@ == help_text(*self),
    {
        proof {
            reveal_strlit("--");
            reveal_strlit("=");
            reveal_strlit("\n\t");
        }
        let mut r = String::from_str("--");
        r.append(self.name.as_str());
        r.append("=");
        let default_text = self.default_value.render();
        r.append(default_text.as_str());
        r.append("\n\t");
        r.append(self.description.as_str());
        r
    }

    /// The value in effect: the parsed one, else the default.
    pub fn value(&self) -> (r: &FlagValue)
        ensures
            *r == (match self.parsed_value {
                Some(v) => v,
                None => self.default_value,
            }),
    {
        match &self.parsed_value {
            Some(v) => v,
            None => &self.default_value,
        }
    }
}

}
