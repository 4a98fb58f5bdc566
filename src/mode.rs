use crate::models::ModeRequest;
use crate::text::{lower_of, lowercase};
use vstd::prelude::*;

verus! {

/// The controller's traffic mode.
#[derive(Clone, Copy, Debug, PartialEq, Eq, Structural)]
pub enum Mode {
    Global,
    Rule,
    Direct,
}

/// A text that names no mode.
#[derive(Debug)]
pub enum ModeError {
    InvalidMode(String),
}

impl Mode {
    /// The name that the controller uses for the mode.
    pub open spec fn spec_name(self) -> Seq<char> {
        match self {
            Mode::Global => "Global"@,
            Mode::Rule => "Rule"@,
            Mode::Direct => "Direct"@,
        }
    }

    /// The name that the controller uses for the mode.
    pub fn name(&self) -> (r: String)
        ensures
            r@ == self.spec_name(),
    {
        match self {
            Mode::Global => "Global".to_owned(),
            Mode::Rule => "Rule".to_owned(),
            Mode::Direct => "Direct".to_owned(),
        }
    }

    /// The mode numbered `number` in the menu: 1 global, 2 rule, 3 direct.
    pub fn from_number(number: usize) -> (r: Option<Mode>)
        ensures
            r == (if number == 1 {
                Some(Mode::Global)
            } else if number == 2 {
                Some(Mode::Rule)
            } else if number == 3 {
                Some(Mode::Direct)
            } else {
                None::<Mode>
            }),
    {
        if number == 1 {
            Some(Mode::Global)
        } else if number == 2 {
            Some(Mode::Rule)
        } else if number == 3 {
            Some(Mode::Direct)
        } else {
            None
        }
    }

    /// Whether the controller, reporting `reported`, is already in this mode.
    pub fn is_current(&self, reported: &str) -> (r: bool)
        ensures
            r == (reported@ == self.spec_name()),
    {
        let name = self.name();
        let given = reported.to_owned();
        given == name
    }

    /// The request body that sets this mode.
    pub fn request(&self) -> (r: ModeRequest)
        ensures
            r.mode@ == self.spec_name(),
    {
        ModeRequest { mode: self.name() }
    }
}

/// The mode that a lower-case text names.
pub open spec fn mode_named(folded: Seq<char>) -> Option<Mode> {
    if folded == "global"@ {
        Some(Mode::Global)
    } else if folded == "rule"@ {
        Some(Mode::Rule)
    } else if folded == "direct"@ {
        Some(Mode::Direct)
    } else {
        None
    }
}

/// The mode that a text already in lower case names, if any.
pub fn mode_from_folded(folded: &str) -> (r: Option<Mode>)
    ensures
        r == mode_named(folded@),
{
    let f = folded.to_owned();
    if f == "global".to_owned() {
        Some(Mode::Global)
    } else if f == "rule".to_owned() {
        Some(Mode::Rule)
    } else if f == "direct".to_owned() {
        Some(Mode::Direct)
    } else {
        None
    }
}

/// Reads a mode name in any case (`global`, `Rule`, `DIRECT`, ...).
pub fn parse_mode(text: &str) -> (r: Result<Mode, ModeError>)
    ensures
        match r {
            Ok(m) => mode_named(lower_of(text@)) == Some(m),
            Err(ModeError::InvalidMode(t)) => mode_named(lower_of(text@)) is None && t@ == text@,
        },
{
    let folded = lowercase(text);
    match mode_from_folded(folded.as_str()) {
        Some(m) => Ok(m),
        None => Err(ModeError::InvalidMode(text.to_owned())),
    }
}

} // verus!
