//! Failure taxonomy for skill operations.

use vstd::prelude::*;
use vstd::string::StringExecFns;

verus! {

/// The three failure kinds: a malformed document, a semantic rule failure,
/// and an I/O failure (carried as the error's text).
#[derive(Debug)]
pub enum SkillError {
    Parse(String),
    Validation { message: String, errors: Vec<String> },
    Io(String),
}

/// Mathematical form of a `SkillError`.
pub enum SkillErrorV {
    Parse(Seq<char>),
    Validation { message: Seq<char>, errors: Seq<Seq<char>> },
    Io(Seq<char>),
}

impl View for SkillError {
    type V = SkillErrorV;

    open spec fn view(&self) -> SkillErrorV {
        match self {
            SkillError::Parse(m) => SkillErrorV::Parse(m@),
            SkillError::Validation { message, errors } => (SkillErrorV::Validation {
                message: message@,
                errors: errors.deep_view(),
            }),
            SkillError::Io(m) => SkillErrorV::Io(m@),
        }
    }
}

/// The single human-readable message of an error, as its display form.
pub open spec fn spec_message(e: SkillErrorV) -> Seq<char> {
    match e {
        SkillErrorV::Parse(m) => m,
        SkillErrorV::Validation { message, .. } => message,
        SkillErrorV::Io(m) => "IO error: "@ + m,
    }
}

impl SkillError {
    /// Create a new parse error.
    pub fn parse(message: String) -> (r: Self)
        ensures
            r@ == SkillErrorV::Parse(message@),
    {
        SkillError::Parse(message)
    }

    /// Create a new validation error with a single message.
    pub fn validation(message: String) -> (r: Self)
        ensures
            r@ == (SkillErrorV::Validation { message: message@, errors: seq![message@] }),
    {
        let errors = vec![message.clone()];
        assert(errors.deep_view() =~= seq![message@]);
        SkillError::Validation { message, errors }
    }

    /// Create a new validation error with multiple error messages.
    pub fn validation_multiple(message: String, errors: Vec<String>) -> (r: Self)
        ensures
            r@ == (SkillErrorV::Validation { message: message@, errors: errors.deep_view() }),
    {
        SkillError::Validation { message, errors }
    }

    /// The list of validation errors, if this is a validation error.
    pub fn errors(&self) -> (r: Option<&Vec<String>>)
        ensures
            match r {
                Some(v) => self@ matches SkillErrorV::Validation { errors, .. } && v.deep_view()
                    == errors,
                None => !(self@ is Validation),
            },
    {
        match self {
            SkillError::Validation { errors, .. } => Some(errors),
            _ => None,
        }
    }

    /// The error's message, as its display form would show it.
    pub fn message(&self) -> (r: String)
        ensures
            r@ == spec_message(self@),
    {
        match self {
            SkillError::Parse(m) => m.clone(),
            SkillError::Validation { message, .. } => message.clone(),
            SkillError::Io(m) => {
                let mut s = String::from_str("IO error: ");
                s.append(m.as_str());
                s
            },
        }
    }
}

} // verus!
