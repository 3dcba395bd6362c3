//! The error taxonomy of the compiler. Every parse or validation failure
//! carries the name of the offending source (a piece file or an instrument
//! definition) and, where one applies, the zero-based line number.
use vstd::prelude::*;

verus! {

/// A failure while parsing or validating a piece description or an
/// instrument definition. Each variant carries the source name and,
/// where it applies, the zero-based line number of the fault.
#[derive(Debug, Clone)]
pub enum ParseError {
    /// A `#`-line declared a mode that is not recognized.
    InvalidMode(String, usize),
    /// A data line appeared before any mode was declared.
    NoModeDeclared(String, usize),
    /// A steady-state spectral line was malformed.
    InvalidSound(String, usize),
    /// The finished definition was incomplete: no component, no positive
    /// reverb time, or an out-of-range volume.
    ModeNotHit(String),
    /// A recognized key appeared without its value.
    KeyWithoutValue(String, usize),
    /// A value was missing, malformed, or out of its allowed range.
    InvalidValue(String, usize),
    /// A note started earlier than a note already scheduled.
    InvalidNoteOrder(String, usize),
    /// A key that this section does not recognize.
    InvalidKey(String, usize),
    /// A fault that fits no more precise description.
    Unknown(String, usize),
    /// The piece header ended without instruments, tempo, or music bounds.
    IncompleteHeader(String),
}

/// The message a `ParseError` describes itself with: the kind of
/// source, its name, the line where one applies, and a sentence naming
/// the fault.
pub open spec fn spec_message(e: ParseError) -> Seq<char> {
    match e {
        ParseError::InvalidMode(n, l) => "Instrument "@ + n@ + " line "@
            + crate::text::spec_u64_chars(l as int) + ": Invalid mode."@,
        ParseError::NoModeDeclared(n, l) => "Instrument "@ + n@ + " line "@
            + crate::text::spec_u64_chars(l as int) + ": No mode declared."@,
        ParseError::InvalidSound(n, l) => "Instrument "@ + n@ + " line "@
            + crate::text::spec_u64_chars(l as int) + ": Invalid sound format."@,
        ParseError::ModeNotHit(n) => "File "@ + n@ + ": Not all modes were described."@,
        ParseError::KeyWithoutValue(n, l) => "Instrument "@ + n@ + " line "@
            + crate::text::spec_u64_chars(l as int) + ": Key given without value."@,
        ParseError::InvalidValue(n, l) => "Instrument "@ + n@ + " line "@
            + crate::text::spec_u64_chars(l as int) + ": An invalid value was encountered."@,
        ParseError::InvalidNoteOrder(n, l) => "Instrument "@ + n@ + " line "@
            + crate::text::spec_u64_chars(l as int) + ": Invalid note order."@,
        ParseError::InvalidKey(n, l) => "Instrument "@ + n@ + " line "@
            + crate::text::spec_u64_chars(l as int) + ": Key is invalid."@,
        ParseError::Unknown(n, l) => "Instrument "@ + n@ + " line "@
            + crate::text::spec_u64_chars(l as int) + ": Unknown error."@,
        ParseError::IncompleteHeader(n) => "File "@ + n@ + ": Incomplete header."@,
    }
}

impl ParseError {
    /// Describe the error in one line, with the source name and, where
    /// one applies, the zero-based line number of the fault.
    pub fn message(&self) -> (r: String)
        ensures
            r@ == spec_message(*self),
    {
        match self {
            ParseError::InvalidMode(n, l) => located(n, *l, ": Invalid mode."),
            ParseError::NoModeDeclared(n, l) => located(n, *l, ": No mode declared."),
            ParseError::InvalidSound(n, l) => located(n, *l, ": Invalid sound format."),
            ParseError::ModeNotHit(n) => {
                let mut s = String::from_str("File ");
                s.append(n.as_str());
                s.append(": Not all modes were described.");
                s
            },
            ParseError::KeyWithoutValue(n, l) => located(n, *l, ": Key given without value."),
            ParseError::InvalidValue(n, l) => located(
                n,
                *l,
                ": An invalid value was encountered.",
            ),
            ParseError::InvalidNoteOrder(n, l) => located(n, *l, ": Invalid note order."),
            ParseError::InvalidKey(n, l) => located(n, *l, ": Key is invalid."),
            ParseError::Unknown(n, l) => located(n, *l, ": Unknown error."),
            ParseError::IncompleteHeader(n) => {
                let mut s = String::from_str("File ");
                s.append(n.as_str());
                s.append(": Incomplete header.");
                s
            },
        }
    }
}

fn located(n: &String, l: usize, what: &str) -> (r: String)
    ensures
        r@ == "Instrument "@ + n@ + " line "@ + crate::text::spec_u64_chars(l as int) + what@,
{
    let mut s = String::from_str("Instrument ");
    s.append(n.as_str());
    s.append(" line ");
    let num = crate::text::u64_string(l as u64);
    s.append(num.as_str());
    s.append(what);
    s
}

/// The shape of a `ParseError` with its payload abstracted: used by
/// contracts to pin down which variant a parser must return.
#[derive(PartialEq, Eq, Structural, Clone, Copy, Debug)]
pub enum ErrKind {
    InvalidMode,
    NoModeDeclared,
    InvalidSound,
    ModeNotHit,
    KeyWithoutValue,
    InvalidValue,
    InvalidNoteOrder,
    InvalidKey,
    Unknown,
    IncompleteHeader,
}

/// Holds exactly when `e` is the variant named by `kind`, carries the
/// source name `name`, and (for the variants that have one) the line `num`.
pub open spec fn err_is(e: ParseError, kind: ErrKind, name: Seq<char>, num: int) -> bool {
    match e {
        ParseError::InvalidMode(n, l) => kind == ErrKind::InvalidMode && n@ == name && l == num,
        ParseError::NoModeDeclared(n, l) => kind == ErrKind::NoModeDeclared && n@ == name
            && l == num,
        ParseError::InvalidSound(n, l) => kind == ErrKind::InvalidSound && n@ == name && l == num,
        ParseError::ModeNotHit(n) => kind == ErrKind::ModeNotHit && n@ == name,
        ParseError::KeyWithoutValue(n, l) => kind == ErrKind::KeyWithoutValue && n@ == name
            && l == num,
        ParseError::InvalidValue(n, l) => kind == ErrKind::InvalidValue && n@ == name && l == num,
        ParseError::InvalidNoteOrder(n, l) => kind == ErrKind::InvalidNoteOrder && n@ == name
            && l == num,
        ParseError::InvalidKey(n, l) => kind == ErrKind::InvalidKey && n@ == name && l == num,
        ParseError::Unknown(n, l) => kind == ErrKind::Unknown && n@ == name && l == num,
        ParseError::IncompleteHeader(n) => kind == ErrKind::IncompleteHeader && n@ == name,
    }
}

} // verus!
