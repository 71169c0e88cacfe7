use crate::decimal::{decimal_nat, push_digits};
use vstd::prelude::*;
use vstd::string::StringExecFns;

verus! {

/// Why a set of tracks could not be framed.
#[derive(Clone, Copy, Debug, PartialEq, Eq, Structural)]
pub enum FramingError {
    /// There was no point to work on. With `empty_track` unset there was nothing
    /// at all: no track, or no point to bound. Otherwise the track at that index
    /// is the first that has no samples.
    EmptyInput { empty_track: Option<usize> },
    /// The sample at index `point` of the track at index `track` carries no
    /// elevation.
    MissingElevation { track: usize, point: usize },
}

/// What `error` says to the user: which rule the input broke and, where a
/// single sample broke it, which one.
pub open spec fn message_of(error: FramingError) -> Seq<char> {
    match error {
        FramingError::EmptyInput { empty_track: None } => "no track and no point"@,
        FramingError::EmptyInput { empty_track: Some(t) } => "track "@ + decimal_nat(t as nat)
            + " has no points"@,
        FramingError::MissingElevation { track, point } => "point "@ + decimal_nat(point as nat)
            + " of track "@ + decimal_nat(track as nat) + " has no elevation"@,
    }
}

impl FramingError {
    /// The error in words, for the user.
    pub fn message(&self) -> (text: String)
        ensures
            text@ == message_of(*self),
    {
        match *self {
            FramingError::EmptyInput { empty_track: None } => String::from_str("no track and no point"),
            FramingError::EmptyInput { empty_track: Some(t) } => {
                let mut text: String = String::from_str("track ");
                push_digits(&mut text, t as u64);
                text.append(" has no points");
                assert(text@ =~= message_of(*self));
                text
            },
            FramingError::MissingElevation { track, point } => {
                let mut text: String = String::from_str("point ");
                push_digits(&mut text, point as u64);
                text.append(" of track ");
                push_digits(&mut text, track as u64);
                text.append(" has no elevation");
                assert(text@ =~= message_of(*self));
                text
            },
        }
    }
}

} // verus!
