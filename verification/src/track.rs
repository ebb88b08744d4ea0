//! The integer decisions of keyframe tracks and physics recording: which
//! key breaks a track, which span an ease lands on, and the errors that
//! name them.
use vstd::prelude::*;

use crate::text::{decimal, push_decimal};

verus! {

/// Why a track could not be built or edited.
#[derive(Clone, Copy, Debug, PartialEq, Eq, Structural)]
pub enum TrackError {
    /// A track was given no keys.
    Empty,
    /// Key times must form a finite, strictly increasing sequence.
    /// `index` is the first key that breaks it: its own index for a
    /// non-finite time, the second key of a non-increasing pair.
    NonIncreasing {
        /// Index of the first chain-breaking key.
        index: usize,
    },
    /// An ease was addressed to a span past the last one.
    NoSuchSpan {
        /// The requested span index.
        index: usize,
    },
    /// A spin was given a non-finite rate, a non-finite or non-positive
    /// duration, or a plane whose Euclidean part has zero norm.
    InvalidSpin,
}

/// Key `i` breaks the chain of key times: its time is not finite
/// (`finite[i]` is false), or it is not above its predecessor's
/// (`ordered[i - 1]` is false, where `ordered[j]` compares keys `j` and
/// `j + 1`).
pub open spec fn breaks_at(finite: Seq<bool>, ordered: Seq<bool>, i: int) -> bool {
    !finite[i] || (i >= 1 && !ordered[i - 1])
}

/// The verdict on a key sequence, given for each key whether its time is
/// finite (`finite[i]`) and for each adjacent pair whether the times
/// strictly increase (`ordered[i]` for keys `i` and `i + 1`).
///
/// No keys is [`TrackError::Empty`]. Otherwise the first key that breaks
/// the finite, strictly increasing chain is reported: the least index
/// whose time is not finite or not greater than its predecessor's.
pub fn check_key_times(finite: &Vec<bool>, ordered: &Vec<bool>) -> (r: Result<(), TrackError>)
    requires
        finite@.len() == 0 || ordered@.len() + 1 == finite@.len(),
    ensures
        finite@.len() == 0 <==> r == Err::<(), TrackError>(TrackError::Empty),
        r is Ok <==> {
            &&& finite@.len() > 0
            &&& forall|j: int| 0 <= j < finite@.len() ==> #[trigger] finite@[j]
            &&& forall|j: int| 0 <= j < finite@.len() - 1 ==> #[trigger] ordered@[j]
        },
        r matches Err(TrackError::NonIncreasing { index }) ==> {
            &&& index < finite@.len()
            &&& breaks_at(finite@, ordered@, index as int)
            &&& forall|j: int| 0 <= j < index ==> !#[trigger] breaks_at(finite@, ordered@, j)
        },
        r is Err ==> (r matches Err(TrackError::NonIncreasing { .. }) || r == Err::<(), TrackError>(
            TrackError::Empty,
        )),
{
    let n = finite.len();
    if n == 0 {
        return Err(TrackError::Empty);
    }
    let mut i: usize = 0;
    while i < n
        invariant
            n == finite@.len(),
            n == ordered@.len() + 1,
            i <= n,
            forall|j: int| 0 <= j < i ==> !#[trigger] breaks_at(finite@, ordered@, j),
        decreases n - i,
    {
        if !finite[i] || (i >= 1 && !ordered[i - 1]) {
            return Err(TrackError::NonIncreasing { index: i });
        }
        i = i + 1;
    }
    assert forall|j: int| 0 <= j < n implies #[trigger] finite@[j] by {
        assert(!breaks_at(finite@, ordered@, j));
    }
    assert forall|j: int| 0 <= j < n - 1 implies #[trigger] ordered@[j] by {
        assert(!breaks_at(finite@, ordered@, j + 1));
    }
    Ok(())
}

/// Set the ease of span `span` — the span covering keys `span` and
/// `span + 1` — leaving every other span as it was.
pub fn ease_span<E>(eases: &mut Vec<E>, span: usize, ease: E) -> (r: Result<(), TrackError>)
    ensures
        span < old(eases)@.len() ==> r is Ok && final(eases)@ == old(eases)@.update(
            span as int,
            ease,
        ),
        span >= old(eases)@.len() ==> r == Err::<(), TrackError>(
            TrackError::NoSuchSpan { index: span },
        ) && final(eases)@ == old(eases)@,
{
    if span < eases.len() {
        eases.set(span, ease);
        Ok(())
    } else {
        Err(TrackError::NoSuchSpan { index: span })
    }
}

/// The human-readable text of a track error.
pub open spec fn track_error_text(e: TrackError) -> Seq<char> {
    match e {
        TrackError::Empty => "track needs at least one key"@,
        TrackError::NonIncreasing { index } => "key time at index "@ + decimal(index as nat)
            + " is not finite or not greater than its predecessor"@,
        TrackError::NoSuchSpan { index } => "track has no span "@ + decimal(index as nat),
        TrackError::InvalidSpin =>
            "spin needs a finite rate, a finite positive duration, and a plane with a non-zero Euclidean part"@,
    }
}

impl TrackError {
    /// The message a human reads.
    pub fn to_string(&self) -> (s: String)
        ensures
            s@ == track_error_text(*self),
    {
        match self {
            TrackError::Empty => String::from_str("track needs at least one key"),
            TrackError::NonIncreasing { index } => {
                let mut s = String::from_str("key time at index ");
                push_decimal(&mut s, *index as u64);
                s.append(" is not finite or not greater than its predecessor");
                s
            },
            TrackError::NoSuchSpan { index } => {
                let mut s = String::from_str("track has no span ");
                push_decimal(&mut s, *index as u64);
                s
            },
            TrackError::InvalidSpin => String::from_str(
                "spin needs a finite rate, a finite positive duration, and a plane with a non-zero Euclidean part",
            ),
        }
    }
}

/// Why a rollout could not be recorded.
#[derive(Clone, Copy, Debug, PartialEq, Eq, Structural)]
pub enum RecordError {
    /// The timestep was not finite, or was not greater than zero.
    InvalidTimestep,
    /// The recorded keys did not form a valid track.
    Track(TrackError),
}

impl From<TrackError> for RecordError {
    fn from(e: TrackError) -> (r: RecordError) {
        RecordError::Track(e)
    }
}

impl vstd::std_specs::convert::FromSpecImpl<TrackError> for RecordError {
    open spec fn obeys_from_spec() -> bool {
        true
    }

    open spec fn from_spec(e: TrackError) -> RecordError {
        RecordError::Track(e)
    }
}

/// The human-readable text of a recording error.
pub open spec fn record_error_text(e: RecordError) -> Seq<char> {
    match e {
        RecordError::InvalidTimestep => "timestep must be finite and > 0"@,
        RecordError::Track(t) => "recorded keys did not form a track: "@ + track_error_text(t),
    }
}

impl RecordError {
    /// The message a human reads.
    pub fn to_string(&self) -> (s: String)
        ensures
            s@ == record_error_text(*self),
    {
        match self {
            RecordError::InvalidTimestep => String::from_str("timestep must be finite and > 0"),
            RecordError::Track(t) => {
                let mut s = String::from_str("recorded keys did not form a track: ");
                let inner = t.to_string();
                s.append(inner.as_str());
                s
            },
        }
    }

    /// The underlying track error, when there is one.
    pub fn source(&self) -> (r: Option<TrackError>)
        ensures
            r == match *self {
                RecordError::InvalidTimestep => None,
                RecordError::Track(t) => Some(t),
            },
    {
        match self {
            RecordError::InvalidTimestep => None,
            RecordError::Track(t) => Some(*t),
        }
    }
}

} // verus!
