//! Rules of the performance commands that do not touch the metrics store:
//! reading an alert direction, and choosing which records a history shows.

use vstd::prelude::*;

verus! {

/// On which side of its threshold a performance alert fires.
#[derive(Debug, Clone, Copy, PartialEq, Eq)]
pub enum AlertDirection {
    /// Fires when the metric rises above the threshold.
    Above,
    /// Fires when the metric falls below the threshold.
    Below,
}

/// Why a performance command refused its arguments.
#[derive(Debug, Clone, PartialEq, Eq)]
pub enum PerfError {
    /// The alert direction given, which is neither `above` nor `below`.
    InvalidDirection(String),
}

impl PerfError {
    /// The text the command reports for this error.
    pub open spec fn spec_message(&self) -> Seq<char> {
        match self {
            PerfError::InvalidDirection(d) => "Invalid direction '"@ + d@ + "'. Use 'above' or 'below'."@,
        }
    }

    /// The text the command reports for this error.
    pub fn message(&self) -> (m: String)
        ensures
            m@ == self.spec_message(),
    {
        match self {
            PerfError::InvalidDirection(d) => {
                let m = String::from_str("Invalid direction '");
                let m = m.concat(d.as_str());
                m.concat("'. Use 'above' or 'below'.")
            },
        }
    }
}

/// What `str::to_lowercase` returns for a string with these characters.
pub uninterp spec fn lowercase_of(s: Seq<char>) -> Seq<char>;

/// Calls `str::to_lowercase`, which maps every character to its lowercase form
/// by the Unicode `Lowercase` mapping and depends on nothing but its argument;
/// that mapping is not written out here but named `lowercase_of`.
#[verifier::external_body]
fn to_lowercase(s: &str) -> (r: String)
    ensures
        r@ == lowercase_of(s@),
{
    s.to_lowercase()
}

/// The direction that an already lowercased word names, if any.
pub open spec fn direction_named(lowered: Seq<char>) -> Option<AlertDirection> {
    if lowered == "above"@ {
        Some(AlertDirection::Above)
    } else if lowered == "below"@ {
        Some(AlertDirection::Below)
    } else {
        None
    }
}

/// Reads an already lowercased word as an alert direction.
pub fn direction_from_lowercase(lowered: &str) -> (d: Option<AlertDirection>)
    ensures
        d == direction_named(lowered@),
{
    let w = String::from_str(lowered);
    if w == String::from_str("above") {
        Some(AlertDirection::Above)
    } else if w == String::from_str("below") {
        Some(AlertDirection::Below)
    } else {
        None
    }
}

/// Reads the `--direction` argument of `perf alert`, ignoring case:
/// `above` or `below`, else the error that names the word given.
pub fn parse_alert_direction(direction: &str) -> (r: Result<AlertDirection, PerfError>)
    ensures
        match direction_named(lowercase_of(direction@)) {
            Some(d) => r == Ok::<AlertDirection, PerfError>(d),
            None => r matches Err(PerfError::InvalidDirection(w)) && w@ == direction@,
        },
{
    let lowered = to_lowercase(direction);
    match direction_from_lowercase(lowered.as_str()) {
        Some(d) => Ok(d),
        None => Err(PerfError::InvalidDirection(String::from_str(direction))),
    }
}

/// How many records a history shows: at most `limit`, at most all there are.
pub open spec fn shown_count(len: nat, limit: nat) -> nat {
    if len < limit {
        len
    } else {
        limit
    }
}

/// The positions of the records that a history of `len` records shows when it
/// shows at most `limit`: the most recent first, going back in time.
pub fn recent_indices(len: usize, limit: usize) -> (r: Vec<usize>)
    ensures
        r@.len() == shown_count(len as nat, limit as nat),
        r@.len() == vstd::math::min(len as int, limit as int),
        forall|k: int| 0 <= k < r@.len() ==> r@[k] == len - 1 - k,
{
    let count = if len < limit { len } else { limit };
    let mut r: Vec<usize> = Vec::new();
    let mut k: usize = 0;
    while k < count
        invariant
            k <= count,
            count <= len,
            count == shown_count(len as nat, limit as nat),
            r@.len() == k,
            forall|j: int| 0 <= j < k ==> r@[j] == len - 1 - j,
        decreases count - k,
    {
        r.push(len - 1 - k);
        k = k + 1;
    }
    r
}

/// A history shows every record when there are at most `limit` of them, and
/// exactly `limit` otherwise: `min(len, limit)` records.
pub proof fn law_history_shows_min_of_len_and_limit(len: nat, limit: nat)
    ensures
        shown_count(len, limit) == vstd::math::min(len as int, limit as int),
        len <= limit ==> shown_count(len, limit) == len,
        limit <= len ==> shown_count(len, limit) == limit,
{
}

} // verus!
