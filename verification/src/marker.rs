//! Search for a marker in a byte buffer, and the payload between two markers.

use vstd::prelude::*;
use crate::error::CodecError;

verus! {

/// `pattern` stands in `buffer` at index `at`. The empty pattern stands at
/// every index up to the buffer's length.
pub open spec fn occurs_at(buffer: Seq<u8>, pattern: Seq<u8>, at: int) -> bool {
    &&& 0 <= at
    &&& at + pattern.len() <= buffer.len()
    &&& buffer.subrange(at, at + pattern.len()) == pattern
}

/// `pattern` stands at `at` and at no smaller index.
pub open spec fn is_first_occurrence(buffer: Seq<u8>, pattern: Seq<u8>, at: int) -> bool {
    &&& occurs_at(buffer, pattern, at)
    &&& forall|earlier: int| 0 <= earlier < at ==> !occurs_at(buffer, pattern, earlier)
}

/// The smallest index at which `pattern` stands in `buffer`, if there is one.
pub open spec fn first_occurrence(buffer: Seq<u8>, pattern: Seq<u8>) -> Option<int> {
    if exists|at: int| occurs_at(buffer, pattern, at) {
        Some(choose|at: int| is_first_occurrence(buffer, pattern, at))
    } else {
        None
    }
}

/// The bytes between the first header and the first footer that follows it.
pub open spec fn payload_between(buffer: Seq<u8>, header: Seq<u8>, footer: Seq<u8>) -> Result<
    Seq<u8>,
    CodecError,
> {
    match first_occurrence(buffer, header) {
        None => Err(CodecError::FrameMarkerNotFound),
        Some(start) => {
            let rest = buffer.skip(start + header.len());
            match first_occurrence(rest, footer) {
                None => Err(CodecError::FrameMarkerNotFound),
                Some(end) => Ok(rest.take(end)),
            }
        },
    }
}

/// An index that is a first occurrence is the first occurrence.
pub proof fn lemma_first_occurrence_is(buffer: Seq<u8>, pattern: Seq<u8>, at: int)
    requires
        is_first_occurrence(buffer, pattern, at),
    ensures
        first_occurrence(buffer, pattern) == Some(at),
{
    let chosen = choose|k: int| is_first_occurrence(buffer, pattern, k);
    assert(is_first_occurrence(buffer, pattern, chosen));
    if chosen < at {
        assert(!occurs_at(buffer, pattern, chosen));
    }
    if at < chosen {
        assert(!occurs_at(buffer, pattern, at));
    }
}

/// An occurrence that ends within a prefix of the buffer is an occurrence in
/// that prefix, and the other way round.
pub proof fn lemma_occurs_in_prefix(front: Seq<u8>, back: Seq<u8>, pattern: Seq<u8>, at: int)
    requires
        0 <= at,
        at + pattern.len() <= front.len(),
    ensures
        occurs_at(front + back, pattern, at) == occurs_at(front, pattern, at),
{
    assert((front + back).subrange(at, at + pattern.len()) == front.subrange(
        at,
        at + pattern.len(),
    ));
}

/// Where a pattern stands first at the very end of a buffer, it stands first
/// at the same index whatever follows the buffer.
pub proof fn lemma_first_occurrence_extends(front: Seq<u8>, back: Seq<u8>, pattern: Seq<u8>)
    requires
        pattern.len() <= front.len(),
        is_first_occurrence(front, pattern, front.len() - pattern.len()),
    ensures
        is_first_occurrence(front + back, pattern, front.len() - pattern.len()),
{
    let at = front.len() - pattern.len();
    lemma_occurs_in_prefix(front, back, pattern, at);
    assert forall|earlier: int| 0 <= earlier < at implies !occurs_at(
        front + back,
        pattern,
        earlier,
    ) by {
        lemma_occurs_in_prefix(front, back, pattern, earlier);
    }
}

/// A payload between its markers is found again, whatever stands before the
/// header and behind the footer, if the header stands nowhere before its place
/// and the footer nowhere in payload and footer before its place.
pub proof fn lemma_payload_between_markers(
    lead: Seq<u8>,
    header: Seq<u8>,
    payload: Seq<u8>,
    footer: Seq<u8>,
    trail: Seq<u8>,
)
    requires
        is_first_occurrence(lead + header, header, lead.len() as int),
        is_first_occurrence(payload + footer, footer, payload.len() as int),
    ensures
        payload_between(lead + header + payload + footer + trail, header, footer) == Ok::<
            Seq<u8>,
            CodecError,
        >(payload),
{
    let buffer = lead + header + payload + footer + trail;
    let start = lead.len() as int;
    assert(buffer == (lead + header) + (payload + footer + trail));
    lemma_first_occurrence_extends(lead + header, payload + footer + trail, header);
    lemma_first_occurrence_is(buffer, header, start);
    let rest = buffer.skip(start + header.len());
    assert(rest == (payload + footer) + trail);
    lemma_first_occurrence_extends(payload + footer, trail, footer);
    lemma_first_occurrence_is(rest, footer, payload.len() as int);
    assert(rest.take(payload.len() as int) == payload);
}

/// Where the header stands in the buffer more than once, the payload begins
/// behind the first of its occurrences: a payload that is found is the piece
/// of the buffer that begins there.
pub proof fn lemma_payload_begins_behind_first_header(
    buffer: Seq<u8>,
    header: Seq<u8>,
    footer: Seq<u8>,
    first: int,
)
    requires
        is_first_occurrence(buffer, header, first),
    ensures
        match payload_between(buffer, header, footer) {
            Ok(payload) => {
                let begin = first + header.len();
                &&& begin + payload.len() + footer.len() <= buffer.len()
                &&& payload == buffer.subrange(begin, begin + payload.len())
                &&& footer == buffer.subrange(
                    begin + payload.len(),
                    begin + payload.len() + footer.len(),
                )
            },
            Err(e) => e == CodecError::FrameMarkerNotFound,
        },
{
    lemma_first_occurrence_is(buffer, header, first);
    let rest = buffer.skip(first + header.len());
    if exists|at: int| occurs_at(rest, footer, at) {
        let witness = choose|at: int| occurs_at(rest, footer, at);
        lemma_some_occurrence_is_first(rest, footer, witness);
        let end = first_occurrence(rest, footer)->Some_0;
        assert(is_first_occurrence(rest, footer, end));
        assert(rest.take(end) == buffer.subrange(
            first + header.len(),
            first + header.len() + end,
        ));
        assert(rest.subrange(end, end + footer.len()) == buffer.subrange(
            first + header.len() + end,
            first + header.len() + end + footer.len(),
        ));
    }
}

/// Where a pattern occurs at all, the first occurrence is one of its
/// occurrences and none stands before it.
pub proof fn lemma_some_occurrence_is_first(buffer: Seq<u8>, pattern: Seq<u8>, at: int)
    requires
        occurs_at(buffer, pattern, at),
    ensures
        first_occurrence(buffer, pattern) is Some,
        is_first_occurrence(buffer, pattern, first_occurrence(buffer, pattern)->Some_0),
        first_occurrence(buffer, pattern)->Some_0 <= at,
    decreases at,
{
    if exists|earlier: int| 0 <= earlier < at && occurs_at(buffer, pattern, earlier) {
        let earlier = choose|earlier: int| 0 <= earlier < at && occurs_at(buffer, pattern, earlier);
        lemma_some_occurrence_is_first(buffer, pattern, earlier);
    } else {
        assert(is_first_occurrence(buffer, pattern, at));
        lemma_first_occurrence_is(buffer, pattern, at);
    }
}

/// Whether `pattern` stands in `buffer` at `at`.
pub(crate) fn matches_at(buffer: &[u8], pattern: &[u8], at: usize) -> (found: bool)
    requires
        at + pattern@.len() <= buffer@.len(),
    ensures
        found == occurs_at(buffer@, pattern@, at as int),
{
    let size: usize = buffer.len();
    let mut k: usize = 0;
    while k < pattern.len()
        invariant
            k <= pattern@.len(),
            at + pattern@.len() <= buffer@.len(),
            buffer@.len() == size,
            forall|j: int| 0 <= j < k ==> buffer@[at + j] == pattern@[j],
        decreases pattern@.len() - k,
    {
        if buffer[at + k] != pattern[k] {
            assert(buffer@.subrange(at as int, at + pattern@.len())[k as int] != pattern@[k as int]);
            return false;
        }
        k += 1;
    }
    assert(buffer@.subrange(at as int, at + pattern@.len()) =~= pattern@);
    true
}

/// The index of the first occurrence of `marker` in `buffer`, searched from
/// the left.
pub fn find_marker(buffer: &[u8], marker: &[u8]) -> (r: Option<usize>)
    ensures
        match r {
            Some(at) => {
                &&& first_occurrence(buffer@, marker@) == Some(at as int)
                &&& is_first_occurrence(buffer@, marker@, at as int)
            },
            None => first_occurrence(buffer@, marker@) is None,
        },
{
    if marker.len() > buffer.len() {
        return None;
    }
    let last: usize = buffer.len() - marker.len();
    let mut at: usize = 0;
    loop
        invariant
            last == buffer@.len() - marker@.len(),
            at <= last,
            forall|earlier: int| 0 <= earlier < at ==> !occurs_at(buffer@, marker@, earlier),
        decreases last - at,
    {
        if matches_at(buffer, marker, at) {
            proof {
                lemma_first_occurrence_is(buffer@, marker@, at as int);
            }
            return Some(at);
        }
        if at == last {
            return None;
        }
        at += 1;
    }
}

/// The payload that a decoded buffer carries between `header` and `footer`:
/// it begins behind the first header and ends before the first footer that
/// follows.
pub fn extract_payload(buffer: &[u8], header: &[u8], footer: &[u8]) -> (r: Result<
    Vec<u8>,
    CodecError,
>)
    ensures
        crate::error::bytes_outcome(r) == payload_between(buffer@, header@, footer@),
{
    let start = match find_marker(buffer, header) {
        Some(start) => start,
        None => {
            return Err(CodecError::FrameMarkerNotFound);
        },
    };
    let size: usize = buffer.len();
    let from: usize = start + header.len();
    let rest = vstd::slice::slice_subrange(buffer, from, size);
    assert(rest@ == buffer@.skip(from as int));
    let end = match find_marker(rest, footer) {
        Some(end) => end,
        None => {
            return Err(CodecError::FrameMarkerNotFound);
        },
    };
    let body = vstd::slice::slice_subrange(rest, 0, end);
    assert(body@ == rest@.take(end as int));
    Ok(vstd::slice::slice_to_vec(body))
}

} // verus!
