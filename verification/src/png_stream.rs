//! Cuts one still image at a time out of a continuous byte stream, by the
//! container's start and end signatures.

use vstd::prelude::*;
use crate::contracts::ImageStreamReader;

verus! {

/// The eight bytes with which every container begins.
pub const PNG_HEADER: [u8; 8] = [0x89, 0x50, 0x4E, 0x47, 0x0D, 0x0A, 0x1A, 0x0A];

/// The eight bytes with which every container ends: the tag of the closing
/// chunk and its checksum.
pub const PNG_FOOTER: [u8; 8] = [0x49, 0x45, 0x4E, 0x44, 0xAE, 0x42, 0x60, 0x82];

/// The last bytes of `buffer` are `pattern`.
pub open spec fn ends_with(buffer: Seq<u8>, pattern: Seq<u8>) -> bool {
    crate::marker::occurs_at(buffer, pattern, buffer.len() - pattern.len())
}

/// Index behind the first start signature of `stream`, where capturing begins.
pub open spec fn capture_start(stream: Seq<u8>) -> Option<int> {
    match crate::marker::first_occurrence(stream, PNG_HEADER@) {
        Some(at) => Some(at + 8),
        None => None,
    }
}

/// Length of the first container's body and end signature, counted from where
/// capturing begins, if the stream holds the end signature.
pub open spec fn capture_len(stream: Seq<u8>) -> Option<int> {
    match capture_start(stream) {
        Some(start) => match crate::marker::first_occurrence(stream.skip(start), PNG_FOOTER@) {
            Some(at) => Some(at + 8),
            None => None,
        },
        None => None,
    }
}

/// The stream holds a whole container: a start signature and, behind it, an
/// end signature.
pub open spec fn holds_image(stream: Seq<u8>) -> bool {
    capture_len(stream) is Some
}

/// Bytes that one extraction takes from `stream`: up to the end of the first
/// container, or all of them where there is no whole container.
pub open spec fn consumed_len(stream: Seq<u8>) -> int {
    match capture_len(stream) {
        Some(len) => capture_start(stream).unwrap() + len,
        None => stream.len() as int,
    }
}

/// What the output buffer holds after one extraction from `stream`, where it
/// held `before`: untouched while no start signature is found, else the
/// signature and what follows, up to the end signature if there is one.
pub open spec fn extracted_image(stream: Seq<u8>, before: Seq<u8>) -> Seq<u8> {
    match capture_start(stream) {
        None => before,
        Some(start) => match capture_len(stream) {
            Some(len) => PNG_HEADER@ + stream.subrange(start, start + len),
            None => PNG_HEADER@ + stream.skip(start),
        },
    }
}

/// A whole container: it begins with the start signature, and the end
/// signature stands behind that first at its very end.
pub open spec fn is_container(image: Seq<u8>) -> bool {
    &&& image.len() >= 16
    &&& image.take(8) == PNG_HEADER@
    &&& crate::marker::is_first_occurrence(image.skip(8), PNG_FOOTER@, image.len() - 16)
}

/// From nothing, nothing is taken, and the buffer stays as it is.
pub proof fn lemma_empty_stream(before: Seq<u8>)
    ensures
        consumed_len(Seq::empty()) == 0,
        extracted_image(Seq::empty(), before) == before,
        !holds_image(Seq::empty()),
{
    let stream = Seq::<u8>::empty();
    assert(forall|at: int| !crate::marker::occurs_at(stream, PNG_HEADER@, at));
}

/// A stream without a start signature is taken whole, the buffer stays as it
/// is, and the extraction that follows finds nothing left and takes nothing.
pub proof fn lemma_stream_without_signature(stream: Seq<u8>, before: Seq<u8>)
    requires
        forall|at: int| !crate::marker::occurs_at(stream, PNG_HEADER@, at),
    ensures
        consumed_len(stream) == stream.len(),
        extracted_image(stream, before) == before,
        !holds_image(stream),
        consumed_len(stream.skip(consumed_len(stream))) == 0,
{
    assert(stream.skip(stream.len() as int) == Seq::<u8>::empty());
    lemma_empty_stream(before);
}

/// Where a container follows noise that holds no start signature, one
/// extraction takes noise and container, leaves exactly the container in the
/// buffer, and does not touch what follows.
pub proof fn lemma_first_container(
    noise: Seq<u8>,
    image: Seq<u8>,
    tail: Seq<u8>,
    before: Seq<u8>,
)
    requires
        forall|at: int| !crate::marker::occurs_at(noise, PNG_HEADER@, at),
        is_container(image),
    ensures
        holds_image(noise + image + tail),
        consumed_len(noise + image + tail) == noise.len() + image.len(),
        extracted_image(noise + image + tail, before) == image,
        (noise + image + tail).skip(consumed_len(noise + image + tail)) == tail,
{
    let stream = noise + image + tail;
    let start = noise.len() as int;
    assert(stream.subrange(start, start + 8) == image.take(8));
    assert forall|earlier: int| 0 <= earlier < start implies !crate::marker::occurs_at(
        stream,
        PNG_HEADER@,
        earlier,
    ) by {
        if earlier + 8 <= start {
            assert(stream == noise + (image + tail));
            crate::marker::lemma_occurs_in_prefix(noise, image + tail, PNG_HEADER@, earlier);
        } else {
            let k = start - earlier;
            assert(stream[start] == image.take(8)[0]);
            assert(stream.subrange(earlier, earlier + 8)[k] == stream[start]);
            assert(PNG_HEADER@[0] == 0x89);
            assert(PNG_HEADER@[k] != 0x89);
        }
    }
    crate::marker::lemma_first_occurrence_is(stream, PNG_HEADER@, start);
    let rest = stream.skip(start + 8);
    assert(rest == image.skip(8) + tail);
    crate::marker::lemma_first_occurrence_extends(image.skip(8), tail, PNG_FOOTER@);
    crate::marker::lemma_first_occurrence_is(rest, PNG_FOOTER@, image.len() - 16);
    assert(stream.subrange(start + 8, start + image.len()) == image.skip(8));
    assert(image.take(8) + image.skip(8) == image);
    assert(stream.skip(start + image.len()) == tail);
}

/// Two containers behind noise that holds no start signature come out of two
/// extractions one after the other, in their order and without the noise; a
/// third extraction finds the stream used up.
pub proof fn lemma_two_containers(
    noise: Seq<u8>,
    first: Seq<u8>,
    second: Seq<u8>,
    before: Seq<u8>,
)
    requires
        forall|at: int| !crate::marker::occurs_at(noise, PNG_HEADER@, at),
        is_container(first),
        is_container(second),
    ensures
        ({
            let stream = noise + first + second;
            let rest = stream.skip(consumed_len(stream));
            &&& consumed_len(stream) == noise.len() + first.len()
            &&& extracted_image(stream, before) == first
            &&& consumed_len(rest) == second.len()
            &&& extracted_image(rest, first) == second
            &&& consumed_len(rest.skip(consumed_len(rest))) == 0
        }),
{
    let none = Seq::<u8>::empty();
    lemma_first_container(noise, first, second, before);
    assert(forall|at: int| !crate::marker::occurs_at(none, PNG_HEADER@, at));
    lemma_first_container(none, second, none, first);
    assert(none + second + none == second);
    lemma_empty_stream(second);
}

/// Whether the last bytes of `buffer` are the eight of `signature`.
fn has_suffix(buffer: &Vec<u8>, signature: &[u8; 8]) -> (found: bool)
    ensures
        found == ends_with(buffer@, signature@),
{
    if buffer.len() < 8 {
        return false;
    }
    crate::marker::matches_at(buffer.as_slice(), signature.as_slice(), buffer.len() - 8)
}

/// Where a scan stands: before the start signature, or behind it and before
/// the end signature.
#[derive(Clone, Copy, Debug, PartialEq, Eq, Structural)]
pub enum ScanState {
    Searching,
    Capturing,
}

/// Extracts still images in the Portable Network Graphics container format.
#[derive(Clone, Copy, Debug)]
pub struct PngReader;

impl PngReader {
    /// An extractor. It keeps nothing between two extractions.
    pub fn new() -> (reader: Self) {
        Self
    }
}

impl ImageStreamReader for PngReader {
    open spec fn consumed(&self, stream: Seq<u8>) -> int {
        consumed_len(stream)
    }

    open spec fn extracted(&self, stream: Seq<u8>, before: Seq<u8>) -> Seq<u8> {
        extracted_image(stream, before)
    }

    /// Runs the scan over `stream`, one byte at a time. While searching,
    /// bytes gather in a scratch buffer until its end is the start signature;
    /// the output buffer is then reset to the signature. While capturing,
    /// bytes go to the output buffer until its end is the end signature.
    fn extract_image(&self, stream: &[u8], buffer: &mut Vec<u8>) -> (count: usize) {
        let ghost before = buffer@;
        let ghost mut start: int = 0;
        let mut state = ScanState::Searching;
        let mut scratch: Vec<u8> = Vec::new();
        let mut count: usize = 0;
        while count < stream.len()
            invariant
                count <= stream@.len(),
                state == ScanState::Searching ==> {
                    &&& scratch@ == stream@.take(count as int)
                    &&& buffer@ == before
                    &&& forall|j: int|
                        0 <= j && j + 8 <= count ==> !crate::marker::occurs_at(
                            stream@,
                            PNG_HEADER@,
                            j,
                        )
                },
                state == ScanState::Capturing ==> {
                    &&& 8 <= start <= count
                    &&& crate::marker::is_first_occurrence(stream@, PNG_HEADER@, start - 8)
                    &&& buffer@ == PNG_HEADER@ + stream@.subrange(start, count as int)
                    &&& forall|j: int|
                        0 <= j && start + j + 8 <= count ==> !crate::marker::occurs_at(
                            stream@.skip(start),
                            PNG_FOOTER@,
                            j,
                        )
                },
            decreases stream@.len() - count,
        {
            let byte = stream[count];
            count += 1;
            match state {
                ScanState::Searching => {
                    scratch.push(byte);
                    assert(scratch@ == stream@.take(count as int));
                    let found = has_suffix(&scratch, &PNG_HEADER);
                    proof {
                        if count >= 8 {
                            assert(scratch@.subrange(count - 8, count as int)
                                == stream@.subrange(count - 8, count as int));
                        }
                        assert(found == (count >= 8 && crate::marker::occurs_at(
                            stream@,
                            PNG_HEADER@,
                            count - 8,
                        )));
                    }
                    if found {
                        buffer.clear();
                        buffer.extend_from_slice(PNG_HEADER.as_slice());
                        scratch.clear();
                        state = ScanState::Capturing;
                        proof {
                            start = count as int;
                            assert(stream@.subrange(start, count as int) == Seq::<u8>::empty());
                            assert(buffer@ == PNG_HEADER@ + stream@.subrange(start, count as int));
                        }
                    }
                },
                ScanState::Capturing => {
                    buffer.push(byte);
                    assert(buffer@ == PNG_HEADER@ + stream@.subrange(start, count as int));
                    let found = has_suffix(buffer, &PNG_FOOTER);
                    proof {
                        let taken = count - start;
                        let rest = stream@.skip(start);
                        if taken >= 8 {
                            assert(buffer@.subrange(buffer@.len() - 8, buffer@.len() as int)
                                == rest.subrange(taken - 8, taken));
                        } else {
                            assert(buffer@.subrange(buffer@.len() - 8, buffer@.len() as int)[0]
                                == PNG_HEADER@[taken]);
                            assert(PNG_FOOTER@[0] == 0x49);
                        }
                        assert(found == (taken >= 8 && crate::marker::occurs_at(
                            rest,
                            PNG_FOOTER@,
                            taken - 8,
                        )));
                    }
                    if found {
                        proof {
                            crate::marker::lemma_first_occurrence_is(
                                stream@,
                                PNG_HEADER@,
                                start - 8,
                            );
                            crate::marker::lemma_first_occurrence_is(
                                stream@.skip(start),
                                PNG_FOOTER@,
                                count - start - 8,
                            );
                        }
                        return count;
                    }
                },
            }
        }
        proof {
            let rest = stream@.skip(start);
            match state {
                ScanState::Searching => {
                    assert(crate::marker::first_occurrence(stream@, PNG_HEADER@) is None);
                },
                ScanState::Capturing => {
                    crate::marker::lemma_first_occurrence_is(stream@, PNG_HEADER@, start - 8);
                    assert(crate::marker::first_occurrence(rest, PNG_FOOTER@) is None);
                    assert(stream@.subrange(start, count as int) == rest);
                },
            }
        }
        count
    }
}

} // verus!
