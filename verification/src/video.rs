//! The video side of a run held in memory: the stream of a decoded video as a
//! reader of frames, and a record of what a run hands to its collaborators.

use vstd::prelude::*;
use crate::contracts::{ImageStreamReader, Progressbar, VideoReader, VideoWriter};
use crate::error::CodecError;

verus! {

/// The images that repeated extraction gets from `stream`, each from an empty
/// buffer and from where the one before stopped, until the stream is used up.
pub open spec fn frames_in<I: ImageStreamReader>(images: I, stream: Seq<u8>) -> Seq<Seq<u8>>
    decreases stream.len(),
{
    let count = images.consumed(stream);
    if 0 < count <= stream.len() {
        seq![images.extracted(stream, Seq::empty())] + frames_in(images, stream.skip(count))
    } else {
        Seq::empty()
    }
}

/// A stream of two containers behind noise that holds no start signature
/// holds two frames, the containers in their order.
pub proof fn lemma_two_containers_are_two_frames(noise: Seq<u8>, first: Seq<u8>, second: Seq<u8>)
    requires
        forall|at: int| !crate::marker::occurs_at(noise, crate::png_stream::PNG_HEADER@, at),
        crate::png_stream::is_container(first),
        crate::png_stream::is_container(second),
    ensures
        frames_in(crate::png_stream::PngReader, noise + first + second) == seq![first, second],
{
    let reader = crate::png_stream::PngReader;
    let none = Seq::<u8>::empty();
    let stream = noise + first + second;
    crate::png_stream::lemma_first_container(noise, first, second, none);
    assert(none + second + none == second);
    assert(forall|at: int| !crate::marker::occurs_at(none, crate::png_stream::PNG_HEADER@, at));
    crate::png_stream::lemma_first_container(none, second, none, none);
    crate::png_stream::lemma_empty_stream(none);
    assert(second.skip(second.len() as int) == none);
    assert(frames_in(reader, none) == Seq::<Seq<u8>>::empty());
    assert(frames_in(reader, second) == seq![second] + frames_in(reader, none));
    assert(frames_in(reader, stream) == seq![first] + frames_in(reader, second));
    assert(seq![first] + (seq![second] + Seq::<Seq<u8>>::empty()) == seq![first, second]);
}

/// A decoded video's byte stream and how far it has been read.
pub struct FrameStream<I: ImageStreamReader> {
    stream: Vec<u8>,
    position: usize,
    images: I,
}

impl<I: ImageStreamReader> FrameStream<I> {
    #[verifier::type_invariant]
    spec fn within(&self) -> bool {
        self.position <= self.stream@.len()
    }

    /// The part of the stream that no read has taken yet.
    pub closed spec fn remaining(&self) -> Seq<u8> {
        self.stream@.skip(self.position as int)
    }

    /// The extractor that cuts the images out of the stream.
    pub closed spec fn extractor(&self) -> I {
        self.images
    }

    /// The images still to be handed out, next first.
    pub open spec fn pending(&self) -> Seq<Seq<u8>> {
        frames_in(self.extractor(), self.remaining())
    }

    /// Empties `buffer`, extracts the next image into it, and returns how many
    /// bytes of the stream that took: none exactly where the stream is used
    /// up, in which case the buffer is left empty.
    pub fn take_frame(&mut self, buffer: &mut Vec<u8>) -> (count: usize)
        ensures
            final(self).extractor() == old(self).extractor(),
            final(self).remaining() == old(self).remaining().skip(count as int),
            count == old(self).extractor().consumed(old(self).remaining()),
            count == 0 <==> old(self).remaining().len() == 0,
            final(buffer)@ == old(self).extractor().extracted(
                old(self).remaining(),
                Seq::empty(),
            ),
            if old(self).pending().len() == 0 {
                count == 0 && final(self).pending() == old(self).pending()
            } else {
                &&& count > 0
                &&& final(buffer)@ == old(self).pending().first()
                &&& final(self).pending() == old(self).pending().drop_first()
            },
    {
        proof {
            use_type_invariant(&*self);
        }
        let total: usize = self.stream.len();
        let rest = vstd::slice::slice_subrange(self.stream.as_slice(), self.position, total);
        buffer.clear();
        let count = self.images.extract_image(rest, buffer);
        proof {
            assert(rest@ == self.stream@.skip(self.position as int));
            assert(rest@.skip(count as int) == self.stream@.skip(self.position + count));
        }
        self.position = self.position + count;
        count
    }

    /// A reader at the front of `stream`.
    pub fn new(stream: Vec<u8>, images: I) -> (reader: Self)
        ensures
            reader.remaining() == stream@,
            reader.extractor() == images,
    {
        let reader = Self { stream, position: 0, images };
        assert(reader.stream@.skip(0) == reader.stream@);
        reader
    }
}

impl<I: ImageStreamReader> VideoReader for FrameStream<I> {
    /// Counts the images that are still to be handed out.
    fn get_frame_count(&self) -> (count: usize)
        ensures
            count == self.pending().len(),
    {
        proof {
            use_type_invariant(self);
        }
        let total: usize = self.stream.len();
        let mut position: usize = self.position;
        let mut count: usize = 0;
        let mut scratch: Vec<u8> = Vec::new();
        while position < total
            invariant
                total == self.stream@.len(),
                self.position <= position <= total,
                count <= position - self.position,
                self.pending().len() == count + frames_in(
                    self.images,
                    self.stream@.skip(position as int),
                ).len(),
            decreases total - position,
        {
            let rest = vstd::slice::slice_subrange(self.stream.as_slice(), position, total);
            scratch.clear();
            let taken = self.images.extract_image(rest, &mut scratch);
            proof {
                assert(rest@ == self.stream@.skip(position as int));
                assert(rest@.skip(taken as int) == self.stream@.skip(position + taken));
            }
            position = position + taken;
            count = count + 1;
        }
        count
    }

    /// Empties `buffer` and extracts the next image into it; it cannot fail.
    fn read(&mut self, buffer: &mut Vec<u8>) -> (r: Result<usize, CodecError>)
        ensures
            r is Ok,
            final(self).extractor() == old(self).extractor(),
            final(self).remaining() == old(self).remaining().skip(r->Ok_0 as int),
            r->Ok_0 == old(self).extractor().consumed(old(self).remaining()),
            r->Ok_0 == 0 <==> old(self).remaining().len() == 0,
            if old(self).pending().len() == 0 {
                r->Ok_0 == 0 && final(self).pending() == old(self).pending()
            } else {
                &&& r->Ok_0 > 0
                &&& final(buffer)@ == old(self).pending().first()
                &&& final(self).pending() == old(self).pending().drop_first()
            },
    {
        Ok(self.take_frame(buffer))
    }

    fn finish(self) -> (r: Result<(), CodecError>)
        ensures
            r is Ok,
    {
        Ok(())
    }
}

/// Blank, tabulator, line feed, vertical tabulator, form feed or carriage
/// return.
pub open spec fn is_space(byte: u8) -> bool {
    byte == 0x20 || 0x09 <= byte <= 0x0D
}

/// A decimal digit.
pub open spec fn is_digit(byte: u8) -> bool {
    0x30 <= byte <= 0x39
}

/// The text without the white space at its front.
pub open spec fn without_leading_space(text: Seq<u8>) -> Seq<u8>
    decreases text.len(),
{
    if text.len() > 0 && is_space(text.first()) {
        without_leading_space(text.drop_first())
    } else {
        text
    }
}

/// The text without the white space at its end.
pub open spec fn without_trailing_space(text: Seq<u8>) -> Seq<u8>
    decreases text.len(),
{
    if text.len() > 0 && is_space(text.last()) {
        without_trailing_space(text.drop_last())
    } else {
        text
    }
}

/// The number that decimal digits write, the last digit counting least.
pub open spec fn decimal_value(digits: Seq<u8>) -> nat
    decreases digits.len(),
{
    if digits.len() == 0 {
        0
    } else {
        10 * decimal_value(digits.drop_last()) + (digits.last() - 0x30) as nat
    }
}

/// The frame count that a probe's text gives: the decimal number that stands
/// in it between white space, if that is all there is and the number fits.
pub open spec fn frame_count_of(text: Seq<u8>) -> Option<usize> {
    let number = without_trailing_space(without_leading_space(text));
    if number.len() > 0 && (forall|i: int| 0 <= i < number.len() ==> is_digit(number[i]))
        && decimal_value(number) <= usize::MAX {
        Some(decimal_value(number) as usize)
    } else {
        None
    }
}

/// Digits put behind a number do not make it smaller.
pub proof fn lemma_decimal_value_grows(digits: Seq<u8>, upto: int)
    requires
        0 <= upto <= digits.len(),
        forall|i: int| 0 <= i < digits.len() ==> is_digit(digits[i]),
    ensures
        decimal_value(digits.take(upto)) <= decimal_value(digits),
    decreases digits.len() - upto,
{
    if upto < digits.len() {
        assert(digits.take(upto + 1).drop_last() == digits.take(upto));
        lemma_decimal_value_grows(digits, upto + 1);
    } else {
        assert(digits.take(upto) == digits);
    }
}

fn is_space_byte(byte: u8) -> (space: bool)
    ensures
        space == is_space(byte),
{
    byte == 0x20 || (0x09 <= byte && byte <= 0x0D)
}

/// Reads the frame count from the text that a probe of the video printed.
pub fn parse_frame_count(text: &[u8]) -> (r: Option<usize>)
    ensures
        r == frame_count_of(text@),
{
    let total: usize = text.len();
    let mut begin: usize = 0;
    proof {
        assert(text@.skip(0) == text@);
    }
    while begin < total && is_space_byte(text[begin])
        invariant
            total == text@.len(),
            begin <= total,
            without_leading_space(text@) == without_leading_space(text@.skip(begin as int)),
        decreases total - begin,
    {
        assert(text@.skip(begin as int).drop_first() == text@.skip(begin + 1));
        begin += 1;
    }
    let ghost front = text@.skip(begin as int);
    assert(without_leading_space(text@) == front);
    let mut end: usize = total;
    proof {
        assert(front.take(end - begin) == front);
    }
    while end > begin && is_space_byte(text[end - 1])
        invariant
            total == text@.len(),
            begin <= end <= total,
            front == text@.skip(begin as int),
            without_trailing_space(front) == without_trailing_space(front.take(end - begin)),
        decreases end - begin,
    {
        assert(front.take(end - begin).drop_last() == front.take(end - begin - 1));
        end -= 1;
    }
    let ghost number = text@.subrange(begin as int, end as int);
    proof {
        assert(front.take(end - begin) == number);
        assert(without_trailing_space(front) == number);
    }
    if begin == end {
        return None;
    }
    let mut value: usize = 0;
    let mut at: usize = begin;
    proof {
        assert(number.take(0) == Seq::<u8>::empty());
    }
    while at < end
        invariant
            total == text@.len(),
            begin <= at <= end <= total,
            number == text@.subrange(begin as int, end as int),
            number == without_trailing_space(without_leading_space(text@)),
            forall|i: int| 0 <= i < at - begin ==> is_digit(number[i]),
            value == decimal_value(number.take(at - begin)),
        decreases end - at,
    {
        let byte = text[at];
        if byte < 0x30 || byte > 0x39 {
            assert(!is_digit(number[at - begin]));
            return None;
        }
        let digit: usize = (byte - 0x30) as usize;
        proof {
            assert(number.take(at - begin + 1).drop_last() == number.take(at - begin));
            assert(number.take(at - begin + 1).last() == byte);
            assert(decimal_value(number.take(at - begin + 1)) == 10 * value + digit);
            if forall|i: int| 0 <= i < number.len() ==> is_digit(number[i]) {
                lemma_decimal_value_grows(number, at - begin + 1);
            }
        }
        let tens = match value.checked_mul(10) {
            Some(tens) => tens,
            None => {
                return None;
            },
        };
        value = match tens.checked_add(digit) {
            Some(sum) => sum,
            None => {
                return None;
            },
        };
        at += 1;
    }
    proof {
        assert(number.take(at - begin) == number);
    }
    Some(value)
}

/// A writer together with the images that it has taken.
pub struct Recording<W: VideoWriter> {
    writer: W,
    taken: Ghost<Seq<Seq<u8>>>,
}

impl<W: VideoWriter> Recording<W> {
    /// The images that the writer took, oldest first.
    pub closed spec fn frames(&self) -> Seq<Seq<u8>> {
        self.taken@
    }

    /// A record, still empty, for `writer`.
    pub fn new(writer: W) -> (recording: Self)
        ensures
            recording.frames() == Seq::<Seq<u8>>::empty(),
    {
        Self { writer, taken: Ghost(Seq::empty()) }
    }

    /// Hands `image` to the writer. Where the writer takes it, it is the
    /// newest of the frames; where not, the frames are as before.
    pub fn write(&mut self, image: &[u8]) -> (r: Result<(), CodecError>)
        ensures
            final(self).frames() == if r is Ok {
                old(self).frames().push(image@)
            } else {
                old(self).frames()
            },
            r is Err ==> r == Err::<(), CodecError>(CodecError::UpstreamProcessFailure),
    {
        let r = self.writer.write(image);
        if r.is_ok() {
            proof {
                self.taken@ = self.taken@.push(image@);
            }
        }
        r
    }

    /// Ends the video.
    pub fn finish(self) -> (r: Result<(), CodecError>)
        ensures
            r is Err ==> r == Err::<(), CodecError>(CodecError::UpstreamProcessFailure),
    {
        self.writer.finish()
    }
}

/// A progress display together with the units reported to it.
pub struct Metered<P: Progressbar> {
    progressbar: P,
    reported: Ghost<nat>,
}

impl<P: Progressbar> Metered<P> {
    /// The sum of the units reported.
    pub closed spec fn units(&self) -> nat {
        self.reported@
    }

    /// A count, still at nothing, for `progressbar`.
    pub fn new(progressbar: P) -> (metered: Self)
        ensures
            metered.units() == 0,
    {
        Self { progressbar, reported: Ghost(0) }
    }

    /// Reports `position` units more to the display.
    pub fn update(&mut self, position: usize)
        ensures
            final(self).units() == old(self).units() + position,
    {
        self.progressbar.update(position);
        proof {
            self.reported@ = self.reported@ + position as nat;
        }
    }
}

} // verus!
