//! The two directions of a run: a byte stream becomes the frames of a video,
//! chunk by chunk, and the frames of a video become the byte stream again.

use vstd::prelude::*;
use crate::contracts::{ImageStreamReader, Progressbar, QrCreater, QrReader, VideoReader, VideoWriter};
use crate::video::{FrameStream, Metered, Recording};
use crate::error::CodecError;

verus! {

/// The marker that stands before and behind the payload of every symbol.
pub const DATA_HEADER: [u8; 4] = [0xAB, 0xAD, 0xBA, 0xBE];

/// Bytes of a symbol's capacity that a chunk leaves free: four marker
/// lengths. Two of them hold the markers; the rest covers the mode indicators
/// and length fields of the second and the third segment.
pub const CHUNK_MARGIN: usize = 16;

/// The number of input bytes that go into one symbol of the given capacity.
pub open spec fn chunk_len(capacity: Result<int, CodecError>) -> Result<int, CodecError> {
    match capacity {
        Err(e) => Err(e),
        Ok(capacity) => if capacity > CHUNK_MARGIN {
            Ok(capacity - CHUNK_MARGIN)
        } else {
            Err(CodecError::InvalidQrSettings)
        },
    }
}

/// The input cut into pieces of `size` bytes, the last one shorter where the
/// length is no multiple of `size`.
pub open spec fn chunks(input: Seq<u8>, size: int) -> Seq<Seq<u8>>
    decreases input.len(),
{
    if input.len() == 0 || size <= 0 {
        Seq::empty()
    } else if input.len() <= size {
        seq![input]
    } else {
        seq![input.take(size)] + chunks(input.skip(size), size)
    }
}

/// `images` are, one for one and in order, what `creater` makes of `pieces`
/// between two markers.
pub open spec fn images_of<C: QrCreater>(
    creater: C,
    pieces: Seq<Seq<u8>>,
    images: Seq<Seq<u8>>,
) -> bool {
    &&& images.len() == pieces.len()
    &&& forall|k: int|
        0 <= k < pieces.len() ==> creater.encoded(DATA_HEADER@, #[trigger] pieces[k], DATA_HEADER@)
            == Ok::<Seq<u8>, CodecError>(images[k])
}

/// The payloads that `reader` finds between two markers in `frames`, joined in
/// the order of the frames; the error of the first frame that has none.
pub open spec fn joined_payloads<R: QrReader>(reader: R, frames: Seq<Seq<u8>>) -> Result<
    Seq<u8>,
    CodecError,
>
    decreases frames.len(),
{
    if frames.len() == 0 {
        Ok(Seq::empty())
    } else {
        match joined_payloads(reader, frames.drop_last()) {
            Err(e) => Err(e),
            Ok(joined) => match reader.decoded(DATA_HEADER@, frames.last(), DATA_HEADER@) {
                Err(e) => Err(e),
                Ok(payload) => Ok(joined + payload),
            },
        }
    }
}

/// The pieces one behind the other.
pub open spec fn concat(pieces: Seq<Seq<u8>>) -> Seq<u8>
    decreases pieces.len(),
{
    if pieces.len() == 0 {
        Seq::empty()
    } else {
        concat(pieces.drop_last()) + pieces.last()
    }
}

/// A piece put before others comes first in what they make together.
pub proof fn lemma_concat_front(piece: Seq<u8>, others: Seq<Seq<u8>>)
    ensures
        concat(seq![piece] + others) == piece + concat(others),
    decreases others.len(),
{
    let all = seq![piece] + others;
    if others.len() == 0 {
        assert(all.drop_last() == Seq::<Seq<u8>>::empty());
        assert(concat(all) == concat(all.drop_last()) + all.last());
        assert(concat(all.drop_last()) == Seq::<u8>::empty());
        assert(Seq::<u8>::empty() + piece == piece + Seq::<u8>::empty());
    } else {
        assert(all.drop_last() == seq![piece] + others.drop_last());
        assert(all.last() == others.last());
        lemma_concat_front(piece, others.drop_last());
        assert((piece + concat(others.drop_last())) + others.last() == piece + (concat(
            others.drop_last(),
        ) + others.last()));
    }
}

/// The chunks of an input are not empty, none is longer than the chunk size,
/// and one behind the other they are the input.
pub proof fn lemma_chunks_cover_input(input: Seq<u8>, size: int)
    requires
        size > 0,
    ensures
        forall|k: int|
            0 <= k < chunks(input, size).len() ==> 0 < (#[trigger] chunks(input, size)[k]).len()
                <= size,
        concat(chunks(input, size)) == input,
    decreases input.len(),
{
    if input.len() == 0 {
    } else if input.len() <= size {
        lemma_concat_front(input, Seq::empty());
        assert(seq![input] + Seq::<Seq<u8>>::empty() == seq![input]);
        assert(input + Seq::<u8>::empty() == input);
    } else {
        let rest = chunks(input.skip(size), size);
        lemma_chunks_cover_input(input.skip(size), size);
        lemma_concat_front(input.take(size), rest);
        assert(input.take(size) + input.skip(size) == input);
        assert forall|k: int| 0 <= k < chunks(input, size).len() implies 0 < (#[trigger] chunks(
            input,
            size,
        )[k]).len() <= size by {
            if k > 0 {
                assert(chunks(input, size)[k] == rest[k - 1]);
            }
        }
    }
}

/// With the chunk margin free, a chunk between two markers overflows no
/// symbol: the encode direction never fails for want of room.
pub proof fn lemma_chunk_fits(settings: crate::capacity::QrSettings, piece: Seq<u8>)
    requires
        chunk_len(settings.spec_max_len()) is Ok,
        piece.len() <= chunk_len(settings.spec_max_len())->Ok_0,
    ensures
        crate::qr::created_image(settings, DATA_HEADER@, piece, DATA_HEADER@) is Ok,
{
    crate::qr::lemma_capacity_boundary(settings, DATA_HEADER@, piece, DATA_HEADER@);
}

/// With settings whose symbols have room for a chunk, no chunk of any input
/// overflows its symbol.
pub proof fn lemma_every_chunk_fits(settings: crate::capacity::QrSettings, input: Seq<u8>)
    requires
        chunk_len(settings.spec_max_len()) is Ok,
    ensures
        forall|k: int|
            0 <= k < chunks(input, chunk_len(settings.spec_max_len())->Ok_0).len()
                ==> crate::qr::created_image(
                settings,
                DATA_HEADER@,
                #[trigger] chunks(input, chunk_len(settings.spec_max_len())->Ok_0)[k],
                DATA_HEADER@,
            ) is Ok,
{
    let size = chunk_len(settings.spec_max_len())->Ok_0;
    lemma_chunks_cover_input(input, size);
    assert forall|k: int| 0 <= k < chunks(input, size).len() implies crate::qr::created_image(
        settings,
        DATA_HEADER@,
        #[trigger] chunks(input, size)[k],
        DATA_HEADER@,
    ) is Ok by {
        lemma_chunk_fits(settings, chunks(input, size)[k]);
    }
}

/// Where each frame gives back the chunk that it was made of, the decode
/// direction gives back the input: the payloads are joined in the order of
/// the frames, which is that of the chunks.
pub proof fn lemma_stream_round_trip<R: QrReader>(
    reader: R,
    input: Seq<u8>,
    size: int,
    frames: Seq<Seq<u8>>,
)
    requires
        size > 0,
        frames.len() == chunks(input, size).len(),
        forall|k: int|
            0 <= k < frames.len() ==> reader.decoded(DATA_HEADER@, #[trigger] frames[k], DATA_HEADER@)
                == Ok::<Seq<u8>, CodecError>(chunks(input, size)[k]),
    ensures
        joined_payloads(reader, frames) == Ok::<Seq<u8>, CodecError>(input),
{
    lemma_joined_payloads_are_pieces(reader, frames, chunks(input, size));
    lemma_chunks_cover_input(input, size);
}

/// Where each frame gives a piece, the frames together give the pieces one
/// behind the other.
pub proof fn lemma_joined_payloads_are_pieces<R: QrReader>(
    reader: R,
    frames: Seq<Seq<u8>>,
    pieces: Seq<Seq<u8>>,
)
    requires
        frames.len() == pieces.len(),
        forall|k: int|
            0 <= k < frames.len() ==> reader.decoded(DATA_HEADER@, #[trigger] frames[k], DATA_HEADER@)
                == Ok::<Seq<u8>, CodecError>(pieces[k]),
    ensures
        joined_payloads(reader, frames) == Ok::<Seq<u8>, CodecError>(concat(pieces)),
    decreases frames.len(),
{
    if frames.len() > 0 {
        let last = frames.len() - 1;
        assert(frames.last() == frames[last]);
        assert forall|k: int| 0 <= k < last implies reader.decoded(
            DATA_HEADER@,
            #[trigger] frames.drop_last()[k],
            DATA_HEADER@,
        ) == Ok::<Seq<u8>, CodecError>(pieces.drop_last()[k]) by {
            assert(frames.drop_last()[k] == frames[k]);
        }
        lemma_joined_payloads_are_pieces(reader, frames.drop_last(), pieces.drop_last());
    }
}

/// The images that `creater` makes of `pieces` between two markers, in the
/// order of the pieces; the error of the first piece that has none.
pub open spec fn encoded_stream<C: QrCreater>(creater: C, pieces: Seq<Seq<u8>>) -> Result<
    Seq<Seq<u8>>,
    CodecError,
>
    decreases pieces.len(),
{
    if pieces.len() == 0 {
        Ok(Seq::empty())
    } else {
        match encoded_stream(creater, pieces.drop_last()) {
            Err(e) => Err(e),
            Ok(images) => match creater.encoded(DATA_HEADER@, pieces.last(), DATA_HEADER@) {
                Err(e) => Err(e),
                Ok(image) => Ok(images.push(image)),
            },
        }
    }
}

/// Images that are those of the pieces one for one are the encoded stream of
/// the pieces.
pub proof fn lemma_images_are_encoded_stream<C: QrCreater>(
    creater: C,
    pieces: Seq<Seq<u8>>,
    images: Seq<Seq<u8>>,
)
    requires
        images_of(creater, pieces, images),
    ensures
        encoded_stream(creater, pieces) == Ok::<Seq<Seq<u8>>, CodecError>(images),
    decreases pieces.len(),
{
    if pieces.len() > 0 {
        let last = pieces.len() - 1;
        assert forall|k: int| 0 <= k < last implies creater.encoded(
            DATA_HEADER@,
            #[trigger] pieces.drop_last()[k],
            DATA_HEADER@,
        ) == Ok::<Seq<u8>, CodecError>(images.drop_last()[k]) by {
            assert(pieces.drop_last()[k] == pieces[k]);
        }
        lemma_images_are_encoded_stream(creater, pieces.drop_last(), images.drop_last());
        assert(pieces.last() == pieces[last]);
        assert(images.drop_last().push(images[last]) == images);
    } else {
        assert(images == Seq::<Seq<u8>>::empty());
    }
}

/// Once a piece has no image, the pieces behind it do not change the error.
pub proof fn lemma_first_failure_stays<C: QrCreater>(creater: C, pieces: Seq<Seq<u8>>, upto: int)
    requires
        0 <= upto <= pieces.len(),
        encoded_stream(creater, pieces.take(upto)) is Err,
    ensures
        encoded_stream(creater, pieces) == encoded_stream(creater, pieces.take(upto)),
    decreases pieces.len() - upto,
{
    if upto < pieces.len() {
        assert(pieces.take(upto + 1).drop_last() == pieces.take(upto));
        lemma_first_failure_stays(creater, pieces, upto + 1);
    } else {
        assert(pieces.take(upto) == pieces);
    }
}

/// Where every piece has an image, the pieces have an encoded stream.
pub proof fn lemma_pieces_with_images_encode<C: QrCreater>(creater: C, pieces: Seq<Seq<u8>>)
    requires
        forall|k: int|
            0 <= k < pieces.len() ==> creater.encoded(DATA_HEADER@, #[trigger] pieces[k], DATA_HEADER@)
                is Ok,
    ensures
        encoded_stream(creater, pieces) is Ok,
    decreases pieces.len(),
{
    if pieces.len() > 0 {
        assert forall|k: int| 0 <= k < pieces.len() - 1 implies creater.encoded(
            DATA_HEADER@,
            #[trigger] pieces.drop_last()[k],
            DATA_HEADER@,
        ) is Ok by {
            assert(pieces.drop_last()[k] == pieces[k]);
        }
        lemma_pieces_with_images_encode(creater, pieces.drop_last());
        assert(pieces.last() == pieces[pieces.len() - 1]);
    }
}

/// With settings whose symbols have room for a chunk, every input has an
/// encoded stream: the encode direction fails only where the writer does.
pub proof fn lemma_encode_direction_has_images(creater: crate::qr::QrcodeCreater, input: Seq<u8>)
    requires
        chunk_len(creater.capacity()) is Ok,
    ensures
        encoded_stream(creater, chunks(input, chunk_len(creater.capacity())->Ok_0)) is Ok,
{
    lemma_every_chunk_fits(creater.settings(), input);
    lemma_pieces_with_images_encode(creater, chunks(input, chunk_len(creater.capacity())->Ok_0));
}

/// The bytes reported by a run over `pieces` whose writer took `taken` images:
/// those of the pieces that have their image with the writer and, where the
/// run stopped early, those of the piece at which it stopped.
pub open spec fn reported_bytes(pieces: Seq<Seq<u8>>, taken: int) -> nat {
    if taken < pieces.len() {
        concat(pieces.take(taken + 1)).len()
    } else {
        concat(pieces).len()
    }
}

/// How a run over `pieces` ended that handed the images `added` to its
/// writer. The images are those of the first pieces, one for one. The run
/// succeeded where that is all pieces. Else the next piece had no image, and
/// the run failed as making the image did, or the writer did not take the
/// image of the next piece.
pub open spec fn stopped_at<C: QrCreater>(
    creater: C,
    pieces: Seq<Seq<u8>>,
    added: Seq<Seq<u8>>,
    r: Result<(), CodecError>,
) -> bool {
    let next = added.len() as int;
    &&& next <= pieces.len()
    &&& images_of(creater, pieces.take(next), added)
    &&& match r {
        Ok(_) => next == pieces.len(),
        Err(e) => next < pieces.len() && match creater.encoded(
            DATA_HEADER@,
            pieces[next],
            DATA_HEADER@,
        ) {
            Err(cause) => e == cause,
            Ok(_) => e == CodecError::UpstreamProcessFailure,
        },
    }
}

/// What a run reports follows from the pieces alone but for the writer's part:
/// with an image for every piece it succeeds unless the writer fails, and
/// without, it fails as making the first missing image does unless the writer
/// fails before.
pub open spec fn reports<C: QrCreater>(
    creater: C,
    pieces: Seq<Seq<u8>>,
    r: Result<(), CodecError>,
) -> bool {
    ||| r == Err::<(), CodecError>(CodecError::UpstreamProcessFailure)
    ||| match encoded_stream(creater, pieces) {
        Ok(_) => r is Ok,
        Err(e) => r == Err::<(), CodecError>(e),
    }
}

/// A run that stopped as `stopped_at` says reports as `reports` says.
pub proof fn lemma_stopped_run_reports<C: QrCreater>(
    creater: C,
    pieces: Seq<Seq<u8>>,
    added: Seq<Seq<u8>>,
    r: Result<(), CodecError>,
)
    requires
        stopped_at(creater, pieces, added, r),
    ensures
        reports(creater, pieces, r),
        r is Ok ==> encoded_stream(creater, pieces) == Ok::<Seq<Seq<u8>>, CodecError>(added),
{
    let next = added.len() as int;
    lemma_images_are_encoded_stream(creater, pieces.take(next), added);
    if r is Ok {
        assert(pieces.take(next) == pieces);
    } else if creater.encoded(DATA_HEADER@, pieces[next], DATA_HEADER@) is Err {
        assert(pieces.take(next + 1).drop_last() == pieces.take(next));
        assert(pieces.take(next + 1).last() == pieces[next]);
        lemma_first_failure_stays(creater, pieces, next + 1);
    }
}

/// Cuts `input` into chunks, has `qr_creater` make an image of each between
/// two markers, and hands the images to `writer` in the order of the chunks,
/// each as soon as it is made. Each chunk's length is reported to
/// `progressbar` before its image is made. The run stops at the first chunk
/// without an image and at the first image that the writer does not take.
pub fn write_frames<W: VideoWriter, C: QrCreater, P: Progressbar>(
    input: &[u8],
    writer: &mut Recording<W>,
    qr_creater: &mut C,
    progressbar: &mut Metered<P>,
) -> (r: Result<(), CodecError>)
    ensures
        *final(qr_creater) == *old(qr_creater),
        old(writer).frames().len() <= final(writer).frames().len(),
        final(writer).frames().take(old(writer).frames().len() as int) == old(writer).frames(),
        match chunk_len(old(qr_creater).capacity()) {
            Err(e) => r == Err::<(), CodecError>(e) && final(writer).frames() == old(
                writer,
            ).frames(),
            Ok(size) => stopped_at(
                *old(qr_creater),
                chunks(input@, size),
                final(writer).frames().skip(old(writer).frames().len() as int),
                r,
            ),
        },
        final(progressbar).units() == old(progressbar).units() + match chunk_len(
            old(qr_creater).capacity(),
        ) {
            Err(_) => 0,
            Ok(size) => reported_bytes(
                chunks(input@, size),
                final(writer).frames().len() - old(writer).frames().len(),
            ),
        },
        r is Ok ==> final(progressbar).units() == old(progressbar).units() + input@.len(),
{
    let capacity = match qr_creater.max_buffer_len() {
        Ok(capacity) => capacity,
        Err(e) => {
            assert(writer.frames().take(writer.frames().len() as int) == writer.frames());
            return Err(e);
        },
    };
    if capacity <= CHUNK_MARGIN {
        assert(writer.frames().take(writer.frames().len() as int) == writer.frames());
        return Err(CodecError::InvalidQrSettings);
    }
    let size: usize = capacity - CHUNK_MARGIN;
    let total: usize = input.len();
    let mut position: usize = 0;
    let ghost before = writer.frames();
    let ghost creater = *qr_creater;
    let ghost all = chunks(input@, size as int);
    let ghost mut images: Seq<Seq<u8>> = Seq::empty();
    proof {
        assert(input@.skip(0) == input@);
        assert(all.take(0) + all == all);
        assert((before + images).take(before.len() as int) == before);
        assert((before + images).skip(before.len() as int) == images);
    }
    while position < total
        invariant
            size > 0,
            total == input@.len(),
            position <= total,
            *qr_creater == creater,
            creater == *old(qr_creater),
            all == chunks(input@, size as int),
            chunk_len(creater.capacity()) == Ok::<int, CodecError>(size as int),
            before == old(writer).frames(),
            writer.frames() == before + images,
            images.len() <= all.len(),
            images_of(creater, all.take(images.len() as int), images),
            all == all.take(images.len() as int) + chunks(
                input@.skip(position as int),
                size as int,
            ),
            progressbar.units() == old(progressbar).units() + position,
            position == concat(all.take(images.len() as int)).len(),
        decreases total - position,
    {
        let end: usize = if total - position <= size {
            total
        } else {
            position + size
        };
        let piece = vstd::slice::slice_subrange(input, position, end);
        let ghost done = images.len() as int;
        proof {
            let rest = input@.skip(position as int);
            let tail = chunks(input@.skip(end as int), size as int);
            if total - position <= size {
                assert(piece@ == rest);
                assert(input@.skip(end as int).len() == 0);
                assert(tail == Seq::<Seq<u8>>::empty());
                assert(chunks(rest, size as int) == seq![piece@] + tail);
            } else {
                assert(piece@ == rest.take(size as int));
                assert(rest.skip(size as int) == input@.skip(end as int));
            }
            assert(all == all.take(done) + (seq![piece@] + tail));
            assert(all[done] == piece@);
            assert(done < all.len());
            assert(all.take(done + 1) == all.take(done).push(piece@));
            assert(all.take(done + 1) + tail == all.take(done) + (seq![piece@] + tail));
            assert(all.take(done + 1).drop_last() == all.take(done));
            assert(all.take(done + 1).last() == piece@);
            assert(concat(all.take(done + 1)).len() == position + piece@.len());
            assert((before + images).take(before.len() as int) == before);
            assert((before + images).skip(before.len() as int) == images);
        }
        progressbar.update(end - position);
        let image = match qr_creater.create(DATA_HEADER.as_slice(), piece, DATA_HEADER.as_slice()) {
            Ok(image) => image,
            Err(e) => {
                return Err(e);
            },
        };
        if let Err(e) = writer.write(image.as_slice()) {
            return Err(e);
        }
        proof {
            assert((before + images).push(image@) == before + images.push(image@));
            images = images.push(image@);
            assert((before + images).take(before.len() as int) == before);
            assert((before + images).skip(before.len() as int) == images);
            assert forall|k: int| 0 <= k < done + 1 implies creater.encoded(
                DATA_HEADER@,
                #[trigger] all.take(done + 1)[k],
                DATA_HEADER@,
            ) == Ok::<Seq<u8>, CodecError>(images[k]) by {
                if k < done {
                    assert(all.take(done + 1)[k] == all.take(done)[k]);
                }
            }
        }
        position = end;
    }
    proof {
        assert(chunks(input@.skip(position as int), size as int) == Seq::<Seq<u8>>::empty());
        assert(all.take(images.len() as int) + Seq::<Seq<u8>>::empty() == all.take(
            images.len() as int,
        ));
        assert(all.take(images.len() as int) == all);
        assert(all.take(images.len() as int).len() == images.len());
        assert((before + images).take(before.len() as int) == before);
        assert((before + images).skip(before.len() as int) == images);
    }
    Ok(())
}

/// Turns `input` into the frames of a video: the images of its chunks go to
/// `writer` in order, as `write_frames` has it, and the video is then ended.
/// Where the run stops early the video is not ended.
pub fn file_to_qr_internal<W: VideoWriter, C: QrCreater, P: Progressbar>(
    input: &[u8],
    writer: W,
    qr_creater: C,
    progressbar: P,
) -> (r: Result<(), CodecError>)
    ensures
        match chunk_len(qr_creater.capacity()) {
            Err(e) => r == Err::<(), CodecError>(e),
            Ok(size) => reports(qr_creater, chunks(input@, size), r),
        },
{
    let mut writer = Recording::new(writer);
    let mut progressbar = Metered::new(progressbar);
    let mut qr_creater = qr_creater;
    let written = write_frames(input, &mut writer, &mut qr_creater, &mut progressbar);
    proof {
        if chunk_len(qr_creater.capacity()) is Ok {
            let size = chunk_len(qr_creater.capacity())->Ok_0;
            lemma_stopped_run_reports(
                qr_creater,
                chunks(input@, size),
                writer.frames().skip(0),
                written,
            );
        }
    }
    if let Err(e) = written {
        return Err(e);
    }
    writer.finish()
}

/// The number of frames before the first that has no payload.
pub open spec fn readable_frames<R: QrReader>(reader: R, frames: Seq<Seq<u8>>) -> nat
    decreases frames.len(),
{
    if frames.len() == 0 || reader.decoded(DATA_HEADER@, frames.first(), DATA_HEADER@) is Err {
        0
    } else {
        1 + readable_frames(reader, frames.drop_first())
    }
}

/// Once a frame has no payload, the frames behind it do not change the error.
pub proof fn lemma_first_error_stays<R: QrReader>(reader: R, frames: Seq<Seq<u8>>, upto: int)
    requires
        0 <= upto <= frames.len(),
        joined_payloads(reader, frames.take(upto)) is Err,
    ensures
        joined_payloads(reader, frames) == joined_payloads(reader, frames.take(upto)),
    decreases frames.len() - upto,
{
    if upto < frames.len() {
        assert(frames.take(upto + 1).drop_last() == frames.take(upto));
        lemma_first_error_stays(reader, frames, upto + 1);
    } else {
        assert(frames.take(upto) == frames);
    }
}

/// The payloads of the frames before the first that has none, joined in the
/// order of the frames.
pub open spec fn readable_payloads<R: QrReader>(reader: R, frames: Seq<Seq<u8>>) -> Seq<u8>
    decreases frames.len(),
{
    if frames.len() == 0 {
        Seq::empty()
    } else {
        match reader.decoded(DATA_HEADER@, frames.first(), DATA_HEADER@) {
            Err(_) => Seq::empty(),
            Ok(payload) => payload + readable_payloads(reader, frames.drop_first()),
        }
    }
}

/// The number of frames that a run takes from its video: those before the
/// first that has no payload, and that one.
pub open spec fn frames_taken<R: QrReader>(reader: R, frames: Seq<Seq<u8>>) -> nat {
    let readable = readable_frames(reader, frames);
    if readable < frames.len() {
        readable + 1
    } else {
        frames.len()
    }
}

/// What a run reports whose payloads would join to `joined`.
pub open spec fn run_outcome(joined: Result<Seq<u8>, CodecError>) -> Result<(), CodecError> {
    match joined {
        Ok(_) => Ok(()),
        Err(e) => Err(e),
    }
}

/// Takes images from `video_reader`, has `qr_reader` find the payload of each
/// between two markers, and appends the payloads to `output` in the order of
/// the images, each as soon as it is found. One unit per payload is reported
/// to `progressbar`. The run stops at the first image without a payload: what
/// the images before it gave stays in `output`, that image is not skipped, and
/// no image behind it is taken.
pub fn read_payloads<I: ImageStreamReader, R: QrReader, P: Progressbar>(
    video_reader: &mut FrameStream<I>,
    qr_reader: &mut R,
    output: &mut Vec<u8>,
    progressbar: &mut Metered<P>,
) -> (r: Result<(), CodecError>)
    ensures
        *final(qr_reader) == *old(qr_reader),
        final(video_reader).extractor() == old(video_reader).extractor(),
        match old(qr_reader).capacity() {
            Err(e) => {
                &&& r == Err::<(), CodecError>(e)
                &&& final(output)@ == old(output)@
                &&& final(video_reader).pending() == old(video_reader).pending()
                &&& final(progressbar).units() == old(progressbar).units()
            },
            Ok(_) => {
                let frames = old(video_reader).pending();
                &&& r == run_outcome(joined_payloads(*old(qr_reader), frames))
                &&& final(output)@ == old(output)@ + readable_payloads(*old(qr_reader), frames)
                &&& final(video_reader).pending() == frames.skip(
                    frames_taken(*old(qr_reader), frames) as int,
                )
                &&& final(progressbar).units() == old(progressbar).units() + readable_frames(
                    *old(qr_reader),
                    frames,
                )
            },
        },
        r is Ok ==> {
            &&& joined_payloads(*old(qr_reader), old(video_reader).pending()) == Ok::<
                Seq<u8>,
                CodecError,
            >(final(output)@.skip(old(output)@.len() as int))
            &&& final(video_reader).remaining().len() == 0
        },
{
    let capacity = match qr_reader.max_buffer_len() {
        Ok(capacity) => capacity,
        Err(e) => {
            return Err(e);
        },
    };
    let mut buffer: Vec<u8> = Vec::with_capacity(capacity);
    let mut done = false;
    let ghost before = output@;
    let ghost all = video_reader.pending();
    let ghost reader = *qr_reader;
    let ghost mut added: Seq<u8> = Seq::empty();
    let ghost mut taken: int = 0;
    proof {
        assert(all.skip(0) == all);
        assert(before + added == before);
        assert(added + readable_payloads(reader, all) == readable_payloads(reader, all));
    }
    while !done
        invariant
            *qr_reader == reader,
            reader == *old(qr_reader),
            reader.capacity() is Ok,
            before == old(output)@,
            all == old(video_reader).pending(),
            video_reader.extractor() == old(video_reader).extractor(),
            0 <= taken <= all.len(),
            video_reader.pending() == all.skip(taken),
            done ==> taken == all.len() && video_reader.remaining().len() == 0,
            output@ == before + added,
            joined_payloads(reader, all.take(taken)) == Ok::<Seq<u8>, CodecError>(added),
            readable_payloads(reader, all) == added + readable_payloads(reader, all.skip(taken)),
            readable_frames(reader, all) == taken + readable_frames(reader, all.skip(taken)),
            progressbar.units() == old(progressbar).units() + taken,
        decreases all.len() - taken + (if done { 0int } else { 1int }),
    {
        let count = video_reader.take_frame(&mut buffer);
        if count == 0 {
            done = true;
        } else {
            let ghost frames = all.take(taken + 1);
            proof {
                assert(buffer@ == all[taken]);
                assert(frames.drop_last() == all.take(taken));
                assert(frames.last() == all[taken]);
                assert(all.skip(taken).drop_first() == all.skip(taken + 1));
                assert(all.skip(taken).first() == all[taken]);
            }
            let payload = match qr_reader.read(
                DATA_HEADER.as_slice(),
                buffer.as_slice(),
                DATA_HEADER.as_slice(),
            ) {
                Ok(payload) => payload,
                Err(e) => {
                    proof {
                        assert(joined_payloads(reader, frames) == Err::<Seq<u8>, CodecError>(e));
                        lemma_first_error_stays(reader, all, taken + 1);
                        assert(readable_payloads(reader, all.skip(taken)) == Seq::<u8>::empty());
                        assert(added + Seq::<u8>::empty() == added);
                    }
                    return Err(e);
                },
            };
            progressbar.update(1);
            output.extend_from_slice(payload.as_slice());
            proof {
                assert(joined_payloads(reader, frames.drop_last()) == Ok::<Seq<u8>, CodecError>(
                    added,
                ));
                assert(joined_payloads(reader, frames) == Ok::<Seq<u8>, CodecError>(
                    added + payload@,
                ));
                assert((before + added) + payload@ == before + (added + payload@));
                assert(added + (payload@ + readable_payloads(reader, all.skip(taken + 1))) == (added
                    + payload@) + readable_payloads(reader, all.skip(taken + 1)));
                added = added + payload@;
                taken = taken + 1;
            }
        }
    }
    proof {
        assert(all.take(taken) == all);
        assert(added + Seq::<u8>::empty() == added);
        assert((before + added).skip(before.len() as int) == added);
    }
    Ok(())
}

/// Turns the frames of a video back into the byte stream: the payloads of the
/// images that `video_reader` holds are appended to `output` in the order of
/// the images, as `read_payloads` has it, and the video is then released.
/// Where an image has no payload, `output` keeps what the images before it
/// gave, and the video is not released.
pub fn qr_to_file_internal<I: ImageStreamReader, R: QrReader, P: Progressbar>(
    video_reader: FrameStream<I>,
    qr_reader: R,
    output: &mut Vec<u8>,
    progressbar: P,
) -> (r: Result<(), CodecError>)
    ensures
        match qr_reader.capacity() {
            Err(e) => r == Err::<(), CodecError>(e) && final(output)@ == old(output)@,
            Ok(_) => {
                &&& r == run_outcome(joined_payloads(qr_reader, video_reader.pending()))
                &&& final(output)@ == old(output)@ + readable_payloads(
                    qr_reader,
                    video_reader.pending(),
                )
            },
        },
        r is Ok ==> joined_payloads(qr_reader, video_reader.pending()) == Ok::<Seq<u8>, CodecError>(
            final(output)@.skip(old(output)@.len() as int),
        ),
{
    let mut video_reader = video_reader;
    let mut qr_reader = qr_reader;
    let mut progressbar = Metered::new(progressbar);
    if let Err(e) = read_payloads(&mut video_reader, &mut qr_reader, output, &mut progressbar) {
        return Err(e);
    }
    match video_reader.finish() {
        Ok(_) => Ok(()),
        Err(e) => Err(e),
    }
}

} // verus!
