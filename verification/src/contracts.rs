//! The interfaces between the codec, the frame extractor and the
//! collaborators that move frames to and from a video.

use vstd::prelude::*;
use crate::error::CodecError;

verus! {

/// Takes the still images of a video in the making, in the order in which they
/// are to be shown.
pub trait VideoWriter: Sized {
    /// Takes one image. The one way to fail is that the video collaborator
    /// has stopped or its pipe has broken.
    fn write(&mut self, buffer: &[u8]) -> (r: Result<(), CodecError>)
        ensures
            r is Err ==> r == Err::<(), CodecError>(CodecError::UpstreamProcessFailure),
    ;

    /// Ends the video. To be called once, behind the last `write`.
    fn finish(self) -> (r: Result<(), CodecError>)
        ensures
            r is Err ==> r == Err::<(), CodecError>(CodecError::UpstreamProcessFailure),
    ;
}

/// Hands out the still images of a video, one per call, in the order in which
/// they are shown.
pub trait VideoReader: Sized {
    /// A count of the video's frames, taken beforehand, by which to size a
    /// progress display.
    fn get_frame_count(&self) -> (count: usize);

    /// Leaves the next image in `buffer` and returns how many bytes of the
    /// video's stream it took for that: none where the stream has ended. The
    /// one way to fail is that the video collaborator has stopped or its pipe
    /// has broken.
    fn read(&mut self, buffer: &mut Vec<u8>) -> (r: Result<usize, CodecError>)
        ensures
            r is Err ==> r == Err::<usize, CodecError>(CodecError::UpstreamProcessFailure),
    ;

    /// Releases the video. To be called once, behind the last `read`.
    fn finish(self) -> (r: Result<(), CodecError>)
        ensures
            r is Err ==> r == Err::<(), CodecError>(CodecError::UpstreamProcessFailure),
    ;
}

/// Shows how far a run has come. What it shows has no effect on the run.
pub trait Progressbar {
    /// Reports `position` units more: bytes when encoding, frames when
    /// decoding.
    fn update(&mut self, position: usize);
}

/// Isolates one still image per call from a continuous byte stream.
pub trait ImageStreamReader {
    /// Number of bytes that one call takes from the front of `stream`.
    spec fn consumed(&self, stream: Seq<u8>) -> int;

    /// What the output buffer holds after one call, where it held `before`.
    spec fn extracted(&self, stream: Seq<u8>, before: Seq<u8>) -> Seq<u8>;

    /// Scans `stream` from its front for one image and leaves it in `buffer`.
    /// Returns how many bytes were taken: all of them where the stream ends
    /// first, none only where the stream is empty.
    fn extract_image(&self, stream: &[u8], buffer: &mut Vec<u8>) -> (count: usize)
        ensures
            count == self.consumed(stream@),
            count <= stream@.len(),
            stream@.len() > 0 ==> count > 0,
            final(buffer)@ == self.extracted(stream@, old(buffer)@),
    ;
}

/// Makes the still image of one symbol from a payload between two markers.
pub trait QrCreater: Sized {
    /// The byte capacity of one symbol, or why there is none.
    spec fn capacity(&self) -> Result<int, CodecError>;

    /// The image for header, payload and footer, or why there is none.
    spec fn encoded(&self, header: Seq<u8>, payload: Seq<u8>, footer: Seq<u8>) -> Result<
        Seq<u8>,
        CodecError,
    >;

    /// The byte capacity of one symbol.
    fn max_buffer_len(&self) -> (r: Result<usize, CodecError>)
        ensures
            match r {
                Ok(n) => self.capacity() == Ok::<int, CodecError>(n as int),
                Err(e) => self.capacity() == Err::<int, CodecError>(e),
            },
    ;

    /// Encodes `header`, `buffer` and `footer`, in this order, as one symbol
    /// and returns its still image. The creater is left as it was.
    fn create(&mut self, header: &[u8], buffer: &[u8], footer: &[u8]) -> (r: Result<
        Vec<u8>,
        CodecError,
    >)
        ensures
            crate::error::bytes_outcome(r) == old(self).encoded(header@, buffer@, footer@),
            *final(self) == *old(self),
    ;
}

/// Recovers the payload between two markers from the still image of a symbol.
pub trait QrReader: Sized {
    /// The byte capacity of one symbol, or why there is none.
    spec fn capacity(&self) -> Result<int, CodecError>;

    /// The payload that the image carries between header and footer, or why
    /// there is none.
    spec fn decoded(&self, header: Seq<u8>, image: Seq<u8>, footer: Seq<u8>) -> Result<
        Seq<u8>,
        CodecError,
    >;

    /// The byte capacity of one symbol.
    fn max_buffer_len(&self) -> (r: Result<usize, CodecError>)
        ensures
            match r {
                Ok(n) => self.capacity() == Ok::<int, CodecError>(n as int),
                Err(e) => self.capacity() == Err::<int, CodecError>(e),
            },
    ;

    /// Decodes the first decodable symbol of the image in `buffer` and returns
    /// what stands between `header` and `footer`. The reader is left as it
    /// was, so the same image gives the same payload again.
    fn read(&mut self, header: &[u8], buffer: &[u8], footer: &[u8]) -> (r: Result<
        Vec<u8>,
        CodecError,
    >)
        ensures
            crate::error::bytes_outcome(r) == old(self).decoded(header@, buffer@, footer@),
            *final(self) == *old(self),
    ;
}

} // verus!
