//! Building a symbol with the encoding library: the bit stream that takes the
//! byte segments, and the symbol made from it.
//!
//! Nothing here is proved. Each function calls into the `qrcode` crate, and
//! its contract says what that crate's source shows of the call.

use vstd::prelude::*;
use crate::raster::GrayFrame;

verus! {

/// `qrcode::bits::Bits`, the bit stream of a symbol under construction. What
/// it holds is known by `bits_version`, `bits_len`, `bits_segments`,
/// `bits_open` and `bits_terminated` alone.
#[verifier::external_type_specification]
#[verifier::external_body]
pub struct ExBits(qrcode::bits::Bits);

/// `qrcode::QrCode`, a finished symbol. What it holds is known by `qr_side`
/// and `qr_modules` alone.
#[verifier::external_type_specification]
#[verifier::external_body]
pub struct ExQrCode(qrcode::QrCode);

/// `qrcode::types::QrError`, the encoding library's reason for a refusal. It
/// is never looked into.
#[verifier::external_type_specification]
#[verifier::external_body]
pub struct ExQrError(qrcode::types::QrError);

/// The error-correction level of a symbol, from the least redundancy to the
/// most.
#[derive(Clone, Copy, Debug, PartialEq, Eq, Structural)]
pub enum EcLevel {
    L,
    M,
    Q,
    H,
}

impl EcLevel {
    /// The column of the capacity table that belongs to the level.
    pub open spec fn index(&self) -> int {
        match self {
            EcLevel::L => 0,
            EcLevel::M => 1,
            EcLevel::Q => 2,
            EcLevel::H => 3,
        }
    }
}

/// The version that a bit stream was opened for.
pub uninterp spec fn bits_version(bits: qrcode::bits::Bits) -> int;

/// The number of bits in a bit stream.
pub uninterp spec fn bits_len(bits: qrcode::bits::Bits) -> int;

/// The byte segments that a bit stream holds from its front, oldest first.
pub uninterp spec fn bits_segments(bits: qrcode::bits::Bits) -> Seq<Seq<u8>>;

/// The bit stream is made of whole byte segments and of nothing else: no
/// terminator, no padding, no part of a segment.
pub uninterp spec fn bits_open(bits: qrcode::bits::Bits) -> bool;

/// The bit stream is made of whole byte segments and, behind them, of the
/// terminator and the padding that one `push_terminator` writes.
pub uninterp spec fn bits_terminated(bits: qrcode::bits::Bits) -> bool;

/// The number of modules on each side of a symbol.
pub uninterp spec fn qr_side(code: qrcode::QrCode) -> int;

/// The modules of a symbol, row by row, dark as `true`.
pub uninterp spec fn qr_modules(code: qrcode::QrCode) -> Seq<bool>;

/// The modules of the symbol that the encoding library makes of a terminated
/// bit stream, given its version, the level and the byte segments in it.
pub uninterp spec fn symbol_modules(version: int, level: int, segments: Seq<Seq<u8>>) -> Seq<bool>;

/// Width, height and pixels of the drawing that the encoding library makes of
/// a symbol's modules, one byte of luminance per pixel.
pub uninterp spec fn luma_rendering(modules: Seq<bool>) -> (int, int, Seq<u8>);

/// `qrcode::bits::Bits::new`, for the normal version of the given number: an
/// open stream for that version without bits or segments.
#[verifier::external_body]
pub(crate) fn bits_new(version: u8) -> (bits: qrcode::bits::Bits)
    ensures
        bits_version(bits) == version,
        bits_len(bits) == 0,
        bits_segments(bits) == Seq::<Seq<u8>>::empty(),
        bits_open(bits),
{
    qrcode::bits::Bits::new(qrcode::Version::Normal(i16::from(version)))
}

/// `qrcode::bits::Bits::push_byte_data`, on an open stream. It writes the mode
/// indicator, then the length in the length field of the version, and fails
/// where the length does not fit that field; else it writes the bytes, eight
/// bits each, and the stream is open with one segment more. Of a stream on
/// which it failed nothing is said: it holds a mode indicator without
/// segment.
#[verifier::external_body]
pub(crate) fn bits_push_byte_data(bits: &mut qrcode::bits::Bits, data: &[u8]) -> (r: Result<
    (),
    qrcode::types::QrError,
>)
    requires
        1 <= bits_version(*old(bits)) <= 40,
        bits_open(*old(bits)),
    ensures
        bits_version(*final(bits)) == bits_version(*old(bits)),
        r is Ok ==> bits_open(*final(bits)),
        r is Ok <==> data@.len() < (if bits_version(*old(bits)) < 10 {
            256int
        } else {
            65536int
        }),
        r is Ok ==> bits_len(*final(bits)) == bits_len(*old(bits)) + crate::capacity::segment_bits(
            bits_version(*old(bits)),
            data@.len() as int,
        ),
        r is Ok ==> bits_segments(*final(bits)) == bits_segments(*old(bits)).push(data@),
{
    bits.push_byte_data(data)
}

/// `qrcode::bits::Bits::push_terminator`, on an open stream. It fails where
/// the stream is longer than the data bits of version and level; else it
/// fills the stream up to exactly that many with the terminator and padding,
/// and leaves the segments as they are: the stream is terminated.
#[verifier::external_body]
pub(crate) fn bits_push_terminator(bits: &mut qrcode::bits::Bits, level: EcLevel) -> (r: Result<
    (),
    qrcode::types::QrError,
>)
    requires
        1 <= bits_version(*old(bits)) <= 40,
        bits_open(*old(bits)),
    ensures
        bits_version(*final(bits)) == bits_version(*old(bits)),
        r is Ok ==> bits_terminated(*final(bits)),
        r is Ok <==> bits_len(*old(bits)) <= crate::capacity::data_bits(
            bits_version(*old(bits)),
            level.index(),
        ),
        r is Ok ==> bits_len(*final(bits)) == crate::capacity::data_bits(
            bits_version(*old(bits)),
            level.index(),
        ),
        r is Ok ==> bits_segments(*final(bits)) == bits_segments(*old(bits)),
{
    let level = match level {
        EcLevel::L => qrcode::EcLevel::L,
        EcLevel::M => qrcode::EcLevel::M,
        EcLevel::Q => qrcode::EcLevel::Q,
        EcLevel::H => qrcode::EcLevel::H,
    };
    bits.push_terminator(level)
}

/// `qrcode::QrCode::with_bits`, on a terminated stream of a normal version
/// that is as long as the data bits of version and level, so that the level
/// is that of its terminator. It returns a symbol of 17 modules and four for
/// each version on each side, which depends on version, level and segments
/// alone.
#[verifier::external_body]
pub(crate) fn qr_with_bits(bits: qrcode::bits::Bits, level: EcLevel) -> (r: Result<
    qrcode::QrCode,
    qrcode::types::QrError,
>)
    requires
        1 <= bits_version(bits) <= 40,
        bits_terminated(bits),
        bits_len(bits) == crate::capacity::data_bits(bits_version(bits), level.index()),
    ensures
        r is Ok,
        r is Ok ==> qr_side(r->Ok_0) == 17 + 4 * bits_version(bits),
        r is Ok ==> qr_modules(r->Ok_0) == symbol_modules(
            bits_version(bits),
            level.index(),
            bits_segments(bits),
        ),
{
    let level = match level {
        EcLevel::L => qrcode::EcLevel::L,
        EcLevel::M => qrcode::EcLevel::M,
        EcLevel::Q => qrcode::EcLevel::Q,
        EcLevel::H => qrcode::EcLevel::H,
    };
    qrcode::QrCode::with_bits(bits, level)
}

/// `qrcode::QrCode::render` with `image::Luma<u8>` pixels and the renderer's
/// defaults, built at once, for a full-size symbol: the drawing of the
/// symbol's modules, eight pixels to the module, with a quiet zone of four
/// modules on every side.
#[verifier::external_body]
pub(crate) fn qr_render(code: &qrcode::QrCode) -> (frame: GrayFrame)
    requires
        21 <= qr_side(*code) <= 177,
    ensures
        frame.width == 8 * (qr_side(*code) + 8),
        frame.height == frame.width,
        frame.pixels@.len() == frame.width * frame.height,
        (frame.width as int, frame.height as int, frame.pixels@) == luma_rendering(
            qr_modules(*code),
        ),
{
    let image = code.render::<image::Luma<u8>>().build();
    GrayFrame { width: image.width(), height: image.height(), pixels: image.into_raw() }
}

} // verus!
