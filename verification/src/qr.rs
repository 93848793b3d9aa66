//! The frame codec: a payload between two markers becomes the still image of
//! one symbol, and such an image becomes the payload again.

use vstd::prelude::*;
use crate::capacity::QrSettings;
use crate::contracts::{QrCreater, QrReader};
use crate::error::{CodecError, Segment};
use crate::symbol::EcLevel;

verus! {

/// The number of the symbol version that a setting names. Every version from
/// 1 to 40 is a full-size symbol, as the capacity table has it.
pub fn get_qr_version(qr_version: u8) -> (r: Result<u8, CodecError>)
    ensures
        match r {
            Ok(version) => version == qr_version && 1 <= version <= 40,
            Err(e) => e == CodecError::InvalidQrSettings && !(1 <= qr_version <= 40),
        },
{
    if qr_version < 1 || qr_version > 40 {
        return Err(CodecError::InvalidQrSettings);
    }
    Ok(qr_version)
}

/// The level that a number from 0 to 3 stands for.
pub open spec fn level_of(level: int) -> Option<EcLevel> {
    if level == 0 {
        Some(EcLevel::L)
    } else if level == 1 {
        Some(EcLevel::M)
    } else if level == 2 {
        Some(EcLevel::Q)
    } else if level == 3 {
        Some(EcLevel::H)
    } else {
        None
    }
}

/// The error-correction level with the given number.
pub fn get_ec_level(error_correction_level: u8) -> (r: Result<EcLevel, CodecError>)
    ensures
        match r {
            Ok(level) => level_of(error_correction_level as int) == Some(level),
            Err(e) => e == CodecError::InvalidQrSettings && level_of(error_correction_level as int)
                is None,
        },
{
    match error_correction_level {
        0 => Ok(EcLevel::L),
        1 => Ok(EcLevel::M),
        2 => Ok(EcLevel::Q),
        3 => Ok(EcLevel::H),
        _ => Err(CodecError::InvalidQrSettings),
    }
}

/// The first of header, data and footer with which the bit stream of a symbol
/// becomes longer than its data bits; `None` where all three fit. The lengths
/// are in bytes.
pub open spec fn first_overflow(
    version: int,
    level: int,
    header: int,
    data: int,
    footer: int,
) -> Option<Segment> {
    let room = crate::capacity::data_bits(version, level);
    let with_header = crate::capacity::segment_bits(version, header);
    let with_data = with_header + crate::capacity::segment_bits(version, data);
    let with_footer = with_data + crate::capacity::segment_bits(version, footer);
    if with_header > room {
        Some(Segment::Header)
    } else if with_data > room {
        Some(Segment::Data)
    } else if with_footer > room {
        Some(Segment::Footer)
    } else {
        None
    }
}

/// The still image of the drawing of the symbol for a version, a level and
/// byte segments that fit it.
pub open spec fn symbol_image(version: int, level: int, segments: Seq<Seq<u8>>) -> Seq<u8> {
    let drawing = crate::symbol::luma_rendering(
        crate::symbol::symbol_modules(version, level, segments),
    );
    crate::raster::png_encoding(drawing.0, drawing.1, drawing.2)->Some_0
}

/// The still image of the symbol for header, payload and footer: there is one
/// exactly where the settings are valid and the three segments fit.
pub open spec fn created_image(
    settings: QrSettings,
    header: Seq<u8>,
    payload: Seq<u8>,
    footer: Seq<u8>,
) -> Result<Seq<u8>, CodecError> {
    let version = settings.qr_version as int;
    let level = settings.error_correction_level as int;
    if !settings.valid() {
        Err(CodecError::InvalidQrSettings)
    } else {
        match first_overflow(
            version,
            level,
            header.len() as int,
            payload.len() as int,
            footer.len() as int,
        ) {
            Some(segment) => Err(CodecError::PayloadTooLarge(segment)),
            None => Ok(symbol_image(version, level, seq![header, payload, footer])),
        }
    }
}

/// Bytes of a symbol's capacity that three segments take besides their
/// contents: the mode indicators and length fields of the second and the
/// third, rounded up to whole bytes.
pub open spec fn framing_overhead(version: int) -> int {
    if version < 10 {
        3
    } else {
        5
    }
}

/// Header, payload and footer fit a symbol exactly where their lengths
/// together leave the framing overhead free of the symbol's capacity: with
/// that many bytes no segment overflows, with one more one does.
pub proof fn lemma_capacity_boundary(
    settings: QrSettings,
    header: Seq<u8>,
    payload: Seq<u8>,
    footer: Seq<u8>,
)
    requires
        settings.valid(),
    ensures
        ({
            let version = settings.qr_version as int;
            let level = settings.error_correction_level as int;
            let room = crate::capacity::capacity(version, level) - framing_overhead(version);
            let sum = header.len() + payload.len() + footer.len();
            let image = created_image(settings, header, payload, footer);
            &&& sum <= room <==> first_overflow(
                version,
                level,
                header.len() as int,
                payload.len() as int,
                footer.len() as int,
            ) is None
            &&& sum <= room <==> image is Ok
            &&& sum > room <==> image is Err && image->Err_0 is PayloadTooLarge
        }),
{
}

/// Where the first symbol that decodes from an image carries header, payload
/// and footer one behind the other, reading the image returns the payload,
/// if the footer stands nowhere in payload and footer before its place.
pub proof fn lemma_read_returns_payload(
    settings: QrSettings,
    header: Seq<u8>,
    payload: Seq<u8>,
    footer: Seq<u8>,
    image: Seq<u8>,
)
    requires
        settings.valid(),
        crate::raster::png_luma(image) is Some,
        ({
            let raster = crate::raster::png_luma(image)->Some_0;
            first_decoded(crate::raster::qr_payloads(raster.0, raster.1, raster.2)) == Some(
                header + payload + footer,
            )
        }),
        crate::marker::is_first_occurrence(payload + footer, footer, payload.len() as int),
    ensures
        read_payload(settings, header, image, footer) == Ok::<Seq<u8>, CodecError>(payload),
{
    let none = Seq::<u8>::empty();
    assert(none + header == header);
    assert((none + header).subrange(0, header.len() as int) == header);
    crate::marker::lemma_payload_between_markers(none, header, payload, footer, none);
    assert(none + header + payload + footer + none == header + payload + footer);
}

/// `index` is that of the first symbol that decoded.
pub open spec fn is_first_decoded(symbols: Seq<Option<Seq<u8>>>, index: int) -> bool {
    &&& 0 <= index < symbols.len()
    &&& symbols[index] is Some
    &&& forall|earlier: int| 0 <= earlier < index ==> symbols[earlier] is None
}

/// The bytes of the first symbol that decoded, if any did.
pub open spec fn first_decoded(symbols: Seq<Option<Seq<u8>>>) -> Option<Seq<u8>> {
    if exists|index: int| is_first_decoded(symbols, index) {
        symbols[choose|index: int| is_first_decoded(symbols, index)]
    } else {
        None
    }
}

/// The payload that the symbols of one image give: that of the first which
/// decoded, between the markers.
pub open spec fn selected_payload(
    symbols: Seq<Option<Seq<u8>>>,
    header: Seq<u8>,
    footer: Seq<u8>,
) -> Result<Seq<u8>, CodecError> {
    match first_decoded(symbols) {
        None => Err(CodecError::QrNotFound),
        Some(bytes) => crate::marker::payload_between(bytes, header, footer),
    }
}

/// The payload that a still image carries between header and footer.
pub open spec fn read_payload(
    settings: QrSettings,
    header: Seq<u8>,
    image: Seq<u8>,
    footer: Seq<u8>,
) -> Result<Seq<u8>, CodecError> {
    if !settings.valid() {
        Err(CodecError::InvalidQrSettings)
    } else {
        match crate::raster::png_luma(image) {
            None => Err(CodecError::ImageDecodeError),
            Some(raster) => selected_payload(
                crate::raster::qr_payloads(raster.0, raster.1, raster.2),
                header,
                footer,
            ),
        }
    }
}

/// Where a bit stream of `used` bits takes one more byte segment of `len`
/// bytes within `room` bits, the bits it then holds.
fn extended(used: usize, len: usize, version: u8, room: usize) -> (r: Option<usize>)
    requires
        used <= room <= 24000,
    ensures
        match r {
            Some(bits) => bits == used + crate::capacity::segment_bits(version as int, len as int)
                && bits <= room,
            None => used + crate::capacity::segment_bits(version as int, len as int) > room,
        },
{
    let head: usize = if version < 10 {
        12
    } else {
        20
    };
    if used + head > room {
        return None;
    }
    let left: usize = room - used - head;
    if len > left / 8 {
        return None;
    }
    Some(used + head + 8 * len)
}

/// The first of the three segments that does not fit a symbol with these
/// settings any more, given the lengths in bytes; `None` where all fit.
pub fn overflowing_segment(settings: &QrSettings, header: usize, data: usize, footer: usize) -> (r:
    Result<Option<Segment>, CodecError>)
    ensures
        match r {
            Ok(segment) => settings.valid() && segment == first_overflow(
                settings.qr_version as int,
                settings.error_correction_level as int,
                header as int,
                data as int,
                footer as int,
            ),
            Err(e) => !settings.valid() && e == CodecError::InvalidQrSettings,
        },
{
    let capacity = match settings.max_len() {
        Ok(capacity) => capacity,
        Err(e) => {
            return Err(e);
        },
    };
    let version = settings.qr_version;
    proof {
        crate::capacity::lemma_capacity_bounds(
            version as int,
            settings.error_correction_level as int,
        );
    }
    let room: usize = 8 * (capacity + if version < 10 {
        2
    } else {
        3
    });
    let with_header = match extended(0, header, version, room) {
        Some(bits) => bits,
        None => {
            return Ok(Some(Segment::Header));
        },
    };
    let with_data = match extended(with_header, data, version, room) {
        Some(bits) => bits,
        None => {
            return Ok(Some(Segment::Data));
        },
    };
    match extended(with_data, footer, version, room) {
        Some(_) => Ok(None),
        None => Ok(Some(Segment::Footer)),
    }
}

/// Encodes payloads as still images of symbols of one version and level.
#[derive(Clone, Copy, Debug)]
pub struct QrcodeCreater {
    settings: QrSettings,
}

impl QrcodeCreater {
    /// A creater of symbols with the given settings, which are looked at when
    /// a symbol is asked for.
    pub fn new(settings: QrSettings) -> (creater: Self)
        ensures
            creater.settings() == settings,
    {
        Self { settings }
    }

    /// The settings that the creater was made with.
    pub closed spec fn settings(&self) -> QrSettings {
        self.settings
    }
}

impl QrCreater for QrcodeCreater {
    open spec fn capacity(&self) -> Result<int, CodecError> {
        self.settings().spec_max_len()
    }

    open spec fn encoded(&self, header: Seq<u8>, payload: Seq<u8>, footer: Seq<u8>) -> Result<
        Seq<u8>,
        CodecError,
    > {
        created_image(self.settings(), header, payload, footer)
    }

    fn max_buffer_len(&self) -> (r: Result<usize, CodecError>) {
        self.settings.max_len()
    }

    fn create(&mut self, header: &[u8], buffer: &[u8], footer: &[u8]) -> (r: Result<
        Vec<u8>,
        CodecError,
    >) {
        let version = match get_qr_version(self.settings.qr_version) {
            Ok(version) => version,
            Err(e) => {
                return Err(e);
            },
        };
        let level = match get_ec_level(self.settings.error_correction_level) {
            Ok(level) => level,
            Err(e) => {
                return Err(e);
            },
        };
        let overflow = match overflowing_segment(
            &self.settings,
            header.len(),
            buffer.len(),
            footer.len(),
        ) {
            Ok(overflow) => overflow,
            Err(e) => {
                return Err(e);
            },
        };
        if let Some(segment) = overflow {
            return Err(CodecError::PayloadTooLarge(segment));
        }
        proof {
            crate::capacity::lemma_capacity_bounds(version as int, level.index());
        }
        let mut bits = crate::symbol::bits_new(version);
        if crate::symbol::bits_push_byte_data(&mut bits, header).is_err() {
            return Err(CodecError::PayloadTooLarge(Segment::Header));
        }
        if crate::symbol::bits_push_byte_data(&mut bits, buffer).is_err() {
            return Err(CodecError::PayloadTooLarge(Segment::Data));
        }
        if crate::symbol::bits_push_byte_data(&mut bits, footer).is_err() {
            return Err(CodecError::PayloadTooLarge(Segment::Footer));
        }
        if crate::symbol::bits_push_terminator(&mut bits, level).is_err() {
            return Err(CodecError::PayloadTooLarge(Segment::Footer));
        }
        assert(crate::symbol::bits_segments(bits) == seq![header@, buffer@, footer@]);
        let code = match crate::symbol::qr_with_bits(bits, level) {
            Ok(code) => code,
            Err(_) => {
                return Err(CodecError::InvalidQrSettings);
            },
        };
        let frame = crate::symbol::qr_render(&code);
        crate::raster::write_png(&frame)
    }
}

/// The payload of the first symbol that decoded, between `header` and
/// `footer`.
pub fn select_payload(symbols: &Vec<Option<Vec<u8>>>, header: &[u8], footer: &[u8]) -> (r: Result<
    Vec<u8>,
    CodecError,
>)
    ensures
        crate::error::bytes_outcome(r) == selected_payload(
            crate::raster::payloads_view(symbols@),
            header@,
            footer@,
        ),
{
    let ghost views = crate::raster::payloads_view(symbols@);
    let mut index: usize = 0;
    while index < symbols.len()
        invariant
            index <= symbols@.len(),
            views == crate::raster::payloads_view(symbols@),
            forall|earlier: int| 0 <= earlier < index ==> views[earlier] is None,
        decreases symbols@.len() - index,
    {
        if let Some(bytes) = &symbols[index] {
            proof {
                assert(views[index as int] == Some(bytes@));
                assert(is_first_decoded(views, index as int));
                let chosen = choose|i: int| is_first_decoded(views, i);
                assert(chosen == index) by {
                    if chosen < index {
                        assert(views[chosen] is None);
                    }
                    if index < chosen {
                        assert(views[index as int] is None);
                    }
                }
            }
            return crate::marker::extract_payload(bytes.as_slice(), header, footer);
        }
        assert(views[index as int] is None);
        index += 1;
    }
    Err(CodecError::QrNotFound)
}

/// Decodes still images of symbols back into payloads.
#[derive(Clone, Copy, Debug)]
pub struct QrcodeReader {
    settings: QrSettings,
}

impl QrcodeReader {
    /// A reader with the given settings, which are looked at when an image is
    /// read.
    pub fn new(settings: QrSettings) -> (reader: Self)
        ensures
            reader.settings() == settings,
    {
        Self { settings }
    }

    /// The settings that the reader was made with.
    pub closed spec fn settings(&self) -> QrSettings {
        self.settings
    }
}

impl QrReader for QrcodeReader {
    open spec fn capacity(&self) -> Result<int, CodecError> {
        self.settings().spec_max_len()
    }

    open spec fn decoded(&self, header: Seq<u8>, image: Seq<u8>, footer: Seq<u8>) -> Result<
        Seq<u8>,
        CodecError,
    > {
        read_payload(self.settings(), header, image, footer)
    }

    fn max_buffer_len(&self) -> (r: Result<usize, CodecError>) {
        self.settings.max_len()
    }

    fn read(&mut self, header: &[u8], buffer: &[u8], footer: &[u8]) -> (r: Result<
        Vec<u8>,
        CodecError,
    >) {
        if let Err(e) = self.settings.max_len() {
            return Err(e);
        }
        let frame = match crate::raster::read_png(buffer) {
            Ok(frame) => frame,
            Err(e) => {
                return Err(e);
            },
        };
        let symbols = crate::raster::scan_symbols(&frame);
        select_payload(&symbols, header, footer)
    }
}

} // verus!
