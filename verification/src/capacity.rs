//! Byte capacity of a QR symbol for each version and error-correction level.

use vstd::prelude::*;
use crate::error::CodecError;

verus! {

/// Largest number of bytes that a single byte-mode segment can carry, by
/// version (rows, 1 to 40) and error-correction level (columns, L M Q H).
pub const CAPACITIES: [[u16; 4]; 40] = [
    [17, 14, 11, 7],
    [32, 26, 20, 14],
    [53, 42, 32, 24],
    [78, 62, 46, 34],
    [106, 84, 60, 44],
    [134, 106, 74, 58],
    [154, 122, 86, 64],
    [192, 152, 108, 84],
    [230, 180, 130, 98],
    [271, 213, 151, 119],
    [321, 251, 177, 137],
    [367, 287, 203, 155],
    [425, 331, 241, 177],
    [458, 362, 258, 194],
    [520, 412, 292, 220],
    [586, 450, 322, 250],
    [644, 504, 364, 280],
    [718, 560, 394, 310],
    [792, 624, 442, 338],
    [858, 666, 482, 382],
    [929, 711, 509, 403],
    [1003, 779, 565, 439],
    [1091, 857, 611, 461],
    [1171, 911, 661, 511],
    [1273, 997, 715, 535],
    [1367, 1059, 751, 593],
    [1465, 1125, 805, 625],
    [1528, 1190, 868, 658],
    [1628, 1264, 908, 698],
    [1732, 1370, 982, 742],
    [1840, 1452, 1030, 790],
    [1952, 1538, 1112, 842],
    [2068, 1628, 1168, 898],
    [2188, 1722, 1228, 958],
    [2303, 1809, 1283, 983],
    [2431, 1911, 1351, 1051],
    [2563, 1989, 1423, 1093],
    [2699, 2099, 1499, 1139],
    [2809, 2213, 1579, 1219],
    [2953, 2331, 1663, 1273],
];

/// The byte capacity of a symbol; only meaningful for a version in 1..=40
/// and a level in 0..=3.
pub open spec fn capacity(version: int, level: int) -> int
    recommends
        1 <= version <= 40,
        0 <= level <= 3,
{
    CAPACITIES[version - 1][level] as int
}

/// Width in bits of the field that holds a byte segment's length.
pub open spec fn count_bits(version: int) -> int {
    if version < 10 {
        8
    } else {
        16
    }
}

/// Bits that one byte segment of `len` bytes takes: a mode indicator of four
/// bits, the length field, and the bytes.
pub open spec fn segment_bits(version: int, len: int) -> int {
    4 + count_bits(version) + 8 * len
}

/// Bits of data that a symbol holds. The byte capacity is what is left of
/// them for the bytes of a single segment.
pub open spec fn data_bits(version: int, level: int) -> int {
    8 * (capacity(version, level) + if version < 10 { 2int } else { 3int })
}

/// Version and error-correction level of the symbols of one run.
#[derive(Clone, Copy, Debug, PartialEq, Eq, Structural)]
pub struct QrSettings {
    pub qr_version: u8,
    pub error_correction_level: u8,
}

impl QrSettings {
    /// Both fields index the capacity table.
    pub open spec fn valid(&self) -> bool {
        1 <= self.qr_version <= 40 && self.error_correction_level <= 3
    }

    /// The byte capacity of a symbol with these settings, where they are
    /// valid.
    pub open spec fn spec_max_len(&self) -> Result<int, CodecError> {
        if self.valid() {
            Ok(capacity(self.qr_version as int, self.error_correction_level as int))
        } else {
            Err(CodecError::InvalidQrSettings)
        }
    }

    /// The byte capacity of a symbol with these settings.
    pub fn max_len(&self) -> (r: Result<usize, CodecError>)
        ensures
            match r {
                Ok(n) => self.spec_max_len() == Ok::<int, CodecError>(n as int),
                Err(e) => self.spec_max_len() == Err::<int, CodecError>(e),
            },
    {
        if self.qr_version < 1 || self.qr_version > 40 || self.error_correction_level > 3 {
            return Err(CodecError::InvalidQrSettings);
        }
        let row: usize = (self.qr_version - 1) as usize;
        let column: usize = self.error_correction_level as usize;
        Ok(CAPACITIES[row][column] as usize)
    }
}

/// Every entry of the table lies between 7 and 2953, so no symbol is without
/// room and every length fits the length field of its version.
pub proof fn lemma_capacity_bounds(version: int, level: int)
    requires
        1 <= version <= 40,
        0 <= level <= 3,
    ensures
        7 <= capacity(version, level) <= 2953,
        version < 10 ==> capacity(version, level) <= 230,
{
}

} // verus!
