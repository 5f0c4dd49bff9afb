//! The wire format, stated mathematically.
//!
//! Every function here is a specification: it defines, byte for byte, what
//! a well-formed stackmap section means and which error each malformed
//! prefix earns. The executable decoder in [`crate::stackmap`] is proved
//! to return exactly what these functions say.
//!
//! Layout of one stackmap instance (all multi-byte fields little-endian):
//!
//! ```text
//! Header            : u8 version(=3), u8 reserved, u16 reserved
//! u32 num_functions, u32 num_constants, u32 num_records
//! FunctionRecord[num_functions] : u64 addr, u64 stack_size, u64 record_count
//! Constant[num_constants]       : u64
//! PatchPointRecord[num_records] : variable length, see `spec_parse_record`
//! ```
//!
//! Patch-point records are padded to 8-byte boundaries against a running
//! byte-offset counter that spans the whole record sequence of one stackmap
//! instance. The counter starts at the bytes consumed for the header and
//! the two fixed arrays and is threaded from record to record, never reset.
//! Within one record the protocol is, in order:
//!
//! 1. the fixed 16-byte head (id, instruction offset, reserved, location
//!    count), then `num_locations` locations of 12 bytes each; the counter
//!    advances by all of these bytes;
//! 2. if the counter is then not a multiple of 8, four padding bytes are
//!    consumed and discarded — without advancing the counter;
//! 3. a fixed 2-byte padding field, the `u16` live-out count and the
//!    4-byte live-out entries; the counter advances by these bytes;
//! 4. if the counter is still not a multiple of 8, four padding bytes are
//!    consumed, and this time the counter advances by 4.
//!
//! The asymmetry between steps 2 and 4 is part of the protocol: it lets
//! the counter drift relative to the true stream position, and that drift
//! decides the padding of every later record.

use vstd::prelude::*;

use crate::cursor::le16_at;
use crate::cursor::le32_at;
use crate::cursor::le64_at;
use crate::cursor::spec_i32_from_bits;
use crate::stackmap::Header;
use crate::stackmap::LiveOut;
use crate::stackmap::Location;
use crate::stackmap::LocationType;
use crate::stackmap::MalformedReason;
use crate::stackmap::ParsingError;
use crate::stackmap::StackMapView;
use crate::stackmap::StkMapRecordView;
use crate::stackmap::StkSizeRecord;

verus! {

/// The only format revision this decoder accepts.
pub const SUPPORTED_VERSION: u8 = 3;

/// Parse the 4-byte header from the front of `s`: the version gate and the
/// reserved-field check. Versions other than 3 are rejected outright, on
/// the strength of the first byte alone.
pub open spec fn spec_parse_header(s: Seq<u8>) -> Result<(Header, int), ParsingError> {
    if s.len() < 1 {
        Err(ParsingError::Truncated)
    } else if s[0] != SUPPORTED_VERSION {
        Err(ParsingError::UnsupportedVersion(s[0]))
    } else if s.len() < 4 {
        Err(ParsingError::Truncated)
    } else if s[1] != 0 || le16_at(s, 2) != 0 {
        Err(ParsingError::Malformed(MalformedReason::HeaderReserved))
    } else {
        Ok((Header { version: s[0], reserved_0: s[1], reserved_1: le16_at(s, 2) }, 4))
    }
}

/// Parse one 24-byte function record from the front of `s`.
pub open spec fn spec_parse_fun_record(s: Seq<u8>) -> Result<(StkSizeRecord, int), ParsingError> {
    if s.len() < 24 {
        Err(ParsingError::Truncated)
    } else {
        Ok(
            (
                StkSizeRecord {
                    function_address: le64_at(s, 0),
                    stack_size: le64_at(s, 8),
                    record_count: le64_at(s, 16),
                },
                24,
            ),
        )
    }
}

/// Parse `n` function records from the front of `s`.
pub open spec fn spec_parse_fun_records(s: Seq<u8>, n: int) -> Result<
    (Seq<StkSizeRecord>, int),
    ParsingError,
>
    decreases n,
{
    if n <= 0 {
        Ok((Seq::empty(), 0))
    } else {
        match spec_parse_fun_record(s) {
            Err(e) => Err(e),
            Ok((first, c)) => match spec_parse_fun_records(s.skip(c), n - 1) {
                Err(e) => Err(e),
                Ok((rest, c2)) => Ok((seq![first] + rest, c + c2)),
            },
        }
    }
}

/// Parse `n` 8-byte constant-pool entries from the front of `s`.
pub open spec fn spec_parse_constants(s: Seq<u8>, n: int) -> Result<(Seq<u64>, int), ParsingError>
    decreases n,
{
    if n <= 0 {
        Ok((Seq::empty(), 0))
    } else if s.len() < 8 {
        Err(ParsingError::Truncated)
    } else {
        match spec_parse_constants(s.skip(8), n - 1) {
            Err(e) => Err(e),
            Ok((rest, c2)) => Ok((seq![le64_at(s, 0)] + rest, 8 + c2)),
        }
    }
}

/// Parse one 12-byte location from the front of `s`. An unknown type byte
/// is a semantic error, reported before the remaining fields are read.
pub open spec fn spec_parse_location(s: Seq<u8>) -> Result<(Location, int), ParsingError> {
    if s.len() < 1 {
        Err(ParsingError::Truncated)
    } else {
        match LocationType::spec_from_code(s[0]) {
            None => Err(ParsingError::Malformed(MalformedReason::InvalidLocationType(s[0]))),
            Some(loc_type) => if s.len() < 12 {
                Err(ParsingError::Truncated)
            } else {
                Ok(
                    (
                        Location {
                            loc_type,
                            reserved_0: s[1],
                            loc_size: le16_at(s, 2),
                            dwarf_regnum: le16_at(s, 4),
                            reserved_1: le16_at(s, 6),
                            offset_or_constant: spec_i32_from_bits(le32_at(s, 8)),
                        },
                        12,
                    ),
                )
            },
        }
    }
}

/// Parse `n` locations from the front of `s`.
pub open spec fn spec_parse_locations(s: Seq<u8>, n: int) -> Result<
    (Seq<Location>, int),
    ParsingError,
>
    decreases n,
{
    if n <= 0 {
        Ok((Seq::empty(), 0))
    } else {
        match spec_parse_location(s) {
            Err(e) => Err(e),
            Ok((first, c)) => match spec_parse_locations(s.skip(c), n - 1) {
                Err(e) => Err(e),
                Ok((rest, c2)) => Ok((seq![first] + rest, c + c2)),
            },
        }
    }
}

/// Parse one 4-byte live-out entry from the front of `s`. A nonzero
/// reserved byte is a semantic error, reported before the size is read.
pub open spec fn spec_parse_live_out(s: Seq<u8>) -> Result<(LiveOut, int), ParsingError> {
    if s.len() < 3 {
        Err(ParsingError::Truncated)
    } else if s[2] != 0 {
        Err(ParsingError::Malformed(MalformedReason::LiveOutReserved))
    } else if s.len() < 4 {
        Err(ParsingError::Truncated)
    } else {
        Ok((LiveOut { dwarf_regnum: le16_at(s, 0), reserved_0: s[2], size: s[3] }, 4))
    }
}

/// Parse `n` live-out entries from the front of `s`.
pub open spec fn spec_parse_live_outs(s: Seq<u8>, n: int) -> Result<
    (Seq<LiveOut>, int),
    ParsingError,
>
    decreases n,
{
    if n <= 0 {
        Ok((Seq::empty(), 0))
    } else {
        match spec_parse_live_out(s) {
            Err(e) => Err(e),
            Ok((first, c)) => match spec_parse_live_outs(s.skip(c), n - 1) {
                Err(e) => Err(e),
                Ok((rest, c2)) => Ok((seq![first] + rest, c + c2)),
            },
        }
    }
}

/// Parse one patch-point record from the front of `s`, with `off` the
/// running byte-offset counter carried over from earlier records. Returns
/// the record, the bytes consumed, and the updated counter. See the module
/// documentation for the padding protocol, including why the bytes
/// consumed and the counter's advance can differ.
pub open spec fn spec_parse_record(s: Seq<u8>, off: int) -> Result<
    (StkMapRecordView, int, int),
    ParsingError,
> {
    if s.len() < 16 {
        Err(ParsingError::Truncated)
    } else {
        let num_locations = le16_at(s, 14);
        match spec_parse_locations(s.skip(16), num_locations as int) {
            Err(e) => Err(e),
            Ok((locations, lbytes)) => {
                let off1 = off + 16 + lbytes;
                let p2 = if off1 % 8 != 0 {
                    16 + lbytes + 4
                } else {
                    16 + lbytes
                };
                if s.len() < p2 + 4 {
                    Err(ParsingError::Truncated)
                } else {
                    let num_live_outs = le16_at(s, p2 + 2);
                    match spec_parse_live_outs(s.skip(p2 + 4), num_live_outs as int) {
                        Err(e) => Err(e),
                        Ok((live_outs, obytes)) => {
                            let off2 = off1 + 4 + obytes;
                            let p3 = p2 + 4 + obytes;
                            let rec = StkMapRecordView {
                                patch_point_id: le64_at(s, 0),
                                instruction_offset: le32_at(s, 8),
                                reserved_0: le16_at(s, 12),
                                num_locations,
                                locations,
                                num_live_outs,
                                live_outs,
                            };
                            if off2 % 8 != 0 {
                                if s.len() < p3 + 4 {
                                    Err(ParsingError::Truncated)
                                } else {
                                    Ok((rec, p3 + 4, off2 + 4))
                                }
                            } else {
                                Ok((rec, p3, off2))
                            }
                        },
                    }
                }
            },
        }
    }
}

/// Parse `n` patch-point records from the front of `s`, threading the
/// running offset counter `off` through the whole sequence.
pub open spec fn spec_parse_records(s: Seq<u8>, n: int, off: int) -> Result<
    (Seq<StkMapRecordView>, int),
    ParsingError,
>
    decreases n,
{
    if n <= 0 {
        Ok((Seq::empty(), 0))
    } else {
        match spec_parse_record(s, off) {
            Err(e) => Err(e),
            Ok((first, c, off2)) => match spec_parse_records(s.skip(c), n - 1, off2) {
                Err(e) => Err(e),
                Ok((rest, c2)) => Ok((seq![first] + rest, c + c2)),
            },
        }
    }
}

/// Parse one whole stackmap instance from the front of `s`: header,
/// counts, the two fixed arrays, then the patch-point records against the
/// running offset counter, which starts at the bytes consumed so far.
pub open spec fn spec_parse_stackmap(s: Seq<u8>) -> Result<(StackMapView, int), ParsingError> {
    match spec_parse_header(s) {
        Err(e) => Err(e),
        Ok((header, _)) => if s.len() < 16 {
            Err(ParsingError::Truncated)
        } else {
            let num_functions = le32_at(s, 4);
            let num_constants = le32_at(s, 8);
            let num_records = le32_at(s, 12);
            match spec_parse_fun_records(s.skip(16), num_functions as int) {
                Err(e) => Err(e),
                Ok((stk_size_records, fbytes)) => match spec_parse_constants(
                    s.skip(16 + fbytes),
                    num_constants as int,
                ) {
                    Err(e) => Err(e),
                    Ok((large_constants, cbytes)) => {
                        let off0 = 16 + fbytes + cbytes;
                        match spec_parse_records(s.skip(off0), num_records as int, off0) {
                            Err(e) => Err(e),
                            Ok((stk_map_records, rbytes)) => Ok(
                                (
                                    StackMapView {
                                        header,
                                        num_functions,
                                        num_constants,
                                        num_records,
                                        stk_size_records,
                                        large_constants,
                                        stk_map_records,
                                    },
                                    off0 + rbytes,
                                ),
                            ),
                        }
                    },
                },
            }
        },
    }
}

/// Parse a whole section buffer: one stackmap instance after another until
/// the buffer is exhausted. An empty buffer holds no instances; any
/// failure aborts the whole parse with that error.
pub open spec fn spec_parse_all(s: Seq<u8>) -> Result<Seq<StackMapView>, ParsingError>
    decreases s.len(),
{
    if s.len() == 0 {
        Ok(Seq::empty())
    } else {
        match spec_parse_stackmap(s) {
            Err(e) => Err(e),
            Ok((first, c)) => if 0 < c <= s.len() {
                match spec_parse_all(s.skip(c)) {
                    Err(e) => Err(e),
                    Ok(rest) => Ok(seq![first] + rest),
                }
            } else {
                // Dead branch: a successful parse always consumes between
                // 16 bytes and the whole buffer (`lemma_parse_stackmap_bounds`).
                Err(ParsingError::Truncated)
            },
        }
    }
}

/// A successful list parse of function records consumes exactly 24 bytes
/// per record, never more than the buffer holds.
pub proof fn lemma_parse_fun_records_bounds(s: Seq<u8>, n: int)
    requires
        spec_parse_fun_records(s, n) is Ok,
    ensures
        spec_parse_fun_records(s, n)->Ok_0.1 == if n <= 0 {
            0
        } else {
            24 * n
        },
        spec_parse_fun_records(s, n)->Ok_0.1 <= s.len(),
        spec_parse_fun_records(s, n)->Ok_0.0.len() == if n <= 0 {
            0
        } else {
            n
        },
    decreases n,
{
    if n > 0 {
        let c = spec_parse_fun_record(s)->Ok_0.1;
        lemma_parse_fun_records_bounds(s.skip(c), n - 1);
    }
}

/// A successful list parse of constants consumes exactly 8 bytes per
/// entry, never more than the buffer holds.
pub proof fn lemma_parse_constants_bounds(s: Seq<u8>, n: int)
    requires
        spec_parse_constants(s, n) is Ok,
    ensures
        spec_parse_constants(s, n)->Ok_0.1 == if n <= 0 {
            0
        } else {
            8 * n
        },
        spec_parse_constants(s, n)->Ok_0.1 <= s.len(),
        spec_parse_constants(s, n)->Ok_0.0.len() == if n <= 0 {
            0
        } else {
            n
        },
    decreases n,
{
    if n > 0 {
        lemma_parse_constants_bounds(s.skip(8), n - 1);
    }
}

/// A successful list parse of locations consumes exactly 12 bytes per
/// entry, never more than the buffer holds.
pub proof fn lemma_parse_locations_bounds(s: Seq<u8>, n: int)
    requires
        spec_parse_locations(s, n) is Ok,
    ensures
        spec_parse_locations(s, n)->Ok_0.1 == if n <= 0 {
            0
        } else {
            12 * n
        },
        spec_parse_locations(s, n)->Ok_0.1 <= s.len(),
        spec_parse_locations(s, n)->Ok_0.0.len() == if n <= 0 {
            0
        } else {
            n
        },
    decreases n,
{
    if n > 0 {
        let c = spec_parse_location(s)->Ok_0.1;
        lemma_parse_locations_bounds(s.skip(c), n - 1);
    }
}

/// A successful list parse of live-outs consumes exactly 4 bytes per
/// entry, never more than the buffer holds.
pub proof fn lemma_parse_live_outs_bounds(s: Seq<u8>, n: int)
    requires
        spec_parse_live_outs(s, n) is Ok,
    ensures
        spec_parse_live_outs(s, n)->Ok_0.1 == if n <= 0 {
            0
        } else {
            4 * n
        },
        spec_parse_live_outs(s, n)->Ok_0.1 <= s.len(),
        spec_parse_live_outs(s, n)->Ok_0.0.len() == if n <= 0 {
            0
        } else {
            n
        },
    decreases n,
{
    if n > 0 {
        let c = spec_parse_live_out(s)->Ok_0.1;
        lemma_parse_live_outs_bounds(s.skip(c), n - 1);
    }
}

/// A successful record parse consumes at least 20 bytes, never more than
/// the buffer holds, and advances the offset counter by no more than it
/// consumes.
pub proof fn lemma_parse_record_bounds(s: Seq<u8>, off: int)
    requires
        spec_parse_record(s, off) is Ok,
    ensures
        20 <= spec_parse_record(s, off)->Ok_0.1 <= s.len(),
        off < spec_parse_record(s, off)->Ok_0.2 <= off + spec_parse_record(s, off)->Ok_0.1,
{
    let num_locations = le16_at(s, 14);
    lemma_parse_locations_bounds(s.skip(16), num_locations as int);
    let (locations, lbytes) = spec_parse_locations(s.skip(16), num_locations as int)->Ok_0;
    let off1 = off + 16 + lbytes;
    let p2 = if off1 % 8 != 0 {
        16 + lbytes + 4
    } else {
        16 + lbytes
    };
    let num_live_outs = le16_at(s, p2 + 2);
    lemma_parse_live_outs_bounds(s.skip(p2 + 4), num_live_outs as int);
}

/// A successful list parse of records consumes at least 20 bytes per
/// record, never more than the buffer holds.
pub proof fn lemma_parse_records_bounds(s: Seq<u8>, n: int, off: int)
    requires
        spec_parse_records(s, n, off) is Ok,
    ensures
        0 <= spec_parse_records(s, n, off)->Ok_0.1 <= s.len(),
        n > 0 ==> spec_parse_records(s, n, off)->Ok_0.1 >= 20 * n,
        spec_parse_records(s, n, off)->Ok_0.0.len() == if n <= 0 {
            0
        } else {
            n
        },
    decreases n,
{
    if n > 0 {
        let (first, c, off2) = spec_parse_record(s, off)->Ok_0;
        lemma_parse_record_bounds(s, off);
        lemma_parse_records_bounds(s.skip(c), n - 1, off2);
    }
}

/// A successful stackmap parse consumes at least the 16 fixed bytes and
/// never more than the buffer holds.
pub proof fn lemma_parse_stackmap_bounds(s: Seq<u8>)
    requires
        spec_parse_stackmap(s) is Ok,
    ensures
        16 <= spec_parse_stackmap(s)->Ok_0.1 <= s.len(),
{
    let num_functions = le32_at(s, 4);
    let num_constants = le32_at(s, 8);
    let num_records = le32_at(s, 12);
    lemma_parse_fun_records_bounds(s.skip(16), num_functions as int);
    let fbytes = spec_parse_fun_records(s.skip(16), num_functions as int)->Ok_0.1;
    lemma_parse_constants_bounds(s.skip(16 + fbytes), num_constants as int);
    let cbytes = spec_parse_constants(s.skip(16 + fbytes), num_constants as int)->Ok_0.1;
    let off0 = 16 + fbytes + cbytes;
    lemma_parse_records_bounds(s.skip(off0), num_records as int, off0);
}

} // verus!
