//! Core data model of a decoded stackmap, the errors the decoders report,
//! and the executable decoders themselves, each proved to return exactly
//! what the wire-format specification in [`crate::layout`] says.

use vstd::prelude::*;

use crate::cursor::i32_from_bits;
use crate::cursor::lemma_le16_at_skip;
use crate::cursor::lemma_le32_at_skip;
use crate::cursor::lemma_le64_at_skip;
use crate::cursor::lemma_skip_skip;
use crate::cursor::read_u16;
use crate::cursor::read_u32;
use crate::cursor::read_u64;
use crate::cursor::read_u8;
use crate::layout::spec_parse_header;
use crate::layout::spec_parse_fun_record;
use crate::layout::spec_parse_fun_records;
use crate::layout::spec_parse_constants;
use crate::layout::spec_parse_location;
use crate::layout::spec_parse_locations;
use crate::layout::spec_parse_live_out;
use crate::layout::spec_parse_live_outs;
use crate::layout::spec_parse_record;
use crate::layout::spec_parse_records;
use crate::layout::spec_parse_stackmap;
use crate::layout::spec_parse_all;
use crate::layout::lemma_parse_stackmap_bounds;

verus! {

/// Why a buffer or an object file was judged malformed.
#[derive(Debug, Clone, Copy, PartialEq, Eq, Structural)]
pub enum MalformedReason {
    /// A reserved field in the stackmap header was not zero.
    HeaderReserved,
    /// The reserved byte of a live-out entry was not zero.
    LiveOutReserved,
    /// A location's type byte named no known location kind.
    InvalidLocationType(u8),
    /// A relocation of an unsupported kind targets the stackmap section.
    UnsupportedRelocation(u32),
    /// A relocation refers to a dynamic symbol that is absent.
    RelocationSymbolMissing,
    /// A relocation entry carries no addend although its kind needs one.
    RelocationMissingAddend,
    /// A relocation targets bytes that reach past the end of the section.
    RelocationOutOfBounds,
    /// A section header claims a byte range that leaves the file.
    SectionOutOfBounds,
    /// The surrounding object file could not be parsed at all.
    ObjectFileUnreadable,
}

/// Every way a decode can fail. Callers can tell the cases apart.
#[derive(Debug, Clone, Copy, PartialEq, Eq, Structural)]
pub enum ParsingError {
    /// Fewer bytes remain than a required field needs.
    Truncated,
    /// The header names a format revision other than the supported one.
    UnsupportedVersion(u8),
    /// A semantic rule of the format is violated.
    Malformed(MalformedReason),
    /// The object file holds no stackmap section.
    SectionNotFound,
    /// Reading the underlying file failed.
    IoFailure,
}

/// How the fields of a [`Location`] must be interpreted to find the
/// recorded value.
#[derive(Debug, Clone, Copy, PartialEq, Eq, Hash, Structural)]
pub enum LocationType {
    /// No valid location. Never produced by the decoder.
    Invalid,
    /// The value is in the register `dwarf_regnum`.
    Register,
    /// `dwarf_regnum + offset_or_constant` is the address of the value.
    Direct,
    /// The address of the value is stored at `[dwarf_regnum + offset_or_constant]`.
    Indirect,
    /// The value is `offset_or_constant` itself.
    Constant,
    /// The value is the constant-pool entry at index `offset_or_constant`.
    ConstIndex,
}

impl LocationType {
    /// The byte that stands for this kind on the wire.
    pub open spec fn spec_code(self) -> u8 {
        match self {
            LocationType::Invalid => 0,
            LocationType::Register => 1,
            LocationType::Direct => 2,
            LocationType::Indirect => 3,
            LocationType::Constant => 4,
            LocationType::ConstIndex => 5,
        }
    }

    /// Which kind a wire byte stands for. The byte 0 (`Invalid`) is not
    /// accepted from the wire.
    pub open spec fn spec_from_code(value: u8) -> Option<LocationType> {
        match value {
            1u8 => Some(LocationType::Register),
            2u8 => Some(LocationType::Direct),
            3u8 => Some(LocationType::Indirect),
            4u8 => Some(LocationType::Constant),
            5u8 => Some(LocationType::ConstIndex),
            _ => None,
        }
    }

    /// The byte that stands for this kind on the wire.
    pub fn code(self) -> (r: u8)
        ensures
            r == self.spec_code(),
    {
        match self {
            LocationType::Invalid => 0,
            LocationType::Register => 1,
            LocationType::Direct => 2,
            LocationType::Indirect => 3,
            LocationType::Constant => 4,
            LocationType::ConstIndex => 5,
        }
    }

    /// Checked constructor from a wire byte; unknown discriminants are
    /// rejected rather than guessed at.
    pub fn from_code(value: u8) -> (r: Option<LocationType>)
        ensures
            r == LocationType::spec_from_code(value),
    {
        match value {
            1u8 => Some(LocationType::Register),
            2u8 => Some(LocationType::Direct),
            3u8 => Some(LocationType::Indirect),
            4u8 => Some(LocationType::Constant),
            5u8 => Some(LocationType::ConstIndex),
            _ => None,
        }
    }
}

/// By default, a location is invalid.
impl Default for LocationType {
    fn default() -> (r: Self)
        ensures
            r == LocationType::Invalid,
    {
        LocationType::Invalid
    }
}

/// The stackmap header: a format version marker plus two reserved fields.
///
/// The decoder accepts only version 3 and only zero reserved fields.
#[derive(Debug, Clone, Copy, PartialEq, Eq, Structural)]
pub struct Header {
    /// The stackmap format revision of the following data.
    pub version: u8,
    pub reserved_0: u8,
    pub reserved_1: u16,
}

/// Describes one function of the binary the stackmap belongs to.
#[derive(Debug, Clone, Copy, PartialEq, Eq, Structural)]
pub struct StkSizeRecord {
    /// VMA of this function. This address is relative to the section's base
    /// if this is a position-independent binary.
    pub function_address: u64,
    /// Number of bytes this function allocates on the stack.
    pub stack_size: u64,
    /// Number of patch-point records that belong to this function. The
    /// records themselves sit in the stackmap's global record array; summing
    /// `record_count` over the functions in order partitions that array.
    pub record_count: u64,
}

/// Where one live value lives at a patch point.
#[derive(Debug, Clone, Copy, PartialEq, Eq, Hash, Structural)]
pub struct Location {
    /// How the other fields must be interpreted to find the recorded value.
    pub loc_type: LocationType,
    pub reserved_0: u8,
    /// The value's size in bytes.
    pub loc_size: u16,
    /// A register that is used according to `loc_type`.
    pub dwarf_regnum: u16,
    pub reserved_1: u16,
    /// An offset or constant that is used according to `loc_type`.
    pub offset_or_constant: i32,
}

/// A register that must stay alive (must not be trashed) across the patch
/// point. Whether a value must be saved manually depends on the calling
/// convention used for the patch point.
#[derive(Debug, Clone, Copy, PartialEq, Eq, Structural)]
pub struct LiveOut {
    /// The register that must stay live.
    pub dwarf_regnum: u16,
    /// Reserved; the decoder accepts only zero here.
    pub reserved_0: u8,
    /// The register's size in bytes.
    pub size: u8,
}

/// One call site's recorded state: its locations and live-out registers.
#[derive(Debug, Clone)]
pub struct StkMapRecord {
    /// Custom ID assigned during compilation.
    pub patch_point_id: u64,
    /// Offset from the start of the function this record belongs to.
    pub instruction_offset: u32,
    pub reserved_0: u16,
    /// The number of locations this record contains.
    pub num_locations: u16,
    /// Locations of the values this patch point was instructed to record.
    pub locations: Vec<Location>,
    /// The number of live-outs in this record.
    pub num_live_outs: u16,
    /// The live-out registers.
    pub live_outs: Vec<LiveOut>,
}

/// One decoded stackmap section instance.
#[derive(Debug, Clone)]
pub struct StackMap {
    /// The stackmap header.
    pub header: Header,
    /// Number of entries in `stk_size_records`.
    pub num_functions: u32,
    /// Number of entries in `large_constants`.
    pub num_constants: u32,
    /// Number of entries in `stk_map_records`.
    pub num_records: u32,
    /// One record for each function that contains patch points.
    pub stk_size_records: Vec<StkSizeRecord>,
    /// Large immediate values referenced by `ConstIndex` locations.
    pub large_constants: Vec<u64>,
    /// One record for each patch point.
    pub stk_map_records: Vec<StkMapRecord>,
}

impl Default for Header {
    /// An all-zero header. Note that the decoder accepts only version 3.
    fn default() -> (r: Self)
        ensures
            r.version == 0,
            r.reserved_0 == 0,
            r.reserved_1 == 0,
    {
        Header { version: 0, reserved_0: 0, reserved_1: 0 }
    }
}

impl Default for StkSizeRecord {
    /// An all-zero function record.
    fn default() -> (r: Self)
        ensures
            r.function_address == 0,
            r.stack_size == 0,
            r.record_count == 0,
    {
        StkSizeRecord { function_address: 0, stack_size: 0, record_count: 0 }
    }
}

impl Default for Location {
    /// An invalid location with all other fields zero.
    fn default() -> (r: Self)
        ensures
            r.loc_type == LocationType::Invalid,
            r.reserved_0 == 0,
            r.loc_size == 0,
            r.dwarf_regnum == 0,
            r.reserved_1 == 0,
            r.offset_or_constant == 0,
    {
        Location {
            loc_type: LocationType::Invalid,
            reserved_0: 0,
            loc_size: 0,
            dwarf_regnum: 0,
            reserved_1: 0,
            offset_or_constant: 0,
        }
    }
}

impl Default for LiveOut {
    /// An all-zero live-out entry.
    fn default() -> (r: Self)
        ensures
            r.dwarf_regnum == 0,
            r.reserved_0 == 0,
            r.size == 0,
    {
        LiveOut { dwarf_regnum: 0, reserved_0: 0, size: 0 }
    }
}

/// The mathematical value of a [`StkMapRecord`]: the same fields with the
/// vectors abstracted to sequences.
pub struct StkMapRecordView {
    pub patch_point_id: u64,
    pub instruction_offset: u32,
    pub reserved_0: u16,
    pub num_locations: u16,
    pub locations: Seq<Location>,
    pub num_live_outs: u16,
    pub live_outs: Seq<LiveOut>,
}

/// The mathematical value of a [`StackMap`].
pub struct StackMapView {
    pub header: Header,
    pub num_functions: u32,
    pub num_constants: u32,
    pub num_records: u32,
    pub stk_size_records: Seq<StkSizeRecord>,
    pub large_constants: Seq<u64>,
    pub stk_map_records: Seq<StkMapRecordView>,
}

/// The views of a sequence of records, element by element.
pub open spec fn records_view(s: Seq<StkMapRecord>) -> Seq<StkMapRecordView> {
    Seq::new(s.len(), |i: int| s[i]@)
}

impl View for StkMapRecord {
    type V = StkMapRecordView;

    open spec fn view(&self) -> StkMapRecordView {
        StkMapRecordView {
            patch_point_id: self.patch_point_id,
            instruction_offset: self.instruction_offset,
            reserved_0: self.reserved_0,
            num_locations: self.num_locations,
            locations: self.locations@,
            num_live_outs: self.num_live_outs,
            live_outs: self.live_outs@,
        }
    }
}

impl View for StackMap {
    type V = StackMapView;

    open spec fn view(&self) -> StackMapView {
        StackMapView {
            header: self.header,
            num_functions: self.num_functions,
            num_constants: self.num_constants,
            num_records: self.num_records,
            stk_size_records: self.stk_size_records@,
            large_constants: self.large_constants@,
            stk_map_records: records_view(self.stk_map_records@),
        }
    }
}

impl PartialEq for StkMapRecord {
    /// Structural equality: every scalar field and both element lists agree.
    fn eq(&self, other: &Self) -> (r: bool) {
        let scalars_eq = self.patch_point_id == other.patch_point_id
            && self.instruction_offset == other.instruction_offset && self.reserved_0
            == other.reserved_0 && self.num_locations == other.num_locations
            && self.num_live_outs == other.num_live_outs;
        if !scalars_eq {
            return false;
        }
        if !location_vecs_eq(&self.locations, &other.locations) {
            return false;
        }
        live_out_vecs_eq(&self.live_outs, &other.live_outs)
    }
}

impl vstd::std_specs::cmp::PartialEqSpecImpl for StkMapRecord {
    open spec fn obeys_eq_spec() -> bool {
        true
    }

    open spec fn eq_spec(&self, other: &Self) -> bool {
        self@ =~= other@
    }
}

impl PartialEq for StackMap {
    /// Structural equality: headers, counts, and all three arrays agree.
    fn eq(&self, other: &Self) -> (r: bool) {
        let scalars_eq = self.header == other.header && self.num_functions == other.num_functions
            && self.num_constants == other.num_constants && self.num_records == other.num_records;
        if !scalars_eq {
            return false;
        }
        if !fun_record_vecs_eq(&self.stk_size_records, &other.stk_size_records) {
            return false;
        }
        if !constant_vecs_eq(&self.large_constants, &other.large_constants) {
            return false;
        }
        record_vecs_eq(&self.stk_map_records, &other.stk_map_records)
    }
}

impl vstd::std_specs::cmp::PartialEqSpecImpl for StackMap {
    open spec fn obeys_eq_spec() -> bool {
        true
    }

    open spec fn eq_spec(&self, other: &Self) -> bool {
        self@ =~~= other@
    }
}

impl Header {
    /// Decode the 4-byte header at `*pos`: the version gate and the
    /// reserved-field check.
    pub fn decode(data: &[u8], pos: &mut usize) -> (r: Result<Header, ParsingError>)
        requires
            *old(pos) <= data@.len(),
        ensures
            *old(pos) <= *final(pos) <= data@.len(),
            match spec_parse_header(data@.skip(*old(pos) as int)) {
                Ok((h, c)) => r == Ok::<Header, ParsingError>(h) && *final(pos) == *old(pos) + c,
                Err(e) => r == Err::<Header, ParsingError>(e),
            },
            // The version gate decides on the first byte alone and
            // consumes no further bytes.
            spec_parse_header(data@.skip(*old(pos) as int)) matches Err(
                ParsingError::UnsupportedVersion(v),
            ) ==> *final(pos) == *old(pos) + 1,
    {
        let ghost start = *pos as int;
        let version = match read_u8(data, pos) {
            Ok(v) => v,
            Err(e) => {
                return Err(e);
            },
        };
        if version != crate::layout::SUPPORTED_VERSION {
            return Err(ParsingError::UnsupportedVersion(version));
        }
        let reserved_0 = match read_u8(data, pos) {
            Ok(v) => v,
            Err(e) => {
                return Err(e);
            },
        };
        let reserved_1 = match read_u16(data, pos) {
            Ok(v) => v,
            Err(e) => {
                return Err(e);
            },
        };
        proof {
            lemma_le16_at_skip(data@, start, 2);
        }
        if reserved_0 != 0 || reserved_1 != 0 {
            return Err(ParsingError::Malformed(MalformedReason::HeaderReserved));
        }
        Ok(Header { version, reserved_0, reserved_1 })
    }
}

impl StkSizeRecord {
    /// Decode one 24-byte function record at `*pos`.
    pub fn decode(data: &[u8], pos: &mut usize) -> (r: Result<StkSizeRecord, ParsingError>)
        requires
            *old(pos) <= data@.len(),
        ensures
            *old(pos) <= *final(pos) <= data@.len(),
            match spec_parse_fun_record(data@.skip(*old(pos) as int)) {
                Ok((v, c)) => r == Ok::<StkSizeRecord, ParsingError>(v) && *final(pos) == *old(pos)
                    + c,
                Err(e) => r == Err::<StkSizeRecord, ParsingError>(e),
            },
    {
        let ghost start = *pos as int;
        let function_address = match read_u64(data, pos) {
            Ok(v) => v,
            Err(e) => {
                return Err(e);
            },
        };
        let stack_size = match read_u64(data, pos) {
            Ok(v) => v,
            Err(e) => {
                return Err(e);
            },
        };
        let record_count = match read_u64(data, pos) {
            Ok(v) => v,
            Err(e) => {
                return Err(e);
            },
        };
        proof {
            lemma_le64_at_skip(data@, start, 0);
            lemma_le64_at_skip(data@, start, 8);
            lemma_le64_at_skip(data@, start, 16);
        }
        Ok(StkSizeRecord { function_address, stack_size, record_count })
    }
}

impl Location {
    /// Decode one 12-byte location at `*pos`. An unrecognized type byte is
    /// rejected as a semantic error before the remaining fields are read.
    pub fn decode(data: &[u8], pos: &mut usize) -> (r: Result<Location, ParsingError>)
        requires
            *old(pos) <= data@.len(),
        ensures
            *old(pos) <= *final(pos) <= data@.len(),
            match spec_parse_location(data@.skip(*old(pos) as int)) {
                Ok((v, c)) => r == Ok::<Location, ParsingError>(v) && *final(pos) == *old(pos) + c,
                Err(e) => r == Err::<Location, ParsingError>(e),
            },
    {
        let ghost start = *pos as int;
        let type_byte = match read_u8(data, pos) {
            Ok(v) => v,
            Err(e) => {
                return Err(e);
            },
        };
        let loc_type = match LocationType::from_code(type_byte) {
            Some(t) => t,
            None => {
                return Err(ParsingError::Malformed(MalformedReason::InvalidLocationType(
                    type_byte,
                )));
            },
        };
        let reserved_0 = match read_u8(data, pos) {
            Ok(v) => v,
            Err(e) => {
                return Err(e);
            },
        };
        let loc_size = match read_u16(data, pos) {
            Ok(v) => v,
            Err(e) => {
                return Err(e);
            },
        };
        let dwarf_regnum = match read_u16(data, pos) {
            Ok(v) => v,
            Err(e) => {
                return Err(e);
            },
        };
        let reserved_1 = match read_u16(data, pos) {
            Ok(v) => v,
            Err(e) => {
                return Err(e);
            },
        };
        let raw_offset = match read_u32(data, pos) {
            Ok(v) => v,
            Err(e) => {
                return Err(e);
            },
        };
        let offset_or_constant = i32_from_bits(raw_offset);
        proof {
            lemma_le16_at_skip(data@, start, 2);
            lemma_le16_at_skip(data@, start, 4);
            lemma_le16_at_skip(data@, start, 6);
            lemma_le32_at_skip(data@, start, 8);
        }
        Ok(Location { loc_type, reserved_0, loc_size, dwarf_regnum, reserved_1, offset_or_constant })
    }
}

impl LiveOut {
    /// Decode one 4-byte live-out entry at `*pos`. A nonzero reserved byte
    /// is rejected as a semantic error before the size is read.
    pub fn decode(data: &[u8], pos: &mut usize) -> (r: Result<LiveOut, ParsingError>)
        requires
            *old(pos) <= data@.len(),
        ensures
            *old(pos) <= *final(pos) <= data@.len(),
            match spec_parse_live_out(data@.skip(*old(pos) as int)) {
                Ok((v, c)) => r == Ok::<LiveOut, ParsingError>(v) && *final(pos) == *old(pos) + c,
                Err(e) => r == Err::<LiveOut, ParsingError>(e),
            },
    {
        let ghost start = *pos as int;
        let dwarf_regnum = match read_u16(data, pos) {
            Ok(v) => v,
            Err(e) => {
                return Err(e);
            },
        };
        let reserved_0 = match read_u8(data, pos) {
            Ok(v) => v,
            Err(e) => {
                return Err(e);
            },
        };
        if reserved_0 != 0 {
            return Err(ParsingError::Malformed(MalformedReason::LiveOutReserved));
        }
        let size = match read_u8(data, pos) {
            Ok(v) => v,
            Err(e) => {
                return Err(e);
            },
        };
        proof {
            lemma_le16_at_skip(data@, start, 0);
        }
        Ok(LiveOut { dwarf_regnum, reserved_0, size })
    }
}

impl StkMapRecord {
    /// Decode one patch-point record at `*pos`, against the running
    /// byte-offset counter `*stream_offset` that spans the whole record
    /// sequence of one stackmap instance.
    ///
    /// The counter decides the two conditional 4-byte paddings; the first
    /// padding is consumed without advancing the counter, the second both
    /// consumed and counted. See [`crate::layout`] for the protocol.
    #[verifier::loop_isolation(false)]
    #[verifier::rlimit(100)]
    #[verifier::spinoff_prover]
    pub fn decode(data: &[u8], pos: &mut usize, stream_offset: &mut usize) -> (r: Result<
        StkMapRecord,
        ParsingError,
    >)
        requires
            *old(pos) <= data@.len(),
            *old(stream_offset) <= *old(pos),
        ensures
            *old(pos) <= *final(pos) <= data@.len(),
            match spec_parse_record(
                data@.skip(*old(pos) as int),
                *old(stream_offset) as int,
            ) {
                Ok((rv, c, off2)) => r is Ok && r->Ok_0@ == rv && *final(pos) == *old(pos) + c
                    && *final(stream_offset) == off2 && *final(stream_offset) <= *final(pos),
                Err(e) => r == Err::<StkMapRecord, ParsingError>(e),
            },
    {
        let ghost start = *pos as int;
        let ghost off0 = *stream_offset as int;
        let ghost s = data@.skip(start);
        let start_pos: usize = *pos;
        let patch_point_id = match read_u64(data, pos) {
            Ok(v) => v,
            Err(e) => {
                return Err(e);
            },
        };
        let instruction_offset = match read_u32(data, pos) {
            Ok(v) => v,
            Err(e) => {
                return Err(e);
            },
        };
        let reserved_0 = match read_u16(data, pos) {
            Ok(v) => v,
            Err(e) => {
                return Err(e);
            },
        };
        let num_locations = match read_u16(data, pos) {
            Ok(v) => v,
            Err(e) => {
                return Err(e);
            },
        };
        proof {
            lemma_le64_at_skip(data@, start, 0);
            lemma_le32_at_skip(data@, start, 8);
            lemma_le16_at_skip(data@, start, 12);
            lemma_le16_at_skip(data@, start, 14);
        }
        let ghost loc_base = start + 16;
        let mut locations: Vec<Location> = Vec::new();
        let mut i: usize = 0;
        proof {
            lemma_skip_skip(data@, start, 16);
        }
        while i < num_locations as usize
            invariant
                i <= num_locations as usize,
                loc_base + 12 * i == *pos,
                *pos <= data@.len(),
                locations@.len() == i,
                match spec_parse_locations(
                    data@.skip(*pos as int),
                    num_locations as int - i as int,
                ) {
                    Ok((rest, c)) => spec_parse_locations(data@.skip(loc_base), num_locations as int)
                        == Ok::<(Seq<Location>, int), ParsingError>((locations@ + rest, 12 * i + c)),
                    Err(e) => spec_parse_locations(data@.skip(loc_base), num_locations as int)
                        == Err::<(Seq<Location>, int), ParsingError>(e),
                },
            decreases num_locations as int - i,
        {
            let ghost prev = *pos as int;
            match Location::decode(data, pos) {
                Err(e) => {
                    assert(spec_parse_locations(data@.skip(prev), num_locations as int - i as int)
                        == Err::<(Seq<Location>, int), ParsingError>(e));
                    assert(spec_parse_record(s, off0) == Err::<
                        (StkMapRecordView, int, int),
                        ParsingError,
                    >(e));
                    return Err(e);
                },
                Ok(l) => {
                    proof {
                        lemma_skip_skip(data@, prev, 12);
                    }
                    let ghost old_locs = locations@;
                    locations.push(l);
                    i = i + 1;
                    proof {
                        assert(locations@ =~= old_locs + seq![l]);
                        let rem_n = num_locations as int - i as int;
                        match spec_parse_locations(data@.skip(*pos as int), rem_n) {
                            Ok((rest, c)) => {
                                assert(old_locs + (seq![l] + rest) =~= locations@ + rest);
                            },
                            Err(e) => {},
                        }
                    }
                },
            }
        }
        assert(spec_parse_locations(data@.skip(loc_base), num_locations as int)
            == Ok::<(Seq<Location>, int), ParsingError>((locations@, 12 * num_locations as int))) by {
            assert(locations@ + Seq::<Location>::empty() =~= locations@);
        }
        // Step 3 of the protocol: the counter advances by the fixed head
        // and the locations just read.
        *stream_offset = *stream_offset + (*pos - start_pos);
        // Step 4: conditional padding, consumed but not counted.
        if *stream_offset % 8 != 0 {
            match read_u32(data, pos) {
                Ok(_) => (),
                Err(e) => {
                    return Err(e);
                },
            }
        }
        // Step 5: the fixed 2-byte padding field, always present.
        match read_u16(data, pos) {
            Ok(_) => (),
            Err(e) => {
                return Err(e);
            },
        }
        let ghost nlo_at = *pos as int;
        let num_live_outs = match read_u16(data, pos) {
            Ok(v) => v,
            Err(e) => {
                return Err(e);
            },
        };
        proof {
            lemma_le16_at_skip(data@, start, nlo_at - start);
            lemma_skip_skip(data@, start, *pos as int - start);
        }
        let ghost lo_base = *pos as int;
        let after_counts_pos: usize = *pos;
        let mut live_outs: Vec<LiveOut> = Vec::new();
        let mut j: usize = 0;
        while j < num_live_outs as usize
            invariant
                j <= num_live_outs as usize,
                lo_base + 4 * j == *pos,
                *pos <= data@.len(),
                live_outs@.len() == j,
                match spec_parse_live_outs(
                    data@.skip(*pos as int),
                    num_live_outs as int - j as int,
                ) {
                    Ok((rest, c)) => spec_parse_live_outs(data@.skip(lo_base), num_live_outs as int)
                        == Ok::<(Seq<LiveOut>, int), ParsingError>((live_outs@ + rest, 4 * j + c)),
                    Err(e) => spec_parse_live_outs(data@.skip(lo_base), num_live_outs as int)
                        == Err::<(Seq<LiveOut>, int), ParsingError>(e),
                },
            decreases num_live_outs as int - j,
        {
            let ghost prev = *pos as int;
            match LiveOut::decode(data, pos) {
                Err(e) => {
                    assert(spec_parse_live_outs(data@.skip(prev), num_live_outs as int - j as int)
                        == Err::<(Seq<LiveOut>, int), ParsingError>(e));
                    assert(spec_parse_record(s, off0) == Err::<
                        (StkMapRecordView, int, int),
                        ParsingError,
                    >(e));
                    return Err(e);
                },
                Ok(lo) => {
                    proof {
                        lemma_skip_skip(data@, prev, 4);
                    }
                    let ghost old_los = live_outs@;
                    live_outs.push(lo);
                    j = j + 1;
                    proof {
                        assert(live_outs@ =~= old_los + seq![lo]);
                        let rem_n = num_live_outs as int - j as int;
                        match spec_parse_live_outs(data@.skip(*pos as int), rem_n) {
                            Ok((rest, c)) => {
                                assert(old_los + (seq![lo] + rest) =~= live_outs@ + rest);
                            },
                            Err(e) => {},
                        }
                    }
                },
            }
        }
        assert(spec_parse_live_outs(data@.skip(lo_base), num_live_outs as int)
            == Ok::<(Seq<LiveOut>, int), ParsingError>((live_outs@, 4 * num_live_outs as int))) by {
            assert(live_outs@ + Seq::<LiveOut>::empty() =~= live_outs@);
        }
        // Step 7: the counter advances by the bytes of steps 5 and 6 —
        // not by the step-4 padding.
        *stream_offset = *stream_offset + 4 + (*pos - after_counts_pos);
        // Step 8: conditional padding, this time both consumed and counted.
        if *stream_offset % 8 != 0 {
            match read_u32(data, pos) {
                Ok(_) => (),
                Err(e) => {
                    return Err(e);
                },
            }
            *stream_offset = *stream_offset + 4;
        }
        Ok(
            StkMapRecord {
                patch_point_id,
                instruction_offset,
                reserved_0,
                num_locations,
                locations,
                num_live_outs,
                live_outs,
            },
        )
    }
}

impl Default for StkMapRecord {
    /// A record with zero fields and empty location and live-out lists.
    fn default() -> (r: Self)
        ensures
            r.patch_point_id == 0,
            r.instruction_offset == 0,
            r.reserved_0 == 0,
            r.num_locations == 0,
            r@.locations == Seq::<Location>::empty(),
            r.num_live_outs == 0,
            r@.live_outs == Seq::<LiveOut>::empty(),
    {
        let r = StkMapRecord {
            patch_point_id: 0,
            instruction_offset: 0,
            reserved_0: 0,
            num_locations: 0,
            locations: Vec::new(),
            num_live_outs: 0,
            live_outs: Vec::new(),
        };
        proof {
            assert(r@.locations =~= Seq::<Location>::empty());
            assert(r@.live_outs =~= Seq::<LiveOut>::empty());
        }
        r
    }
}

impl Default for StackMap {
    /// A stackmap with a zero header, zero counts, and empty arrays.
    fn default() -> (r: Self)
        ensures
            r.header == (Header { version: 0, reserved_0: 0, reserved_1: 0 }),
            r.num_functions == 0,
            r.num_constants == 0,
            r.num_records == 0,
            r@.stk_size_records == Seq::<StkSizeRecord>::empty(),
            r@.large_constants == Seq::<u64>::empty(),
            r@.stk_map_records == Seq::<StkMapRecordView>::empty(),
    {
        let r = StackMap {
            header: Header { version: 0, reserved_0: 0, reserved_1: 0 },
            num_functions: 0,
            num_constants: 0,
            num_records: 0,
            stk_size_records: Vec::new(),
            large_constants: Vec::new(),
            stk_map_records: Vec::new(),
        };
        proof {
            assert(r@.stk_size_records =~= Seq::<StkSizeRecord>::empty());
            assert(r@.large_constants =~= Seq::<u64>::empty());
            assert(r@.stk_map_records =~= Seq::<StkMapRecordView>::empty());
        }
        r
    }
}

/// The views of a sequence of stackmaps, element by element.
pub open spec fn stackmaps_view(s: Seq<StackMap>) -> Seq<StackMapView> {
    Seq::new(s.len(), |i: int| s[i]@)
}

impl StackMap {
    /// Parse one stackmap instance at `*pos`: header, counts, the two
    /// fixed arrays, then the patch-point records against the running
    /// offset counter, which starts at the bytes consumed so far.
    #[verifier::loop_isolation(false)]
    #[verifier::rlimit(100)]
    #[verifier::spinoff_prover]
    pub fn parse(data: &[u8], pos: &mut usize) -> (r: Result<StackMap, ParsingError>)
        requires
            *old(pos) <= data@.len(),
        ensures
            *old(pos) <= *final(pos) <= data@.len(),
            match spec_parse_stackmap(data@.skip(*old(pos) as int)) {
                Ok((mv, c)) => r is Ok && r->Ok_0@ == mv && *final(pos) == *old(pos) + c,
                Err(e) => r == Err::<StackMap, ParsingError>(e),
            },
    {
        let ghost start = *pos as int;
        let ghost s = data@.skip(start);
        let start_pos: usize = *pos;
        let header = match Header::decode(data, pos) {
            Ok(h) => h,
            Err(e) => {
                return Err(e);
            },
        };
        let num_functions = match read_u32(data, pos) {
            Ok(v) => v,
            Err(e) => {
                return Err(e);
            },
        };
        let num_constants = match read_u32(data, pos) {
            Ok(v) => v,
            Err(e) => {
                return Err(e);
            },
        };
        let num_records = match read_u32(data, pos) {
            Ok(v) => v,
            Err(e) => {
                return Err(e);
            },
        };
        proof {
            lemma_le32_at_skip(data@, start, 4);
            lemma_le32_at_skip(data@, start, 8);
            lemma_le32_at_skip(data@, start, 12);
            lemma_skip_skip(data@, start, 16);
        }
        let ghost fr_base = start + 16;
        let mut stk_size_records: Vec<StkSizeRecord> = Vec::new();
        let mut i: usize = 0;
        while i < num_functions as usize
            invariant
                i <= num_functions as usize,
                fr_base + 24 * i == *pos,
                *pos <= data@.len(),
                stk_size_records@.len() == i,
                match spec_parse_fun_records(
                    data@.skip(*pos as int),
                    num_functions as int - i as int,
                ) {
                    Ok((rest, c)) => spec_parse_fun_records(
                        data@.skip(fr_base),
                        num_functions as int,
                    ) == Ok::<(Seq<StkSizeRecord>, int), ParsingError>(
                        (stk_size_records@ + rest, 24 * i + c),
                    ),
                    Err(e) => spec_parse_fun_records(data@.skip(fr_base), num_functions as int)
                        == Err::<(Seq<StkSizeRecord>, int), ParsingError>(e),
                },
            decreases num_functions as int - i,
        {
            let ghost prev = *pos as int;
            match StkSizeRecord::decode(data, pos) {
                Err(e) => {
                    assert(spec_parse_stackmap(s) == Err::<(StackMapView, int), ParsingError>(e));
                    return Err(e);
                },
                Ok(fr) => {
                    proof {
                        lemma_skip_skip(data@, prev, 24);
                    }
                    let ghost old_frs = stk_size_records@;
                    stk_size_records.push(fr);
                    i = i + 1;
                    proof {
                        assert(stk_size_records@ =~= old_frs + seq![fr]);
                        match spec_parse_fun_records(
                            data@.skip(*pos as int),
                            num_functions as int - i as int,
                        ) {
                            Ok((rest, c)) => {
                                assert(old_frs + (seq![fr] + rest) =~= stk_size_records@ + rest);
                            },
                            Err(e) => {},
                        }
                    }
                },
            }
        }
        assert(spec_parse_fun_records(data@.skip(fr_base), num_functions as int) == Ok::<
            (Seq<StkSizeRecord>, int),
            ParsingError,
        >((stk_size_records@, 24 * num_functions as int))) by {
            assert(stk_size_records@ + Seq::<StkSizeRecord>::empty() =~= stk_size_records@);
        }
        let ghost c_base = *pos as int;
        proof {
            lemma_skip_skip(data@, start, c_base - start);
        }
        let mut large_constants: Vec<u64> = Vec::new();
        let mut k: usize = 0;
        while k < num_constants as usize
            invariant
                k <= num_constants as usize,
                c_base + 8 * k == *pos,
                *pos <= data@.len(),
                large_constants@.len() == k,
                match spec_parse_constants(
                    data@.skip(*pos as int),
                    num_constants as int - k as int,
                ) {
                    Ok((rest, c)) => spec_parse_constants(
                        data@.skip(c_base),
                        num_constants as int,
                    ) == Ok::<(Seq<u64>, int), ParsingError>((large_constants@ + rest, 8 * k + c)),
                    Err(e) => spec_parse_constants(data@.skip(c_base), num_constants as int)
                        == Err::<(Seq<u64>, int), ParsingError>(e),
                },
            decreases num_constants as int - k,
        {
            let ghost prev = *pos as int;
            match read_u64(data, pos) {
                Err(e) => {
                    assert(spec_parse_stackmap(s) == Err::<(StackMapView, int), ParsingError>(e));
                    return Err(e);
                },
                Ok(value) => {
                    proof {
                        lemma_le64_at_skip(data@, prev, 0);
                        lemma_skip_skip(data@, prev, 8);
                    }
                    let ghost old_cs = large_constants@;
                    large_constants.push(value);
                    k = k + 1;
                    proof {
                        assert(large_constants@ =~= old_cs + seq![value]);
                        match spec_parse_constants(
                            data@.skip(*pos as int),
                            num_constants as int - k as int,
                        ) {
                            Ok((rest, c)) => {
                                assert(old_cs + (seq![value] + rest) =~= large_constants@ + rest);
                            },
                            Err(e) => {},
                        }
                    }
                },
            }
        }
        assert(spec_parse_constants(data@.skip(c_base), num_constants as int) == Ok::<
            (Seq<u64>, int),
            ParsingError,
        >((large_constants@, 8 * num_constants as int))) by {
            assert(large_constants@ + Seq::<u64>::empty() =~= large_constants@);
        }
        let ghost r_base = *pos as int;
        let ghost off0 = r_base - start;
        proof {
            lemma_skip_skip(data@, start, off0);
        }
        let mut stream_offset: usize = *pos - start_pos;
        let mut stk_map_records: Vec<StkMapRecord> = Vec::new();
        let mut m: usize = 0;
        while m < num_records as usize
            invariant
                m <= num_records as usize,
                r_base <= *pos <= data@.len(),
                stream_offset <= *pos,
                stk_map_records@.len() == m,
                match spec_parse_records(
                    data@.skip(*pos as int),
                    num_records as int - m as int,
                    stream_offset as int,
                ) {
                    Ok((rest, c)) => spec_parse_records(
                        data@.skip(r_base),
                        num_records as int,
                        off0,
                    ) == Ok::<(Seq<StkMapRecordView>, int), ParsingError>(
                        (records_view(stk_map_records@) + rest, (*pos - r_base) + c),
                    ),
                    Err(e) => spec_parse_records(data@.skip(r_base), num_records as int, off0)
                        == Err::<(Seq<StkMapRecordView>, int), ParsingError>(e),
                },
            decreases num_records as int - m,
        {
            let ghost prev = *pos as int;
            let ghost prev_off = stream_offset as int;
            match StkMapRecord::decode(data, pos, &mut stream_offset) {
                Err(e) => {
                    assert(spec_parse_stackmap(s) == Err::<(StackMapView, int), ParsingError>(e));
                    return Err(e);
                },
                Ok(rec) => {
                    proof {
                        let c = spec_parse_record(data@.skip(prev), prev_off)->Ok_0.1;
                        lemma_skip_skip(data@, prev, c);
                    }
                    let ghost old_rs = stk_map_records@;
                    stk_map_records.push(rec);
                    m = m + 1;
                    proof {
                        assert(records_view(stk_map_records@) =~= records_view(old_rs) + seq![
                            rec@,
                        ]);
                        match spec_parse_records(
                            data@.skip(*pos as int),
                            num_records as int - m as int,
                            stream_offset as int,
                        ) {
                            Ok((rest, c)) => {
                                assert(records_view(old_rs) + (seq![rec@] + rest) =~= records_view(
                                    stk_map_records@,
                                ) + rest);
                            },
                            Err(e) => {},
                        }
                    }
                },
            }
        }
        assert(spec_parse_records(data@.skip(r_base), num_records as int, off0) == Ok::<
            (Seq<StkMapRecordView>, int),
            ParsingError,
        >((records_view(stk_map_records@), (*pos - r_base) as int))) by {
            assert(records_view(stk_map_records@) + Seq::<StkMapRecordView>::empty()
                =~= records_view(stk_map_records@));
        }
        Ok(
            StackMap {
                header,
                num_functions,
                num_constants,
                num_records,
                stk_size_records,
                large_constants,
                stk_map_records,
            },
        )
    }

    /// Parse the stackmap(s) contained in `data`. If multiple object files
    /// that contain a stackmap are linked, the corresponding sections are
    /// concatenated, so this can return more than one stackmap. Any
    /// failure aborts the whole call with that error; no partial result is
    /// returned. The buffer itself is left unchanged.
    #[verifier::loop_isolation(false)]
    pub fn new(data: &mut Vec<u8>) -> (r: Result<Vec<StackMap>, ParsingError>)
        ensures
            final(data)@ == old(data)@,
            match spec_parse_all(old(data)@) {
                Ok(ms) => r is Ok && stackmaps_view(r->Ok_0@) == ms,
                Err(e) => r == Err::<Vec<StackMap>, ParsingError>(e),
            },
    {
        let mut result: Vec<StackMap> = Vec::new();
        let mut pos: usize = 0;
        proof {
            assert(data@.skip(0) =~= data@);
            match spec_parse_all(data@) {
                Ok(rest) => {
                    assert(stackmaps_view(result@) + rest =~= rest);
                },
                Err(e) => {},
            }
        }
        while pos < data.len()
            invariant
                pos <= data@.len(),
                match spec_parse_all(data@.skip(pos as int)) {
                    Ok(rest) => spec_parse_all(data@) == Ok::<Seq<StackMapView>, ParsingError>(
                        stackmaps_view(result@) + rest,
                    ),
                    Err(e) => spec_parse_all(data@) == Err::<Seq<StackMapView>, ParsingError>(e),
                },
            decreases data@.len() - pos,
        {
            let ghost prev = pos as int;
            match StackMap::parse(data.as_slice(), &mut pos) {
                Err(e) => {
                    assert(spec_parse_all(data@) == Err::<Seq<StackMapView>, ParsingError>(e));
                    return Err(e);
                },
                Ok(map) => {
                    proof {
                        lemma_parse_stackmap_bounds(data@.skip(prev));
                        let c = spec_parse_stackmap(data@.skip(prev))->Ok_0.1;
                        lemma_skip_skip(data@, prev, c);
                    }
                    let ghost old_result = result@;
                    result.push(map);
                    proof {
                        assert(stackmaps_view(result@) =~= stackmaps_view(old_result) + seq![
                            map@,
                        ]);
                        match spec_parse_all(data@.skip(pos as int)) {
                            Ok(rest) => {
                                assert(stackmaps_view(old_result) + (seq![map@] + rest)
                                    =~= stackmaps_view(result@) + rest);
                            },
                            Err(e) => {},
                        }
                    }
                },
            }
        }
        assert(data@.skip(pos as int).len() == 0);
        assert(stackmaps_view(result@) + Seq::<StackMapView>::empty() =~= stackmaps_view(result@));
        Ok(result)
    }
}

fn location_vecs_eq(a: &Vec<Location>, b: &Vec<Location>) -> (r: bool)
    ensures
        r == (a@ =~= b@),
{
    if a.len() != b.len() {
        return false;
    }
    let n = a.len();
    let mut i: usize = 0;
    while i < n
        invariant
            n == a@.len() == b@.len(),
            i <= n,
            forall|j: int| 0 <= j < i ==> a@[j] == b@[j],
        decreases n - i,
    {
        if a[i] != b[i] {
            return false;
        }
        i = i + 1;
    }
    true
}

fn live_out_vecs_eq(a: &Vec<LiveOut>, b: &Vec<LiveOut>) -> (r: bool)
    ensures
        r == (a@ =~= b@),
{
    if a.len() != b.len() {
        return false;
    }
    let n = a.len();
    let mut i: usize = 0;
    while i < n
        invariant
            n == a@.len() == b@.len(),
            i <= n,
            forall|j: int| 0 <= j < i ==> a@[j] == b@[j],
        decreases n - i,
    {
        if a[i] != b[i] {
            return false;
        }
        i = i + 1;
    }
    true
}

fn fun_record_vecs_eq(a: &Vec<StkSizeRecord>, b: &Vec<StkSizeRecord>) -> (r: bool)
    ensures
        r == (a@ =~= b@),
{
    if a.len() != b.len() {
        return false;
    }
    let n = a.len();
    let mut i: usize = 0;
    while i < n
        invariant
            n == a@.len() == b@.len(),
            i <= n,
            forall|j: int| 0 <= j < i ==> a@[j] == b@[j],
        decreases n - i,
    {
        if a[i] != b[i] {
            return false;
        }
        i = i + 1;
    }
    true
}

fn constant_vecs_eq(a: &Vec<u64>, b: &Vec<u64>) -> (r: bool)
    ensures
        r == (a@ =~= b@),
{
    if a.len() != b.len() {
        return false;
    }
    let n = a.len();
    let mut i: usize = 0;
    while i < n
        invariant
            n == a@.len() == b@.len(),
            i <= n,
            forall|j: int| 0 <= j < i ==> a@[j] == b@[j],
        decreases n - i,
    {
        if a[i] != b[i] {
            return false;
        }
        i = i + 1;
    }
    true
}

fn record_vecs_eq(a: &Vec<StkMapRecord>, b: &Vec<StkMapRecord>) -> (r: bool)
    ensures
        r == (records_view(a@) =~~= records_view(b@)),
{
    if a.len() != b.len() {
        return false;
    }
    let n = a.len();
    let mut i: usize = 0;
    while i < n
        invariant
            n == a@.len() == b@.len(),
            i <= n,
            forall|j: int| 0 <= j < i ==> #[trigger] records_view(a@)[j] =~= records_view(b@)[j],
        decreases n - i,
    {
        if !(a[i] == b[i]) {
            assert(!(records_view(a@)[i as int] =~= records_view(b@)[i as int]));
            return false;
        }
        i = i + 1;
    }
    true
}

} // verus!
