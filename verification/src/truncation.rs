//! Truncation is always detected as truncation.
//!
//! The main result, [`lemma_truncation_always_detected`]: cut a buffer
//! that parses successfully anywhere strictly before the bytes the parse
//! consumed — in particular, one byte before any field's end — and the
//! parse of the cut buffer fails with [`ParsingError::Truncated`], never
//! with another error and never out of bounds. The proof walks the
//! format: every semantic check the parser makes before the cut read the
//! same bytes and passed, so the first divergence is a length check.

use vstd::prelude::*;

use crate::cursor::le16_at;
use crate::cursor::le32_at;
use crate::cursor::lemma_le16_at_take;
use crate::cursor::lemma_le32_at_take;
use crate::cursor::lemma_le64_at_take;
use crate::cursor::lemma_skip_of_take;
use crate::layout::lemma_parse_constants_bounds;
use crate::layout::lemma_parse_fun_records_bounds;
use crate::layout::lemma_parse_live_outs_bounds;
use crate::layout::lemma_parse_locations_bounds;
use crate::layout::lemma_parse_records_bounds;
use crate::layout::spec_parse_all;
use crate::layout::spec_parse_constants;
use crate::layout::spec_parse_fun_record;
use crate::layout::spec_parse_fun_records;
use crate::layout::spec_parse_live_out;
use crate::layout::spec_parse_live_outs;
use crate::layout::spec_parse_location;
use crate::layout::spec_parse_locations;
use crate::layout::spec_parse_record;
use crate::layout::spec_parse_records;
use crate::layout::spec_parse_stackmap;
use crate::stackmap::ParsingError;
use crate::stackmap::StackMapView;
use crate::stackmap::StkMapRecordView;

verus! {

proof fn lemma_parse_location_prefix(s: Seq<u8>, t: int)
    requires
        spec_parse_location(s) is Ok,
        0 <= t < 12,
    ensures
        spec_parse_location(s.take(t)) == Err::<(crate::stackmap::Location, int), ParsingError>(
            ParsingError::Truncated,
        ),
{
    if t >= 1 {
        assert(s.take(t)[0] == s[0]);
    }
}

proof fn lemma_parse_location_stable(s: Seq<u8>, t: int)
    requires
        spec_parse_location(s) is Ok,
        12 <= t <= s.len(),
    ensures
        spec_parse_location(s.take(t)) == spec_parse_location(s),
{
    assert(s.take(t)[0] == s[0]);
    assert(s.take(t)[1] == s[1]);
    lemma_le16_at_take(s, t, 2);
    lemma_le16_at_take(s, t, 4);
    lemma_le16_at_take(s, t, 6);
    lemma_le32_at_take(s, t, 8);
}

proof fn lemma_parse_locations_prefix(s: Seq<u8>, n: int, t: int)
    requires
        spec_parse_locations(s, n) is Ok,
        0 <= t < spec_parse_locations(s, n)->Ok_0.1,
    ensures
        spec_parse_locations(s.take(t), n) == Err::<(Seq<crate::stackmap::Location>, int), ParsingError>(
            ParsingError::Truncated,
        ),
    decreases n,
{
    lemma_parse_locations_bounds(s, n);
    if t < 12 {
        lemma_parse_location_prefix(s, t);
    } else {
        lemma_parse_location_stable(s, t);
        lemma_skip_of_take(s, t, 12);
        lemma_parse_locations_bounds(s.skip(12), n - 1);
        lemma_parse_locations_prefix(s.skip(12), n - 1, t - 12);
    }
}

proof fn lemma_parse_locations_stable(s: Seq<u8>, n: int, t: int)
    requires
        spec_parse_locations(s, n) is Ok,
        spec_parse_locations(s, n)->Ok_0.1 <= t <= s.len(),
    ensures
        spec_parse_locations(s.take(t), n) == spec_parse_locations(s, n),
    decreases n,
{
    lemma_parse_locations_bounds(s, n);
    if n > 0 {
        lemma_parse_location_stable(s, t);
        lemma_skip_of_take(s, t, 12);
        lemma_parse_locations_stable(s.skip(12), n - 1, t - 12);
    }
}

proof fn lemma_parse_live_out_prefix(s: Seq<u8>, t: int)
    requires
        spec_parse_live_out(s) is Ok,
        0 <= t < 4,
    ensures
        spec_parse_live_out(s.take(t)) == Err::<(crate::stackmap::LiveOut, int), ParsingError>(
            ParsingError::Truncated,
        ),
{
    if t >= 3 {
        assert(s.take(t)[2] == s[2]);
    }
}

proof fn lemma_parse_live_out_stable(s: Seq<u8>, t: int)
    requires
        spec_parse_live_out(s) is Ok,
        4 <= t <= s.len(),
    ensures
        spec_parse_live_out(s.take(t)) == spec_parse_live_out(s),
{
    assert(s.take(t)[2] == s[2]);
    assert(s.take(t)[3] == s[3]);
    lemma_le16_at_take(s, t, 0);
}

proof fn lemma_parse_live_outs_prefix(s: Seq<u8>, n: int, t: int)
    requires
        spec_parse_live_outs(s, n) is Ok,
        0 <= t < spec_parse_live_outs(s, n)->Ok_0.1,
    ensures
        spec_parse_live_outs(s.take(t), n) == Err::<(Seq<crate::stackmap::LiveOut>, int), ParsingError>(
            ParsingError::Truncated,
        ),
    decreases n,
{
    lemma_parse_live_outs_bounds(s, n);
    if t < 4 {
        lemma_parse_live_out_prefix(s, t);
    } else {
        lemma_parse_live_out_stable(s, t);
        lemma_skip_of_take(s, t, 4);
        lemma_parse_live_outs_bounds(s.skip(4), n - 1);
        lemma_parse_live_outs_prefix(s.skip(4), n - 1, t - 4);
    }
}

proof fn lemma_parse_live_outs_stable(s: Seq<u8>, n: int, t: int)
    requires
        spec_parse_live_outs(s, n) is Ok,
        spec_parse_live_outs(s, n)->Ok_0.1 <= t <= s.len(),
    ensures
        spec_parse_live_outs(s.take(t), n) == spec_parse_live_outs(s, n),
    decreases n,
{
    lemma_parse_live_outs_bounds(s, n);
    if n > 0 {
        lemma_parse_live_out_stable(s, t);
        lemma_skip_of_take(s, t, 4);
        lemma_parse_live_outs_stable(s.skip(4), n - 1, t - 4);
    }
}

proof fn lemma_parse_fun_record_stable(s: Seq<u8>, t: int)
    requires
        spec_parse_fun_record(s) is Ok,
        24 <= t <= s.len(),
    ensures
        spec_parse_fun_record(s.take(t)) == spec_parse_fun_record(s),
{
    lemma_le64_at_take(s, t, 0);
    lemma_le64_at_take(s, t, 8);
    lemma_le64_at_take(s, t, 16);
}

proof fn lemma_parse_fun_records_prefix(s: Seq<u8>, n: int, t: int)
    requires
        spec_parse_fun_records(s, n) is Ok,
        0 <= t < spec_parse_fun_records(s, n)->Ok_0.1,
    ensures
        spec_parse_fun_records(s.take(t), n) == Err::<(Seq<crate::stackmap::StkSizeRecord>, int), ParsingError>(
            ParsingError::Truncated,
        ),
    decreases n,
{
    lemma_parse_fun_records_bounds(s, n);
    if t < 24 {
    } else {
        lemma_parse_fun_record_stable(s, t);
        lemma_skip_of_take(s, t, 24);
        lemma_parse_fun_records_bounds(s.skip(24), n - 1);
        lemma_parse_fun_records_prefix(s.skip(24), n - 1, t - 24);
    }
}

proof fn lemma_parse_fun_records_stable(s: Seq<u8>, n: int, t: int)
    requires
        spec_parse_fun_records(s, n) is Ok,
        spec_parse_fun_records(s, n)->Ok_0.1 <= t <= s.len(),
    ensures
        spec_parse_fun_records(s.take(t), n) == spec_parse_fun_records(s, n),
    decreases n,
{
    lemma_parse_fun_records_bounds(s, n);
    if n > 0 {
        lemma_parse_fun_record_stable(s, t);
        lemma_skip_of_take(s, t, 24);
        lemma_parse_fun_records_stable(s.skip(24), n - 1, t - 24);
    }
}

proof fn lemma_parse_constants_prefix(s: Seq<u8>, n: int, t: int)
    requires
        spec_parse_constants(s, n) is Ok,
        0 <= t < spec_parse_constants(s, n)->Ok_0.1,
    ensures
        spec_parse_constants(s.take(t), n) == Err::<(Seq<u64>, int), ParsingError>(
            ParsingError::Truncated,
        ),
    decreases n,
{
    lemma_parse_constants_bounds(s, n);
    if t < 8 {
    } else {
        lemma_le64_at_take(s, t, 0);
        lemma_skip_of_take(s, t, 8);
        lemma_parse_constants_bounds(s.skip(8), n - 1);
        lemma_parse_constants_prefix(s.skip(8), n - 1, t - 8);
    }
}

proof fn lemma_parse_constants_stable(s: Seq<u8>, n: int, t: int)
    requires
        spec_parse_constants(s, n) is Ok,
        spec_parse_constants(s, n)->Ok_0.1 <= t <= s.len(),
    ensures
        spec_parse_constants(s.take(t), n) == spec_parse_constants(s, n),
    decreases n,
{
    lemma_parse_constants_bounds(s, n);
    if n > 0 {
        lemma_le64_at_take(s, t, 0);
        lemma_skip_of_take(s, t, 8);
        lemma_parse_constants_stable(s.skip(8), n - 1, t - 8);
    }
}

#[verifier::rlimit(100)]
#[verifier::spinoff_prover]
proof fn lemma_parse_record_prefix(s: Seq<u8>, off: int, t: int)
    requires
        spec_parse_record(s, off) is Ok,
        0 <= t < spec_parse_record(s, off)->Ok_0.1,
    ensures
        spec_parse_record(s.take(t), off) == Err::<(StkMapRecordView, int, int), ParsingError>(
            ParsingError::Truncated,
        ),
{
    crate::layout::lemma_parse_record_bounds(s, off);
    if t < 16 {
        return ;
    }
    lemma_le16_at_take(s, t, 14);
    let n = le16_at(s, 14) as int;
    lemma_parse_locations_bounds(s.skip(16), n);
    let lbytes = spec_parse_locations(s.skip(16), n)->Ok_0.1;
    lemma_skip_of_take(s, t, 16);
    if t < 16 + lbytes {
        lemma_parse_locations_prefix(s.skip(16), n, t - 16);
    } else {
        lemma_parse_locations_stable(s.skip(16), n, t - 16);
        let off1 = off + 16 + lbytes;
        let p2 = if off1 % 8 != 0 {
            16 + lbytes + 4
        } else {
            16 + lbytes
        };
        if t < p2 + 4 {
        } else {
            lemma_le16_at_take(s, t, p2 + 2);
            let k = le16_at(s, p2 + 2) as int;
            lemma_parse_live_outs_bounds(s.skip(p2 + 4), k);
            let obytes = spec_parse_live_outs(s.skip(p2 + 4), k)->Ok_0.1;
            lemma_skip_of_take(s, t, p2 + 4);
            if t < p2 + 4 + obytes {
                lemma_parse_live_outs_prefix(s.skip(p2 + 4), k, t - (p2 + 4));
            } else {
                lemma_parse_live_outs_stable(s.skip(p2 + 4), k, t - (p2 + 4));
            }
        }
    }
}

#[verifier::rlimit(100)]
#[verifier::spinoff_prover]
proof fn lemma_parse_record_stable(s: Seq<u8>, off: int, t: int)
    requires
        spec_parse_record(s, off) is Ok,
        spec_parse_record(s, off)->Ok_0.1 <= t <= s.len(),
    ensures
        spec_parse_record(s.take(t), off) == spec_parse_record(s, off),
{
    crate::layout::lemma_parse_record_bounds(s, off);
    let c = spec_parse_record(s, off)->Ok_0.1;
    let n = le16_at(s, 14) as int;
    lemma_parse_locations_bounds(s.skip(16), n);
    let lbytes = spec_parse_locations(s.skip(16), n)->Ok_0.1;
    let off1 = off + 16 + lbytes;
    let p2 = if off1 % 8 != 0 {
        16 + lbytes + 4
    } else {
        16 + lbytes
    };
    let k = le16_at(s, p2 + 2) as int;
    lemma_parse_live_outs_bounds(s.skip(p2 + 4), k);
    let obytes = spec_parse_live_outs(s.skip(p2 + 4), k)->Ok_0.1;
    let off2 = off1 + 4 + obytes;
    let p3 = p2 + 4 + obytes;
    assert(c == if off2 % 8 != 0 {
        p3 + 4
    } else {
        p3
    });
    lemma_le16_at_take(s, t, 14);
    crate::cursor::lemma_le64_at_take(s, t, 0);
    lemma_le32_at_take(s, t, 8);
    lemma_le16_at_take(s, t, 12);
    lemma_skip_of_take(s, t, 16);
    lemma_parse_locations_stable(s.skip(16), n, t - 16);
    lemma_le16_at_take(s, t, p2 + 2);
    lemma_skip_of_take(s, t, p2 + 4);
    lemma_parse_live_outs_stable(s.skip(p2 + 4), k, t - (p2 + 4));
}

proof fn lemma_parse_records_prefix(s: Seq<u8>, n: int, off: int, t: int)
    requires
        spec_parse_records(s, n, off) is Ok,
        0 <= t < spec_parse_records(s, n, off)->Ok_0.1,
    ensures
        spec_parse_records(s.take(t), n, off) == Err::<(Seq<StkMapRecordView>, int), ParsingError>(
            ParsingError::Truncated,
        ),
    decreases n,
{
    lemma_parse_records_bounds(s, n, off);
    crate::layout::lemma_parse_record_bounds(s, off);
    let (first, c, off2) = spec_parse_record(s, off)->Ok_0;
    if t < c {
        lemma_parse_record_prefix(s, off, t);
    } else {
        lemma_parse_record_stable(s, off, t);
        lemma_skip_of_take(s, t, c);
        lemma_parse_records_bounds(s.skip(c), n - 1, off2);
        lemma_parse_records_prefix(s.skip(c), n - 1, off2, t - c);
    }
}

/// Truncating a buffer that parses as one whole stackmap anywhere
/// strictly inside the bytes that parse consumed — in particular, one
/// byte before any field's end — turns the parse into the truncation
/// error: never a panic, never an out-of-bounds access, never another
/// error kind. Cutting at 0 leaves an empty buffer, which
/// `spec_parse_all` reads as holding no instances.
#[verifier::rlimit(100)]
#[verifier::spinoff_prover]
pub proof fn lemma_truncation_always_detected(s: Seq<u8>, t: int)
    requires
        spec_parse_stackmap(s) is Ok,
        0 <= t < spec_parse_stackmap(s)->Ok_0.1,
    ensures
        spec_parse_stackmap(s.take(t)) == Err::<(StackMapView, int), ParsingError>(
            ParsingError::Truncated,
        ),
        t > 0 ==> spec_parse_all(s.take(t)) == Err::<Seq<StackMapView>, ParsingError>(
            ParsingError::Truncated,
        ),
{
    crate::layout::lemma_parse_stackmap_bounds(s);
    if t >= 1 {
        assert(s.take(t)[0] == s[0]);
    }
    if t >= 4 {
        assert(s.take(t)[1] == s[1]);
        lemma_le16_at_take(s, t, 2);
    }
    if t >= 16 {
        lemma_le32_at_take(s, t, 4);
        lemma_le32_at_take(s, t, 8);
        lemma_le32_at_take(s, t, 12);
        let nf = le32_at(s, 4) as int;
        let nc = le32_at(s, 8) as int;
        let nr = le32_at(s, 12) as int;
        lemma_parse_fun_records_bounds(s.skip(16), nf);
        let fbytes = spec_parse_fun_records(s.skip(16), nf)->Ok_0.1;
        lemma_skip_of_take(s, t, 16);
        if t < 16 + fbytes {
            lemma_parse_fun_records_prefix(s.skip(16), nf, t - 16);
        } else {
            lemma_parse_fun_records_stable(s.skip(16), nf, t - 16);
            lemma_parse_constants_bounds(s.skip(16 + fbytes), nc);
            let cbytes = spec_parse_constants(s.skip(16 + fbytes), nc)->Ok_0.1;
            lemma_skip_of_take(s, t, 16 + fbytes);
            if t < 16 + fbytes + cbytes {
                lemma_parse_constants_prefix(s.skip(16 + fbytes), nc, t - (16 + fbytes));
            } else {
                lemma_parse_constants_stable(s.skip(16 + fbytes), nc, t - (16 + fbytes));
                let off0 = 16 + fbytes + cbytes;
                lemma_parse_records_bounds(s.skip(off0), nr, off0);
                lemma_skip_of_take(s, t, off0);
                lemma_parse_records_prefix(s.skip(off0), nr, off0, t - off0);
            }
        }
    }
}

} // verus!
