//! Parsing is stable under extension, and decodable buffers concatenate.
//!
//! The main result, [`lemma_parse_all_concat`]: a buffer formed by
//! concatenating two buffers that each decode successfully decodes to
//! the two instance sequences, one after the other — each instance
//! exactly what decoding its own buffer alone gives. The proof shows
//! that a successful parse reads nothing past the bytes it consumes, so
//! appending more bytes changes neither the value nor the count.

use vstd::prelude::*;

use crate::cursor::le16_at;
use crate::cursor::le32_at;
use crate::cursor::le64_at;
use crate::layout::lemma_parse_constants_bounds;
use crate::layout::lemma_parse_fun_records_bounds;
use crate::layout::lemma_parse_live_outs_bounds;
use crate::layout::lemma_parse_locations_bounds;
use crate::layout::lemma_parse_record_bounds;
use crate::layout::lemma_parse_records_bounds;
use crate::layout::lemma_parse_stackmap_bounds;
use crate::layout::spec_parse_all;
use crate::layout::spec_parse_constants;
use crate::layout::spec_parse_fun_record;
use crate::layout::spec_parse_fun_records;
use crate::layout::spec_parse_live_out;
use crate::layout::spec_parse_live_outs;
use crate::layout::spec_parse_location;
use crate::layout::spec_parse_locations;
use crate::layout::spec_parse_record;
use crate::layout::spec_parse_records;
use crate::layout::spec_parse_stackmap;
use crate::stackmap::StackMapView;

verus! {

proof fn lemma_le16_at_ext(s: Seq<u8>, ext: Seq<u8>, i: int)
    requires
        0 <= i,
        i + 2 <= s.len(),
    ensures
        le16_at(s + ext, i) == le16_at(s, i),
{
    assert((s + ext).subrange(i, i + 2) =~= s.subrange(i, i + 2));
}

proof fn lemma_le32_at_ext(s: Seq<u8>, ext: Seq<u8>, i: int)
    requires
        0 <= i,
        i + 4 <= s.len(),
    ensures
        le32_at(s + ext, i) == le32_at(s, i),
{
    assert((s + ext).subrange(i, i + 4) =~= s.subrange(i, i + 4));
}

proof fn lemma_le64_at_ext(s: Seq<u8>, ext: Seq<u8>, i: int)
    requires
        0 <= i,
        i + 8 <= s.len(),
    ensures
        le64_at(s + ext, i) == le64_at(s, i),
{
    assert((s + ext).subrange(i, i + 8) =~= s.subrange(i, i + 8));
}

proof fn lemma_skip_of_ext(s: Seq<u8>, ext: Seq<u8>, k: int)
    requires
        0 <= k <= s.len(),
    ensures
        (s + ext).skip(k) =~= s.skip(k) + ext,
{
}

proof fn lemma_parse_location_ext(s: Seq<u8>, ext: Seq<u8>)
    requires
        spec_parse_location(s) is Ok,
    ensures
        spec_parse_location(s + ext) == spec_parse_location(s),
{
    assert((s + ext)[0] == s[0]);
    assert((s + ext)[1] == s[1]);
    lemma_le16_at_ext(s, ext, 2);
    lemma_le16_at_ext(s, ext, 4);
    lemma_le16_at_ext(s, ext, 6);
    lemma_le32_at_ext(s, ext, 8);
}

proof fn lemma_parse_locations_ext(s: Seq<u8>, ext: Seq<u8>, n: int)
    requires
        spec_parse_locations(s, n) is Ok,
    ensures
        spec_parse_locations(s + ext, n) == spec_parse_locations(s, n),
    decreases n,
{
    lemma_parse_locations_bounds(s, n);
    if n > 0 {
        lemma_parse_location_ext(s, ext);
        lemma_skip_of_ext(s, ext, 12);
        lemma_parse_locations_ext(s.skip(12), ext, n - 1);
    }
}

proof fn lemma_parse_live_out_ext(s: Seq<u8>, ext: Seq<u8>)
    requires
        spec_parse_live_out(s) is Ok,
    ensures
        spec_parse_live_out(s + ext) == spec_parse_live_out(s),
{
    assert((s + ext)[2] == s[2]);
    assert((s + ext)[3] == s[3]);
    lemma_le16_at_ext(s, ext, 0);
}

proof fn lemma_parse_live_outs_ext(s: Seq<u8>, ext: Seq<u8>, n: int)
    requires
        spec_parse_live_outs(s, n) is Ok,
    ensures
        spec_parse_live_outs(s + ext, n) == spec_parse_live_outs(s, n),
    decreases n,
{
    lemma_parse_live_outs_bounds(s, n);
    if n > 0 {
        lemma_parse_live_out_ext(s, ext);
        lemma_skip_of_ext(s, ext, 4);
        lemma_parse_live_outs_ext(s.skip(4), ext, n - 1);
    }
}

proof fn lemma_parse_fun_record_ext(s: Seq<u8>, ext: Seq<u8>)
    requires
        spec_parse_fun_record(s) is Ok,
    ensures
        spec_parse_fun_record(s + ext) == spec_parse_fun_record(s),
{
    lemma_le64_at_ext(s, ext, 0);
    lemma_le64_at_ext(s, ext, 8);
    lemma_le64_at_ext(s, ext, 16);
}

proof fn lemma_parse_fun_records_ext(s: Seq<u8>, ext: Seq<u8>, n: int)
    requires
        spec_parse_fun_records(s, n) is Ok,
    ensures
        spec_parse_fun_records(s + ext, n) == spec_parse_fun_records(s, n),
    decreases n,
{
    lemma_parse_fun_records_bounds(s, n);
    if n > 0 {
        lemma_parse_fun_record_ext(s, ext);
        lemma_skip_of_ext(s, ext, 24);
        lemma_parse_fun_records_ext(s.skip(24), ext, n - 1);
    }
}

proof fn lemma_parse_constants_ext(s: Seq<u8>, ext: Seq<u8>, n: int)
    requires
        spec_parse_constants(s, n) is Ok,
    ensures
        spec_parse_constants(s + ext, n) == spec_parse_constants(s, n),
    decreases n,
{
    lemma_parse_constants_bounds(s, n);
    if n > 0 {
        lemma_le64_at_ext(s, ext, 0);
        lemma_skip_of_ext(s, ext, 8);
        lemma_parse_constants_ext(s.skip(8), ext, n - 1);
    }
}

#[verifier::rlimit(100)]
#[verifier::spinoff_prover]
proof fn lemma_parse_record_ext(s: Seq<u8>, ext: Seq<u8>, off: int)
    requires
        spec_parse_record(s, off) is Ok,
    ensures
        spec_parse_record(s + ext, off) == spec_parse_record(s, off),
{
    lemma_parse_record_bounds(s, off);
    let c = spec_parse_record(s, off)->Ok_0.1;
    let n = le16_at(s, 14) as int;
    lemma_parse_locations_bounds(s.skip(16), n);
    let lbytes = spec_parse_locations(s.skip(16), n)->Ok_0.1;
    let off1 = off + 16 + lbytes;
    let p2 = if off1 % 8 != 0 {
        16 + lbytes + 4
    } else {
        16 + lbytes
    };
    let k = le16_at(s, p2 + 2) as int;
    lemma_parse_live_outs_bounds(s.skip(p2 + 4), k);
    let obytes = spec_parse_live_outs(s.skip(p2 + 4), k)->Ok_0.1;
    let off2 = off1 + 4 + obytes;
    let p3 = p2 + 4 + obytes;
    assert(c == if off2 % 8 != 0 {
        p3 + 4
    } else {
        p3
    });
    lemma_le64_at_ext(s, ext, 0);
    lemma_le32_at_ext(s, ext, 8);
    lemma_le16_at_ext(s, ext, 12);
    lemma_le16_at_ext(s, ext, 14);
    lemma_skip_of_ext(s, ext, 16);
    lemma_parse_locations_ext(s.skip(16), ext, n);
    lemma_le16_at_ext(s, ext, p2 + 2);
    lemma_skip_of_ext(s, ext, p2 + 4);
    lemma_parse_live_outs_ext(s.skip(p2 + 4), ext, k);
}

proof fn lemma_parse_records_ext(s: Seq<u8>, ext: Seq<u8>, n: int, off: int)
    requires
        spec_parse_records(s, n, off) is Ok,
    ensures
        spec_parse_records(s + ext, n, off) == spec_parse_records(s, n, off),
    decreases n,
{
    lemma_parse_records_bounds(s, n, off);
    if n > 0 {
        lemma_parse_record_bounds(s, off);
        let (first, c, off2) = spec_parse_record(s, off)->Ok_0;
        lemma_parse_record_ext(s, ext, off);
        lemma_skip_of_ext(s, ext, c);
        lemma_parse_records_ext(s.skip(c), ext, n - 1, off2);
    }
}

/// A successful whole-instance parse reads nothing past the bytes it
/// consumes: appending anything changes neither the instance nor the
/// count of consumed bytes.
#[verifier::rlimit(100)]
#[verifier::spinoff_prover]
pub proof fn lemma_parse_stackmap_ext(s: Seq<u8>, ext: Seq<u8>)
    requires
        spec_parse_stackmap(s) is Ok,
    ensures
        spec_parse_stackmap(s + ext) == spec_parse_stackmap(s),
{
    lemma_parse_stackmap_bounds(s);
    assert((s + ext)[0] == s[0]);
    assert((s + ext)[1] == s[1]);
    lemma_le16_at_ext(s, ext, 2);
    lemma_le32_at_ext(s, ext, 4);
    lemma_le32_at_ext(s, ext, 8);
    lemma_le32_at_ext(s, ext, 12);
    let nf = le32_at(s, 4) as int;
    let nc = le32_at(s, 8) as int;
    let nr = le32_at(s, 12) as int;
    lemma_parse_fun_records_bounds(s.skip(16), nf);
    let fbytes = spec_parse_fun_records(s.skip(16), nf)->Ok_0.1;
    lemma_skip_of_ext(s, ext, 16);
    lemma_parse_fun_records_ext(s.skip(16), ext, nf);
    lemma_parse_constants_bounds(s.skip(16 + fbytes), nc);
    let cbytes = spec_parse_constants(s.skip(16 + fbytes), nc)->Ok_0.1;
    lemma_skip_of_ext(s, ext, 16 + fbytes);
    lemma_parse_constants_ext(s.skip(16 + fbytes), ext, nc);
    let off0 = 16 + fbytes + cbytes;
    lemma_parse_records_bounds(s.skip(off0), nr, off0);
    lemma_skip_of_ext(s, ext, off0);
    lemma_parse_records_ext(s.skip(off0), ext, nr, off0);
}

/// Concatenating two buffers that each decode successfully gives a
/// buffer that decodes to the two instance sequences in order — each
/// instance exactly what decoding its own buffer alone yields. With one
/// instance per buffer this is the concatenation law for two
/// independently valid sections.
pub proof fn lemma_parse_all_concat(b1: Seq<u8>, b2: Seq<u8>)
    requires
        spec_parse_all(b1) is Ok,
        spec_parse_all(b2) is Ok,
    ensures
        spec_parse_all(b1 + b2) == Ok::<Seq<StackMapView>, crate::stackmap::ParsingError>(
            spec_parse_all(b1)->Ok_0 + spec_parse_all(b2)->Ok_0,
        ),
    decreases b1.len(),
{
    if b1.len() == 0 {
        assert(b1 + b2 =~= b2);
        assert(Seq::<StackMapView>::empty() + spec_parse_all(b2)->Ok_0 =~= spec_parse_all(
            b2,
        )->Ok_0);
    } else {
        let (first, c) = spec_parse_stackmap(b1)->Ok_0;
        lemma_parse_stackmap_bounds(b1);
        lemma_parse_stackmap_ext(b1, b2);
        assert((b1 + b2).skip(c) =~= b1.skip(c) + b2);
        lemma_parse_all_concat(b1.skip(c), b2);
        assert(seq![first] + (spec_parse_all(b1.skip(c))->Ok_0 + spec_parse_all(b2)->Ok_0)
            =~= (seq![first] + spec_parse_all(b1.skip(c))->Ok_0) + spec_parse_all(b2)->Ok_0);
    }
}

} // verus!
