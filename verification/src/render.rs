//! The presenter: renders a decoded stackmap as the line-oriented text
//! that `llvm-readobj --stackmap` uses, with constant-index locations
//! resolved against the constant pool. Pure formatting — the
//! specification functions here define every character of the output.

use vstd::prelude::*;
use vstd::string::StringExecFns;

use crate::stackmap::LiveOut;
use crate::stackmap::Location;
use crate::stackmap::LocationType;
use crate::stackmap::StackMap;
use crate::stackmap::StackMapView;
use crate::stackmap::StkMapRecordView;
use crate::stackmap::StkSizeRecord;

verus! {

/// The decimal digit `d` as a character.
pub open spec fn digit_char(d: nat) -> char {
    if d == 0 {
        '0'
    } else if d == 1 {
        '1'
    } else if d == 2 {
        '2'
    } else if d == 3 {
        '3'
    } else if d == 4 {
        '4'
    } else if d == 5 {
        '5'
    } else if d == 6 {
        '6'
    } else if d == 7 {
        '7'
    } else if d == 8 {
        '8'
    } else {
        '9'
    }
}

/// `n` written in decimal, without sign or leading zeros (a bare `0` for
/// zero).
pub open spec fn spec_dec_digits(n: nat) -> Seq<char>
    decreases n,
{
    if n < 10 {
        seq![digit_char(n)]
    } else {
        spec_dec_digits(n / 10) + seq![digit_char(n % 10)]
    }
}

/// `v` written in decimal, with a leading minus sign when negative.
pub open spec fn spec_dec_int(v: int) -> Seq<char> {
    if v < 0 {
        "-"@ + spec_dec_digits((-v) as nat)
    } else {
        spec_dec_digits(v as nat)
    }
}

/// A location the presenter can render: a valid kind, and a
/// constant-index that resolves inside the pool of `nconsts` entries.
pub open spec fn renderable_location(l: Location, nconsts: int) -> bool {
    &&& l.loc_type != LocationType::Invalid
    &&& (l.loc_type == LocationType::ConstIndex ==> 0 <= l.offset_or_constant < nconsts)
}

/// A stackmap the presenter can render: every location of every record
/// is renderable against the constant pool.
pub open spec fn renderable(m: StackMapView) -> bool {
    forall|i: int, j: int|
        0 <= i < m.stk_map_records.len() && 0 <= j < m.stk_map_records[i].locations.len()
            ==> renderable_location(
            #[trigger] m.stk_map_records[i].locations[j],
            m.large_constants.len() as int,
        )
}

/// The kind-specific rendering of one location, with constant-index
/// resolution against the pool.
pub open spec fn spec_render_location_kind(l: Location, constants: Seq<u64>) -> Seq<char> {
    match l.loc_type {
        LocationType::Invalid => Seq::empty(),
        LocationType::Register => "Register R#"@ + spec_dec_digits(l.dwarf_regnum as nat),
        LocationType::Direct => "Direct R#"@ + spec_dec_digits(l.dwarf_regnum as nat) + " + "@
            + spec_dec_int(l.offset_or_constant as int),
        LocationType::Indirect => "Indirect [ R#"@ + spec_dec_digits(l.dwarf_regnum as nat)
            + " + "@ + spec_dec_int(l.offset_or_constant as int) + "]"@,
        LocationType::Constant => "Constant "@ + spec_dec_int(l.offset_or_constant as int),
        LocationType::ConstIndex => "ConstantIndex #"@ + spec_dec_int(l.offset_or_constant as int)
            + " ("@ + spec_dec_digits(constants[l.offset_or_constant as int] as nat) + ")"@,
    }
}

/// One numbered location line.
pub open spec fn spec_render_location_line(
    l: Location,
    constants: Seq<u64>,
    number: int,
) -> Seq<char> {
    "      #"@ + spec_dec_digits(number as nat) + ": "@ + spec_render_location_kind(l, constants)
        + ", size: "@ + spec_dec_digits(l.loc_size as nat) + "\n"@
}

/// The numbered location lines of one record, `number` the 1-based
/// number of the first.
pub open spec fn spec_render_location_lines(
    ls: Seq<Location>,
    constants: Seq<u64>,
    number: int,
) -> Seq<char>
    decreases ls.len(),
{
    if ls.len() == 0 {
        Seq::empty()
    } else {
        spec_render_location_line(ls[0], constants, number) + spec_render_location_lines(
            ls.skip(1),
            constants,
            number + 1,
        )
    }
}

/// One live-out item inside the bracketed list.
pub open spec fn spec_render_live_out_item(lo: LiveOut) -> Seq<char> {
    "R#"@ + spec_dec_digits(lo.dwarf_regnum as nat) + " ("@ + spec_dec_digits(lo.size as nat)
        + "-bytes) "@
}

/// The concatenated live-out items of one record.
pub open spec fn spec_render_live_out_items(los: Seq<LiveOut>) -> Seq<char>
    decreases los.len(),
{
    if los.len() == 0 {
        Seq::empty()
    } else {
        spec_render_live_out_item(los[0]) + spec_render_live_out_items(los.skip(1))
    }
}

/// The lines of one patch-point record: its head line, its location
/// lines, and its live-out line.
pub open spec fn spec_render_record(r: StkMapRecordView, constants: Seq<u64>) -> Seq<char> {
    "  Record ID: "@ + spec_dec_digits(r.patch_point_id as nat) + ", instruction offset: "@
        + spec_dec_digits(r.instruction_offset as nat) + "\n"@ + "    "@ + spec_dec_digits(
        r.num_locations as nat,
    ) + " locations:\n"@ + spec_render_location_lines(r.locations, constants, 1) + "    "@
        + spec_dec_digits(r.num_live_outs as nat) + " live-outs: [ "@
        + spec_render_live_out_items(r.live_outs) + "]\n"@
}

/// The lines of the whole record array.
pub open spec fn spec_render_records(rs: Seq<StkMapRecordView>, constants: Seq<u64>) -> Seq<char>
    decreases rs.len(),
{
    if rs.len() == 0 {
        Seq::empty()
    } else {
        spec_render_record(rs[0], constants) + spec_render_records(rs.skip(1), constants)
    }
}

/// One function-record line.
pub open spec fn spec_render_fun_record(f: StkSizeRecord) -> Seq<char> {
    "  Function address: "@ + spec_dec_digits(f.function_address as nat) + ", stack size: "@
        + spec_dec_digits(f.stack_size as nat) + ", callsite record count: "@ + spec_dec_digits(
        f.record_count as nat,
    ) + "\n"@
}

/// The function-record lines.
pub open spec fn spec_render_fun_records(fs: Seq<StkSizeRecord>) -> Seq<char>
    decreases fs.len(),
{
    if fs.len() == 0 {
        Seq::empty()
    } else {
        spec_render_fun_record(fs[0]) + spec_render_fun_records(fs.skip(1))
    }
}

/// The numbered constant lines, `number` the 1-based number of the
/// first.
pub open spec fn spec_render_constant_lines(cs: Seq<u64>, number: int) -> Seq<char>
    decreases cs.len(),
{
    if cs.len() == 0 {
        Seq::empty()
    } else {
        "  #"@ + spec_dec_digits(number as nat) + ": "@ + spec_dec_digits(cs[0] as nat) + "\n"@
            + spec_render_constant_lines(cs.skip(1), number + 1)
    }
}

/// The whole rendering: version, counts, function records, constants
/// (1-based), and patch-point records with their locations and
/// live-outs.
pub open spec fn spec_render_stackmap(m: StackMapView) -> Seq<char> {
    "LLVM StackMap Version: "@ + spec_dec_digits(m.header.version as nat) + "\n"@
        + "Num Functions: "@ + spec_dec_digits(m.num_functions as nat) + "\n"@
        + spec_render_fun_records(m.stk_size_records) + "Num Constants: "@ + spec_dec_digits(
        m.num_constants as nat,
    ) + "\n"@ + spec_render_constant_lines(m.large_constants, 1) + "Num Records: "@
        + spec_dec_digits(m.num_records as nat) + "\n"@ + spec_render_records(
        m.stk_map_records,
        m.large_constants,
    )
}

/// Append the decimal digit `d` to `out`.
fn push_digit(out: &mut String, d: u64)
    requires
        d < 10,
    ensures
        final(out)@ == old(out)@ + seq![digit_char(d as nat)],
{
    proof {
        reveal_strlit("0");
        reveal_strlit("1");
        reveal_strlit("2");
        reveal_strlit("3");
        reveal_strlit("4");
        reveal_strlit("5");
        reveal_strlit("6");
        reveal_strlit("7");
        reveal_strlit("8");
        reveal_strlit("9");
    }
    match d {
        0u64 => out.append("0"),
        1u64 => out.append("1"),
        2u64 => out.append("2"),
        3u64 => out.append("3"),
        4u64 => out.append("4"),
        5u64 => out.append("5"),
        6u64 => out.append("6"),
        7u64 => out.append("7"),
        8u64 => out.append("8"),
        _ => out.append("9"),
    }
    proof {
        assert(final(out)@ =~= old(out)@ + seq![digit_char(d as nat)]);
    }
}

/// Append `n` in decimal to `out`.
fn push_dec_u64(out: &mut String, n: u64)
    ensures
        final(out)@ == old(out)@ + spec_dec_digits(n as nat),
    decreases n,
{
    if n >= 10 {
        push_dec_u64(out, n / 10);
        push_digit(out, n % 10);
        proof {
            assert(old(out)@ + (spec_dec_digits((n / 10) as nat) + seq![
                digit_char((n % 10) as nat),
            ]) =~= (old(out)@ + spec_dec_digits((n / 10) as nat)) + seq![
                digit_char((n % 10) as nat),
            ]);
        }
    } else {
        push_digit(out, n);
    }
}

/// Append `v` in decimal to `out`, with a minus sign when negative.
fn push_dec_i32(out: &mut String, v: i32)
    ensures
        final(out)@ == old(out)@ + spec_dec_int(v as int),
{
    if v < 0 {
        out.append("-");
        let magnitude: u64 = (-(v as i64)) as u64;
        push_dec_u64(out, magnitude);
        proof {
            assert(old(out)@ + ("-"@ + spec_dec_digits(magnitude as nat)) =~= (old(out)@ + "-"@)
                + spec_dec_digits(magnitude as nat));
        }
    } else {
        push_dec_u64(out, v as u64);
    }
}

impl StackMap {
    /// Render this stackmap in the notation of `llvm-readobj --stackmap`:
    /// version, function records, constants (1-based), and patch-point
    /// records with their locations and live-outs. The caller prints or
    /// stores the text; every character is fixed by
    /// [`spec_render_stackmap`].
    #[verifier::loop_isolation(false)]
    #[verifier::rlimit(100)]
    #[verifier::spinoff_prover]
    pub fn pretty_print(&self) -> (out: String)
        requires
            renderable(self@),
        ensures
            out@ == spec_render_stackmap(self@),
    {
        let mut out = String::new();
        out.append("LLVM StackMap Version: ");
        push_dec_u64(&mut out, self.header.version as u64);
        out.append("\n");
        out.append("Num Functions: ");
        push_dec_u64(&mut out, self.num_functions as u64);
        out.append("\n");
        let ghost base_funs = out@;
        let fs = &self.stk_size_records;
        let mut i: usize = 0;
        proof {
            assert(fs@.skip(0) =~= fs@);
        }
        while i < fs.len()
            invariant
                i <= fs@.len(),
                out@ + spec_render_fun_records(fs@.skip(i as int)) == base_funs
                    + spec_render_fun_records(fs@),
            decreases fs@.len() - i,
        {
            let ghost before = out@;
            let f = fs[i];
            out.append("  Function address: ");
            push_dec_u64(&mut out, f.function_address);
            out.append(", stack size: ");
            push_dec_u64(&mut out, f.stack_size);
            out.append(", callsite record count: ");
            push_dec_u64(&mut out, f.record_count);
            out.append("\n");
            proof {
                assert(fs@.skip(i as int)[0] == fs@[i as int]);
                assert(fs@.skip(i as int).skip(1) =~= fs@.skip(i as int + 1));
                assert(out@ =~= before + spec_render_fun_record(fs@[i as int]));
                assert(out@ + spec_render_fun_records(fs@.skip(i as int + 1)) =~= before
                    + spec_render_fun_records(fs@.skip(i as int)));
            }
            i = i + 1;
        }
        proof {
            assert(fs@.skip(fs@.len() as int).len() == 0);
            assert(out@ + Seq::<char>::empty() =~= out@);
        }
        out.append("Num Constants: ");
        push_dec_u64(&mut out, self.num_constants as u64);
        out.append("\n");
        let ghost base_consts = out@;
        let cs = &self.large_constants;
        let mut k: usize = 0;
        proof {
            assert(cs@.skip(0) =~= cs@);
        }
        while k < cs.len()
            invariant
                k <= cs@.len(),
                out@ + spec_render_constant_lines(cs@.skip(k as int), k as int + 1) == base_consts
                    + spec_render_constant_lines(cs@, 1),
            decreases cs@.len() - k,
        {
            let ghost before = out@;
            out.append("  #");
            push_dec_u64(&mut out, (k as u64) + 1);
            out.append(": ");
            push_dec_u64(&mut out, cs[k]);
            out.append("\n");
            proof {
                assert(cs@.skip(k as int)[0] == cs@[k as int]);
                assert(cs@.skip(k as int).skip(1) =~= cs@.skip(k as int + 1));
                assert(out@ =~= before + ("  #"@ + spec_dec_digits((k + 1) as nat) + ": "@
                    + spec_dec_digits(cs@[k as int] as nat) + "\n"@));
                assert(out@ + spec_render_constant_lines(cs@.skip(k as int + 1), k as int + 2)
                    =~= before + spec_render_constant_lines(cs@.skip(k as int), k as int + 1));
            }
            k = k + 1;
        }
        proof {
            assert(cs@.skip(cs@.len() as int).len() == 0);
            assert(out@ + Seq::<char>::empty() =~= out@);
        }
        out.append("Num Records: ");
        push_dec_u64(&mut out, self.num_records as u64);
        out.append("\n");
        let ghost base_recs = out@;
        let ghost rsv = crate::stackmap::records_view(self.stk_map_records@);
        let rs = &self.stk_map_records;
        let mut m: usize = 0;
        proof {
            assert(rsv.skip(0) =~= rsv);
        }
        while m < rs.len()
            invariant
                m <= rs@.len(),
                rsv.len() == rs@.len(),
                out@ + spec_render_records(rsv.skip(m as int), self.large_constants@) == base_recs
                    + spec_render_records(rsv, self.large_constants@),
            decreases rs@.len() - m,
        {
            let ghost before = out@;
            proof {
                assert(rsv[m as int] == rs@[m as int]@);
            }
            self.render_record(m, &mut out);
            proof {
                assert(rsv.skip(m as int)[0] == rsv[m as int]);
                assert(rsv.skip(m as int).skip(1) =~= rsv.skip(m as int + 1));
                assert(out@ + spec_render_records(rsv.skip(m as int + 1), self.large_constants@)
                    =~= before + spec_render_records(rsv.skip(m as int), self.large_constants@));
            }
            m = m + 1;
        }
        proof {
            assert(rsv.skip(rsv.len() as int).len() == 0);
            assert(out@ + Seq::<char>::empty() =~= out@);
            assert(out@ =~= spec_render_stackmap(self@));
        }
        out
    }

    /// Append the lines of record `index` to `out`.
    #[verifier::loop_isolation(false)]
    #[verifier::rlimit(100)]
    #[verifier::spinoff_prover]
    fn render_record(&self, index: usize, out: &mut String)
        requires
            renderable(self@),
            index < self.stk_map_records@.len(),
        ensures
            final(out)@ == old(out)@ + spec_render_record(
                self.stk_map_records@[index as int]@,
                self.large_constants@,
            ),
    {
        let ghost rv = self.stk_map_records@[index as int]@;
        let r = &self.stk_map_records[index];
        out.append("  Record ID: ");
        push_dec_u64(out, r.patch_point_id);
        out.append(", instruction offset: ");
        push_dec_u64(out, r.instruction_offset as u64);
        out.append("\n");
        out.append("    ");
        push_dec_u64(out, r.num_locations as u64);
        out.append(" locations:\n");
        let ghost base_locs = out@;
        let ls = &r.locations;
        let mut i: usize = 0;
        proof {
            assert(ls@.skip(0) =~= ls@);
        }
        while i < ls.len()
            invariant
                i <= ls@.len(),
                out@ + spec_render_location_lines(
                    ls@.skip(i as int),
                    self.large_constants@,
                    i as int + 1,
                ) == base_locs + spec_render_location_lines(ls@, self.large_constants@, 1),
            decreases ls@.len() - i,
        {
            let ghost before = out@;
            proof {
                assert(self@.stk_map_records[index as int].locations[i as int] == ls@[i as int]);
                assert(renderable_location(
                    self@.stk_map_records[index as int].locations[i as int],
                    self@.large_constants.len() as int,
                ));
            }
            let l = ls[i];
            render_location_line(&l, &self.large_constants, (i as u64) + 1, out);
            proof {
                assert(ls@.skip(i as int)[0] == ls@[i as int]);
                assert(ls@.skip(i as int).skip(1) =~= ls@.skip(i as int + 1));
                assert(out@ + spec_render_location_lines(
                    ls@.skip(i as int + 1),
                    self.large_constants@,
                    i as int + 2,
                ) =~= before + spec_render_location_lines(
                    ls@.skip(i as int),
                    self.large_constants@,
                    i as int + 1,
                ));
            }
            i = i + 1;
        }
        proof {
            assert(ls@.skip(ls@.len() as int).len() == 0);
            assert(out@ + Seq::<char>::empty() =~= out@);
        }
        out.append("    ");
        push_dec_u64(out, r.num_live_outs as u64);
        out.append(" live-outs: [ ");
        render_live_out_items(&r.live_outs, out);
        out.append("]\n");
        proof {
            assert(final(out)@ =~= old(out)@ + spec_render_record(rv, self.large_constants@));
        }
    }
}

/// Append one numbered location line to `out`.
fn render_location_line(l: &Location, constants: &Vec<u64>, number: u64, out: &mut String)
    requires
        renderable_location(*l, constants@.len() as int),
    ensures
        final(out)@ == old(out)@ + spec_render_location_line(*l, constants@, number as int),
{
    out.append("      #");
    push_dec_u64(out, number);
    out.append(": ");
    match l.loc_type {
        LocationType::Invalid => (),
        LocationType::Register => {
            out.append("Register R#");
            push_dec_u64(out, l.dwarf_regnum as u64);
        },
        LocationType::Direct => {
            out.append("Direct R#");
            push_dec_u64(out, l.dwarf_regnum as u64);
            out.append(" + ");
            push_dec_i32(out, l.offset_or_constant);
        },
        LocationType::Indirect => {
            out.append("Indirect [ R#");
            push_dec_u64(out, l.dwarf_regnum as u64);
            out.append(" + ");
            push_dec_i32(out, l.offset_or_constant);
            out.append("]");
        },
        LocationType::Constant => {
            out.append("Constant ");
            push_dec_i32(out, l.offset_or_constant);
        },
        LocationType::ConstIndex => {
            out.append("ConstantIndex #");
            push_dec_i32(out, l.offset_or_constant);
            out.append(" (");
            let pool_value = constants[l.offset_or_constant as usize];
            push_dec_u64(out, pool_value);
            out.append(")");
        },
    }
    out.append(", size: ");
    push_dec_u64(out, l.loc_size as u64);
    out.append("\n");
    proof {
        assert(final(out)@ =~= old(out)@ + spec_render_location_line(
            *l,
            constants@,
            number as int,
        ));
    }
}

/// Append the live-out items of one record to `out`.
#[verifier::loop_isolation(false)]
fn render_live_out_items(los: &Vec<LiveOut>, out: &mut String)
    ensures
        final(out)@ == old(out)@ + spec_render_live_out_items(los@),
{
    let ghost base = out@;
    let mut j: usize = 0;
    proof {
        assert(los@.skip(0) =~= los@);
    }
    while j < los.len()
        invariant
            j <= los@.len(),
            out@ + spec_render_live_out_items(los@.skip(j as int)) == base
                + spec_render_live_out_items(los@),
        decreases los@.len() - j,
    {
        let ghost before = out@;
        let lo = los[j];
        out.append("R#");
        push_dec_u64(out, lo.dwarf_regnum as u64);
        out.append(" (");
        push_dec_u64(out, lo.size as u64);
        out.append("-bytes) ");
        proof {
            assert(out@ =~= before + spec_render_live_out_item(los@[j as int]));
            assert(los@.skip(j as int)[0] == los@[j as int]);
            assert(los@.skip(j as int).skip(1) =~= los@.skip(j as int + 1));
            assert(out@ + spec_render_live_out_items(los@.skip(j as int + 1)) =~= before
                + spec_render_live_out_items(los@.skip(j as int)));
        }
        j = j + 1;
    }
    proof {
        assert(los@.skip(los@.len() as int).len() == 0);
        assert(out@ + Seq::<char>::empty() =~= out@);
    }
}

} // verus!
