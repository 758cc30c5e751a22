//! Rendering of literal values as displayable text: the form in which a
//! field's default appears in the introspectable metadata.

use vstd::prelude::*;

use crate::text::push_char;
use crate::value::{
    lemma_view_decoded_seq_len, lemma_view_record_fields_len, view_decoded_seq,
    view_record_fields, DecodedValue, SpecDecoded, SpecField,
};

verus! {

/// The digit character of one decimal digit.
pub open spec fn dec_digit(n: int) -> char {
    ((48 + n) as u8) as char
}

/// The decimal digits of a non-negative number, most significant first.
pub open spec fn spec_nat_dec(n: nat) -> Seq<char>
    decreases n,
{
    if n < 10 {
        seq![dec_digit(n as int)]
    } else {
        spec_nat_dec(n / 10).push(dec_digit((n % 10) as int))
    }
}

/// The decimal form of an integer, with a leading minus sign when negative.
pub open spec fn spec_int_dec(i: int) -> Seq<char> {
    if i >= 0 {
        spec_nat_dec(i as nat)
    } else {
        ("-")@ + spec_nat_dec((-i) as nat)
    }
}

/// Renders a non-negative number in decimal.
pub fn nat_dec(n: u64) -> (r: String)
    ensures
        r@ == spec_nat_dec(n as nat),
    decreases n,
{
    if n < 10 {
        let mut s = String::new();
        let c: char = ((48 + n) as u8) as char;
        push_char(&mut s, c);
        proof {
            assert(s@ =~= seq![dec_digit(n as int)]);
        }
        s
    } else {
        let mut s = nat_dec(n / 10);
        let c: char = ((48 + (n % 10)) as u8) as char;
        push_char(&mut s, c);
        s
    }
}

/// Renders an integer in decimal.
pub fn int_dec(i: i64) -> (r: String)
    ensures
        r@ == spec_int_dec(i as int),
{
    if i >= 0 {
        nat_dec(i as u64)
    } else {
        let mag: u64 = ((-(i + 1)) as u64) + 1;
        proof {
            assert(mag as nat == (-(i as int)) as nat);
        }
        let mut s = String::from_str("-");
        let digits = nat_dec(mag);
        s.append(digits.as_str());
        s
    }
}

/// The displayable literal form of a decoded value: integers and booleans
/// as written, strings quoted, the absence value as null, sequences
/// bracketed and comma-separated, records braced with `name: value` pairs.
pub open spec fn spec_render(d: SpecDecoded) -> Seq<char>
    decreases d, 0int,
{
    match d {
        SpecDecoded::Int(i) => spec_int_dec(i),
        SpecDecoded::Boolean(b) => if b {
            ("true")@
        } else {
            ("false")@
        },
        SpecDecoded::Str(s) => ("\"")@ + s + ("\"")@,
        SpecDecoded::Absent => ("null")@,
        SpecDecoded::Present(x) => spec_render(*x),
        SpecDecoded::Sequence(ds) => ("[")@ + spec_render_list(ds) + ("]")@,
        SpecDecoded::Record(fs) => ("{")@ + spec_render_fields(fs) + ("}")@,
    }
}

/// Comma-separated rendering of sequence elements.
pub open spec fn spec_render_list(ds: Seq<SpecDecoded>) -> Seq<char>
    decreases ds, 1int,
{
    if ds.len() == 0 {
        Seq::empty()
    } else {
        spec_render(ds[0]) + spec_render_list_rest(ds.skip(1))
    }
}

/// The tail of a comma-separated element list: each element preceded by a
/// separator.
pub open spec fn spec_render_list_rest(ds: Seq<SpecDecoded>) -> Seq<char>
    decreases ds, 1int,
{
    if ds.len() == 0 {
        Seq::empty()
    } else {
        (", ")@ + spec_render(ds[0]) + spec_render_list_rest(ds.skip(1))
    }
}

/// One record field as a `name: value` pair.
pub open spec fn spec_render_entry(f: SpecField) -> Seq<char>
    decreases f, 1int,
{
    f.name + (": ")@ + spec_render(f.value)
}

/// Comma-separated rendering of record fields.
pub open spec fn spec_render_fields(fs: Seq<SpecField>) -> Seq<char>
    decreases fs, 2int,
{
    if fs.len() == 0 {
        Seq::empty()
    } else {
        spec_render_entry(fs[0]) + spec_render_fields_rest(fs.skip(1))
    }
}

/// The tail of a comma-separated field list.
pub open spec fn spec_render_fields_rest(fs: Seq<SpecField>) -> Seq<char>
    decreases fs, 2int,
{
    if fs.len() == 0 {
        Seq::empty()
    } else {
        (", ")@ + spec_render_entry(fs[0]) + spec_render_fields_rest(fs.skip(1))
    }
}

/// Renders a decoded value as a displayable literal.
#[verifier::loop_isolation(false)]
pub fn render_decoded(d: &DecodedValue) -> (r: String)
    ensures
        r@ == spec_render(d@),
    decreases *d, 0int,
{
    match d {
        DecodedValue::Int(i) => int_dec(*i),
        DecodedValue::Boolean(b) => if *b {
            String::from_str("true")
        } else {
            String::from_str("false")
        },
        DecodedValue::Str(s) => {
            let mut out = String::from_str("\"");
            out.append(s.as_str());
            out.append("\"");
            out
        },
        DecodedValue::Absent => String::from_str("null"),
        DecodedValue::Present(x) => render_decoded(x),
        DecodedValue::Sequence(ds) => {
            proof {
                lemma_view_decoded_seq_len(ds@);
            }
            let ghost dsv = view_decoded_seq(ds@);
            let mut out = String::from_str("[");
            let mut i: usize = 0;
            while i < ds.len()
                invariant
                    0 <= i <= ds@.len(),
                    i == 0 ==> out@ == ("[")@,
                    i >= 1 ==> out@ + spec_render_list_rest(dsv.skip(i as int)) == ("[")@
                        + spec_render_list(dsv),
                decreases ds@.len() - i,
            {
                let ghost old_out = out@;
                let piece = render_decoded(&ds[i]);
                if i > 0 {
                    out.append(", ");
                }
                out.append(piece.as_str());
                proof {
                    if i == 0 {
                        assert(dsv.skip(0) =~= dsv);
                        assert(out@ + spec_render_list_rest(dsv.skip(1)) =~= ("[")@ + (
                        spec_render(dsv[0]) + spec_render_list_rest(dsv.skip(1))));
                    } else {
                        assert(dsv.skip(i as int).skip(1) =~= dsv.skip(i + 1));
                        assert(dsv.skip(i as int)[0] == dsv[i as int]);
                        assert(out@ + spec_render_list_rest(dsv.skip(i + 1)) =~= old_out + ((
                        ", ")@ + spec_render(dsv[i as int]) + spec_render_list_rest(
                            dsv.skip(i + 1),
                        )));
                    }
                }
                i = i + 1;
            }
            proof {
                if ds@.len() == 0 {
                    assert(spec_render_list(dsv) =~= Seq::<char>::empty());
                    assert(out@ =~= ("[")@ + spec_render_list(dsv));
                } else {
                    assert(dsv.skip(ds@.len() as int) =~= Seq::<SpecDecoded>::empty());
                    assert(out@ + Seq::<char>::empty() =~= out@);
                }
            }
            out.append("]");
            out
        },
        DecodedValue::Record(rec) => {
            proof {
                lemma_view_record_fields_len(rec.fields@);
            }
            let ghost fsv = view_record_fields(rec.fields@);
            let mut out = String::from_str("{");
            let mut i: usize = 0;
            while i < rec.fields.len()
                invariant
                    0 <= i <= rec.fields@.len(),
                    i == 0 ==> out@ == ("{")@,
                    i >= 1 ==> out@ + spec_render_fields_rest(fsv.skip(i as int)) == ("{")@
                        + spec_render_fields(fsv),
                decreases rec.fields@.len() - i,
            {
                let ghost old_out = out@;
                let rf = &rec.fields[i];
                let piece = render_decoded(&rf.value);
                if i > 0 {
                    out.append(", ");
                }
                out.append(rf.name.as_str());
                out.append(": ");
                out.append(piece.as_str());
                proof {
                    assert(fsv[i as int].name == rec.fields@[i as int].name@);
                    if i == 0 {
                        assert(fsv.skip(0) =~= fsv);
                        assert(out@ + spec_render_fields_rest(fsv.skip(1)) =~= ("{")@ + (
                        spec_render_entry(fsv[0]) + spec_render_fields_rest(fsv.skip(1))));
                    } else {
                        assert(fsv.skip(i as int).skip(1) =~= fsv.skip(i + 1));
                        assert(fsv.skip(i as int)[0] == fsv[i as int]);
                        assert(out@ + spec_render_fields_rest(fsv.skip(i + 1)) =~= old_out + ((
                        ", ")@ + spec_render_entry(fsv[i as int]) + spec_render_fields_rest(
                            fsv.skip(i + 1),
                        )));
                    }
                }
                i = i + 1;
            }
            proof {
                if rec.fields@.len() == 0 {
                    assert(spec_render_fields(fsv) =~= Seq::<char>::empty());
                    assert(out@ =~= ("{")@ + spec_render_fields(fsv));
                } else {
                    assert(fsv.skip(rec.fields@.len() as int) =~= Seq::<SpecField>::empty());
                    assert(out@ + Seq::<char>::empty() =~= out@);
                }
            }
            out.append("}");
            out
        },
    }
}

} // verus!
