//! Rendering a settled aggregator into a structured textual report: each
//! tracked field's catalogue name followed by its frequency table as
//! value-to-count pairs, in insertion order.

use vstd::prelude::*;
use vstd::string::StringExecFns;

use crate::aggregate::OutputRecord;
use crate::fields::{field_name, TrackedField};
use crate::freq::FrequencyTable;

verus! {

/// The decimal digit character for `d`.
pub open spec fn spec_digit(d: int) -> char {
    if d == 0 {
        '0'
    } else if d == 1 {
        '1'
    } else if d == 2 {
        '2'
    } else if d == 3 {
        '3'
    } else if d == 4 {
        '4'
    } else if d == 5 {
        '5'
    } else if d == 6 {
        '6'
    } else if d == 7 {
        '7'
    } else if d == 8 {
        '8'
    } else {
        '9'
    }
}

/// The decimal rendering of `n`, most significant digit first.
pub open spec fn spec_u64_str(n: nat) -> Seq<char>
    decreases n,
{
    if n < 10 {
        seq![spec_digit(n as int)]
    } else {
        spec_u64_str(n / 10).push(spec_digit((n % 10) as int))
    }
}

fn digit_str(d: u64) -> (r: &'static str)
    requires
        d < 10,
    ensures
        r@ == seq![spec_digit(d as int)],
{
    if d == 0 {
        proof {
            reveal_strlit("0");
            assert("0"@ =~= seq![spec_digit(0)]);
        }
        "0"
    } else if d == 1 {
        proof {
            reveal_strlit("1");
            assert("1"@ =~= seq![spec_digit(1)]);
        }
        "1"
    } else if d == 2 {
        proof {
            reveal_strlit("2");
            assert("2"@ =~= seq![spec_digit(2)]);
        }
        "2"
    } else if d == 3 {
        proof {
            reveal_strlit("3");
            assert("3"@ =~= seq![spec_digit(3)]);
        }
        "3"
    } else if d == 4 {
        proof {
            reveal_strlit("4");
            assert("4"@ =~= seq![spec_digit(4)]);
        }
        "4"
    } else if d == 5 {
        proof {
            reveal_strlit("5");
            assert("5"@ =~= seq![spec_digit(5)]);
        }
        "5"
    } else if d == 6 {
        proof {
            reveal_strlit("6");
            assert("6"@ =~= seq![spec_digit(6)]);
        }
        "6"
    } else if d == 7 {
        proof {
            reveal_strlit("7");
            assert("7"@ =~= seq![spec_digit(7)]);
        }
        "7"
    } else if d == 8 {
        proof {
            reveal_strlit("8");
            assert("8"@ =~= seq![spec_digit(8)]);
        }
        "8"
    } else {
        proof {
            reveal_strlit("9");
            assert("9"@ =~= seq![spec_digit(9)]);
        }
        "9"
    }
}

/// The decimal rendering of a count.
pub fn u64_to_string(n: u64) -> (r: String)
    ensures
        r@ == spec_u64_str(n as nat),
    decreases n,
{
    let d = n % 10;
    let ds = digit_str(d);
    if n < 10 {
        ds.to_owned()
    } else {
        let mut s = u64_to_string(n / 10);
        s.append(ds);
        proof {
            assert(s@ =~= spec_u64_str((n / 10) as nat).push(spec_digit(d as int)));
        }
        s
    }
}

/// One rendered table entry: the value in quotes, a colon, the count.
pub open spec fn spec_entry_str(e: (Seq<char>, u64)) -> Seq<char> {
    "\""@ + e.0 + "\":"@ + spec_u64_str(e.1 as nat)
}

/// The rendered body of one table: its entries joined with commas, in
/// insertion order.
pub open spec fn spec_table_body(s: Seq<(Seq<char>, u64)>) -> Seq<char>
    decreases s.len(),
{
    if s.len() == 0 {
        Seq::empty()
    } else if s.len() == 1 {
        spec_entry_str(s[0])
    } else {
        spec_table_body(s.drop_last()) + ","@ + spec_entry_str(s.last())
    }
}

/// One field's rendered section: its name in quotes, then its table in
/// braces.
pub open spec fn spec_field_str(f: TrackedField, s: Seq<(Seq<char>, u64)>) -> Seq<char> {
    "\""@ + field_name(f) + "\":{"@ + spec_table_body(s) + "}"@
}

/// The whole report: every tracked field's section, in a fixed order.
pub open spec fn spec_report(r: OutputRecord) -> Seq<char> {
    "{"@ + spec_field_str(TrackedField::FocalLength, r.entries_of(TrackedField::FocalLength))
        + ","@ + spec_field_str(TrackedField::FNumber, r.entries_of(TrackedField::FNumber)) + ","@
        + spec_field_str(TrackedField::ExposureTime, r.entries_of(TrackedField::ExposureTime))
        + "}"@
}

/// Relies on `exif::Tag::description`: the tag catalogue's name for each
/// tracked field.
#[verifier::external_body]
fn tag_description(f: TrackedField) -> (r: String)
    ensures
        r@ == field_name(f),
{
    let tag = match f {
        TrackedField::FocalLength => exif::Tag::FocalLength,
        TrackedField::FNumber => exif::Tag::FNumber,
        TrackedField::ExposureTime => exif::Tag::ExposureTime,
    };
    match tag.description() {
        Some(d) => d.to_owned(),
        None => String::new(),
    }
}

fn render_table_body(t: &FrequencyTable, out: &mut String)
    ensures
        final(out)@ == old(out)@ + spec_table_body(t@),
{
    let n = t.len();
    let mut i: usize = 0;
    while i < n
        invariant
            i <= n,
            n == t@.len(),
            out@ == old(out)@ + spec_table_body(t@.take(i as int)),
        decreases n - i,
    {
        if i > 0 {
            out.append(",");
        }
        out.append("\"");
        out.append(t.value_at(i).as_str());
        out.append("\":");
        let cs = u64_to_string(t.count_at(i));
        out.append(cs.as_str());
        proof {
            assert(t@.take(i + 1).drop_last() =~= t@.take(i as int));
            assert(t@.take(i + 1).last() == t@[i as int]);
            assert(out@ =~= old(out)@ + spec_table_body(t@.take(i + 1)));
        }
        i = i + 1;
    }
    proof {
        assert(t@.take(n as int) =~= t@);
    }
}

fn render_field(f: TrackedField, t: &FrequencyTable, out: &mut String)
    ensures
        final(out)@ == old(out)@ + spec_field_str(f, t@),
{
    out.append("\"");
    let name = tag_description(f);
    out.append(name.as_str());
    out.append("\":{");
    render_table_body(t, out);
    out.append("}");
    proof {
        assert(out@ =~= old(out)@ + spec_field_str(f, t@));
    }
}

/// Render a settled aggregator: every tracked field's name with its
/// value-to-count pairs. An empty scan yields every field with an empty
/// table — a valid report, not an error.
pub fn get_analyze_result(record: &OutputRecord) -> (r: String)
    ensures
        r@ == spec_report(*record),
{
    let mut out = String::from_str("{");
    render_field(TrackedField::FocalLength, &record.focal_length, &mut out);
    out.append(",");
    render_field(TrackedField::FNumber, &record.f_number, &mut out);
    out.append(",");
    render_field(TrackedField::ExposureTime, &record.exposure_time, &mut out);
    out.append("}");
    proof {
        assert(out@ =~= spec_report(*record));
    }
    out
}

} // verus!
