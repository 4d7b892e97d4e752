//! Per-file field extraction: decode a file's bytes, keep the first
//! non-sentinel occurrence of each tracked field, and record it in the
//! aggregator. A file that fails to decode contributes nothing and never
//! aborts a scan.

use vstd::prelude::*;

use crate::aggregate::{apply_contrib, OutputRecord};
use crate::fields::{
    is_sentinel, sentinel, spec_tracked_field_of, tracked_field_of, FieldContext, RawField,
    RawFieldV, TrackedField,
};

verus! {

/// The mathematical image of a decoded field list.
pub open spec fn raw_seq(s: Seq<RawField>) -> Seq<RawFieldV> {
    s.map_values(|x: RawField| x@)
}

/// Whether one decoded field would be recorded for `f`: it denotes `f`
/// and its value is not the sentinel.
pub open spec fn qualifies(e: RawFieldV, f: TrackedField) -> bool {
    spec_tracked_field_of(e.ctx, e.tag) == Some(f) && e.value != sentinel()
}

/// What one decoded file contributes to the table of `f`: the value of
/// the first qualifying field, if any — later duplicates are ignored.
pub open spec fn contribution(fields: Seq<RawFieldV>, f: TrackedField) -> Option<Seq<char>>
    decreases fields.len(),
{
    if fields.len() == 0 {
        None
    } else if qualifies(fields.first(), f) {
        Some(fields.first().value)
    } else {
        contribution(fields.drop_first(), f)
    }
}

pub proof fn lemma_contribution_step(s: Seq<RawFieldV>, x: RawFieldV, f: TrackedField)
    ensures
        contribution(s.push(x), f) == (if contribution(s, f) is Some {
            contribution(s, f)
        } else if qualifies(x, f) {
            Some(x.value)
        } else {
            None::<Seq<char>>
        }),
    decreases s.len(),
{
    if s.len() == 0 {
        assert(s.push(x).first() == x);
        assert(s.push(x).drop_first() =~= Seq::<RawFieldV>::empty());
        assert(contribution(s.push(x).drop_first(), f) is None);
        assert(contribution(s, f) is None);
    } else {
        assert(s.push(x).first() == s.first());
        assert(s.push(x).drop_first() =~= s.drop_first().push(x));
        lemma_contribution_step(s.drop_first(), x, f);
        assert(contribution(s.push(x), f) == (if qualifies(s.first(), f) {
            Some(s.first().value)
        } else {
            contribution(s.drop_first().push(x), f)
        }));
        assert(contribution(s, f) == (if qualifies(s.first(), f) {
            Some(s.first().value)
        } else {
            contribution(s.drop_first(), f)
        }));
    }
}

/// The sentinel is never contributed: filtering is built into the
/// contribution itself, so it can never become a table key.
pub proof fn lemma_sentinel_filtered(fields: Seq<RawFieldV>, f: TrackedField)
    ensures
        contribution(fields, f) != Some(sentinel()),
    decreases fields.len(),
{
    if fields.len() == 0 {
    } else if qualifies(fields.first(), f) {
    } else {
        lemma_sentinel_filtered(fields.drop_first(), f);
    }
}

/// A table without the sentinel key stays without it, however many files
/// contribute to it.
pub proof fn lemma_sentinel_not_keyed(
    m: Map<Seq<char>, u64>,
    fields: Seq<RawFieldV>,
    f: TrackedField,
)
    requires
        !m.dom().contains(sentinel()),
    ensures
        !apply_contrib(m, contribution(fields, f)).dom().contains(sentinel()),
{
    lemma_sentinel_filtered(fields, f);
}

/// First occurrence wins: if the field at `i` qualifies for `f` and no
/// earlier one does, the file contributes exactly that value for `f`,
/// whatever duplicates follow.
pub proof fn lemma_duplicate_tag_collapse(fields: Seq<RawFieldV>, f: TrackedField, i: int)
    requires
        0 <= i < fields.len(),
        qualifies(fields[i], f),
        forall|j: int| 0 <= j < i ==> !qualifies(#[trigger] fields[j], f),
    ensures
        contribution(fields, f) == Some(fields[i].value),
    decreases i,
{
    if i == 0 {
    } else {
        assert(!qualifies(fields[0], f));
        assert(fields.drop_first()[i - 1] == fields[i]);
        assert(forall|j: int|
            0 <= j < i - 1 ==> #[trigger] fields.drop_first()[j] == fields[j + 1]);
        lemma_duplicate_tag_collapse(fields.drop_first(), f, i - 1);
    }
}

/// Relies on `exif::Reader::read_from_container` (with `Tag::number`,
/// `Tag::context` and `Field::display_value` to read each field out):
/// what a byte buffer decodes to is a function of the bytes alone.
pub uninterp spec fn exif_decode_of(bytes: Seq<u8>) -> Option<Seq<RawFieldV>>;

/// Relies on `exif::Reader::read_from_container`: decodes the metadata
/// held in a byte buffer, or fails. Each field is handed over as its
/// identifier (context and tag number) and display rendering.
#[verifier::external_body]
fn decode_exif(bytes: &Vec<u8>) -> (r: Option<Vec<RawField>>)
    ensures
        match r {
            Some(fs) => exif_decode_of(bytes@) == Some(raw_seq(fs@)),
            None => exif_decode_of(bytes@) is None,
        },
{
    let mut cur = std::io::Cursor::new(bytes.as_slice());
    match exif::Reader::new().read_from_container(&mut cur) {
        Ok(data) => Some(data.fields().map(|f| RawField {
            ctx: match f.tag.context() {
                exif::Context::Tiff => FieldContext::Tiff,
                exif::Context::Exif => FieldContext::Exif,
                exif::Context::Gps => FieldContext::Gps,
                exif::Context::Interop => FieldContext::Interop,
                _ => FieldContext::Other,
            },
            tag: f.tag.number(),
            value: f.display_value().to_string(),
        }).collect()),
        Err(_) => None,
    }
}

/// Record the contribution of one decoded field list: for each tracked
/// field, its first non-sentinel occurrence, once.
pub fn apply_fields(record: &mut OutputRecord, fields: &Vec<RawField>)
    requires
        old(record).wf(),
    ensures
        final(record).wf(),
        forall|f: TrackedField| #[trigger]
            final(record).table(f) == apply_contrib(
                old(record).table(f),
                contribution(raw_seq(fields@), f),
            ),
{
    let ghost fs = raw_seq(fields@);
    let mut got_focal = false;
    let mut got_fnum = false;
    let mut got_exp = false;
    let n = fields.len();
    let mut i: usize = 0;
    while i < n
        invariant
            i <= n,
            n == fields@.len(),
            fs == raw_seq(fields@),
            record.wf(),
            got_focal == (contribution(fs.take(i as int), TrackedField::FocalLength) is Some),
            got_fnum == (contribution(fs.take(i as int), TrackedField::FNumber) is Some),
            got_exp == (contribution(fs.take(i as int), TrackedField::ExposureTime) is Some),
            record.table(TrackedField::FocalLength) == apply_contrib(
                old(record).table(TrackedField::FocalLength),
                contribution(fs.take(i as int), TrackedField::FocalLength),
            ),
            record.table(TrackedField::FNumber) == apply_contrib(
                old(record).table(TrackedField::FNumber),
                contribution(fs.take(i as int), TrackedField::FNumber),
            ),
            record.table(TrackedField::ExposureTime) == apply_contrib(
                old(record).table(TrackedField::ExposureTime),
                contribution(fs.take(i as int), TrackedField::ExposureTime),
            ),
        decreases n - i,
    {
        proof {
            assert(fs.take(i + 1) =~= fs.take(i as int).push(fs[i as int]));
            lemma_contribution_step(fs.take(i as int), fs[i as int], TrackedField::FocalLength);
            lemma_contribution_step(fs.take(i as int), fs[i as int], TrackedField::FNumber);
            lemma_contribution_step(fs.take(i as int), fs[i as int], TrackedField::ExposureTime);
        }
        let fld = &fields[i];
        proof {
            assert(fs[i as int] == fld@);
        }
        match tracked_field_of(fld.ctx, fld.tag) {
            Some(f) => {
                if !is_sentinel(&fld.value) {
                    let already = match f {
                        TrackedField::FocalLength => got_focal,
                        TrackedField::FNumber => got_fnum,
                        TrackedField::ExposureTime => got_exp,
                    };
                    if !already {
                        record.record_field(f, &fld.value);
                        match f {
                            TrackedField::FocalLength => got_focal = true,
                            TrackedField::FNumber => got_fnum = true,
                            TrackedField::ExposureTime => got_exp = true,
                        }
                    }
                }
            },
            None => {},
        }
        i = i + 1;
    }
    proof {
        assert(fs.take(n as int) =~= fs);
        assert forall|f: TrackedField| #[trigger]
            record.table(f) == apply_contrib(old(record).table(f), contribution(fs, f)) by {
            assert(f == TrackedField::FocalLength || f == TrackedField::FNumber || f
                == TrackedField::ExposureTime);
        }
    }
}

/// Extract one file's metadata into the aggregator. A failed decode
/// leaves the aggregator exactly as it was and reports `false`; a
/// successful decode records at most one value per tracked field.
pub fn scan_exif_from_img(bytes: &Vec<u8>, record: &mut OutputRecord) -> (decoded: bool)
    requires
        old(record).wf(),
    ensures
        final(record).wf(),
        decoded == (exif_decode_of(bytes@) is Some),
        match exif_decode_of(bytes@) {
            Some(fs) => forall|f: TrackedField| #[trigger]
                final(record).table(f) == apply_contrib(old(record).table(f), contribution(fs, f)),
            None => *final(record) == *old(record),
        },
{
    match decode_exif(bytes) {
        Some(fields) => {
            apply_fields(record, &fields);
            true
        },
        None => false,
    }
}

} // verus!
