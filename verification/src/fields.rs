//! The closed set of tracked metadata fields and the shape of one decoded
//! field as the metadata decoder hands it over.

use vstd::prelude::*;

verus! {

/// The fixed, closed enumeration of fields whose values are counted.
#[derive(Clone, Copy, PartialEq, Eq, Structural, Debug)]
pub enum TrackedField {
    FocalLength,
    FNumber,
    ExposureTime,
}

/// The attribute context a decoded field belongs to, mirroring the
/// decoder's own classification of tag numbers.
#[derive(Clone, Copy, PartialEq, Eq, Structural, Debug)]
pub enum FieldContext {
    Tiff,
    Exif,
    Gps,
    Interop,
    Other,
}

/// One decoded metadata field: its identifier (context and tag number)
/// and the decoder's human-readable rendering of its value.
pub struct RawField {
    pub ctx: FieldContext,
    pub tag: u16,
    pub value: String,
}

/// Mathematical image of a decoded field.
pub ghost struct RawFieldV {
    pub ctx: FieldContext,
    pub tag: u16,
    pub value: Seq<char>,
}

impl View for RawField {
    type V = RawFieldV;

    open spec fn view(&self) -> RawFieldV {
        RawFieldV { ctx: self.ctx, tag: self.tag, value: self.value@ }
    }
}

/// Tag number of the focal-length field.
pub const FOCAL_LENGTH_TAG: u16 = 37386;

/// Tag number of the f-number field.
pub const F_NUMBER_TAG: u16 = 33437;

/// Tag number of the exposure-time field.
pub const EXPOSURE_TIME_TAG: u16 = 33434;

/// Which tracked field, if any, a decoded identifier denotes.
pub open spec fn spec_tracked_field_of(ctx: FieldContext, tag: u16) -> Option<TrackedField> {
    if ctx != FieldContext::Exif {
        None
    } else if tag == FOCAL_LENGTH_TAG {
        Some(TrackedField::FocalLength)
    } else if tag == F_NUMBER_TAG {
        Some(TrackedField::FNumber)
    } else if tag == EXPOSURE_TIME_TAG {
        Some(TrackedField::ExposureTime)
    } else {
        None
    }
}

pub fn tracked_field_of(ctx: FieldContext, tag: u16) -> (r: Option<TrackedField>)
    ensures
        r == spec_tracked_field_of(ctx, tag),
{
    if ctx == FieldContext::Exif {
        if tag == FOCAL_LENGTH_TAG {
            Some(TrackedField::FocalLength)
        } else if tag == F_NUMBER_TAG {
            Some(TrackedField::FNumber)
        } else if tag == EXPOSURE_TIME_TAG {
            Some(TrackedField::ExposureTime)
        } else {
            None
        }
    } else {
        None
    }
}

/// The display text that marks an absent or invalid reading; such values
/// are never aggregated.
pub open spec fn sentinel() -> Seq<char> {
    "0"@
}

pub fn is_sentinel(v: &String) -> (r: bool)
    ensures
        r == (v@ == sentinel()),
{
    let z: String = "0".to_owned();
    *v == z
}

/// The human-readable name of each tracked field, as the decoder's tag
/// catalogue gives it.
pub open spec fn field_name(f: TrackedField) -> Seq<char> {
    match f {
        TrackedField::FocalLength => "Lens focal length"@,
        TrackedField::FNumber => "F number"@,
        TrackedField::ExposureTime => "Exposure time"@,
    }
}

} // verus!
