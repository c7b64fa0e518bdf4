//! What a photo's EXIF block tells the gallery: its orientation, when it was
//! taken, and all of its fields as JSON for display.
use vstd::prelude::*;

use crate::dates::{exif_capture_date, first_exif_date, opt_views};

verus! {

#[verifier::external_type_specification]
#[verifier::external_body]
pub struct ExExif(exif::Exif);

/// The EXIF block read from a file, with the file's bytes `source()`.
pub struct ExifBlock {
    pub(crate) exif: exif::Exif,
    pub(crate) source: Ghost<Seq<u8>>,
}

impl ExifBlock {
    /// The bytes of the file the block was read from.
    pub closed spec fn source(&self) -> Seq<u8> {
        self.source@
    }
}

/// A date tag of the primary image.
#[derive(PartialEq, Eq, Structural, Clone, Copy, Debug)]
pub enum ExifDateTag {
    DateTimeOriginal,
    DateTimeDigitized,
    DateTime,
}

/// Whether the file holds an EXIF block that `exif` can read.
pub uninterp spec fn has_exif_block(data: Seq<u8>) -> bool;

/// Every field of the EXIF block of the file `data` as (tag name, displayed
/// value with its unit), in the block's order.
pub uninterp spec fn exif_fields(data: Seq<u8>) -> Seq<(Seq<char>, Seq<char>)>;

/// The first number of the primary image's Orientation field in the EXIF
/// block of the file `data`, if there is one.
pub uninterp spec fn exif_orientation_field(data: Seq<u8>) -> Option<u32>;

/// The displayed value of the date tag `tag` of the primary image in the EXIF
/// block of the file `data`, if the tag is there.
pub uninterp spec fn exif_tag_text(data: Seq<u8>, tag: ExifDateTag) -> Option<Seq<char>>;

/// The JSON text of an object holding `fields` as strings (a later field of
/// the same name replaces an earlier one); `None` when it cannot be written.
pub uninterp spec fn fields_json_text(fields: Seq<(Seq<char>, Seq<char>)>) -> Option<Seq<char>>;

pub open spec fn opt_string_view(o: Option<String>) -> Option<Seq<char>> {
    match o {
        Some(s) => Some(s@),
        None => None,
    }
}

pub open spec fn field_views(v: Seq<(String, String)>) -> Seq<(Seq<char>, Seq<char>)> {
    v.map_values(|f: (String, String)| (f.0@, f.1@))
}

/// `exif::Reader::new().read_from_container` on the file's bytes; `None`
/// when the file holds no readable EXIF block.
#[verifier::external_body]
fn read_exif(data: &[u8]) -> (r: Option<ExifBlock>)
    ensures
        r is Some == has_exif_block(data@),
        r matches Some(b) ==> b.source() == data@,
{
    match exif::Reader::new().read_from_container(&mut std::io::Cursor::new(data)) {
        Ok(exif) => Some(ExifBlock { exif, source: Ghost(data@) }),
        Err(_) => None,
    }
}

/// Every field of the block as (tag name, displayed value with its unit),
/// in the block's order (`Field::tag`, `display_value().with_unit(..)`).
#[verifier::external_body]
fn exif_field_texts(b: &ExifBlock) -> (r: Vec<(String, String)>)
    ensures
        field_views(r@) == exif_fields(b.source()),
{
    let mut v = Vec::new();
    for f in b.exif.fields() {
        v.push((f.tag.to_string(), f.display_value().with_unit(&b.exif).to_string()));
    }
    v
}

/// The first number of the primary image's Orientation field, if any
/// (`get_field(Tag::Orientation, In::PRIMARY)`, then `value.get_uint(0)`).
#[verifier::external_body]
fn exif_orientation_value(b: &ExifBlock) -> (r: Option<u32>)
    ensures
        r == exif_orientation_field(b.source()),
{
    match b.exif.get_field(exif::Tag::Orientation, exif::In::PRIMARY) {
        Some(f) => f.value.get_uint(0),
        None => None,
    }
}

/// The displayed value of a date tag of the primary image, if the tag is
/// there (`get_field(.., In::PRIMARY)`, then `display_value()`).
#[verifier::external_body]
fn exif_tag_display(b: &ExifBlock, tag: ExifDateTag) -> (r: Option<String>)
    ensures
        opt_string_view(r) == exif_tag_text(b.source(), tag),
{
    let t = match tag {
        ExifDateTag::DateTimeOriginal => exif::Tag::DateTimeOriginal,
        ExifDateTag::DateTimeDigitized => exif::Tag::DateTimeDigitized,
        ExifDateTag::DateTime => exif::Tag::DateTime,
    };
    match b.exif.get_field(t, exif::In::PRIMARY) {
        Some(f) => Some(f.display_value().to_string()),
        None => None,
    }
}

/// The fields as a JSON object of strings (`serde_json::Map`, then
/// `serde_json::to_string`); a later field with the same name replaces an
/// earlier one.
#[verifier::external_body]
fn fields_json(fields: &Vec<(String, String)>) -> (r: Option<String>)
    ensures
        opt_string_view(r) == fields_json_text(field_views(fields@)),
{
    let mut map = serde_json::Map::new();
    for (k, v) in fields {
        map.insert(k.clone(), serde_json::Value::String(v.clone()));
    }
    serde_json::to_string(&map).ok()
}

/// The JSON of all the EXIF fields of the file `data`, when it has a block.
pub open spec fn photo_exif_json(data: Seq<u8>) -> Option<Seq<char>> {
    if has_exif_block(data) {
        fields_json_text(exif_fields(data))
    } else {
        None
    }
}

/// The EXIF orientation of the file `data`: its Orientation field; 1
/// (upright) when the block or the field is missing.
pub open spec fn photo_orientation(data: Seq<u8>) -> u32 {
    if has_exif_block(data) {
        match exif_orientation_field(data) {
            Some(v) => v,
            None => 1,
        }
    } else {
        1
    }
}

/// The date texts consulted for the capture date, in order of preference.
pub open spec fn photo_date_texts(data: Seq<u8>) -> Seq<Option<Seq<char>>> {
    seq![
        exif_tag_text(data, ExifDateTag::DateTimeOriginal),
        exif_tag_text(data, ExifDateTag::DateTimeDigitized),
        exif_tag_text(data, ExifDateTag::DateTime),
    ]
}

/// The capture date of the file `data`: the first of its date texts that
/// parses; none without a block.
pub open spec fn photo_date(data: Seq<u8>) -> Option<(i64, u32)> {
    if has_exif_block(data) {
        first_exif_date(photo_date_texts(data))
    } else {
        None
    }
}

/// What the EXIF block of an image gives.
pub struct PhotoMeta {
    /// All fields as JSON, when there is a block.
    pub exif_json: Option<String>,
    /// EXIF orientation; 1 (upright) when the block or the field is missing.
    pub orientation: u32,
    /// The capture date, from the first of the date tags that parses.
    pub original_date: Option<(i64, u32)>,
}

/// Reads the EXIF block of an image file: all of its fields as JSON, its
/// orientation, and the capture date from DateTimeOriginal, else
/// DateTimeDigitized, else DateTime. Without a block: no JSON, orientation 1
/// and no date.
pub fn read_photo_meta(data: &[u8]) -> (m: PhotoMeta)
    ensures
        opt_string_view(m.exif_json) == photo_exif_json(data@),
        m.orientation == photo_orientation(data@),
        m.original_date == photo_date(data@),
{
    match read_exif(data) {
        None => PhotoMeta { exif_json: None, orientation: 1, original_date: None },
        Some(b) => {
            let fields = exif_field_texts(&b);
            let json = fields_json(&fields);
            let orientation = match exif_orientation_value(&b) {
                Some(v) => v,
                None => 1,
            };
            let mut texts: Vec<Option<String>> = Vec::new();
            texts.push(exif_tag_display(&b, ExifDateTag::DateTimeOriginal));
            texts.push(exif_tag_display(&b, ExifDateTag::DateTimeDigitized));
            texts.push(exif_tag_display(&b, ExifDateTag::DateTime));
            let date = exif_capture_date(&texts);
            proof {
                assert(opt_views(texts@) =~= photo_date_texts(data@));
            }
            PhotoMeta { exif_json: json, orientation, original_date: date }
        },
    }
}

} // verus!
