//! Processing an uploaded file once it is in memory: what is stored for it
//! (size, EXIF, thumbnail, perceptual hash, the input for feature
//! extraction, the capture date). Extracting video frames needs an outside
//! program and happens before; the frames arrive here.
use vstd::prelude::*;

use crate::error::DomainError;
use crate::media::{
    combined_hash, decodes_within, frame_hashes, frame_views, image_phash, load_image_with_limits, no_hash,
    orientation_ops, orientation_steps, video_phash, ImageOp, MAX_IMAGE_ALLOC, MAX_IMAGE_DIMENSION,
    MAX_VIDEO_FRAMES, THUMBNAIL_SIZE,
};
use crate::phash::{decodes_as_image, phash_text, picture_size, ImageStep, PhashGenerator, Picture};
use crate::photo_meta::{
    opt_string_view, photo_date, photo_exif_json, photo_orientation, read_photo_meta,
};
use crate::text::{decimal, decimal_chars, has_prefix, push_chars, push_str, string_push};
use crate::upload::{id_text, uuid_text};

verus! {

/// `DynamicImage::fliph` on the image: mirrored left to right, with the same
/// width and height.
#[verifier::external_body]
fn flip_horizontal(p: &Picture) -> (r: Picture)
    ensures
        r.source() == p.source(),
        r.steps() == p.steps().push(ImageStep::Orient(ImageOp::FlipHorizontal)),
        r.size() == p.size(),
{
    Picture {
        image: p.image.fliph(),
        source: Ghost(p.source()),
        steps: Ghost(p.steps().push(ImageStep::Orient(ImageOp::FlipHorizontal))),
    }
}

/// `DynamicImage::flipv` on the image: mirrored top to bottom, with the same
/// width and height.
#[verifier::external_body]
fn flip_vertical(p: &Picture) -> (r: Picture)
    ensures
        r.source() == p.source(),
        r.steps() == p.steps().push(ImageStep::Orient(ImageOp::FlipVertical)),
        r.size() == p.size(),
{
    Picture {
        image: p.image.flipv(),
        source: Ghost(p.source()),
        steps: Ghost(p.steps().push(ImageStep::Orient(ImageOp::FlipVertical))),
    }
}

/// `DynamicImage::rotate90` on the image: turned a quarter clockwise; width
/// and height swap.
#[verifier::external_body]
fn rotate_90(p: &Picture) -> (r: Picture)
    ensures
        r.source() == p.source(),
        r.steps() == p.steps().push(ImageStep::Orient(ImageOp::Rotate90)),
        r.size() == (p.size().1, p.size().0),
{
    Picture {
        image: p.image.rotate90(),
        source: Ghost(p.source()),
        steps: Ghost(p.steps().push(ImageStep::Orient(ImageOp::Rotate90))),
    }
}

/// `DynamicImage::rotate180` on the image: turned half around, with the same
/// width and height.
#[verifier::external_body]
fn rotate_180(p: &Picture) -> (r: Picture)
    ensures
        r.source() == p.source(),
        r.steps() == p.steps().push(ImageStep::Orient(ImageOp::Rotate180)),
        r.size() == p.size(),
{
    Picture {
        image: p.image.rotate180(),
        source: Ghost(p.source()),
        steps: Ghost(p.steps().push(ImageStep::Orient(ImageOp::Rotate180))),
    }
}

/// `DynamicImage::rotate270` on the image: turned three quarters clockwise;
/// width and height swap.
#[verifier::external_body]
fn rotate_270(p: &Picture) -> (r: Picture)
    ensures
        r.source() == p.source(),
        r.steps() == p.steps().push(ImageStep::Orient(ImageOp::Rotate270)),
        r.size() == (p.size().1, p.size().0),
{
    Picture {
        image: p.image.rotate270(),
        source: Ghost(p.source()),
        steps: Ghost(p.steps().push(ImageStep::Orient(ImageOp::Rotate270))),
    }
}

/// `GenericImageView::dimensions`: width and height in pixels.
#[verifier::external_body]
fn dimensions(p: &Picture) -> (d: (u32, u32))
    ensures
        d == picture_size(p.source(), p.steps()),
{
    image::GenericImageView::dimensions(&p.image)
}

/// `DynamicImage::resize_to_fill` to `size` x `size` with the Catmull-Rom
/// filter. An image with a side of 0 pixels is left out: the scale factor
/// would divide by zero and the target size overflow. When the sides and
/// `size` are at most `MAX_IMAGE_DIMENSION`, the scaled image covers the
/// square (its shorter side scales to `size` exactly) and the crop is
/// `size` x `size`.
#[verifier::external_body]
fn fill_square(p: &Picture, size: u32) -> (r: Picture)
    requires
        p.size().0 > 0,
        p.size().1 > 0,
    ensures
        r.source() == p.source(),
        r.steps() == p.steps().push(ImageStep::FillSquare(size)),
        1 <= size <= MAX_IMAGE_DIMENSION && p.size().0 <= MAX_IMAGE_DIMENSION && p.size().1
            <= MAX_IMAGE_DIMENSION ==> r.size() == (size, size),
{
    Picture {
        image: p.image.resize_to_fill(size, size, image::imageops::FilterType::CatmullRom),
        source: Ghost(p.source()),
        steps: Ghost(p.steps().push(ImageStep::FillSquare(size))),
    }
}

/// What `DynamicImage::write_to` writes to a byte buffer when encoding the
/// image decoded from `source` with `steps` applied as JPEG, and whether it
/// succeeded (when not, the bytes are what it wrote before failing).
pub uninterp spec fn jpeg_encoding(source: Seq<u8>, steps: Seq<ImageStep>) -> (Seq<u8>, bool);

/// `DynamicImage::write_to` a byte buffer as JPEG: the bytes written, and the
/// encoder's message when it failed.
#[verifier::external_body]
fn encode_jpeg(p: &Picture) -> (r: (Vec<u8>, Option<String>))
    ensures
        r.0@ == jpeg_encoding(p.source(), p.steps()).0,
        (r.1 is None) == jpeg_encoding(p.source(), p.steps()).1,
{
    let mut buf: Vec<u8> = Vec::new();
    let r = p.image.write_to(&mut std::io::Cursor::new(&mut buf), image::ImageFormat::Jpeg);
    match r {
        Ok(()) => (buf, None),
        Err(e) => (buf, Some(e.to_string())),
    }
}

/// Width and height after one orientation step: quarter turns swap them.
pub open spec fn step_dimensions(d: (u32, u32), op: ImageOp) -> (u32, u32) {
    match op {
        ImageOp::Rotate90 | ImageOp::Rotate270 => (d.1, d.0),
        _ => d,
    }
}

/// Width and height after the steps `ops`, in order.
pub open spec fn steps_dimensions(d: (u32, u32), ops: Seq<ImageOp>) -> (u32, u32)
    decreases ops.len(),
{
    if ops.len() == 0 {
        d
    } else {
        step_dimensions(steps_dimensions(d, ops.drop_last()), ops.last())
    }
}

/// Width and height of an upright image whose stored image is `d` and whose
/// EXIF orientation is `o`: orientations 5 to 8 are stored on their side.
pub open spec fn upright_dimensions(d: (u32, u32), o: u32) -> (u32, u32) {
    if 5 <= o <= 8 {
        (d.1, d.0)
    } else {
        d
    }
}

/// The orientation steps as image steps.
pub open spec fn orient_steps(ops: Seq<ImageOp>) -> Seq<ImageStep> {
    ops.map_values(|op: ImageOp| ImageStep::Orient(op))
}

/// The image steps that put an image with EXIF orientation `o` upright.
pub open spec fn upright_steps(o: u32) -> Seq<ImageStep> {
    orient_steps(orientation_steps(o))
}

/// Applies one orientation step.
fn apply_step(img: &Picture, op: ImageOp) -> (r: Picture)
    ensures
        r.source() == img.source(),
        r.steps() == img.steps().push(ImageStep::Orient(op)),
        r.size() == step_dimensions(img.size(), op),
{
    match op {
        ImageOp::FlipHorizontal => flip_horizontal(img),
        ImageOp::FlipVertical => flip_vertical(img),
        ImageOp::Rotate90 => rotate_90(img),
        ImageOp::Rotate180 => rotate_180(img),
        ImageOp::Rotate270 => rotate_270(img),
    }
}

/// Applying the steps for orientation `o` gives the upright width and height.
proof fn lemma_orientation_dimensions(d: (u32, u32), o: u32)
    ensures
        steps_dimensions(d, orientation_steps(o)) == upright_dimensions(d, o),
{
    reveal_with_fuel(steps_dimensions, 3);
    let s = orientation_steps(o);
    if s.len() == 2 {
        assert(s.drop_last() =~= seq![s[0]]);
        assert(seq![s[0]].drop_last() =~= Seq::<ImageOp>::empty());
    } else if s.len() == 1 {
        assert(s.drop_last() =~= Seq::<ImageOp>::empty());
    }
}

/// Turns an image upright according to its EXIF orientation, applying the
/// steps `orientation_steps(orientation)` in order.
pub fn apply_orientation(img: Picture, orientation: u32) -> (r: Picture)
    ensures
        r.source() == img.source(),
        r.steps() == img.steps() + upright_steps(orientation),
        r.size() == upright_dimensions(img.size(), orientation),
{
    let ghost d0 = img.size();
    let ghost s0 = img.steps();
    let ops = orientation_ops(orientation);
    let mut out = img;
    let mut i: usize = 0;
    while i < ops.len()
        invariant
            i <= ops@.len(),
            out.source() == img.source(),
            out.steps() == s0 + orient_steps(ops@.take(i as int)),
            out.size() == steps_dimensions(d0, ops@.take(i as int)),
        decreases ops@.len() - i,
    {
        proof {
            assert(ops@.take(i + 1).drop_last() =~= ops@.take(i as int));
            assert(orient_steps(ops@.take(i + 1)) =~= orient_steps(ops@.take(i as int)).push(
                ImageStep::Orient(ops@[i as int]),
            ));
        }
        out = apply_step(&out, ops[i]);
        i = i + 1;
    }
    proof {
        assert(ops@.take(i as int) =~= ops@);
        lemma_orientation_dimensions(d0, orientation);
    }
    out
}

/// What is stored for an uploaded file besides the file itself.
pub struct ProcessedMedia {
    pub width: Option<u32>,
    pub height: Option<u32>,
    pub exif_json: Option<String>,
    /// A square JPEG thumbnail; empty when none could be made.
    pub thumbnail_bytes: Vec<u8>,
    /// The perceptual hash, or `no_hash`.
    pub phash: String,
    /// What the feature extractor is given.
    pub feature_input: Option<Vec<u8>>,
    /// The capture date, as `(seconds, nanoseconds)` since the epoch.
    pub original_date: Option<(i64, u32)>,
}

/// Both sides of an image are at least one pixel.
pub open spec fn has_sides(d: (u32, u32)) -> bool {
    d.0 > 0 && d.1 > 0
}

/// An image upload `data` decodes within the limits.
pub open spec fn decodes_in_limits(data: Seq<u8>) -> bool {
    decodes_within(data, MAX_IMAGE_DIMENSION, MAX_IMAGE_ALLOC)
}

/// The steps that turn the image of the upload `data` upright.
pub open spec fn upload_upright_steps(data: Seq<u8>) -> Seq<ImageStep> {
    upright_steps(photo_orientation(data))
}

/// The steps that make the thumbnail of the upload `data`: upright, then
/// filled to a square.
pub open spec fn upload_thumbnail_steps(data: Seq<u8>) -> Seq<ImageStep> {
    upload_upright_steps(data).push(ImageStep::FillSquare(THUMBNAIL_SIZE))
}

/// The hash stored for the image bytes `b`: their hash, or `no_hash` when they
/// do not decode.
pub open spec fn hash_or_none(b: Seq<u8>) -> Seq<char> {
    if decodes_as_image(b) {
        phash_text(b)
    } else {
        no_hash()
    }
}

/// The hash stored for an image upload `data`: the hash of its upright image
/// encoded as JPEG, so that turned copies of a photo match; `no_hash` when it
/// does not decode.
pub open spec fn image_upload_hash(data: Seq<u8>) -> Seq<char> {
    if decodes_in_limits(data) {
        hash_or_none(jpeg_encoding(data, upload_upright_steps(data)).0)
    } else {
        no_hash()
    }
}

/// An image upload is processed unless encoding its upright image, or the
/// thumbnail of an image with both sides, fails.
pub open spec fn image_upload_succeeds(data: Seq<u8>) -> bool {
    !decodes_in_limits(data) || (jpeg_encoding(data, upload_upright_steps(data)).1 && (!has_sides(
        picture_size(data, upload_upright_steps(data)),
    ) || jpeg_encoding(data, upload_thumbnail_steps(data)).1))
}

/// An image upload: EXIF read first; then, when the image decodes within
/// the limits, it is turned upright, measured, hashed (from its upright JPEG
/// encoding) and thumbnailed. The file itself always goes to feature
/// extraction. Failing to encode the upright image or its thumbnail is an
/// error. An image with a side of 0 pixels gets no thumbnail.
pub fn process_image(data: &[u8], hasher: &PhashGenerator) -> (r: Result<ProcessedMedia, DomainError>)
    ensures
        r is Ok == image_upload_succeeds(data@),
        match r {
            Ok(p) => {
                &&& p.feature_input matches Some(f) && f@ == data@
                &&& opt_string_view(p.exif_json) == photo_exif_json(data@)
                &&& p.original_date == photo_date(data@)
                &&& p.phash@ == image_upload_hash(data@)
                &&& !decodes_in_limits(data@) ==> {
                    &&& p.width is None && p.height is None
                    &&& p.thumbnail_bytes@.len() == 0
                }
                &&& decodes_in_limits(data@) ==> {
                    let size = picture_size(data@, upload_upright_steps(data@));
                    &&& size == upright_dimensions(
                        picture_size(data@, Seq::empty()),
                        photo_orientation(data@),
                    )
                    &&& p.width == Some(size.0) && p.height == Some(size.1)
                    &&& has_sides(size) ==> picture_size(data@, upload_thumbnail_steps(data@)) == (
                        THUMBNAIL_SIZE,
                        THUMBNAIL_SIZE,
                    )
                    &&& p.thumbnail_bytes@ == (if has_sides(size) {
                        jpeg_encoding(data@, upload_thumbnail_steps(data@)).0
                    } else {
                        Seq::empty()
                    })
                }
            },
            Err(DomainError::Io(m)) => decodes_in_limits(data@) && {
                let upright = jpeg_encoding(data@, upload_upright_steps(data@));
                let thumb = jpeg_encoding(data@, upload_thumbnail_steps(data@));
                let size = picture_size(data@, upload_upright_steps(data@));
                ||| !upright.1 && has_prefix(m@, "Failed to encode for phash: "@)
                ||| upright.1 && has_sides(size) && !thumb.1 && has_prefix(
                    m@,
                    "Failed to encode thumbnail: "@,
                )
            },
            Err(_) => false,
        },
{
    let meta = read_photo_meta(data);
    let mut width: Option<u32> = None;
    let mut height: Option<u32> = None;
    let mut thumbnail_bytes: Vec<u8> = Vec::new();
    let mut phash = String::new();
    push_str(&mut phash, "no_hash");
    match load_image_with_limits(data) {
        Ok(img) => {
            let img = apply_orientation(img, meta.orientation);
            proof {
                assert(Seq::<ImageStep>::empty() + upright_steps(meta.orientation) =~= upright_steps(
                    meta.orientation,
                ));
            }
            let (w, h) = dimensions(&img);
            width = Some(w);
            height = Some(h);
            let (upright, failure) = encode_jpeg(&img);
            match failure {
                Some(e) => {
                    let mut m = String::new();
                    push_str(&mut m, "Failed to encode for phash: ");
                    let ghost p = m@;
                    push_str(&mut m, e.as_str());
                    proof {
                        assert(m@.subrange(0, p.len() as int) =~= p);
                    }
                    return Err(DomainError::Io(m));
                },
                None => {},
            }
            phash = image_phash(upright.as_slice(), hasher);
            if w > 0 && h > 0 {
                let thumb = fill_square(&img, THUMBNAIL_SIZE);
                let (bytes, failure) = encode_jpeg(&thumb);
                match failure {
                    Some(e) => {
                        let mut m = String::new();
                        push_str(&mut m, "Failed to encode thumbnail: ");
                        let ghost p = m@;
                        push_str(&mut m, e.as_str());
                        proof {
                            assert(m@.subrange(0, p.len() as int) =~= p);
                        }
                        return Err(DomainError::Io(m));
                    },
                    None => {},
                }
                thumbnail_bytes = bytes;
            }
        },
        Err(_) => {},
    }
    let mut input: Vec<u8> = Vec::new();
    let mut i: usize = 0;
    while i < data.len()
        invariant
            i <= data@.len(),
            input@ == data@.take(i as int),
        decreases data@.len() - i,
    {
        input.push(data[i]);
        proof {
            assert(data@.take(i + 1) =~= data@.take(i as int).push(data@[i as int]));
        }
        i = i + 1;
    }
    proof {
        assert(data@.take(data@.len() as int) =~= data@);
    }
    Ok(
        ProcessedMedia {
            width,
            height,
            exif_json: meta.exif_json,
            thumbnail_bytes,
            phash,
            feature_input: Some(input),
            original_date: meta.original_date,
        },
    )
}

/// Two uploads of the same image bytes are stored with the same hash, which
/// is what finding duplicates rests on.
pub proof fn law_same_upload_same_hash(a: Seq<u8>, b: Seq<u8>)
    requires
        a == b,
    ensures
        image_upload_hash(a) == image_upload_hash(b),
{
}

/// The steps that make a video's thumbnail from its first frame.
pub open spec fn frame_thumbnail_steps() -> Seq<ImageStep> {
    Seq::<ImageStep>::empty().push(ImageStep::FillSquare(THUMBNAIL_SIZE))
}

/// A video upload, from the frames taken out of it (`None` when that
/// failed): the first frame gives the size, the thumbnail (when it decodes;
/// kept as far as it was written when encoding fails, none for a side of 0
/// pixels) and the feature input; all frames together give the hash.
/// Without frames nothing but `no_hash` is recorded.
pub fn process_video(frames: Option<Vec<Vec<u8>>>, hasher: &PhashGenerator) -> (p: ProcessedMedia)
    ensures
        p.exif_json is None,
        p.original_date is None,
        match frames {
            None => p.width is None && p.height is None && p.thumbnail_bytes@.len() == 0
                && p.feature_input is None && p.phash@ == no_hash(),
            Some(fs) => {
                &&& p.phash@ == combined_hash(frame_hashes(frame_views(fs@)))
                &&& fs@.len() == 0 ==> p.feature_input is None && p.width is None && p.height is None
                    && p.thumbnail_bytes@.len() == 0
                &&& fs@.len() > 0 ==> {
                    let f = fs@[0]@;
                    let size = picture_size(f, Seq::empty());
                    &&& p.feature_input matches Some(v) && v@ == f
                    &&& decodes_in_limits(f) ==> p.width == Some(size.0) && p.height == Some(size.1)
                    &&& !decodes_in_limits(f) ==> p.width is None && p.height is None
                    &&& decodes_in_limits(f) && has_sides(size) ==> picture_size(
                        f,
                        frame_thumbnail_steps(),
                    ) == (THUMBNAIL_SIZE, THUMBNAIL_SIZE)
                    &&& p.thumbnail_bytes@ == (if decodes_in_limits(f) && has_sides(size) {
                        jpeg_encoding(f, frame_thumbnail_steps()).0
                    } else {
                        Seq::empty()
                    })
                }
            },
        },
{
    let mut none = String::new();
    push_str(&mut none, "no_hash");
    match frames {
        None => ProcessedMedia {
            width: None,
            height: None,
            exif_json: None,
            thumbnail_bytes: Vec::new(),
            phash: none,
            feature_input: None,
            original_date: None,
        },
        Some(fs) => {
            let mut width: Option<u32> = None;
            let mut height: Option<u32> = None;
            let mut thumbnail_bytes: Vec<u8> = Vec::new();
            let mut feature_input: Option<Vec<u8>> = None;
            if fs.len() > 0 {
                match load_image_with_limits(fs[0].as_slice()) {
                    Ok(img) => {
                        let (w, h) = dimensions(&img);
                        width = Some(w);
                        height = Some(h);
                        if w > 0 && h > 0 {
                            let thumb = fill_square(&img, THUMBNAIL_SIZE);
                            let (bytes, _failure) = encode_jpeg(&thumb);
                            thumbnail_bytes = bytes;
                        }
                    },
                    Err(_) => {},
                }
                feature_input = Some(fs[0].clone());
            }
            let phash = video_phash(&fs, hasher);
            ProcessedMedia {
                width,
                height,
                exif_json: None,
                thumbnail_bytes,
                phash,
                feature_input,
                original_date: None,
            }
        },
    }
}

/// `i` in decimal, padded with leading zeros to at least three digits (`{:03}`).
pub open spec fn padded3(i: nat) -> Seq<char> {
    let d = decimal(i);
    if d.len() >= 3 {
        d
    } else {
        Seq::new((3 - d.len()) as nat, |k: int| '0') + d
    }
}

/// Name of the temporary copy of a video handed to the frame extractor.
pub fn video_input_name(id: u128) -> (n: String)
    ensures
        n@ == "gallerynet_"@ + id_text(id) + ".tmp"@,
{
    let mut n = String::new();
    push_str(&mut n, "gallerynet_");
    push_str(&mut n, uuid_text(id).as_str());
    push_str(&mut n, ".tmp");
    n
}

/// Output pattern of the frame extractor: frames numbered from 1, three digits.
pub fn video_frame_pattern(id: u128) -> (n: String)
    ensures
        n@ == "gallerynet_"@ + id_text(id) + "_%03d.jpg"@,
{
    let mut n = String::new();
    push_str(&mut n, "gallerynet_");
    push_str(&mut n, uuid_text(id).as_str());
    push_str(&mut n, "_%03d.jpg");
    n
}

/// Name of frame `i` (from 1) extracted from a video.
pub fn video_frame_name(id: u128, i: u64) -> (n: String)
    ensures
        n@ == "gallerynet_"@ + id_text(id) + "_"@ + padded3(i as nat) + ".jpg"@,
{
    let mut n = String::new();
    push_str(&mut n, "gallerynet_");
    push_str(&mut n, uuid_text(id).as_str());
    push_str(&mut n, "_");
    let digits = decimal_chars(i);
    let ghost before = n@;
    let mut pad: usize = digits.len();
    while pad < 3
        invariant
            digits@ == decimal(i as nat),
            digits@.len() <= pad <= 3 || (pad == digits@.len() && pad >= 3),
            n@ == before + Seq::new((pad - digits@.len()) as nat, |k: int| '0'),
        decreases 3 - pad,
    {
        string_push(&mut n, '0');
        proof {
            assert(Seq::new((pad + 1 - digits@.len()) as nat, |k: int| '0') =~= Seq::new(
                (pad - digits@.len()) as nat,
                |k: int| '0',
            ).push('0'));
        }
        pad = pad + 1;
    }
    let ghost padded = n@;
    push_chars(&mut n, &digits);
    push_str(&mut n, ".jpg");
    proof {
        if digits@.len() >= 3 {
            assert(Seq::new(0nat, |k: int| '0') =~= Seq::<char>::empty());
            assert(padded =~= before);
        } else {
            assert(pad == 3);
        }
        assert(n@ =~= "gallerynet_"@ + id_text(id) + "_"@ + padded3(i as nat) + ".jpg"@);
    }
    n
}

/// Arguments of the frame extractor: up to `MAX_VIDEO_FRAMES` frames, each the
/// most distinct of a run of 60, scaled to at most 1920 pixels wide.
pub open spec fn frame_extraction_args(input: Seq<char>, pattern: Seq<char>) -> Seq<Seq<char>> {
    seq![
        "-y"@,
        "-i"@,
        input,
        "-vf"@,
        "scale='min(1920,iw)':-2,thumbnail=60"@,
        "-frames:v"@,
        decimal(MAX_VIDEO_FRAMES as nat),
        "-fps_mode"@,
        "vfr"@,
        pattern,
    ]
}

fn owned(s: &str) -> (r: String)
    ensures
        r@ == s@,
{
    let mut r = String::new();
    push_str(&mut r, s);
    r
}

/// The frame extractor's command line after the program name.
pub fn frame_extraction_command(input: &str, pattern: &str) -> (args: Vec<String>)
    ensures
        args@.map_values(|a: String| a@) == frame_extraction_args(input@, pattern@),
{
    let mut frames = String::new();
    push_chars(&mut frames, &decimal_chars(MAX_VIDEO_FRAMES as u64));
    let args = vec![
        owned("-y"),
        owned("-i"),
        owned(input),
        owned("-vf"),
        owned("scale='min(1920,iw)':-2,thumbnail=60"),
        owned("-frames:v"),
        frames,
        owned("-fps_mode"),
        owned("vfr"),
        owned(pattern),
    ];
    proof {
        assert(args@.map_values(|a: String| a@) =~= frame_extraction_args(input@, pattern@));
    }
    args
}

} // verus!
