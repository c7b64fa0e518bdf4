//! Decisions taken while processing an uploaded file: how to orient the
//! image, and the perceptual hash that identifies it.
use vstd::prelude::*;

use crate::phash::{
    base64_char, base64_encoded, decodes_as_image, phash_text, HashGenerator, ImageStep, PhashGenerator,
    Picture,
};
use crate::error::DomainError;
use crate::text::{has_prefix, push_str};

verus! {

/// Maximum image dimension (width or height) in pixels.
pub const MAX_IMAGE_DIMENSION: u32 = 65_000;

/// Maximum memory allocation for image decoding (~500 MB).
pub const MAX_IMAGE_ALLOC: u64 = 500 * 1024 * 1024;

/// Side of the square thumbnails, in pixels.
pub const THUMBNAIL_SIZE: u32 = 224;

/// Most frames taken from a video.
pub const MAX_VIDEO_FRAMES: usize = 5;

/// Why an image could not be decoded, with the decoder's message.
pub enum DecodeFailure {
    /// The format could not be read from the data.
    UnknownFormat(String),
    /// The data did not decode (corrupt, unsupported, or over the limits).
    Undecodable(String),
}

/// Whether `image` decodes `data` (format guessed from the content) with
/// images at most `max_dim` pixels wide and high and at most `max_alloc`
/// bytes allocated; the outcome depends on these alone.
pub uninterp spec fn decodes_within(data: Seq<u8>, max_dim: u32, max_alloc: u64) -> bool;

/// The `Display` text of the error that decoding `data` under these limits
/// gives when it fails (it depends on these alone).
pub uninterp spec fn limited_decode_error_text(data: Seq<u8>, max_dim: u32, max_alloc: u64) -> Seq<char>;

/// `image::ImageReader::new(..).with_guessed_format()`, then `decode()` under
/// `image::Limits` with the given width, height and allocation limits. This is
/// the reader path of `image::load_from_memory` with other limits, so a
/// decoded image is the one decoded from `data`; every decoder refuses an
/// image wider or higher than the limit (`Limits::check_dimensions`).
/// Guessing the format reads at most 16 bytes from an in-memory cursor and
/// seeks back, which cannot fail, so a failure is always a failed decode.
#[verifier::external_body]
fn decode_limited(data: &[u8], max_dim: u32, max_alloc: u64) -> (r: Result<Picture, DecodeFailure>)
    ensures
        r is Ok == decodes_within(data@, max_dim, max_alloc),
        r matches Ok(p) ==> p.source() == data@ && p.steps() == Seq::<ImageStep>::empty()
            && p.size().0 <= max_dim && p.size().1 <= max_dim,
        r matches Err(f) ==> f matches DecodeFailure::Undecodable(m) && m@ == limited_decode_error_text(
            data@,
            max_dim,
            max_alloc,
        ),
{
    let mut reader = match image::ImageReader::new(std::io::Cursor::new(data)).with_guessed_format() {
        Ok(r) => r,
        Err(e) => return Err(DecodeFailure::UnknownFormat(e.to_string())),
    };
    let mut limits = image::Limits::default();
    limits.max_image_width = Some(max_dim);
    limits.max_image_height = Some(max_dim);
    limits.max_alloc = Some(max_alloc);
    reader.limits(limits);
    match reader.decode() {
        Ok(image) => Ok(Picture { image, source: Ghost(data@), steps: Ghost(Seq::empty()) }),
        Err(e) => Err(DecodeFailure::Undecodable(e.to_string())),
    }
}

/// Load an image with dimension and allocation limits to prevent pixel bombs.
pub fn load_image_with_limits(data: &[u8]) -> (r: Result<Picture, DomainError>)
    ensures
        r is Ok == decodes_within(data@, MAX_IMAGE_DIMENSION, MAX_IMAGE_ALLOC),
        r matches Ok(p) ==> p.source() == data@ && p.steps() == Seq::<ImageStep>::empty()
            && p.size().0 <= MAX_IMAGE_DIMENSION && p.size().1 <= MAX_IMAGE_DIMENSION,
        match r {
            Err(DomainError::Io(m)) => m@ == "Image decode failed: "@ + limited_decode_error_text(
                data@,
                MAX_IMAGE_DIMENSION,
                MAX_IMAGE_ALLOC,
            ),
            Err(_) => false,
            Ok(_) => true,
        },
{
    match decode_limited(data, MAX_IMAGE_DIMENSION, MAX_IMAGE_ALLOC) {
        Ok(img) => Ok(img),
        Err(DecodeFailure::UnknownFormat(e)) => {
            let mut m = String::new();
            push_str(&mut m, "Failed to detect image format: ");
            let ghost p = m@;
            push_str(&mut m, e.as_str());
            proof {
                assert(m@.subrange(0, p.len() as int) =~= p);
            }
            Err(DomainError::Io(m))
        },
        Err(DecodeFailure::Undecodable(e)) => {
            let mut m = String::new();
            push_str(&mut m, "Image decode failed: ");
            push_str(&mut m, e.as_str());
            Err(DomainError::Io(m))
        },
    }
}

/// A step that turns an image upright.
#[derive(PartialEq, Eq, Structural, Clone, Copy, Debug)]
pub enum ImageOp {
    FlipHorizontal,
    FlipVertical,
    Rotate90,
    Rotate180,
    Rotate270,
}

/// The steps, in order, that display an image with EXIF orientation `o`
/// upright; orientations outside 2..=8 need none.
pub open spec fn orientation_steps(o: u32) -> Seq<ImageOp> {
    if o == 2 {
        seq![ImageOp::FlipHorizontal]
    } else if o == 3 {
        seq![ImageOp::Rotate180]
    } else if o == 4 {
        seq![ImageOp::FlipVertical]
    } else if o == 5 {
        seq![ImageOp::Rotate90, ImageOp::FlipHorizontal]
    } else if o == 6 {
        seq![ImageOp::Rotate90]
    } else if o == 7 {
        seq![ImageOp::Rotate270, ImageOp::FlipHorizontal]
    } else if o == 8 {
        seq![ImageOp::Rotate270]
    } else {
        Seq::empty()
    }
}

/// The steps that orient an image with EXIF orientation `orientation`.
pub fn orientation_ops(orientation: u32) -> (ops: Vec<ImageOp>)
    ensures
        ops@ == orientation_steps(orientation),
{
    let mut ops: Vec<ImageOp> = Vec::new();
    if orientation == 2 {
        ops.push(ImageOp::FlipHorizontal);
    } else if orientation == 3 {
        ops.push(ImageOp::Rotate180);
    } else if orientation == 4 {
        ops.push(ImageOp::FlipVertical);
    } else if orientation == 5 {
        ops.push(ImageOp::Rotate90);
        ops.push(ImageOp::FlipHorizontal);
    } else if orientation == 6 {
        ops.push(ImageOp::Rotate90);
    } else if orientation == 7 {
        ops.push(ImageOp::Rotate270);
        ops.push(ImageOp::FlipHorizontal);
    } else if orientation == 8 {
        ops.push(ImageOp::Rotate270);
    }
    proof {
        assert(ops@ =~= orientation_steps(orientation));
    }
    ops
}

/// The hash recorded when nothing could be hashed.
pub open spec fn no_hash() -> Seq<char> {
    "no_hash"@
}

/// `hashes` joined with `|`.
pub open spec fn joined_hashes(hashes: Seq<Seq<char>>) -> Seq<char>
    decreases hashes.len(),
{
    if hashes.len() == 0 {
        Seq::empty()
    } else if hashes.len() == 1 {
        hashes[0]
    } else {
        joined_hashes(hashes.drop_last()) + "|"@ + hashes.last()
    }
}

/// The hash of a video from the hashes of its frames that could be hashed:
/// all of them joined with `|`, or `no_hash` when there are none.
pub open spec fn combined_hash(hashes: Seq<Seq<char>>) -> Seq<char> {
    if hashes.len() == 0 {
        no_hash()
    } else {
        joined_hashes(hashes)
    }
}

/// Number of frames that decode as images.
pub open spec fn decodable_count(frames: Seq<Seq<u8>>) -> nat
    decreases frames.len(),
{
    if frames.len() == 0 {
        0
    } else {
        decodable_count(frames.drop_last()) + if decodes_as_image(frames.last()) {
            1nat
        } else {
            0nat
        }
    }
}

/// `h` is the base64 text of some bytes.
pub open spec fn is_hash_text(h: Seq<char>) -> bool {
    exists|b: Seq<u8>| h == base64_encoded(b)
}

pub open spec fn frame_views(frames: Seq<Vec<u8>>) -> Seq<Seq<u8>> {
    frames.map_values(|f: Vec<u8>| f@)
}

/// The hashes of the frames that decode as images, in frame order.
pub open spec fn frame_hashes(frames: Seq<Seq<u8>>) -> Seq<Seq<char>>
    decreases frames.len(),
{
    if frames.len() == 0 {
        Seq::empty()
    } else {
        let rest = frame_hashes(frames.drop_last());
        if decodes_as_image(frames.last()) {
            rest.push(phash_text(frames.last()))
        } else {
            rest
        }
    }
}

/// The hash that identifies a video: the hashes of the frames that decode,
/// in frame order, joined with `|`; `no_hash` when no frame decodes.
pub fn video_phash(frames: &Vec<Vec<u8>>, hasher: &PhashGenerator) -> (h: String)
    ensures
        h@ == combined_hash(frame_hashes(frame_views(frames@))),
{
    let ghost views = frame_views(frames@);
    let ghost mut hashes: Seq<Seq<char>> = Seq::empty();
    let mut out = String::new();
    let mut count: usize = 0;
    let mut i: usize = 0;
    while i < frames.len()
        invariant
            i <= frames@.len(),
            views == frame_views(frames@),
            hashes == frame_hashes(views.take(i as int)),
            count == hashes.len(),
            count <= i,
            out@ == joined_hashes(hashes),
        decreases frames@.len() - i,
    {
        proof {
            assert(views.take(i + 1).drop_last() =~= views.take(i as int));
            assert(views.take(i + 1).last() == frames@[i as int]@);
        }
        let r = hasher.generate_phash(frames[i].as_slice());
        match r {
            Ok(s) => {
                let ghost before = hashes;
                if count > 0 {
                    push_str(&mut out, "|");
                }
                push_str(&mut out, s.as_str());
                proof {
                    hashes = hashes.push(s@);
                    assert(hashes.drop_last() =~= before);
                    assert(out@ =~= joined_hashes(hashes));
                }
                count = count + 1;
            },
            Err(_) => {},
        }
        i = i + 1;
    }
    proof {
        assert(views.take(frames@.len() as int) =~= views);
    }
    if count == 0 {
        let mut n = String::new();
        push_str(&mut n, "no_hash");
        n
    } else {
        out
    }
}

/// The hash of a still image: its own hash, or `no_hash` when it cannot be hashed.
pub fn image_phash(image_bytes: &[u8], hasher: &PhashGenerator) -> (h: String)
    ensures
        h@ == (if decodes_as_image(image_bytes@) {
            phash_text(image_bytes@)
        } else {
            no_hash()
        }),
{
    match hasher.generate_phash(image_bytes) {
        Ok(s) => s,
        Err(_) => {
            let mut n = String::new();
            push_str(&mut n, "no_hash");
            n
        },
    }
}

proof fn lemma_frame_hashes_shape(frames: Seq<Seq<u8>>)
    ensures
        frame_hashes(frames).len() == decodable_count(frames),
        forall|k: int| 0 <= k < frame_hashes(frames).len() ==> is_hash_text(#[trigger] frame_hashes(frames)[k]),
    decreases frames.len(),
{
    if frames.len() > 0 {
        let rest = frame_hashes(frames.drop_last());
        lemma_frame_hashes_shape(frames.drop_last());
        let all = frame_hashes(frames);
        assert forall|k: int| 0 <= k < all.len() implies is_hash_text(#[trigger] all[k]) by {
            if k < rest.len() {
                assert(all[k] == rest[k]);
            } else {
                let b = crate::phash::image_hash(frames.last());
                assert(all[k] == base64_encoded(b));
            }
        }
    }
}

proof fn lemma_base64_char_not_underscore(v: nat)
    requires
        v < 64,
    ensures
        base64_char(v) != '_',
{
    let c = base64_char(v);
    if v < 26 {
        assert((c as u32) == 65 + v);
    } else if v < 52 {
        assert((c as u32) == 71 + v);
    } else if v < 62 {
        assert((c as u32) == v - 4);
    }
}

proof fn lemma_base64_has_no_underscore(b: Seq<u8>)
    ensures
        forall|i: int| 0 <= i < base64_encoded(b).len() ==> base64_encoded(b)[i] != '_',
    decreases b.len(),
{
    if b.len() >= 1 {
        lemma_base64_char_not_underscore((b[0] / 4) as nat);
        lemma_base64_char_not_underscore(((b[0] % 4) * 16) as nat);
    }
    if b.len() >= 2 {
        lemma_base64_char_not_underscore(((b[0] % 4) * 16 + b[1] / 16) as nat);
        lemma_base64_char_not_underscore(((b[1] % 16) * 4) as nat);
    }
    if b.len() >= 3 {
        lemma_base64_char_not_underscore(((b[1] % 16) * 4 + b[2] / 64) as nat);
        lemma_base64_char_not_underscore((b[2] % 64) as nat);
        lemma_base64_has_no_underscore(b.skip(3));
        let e = base64_encoded(b);
        let rest = base64_encoded(b.skip(3));
        assert forall|i: int| 0 <= i < e.len() implies e[i] != '_' by {
            if i >= 4 {
                assert(e[i] == rest[i - 4]);
            }
        }
    }
}

proof fn lemma_joined_has_no_underscore(hs: Seq<Seq<char>>)
    requires
        forall|k: int| 0 <= k < hs.len() ==> is_hash_text(#[trigger] hs[k]),
    ensures
        forall|i: int| 0 <= i < joined_hashes(hs).len() ==> joined_hashes(hs)[i] != '_',
    decreases hs.len(),
{
    reveal_strlit("|");
    assert forall|k: int, i: int| 0 <= k < hs.len() && 0 <= i < hs[k].len() implies #[trigger] hs[k][i]
        != '_' by {
        assert(is_hash_text(hs[k]));
        let b = choose|b: Seq<u8>| hs[k] == base64_encoded(b);
        lemma_base64_has_no_underscore(b);
    }
    if hs.len() > 1 {
        let t = hs.drop_last();
        assert forall|k: int| 0 <= k < t.len() implies is_hash_text(#[trigger] t[k]) by {
            assert(t[k] == hs[k]);
        }
        lemma_joined_has_no_underscore(t);
        let j = joined_hashes(hs);
        let left = joined_hashes(t) + "|"@;
        assert forall|i: int| 0 <= i < j.len() implies j[i] != '_' by {
            if i < joined_hashes(t).len() {
                assert(j[i] == joined_hashes(t)[i]);
            } else if i < left.len() {
                assert(j[i] == '|');
            } else {
                assert(j[i] == hs.last()[i - left.len()]);
            }
        }
    } else if hs.len() == 1 {
        assert(hs[0] == hs[0]);
    }
}

/// A video's hash is `no_hash` exactly when none of its frames decodes, so the
/// marker never stands for a real hash.
pub proof fn law_video_hash_marks_only_unhashable(frames: Seq<Seq<u8>>)
    ensures
        (combined_hash(frame_hashes(frames)) == no_hash()) == (decodable_count(frames) == 0),
{
    lemma_frame_hashes_shape(frames);
    let hashes = frame_hashes(frames);
    if hashes.len() > 0 {
        lemma_joined_has_no_underscore(hashes);
        reveal_strlit("no_hash");
        assert(no_hash()[2] == '_');
        if joined_hashes(hashes) == no_hash() {
            assert(joined_hashes(hashes)[2] != '_');
        }
    }
}

} // verus!
