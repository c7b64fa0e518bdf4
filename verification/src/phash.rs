//! Perceptual hashes of images, used to find duplicate uploads.
use vstd::prelude::*;

use crate::error::DomainError;
use crate::media::ImageOp;
use crate::text::push_str;

verus! {

#[verifier::external_type_specification]
#[verifier::external_body]
pub struct ExDynamicImage(image::DynamicImage);

#[verifier::external_type_specification]
#[verifier::external_body]
pub struct ExImageError(image::ImageError);

/// A step applied to a decoded image.
#[derive(PartialEq, Eq, Structural, Clone, Copy, Debug)]
pub enum ImageStep {
    /// A flip or a turn that helps put the image upright.
    Orient(ImageOp),
    /// Scaled to cover a square of this side and cropped to it, centred
    /// (`resize_to_fill` with the Catmull-Rom filter).
    FillSquare(u32),
}

/// An image in memory, with how it was made: decoded by `image` from the
/// bytes `source()` (the format guessed from the content), then changed by
/// `steps()`, in order. Only the decoders below make one, and each image
/// operation records its step, so these two describe the image exactly.
pub struct Picture {
    pub(crate) image: image::DynamicImage,
    pub(crate) source: Ghost<Seq<u8>>,
    pub(crate) steps: Ghost<Seq<ImageStep>>,
}

impl Picture {
    /// The bytes the image was decoded from.
    pub closed spec fn source(&self) -> Seq<u8> {
        self.source@
    }

    /// The steps applied since decoding, in order.
    pub closed spec fn steps(&self) -> Seq<ImageStep> {
        self.steps@
    }

    /// Width and height in pixels.
    pub open spec fn size(&self) -> (u32, u32) {
        picture_size(self.source(), self.steps())
    }

    /// The image itself.
    pub fn image(&self) -> &image::DynamicImage {
        &self.image
    }

    /// The image itself, giving up the record of how it was made.
    pub fn into_image(self) -> image::DynamicImage {
        self.image
    }
}

/// Width and height, in pixels, of the image decoded from `source` with
/// `steps` applied (what `GenericImageView::dimensions` returns for it).
pub uninterp spec fn picture_size(source: Seq<u8>, steps: Seq<ImageStep>) -> (u32, u32);

/// Whether `image::load_from_memory` decodes these bytes (the format is
/// guessed from the content; the outcome depends on the bytes alone).
pub uninterp spec fn decodes_as_image(bytes: Seq<u8>) -> bool;

/// The `Display` text of the error `image::load_from_memory` gives for
/// `bytes` when it cannot decode them (decoding from memory depends on the
/// bytes alone).
pub uninterp spec fn load_error_text(bytes: Seq<u8>) -> Seq<char>;

/// `image::load_from_memory`: succeeds exactly on the bytes it decodes, and
/// then gives the image decoded from them; otherwise the error's text.
#[verifier::external_body]
fn load_image(bytes: &[u8]) -> (r: Result<Picture, String>)
    ensures
        r is Ok == decodes_as_image(bytes@),
        r matches Ok(p) ==> p.source() == bytes@ && p.steps() == Seq::<ImageStep>::empty(),
        r matches Err(m) ==> m@ == load_error_text(bytes@),
{
    match image::load_from_memory(bytes) {
        Ok(image) => Ok(
            Picture { image, source: Ghost(bytes@), steps: Ghost(Seq::empty()) },
        ),
        Err(e) => Err(e.to_string()),
    }
}

/// Decodes an image (any format `image` recognises from the content); the
/// decoder's message when it cannot.
pub fn decode_image(bytes: &[u8]) -> (r: Result<Picture, String>)
    ensures
        r is Ok == decodes_as_image(bytes@),
        r matches Ok(p) ==> p.source() == bytes@ && p.steps() == Seq::<ImageStep>::empty(),
        r matches Err(m) ==> m@ == load_error_text(bytes@),
{
    load_image(bytes)
}

/// The double-gradient hash bytes of the image decoded from `source` with
/// `steps` applied (`image_hasher` with its default configuration).
pub uninterp spec fn picture_hash(source: Seq<u8>, steps: Seq<ImageStep>) -> Seq<u8>;

/// The hash bytes of the image decoded from `bytes`, as it is.
pub open spec fn image_hash(bytes: Seq<u8>) -> Seq<u8> {
    picture_hash(bytes, Seq::empty())
}

/// The hash text of the image decoded from `bytes`: its hash bytes in base64.
pub open spec fn phash_text(bytes: Seq<u8>) -> Seq<char> {
    base64_encoded(image_hash(bytes))
}

/// `image_hasher`: the double-gradient hash of the image with the default
/// configuration (`HasherConfig::new().hash_alg(HashAlg::DoubleGradient)`),
/// as its bytes: the hash named `picture_hash`; the default 8x8 hash fits in
/// 8 bytes.
#[verifier::external_body]
fn double_gradient_hash(p: &Picture) -> (h: Vec<u8>)
    ensures
        h@ == picture_hash(p.source(), p.steps()),
        h@.len() <= 8,
{
    let hasher = image_hasher::HasherConfig::new().hash_alg(
        image_hasher::HashAlg::DoubleGradient,
    ).to_hasher();
    hasher.hash_image(&p.image).as_bytes().to_vec()
}

/// The character of a 6-bit value in the standard base64 alphabet.
pub open spec fn base64_char(v: nat) -> char {
    if v < 26 {
        (65 + v) as char
    } else if v < 52 {
        (71 + v) as char
    } else if v < 62 {
        (v - 4) as char
    } else if v == 62 {
        '+'
    } else {
        '/'
    }
}

/// Standard base64 with `=` padding: each group of three bytes gives four
/// characters, a final group of one or two bytes is padded to four.
pub open spec fn base64_encoded(b: Seq<u8>) -> Seq<char>
    decreases b.len(),
{
    if b.len() == 0 {
        Seq::empty()
    } else if b.len() == 1 {
        seq![base64_char((b[0] / 4) as nat), base64_char(((b[0] % 4) * 16) as nat), '=', '=']
    } else if b.len() == 2 {
        seq![
            base64_char((b[0] / 4) as nat),
            base64_char(((b[0] % 4) * 16 + b[1] / 16) as nat),
            base64_char(((b[1] % 16) * 4) as nat),
            '=',
        ]
    } else {
        seq![
            base64_char((b[0] / 4) as nat),
            base64_char(((b[0] % 4) * 16 + b[1] / 16) as nat),
            base64_char(((b[1] % 16) * 4 + b[2] / 64) as nat),
            base64_char((b[2] % 64) as nat),
        ] + base64_encoded(b.skip(3))
    }
}

/// `base64::engine::general_purpose::STANDARD.encode`: standard alphabet, padded.
/// The length bound keeps the encoded length within `usize`, where the crate
/// would panic.
#[verifier::external_body]
fn base64_standard(bytes: &[u8]) -> (s: String)
    requires
        4 * ((bytes@.len() + 2) / 3) <= usize::MAX,
    ensures
        s@ == base64_encoded(bytes@),
{
    base64::Engine::encode(&base64::engine::general_purpose::STANDARD, bytes)
}

/// Produces the perceptual hash of an image, as text.
pub trait HashGenerator {
    fn generate_phash(&self, image_bytes: &[u8]) -> Result<String, DomainError>;
}

/// Perceptual hashes with the double-gradient algorithm, base64-encoded.
pub struct PhashGenerator;

impl PhashGenerator {
    pub fn new() -> (g: Self) {
        PhashGenerator
    }
}

impl HashGenerator for PhashGenerator {
    /// Decodes the image (any format the decoder recognises) and hashes it;
    /// an undecodable image is a hashing error.
    fn generate_phash(&self, image_bytes: &[u8]) -> (r: Result<String, DomainError>)
        ensures
            r is Ok == decodes_as_image(image_bytes@),
            match r {
                Ok(s) => s@ == phash_text(image_bytes@),
                Err(e) => match e {
                    DomainError::Hashing(msg) => msg@ == "Failed to load image: "@ + load_error_text(
                        image_bytes@,
                    ),
                    _ => false,
                },
            },
    {
        match decode_image(image_bytes) {
            Ok(img) => {
                let hash = double_gradient_hash(&img);
                Ok(base64_standard(hash.as_slice()))
            },
            Err(detail) => {
                let mut msg = String::new();
                push_str(&mut msg, "Failed to load image: ");
                push_str(&mut msg, detail.as_str());
                Err(DomainError::Hashing(msg))
            },
        }
    }
}

/// Equal bytes give equal hashes (and, when they do not decode, the same
/// error): the hash of an upload depends on its content alone, which is what
/// finding duplicates rests on.
pub proof fn law_same_bytes_same_hash(a: Seq<u8>, b: Seq<u8>)
    requires
        a == b,
    ensures
        decodes_as_image(a) == decodes_as_image(b),
        phash_text(a) == phash_text(b),
        load_error_text(a) == load_error_text(b),
{
}

} // verus!
