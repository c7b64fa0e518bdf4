//! What an upload is allowed to be, and where its files go.
use vstd::prelude::*;

use crate::auth::hex_digit_lower;
use crate::error::DomainError;
use crate::filenames::{chars_eq, last_dot, last_dot_exec};
use crate::text::{
    char_views, chars_range, decimal, decimal_chars, push_chars, push_str, split_chars, split_on,
    str_chars, string_from_chars,
};

verus! {

/// Allowed file extensions for upload (images + videos).
pub const ALLOWED_EXTENSIONS: [&'static str; 16] = [
    "jpg",
    "jpeg",
    "png",
    "gif",
    "webp",
    "bmp",
    "tiff",
    "tif",
    "heic",
    "heif",
    "avif",
    "mp4",
    "mov",
    "avi",
    "mkv",
    "webm",
];

/// Video file extensions.
pub const VIDEO_EXTENSIONS: [&'static str; 5] = ["mp4", "mov", "avi", "mkv", "webm"];

/// The allowed extensions as character sequences.
pub open spec fn allowed_extensions() -> Seq<Seq<char>> {
    seq![
        "jpg"@,
        "jpeg"@,
        "png"@,
        "gif"@,
        "webp"@,
        "bmp"@,
        "tiff"@,
        "tif"@,
        "heic"@,
        "heif"@,
        "avif"@,
        "mp4"@,
        "mov"@,
        "avi"@,
        "mkv"@,
        "webm"@,
    ]
}

/// The video extensions as character sequences.
pub open spec fn video_extensions() -> Seq<Seq<char>> {
    seq!["mp4"@, "mov"@, "avi"@, "mkv"@, "webm"@]
}

/// What `str::to_lowercase` makes of `s` (Unicode lower-case mapping).
pub uninterp spec fn lowercase(s: Seq<char>) -> Seq<char>;

/// `str::to_lowercase`.
#[verifier::external_body]
fn to_lowercase(s: &str) -> (r: String)
    ensures
        r@ == lowercase(s@),
{
    s.to_lowercase()
}

/// The last component of a path split at `/`: empty pieces and `.` are not
/// components.
pub open spec fn last_component(pieces: Seq<Seq<char>>) -> Option<Seq<char>>
    decreases pieces.len(),
{
    if pieces.len() == 0 {
        None
    } else if pieces.last().len() == 0 || pieces.last() == "."@ {
        last_component(pieces.drop_last())
    } else {
        Some(pieces.last())
    }
}

/// `Path::file_name`: the last component, unless it is `..`.
pub open spec fn path_file_name(path: Seq<char>) -> Option<Seq<char>> {
    match last_component(split_on(path, '/')) {
        Some(c) => if c == ".."@ {
            None
        } else {
            Some(c)
        },
        None => None,
    }
}

/// `Path::extension`: what follows the last `.` of the file name, when that
/// `.` is not its first character.
pub open spec fn path_extension(path: Seq<char>) -> Option<Seq<char>> {
    match path_file_name(path) {
        Some(name) => {
            let d = last_dot(name);
            if d < name.len() && d > 0 {
                Some(name.subrange(d + 1, name.len() as int))
            } else {
                None
            }
        },
        None => None,
    }
}

/// The extension an upload is filed under: the path's extension (or `bin`),
/// lower-cased.
pub open spec fn upload_extension(filename: Seq<char>) -> Seq<char> {
    lowercase(
        match path_extension(filename) {
            Some(e) => e,
            None => "bin"@,
        },
    )
}

/// The message that refuses an extension.
pub open spec fn refused_type_message(ext: Seq<char>) -> Seq<char> {
    "File type not allowed: ."@ + ext
}

fn literal(s: &str) -> (r: Vec<char>)
    ensures
        r@ == s@,
{
    str_chars(s)
}

fn is_dot_or_empty(p: &Vec<char>) -> (r: bool)
    ensures
        r == (p@.len() == 0 || p@ == "."@),
{
    let dot = literal(".");
    p.len() == 0 || chars_eq(p, &dot)
}

fn path_extension_exec(path: &str) -> (r: Option<Vec<char>>)
    ensures
        match r {
            Some(e) => path_extension(path@) == Some(e@),
            None => path_extension(path@) is None,
        },
{
    let cs = str_chars(path);
    let pieces = split_chars(&cs, '/');
    let ghost all = char_views(pieces@);
    let mut k: usize = pieces.len();
    proof {
        assert(all.take(k as int) =~= all);
    }
    while k > 0 && is_dot_or_empty(&pieces[k - 1])
        invariant
            k <= pieces@.len(),
            all == char_views(pieces@),
            all == split_on(path@, '/'),
            last_component(all) == last_component(all.take(k as int)),
        decreases k,
    {
        proof {
            assert(all.take(k as int).drop_last() =~= all.take(k - 1));
            assert(all.take(k as int).last() == pieces@[k - 1]@);
        }
        k = k - 1;
    }
    if k == 0 {
        proof {
            assert(all.take(0) =~= Seq::<Seq<char>>::empty());
        }
        return None;
    }
    proof {
        assert(all.take(k as int).last() == pieces@[k - 1]@);
    }
    let name = &pieces[k - 1];
    let dotdot = literal("..");
    if chars_eq(name, &dotdot) {
        return None;
    }
    let d = last_dot_exec(name);
    if d < name.len() && d > 0 {
        Some(chars_range(name, d + 1, name.len()))
    } else {
        None
    }
}

/// The lower-cased extension of an uploaded file's name (`bin` when it has none).
pub fn file_extension(filename: &str) -> (ext: String)
    ensures
        ext@ == upload_extension(filename@),
{
    let raw = match path_extension_exec(filename) {
        Some(e) => string_from_chars(&e),
        None => {
            let mut b = String::new();
            push_str(&mut b, "bin");
            b
        },
    };
    to_lowercase(raw.as_str())
}

fn in_list(ext: &Vec<char>, list: &[&str]) -> (r: bool)
    ensures
        r == list@.map_values(|s: &str| s@).contains(ext@),
{
    let ghost views = list@.map_values(|s: &str| s@);
    let mut i: usize = 0;
    while i < list.len()
        invariant
            i <= list@.len(),
            views == list@.map_values(|s: &str| s@),
            forall|j: int| 0 <= j < i ==> views[j] != ext@,
        decreases list@.len() - i,
    {
        let item = str_chars(list[i]);
        if chars_eq(&item, ext) {
            proof {
                assert(views[i as int] == ext@);
            }
            return true;
        }
        i = i + 1;
    }
    false
}

/// Whether `ext` is one of the allowed upload extensions.
pub fn is_allowed_extension(ext: &str) -> (r: bool)
    ensures
        r == allowed_extensions().contains(ext@),
{
    let list = ALLOWED_EXTENSIONS;
    proof {
        assert(list@.map_values(|s: &str| s@) =~= allowed_extensions());
    }
    in_list(&str_chars(ext), &list)
}

/// Whether `ext` is a video extension.
pub fn is_video_extension(ext: &str) -> (r: bool)
    ensures
        r == video_extensions().contains(ext@),
{
    let list = VIDEO_EXTENSIONS;
    proof {
        assert(list@.map_values(|s: &str| s@) =~= video_extensions());
    }
    in_list(&str_chars(ext), &list)
}

/// The extension under which an upload is stored, or the error that refuses it.
pub fn check_upload(filename: &str) -> (r: Result<String, DomainError>)
    ensures
        match r {
            Ok(ext) => ext@ == upload_extension(filename@) && allowed_extensions().contains(ext@),
            Err(e) => !allowed_extensions().contains(upload_extension(filename@)) && match e {
                DomainError::Io(msg) => msg@ == refused_type_message(upload_extension(filename@)),
                _ => false,
            },
        },
{
    let ext = file_extension(filename);
    if is_allowed_extension(ext.as_str()) {
        Ok(ext)
    } else {
        let mut msg = String::new();
        push_str(&mut msg, "File type not allowed: .");
        push_str(&mut msg, ext.as_str());
        Err(DomainError::Io(msg))
    }
}

/// `video` for a video extension, `image` otherwise.
pub open spec fn media_type_of(ext: Seq<char>) -> Seq<char> {
    if video_extensions().contains(ext) {
        "video"@
    } else {
        "image"@
    }
}

/// The media type stored for an upload with extension `ext`.
pub fn media_type(ext: &str) -> (t: String)
    ensures
        t@ == media_type_of(ext@),
{
    let mut t = String::new();
    if is_video_extension(ext) {
        push_str(&mut t, "video");
    } else {
        push_str(&mut t, "image");
    }
    t
}

/// Hex digit `k` (0 = most significant) of a 128-bit id.
pub open spec fn id_nibble(id: u128, k: int) -> nat {
    ((id as nat / vstd::arithmetic::power::pow(16, (31 - k) as nat) as nat) % 16) as nat
}

/// The 32 lower-case hex digits of an id, most significant first.
pub open spec fn id_hex(id: u128) -> Seq<char> {
    Seq::new(32, |k: int| hex_digit_lower(id_nibble(id, k)))
}

/// Hyphenated lower-case text of an id (8-4-4-4-12 hex digits).
pub open spec fn id_text(id: u128) -> Seq<char> {
    let h = id_hex(id);
    h.subrange(0, 8) + "-"@ + h.subrange(8, 12) + "-"@ + h.subrange(12, 16) + "-"@ + h.subrange(16, 20)
        + "-"@ + h.subrange(20, 32)
}

/// `uuid::Uuid::from_u128(id).to_string()`: the hyphenated lower-case form.
#[verifier::external_body]
pub(crate) fn uuid_text(id: u128) -> (s: String)
    ensures
        s@ == id_text(id),
{
    uuid::Uuid::from_u128(id).to_string()
}

/// Where an upload's files go.
pub struct StoredNames {
    /// First directory level: the first two hex digits of the id.
    pub dir1: String,
    /// Second directory level: the next two hex digits.
    pub dir2: String,
    /// `<id>.<ext>`.
    pub file_name: String,
    /// `<dir1>/<dir2>/<id>.<ext>`, relative to the storage root.
    pub stored_path: String,
    /// `<id>.jpg`, in the same two directories under the thumbnail root.
    pub thumbnail_name: String,
}

/// The storage names of an upload with id `id` and extension `ext`.
pub fn stored_names(id: u128, ext: &str) -> (n: StoredNames)
    ensures
        n.dir1@ == id_text(id).subrange(0, 2),
        n.dir2@ == id_text(id).subrange(2, 4),
        n.file_name@ == id_text(id) + "."@ + ext@,
        n.stored_path@ == id_text(id).subrange(0, 2) + "/"@ + id_text(id).subrange(2, 4) + "/"@
            + id_text(id) + "."@ + ext@,
        n.thumbnail_name@ == id_text(id) + ".jpg"@,
{
    let text = uuid_text(id);
    let cs = str_chars(text.as_str());
    proof {
        reveal_strlit("-");
        assert(id_text(id).len() == 36);
    }
    let d1 = chars_range(&cs, 0, 2);
    let d2 = chars_range(&cs, 2, 4);
    let mut file_name = String::new();
    push_str(&mut file_name, text.as_str());
    push_str(&mut file_name, ".");
    push_str(&mut file_name, ext);
    let mut stored_path = String::new();
    push_chars(&mut stored_path, &d1);
    push_str(&mut stored_path, "/");
    push_chars(&mut stored_path, &d2);
    push_str(&mut stored_path, "/");
    push_str(&mut stored_path, file_name.as_str());
    let mut thumbnail_name = String::new();
    push_str(&mut thumbnail_name, text.as_str());
    push_str(&mut thumbnail_name, ".jpg");
    proof {
        assert(file_name@ =~= id_text(id) + "."@ + ext@);
        assert(stored_path@ =~= id_text(id).subrange(0, 2) + "/"@ + id_text(id).subrange(2, 4) + "/"@
            + id_text(id) + "."@ + ext@);
    }
    StoredNames {
        dir1: string_from_chars(&d1),
        dir2: string_from_chars(&d2),
        file_name,
        stored_path,
        thumbnail_name,
    }
}

/// Whether an upload's perceptual hash is looked up among existing media:
/// `no_hash` (nothing could be hashed) never counts as a duplicate.
pub fn checks_for_duplicates(phash: &str) -> (r: bool)
    ensures
        r == (phash@ != "no_hash"@),
{
    !chars_eq(&str_chars(phash), &literal("no_hash"))
}

/// Maximum number of files accepted in a single upload request.
pub const MAX_UPLOAD_FILES: usize = 1_000;

/// `Too many files in upload (max 1000)`.
pub open spec fn too_many_files_message() -> Seq<char> {
    "Too many files in upload (max "@ + decimal(MAX_UPLOAD_FILES as nat) + ")"@
}

/// `No file uploaded`.
pub open spec fn no_file_message() -> Seq<char> {
    "No file uploaded"@
}

/// Whether another file may join an upload that already holds `pending`
/// files; the error refuses the whole request.
pub fn admit_upload_file(pending: usize) -> (r: Result<(), DomainError>)
    ensures
        pending < MAX_UPLOAD_FILES <==> r is Ok,
        match r {
            Err(DomainError::Io(m)) => m@ == too_many_files_message(),
            Err(_) => false,
            Ok(_) => true,
        },
{
    if pending >= MAX_UPLOAD_FILES {
        let mut m = String::new();
        push_str(&mut m, "Too many files in upload (max ");
        push_chars(&mut m, &decimal_chars(MAX_UPLOAD_FILES as u64));
        push_str(&mut m, ")");
        proof {
            assert(m@ =~= too_many_files_message());
        }
        return Err(DomainError::Io(m));
    }
    Ok(())
}

/// How an upload of `count` files is answered: none is an error; a single
/// file is answered with its media item (`Ok(true)`), several with a list of
/// per-file results (`Ok(false)`).
pub fn upload_answer_shape(count: usize) -> (r: Result<bool, DomainError>)
    ensures
        count == 0 <==> r is Err,
        match r {
            Ok(single) => single == (count == 1),
            Err(DomainError::Io(m)) => m@ == no_file_message(),
            Err(_) => false,
        },
{
    if count == 0 {
        let mut m = String::new();
        push_str(&mut m, "No file uploaded");
        return Err(DomainError::Io(m));
    }
    Ok(count == 1)
}

/// The date a file is filed under: the capture date from its EXIF block, else
/// the date in its file name, else the time of the upload. Dates are
/// `(seconds, nanoseconds)` since the epoch.
pub fn upload_date(exif: Option<(i64, u32)>, from_name: Option<(i64, u32)>, now: (i64, u32)) -> (r: (
    i64,
    u32,
))
    ensures
        r == (match exif {
            Some(d) => d,
            None => match from_name {
                Some(d) => d,
                None => now,
            },
        }),
{
    match exif {
        Some(d) => d,
        None => match from_name {
            Some(d) => d,
            None => now,
        },
    }
}

/// An upload is stored as a video exactly when its extension is one of
/// mp4, mov, avi, mkv and webm, and as an image otherwise.
pub proof fn law_media_type_of_extension(ext: Seq<char>)
    ensures
        (ext == "mp4"@ || ext == "mov"@ || ext == "avi"@ || ext == "mkv"@ || ext == "webm"@)
            ==> media_type_of(ext) == "video"@,
        !(ext == "mp4"@ || ext == "mov"@ || ext == "avi"@ || ext == "mkv"@ || ext == "webm"@)
            ==> media_type_of(ext) == "image"@,
{
    let v = video_extensions();
    assert(v[0] == "mp4"@ && v[1] == "mov"@ && v[2] == "avi"@ && v[3] == "mkv"@ && v[4] == "webm"@);
    if v.contains(ext) {
        let i = choose|i: int| 0 <= i < v.len() && v[i] == ext;
        assert(i == 0 || i == 1 || i == 2 || i == 3 || i == 4);
    }
    if ext == "mp4"@ {
        assert(v.contains(ext)) by { assert(v[0] == ext); }
    } else if ext == "mov"@ {
        assert(v.contains(ext)) by { assert(v[1] == ext); }
    } else if ext == "avi"@ {
        assert(v.contains(ext)) by { assert(v[2] == ext); }
    } else if ext == "mkv"@ {
        assert(v.contains(ext)) by { assert(v[3] == ext); }
    } else if ext == "webm"@ {
        assert(v.contains(ext)) by { assert(v[4] == ext); }
    }
}

} // verus!
