//! Planning of multi-file downloads: duplicate requests folded, archives split
//! so that no part grows past the size limit, and the names of the parts.
use vstd::prelude::*;
use std::collections::HashSet;

use crate::error::DomainError;
use crate::filenames::{sanitize_filename, sanitized_filename};
use crate::text::{decimal, decimal_chars, push_chars, push_str};

verus! {

broadcast use vstd::std_specs::hash::group_hash_axioms;

/// Maximum uncompressed size per zip archive part (~2 GB). When the total
/// exceeds this, files are split into roughly equal-sized archives.
pub const MAX_ZIP_BYTES: u64 = 2 * 1024 * 1024 * 1024;

/// The elements of `s` in order of their first occurrence, each once.
pub open spec fn first_occurrences(s: Seq<u128>) -> Seq<u128>
    decreases s.len(),
{
    if s.len() == 0 {
        Seq::empty()
    } else if s.drop_last().contains(s.last()) {
        first_occurrences(s.drop_last())
    } else {
        first_occurrences(s.drop_last()).push(s.last())
    }
}

proof fn lemma_first_occurrences_contains(s: Seq<u128>, x: u128)
    ensures
        first_occurrences(s).contains(x) <==> s.contains(x),
    decreases s.len(),
{
    if s.len() > 0 {
        let t = s.drop_last();
        lemma_first_occurrences_contains(t, x);
        if t.contains(x) {
            let j = choose|j: int| 0 <= j < t.len() && t[j] == x;
            assert(s[j] == x);
        }
        if s.contains(x) && x != s.last() {
            let j = choose|j: int| 0 <= j < s.len() && s[j] == x;
            assert(t[j] == x);
        }
        if !t.contains(s.last()) {
            let f = first_occurrences(t);
            assert(f.push(s.last())[f.len() as int] == s.last());
            if f.contains(x) {
                let j = choose|j: int| 0 <= j < f.len() && f[j] == x;
                assert(f.push(s.last())[j] == x);
            }
            if f.push(s.last()).contains(x) && x != s.last() {
                let j = choose|j: int| 0 <= j < f.len() + 1 && f.push(s.last())[j] == x;
                assert(f[j] == x);
            }
        }
    }
}

/// Requested ids with repetitions removed; the first request of each id keeps its place.
pub fn dedup_ids(ids: &Vec<u128>) -> (res: Vec<u128>)
    ensures
        res@ == first_occurrences(ids@),
{
    let mut seen: HashSet<u128> = HashSet::new();
    let mut res: Vec<u128> = Vec::new();
    let mut i: usize = 0;
    while i < ids.len()
        invariant
            i <= ids@.len(),
            res@ == first_occurrences(ids@.take(i as int)),
            forall|x: u128| #[trigger] seen@.contains(x) <==> ids@.take(i as int).contains(x),
        decreases ids@.len() - i,
    {
        let id = ids[i];
        let fresh = seen.insert(id);
        proof {
            let t = ids@.take(i as int);
            let t1 = ids@.take(i + 1);
            assert(t1.drop_last() =~= t);
            assert(t1.last() == id);
            assert forall|x: u128| #[trigger] seen@.contains(x) <==> t1.contains(x) by {
                if t.contains(x) {
                    let j = choose|j: int| 0 <= j < t.len() && t[j] == x;
                    assert(t1[j] == x);
                }
                if t1.contains(x) && x != id {
                    let j = choose|j: int| 0 <= j < t1.len() && t1[j] == x;
                    assert(t[j] == x);
                }
                assert(t1[i as int] == id);
            }
        }
        if fresh {
            res.push(id);
        }
        i = i + 1;
    }
    proof {
        assert(ids@.take(ids@.len() as int) =~= ids@);
    }
    res
}

/// Sum of `sizes[a..b]`.
pub open spec fn sum_range(sizes: Seq<u64>, a: int, b: int) -> int
    decreases b - a,
{
    if b <= a {
        0
    } else {
        sum_range(sizes, a, b - 1) + sizes[b - 1]
    }
}

/// One archive part: the files `start..end` of the request, `size` bytes in all.
pub struct PartSpan {
    pub start: usize,
    pub end: usize,
    pub size: u64,
}

/// `parts` split the files `0..sizes.len()` into consecutive runs, filling each
/// part while the next file still fits under `MAX_ZIP_BYTES` (a file larger than
/// the limit gets a part of its own).
pub open spec fn is_greedy_split(sizes: Seq<u64>, parts: Seq<PartSpan>) -> bool {
    &&& sizes.len() == 0 <==> parts.len() == 0
    &&& parts.len() > 0 ==> parts[0].start == 0 && parts.last().end == sizes.len()
    &&& forall|j: int| 0 <= j < parts.len() ==> #[trigger] parts[j].start < parts[j].end
    &&& forall|j: int| 0 <= j < parts.len() - 1 ==> #[trigger] parts[j].end == parts[j + 1].start
    &&& forall|j: int|
        0 <= j < parts.len() ==> #[trigger] parts[j].size as int == sum_range(
            sizes,
            parts[j].start as int,
            parts[j].end as int,
        )
    &&& forall|j: int|
        0 <= j < parts.len() ==> parts[j].end - parts[j].start == 1 || #[trigger] parts[j].size
            <= MAX_ZIP_BYTES
    &&& forall|j: int|
        0 <= j < parts.len() - 1 ==> #[trigger] parts[j].size + sizes[parts[j].end as int]
            > MAX_ZIP_BYTES
}

/// Split files of the given sizes into archive parts.
#[verifier::rlimit(50)]
pub fn split_into_parts(sizes: &Vec<u64>) -> (parts: Vec<PartSpan>)
    ensures
        is_greedy_split(sizes@, parts@),
{
    let mut parts: Vec<PartSpan> = Vec::new();
    let mut start: usize = 0;
    let mut current: u64 = 0;
    let mut i: usize = 0;
    while i < sizes.len()
        invariant
            i <= sizes@.len(),
            start <= i,
            current as int == sum_range(sizes@, start as int, i as int),
            start == i ==> current == 0,
            i - start > 1 ==> current <= MAX_ZIP_BYTES,
            i > 0 ==> start < i,
            parts@.len() == 0 <==> start == 0,
            parts@.len() > 0 ==> parts@[0].start == 0 && parts@.last().end == start,
            forall|j: int| 0 <= j < parts@.len() ==> #[trigger] parts@[j].start < parts@[j].end,
            forall|j: int|
                0 <= j < parts@.len() - 1 ==> #[trigger] parts@[j].end == parts@[j + 1].start,
            forall|j: int|
                0 <= j < parts@.len() ==> #[trigger] parts@[j].size as int == sum_range(
                    sizes@,
                    parts@[j].start as int,
                    parts@[j].end as int,
                ),
            forall|j: int|
                0 <= j < parts@.len() ==> parts@[j].end - parts@[j].start == 1
                    || #[trigger] parts@[j].size <= MAX_ZIP_BYTES,
            forall|j: int|
                0 <= j < parts@.len() - 1 ==> #[trigger] parts@[j].size + sizes@[parts@[j].end as int]
                    > MAX_ZIP_BYTES,
            parts@.len() > 0 ==> parts@.last().size + sizes@[start as int] > MAX_ZIP_BYTES
                || start == i,
        decreases sizes@.len() - i,
    {
        let size = sizes[i];
        if start < i && (current > MAX_ZIP_BYTES || size > MAX_ZIP_BYTES - current) {
            let ghost old_parts = parts@;
            parts.push(PartSpan { start, end: i, size: current });
            proof {
                assert forall|j: int| 0 <= j < parts@.len() - 1 implies #[trigger] parts@[j].size
                    + sizes@[parts@[j].end as int] > MAX_ZIP_BYTES by {
                    if j < old_parts.len() - 1 {
                        assert(parts@[j] == old_parts[j]);
                    } else {
                        assert(parts@[j] == old_parts.last());
                    }
                }
            }
            start = i;
            current = 0;
        }
        proof {
            assert(sum_range(sizes@, start as int, i + 1) == sum_range(sizes@, start as int, i as int)
                + sizes@[i as int]);
        }
        current = current + size;
        i = i + 1;
    }
    if start < i {
        let ghost old_parts = parts@;
        parts.push(PartSpan { start, end: i, size: current });
        proof {
            assert forall|j: int| 0 <= j < parts@.len() - 1 implies #[trigger] parts@[j].size
                + sizes@[parts@[j].end as int] > MAX_ZIP_BYTES by {
                if j < old_parts.len() - 1 {
                    assert(parts@[j] == old_parts[j]);
                } else {
                    assert(parts@[j] == old_parts.last());
                }
            }
        }
    }
    parts
}

/// File name of part `part_no` (counted from 1) of a download: `base_ts.zip`
/// when the download has a single part, `base_partN_ts.zip` otherwise.
pub open spec fn part_file_name(base: Seq<char>, part_no: nat, single: bool, timestamp: Seq<char>) -> Seq<
    char,
> {
    if single {
        base + "_"@ + timestamp + ".zip"@
    } else {
        base + "_part"@ + decimal(part_no) + "_"@ + timestamp + ".zip"@
    }
}

/// Name of a download part; see `part_file_name`.
pub fn part_filename(base: &str, part_no: u64, single: bool, timestamp: &str) -> (res: String)
    ensures
        res@ == part_file_name(base@, part_no as nat, single, timestamp@),
{
    let mut s = String::new();
    push_str(&mut s, base);
    if single {
        push_str(&mut s, "_");
    } else {
        push_str(&mut s, "_part");
        let digits = decimal_chars(part_no);
        push_chars(&mut s, &digits);
        push_str(&mut s, "_");
    }
    push_str(&mut s, timestamp);
    push_str(&mut s, ".zip");
    proof {
        if single {
            assert(s@ =~= base@ + "_"@ + timestamp@ + ".zip"@);
        } else {
            assert(s@ =~= base@ + "_part"@ + decimal(part_no as nat) + "_"@ + timestamp@ + ".zip"@);
        }
    }
    s
}

/// A planned archive part: which files it holds and the name it is served under.
pub struct PlannedPart {
    pub span: PartSpan,
    pub filename: String,
}

/// The parts of a download of files with sizes `sizes`, named after `base`
/// and the plan's `timestamp`: a greedy split, parts numbered from 1, and
/// a download of a single part named without a number.
pub fn plan_download(sizes: &Vec<u64>, base: &str, timestamp: &str) -> (plan: Vec<PlannedPart>)
    ensures
        is_greedy_split(sizes@, plan@.map_values(|p: PlannedPart| p.span)),
        forall|k: int|
            0 <= k < plan@.len() ==> #[trigger] plan@[k].filename@ == part_file_name(
                base@,
                (k + 1) as nat,
                plan@.len() == 1,
                timestamp@,
            ),
{
    let spans = split_into_parts(sizes);
    let n = spans.len();
    let mut plan: Vec<PlannedPart> = Vec::new();
    let mut k: usize = 0;
    while k < n
        invariant
            k <= n,
            n == spans@.len(),
            plan@.len() == k,
            forall|j: int| 0 <= j < k ==> #[trigger] plan@[j].span == spans@[j],
            forall|j: int|
                0 <= j < k ==> #[trigger] plan@[j].filename@ == part_file_name(
                    base@,
                    (j + 1) as nat,
                    n == 1,
                    timestamp@,
                ),
        decreases n - k,
    {
        let s = &spans[k];
        let name = part_filename(base, (k + 1) as u64, n == 1, timestamp);
        plan.push(PlannedPart { span: PartSpan { start: s.start, end: s.end, size: s.size }, filename: name });
        k = k + 1;
    }
    proof {
        assert(plan@.map_values(|p: PlannedPart| p.span) =~= spans@);
    }
    plan
}

/// `attachment; filename="<name>"`.
pub open spec fn attachment_disposition(name: Seq<char>) -> Seq<char> {
    "attachment; filename=\""@ + name + "\""@
}

/// The `Content-Disposition` value that offers `name` as a download.
pub fn attachment_header(name: &str) -> (h: String)
    ensures
        h@ == attachment_disposition(name@),
{
    let mut h = String::new();
    push_str(&mut h, "attachment; filename=\"");
    push_str(&mut h, name);
    push_str(&mut h, "\"");
    h
}

/// `No files requested`.
pub open spec fn nothing_requested_message() -> Seq<char> {
    "No files requested"@
}

/// A download request must name at least one file.
pub fn check_requested(count: usize) -> (r: Result<(), DomainError>)
    ensures
        count > 0 <==> r is Ok,
        match r {
            Err(DomainError::Io(m)) => m@ == nothing_requested_message(),
            Err(_) => false,
            Ok(_) => true,
        },
{
    if count == 0 {
        let mut m = String::new();
        push_str(&mut m, "No files requested");
        return Err(DomainError::Io(m));
    }
    Ok(())
}

/// The MIME type `mime_guess` gives a file name (from its extension;
/// `application/octet-stream` when unknown).
pub uninterp spec fn guessed_mime(path: Seq<char>) -> Seq<char>;

/// `mime_guess::from_path(path).first_or_octet_stream()`, as text.
#[verifier::external_body]
fn mime_for_path(path: &str) -> (m: String)
    ensures
        m@ == guessed_mime(path@),
{
    mime_guess::from_path(path).first_or_octet_stream().to_string()
}

/// Headers of a single file served as a download.
pub struct FileHeaders {
    pub content_type: String,
    pub content_disposition: String,
    pub content_length: String,
}

/// The headers for downloading one file, uploaded as `original_filename`,
/// of `size` bytes: its guessed type, its sanitized name, its length.
pub fn single_file_headers(original_filename: &str, size: u64) -> (h: FileHeaders)
    ensures
        h.content_type@ == guessed_mime(original_filename@),
        h.content_disposition@ == attachment_disposition(sanitized_filename(original_filename@)),
        h.content_length@ == decimal(size as nat),
{
    let content_type = mime_for_path(original_filename);
    let safe = sanitize_filename(original_filename);
    let content_disposition = attachment_header(safe.as_str());
    let mut content_length = String::new();
    push_chars(&mut content_length, &decimal_chars(size));
    FileHeaders { content_type, content_disposition, content_length }
}

proof fn lemma_first_occurrences_distinct(s: Seq<u128>)
    ensures
        forall|i: int, j: int|
            0 <= i < j < first_occurrences(s).len() ==> first_occurrences(s)[i] != first_occurrences(
                s,
            )[j],
    decreases s.len(),
{
    if s.len() > 0 {
        let t = s.drop_last();
        lemma_first_occurrences_distinct(t);
        lemma_first_occurrences_contains(t, s.last());
        let f = first_occurrences(t);
        if !t.contains(s.last()) {
            let g = f.push(s.last());
            assert forall|i: int, j: int| 0 <= i < j < g.len() implies g[i] != g[j] by {
                if j == f.len() {
                    assert(g[i] == f[i]);
                    assert(f.contains(f[i]));
                } else {
                    assert(g[i] == f[i] && g[j] == f[j]);
                }
            }
        }
    }
}

/// Folding repeated ids keeps every requested id exactly once, each in the
/// place of its first request.
pub proof fn law_dedup_keeps_each_once(ids: Seq<u128>)
    ensures
        forall|x: u128| first_occurrences(ids).contains(x) <==> ids.contains(x),
        forall|i: int, j: int|
            0 <= i < j < first_occurrences(ids).len() ==> first_occurrences(ids)[i]
                != first_occurrences(ids)[j],
{
    assert forall|x: u128| first_occurrences(ids).contains(x) <==> ids.contains(x) by {
        lemma_first_occurrences_contains(ids, x);
    }
    lemma_first_occurrences_distinct(ids);
}

} // verus!
