//! Folders: their names, their order, and the names of their archives;
//! and what a similarity search by id returns.
use vstd::prelude::*;

use crate::error::DomainError;
use crate::filenames::{trim, trim_chars};
use crate::text::{decimal, decimal_chars, push_chars, push_str, str_chars, string_from_chars};

verus! {

/// Error text of an empty folder name.
pub open spec fn empty_name_message() -> Seq<char> {
    "Folder name cannot be empty"@
}

/// The name a folder is created or renamed with: the request's name, trimmed;
/// a name of white space only is refused.
pub fn folder_name(raw: &str) -> (r: Result<String, DomainError>)
    ensures
        match r {
            Ok(n) => trim(raw@).len() > 0 && n@ == trim(raw@),
            Err(e) => trim(raw@).len() == 0 && match e {
                DomainError::Io(m) => m@ == empty_name_message(),
                _ => false,
            },
        },
{
    let t = trim_chars(&str_chars(raw));
    if t.len() == 0 {
        let mut m = String::new();
        push_str(&mut m, "Folder name cannot be empty");
        Err(DomainError::Io(m))
    } else {
        Ok(string_from_chars(&t))
    }
}

/// Sort positions for folders listed in display order: each id with its index.
pub fn folder_order(ids: &Vec<u128>) -> (order: Vec<(u128, i64)>)
    requires
        ids@.len() <= i64::MAX,
    ensures
        order@.len() == ids@.len(),
        forall|i: int| 0 <= i < ids@.len() ==> #[trigger] order@[i] == (ids@[i], i as i64),
{
    let mut order: Vec<(u128, i64)> = Vec::new();
    let mut i: usize = 0;
    while i < ids.len()
        invariant
            i <= ids@.len(),
            ids@.len() <= i64::MAX,
            order@.len() == i,
            forall|j: int| 0 <= j < i ==> #[trigger] order@[j] == (ids@[j], j as i64),
        decreases ids@.len() - i,
    {
        order.push((ids[i], i as i64));
        i = i + 1;
    }
    order
}

/// Whether `char::is_alphanumeric` holds of `c` (Unicode Alphabetic or Numeric).
pub uninterp spec fn alphanumeric(c: char) -> bool;

/// `char::is_alphanumeric`.
#[verifier::external_body]
fn is_alphanumeric(c: char) -> (b: bool)
    ensures
        b == alphanumeric(c),
{
    c.is_alphanumeric()
}

/// A character kept in an archive name: alphanumeric, `-`, `_` or `.`;
/// any other becomes `_`.
pub open spec fn archive_char(c: char) -> char {
    if alphanumeric(c) || c == '-' || c == '_' || c == '.' {
        c
    } else {
        '_'
    }
}

/// `s` without leading and trailing `_`.
pub open spec fn trim_underscores(s: Seq<char>) -> Seq<char>
    decreases s.len(),
{
    if s.len() > 0 && s[0] == '_' {
        trim_underscores(s.drop_first())
    } else if s.len() > 0 && s.last() == '_' {
        trim_underscores(s.drop_last())
    } else {
        s
    }
}

/// The base name of a folder's archive: its name with unsafe characters made
/// `_`, outer `_` trimmed, `folder` when nothing is left.
pub open spec fn archive_base(name: Seq<char>) -> Seq<char> {
    let t = trim_underscores(name.map_values(|c: char| archive_char(c)));
    if t.len() == 0 {
        "folder"@
    } else {
        t
    }
}

proof fn lemma_trim_underscores_range(s: Seq<char>, lo: int, hi: int)
    requires
        0 <= lo <= hi <= s.len(),
        forall|j: int| 0 <= j < lo ==> s[j] == '_',
        forall|j: int| hi <= j < s.len() ==> s[j] == '_',
        lo < hi ==> s[lo] != '_' && s[hi - 1] != '_',
        lo == hi ==> hi == s.len(),
    ensures
        trim_underscores(s) == s.subrange(lo, hi),
    decreases s.len(),
{
    if s.len() > 0 && s[0] == '_' {
        let t = s.drop_first();
        if lo == hi {
            lemma_trim_underscores_range(t, lo - 1, hi - 1);
            assert(t.subrange(lo - 1, hi - 1) =~= s.subrange(lo, hi));
        } else {
            lemma_trim_underscores_range(t, lo - 1, hi - 1);
            assert(t.subrange(lo - 1, hi - 1) =~= s.subrange(lo, hi));
        }
    } else if s.len() > 0 && s.last() == '_' {
        let t = s.drop_last();
        if lo == hi {
            assert(lo == 0);
            assert(false);
        }
        lemma_trim_underscores_range(t, lo, hi);
        assert(t.subrange(lo, hi) =~= s.subrange(lo, hi));
    } else {
        if lo == hi {
            assert(s.len() == 0);
        }
        assert(s.subrange(lo, hi) =~= s);
    }
}

/// The archive base name for a folder called `name`.
pub fn folder_archive_base(name: &str) -> (r: String)
    ensures
        r@ == archive_base(name@),
{
    let cs = str_chars(name);
    let mut mapped: Vec<char> = Vec::new();
    let mut i: usize = 0;
    while i < cs.len()
        invariant
            i <= cs@.len(),
            mapped@ == cs@.take(i as int).map_values(|c: char| archive_char(c)),
        decreases cs@.len() - i,
    {
        let c = cs[i];
        let keep = is_alphanumeric(c) || c == '-' || c == '_' || c == '.';
        if keep {
            mapped.push(c);
        } else {
            mapped.push('_');
        }
        proof {
            assert(cs@.take(i + 1).map_values(|c: char| archive_char(c)) =~= cs@.take(
                i as int,
            ).map_values(|c: char| archive_char(c)).push(archive_char(c)));
        }
        i = i + 1;
    }
    proof {
        assert(cs@.take(cs@.len() as int) =~= cs@);
    }
    let n = mapped.len();
    let mut lo: usize = 0;
    while lo < n && mapped[lo] == '_'
        invariant
            lo <= n,
            n == mapped@.len(),
            forall|j: int| 0 <= j < lo ==> mapped@[j] == '_',
        decreases n - lo,
    {
        lo = lo + 1;
    }
    let mut hi: usize = n;
    while hi > lo && mapped[hi - 1] == '_'
        invariant
            lo <= hi <= n,
            n == mapped@.len(),
            forall|j: int| hi <= j < n ==> mapped@[j] == '_',
        decreases hi - lo,
    {
        hi = hi - 1;
    }
    proof {
        if lo == hi && hi < n {
            assert(mapped@[lo as int] == '_');
            assert(false);
        }
        lemma_trim_underscores_range(mapped@, lo as int, hi as int);
    }
    if lo == hi {
        let mut f = String::new();
        push_str(&mut f, "folder");
        f
    } else {
        let mut r = String::new();
        let mut k = lo;
        while k < hi
            invariant
                lo <= k <= hi,
                hi <= mapped@.len(),
                r@ == mapped@.subrange(lo as int, k as int),
            decreases hi - k,
        {
            let ghost before = r@;
            let piece: Vec<char> = vec![mapped[k]];
            push_chars(&mut r, &piece);
            proof {
                assert(mapped@.subrange(lo as int, k + 1) =~= before.push(mapped@[k as int]));
            }
            k = k + 1;
        }
        r
    }
}

/// The base name of a batch download of `count` items: `gallerynet_<count>`.
pub fn batch_archive_base(count: usize) -> (r: String)
    ensures
        r@ == "gallerynet_"@ + decimal(count as nat),
{
    let mut r = String::new();
    push_str(&mut r, "gallerynet_");
    let d = decimal_chars(count as u64);
    push_chars(&mut r, &d);
    r
}

/// The positions, in order, of the first `limit` results whose id is not `source`.
pub open spec fn kept_results(ids: Seq<u128>, source: u128, limit: nat) -> Seq<int>
    decreases ids.len(),
{
    if ids.len() == 0 || limit == 0 {
        Seq::empty()
    } else if ids[0] == source {
        kept_results(ids.drop_first(), source, limit).map_values(|i: int| i + 1)
    } else {
        seq![0int] + kept_results(ids.drop_first(), source, (limit - 1) as nat).map_values(
            |i: int| i + 1,
        )
    }
}

/// The results of a search by example that are shown: the item searched
/// with is left out, and at most `limit` remain. Gives their positions.
pub fn results_without_source(ids: &Vec<u128>, source: u128, limit: usize) -> (keep: Vec<usize>)
    ensures
        keep@.map_values(|i: usize| i as int) == kept_results(ids@, source, limit as nat),
{
    let mut keep: Vec<usize> = Vec::new();
    let mut j: usize = 0;
    proof {
        assert(ids@.skip(0) =~= ids@);
    }
    while j < ids.len() && keep.len() < limit
        invariant
            j <= ids@.len(),
            keep@.len() <= limit,
            kept_results(ids@, source, limit as nat) == keep@.map_values(|x: usize| x as int)
                + kept_results(ids@.skip(j as int), source, (limit - keep@.len()) as nat).map_values(
                |x: int| x + j,
            ),
            forall|t: int| 0 <= t < keep@.len() ==> keep@[t] < j,
        decreases ids@.len() - j,
    {
        let ghost before = keep@;
        let ghost s = ids@.skip(j as int);
        let ghost l = (limit - keep@.len()) as nat;
        proof {
            assert(s.drop_first() =~= ids@.skip(j + 1));
            assert(s[0] == ids@[j as int]);
        }
        if ids[j] != source {
            keep.push(j);
            proof {
                let r = kept_results(ids@.skip(j + 1), source, (l - 1) as nat);
                assert(kept_results(s, source, l) == seq![0int] + r.map_values(|x: int| x + 1));
                assert((seq![0int] + r.map_values(|x: int| x + 1)).map_values(|x: int| x + j) =~= seq![
                    j as int,
                ] + r.map_values(|x: int| x + (j + 1)));
                assert(keep@.map_values(|x: usize| x as int) =~= before.map_values(|x: usize| x as int).push(
                    j as int,
                ));
            }
        } else {
            proof {
                let r = kept_results(ids@.skip(j + 1), source, l);
                assert(kept_results(s, source, l) == r.map_values(|x: int| x + 1));
                assert(r.map_values(|x: int| x + 1).map_values(|x: int| x + j) =~= r.map_values(
                    |x: int| x + (j + 1),
                ));
            }
        }
        j = j + 1;
    }
    proof {
        let l = (limit - keep@.len()) as nat;
        let s = ids@.skip(j as int);
        if j == ids@.len() {
            assert(s.len() == 0);
        }
        assert(kept_results(s, source, l) =~= Seq::<int>::empty());
        assert(kept_results(s, source, l).map_values(|x: int| x + j) =~= Seq::<int>::empty());
        assert(keep@.map_values(|x: usize| x as int) + Seq::<int>::empty() =~= keep@.map_values(
            |x: usize| x as int,
        ));
    }
    keep
}

} // verus!
