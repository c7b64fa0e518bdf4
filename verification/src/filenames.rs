//! Names handed to browsers and archives: sanitized download names and the
//! de-duplicated entry names inside a zip archive.
use vstd::prelude::*;

use crate::text::{chars_range, decimal, decimal_chars, digit_char, str_chars, string_from_chars};

verus! {

/// Unicode general category Cc (control codes), as `char::is_control` tests it.
pub open spec fn is_control_char(c: char) -> bool {
    (c as u32) <= 0x1F || (0x7F <= (c as u32) && (c as u32) <= 0x9F)
}

/// The Unicode `White_Space` property, as `char::is_whitespace` and `str::trim` test it.
pub open spec fn is_white_space(c: char) -> bool {
    let u = c as u32;
    (0x09 <= u && u <= 0x0D) || u == 0x20 || u == 0x85 || u == 0xA0 || u == 0x1680 || (0x2000 <= u
        && u <= 0x200A) || u == 0x2028 || u == 0x2029 || u == 0x202F || u == 0x205F || u == 0x3000
}

pub fn is_control_exec(c: char) -> (b: bool)
    ensures
        b == is_control_char(c),
{
    let u = c as u32;
    u <= 0x1F || (0x7F <= u && u <= 0x9F)
}

pub fn is_white_space_exec(c: char) -> (b: bool)
    ensures
        b == is_white_space(c),
{
    let u = c as u32;
    (0x09 <= u && u <= 0x0D) || u == 0x20 || u == 0x85 || u == 0xA0 || u == 0x1680 || (0x2000 <= u
        && u <= 0x200A) || u == 0x2028 || u == 0x2029 || u == 0x202F || u == 0x205F || u == 0x3000
}

/// `s` without leading white space.
pub open spec fn trim_start(s: Seq<char>) -> Seq<char>
    decreases s.len(),
{
    if s.len() > 0 && is_white_space(s[0]) {
        trim_start(s.drop_first())
    } else {
        s
    }
}

/// `s` without trailing white space.
pub open spec fn trim_end(s: Seq<char>) -> Seq<char>
    decreases s.len(),
{
    if s.len() > 0 && is_white_space(s.last()) {
        trim_end(s.drop_last())
    } else {
        s
    }
}

/// `s` without leading and trailing white space (`str::trim`).
pub open spec fn trim(s: Seq<char>) -> Seq<char> {
    trim_end(trim_start(s))
}

proof fn lemma_trim_start_skip(s: Seq<char>, i: int)
    requires
        0 <= i <= s.len(),
        forall|j: int| 0 <= j < i ==> is_white_space(#[trigger] s[j]),
    ensures
        trim_start(s) == trim_start(s.subrange(i, s.len() as int)),
    decreases i,
{
    if i > 0 {
        let t = s.drop_first();
        lemma_trim_start_skip(t, i - 1);
        assert(t.subrange(i - 1, t.len() as int) =~= s.subrange(i, s.len() as int));
    } else {
        assert(s.subrange(0, s.len() as int) =~= s);
    }
}

proof fn lemma_trim_end_skip(s: Seq<char>, i: int)
    requires
        0 <= i <= s.len(),
        forall|j: int| i <= j < s.len() ==> is_white_space(#[trigger] s[j]),
    ensures
        trim_end(s) == trim_end(s.subrange(0, i)),
    decreases s.len() - i,
{
    if i < s.len() {
        let t = s.drop_last();
        lemma_trim_end_skip(t, i);
        assert(t.subrange(0, i) =~= s.subrange(0, i));
    } else {
        assert(s.subrange(0, i) =~= s);
    }
}

/// Characters of `s` with leading and trailing white space removed.
pub fn trim_chars(s: &Vec<char>) -> (res: Vec<char>)
    ensures
        res@ == trim(s@),
{
    let n = s.len();
    let mut lo: usize = 0;
    while lo < n && is_white_space_exec(s[lo])
        invariant
            lo <= n,
            n == s@.len(),
            forall|j: int| 0 <= j < lo ==> is_white_space(#[trigger] s@[j]),
        decreases n - lo,
    {
        lo = lo + 1;
    }
    proof {
        lemma_trim_start_skip(s@, lo as int);
    }
    let mut hi: usize = n;
    while hi > lo && is_white_space_exec(s[hi - 1])
        invariant
            lo <= hi <= n,
            n == s@.len(),
            forall|j: int| hi <= j < n ==> is_white_space(#[trigger] s@[j]),
        decreases hi - lo,
    {
        hi = hi - 1;
    }
    let res = chars_range(s, lo, hi);
    proof {
        let t = s@.subrange(lo as int, n as int);
        assert(trim_start(t) == t);
        assert forall|j: int| hi - lo <= j < t.len() implies is_white_space(#[trigger] t[j]) by {
            assert(t[j] == s@[lo + j]);
        }
        lemma_trim_end_skip(t, hi - lo);
        assert(t.subrange(0, hi - lo) =~= s@.subrange(lo as int, hi as int));
        let u = s@.subrange(lo as int, hi as int);
        if u.len() > 0 {
            assert(u.last() == s@[hi - 1]);
        }
        assert(trim_end(u) == u);
    }
    res
}

/// A character that may stay in a download name.
pub open spec fn keeps_in_filename(c: char) -> bool {
    !is_control_char(c) && c != '/' && c != '\\' && c != '"' && c != '\'' && c != '\0'
}

/// The characters of `s` that may stay in a download name, in order.
pub open spec fn filename_chars(s: Seq<char>) -> Seq<char>
    decreases s.len(),
{
    if s.len() == 0 {
        Seq::empty()
    } else if keeps_in_filename(s.last()) {
        filename_chars(s.drop_last()).push(s.last())
    } else {
        filename_chars(s.drop_last())
    }
}

/// Download name for `name`: path separators, control characters and quotes
/// removed, surrounding white space trimmed, `download` when nothing is left.
pub open spec fn sanitized_filename(name: Seq<char>) -> Seq<char> {
    let t = trim(filename_chars(name));
    if t.len() == 0 {
        "download"@
    } else {
        t
    }
}

/// Sanitize a filename: strip path separators, control chars, quotes; fallback to "download" if empty.
pub fn sanitize_filename(name: &str) -> (res: String)
    ensures
        res@ == sanitized_filename(name@),
{
    let cs = str_chars(name);
    let mut kept: Vec<char> = Vec::new();
    let mut i: usize = 0;
    while i < cs.len()
        invariant
            i <= cs@.len(),
            kept@ == filename_chars(cs@.take(i as int)),
        decreases cs@.len() - i,
    {
        let c = cs[i];
        if !is_control_exec(c) && c != '/' && c != '\\' && c != '"' && c != '\'' && c != '\0' {
            kept.push(c);
        }
        proof {
            assert(cs@.take(i + 1).drop_last() =~= cs@.take(i as int));
        }
        i = i + 1;
    }
    proof {
        assert(cs@.take(cs@.len() as int) =~= cs@);
    }
    let t = trim_chars(&kept);
    if t.len() == 0 {
        "download".to_owned()
    } else {
        string_from_chars(&t)
    }
}

/// Position of the last `.` in `s`, or `s.len()` when there is none.
pub open spec fn last_dot(s: Seq<char>) -> int
    decreases s.len(),
{
    if s.len() == 0 {
        0
    } else if s.last() == '.' {
        s.len() - 1
    } else if last_dot(s.drop_last()) == s.len() - 1 {
        s.len() as int
    } else {
        last_dot(s.drop_last())
    }
}

pub(crate) proof fn lemma_last_dot_range(s: Seq<char>)
    ensures
        0 <= last_dot(s) <= s.len(),
        last_dot(s) < s.len() ==> s[last_dot(s)] == '.',
        forall|j: int| last_dot(s) < j < s.len() ==> s[j] != '.',
    decreases s.len(),
{
    if s.len() > 0 {
        let t = s.drop_last();
        lemma_last_dot_range(t);
        assert forall|j: int| last_dot(s) < j < s.len() implies s[j] != '.' by {
            if j < s.len() - 1 {
                assert(t[j] == s[j]);
            }
        }
        if last_dot(s) < s.len() - 1 {
            assert(t[last_dot(s)] == s[last_dot(s)]);
        }
    }
}

pub(crate) fn last_dot_exec(s: &Vec<char>) -> (d: usize)
    ensures
        d as int == last_dot(s@),
{
    proof {
        lemma_last_dot_range(s@);
    }
    let mut d = s.len();
    let mut i = s.len();
    while i > 0
        invariant
            i <= s@.len(),
            d == s@.len() || (i <= d < s@.len() && s@[d as int] == '.'),
            forall|j: int| i <= j < s@.len() && j > d ==> s@[j] != '.',
            d == s@.len() ==> forall|j: int| i <= j < s@.len() ==> s@[j] != '.',
        decreases i,
    {
        if s[i - 1] == '.' && d == s.len() {
            d = i - 1;
        }
        i = i - 1;
    }
    proof {
        lemma_last_dot_unique(s@, d as int);
    }
    d
}

pub(crate) proof fn lemma_last_dot_unique(s: Seq<char>, d: int)
    requires
        0 <= d <= s.len(),
        d < s.len() ==> s[d] == '.',
        forall|j: int| d < j < s.len() ==> s[j] != '.',
        d == s.len() ==> forall|j: int| 0 <= j < s.len() ==> s[j] != '.',
    ensures
        last_dot(s) == d,
    decreases s.len(),
{
    if s.len() > 0 {
        if s.last() == '.' {
        } else if d == s.len() {
            lemma_last_dot_unique(s.drop_last(), d - 1);
        } else {
            lemma_last_dot_unique(s.drop_last(), d);
        }
    }
}

/// Number of positions before `i` whose base name equals that of `i`.
pub open spec fn earlier_uses(bases: Seq<Seq<char>>, i: int) -> nat {
    count_equal_before(bases, bases[i], i)
}

/// A name with number `k`: the name itself for 0, else `stem_k.ext`, the
/// number placed before the last dot (at the end when there is none).
pub open spec fn numbered_name(b: Seq<char>, k: nat) -> Seq<char> {
    if k == 0 {
        b
    } else {
        let d = last_dot(b);
        b.subrange(0, d) + seq!['_'] + decimal(k) + b.subrange(d, b.len() as int)
    }
}

/// `names[i]` is the entry name chosen for position `i` with number `j`: the
/// search starts at the number of earlier files with the same sanitized name,
/// and `j` is the first number from there whose name no earlier entry took.
pub open spec fn zip_entry_choice(
    bases: Seq<Seq<char>>,
    names: Seq<Seq<char>>,
    i: int,
    j: nat,
) -> bool {
    let k = earlier_uses(bases, i);
    &&& k <= j
    &&& names[i] == numbered_name(bases[i], j)
    &&& !names.take(i).contains(names[i])
    &&& forall|t: nat| k <= t < j ==> names.take(i).contains(#[trigger] numbered_name(bases[i], t))
}

/// Some number gives `names[i]` as `zip_entry_choice` describes.
pub open spec fn chosen_entry(bases: Seq<Seq<char>>, names: Seq<Seq<char>>, i: int) -> bool {
    exists|j: nat| zip_entry_choice(bases, names, i, j)
}

proof fn lemma_decimal_len(n: nat)
    ensures
        decimal(n).len() >= 1,
        (decimal(n).len() == 1) == (n < 10),
    decreases n,
{
    if n >= 10 {
        lemma_decimal_len(n / 10);
    }
}

proof fn lemma_digit_char_injective(a: nat, b: nat)
    requires
        a < 10,
        b < 10,
        digit_char(a) == digit_char(b),
    ensures
        a == b,
{
}

/// Different numbers are written differently.
proof fn lemma_decimal_injective(a: nat, b: nat)
    requires
        decimal(a) == decimal(b),
    ensures
        a == b,
    decreases a,
{
    lemma_decimal_len(a);
    lemma_decimal_len(b);
    if a < 10 {
        assert(b < 10);
        assert(decimal(a) == seq![digit_char(a)]);
        assert(decimal(b) == seq![digit_char(b)]);
        assert(decimal(a)[0] == digit_char(a));
        assert(decimal(b)[0] == digit_char(b));
        lemma_digit_char_injective(a, b);
    } else {
        assert(b >= 10);
        let da = decimal(a);
        let db = decimal(b);
        assert(da == decimal(a / 10).push(digit_char(a % 10)));
        assert(db == decimal(b / 10).push(digit_char(b % 10)));
        assert(da.last() == digit_char(a % 10));
        assert(db.last() == digit_char(b % 10));
        assert(da.drop_last() =~= decimal(a / 10));
        assert(db.drop_last() =~= decimal(b / 10));
        lemma_digit_char_injective(a % 10, b % 10);
        lemma_decimal_injective(a / 10, b / 10);
    }
}

/// Different numbers give different names.
proof fn lemma_numbered_injective(b: Seq<char>, s: nat, t: nat)
    requires
        numbered_name(b, s) == numbered_name(b, t),
    ensures
        s == t,
{
    lemma_last_dot_range(b);
    lemma_decimal_len(s);
    lemma_decimal_len(t);
    let d = last_dot(b);
    let pre = b.subrange(0, d) + seq!['_'];
    if s != 0 && t != 0 {
        let x = numbered_name(b, s);
        assert(x.len() == b.len() + 1 + decimal(s).len());
        assert(decimal(s).len() == decimal(t).len());
        let lo = pre.len() as int;
        let hi = lo + decimal(s).len();
        assert(x.subrange(lo, hi) =~= decimal(s));
        assert(numbered_name(b, t).subrange(lo, hi) =~= decimal(t));
        lemma_decimal_injective(s, t);
    } else if s != 0 {
        assert(numbered_name(b, s).len() > b.len());
    } else if t != 0 {
        assert(numbered_name(b, t).len() > b.len());
    }
}

/// When every number from `k` to `j` names an entry already in `used`, there
/// are at least that many entries: the search for a free name ends.
proof fn lemma_numbered_names_taken(b: Seq<char>, used: Seq<Seq<char>>, k: nat, j: nat)
    requires
        k <= j,
        forall|t: nat| k <= t <= j ==> used.contains(#[trigger] numbered_name(b, t)),
    ensures
        j + 1 - k <= used.len(),
{
    broadcast use vstd::seq_lib::seq_to_set_is_finite;

    let x = vstd::set_lib::set_int_range(k as int, j + 1 as int);
    let f = |t: int| numbered_name(b, t as nat);
    vstd::set_lib::lemma_int_range(k as int, j + 1 as int);
    assert forall|a: int, c: int|
        x.contains(a) && x.contains(c) && #[trigger] f(a) == #[trigger] f(c) implies a == c by {
        lemma_numbered_injective(b, a as nat, c as nat);
    }
    let y = x.map(f);
    vstd::set_lib::lemma_map_size(x, y, f);
    assert forall|e: Seq<char>| y.contains(e) implies used.to_set().contains(e) by {
        let t = choose|t: int| x.contains(t) && f(t) == e;
        assert(used.contains(numbered_name(b, t as nat)));
    }
    used.lemma_cardinality_of_set();
    vstd::set_lib::lemma_len_subset(y, used.to_set());
}

/// The characters of `numbered_name(b, k)`.
fn numbered_chars(bc: &Vec<char>, k: u64) -> (out: Vec<char>)
    ensures
        out@ == numbered_name(bc@, k as nat),
{
    if k == 0 {
        return chars_range(bc, 0, bc.len());
    }
    let d = last_dot_exec(bc);
    proof {
        lemma_last_dot_range(bc@);
    }
    let mut out: Vec<char> = chars_range(bc, 0, d);
    out.push('_');
    let digits = decimal_chars(k);
    let mut t: usize = 0;
    let ghost start = out@;
    while t < digits.len()
        invariant
            t <= digits@.len(),
            out@ == start + digits@.take(t as int),
        decreases digits@.len() - t,
    {
        out.push(digits[t]);
        proof {
            assert(digits@.take(t + 1) =~= digits@.take(t as int).push(digits@[t as int]));
            assert(start + digits@.take(t + 1) =~= (start + digits@.take(t as int)).push(
                digits@[t as int],
            ));
        }
        t = t + 1;
    }
    proof {
        assert(digits@.take(digits@.len() as int) =~= digits@);
    }
    let tail = chars_range(bc, d, bc.len());
    let mut u: usize = 0;
    let ghost mid = out@;
    while u < tail.len()
        invariant
            u <= tail@.len(),
            out@ == mid + tail@.take(u as int),
        decreases tail@.len() - u,
    {
        out.push(tail[u]);
        proof {
            assert(tail@.take(u + 1) =~= tail@.take(u as int).push(tail@[u as int]));
            assert(mid + tail@.take(u + 1) =~= (mid + tail@.take(u as int)).push(tail@[u as int]));
        }
        u = u + 1;
    }
    proof {
        assert(tail@.take(tail@.len() as int) =~= tail@);
        assert(out@ =~= bc@.subrange(0, d as int) + seq!['_'] + decimal(k as nat) + bc@.subrange(
            d as int,
            bc@.len() as int,
        ));
    }
    out
}

/// The sanitized forms of `names`.
pub open spec fn sanitized_names(names: Seq<String>) -> Seq<Seq<char>> {
    names.map_values(|s: String| sanitized_filename(s@))
}

pub open spec fn string_views(v: Seq<String>) -> Seq<Seq<char>> {
    v.map_values(|s: String| s@)
}

pub open spec fn char_views(v: Seq<Vec<char>>) -> Seq<Seq<char>> {
    v.map_values(|c: Vec<char>| c@)
}

/// Whether `c` is one of `used`.
fn contains_chars(used: &Vec<Vec<char>>, c: &Vec<char>) -> (r: bool)
    ensures
        r == char_views(used@).contains(c@),
{
    let mut i: usize = 0;
    while i < used.len()
        invariant
            i <= used@.len(),
            forall|t: int| 0 <= t < i ==> used@[t]@ != c@,
        decreases used@.len() - i,
    {
        if chars_eq(&used[i], c) {
            proof {
                assert(char_views(used@)[i as int] == c@);
            }
            return true;
        }
        i = i + 1;
    }
    proof {
        if char_views(used@).contains(c@) {
            let t = choose|t: int| 0 <= t < used@.len() && char_views(used@)[t] == c@;
            assert(used@[t]@ == c@);
        }
    }
    false
}

/// Entry names inside a zip archive for files whose original names are
/// `original_names`: each name sanitized; a name already taken gets the
/// first free number, starting from how often the same sanitized name came
/// before (`a.jpg`, `a_1.jpg`, `a_2.jpg`, ...). No two entries share a name.
pub fn zip_entry_names(original_names: &Vec<String>) -> (res: Vec<String>)
    requires
        original_names@.len() < u64::MAX / 2,
    ensures
        res@.len() == original_names@.len(),
        forall|i: int|
            0 <= i < res@.len() ==> #[trigger] chosen_entry(
                sanitized_names(original_names@),
                string_views(res@),
                i,
            ),
        forall|a: int, b: int| 0 <= a < b < res@.len() ==> #[trigger] res@[a]@ != #[trigger] res@[b]@,
{
    let ghost bases = original_names@.map_values(|s: String| sanitized_filename(s@));
    let mut base_chars: Vec<Vec<char>> = Vec::new();
    let mut used: Vec<Vec<char>> = Vec::new();
    let mut res: Vec<String> = Vec::new();
    let mut i: usize = 0;
    while i < original_names.len()
        invariant
            i <= original_names@.len(),
            original_names@.len() < u64::MAX / 2,
            bases == original_names@.map_values(|s: String| sanitized_filename(s@)),
            base_chars@.len() == i,
            used@.len() == i,
            res@.len() == i,
            forall|j: int| 0 <= j < i ==> #[trigger] base_chars@[j]@ == bases[j],
            forall|j: int| 0 <= j < i ==> #[trigger] res@[j]@ == used@[j]@,
            forall|t: int| 0 <= t < i ==> #[trigger] chosen_entry(bases, char_views(used@), t),
        decreases original_names@.len() - i,
    {
        let base = sanitize_filename(original_names[i].as_str());
        let bc = str_chars(base.as_str());
        // count earlier uses of the same base name
        let mut k: u64 = 0;
        let mut j: usize = 0;
        while j < i
            invariant
                j <= i,
                i < original_names@.len(),
                original_names@.len() < u64::MAX / 2,
                base_chars@.len() == i,
                forall|t: int| 0 <= t < i ==> #[trigger] base_chars@[t]@ == bases[t],
                bc@ == bases[i as int],
                k == count_equal_before(bases, bases[i as int], j as int),
                k <= j,
            decreases i - j,
        {
            if chars_eq(&base_chars[j], &bc) {
                k = k + 1;
            }
            j = j + 1;
        }
        // the first number from `k` whose name is free
        let ghost names = char_views(used@);
        let mut n: u64 = k;
        let mut cand = numbered_chars(&bc, n);
        loop
            invariant
                i < original_names@.len(),
                original_names@.len() < u64::MAX / 2,
                used@.len() == i,
                names == char_views(used@),
                bc@ == bases[i as int],
                k <= n <= k + i,
                k <= i,
                bases == original_names@.map_values(|s: String| sanitized_filename(s@)),
                k == earlier_uses(bases, i as int),
                cand@ == numbered_name(bc@, n as nat),
                forall|t: nat| k <= t < n ==> names.contains(#[trigger] numbered_name(bc@, t)),
            ensures
                !names.contains(cand@),
            decreases k + i - n,
        {
            if !contains_chars(&used, &cand) {
                break;
            }
            proof {
                lemma_numbered_names_taken(bc@, names, k as nat, n as nat);
            }
            n = n + 1;
            cand = numbered_chars(&bc, n);
        }
        let ghost cv = cand@;
        let name = string_from_chars(&cand);
        res.push(name);
        used.push(cand);
        proof {
            let views = char_views(used@);
            assert(views.take(i as int) =~= names);
            assert(views[i as int] == cv);
            assert(zip_entry_choice(bases, views, i as int, n as nat));
            assert forall|t: int| 0 <= t <= i implies #[trigger] chosen_entry(
                bases,
                char_views(used@),
                t,
            ) by {
                if t < i {
                    assert(chosen_entry(bases, names, t));
                    let j = choose|j: nat| zip_entry_choice(bases, names, t, j);
                    assert(views.take(t) =~= names.take(t));
                    assert(views[t] == names[t]);
                    assert(zip_entry_choice(bases, views, t, j));
                } else {
                    assert(zip_entry_choice(bases, views, i as int, n as nat));
                }
            }
        }
        base_chars.push(bc);
        i = i + 1;
    }
    proof {
        let views = char_views(used@);
        assert(string_views(res@) =~= views);
        assert(sanitized_names(original_names@) =~= bases);
        assert forall|t: int| 0 <= t < res@.len() implies #[trigger] chosen_entry(
            sanitized_names(original_names@),
            string_views(res@),
            t,
        ) by {
            assert(chosen_entry(bases, views, t));
        }
        assert forall|a: int, b: int| 0 <= a < b < res@.len() implies #[trigger] res@[a]@ != #[trigger] res@[b]@ by {
            assert(chosen_entry(bases, views, b));
            let j = choose|j: nat| zip_entry_choice(bases, views, b, j);
            assert(zip_entry_choice(bases, views, b, j));
            assert(views.take(b)[a] == views[a]);
        }
    }
    res
}

/// Character-wise equality of two character vectors.
pub fn chars_eq(a: &Vec<char>, b: &Vec<char>) -> (r: bool)
    ensures
        r == (a@ == b@),
{
    if a.len() != b.len() {
        return false;
    }
    let mut i: usize = 0;
    while i < a.len()
        invariant
            i <= a@.len(),
            a@.len() == b@.len(),
            forall|j: int| 0 <= j < i ==> a@[j] == b@[j],
        decreases a@.len() - i,
    {
        if a[i] != b[i] {
            return false;
        }
        i = i + 1;
    }
    proof {
        assert(a@ =~= b@);
    }
    true
}

/// Number of positions before `j` holding `b`.
pub open spec fn count_equal_before(bases: Seq<Seq<char>>, b: Seq<char>, j: int) -> nat
    decreases j,
{
    if j <= 0 {
        0
    } else if bases[j - 1] == b {
        count_equal_before(bases, b, j - 1) + 1
    } else {
        count_equal_before(bases, b, j - 1)
    }
}

proof fn lemma_filename_chars_kept(s: Seq<char>)
    ensures
        forall|i: int|
            0 <= i < filename_chars(s).len() ==> keeps_in_filename(#[trigger] filename_chars(s)[i]),
    decreases s.len(),
{
    if s.len() > 0 {
        let t = s.drop_last();
        lemma_filename_chars_kept(t);
        let f = filename_chars(t);
        if keeps_in_filename(s.last()) {
            assert forall|i: int| 0 <= i < f.push(s.last()).len() implies keeps_in_filename(
                #[trigger] f.push(s.last())[i],
            ) by {
                if i < f.len() {
                    assert(f.push(s.last())[i] == f[i]);
                }
            }
        }
    }
}

proof fn lemma_trim_start_keeps(s: Seq<char>)
    requires
        forall|i: int| 0 <= i < s.len() ==> keeps_in_filename(#[trigger] s[i]),
    ensures
        forall|i: int| 0 <= i < trim_start(s).len() ==> keeps_in_filename(#[trigger] trim_start(s)[i]),
    decreases s.len(),
{
    if s.len() > 0 && is_white_space(s[0]) {
        let t = s.drop_first();
        assert forall|i: int| 0 <= i < t.len() implies keeps_in_filename(#[trigger] t[i]) by {
            assert(t[i] == s[i + 1]);
        }
        lemma_trim_start_keeps(t);
        assert(trim_start(s) == trim_start(t));
    } else {
        assert(trim_start(s) == s);
    }
}

proof fn lemma_trim_end_keeps(s: Seq<char>)
    requires
        forall|i: int| 0 <= i < s.len() ==> keeps_in_filename(#[trigger] s[i]),
    ensures
        forall|i: int| 0 <= i < trim_end(s).len() ==> keeps_in_filename(#[trigger] trim_end(s)[i]),
    decreases s.len(),
{
    if s.len() > 0 && is_white_space(s.last()) {
        let t = s.drop_last();
        assert forall|i: int| 0 <= i < t.len() implies keeps_in_filename(#[trigger] t[i]) by {
            assert(t[i] == s[i]);
        }
        lemma_trim_end_keeps(t);
        assert(trim_end(s) == trim_end(t));
    } else {
        assert(trim_end(s) == s);
    }
}

/// A download name is never empty and never holds a path separator, a
/// quote or a control character, whatever name the file was uploaded with.
pub proof fn law_sanitized_name_is_safe(name: Seq<char>)
    ensures
        sanitized_filename(name).len() > 0,
        forall|i: int|
            0 <= i < sanitized_filename(name).len() ==> keeps_in_filename(
                #[trigger] sanitized_filename(name)[i],
            ),
{
    let k = filename_chars(name);
    lemma_filename_chars_kept(name);
    lemma_trim_start_keeps(k);
    lemma_trim_end_keeps(trim_start(k));
    reveal_strlit("download");
    let d = "download"@;
    assert forall|i: int| 0 <= i < d.len() implies keeps_in_filename(#[trigger] d[i]) by {}
}

/// Keeping the allowed characters of a name made of allowed characters only
/// changes nothing.
proof fn lemma_filename_chars_of_kept(s: Seq<char>)
    requires
        forall|i: int| 0 <= i < s.len() ==> keeps_in_filename(#[trigger] s[i]),
    ensures
        filename_chars(s) == s,
    decreases s.len(),
{
    if s.len() > 0 {
        let t = s.drop_last();
        assert forall|i: int| 0 <= i < t.len() implies keeps_in_filename(#[trigger] t[i]) by {
            assert(t[i] == s[i]);
        }
        lemma_filename_chars_of_kept(t);
        assert(keeps_in_filename(s[s.len() - 1]));
        assert(t.push(s.last()) =~= s);
    }
}

/// What `trim_start` leaves does not start with white space.
proof fn lemma_trim_start_first(s: Seq<char>)
    ensures
        trim_start(s).len() > 0 ==> !is_white_space(trim_start(s)[0]),
    decreases s.len(),
{
    if s.len() > 0 && is_white_space(s[0]) {
        lemma_trim_start_first(s.drop_first());
    }
}

/// `trim_end` keeps a prefix, and what it leaves does not end with white space.
proof fn lemma_trim_end_prefix(s: Seq<char>)
    ensures
        trim_end(s).len() <= s.len(),
        trim_end(s) == s.subrange(0, trim_end(s).len() as int),
        trim_end(s).len() > 0 ==> !is_white_space(trim_end(s).last()),
    decreases s.len(),
{
    if s.len() > 0 && is_white_space(s.last()) {
        let t = s.drop_last();
        lemma_trim_end_prefix(t);
        assert(t.subrange(0, trim_end(t).len() as int) =~= s.subrange(0, trim_end(t).len() as int));
    } else {
        assert(s.subrange(0, s.len() as int) =~= s);
    }
}

/// Trimming a trimmed text changes nothing.
proof fn lemma_trim_idempotent(s: Seq<char>)
    ensures
        trim(trim(s)) == trim(s),
{
    let a = trim_start(s);
    let t = trim_end(a);
    lemma_trim_start_first(s);
    lemma_trim_end_prefix(a);
    if t.len() > 0 {
        assert(t[0] == a[0]);
        assert(trim_start(t) == t);
        assert(trim_end(t) == t);
    } else {
        assert(trim_start(t) == t);
        assert(trim_end(t) == t);
    }
}

/// Sanitizing a download name again changes nothing.
pub proof fn law_sanitize_is_idempotent(name: Seq<char>)
    ensures
        sanitized_filename(sanitized_filename(name)) == sanitized_filename(name),
{
    let r = sanitized_filename(name);
    law_sanitized_name_is_safe(name);
    lemma_filename_chars_of_kept(r);
    let k = filename_chars(name);
    lemma_trim_idempotent(k);
    if trim(k).len() == 0 {
        reveal_strlit("download");
        assert(r == "download"@);
        assert(trim_start(r) == r);
        assert(trim_end(r) == r);
    }
}

} // verus!
