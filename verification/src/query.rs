//! Listing requests: paging, filters and the SQL statement that serves them.
//!
//! User-supplied values (media type, tag names, ids, limits) only ever travel
//! as bound parameters; the statement text is chosen from fixed fragments.
use vstd::prelude::*;

use crate::filenames::{chars_eq, trim, trim_chars};
use crate::text::{char_views, push_str, split_chars, split_on, str_chars, string_from_chars};

verus! {

/// Maximum page limit for list endpoints.
pub const MAX_PAGE_LIMIT: usize = 200;

/// Default page size of list endpoints.
pub const DEFAULT_PAGE_LIMIT: usize = 20;

/// A value bound to a `?` placeholder of a statement.
pub enum SqlValue {
    Text(String),
    /// A media, person or folder id, bound as its 16 bytes.
    Uuid(u128),
    Integer(i64),
}

/// What a listing request asks for.
pub struct MediaFilter {
    pub media_type: Option<String>,
    pub favorite: bool,
    pub tags: Option<Vec<String>>,
    pub person_id: Option<u128>,
    pub cluster_id: Option<i64>,
    pub sort_asc: bool,
    pub sort_by: String,
    pub limit: usize,
    pub offset: usize,
}

/// A statement and its parameters, in placeholder order.
pub struct SqlQuery {
    pub sql: String,
    pub params: Vec<SqlValue>,
}

/// Page and page size of a request: page at least 1 (default 1), size at most
/// `MAX_PAGE_LIMIT` (default 20).
pub open spec fn page_and_limit(page: Option<usize>, limit: Option<usize>) -> (usize, usize) {
    let p = match page {
        Some(p) => if p < 1 {
            1usize
        } else {
            p
        },
        None => 1usize,
    };
    let l = match limit {
        Some(l) => if l < MAX_PAGE_LIMIT {
            l
        } else {
            MAX_PAGE_LIMIT
        },
        None => DEFAULT_PAGE_LIMIT,
    };
    (p, l)
}

/// Normalized `(page, limit, offset)` of a listing request; the offset is
/// `(page - 1) * limit`, which the caller keeps within `usize`.
pub fn paging(page: Option<usize>, limit: Option<usize>) -> (res: (usize, usize, usize))
    requires
        (page_and_limit(page, limit).0 - 1) * page_and_limit(page, limit).1 <= usize::MAX,
    ensures
        (res.0, res.1) == page_and_limit(page, limit),
        res.2 == (res.0 - 1) * res.1,
{
    let p = match page {
        Some(p) => if p < 1 {
            1
        } else {
            p
        },
        None => 1,
    };
    let l = match limit {
        Some(l) => if l < MAX_PAGE_LIMIT {
            l
        } else {
            MAX_PAGE_LIMIT
        },
        None => DEFAULT_PAGE_LIMIT,
    };
    let offset = (p - 1) * l;
    (p, l, offset)
}

/// A listing never asks for more than `MAX_PAGE_LIMIT` items, and never for
/// a page before the first.
pub proof fn law_page_size_capped(page: Option<usize>, limit: Option<usize>)
    ensures
        page_and_limit(page, limit).1 <= MAX_PAGE_LIMIT,
        page_and_limit(page, limit).0 >= 1,
        forall|l: usize| limit == Some(l) && l <= MAX_PAGE_LIMIT ==> page_and_limit(page, limit).1 == l,
{
}

/// Trimmed, non-empty pieces of a comma-separated tag list, in order.
pub open spec fn tag_names(pieces: Seq<Seq<char>>) -> Seq<Seq<char>>
    decreases pieces.len(),
{
    if pieces.len() == 0 {
        Seq::empty()
    } else {
        let t = trim(pieces.last());
        if t.len() == 0 {
            tag_names(pieces.drop_last())
        } else {
            tag_names(pieces.drop_last()).push(t)
        }
    }
}

/// Tag filter of a request: `None` when absent or empty, else the names between
/// commas, trimmed, empty ones dropped.
pub open spec fn tag_filter(tags: Option<Seq<char>>) -> Option<Seq<Seq<char>>> {
    match tags {
        Some(s) => if s.len() == 0 {
            None
        } else {
            Some(tag_names(split_on(s, ',')))
        },
        None => None,
    }
}

/// Parses the comma-separated `tags` parameter of a listing request.
pub fn parse_tags(tags: Option<&str>) -> (res: Option<Vec<String>>)
    ensures
        match res {
            Some(v) => tag_filter(
                match tags {
                    Some(s) => Some(s@),
                    None => None,
                },
            ) == Some(v@.map_values(|x: String| x@)),
            None => tag_filter(
                match tags {
                    Some(s) => Some(s@),
                    None => None,
                },
            ) is None,
        },
{
    match tags {
        None => None,
        Some(s) => {
            let cs = str_chars(s);
            if cs.len() == 0 {
                return None;
            }
            let pieces = split_chars(&cs, ',');
            let ghost all = char_views(pieces@);
            let mut out: Vec<String> = Vec::new();
            let mut i: usize = 0;
            while i < pieces.len()
                invariant
                    i <= pieces@.len(),
                    all == char_views(pieces@),
                    out@.map_values(|x: String| x@) == tag_names(all.take(i as int)),
                decreases pieces@.len() - i,
            {
                let t = trim_chars(&pieces[i]);
                let ghost before = out@.map_values(|x: String| x@);
                proof {
                    assert(all.take(i + 1).drop_last() =~= all.take(i as int));
                    assert(all.take(i + 1).last() == pieces@[i as int]@);
                }
                if t.len() > 0 {
                    out.push(string_from_chars(&t));
                    proof {
                        assert(out@.map_values(|x: String| x@) =~= before.push(t@));
                    }
                }
                i = i + 1;
            }
            proof {
                assert(all.take(pieces@.len() as int) =~= all);
            }
            Some(out)
        },
    }
}

/// Column the listing is ordered by: `size` orders by file size, anything else by date.
pub open spec fn order_column(sort_by: Seq<char>) -> Seq<char> {
    if sort_by == "size"@ {
        "m.size_bytes"@
    } else {
        "m.original_date"@
    }
}

/// `n` placeholders separated by `, `.
pub open spec fn placeholders(n: nat) -> Seq<char>
    decreases n,
{
    if n == 0 {
        Seq::empty()
    } else if n == 1 {
        "?"@
    } else {
        placeholders((n - 1) as nat) + ", ?"@
    }
}

/// Number of tag names the filter matches against (0 when there is no tag filter).
pub open spec fn tag_count(f: MediaFilter) -> nat {
    match f.tags {
        Some(t) => t@.len(),
        None => 0,
    }
}

/// Filter conditions of a listing in order; `faces` is the alias of the faces table.
pub open spec fn conditions(f: MediaFilter, faces: Seq<char>) -> Seq<Seq<char>> {
    let c0: Seq<Seq<char>> = if f.media_type is Some {
        seq!["m.media_type = ?"@]
    } else {
        Seq::empty()
    };
    let c1 = if f.favorite {
        c0.push("f.media_id IS NOT NULL"@)
    } else {
        c0
    };
    let c2 = if f.person_id is Some {
        c1.push("EXISTS (SELECT 1 FROM faces "@ + faces + " WHERE "@ + faces + ".media_id = m.id AND "@
            + faces + ".person_id = ?)"@)
    } else {
        c1
    };
    let c3 = if f.cluster_id is Some {
        c2.push("EXISTS (SELECT 1 FROM faces "@ + faces + " WHERE "@ + faces + ".media_id = m.id AND "@
            + faces + ".cluster_id = ?)"@)
    } else {
        c2
    };
    if tag_count(f) > 0 {
        c3.push(
            "EXISTS (SELECT 1 FROM media_tags mt2 JOIN tags t2 ON t2.id = mt2.tag_id WHERE mt2.media_id = m.id AND t2.name IN ("@
                + placeholders(tag_count(f)) + "))"@,
        )
    } else {
        c3
    }
}

/// `parts` joined with `sep`.
pub open spec fn join(parts: Seq<Seq<char>>, sep: Seq<char>) -> Seq<char>
    decreases parts.len(),
{
    if parts.len() == 0 {
        Seq::empty()
    } else if parts.len() == 1 {
        parts[0]
    } else {
        join(parts.drop_last(), sep) + sep + parts.last()
    }
}

/// ` ORDER BY <column> <direction> LIMIT ? OFFSET ?`.
pub open spec fn order_clause(f: MediaFilter) -> Seq<char> {
    " ORDER BY "@ + order_column(f.sort_by@) + " "@ + (if f.sort_asc {
        "ASC"@
    } else {
        "DESC"@
    }) + " LIMIT ? OFFSET ?"@
}

pub open spec fn library_select() -> Seq<char> {
    "SELECT m.id, m.filename, m.original_filename, m.media_type, m.uploaded_at, m.original_date, (f.media_id IS NOT NULL) as is_favorite, m.size_bytes, m.width, m.height FROM media m LEFT JOIN favorites f ON f.media_id = m.id"@
}

pub open spec fn folder_select() -> Seq<char> {
    "SELECT m.id, m.filename, m.original_filename, m.media_type, m.uploaded_at, m.original_date, (f.media_id IS NOT NULL) as is_favorite, m.size_bytes FROM media m JOIN folder_media fm ON fm.media_id = m.id LEFT JOIN favorites f ON f.media_id = m.id WHERE fm.folder_id = ?"@
}

/// Statement text of a library listing: the conditions after ` WHERE `,
/// joined with ` AND `.
pub open spec fn library_sql(f: MediaFilter) -> Seq<char> {
    library_select() + joined(conditions(f, "fs"@), " WHERE "@, " AND "@) + order_clause(f)
}

/// Statement text of a folder listing: each condition after ` AND `.
pub open spec fn folder_sql(f: MediaFilter) -> Seq<char> {
    folder_select() + joined(conditions(f, "f2"@), " AND "@, " AND "@) + order_clause(f)
}

/// Spec view of a bound value.
pub enum SqlArg {
    Text(Seq<char>),
    Uuid(u128),
    Integer(i64),
}

pub open spec fn arg_of(v: SqlValue) -> SqlArg {
    match v {
        SqlValue::Text(s) => SqlArg::Text(s@),
        SqlValue::Uuid(u) => SqlArg::Uuid(u),
        SqlValue::Integer(i) => SqlArg::Integer(i),
    }
}

pub open spec fn args_of(v: Seq<SqlValue>) -> Seq<SqlArg> {
    v.map_values(|x: SqlValue| arg_of(x))
}

/// Parameters of the filter conditions, in placeholder order.
pub open spec fn condition_args(f: MediaFilter) -> Seq<SqlArg> {
    let a0: Seq<SqlArg> = match f.media_type {
        Some(t) => seq![SqlArg::Text(t@)],
        None => Seq::empty(),
    };
    let a1 = match f.person_id {
        Some(p) => a0.push(SqlArg::Uuid(p)),
        None => a0,
    };
    let a2 = match f.cluster_id {
        Some(c) => a1.push(SqlArg::Integer(c)),
        None => a1,
    };
    match f.tags {
        Some(t) => a2 + tag_args(t@),
        None => a2,
    }
}

/// Parameters of a listing after any leading ones: those of the conditions,
/// then the limit and the offset (converted with `as i64`).
pub open spec fn filter_args(f: MediaFilter) -> Seq<SqlArg> {
    condition_args(f).push(SqlArg::Integer(f.limit as i64)).push(SqlArg::Integer(f.offset as i64))
}

/// `conds` joined with `sep`, preceded by `first` when there is any.
pub open spec fn joined(conds: Seq<Seq<char>>, first: Seq<char>, sep: Seq<char>) -> Seq<char> {
    if conds.len() > 0 {
        first + join(conds, sep)
    } else {
        Seq::empty()
    }
}

proof fn lemma_joined_push(conds: Seq<Seq<char>>, c: Seq<char>, first: Seq<char>, sep: Seq<char>)
    ensures
        joined(conds.push(c), first, sep) == joined(conds, first, sep) + (if conds.len() == 0 {
            first
        } else {
            sep
        }) + c,
{
    assert(conds.push(c).drop_last() =~= conds);
    if conds.len() == 0 {
        assert(joined(conds, first, sep) =~= Seq::<char>::empty());
        assert(joined(conds.push(c), first, sep) =~= first + c);
    } else {
        assert(joined(conds.push(c), first, sep) =~= first + join(conds, sep) + sep + c);
    }
}

/// Appends `c` to `sql` as the next condition, tracking the ghost list `conds`.
fn push_condition(
    sql: &mut String,
    count: &mut usize,
    conds: Ghost<Seq<Seq<char>>>,
    start: Ghost<Seq<char>>,
    first_sep: &str,
    sep: &str,
    c: &str,
)
    requires
        old(sql)@ == start@ + joined(conds@, first_sep@, sep@),
        *old(count) == conds@.len(),
        *old(count) < 8,
    ensures
        final(sql)@ == start@ + joined(conds@.push(c@), first_sep@, sep@),
        *final(count) == *old(count) + 1,
{
    proof {
        lemma_joined_push(conds@, c@, first_sep@, sep@);
    }
    if *count == 0 {
        push_str(sql, first_sep);
    } else {
        push_str(sql, sep);
    }
    push_str(sql, c);
    *count = *count + 1;
    proof {
        assert(final(sql)@ =~= start@ + joined(conds@.push(c@), first_sep@, sep@));
    }
}

/// `EXISTS` condition on the faces table under alias `faces`, ending with `tail`.
pub open spec fn face_condition(faces: Seq<char>, tail: Seq<char>) -> Seq<char> {
    "EXISTS (SELECT 1 FROM faces "@ + faces + " WHERE "@ + faces + ".media_id = m.id AND "@ + faces
        + tail
}

fn face_condition_text(faces: &str, tail: &str) -> (c: String)
    ensures
        c@ == face_condition(faces@, tail@),
{
    let mut c = String::new();
    push_str(&mut c, "EXISTS (SELECT 1 FROM faces ");
    push_str(&mut c, faces);
    push_str(&mut c, " WHERE ");
    push_str(&mut c, faces);
    push_str(&mut c, ".media_id = m.id AND ");
    push_str(&mut c, faces);
    push_str(&mut c, tail);
    proof {
        assert(c@ =~= face_condition(faces@, tail@));
    }
    c
}

/// `EXISTS` condition matching any of `n` tag names.
pub open spec fn tag_condition(n: nat) -> Seq<char> {
    "EXISTS (SELECT 1 FROM media_tags mt2 JOIN tags t2 ON t2.id = mt2.tag_id WHERE mt2.media_id = m.id AND t2.name IN ("@
        + placeholders(n) + "))"@
}

fn tag_condition_text(n: usize) -> (c: String)
    ensures
        c@ == tag_condition(n as nat),
{
    let mut c = String::new();
    push_str(
        &mut c,
        "EXISTS (SELECT 1 FROM media_tags mt2 JOIN tags t2 ON t2.id = mt2.tag_id WHERE mt2.media_id = m.id AND t2.name IN (",
    );
    let ghost head = c@;
    let mut i: usize = 0;
    proof {
        assert(c@ =~= head + placeholders(0));
    }
    while i < n
        invariant
            i <= n,
            c@ == head + placeholders(i as nat),
        decreases n - i,
    {
        if i == 0 {
            push_str(&mut c, "?");
        } else {
            push_str(&mut c, ", ?");
        }
        proof {
            assert(c@ =~= head + placeholders((i + 1) as nat));
        }
        i = i + 1;
    }
    push_str(&mut c, "))");
    proof {
        assert(c@ =~= tag_condition(n as nat));
    }
    c
}

proof fn lemma_args_push(v: Seq<SqlValue>, x: SqlValue)
    ensures
        args_of(v.push(x)) == args_of(v).push(arg_of(x)),
{
    assert(args_of(v.push(x)) =~= args_of(v).push(arg_of(x)));
}

/// Text arguments of the tag names `t`.
pub open spec fn tag_args(t: Seq<String>) -> Seq<SqlArg> {
    t.map_values(|s: String| SqlArg::Text(s@))
}

fn push_tag_params(params: &mut Vec<SqlValue>, tags: &Vec<String>)
    ensures
        args_of(final(params)@) == args_of(old(params)@) + tag_args(tags@),
{
    let ghost base = args_of(params@);
    let mut i: usize = 0;
    while i < tags.len()
        invariant
            i <= tags@.len(),
            args_of(params@) == base + tag_args(tags@.take(i as int)),
        decreases tags@.len() - i,
    {
        let ghost before = params@;
        params.push(SqlValue::Text(tags[i].clone()));
        proof {
            lemma_args_push(before, SqlValue::Text(tags@[i as int]));
            assert(tags@.take(i + 1) =~= tags@.take(i as int).push(tags@[i as int]));
            assert(tag_args(tags@.take(i + 1)) =~= tag_args(tags@.take(i as int)).push(
                SqlArg::Text(tags@[i as int]@),
            ));
            assert(args_of(params@) =~= base + tag_args(tags@.take(i + 1)));
        }
        i = i + 1;
    }
    proof {
        assert(tags@.take(tags@.len() as int) =~= tags@);
    }
}

/// Appends the filter conditions of `f` and their parameters.
#[verifier::rlimit(40)]
fn append_conditions(
    sql: &mut String,
    params: &mut Vec<SqlValue>,
    f: &MediaFilter,
    faces: &str,
    first_sep: &str,
    sep: &str,
)
    ensures
        final(sql)@ == old(sql)@ + joined(conditions(*f, faces@), first_sep@, sep@),
        args_of(final(params)@) == args_of(old(params)@) + condition_args(*f),
{
    let ghost start = sql@;
    let ghost pstart = args_of(params@);
    let ghost mut conds: Seq<Seq<char>> = Seq::empty();
    let ghost mut args: Seq<SqlArg> = Seq::empty();
    let mut count: usize = 0;
    proof {
        assert(sql@ =~= start + joined(conds, first_sep@, sep@));
        assert(args_of(params@) =~= pstart + args);
    }
    match &f.media_type {
        Some(mt) => {
            push_condition(sql, &mut count, Ghost(conds), Ghost(start), first_sep, sep, "m.media_type = ?");
            let ghost before = params@;
            params.push(SqlValue::Text(mt.clone()));
            proof {
                conds = conds.push("m.media_type = ?"@);
                lemma_args_push(before, SqlValue::Text(*mt));
                args = args.push(SqlArg::Text(mt@));
                assert(args_of(params@) =~= pstart + args);
            }
        },
        None => {},
    }
    if f.favorite {
        push_condition(sql, &mut count, Ghost(conds), Ghost(start), first_sep, sep, "f.media_id IS NOT NULL");
        proof {
            conds = conds.push("f.media_id IS NOT NULL"@);
        }
    }
    match f.person_id {
        Some(pid) => {
            let c = face_condition_text(faces, ".person_id = ?)");
            push_condition(sql, &mut count, Ghost(conds), Ghost(start), first_sep, sep, c.as_str());
            let ghost before = params@;
            params.push(SqlValue::Uuid(pid));
            proof {
                conds = conds.push(c@);
                lemma_args_push(before, SqlValue::Uuid(pid));
                args = args.push(SqlArg::Uuid(pid));
                assert(args_of(params@) =~= pstart + args);
            }
        },
        None => {},
    }
    match f.cluster_id {
        Some(cid) => {
            let c = face_condition_text(faces, ".cluster_id = ?)");
            push_condition(sql, &mut count, Ghost(conds), Ghost(start), first_sep, sep, c.as_str());
            let ghost before = params@;
            params.push(SqlValue::Integer(cid));
            proof {
                conds = conds.push(c@);
                lemma_args_push(before, SqlValue::Integer(cid));
                args = args.push(SqlArg::Integer(cid));
                assert(args_of(params@) =~= pstart + args);
            }
        },
        None => {},
    }
    match &f.tags {
        Some(tag_list) => {
            if tag_list.len() > 0 {
                let c = tag_condition_text(tag_list.len());
                push_condition(sql, &mut count, Ghost(conds), Ghost(start), first_sep, sep, c.as_str());
                proof {
                    conds = conds.push(c@);
                }
            }
            let ghost before = args_of(params@);
            push_tag_params(params, tag_list);
            proof {
                args = args + tag_args(tag_list@);
                assert(args_of(params@) =~= pstart + args);
            }
        },
        None => {},
    }
    proof {
        assert(conds =~= conditions(*f, faces@));
        assert(args =~= condition_args(*f));
    }
}

/// Appends ` ORDER BY <column> <direction> LIMIT ? OFFSET ?` for `f`.
fn append_order(sql: &mut String, f: &MediaFilter)
    ensures
        final(sql)@ == old(sql)@ + order_clause(*f),
{
    let ghost start = sql@;
    push_str(sql, " ORDER BY ");
    let cs = str_chars(f.sort_by.as_str());
    let size = str_chars("size");
    if chars_eq(&cs, &size) {
        push_str(sql, "m.size_bytes");
    } else {
        push_str(sql, "m.original_date");
    }
    push_str(sql, " ");
    if f.sort_asc {
        push_str(sql, "ASC");
    } else {
        push_str(sql, "DESC");
    }
    push_str(sql, " LIMIT ? OFFSET ?");
    proof {
        assert(sql@ =~= start + order_clause(*f));
    }
}

/// Appends the filter conditions, the order clause and the parameters of `f`.
fn append_filter(
    sql: &mut String,
    params: &mut Vec<SqlValue>,
    f: &MediaFilter,
    faces: &str,
    first_sep: &str,
    sep: &str,
)
    ensures
        final(sql)@ == old(sql)@ + joined(conditions(*f, faces@), first_sep@, sep@) + order_clause(
            *f,
        ),
        args_of(final(params)@) == args_of(old(params)@) + filter_args(*f),
{
    let ghost pstart = args_of(params@);
    append_conditions(sql, params, f, faces, first_sep, sep);
    append_order(sql, f);
    let ghost before = params@;
    params.push(SqlValue::Integer(f.limit as i64));
    proof {
        lemma_args_push(before, SqlValue::Integer(f.limit as i64));
    }
    let ghost before = params@;
    params.push(SqlValue::Integer(f.offset as i64));
    proof {
        lemma_args_push(before, SqlValue::Integer(f.offset as i64));
        assert(args_of(params@) =~= pstart + filter_args(*f));
    }
}

/// The statement and parameters of a library listing (newest first unless
/// `sort_asc`; `sort_by == "size"` orders by file size).
pub fn library_query(f: &MediaFilter) -> (q: SqlQuery)
    ensures
        q.sql@ == library_sql(*f),
        args_of(q.params@) == filter_args(*f),
{
    let mut sql = String::new();
    push_str(
        &mut sql,
        "SELECT m.id, m.filename, m.original_filename, m.media_type, m.uploaded_at, m.original_date, (f.media_id IS NOT NULL) as is_favorite, m.size_bytes, m.width, m.height FROM media m LEFT JOIN favorites f ON f.media_id = m.id",
    );
    let mut params: Vec<SqlValue> = Vec::new();
    proof {
        assert(sql@ =~= library_select());
        assert(args_of(params@) =~= Seq::<SqlArg>::empty());
    }
    append_filter(&mut sql, &mut params, f, "fs", " WHERE ", " AND ");
    proof {
        assert(args_of(params@) =~= filter_args(*f));
    }
    SqlQuery { sql, params }
}

/// The statement and parameters of a folder listing: the folder id comes first.
pub fn folder_query(folder_id: u128, f: &MediaFilter) -> (q: SqlQuery)
    ensures
        q.sql@ == folder_sql(*f),
        args_of(q.params@) == seq![SqlArg::Uuid(folder_id)] + filter_args(*f),
{
    let mut sql = String::new();
    push_str(
        &mut sql,
        "SELECT m.id, m.filename, m.original_filename, m.media_type, m.uploaded_at, m.original_date, (f.media_id IS NOT NULL) as is_favorite, m.size_bytes FROM media m JOIN folder_media fm ON fm.media_id = m.id LEFT JOIN favorites f ON f.media_id = m.id WHERE fm.folder_id = ?",
    );
    let mut params: Vec<SqlValue> = Vec::new();
    params.push(SqlValue::Uuid(folder_id));
    proof {
        assert(sql@ =~= folder_select());
        assert(args_of(params@) =~= seq![SqlArg::Uuid(folder_id)]);
    }
    append_filter(&mut sql, &mut params, f, "f2", " AND ", " AND ");
    SqlQuery { sql, params }
}

/// The parts of a filter that shape the statement text: which filters are
/// present, how many tag names, and the ordering.
pub open spec fn same_shape(a: MediaFilter, b: MediaFilter) -> bool {
    &&& a.media_type is Some == b.media_type is Some
    &&& a.favorite == b.favorite
    &&& a.person_id is Some == b.person_id is Some
    &&& a.cluster_id is Some == b.cluster_id is Some
    &&& tag_count(a) == tag_count(b)
    &&& a.sort_asc == b.sort_asc
    &&& a.sort_by@ == b.sort_by@
}

/// Filter values never reach the statement text: two requests of the same
/// shape are served by the same statement, in the library and in a folder,
/// whatever media type, person, cluster or tag names they carry.
pub proof fn law_statement_depends_only_on_shape(a: MediaFilter, b: MediaFilter)
    requires
        same_shape(a, b),
    ensures
        library_sql(a) == library_sql(b),
        folder_sql(a) == folder_sql(b),
{
    assert(conditions(a, "fs"@) == conditions(b, "fs"@));
    assert(conditions(a, "f2"@) == conditions(b, "f2"@));
}

/// Number of `?` placeholders in `s`.
pub open spec fn count_marks(s: Seq<char>) -> nat
    decreases s.len(),
{
    if s.len() == 0 {
        0
    } else {
        count_marks(s.drop_last()) + if s.last() == '?' {
            1nat
        } else {
            0nat
        }
    }
}

proof fn lemma_no_marks(s: Seq<char>)
    requires
        forall|i: int| 0 <= i < s.len() ==> s[i] != '?',
    ensures
        count_marks(s) == 0,
    decreases s.len(),
{
    if s.len() > 0 {
        lemma_no_marks(s.drop_last());
    }
}

proof fn lemma_marks_add(a: Seq<char>, b: Seq<char>)
    ensures
        count_marks(a + b) == count_marks(a) + count_marks(b),
    decreases b.len(),
{
    if b.len() == 0 {
        assert(a + b =~= a);
    } else {
        lemma_marks_add(a, b.drop_last());
        assert((a + b).drop_last() =~= a + b.drop_last());
        assert((a + b).last() == b.last());
    }
}

proof fn lemma_one_mark_at_end(s: Seq<char>)
    requires
        s.len() > 0,
        s.last() == '?',
        forall|i: int| 0 <= i < s.len() - 1 ==> s[i] != '?',
    ensures
        count_marks(s) == 1,
{
    let t = s.drop_last();
    assert forall|i: int| 0 <= i < t.len() implies t[i] != '?' by {
        assert(t[i] == s[i]);
    }
    lemma_no_marks(t);
}

proof fn lemma_select_marks()
    ensures
        count_marks(library_select()) == 0,
        count_marks(folder_select()) == 1,
{
    reveal_strlit(
        "SELECT m.id, m.filename, m.original_filename, m.media_type, m.uploaded_at, m.original_date, (f.media_id IS NOT NULL) as is_favorite, m.size_bytes, m.width, m.height FROM media m LEFT JOIN favorites f ON f.media_id = m.id",
    );
    reveal_strlit(
        "SELECT m.id, m.filename, m.original_filename, m.media_type, m.uploaded_at, m.original_date, (f.media_id IS NOT NULL) as is_favorite, m.size_bytes FROM media m JOIN folder_media fm ON fm.media_id = m.id LEFT JOIN favorites f ON f.media_id = m.id WHERE fm.folder_id = ?",
    );
    let s = library_select();
    assert forall|i: int| 0 <= i < s.len() implies s[i] != '?' by {}
    lemma_no_marks(s);
    let t = folder_select();
    assert forall|i: int| 0 <= i < t.len() - 1 implies t[i] != '?' by {}
    lemma_one_mark_at_end(t);
}

proof fn lemma_order_marks(f: MediaFilter)
    ensures
        count_marks(order_clause(f)) == 2,
{
    reveal_strlit(" ORDER BY ");
    reveal_strlit("m.size_bytes");
    reveal_strlit("m.original_date");
    reveal_strlit(" ");
    reveal_strlit("ASC");
    reveal_strlit("DESC");
    reveal_strlit(" LIMIT ? OFFSET ?");
    let a = " ORDER BY "@;
    let c = order_column(f.sort_by@);
    let d = if f.sort_asc {
        "ASC"@
    } else {
        "DESC"@
    };
    let e = " LIMIT ? OFFSET ?"@;
    assert forall|i: int| 0 <= i < a.len() implies a[i] != '?' by {}
    lemma_no_marks(a);
    assert forall|i: int| 0 <= i < c.len() implies c[i] != '?' by {}
    lemma_no_marks(c);
    assert forall|i: int| 0 <= i < " "@.len() implies " "@[i] != '?' by {}
    lemma_no_marks(" "@);
    assert forall|i: int| 0 <= i < d.len() implies d[i] != '?' by {}
    lemma_no_marks(d);
    lemma_marks_add(a, c);
    lemma_marks_add(a + c, " "@);
    lemma_marks_add(a + c + " "@, d);
    lemma_marks_add(a + c + " "@ + d, e);
    let e1 = e.subrange(0, 7);
    let e2 = e.subrange(7, 8);
    let e3 = e.subrange(8, 16);
    let e4 = e.subrange(16, 17);
    assert(e =~= e1 + e2 + e3 + e4);
    assert forall|i: int| 0 <= i < e1.len() implies e1[i] != '?' by {}
    lemma_no_marks(e1);
    assert forall|i: int| 0 <= i < e3.len() implies e3[i] != '?' by {}
    lemma_no_marks(e3);
    lemma_one_mark_at_end(e2);
    lemma_one_mark_at_end(e4);
    lemma_marks_add(e1, e2);
    lemma_marks_add(e1 + e2, e3);
    lemma_marks_add(e1 + e2 + e3, e4);
}

proof fn lemma_placeholders_marks(n: nat)
    ensures
        count_marks(placeholders(n)) == n,
    decreases n,
{
    reveal_strlit("?");
    reveal_strlit(", ?");
    if n == 1 {
        lemma_one_mark_at_end("?"@);
    } else if n > 1 {
        lemma_placeholders_marks((n - 1) as nat);
        let t = ", ?"@;
        assert forall|i: int| 0 <= i < t.len() - 1 implies t[i] != '?' by {}
        lemma_one_mark_at_end(t);
        lemma_marks_add(placeholders((n - 1) as nat), t);
    }
}

/// Number of `?` in each of `conds`, summed.
pub open spec fn marks_in(conds: Seq<Seq<char>>) -> nat
    decreases conds.len(),
{
    if conds.len() == 0 {
        0
    } else {
        marks_in(conds.drop_last()) + count_marks(conds.last())
    }
}

proof fn lemma_joined_marks(conds: Seq<Seq<char>>, first: Seq<char>, sep: Seq<char>)
    requires
        count_marks(first) == 0,
        count_marks(sep) == 0,
    ensures
        count_marks(joined(conds, first, sep)) == marks_in(conds),
    decreases conds.len(),
{
    if conds.len() > 0 {
        let t = conds.drop_last();
        lemma_joined_marks(t, first, sep);
        assert(t.push(conds.last()) =~= conds);
        lemma_joined_push(t, conds.last(), first, sep);
        let j = joined(t, first, sep);
        let mid = if t.len() == 0 {
            first
        } else {
            sep
        };
        lemma_marks_add(j, mid);
        lemma_marks_add(j + mid, conds.last());
    }
}

proof fn lemma_face_condition_marks(faces: Seq<char>, tail: Seq<char>)
    requires
        count_marks(faces) == 0,
        count_marks(tail) == 1,
    ensures
        count_marks(face_condition(faces, tail)) == 1,
{
    reveal_strlit("EXISTS (SELECT 1 FROM faces ");
    reveal_strlit(" WHERE ");
    reveal_strlit(".media_id = m.id AND ");
    let a = "EXISTS (SELECT 1 FROM faces "@;
    let b = " WHERE "@;
    let c = ".media_id = m.id AND "@;
    assert forall|i: int| 0 <= i < a.len() implies a[i] != '?' by {}
    assert forall|i: int| 0 <= i < b.len() implies b[i] != '?' by {}
    assert forall|i: int| 0 <= i < c.len() implies c[i] != '?' by {}
    lemma_no_marks(a);
    lemma_no_marks(b);
    lemma_no_marks(c);
    lemma_marks_add(a, faces);
    lemma_marks_add(a + faces, b);
    lemma_marks_add(a + faces + b, faces);
    lemma_marks_add(a + faces + b + faces, c);
    lemma_marks_add(a + faces + b + faces + c, faces);
    lemma_marks_add(a + faces + b + faces + c + faces, tail);
}

proof fn lemma_short_literals()
    ensures
        count_marks("fs"@) == 0,
        count_marks("f2"@) == 0,
        count_marks(" WHERE "@) == 0,
        count_marks(" AND "@) == 0,
        count_marks("f.media_id IS NOT NULL"@) == 0,
        count_marks("m.media_type = ?"@) == 1,
        count_marks(".person_id = ?)"@) == 1,
        count_marks(".cluster_id = ?)"@) == 1,
{
    reveal_strlit("fs");
    reveal_strlit("f2");
    reveal_strlit(" WHERE ");
    reveal_strlit(" AND ");
    reveal_strlit("f.media_id IS NOT NULL");
    reveal_strlit("m.media_type = ?");
    reveal_strlit(".person_id = ?)");
    reveal_strlit(".cluster_id = ?)");
    assert forall|i: int| 0 <= i < "fs"@.len() implies "fs"@[i] != '?' by {}
    assert forall|i: int| 0 <= i < "f2"@.len() implies "f2"@[i] != '?' by {}
    assert forall|i: int| 0 <= i < " WHERE "@.len() implies " WHERE "@[i] != '?' by {}
    assert forall|i: int| 0 <= i < " AND "@.len() implies " AND "@[i] != '?' by {}
    assert forall|i: int|
        0 <= i < "f.media_id IS NOT NULL"@.len() implies "f.media_id IS NOT NULL"@[i] != '?' by {}
    lemma_no_marks("fs"@);
    lemma_no_marks("f2"@);
    lemma_no_marks(" WHERE "@);
    lemma_no_marks(" AND "@);
    lemma_no_marks("f.media_id IS NOT NULL"@);
    assert forall|i: int|
        0 <= i < "m.media_type = ?"@.len() - 1 implies "m.media_type = ?"@[i] != '?' by {}
    lemma_one_mark_at_end("m.media_type = ?"@);
    let p = ".person_id = ?)"@;
    let q = ".cluster_id = ?)"@;
    assert(p =~= p.subrange(0, 14) + p.subrange(14, 15));
    assert(q =~= q.subrange(0, 15) + q.subrange(15, 16));
    assert forall|i: int| 0 <= i < 13 implies p.subrange(0, 14)[i] != '?' by {}
    assert forall|i: int| 0 <= i < 14 implies q.subrange(0, 15)[i] != '?' by {}
    assert forall|i: int| 0 <= i < 1 implies p.subrange(14, 15)[i] != '?' by {}
    assert forall|i: int| 0 <= i < 1 implies q.subrange(15, 16)[i] != '?' by {}
    lemma_one_mark_at_end(p.subrange(0, 14));
    lemma_one_mark_at_end(q.subrange(0, 15));
    lemma_no_marks(p.subrange(14, 15));
    lemma_no_marks(q.subrange(15, 16));
    lemma_marks_add(p.subrange(0, 14), p.subrange(14, 15));
    lemma_marks_add(q.subrange(0, 15), q.subrange(15, 16));
}

proof fn lemma_tag_condition_marks(n: nat)
    ensures
        count_marks(tag_condition(n)) == n,
{
    let a =
        "EXISTS (SELECT 1 FROM media_tags mt2 JOIN tags t2 ON t2.id = mt2.tag_id WHERE mt2.media_id = m.id AND t2.name IN ("@;
    reveal_strlit(
        "EXISTS (SELECT 1 FROM media_tags mt2 JOIN tags t2 ON t2.id = mt2.tag_id WHERE mt2.media_id = m.id AND t2.name IN (",
    );
    reveal_strlit("))");
    assert forall|i: int| 0 <= i < a.len() implies a[i] != '?' by {}
    assert forall|i: int| 0 <= i < "))"@.len() implies "))"@[i] != '?' by {}
    lemma_no_marks(a);
    lemma_no_marks("))"@);
    lemma_placeholders_marks(n);
    lemma_marks_add(a, placeholders(n));
    lemma_marks_add(a + placeholders(n), "))"@);
}

proof fn lemma_marks_in_push(c: Seq<Seq<char>>, x: Seq<char>)
    ensures
        marks_in(c.push(x)) == marks_in(c) + count_marks(x),
{
    assert(c.push(x).drop_last() =~= c);
}

/// Placeholders of the filter conditions under faces alias `faces`: one per
/// bound condition value, one per tag name.
proof fn lemma_conditions_marks(f: MediaFilter, faces: Seq<char>)
    requires
        count_marks(faces) == 0,
    ensures
        marks_in(conditions(f, faces)) == condition_args(f).len(),
{
    lemma_short_literals();
    let e: Seq<Seq<char>> = Seq::empty();
    assert(marks_in(e) == 0);
    let c0: Seq<Seq<char>> = if f.media_type is Some {
        e.push("m.media_type = ?"@)
    } else {
        e
    };
    lemma_marks_in_push(e, "m.media_type = ?"@);
    let c1 = if f.favorite {
        c0.push("f.media_id IS NOT NULL"@)
    } else {
        c0
    };
    lemma_marks_in_push(c0, "f.media_id IS NOT NULL"@);
    let pc = face_condition(faces, ".person_id = ?)"@);
    let cc = face_condition(faces, ".cluster_id = ?)"@);
    lemma_face_condition_marks(faces, ".person_id = ?)"@);
    lemma_face_condition_marks(faces, ".cluster_id = ?)"@);
    let c2 = if f.person_id is Some {
        c1.push(pc)
    } else {
        c1
    };
    lemma_marks_in_push(c1, pc);
    let c3 = if f.cluster_id is Some {
        c2.push(cc)
    } else {
        c2
    };
    lemma_marks_in_push(c2, cc);
    lemma_tag_condition_marks(tag_count(f));
    let tc = tag_condition(tag_count(f));
    lemma_marks_in_push(c3, tc);
    assert(seq!["m.media_type = ?"@] =~= e.push("m.media_type = ?"@));
    assert(conditions(f, faces) =~= (if tag_count(f) > 0 {
        c3.push(tc)
    } else {
        c3
    }));
    match f.tags {
        Some(t) => {
            assert(tag_args(t@).len() == t@.len());
        },
        None => {},
    }
}

/// Every `?` of a listing statement has its parameter and every parameter its
/// `?`: the placeholders of the library statement are exactly its
/// parameters, and a folder statement has one more, for the folder id.
pub proof fn law_placeholders_match_parameters(f: MediaFilter)
    ensures
        count_marks(library_sql(f)) == filter_args(f).len(),
        count_marks(folder_sql(f)) == 1 + filter_args(f).len(),
{
    lemma_short_literals();
    lemma_select_marks();
    lemma_order_marks(f);
    lemma_conditions_marks(f, "fs"@);
    lemma_conditions_marks(f, "f2"@);
    lemma_joined_marks(conditions(f, "fs"@), " WHERE "@, " AND "@);
    lemma_joined_marks(conditions(f, "f2"@), " AND "@, " AND "@);
    let jl = joined(conditions(f, "fs"@), " WHERE "@, " AND "@);
    let jf = joined(conditions(f, "f2"@), " AND "@, " AND "@);
    lemma_marks_add(library_select(), jl);
    lemma_marks_add(library_select() + jl, order_clause(f));
    lemma_marks_add(folder_select(), jf);
    lemma_marks_add(folder_select() + jf, order_clause(f));
}

/// Each value is bound to its own placeholder, in the order the conditions
/// appear in the statement: the media type first (its condition comes
/// first), then the person, the cluster, each tag name in the order given,
/// and last the limit and the offset.
pub proof fn law_parameters_in_condition_order(f: MediaFilter)
    ensures
        ({
            let mt: int = if f.media_type is Some { 1 } else { 0 };
            let pc: int = if f.person_id is Some { 1 } else { 0 };
            let cc: int = if f.cluster_id is Some { 1 } else { 0 };
            let args = filter_args(f);
            &&& args.len() == mt + pc + cc + tag_count(f) + 2
            &&& f.media_type matches Some(t) ==> args[0] == SqlArg::Text(t@) && conditions(f, "fs"@)[0]
                == "m.media_type = ?"@ && conditions(f, "f2"@)[0] == "m.media_type = ?"@
            &&& f.person_id matches Some(p) ==> args[mt] == SqlArg::Uuid(p)
            &&& f.cluster_id matches Some(c) ==> args[mt + pc] == SqlArg::Integer(c)
            &&& f.tags matches Some(ts) ==> forall|k: int|
                0 <= k < ts@.len() ==> args[mt + pc + cc + k] == SqlArg::Text(#[trigger] ts@[k]@)
            &&& args[args.len() - 2] == SqlArg::Integer(f.limit as i64)
            &&& args[args.len() - 1] == SqlArg::Integer(f.offset as i64)
        }),
{
    let mt: int = if f.media_type is Some { 1 } else { 0 };
    let pc: int = if f.person_id is Some { 1 } else { 0 };
    let cc: int = if f.cluster_id is Some { 1 } else { 0 };
    let a = condition_args(f);
    match f.tags {
        Some(ts) => {
            assert(tag_args(ts@).len() == ts@.len());
            assert forall|k: int| 0 <= k < ts@.len() implies a[mt + pc + cc + k] == SqlArg::Text(
                #[trigger] ts@[k]@,
            ) by {
                assert(tag_args(ts@)[k] == SqlArg::Text(ts@[k]@));
            }
        },
        None => {},
    }
    assert(tag_count(f) == match f.tags {
        Some(ts) => ts@.len(),
        None => 0,
    });
}

} // verus!
