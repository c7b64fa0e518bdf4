//! Bodies and query strings of API requests, and the listing filter they ask for.
use vstd::prelude::*;

use crate::filenames::chars_eq;
use crate::query::{
    page_and_limit, paging, parse_tags, tag_filter, MediaFilter, DEFAULT_PAGE_LIMIT, MAX_PAGE_LIMIT,
};
use crate::text::{push_str, str_chars};

verus! {

/// Query string of a listing (library or folder).
pub struct Pagination {
    pub page: Option<usize>,
    pub limit: Option<usize>,
    pub media_type: Option<String>,
    pub favorite: Option<bool>,
    /// Comma-separated tag names.
    pub tags: Option<String>,
    /// Sort direction: "asc" or "desc" (default "desc").
    pub sort: Option<String>,
    /// Sort field: "date" or "size" (default "date").
    pub sort_by: Option<String>,
}

/// Body of a login request.
pub struct LoginRequest {
    pub password: String,
}

/// Body of a favorite toggle.
pub struct FavoriteRequest {
    pub favorite: bool,
}

/// Body of a request to learn a tag from its manual examples.
pub struct LearnTagRequest {
    pub tag_name: String,
}

pub open spec fn str_view(o: Option<String>) -> Option<Seq<char>> {
    match o {
        Some(s) => Some(s@),
        None => None,
    }
}

pub open spec fn strings_view(o: Option<Vec<String>>) -> Option<Seq<Seq<char>>> {
    match o {
        Some(v) => Some(v@.map_values(|x: String| x@)),
        None => None,
    }
}

/// The page and page size of `p` give an offset that fits in `usize`.
pub open spec fn offset_fits(p: Pagination) -> bool {
    (page_and_limit(p.page, p.limit).0 - 1) * page_and_limit(p.page, p.limit).1 <= usize::MAX
}

/// Whether the offset of `p` fits in `usize` (so that `list_filter` may be asked).
pub fn offset_fits_check(p: &Pagination) -> (r: bool)
    ensures
        r == offset_fits(*p),
{
    let page: usize = match p.page {
        Some(x) => if x < 1 {
            1
        } else {
            x
        },
        None => 1,
    };
    let limit: usize = match p.limit {
        Some(x) => if x < MAX_PAGE_LIMIT {
            x
        } else {
            MAX_PAGE_LIMIT
        },
        None => DEFAULT_PAGE_LIMIT,
    };
    match (page - 1).checked_mul(limit) {
        Some(_) => true,
        None => false,
    }
}

/// `f` is the filter that `p` asks for: page at least 1, at most
/// `MAX_PAGE_LIMIT` items from offset `(page - 1) * limit`, ascending only for
/// `sort=asc`, ordered by `sort_by` (default `date`), favorites only when asked,
/// and the parsed tag list.
pub open spec fn filter_for(p: Pagination, f: MediaFilter) -> bool {
    let (page, limit) = page_and_limit(p.page, p.limit);
    &&& f.limit == limit
    &&& f.offset == (page - 1) * limit
    &&& str_view(f.media_type) == str_view(p.media_type)
    &&& f.favorite == (p.favorite == Some(true))
    &&& strings_view(f.tags) == tag_filter(str_view(p.tags))
    &&& f.person_id is None
    &&& f.cluster_id is None
    &&& f.sort_asc == (str_view(p.sort) == Some("asc"@))
    &&& f.sort_by@ == (match p.sort_by {
        Some(s) => s@,
        None => "date"@,
    })
}

fn equals_literal(s: &String, lit: &str) -> (r: bool)
    ensures
        r == (s@ == lit@),
{
    let a = str_chars(s.as_str());
    let b = str_chars(lit);
    chars_eq(&a, &b)
}

fn clone_opt(o: &Option<String>) -> (r: Option<String>)
    ensures
        str_view(r) == str_view(*o),
{
    match o {
        Some(s) => Some(s.clone()),
        None => None,
    }
}

/// The listing filter a query string asks for.
pub fn list_filter(p: &Pagination) -> (f: MediaFilter)
    requires
        offset_fits(*p),
    ensures
        filter_for(*p, f),
{
    let (_page, limit, offset) = paging(p.page, p.limit);
    let sort_asc = match &p.sort {
        Some(s) => equals_literal(s, "asc"),
        None => false,
    };
    let sort_by = match &p.sort_by {
        Some(s) => s.clone(),
        None => {
            let mut d = String::new();
            push_str(&mut d, "date");
            d
        },
    };
    let favorite = match p.favorite {
        Some(b) => b,
        None => false,
    };
    let tags = match &p.tags {
        Some(t) => parse_tags(Some(t.as_str())),
        None => parse_tags(None),
    };
    MediaFilter {
        media_type: clone_opt(&p.media_type),
        favorite,
        tags,
        person_id: None,
        cluster_id: None,
        sort_asc,
        sort_by,
        limit,
        offset,
    }
}

} // verus!
