//! Reverse image search on an external service: the addresses involved and
//! how its answer becomes the link handed to the user.
use vstd::prelude::*;

use crate::error::DomainError;
use crate::text::push_str;

verus! {

/// Default address of the external search service.
pub open spec fn default_search_base() -> Seq<char> {
    "https://yandex.com"@
}

/// The default service address.
pub fn default_search_base_url() -> (s: String)
    ensures
        s@ == default_search_base(),
{
    let mut s = String::new();
    push_str(&mut s, "https://yandex.com");
    s
}

/// Where the image is posted: the search page, asking for a JSON answer.
pub open spec fn upload_endpoint(base: Seq<char>) -> Seq<char> {
    base + "/images/search?rpt=imageview&format=json"@
}

/// The address the image is posted to.
pub fn search_upload_url(base: &str) -> (url: String)
    ensures
        url@ == upload_endpoint(base@),
{
    let mut u = String::new();
    push_str(&mut u, base);
    push_str(&mut u, "/images/search?rpt=imageview&format=json");
    u
}

/// The message when the answer carries no result link.
pub open spec fn no_link_message() -> Seq<char> {
    "Could not extract search URL from Yandex response."@
}

/// The link to the results: the query string the service returned in its
/// first block, appended to its search page.
pub open spec fn result_link(base: Seq<char>, query: Seq<char>) -> Seq<char> {
    base + "/images/search?"@ + query
}

/// The link handed to the user, from the `url` parameter of the answer's
/// first block (`None` when there is no block or no such parameter).
pub fn search_result_link(base: &str, first_block_url: Option<&str>) -> (r: Result<String, DomainError>)
    ensures
        match first_block_url {
            Some(q) => r matches Ok(s) && s@ == result_link(base@, q@),
            None => match r {
                Err(DomainError::Network(m)) => m@ == no_link_message(),
                _ => false,
            },
        },
{
    match first_block_url {
        Some(q) => {
            let mut s = String::new();
            push_str(&mut s, base);
            push_str(&mut s, "/images/search?");
            push_str(&mut s, q);
            Ok(s)
        },
        None => {
            let mut m = String::new();
            push_str(&mut m, "Could not extract search URL from Yandex response.");
            Err(DomainError::Network(m))
        },
    }
}

} // verus!
