//! What each route answers, as plain values: the handlers of the read API
//! without their transport.

use crate::error::{BAD_REQUEST, NOT_FOUND};
use crate::food::{texts, views, Food};
use crate::model::{found_by_slug, listed_slugs, search_result};
use crate::order::{sort_texts, sorted};
use crate::search::{ranked, sort_foods_by_relevance};
use crate::store::Store;
use crate::strings::same_text;
use crate::text::{lowercase, lowercase_of};
use vstd::prelude::*;
use vstd::string::*;

verus! {

/// The failure of a handler: the status it answers with and a message.
#[derive(Clone, Debug, PartialEq, Eq)]
pub struct HandlerError {
    pub status: u16,
    pub message: String,
}

/// A failure with this status and message.
pub open spec fn fails_with(e: HandlerError, status: u16, message: Seq<char>) -> bool {
    e.status == status && e.message@ == message
}

/// The keys and values of a list of pairs.
pub open spec fn pairs(v: Seq<(String, String)>) -> Seq<(Seq<char>, Seq<char>)> {
    Seq::new(v.len(), |i: int| (v[i].0@, v[i].1@))
}

/// The keys of a list of pairs.
pub open spec fn keys(v: Seq<(String, String)>) -> Seq<Seq<char>> {
    Seq::new(v.len(), |i: int| v[i].0@)
}

/// `GET /food/{slug}`: the food with this slug, or a 404.
pub fn get_food_handler(store: &Store, slug: &str) -> (r: Result<Food, HandlerError>)
    requires
        store.wf(),
    ensures
        match found_by_slug(store.records(), slug@) {
            Some(rec) => r matches Ok(f) && f@ == rec,
            None => r matches Err(e) && fails_with(
                e,
                NOT_FOUND,
                "Bu yemekle ilgili veriye ulaşılamadı"@,
            ),
        },
{
    match store.select_food_by_slug(slug) {
        Ok(food) => Ok(food),
        Err(_) => Err(
            HandlerError {
                status: NOT_FOUND,
                message: "Bu yemekle ilgili veriye ulaşılamadı".to_owned(),
            },
        ),
    }
}

/// The address of a food in the listing.
pub open spec fn listed_url(base_url: Seq<char>, slug: Seq<char>) -> Seq<char> {
    base_url + "/foods/"@ + slug
}

/// `GET /foods`: the slug of every verified food with its address, in
/// alphabetical order of the slugs.
pub fn get_foods_handler(store: &Store, base_url: &str) -> (r: Vec<(String, String)>)
    ensures
        sorted(keys(r@)),
        keys(r@).to_multiset() == listed_slugs(store.records()).to_multiset(),
        forall|i: int| 0 <= i < r.len() ==> (#[trigger] r[i]).1@ == listed_url(base_url@, r[i].0@),
{
    let slugs = store.select_all_foods_slugs();
    let ordered = sort_texts(&slugs);
    let mut out: Vec<(String, String)> = Vec::new();
    let mut i: usize = 0;
    while i < ordered.len()
        invariant
            i <= ordered.len(),
            out.len() == i,
            forall|k: int| 0 <= k < i ==> (#[trigger] out[k]).0@ == ordered[k]@,
            forall|k: int| 0 <= k < i ==> (#[trigger] out[k]).1@ == listed_url(base_url@, out[k].0@),
        decreases ordered.len() - i,
    {
        let mut url = base_url.to_owned();
        url.append("/foods/");
        url.append(ordered[i].as_str());
        out.push((ordered[i].clone(), url));
        i += 1;
    }
    assert(keys(out@) =~= texts(ordered@));
    out
}

/// A search mode that looks at descriptions: `description` or `name`.
pub open spec fn is_description_mode(lowered: Seq<char>) -> bool {
    lowered == "description"@ || lowered == "name"@
}

/// Tells whether a search mode, given in lowercase, looks at
/// descriptions.
pub fn description_mode(lowered: &str) -> (r: bool)
    ensures
        r == is_description_mode(lowered@),
{
    same_text(lowered, "description") || same_text(lowered, "name")
}

/// `GET /foods/search`: the foods whose description holds the query,
/// at most `limit` of them, ranked. Only the modes `description` and
/// `name`, in any case, are served; any other mode is a bad request.
pub fn get_foods_search_handler(store: &Store, query: &str, mode: &str, limit: u64) -> (r: Result<
    Vec<Food>,
    HandlerError,
>)
    requires
        store.wf(),
    ensures
        if is_description_mode(lowercase_of(mode@)) {
            r matches Ok(foods) && views(foods@) == ranked(
                search_result(store.records(), query@, limit as int),
                query@,
            )
        } else {
            r matches Err(e) && fails_with(e, BAD_REQUEST, "Geçersiz sorgu!"@)
        },
{
    let lowered = lowercase(mode);
    if description_mode(lowered.as_str()) {
        let found = store.search_food_by_description_wild(query, limit);
        Ok(sort_foods_by_relevance(&found, query))
    } else {
        Err(HandlerError { status: BAD_REQUEST, message: "Geçersiz sorgu!".to_owned() })
    }
}

/// The discovery document: the name of each endpoint with its address
/// under `base_url`, in alphabetical order of the names.
pub open spec fn endpoints_of(base_url: Seq<char>) -> Seq<(Seq<char>, Seq<char>)> {
    seq![
        ("api_health_url"@, base_url + "/"@ + "health"@),
        ("get_food_url"@, base_url + "/"@ + "food/{slug}"@),
        ("list_all_foods_url"@, base_url + "/"@ + "foods/list"@),
        (
            "search_food_url"@,
            base_url + "/"@ + "foods/search?q={query}&mode={description, tag}&limit={limit}"@,
        ),
        ("show_all_tags"@, base_url + "/"@ + "tags"@),
    ]
}

/// One entry of the discovery document.
fn endpoint(name: &str, base_url: &str, path: &str) -> (r: (String, String))
    ensures
        r.0@ == name@,
        r.1@ == base_url@ + "/"@ + path@,
{
    let mut url = base_url.to_owned();
    url.append("/");
    url.append(path);
    (name.to_owned(), url)
}

/// `GET /`: the discovery document.
pub fn endpoints(base_url: &str) -> (r: Vec<(String, String)>)
    ensures
        pairs(r@) == endpoints_of(base_url@),
{
    let mut out: Vec<(String, String)> = Vec::new();
    out.push(endpoint("api_health_url", base_url, "health"));
    out.push(endpoint("get_food_url", base_url, "food/{slug}"));
    out.push(endpoint("list_all_foods_url", base_url, "foods/list"));
    out.push(
        endpoint(
            "search_food_url",
            base_url,
            "foods/search?q={query}&mode={description, tag}&limit={limit}",
        ),
    );
    out.push(endpoint("show_all_tags", base_url, "tags"));
    assert(pairs(out@) =~= endpoints_of(base_url@));
    out
}

} // verus!
