//! The response cache: which lifetime a route advertises, what a cached
//! answer looks like, and which answers are kept.

use crate::strings::{begins_with, decimal, same_text, text_begins_with, to_decimal};
use moka::sync::Cache;
use vstd::prelude::*;
use vstd::utf8::{decode_utf8, valid_utf8};

verus! {

/// The cache of the `moka` crate, `moka::sync::Cache`, as an opaque
/// type.
#[verifier::external_type_specification]
#[verifier::external_body]
#[verifier::reject_recursive_types(K)]
#[verifier::reject_recursive_types(V)]
#[verifier::reject_recursive_types(S)]
pub struct ExCache<K, V, S>(Cache<K, V, S>);

/// What has been written to a cache: for each key the value of the latest
/// insert. The cache may have dropped any of these entries since, because
/// it expired or had to make room.
pub uninterp spec fn written(cache: Cache<String, String>) -> Map<Seq<char>, Seq<char>>;

/// The lifetime, in seconds, that a cache was built with: the time after
/// an insert at which it drops the entry.
pub uninterp spec fn time_to_live_of(cache: Cache<String, String>) -> u64;

/// The entries of a cache to which nothing has been written.
pub open spec fn no_entries() -> Map<Seq<char>, Seq<char>> {
    Map::empty()
}

/// The longest lifetime that a cache accepts for its entries: a thousand
/// years of 365 days, in seconds.
pub const MAX_TIME_TO_LIVE: u64 = 31_536_000_000;

/// Builds a cache with `Cache::builder()`, `max_capacity`, `time_to_live`
/// and `build`. Nothing has been written to a new cache, and its lifetime
/// is the one it was built with. `build` panics on a lifetime of more than
/// a thousand years, which `requires` leaves out.
#[verifier::external_body]
fn build_cache(max_capacity: u64, time_to_live: u64) -> (r: Cache<String, String>)
    requires
        time_to_live <= MAX_TIME_TO_LIVE,
    ensures
        written(r) == no_entries(),
        time_to_live_of(r) == time_to_live,
{
    Cache::builder().max_capacity(max_capacity).time_to_live(
        std::time::Duration::from_secs(time_to_live),
    ).build()
}

/// Calls `Cache::get`, which returns a clone of the value that the cache
/// holds for the key. Whether an entry is still held depends on time and
/// on room; an entry that is returned is the one written last for the key.
#[verifier::external_body]
fn read_cache(cache: &Cache<String, String>, key: &str) -> (r: Option<String>)
    ensures
        r matches Some(v) ==> written(*cache).contains_key(key@) && written(*cache)[key@] == v@,
{
    cache.get(key)
}

/// Calls `Cache::insert`, which inserts the pair, replacing the value if
/// the key is present. The lifetime that the cache was built with stays.
#[verifier::external_body]
fn write_cache(cache: &mut Cache<String, String>, key: String, value: String)
    ensures
        written(*final(cache)) == written(*old(cache)).insert(key@, value@),
        time_to_live_of(*final(cache)) == time_to_live_of(*old(cache)),
{
    cache.insert(key, value)
}

/// Calls `String::from_utf8`, which turns bytes into a string if and only
/// if they are valid UTF-8; the string then holds the characters that the
/// bytes encode.
#[verifier::external_body]
fn text_from_utf8(bytes: Vec<u8>) -> (r: Option<String>)
    ensures
        match r {
            Some(s) => valid_utf8(bytes@) && s@ == decode_utf8(bytes@),
            None => !valid_utf8(bytes@),
        },
{
    String::from_utf8(bytes).ok()
}

/// The lifetime advertised for routes whose answer never changes.
pub const UNBOUNDED: u64 = u64::MAX;

/// The lifetime, in seconds, that an answer to a request for `path`
/// advertises: unbounded for the root and the food listing, ten minutes
/// for the health report, eight hours for everything else under `/food`,
/// one hour for any other path.
pub open spec fn ttl_of(path: Seq<char>) -> u64 {
    if path == "/"@ || path == "/foods"@ {
        UNBOUNDED
    } else if path == "/health"@ {
        600
    } else if begins_with(path, "/food"@) {
        28800
    } else {
        3600
    }
}

/// The lifetime that an answer to a request for `path` advertises.
pub fn advertised_ttl(path: &str) -> (ttl: u64)
    ensures
        ttl == ttl_of(path@),
{
    if same_text(path, "/") || same_text(path, "/foods") {
        UNBOUNDED
    } else if same_text(path, "/health") {
        600
    } else if text_begins_with(path, "/food") {
        28800
    } else {
        3600
    }
}

/// The value of the `Cache-Control` header for a lifetime in seconds.
pub open spec fn cache_control_of(ttl: u64) -> Seq<char> {
    "public, max-age="@ + decimal(ttl as nat)
}

/// The value of the `Cache-Control` header for a lifetime in seconds.
pub fn cache_control(ttl: u64) -> (r: String)
    ensures
        r@ == cache_control_of(ttl),
{
    let mut out = "public, max-age=".to_owned();
    let digits = to_decimal(ttl);
    let ghost before = out@;
    for c in it: digits.as_str().chars()
        invariant
            it.seq() == digits@,
            out@ == before + digits@.take(it.index()),
    {
        out.push(c);
        assert(digits@.take(it.index() + 1) == digits@.take(it.index()).push(digits@[it.index()]));
    }
    assert(digits@.take(digits@.len() as int) == digits@);
    out
}

/// The status of an answer that may be cached.
pub const STATUS_OK: u16 = 200;

/// The lifetime, in seconds, after which the cache drops an entry, whatever
/// lifetime its route advertises.
pub const ENTRY_TIME_TO_LIVE: u64 = 600;

/// An answer that the cache layer gives itself.
#[derive(Clone, Debug, PartialEq, Eq)]
pub struct Reply {
    pub status: u16,
    pub content_type: String,
    pub cache_control: String,
    pub body: String,
}

/// What a reply says, as mathematical values.
pub struct ReplyView {
    pub status: u16,
    pub content_type: Seq<char>,
    pub cache_control: Seq<char>,
    pub body: Seq<char>,
}

impl View for Reply {
    type V = ReplyView;

    open spec fn view(&self) -> ReplyView {
        ReplyView {
            status: self.status,
            content_type: self.content_type@,
            cache_control: self.cache_control@,
            body: self.body@,
        }
    }
}

/// What the cache layer does with the answer of the handler it wraps.
#[derive(Clone, Debug, PartialEq, Eq)]
pub enum Settled {
    /// The answer was not a success: it goes out as it is and is not kept.
    PassThrough,
    /// The answer was a success, but its body is no text: the request
    /// fails with an internal error, and nothing is kept.
    Failed,
    /// The answer was a success: its body is kept, and this reply goes out.
    Answer(Reply),
}

/// The reply that carries `body` for a request for `path`: a success, of
/// JSON content, with the lifetime of the route. A hit and a miss answer
/// alike.
pub open spec fn json_reply(path: Seq<char>, body: Seq<char>) -> ReplyView {
    ReplyView {
        status: STATUS_OK,
        content_type: "application/json"@,
        cache_control: cache_control_of(ttl_of(path)),
        body,
    }
}

/// What has been written to the cache once the handler's answer is
/// settled: the body of a success, under the URL of the request; of any
/// other answer, nothing.
pub open spec fn after_settle(
    entries: Map<Seq<char>, Seq<char>>,
    url: Seq<char>,
    status: u16,
    body: Seq<u8>,
) -> Map<Seq<char>, Seq<char>> {
    if status == STATUS_OK && valid_utf8(body) {
        entries.insert(url, decode_utf8(body))
    } else {
        entries
    }
}

/// The reply for a body, cached or fresh, to a request for `path`.
pub fn reply_with(path: &str, body: String) -> (r: Reply)
    ensures
        r@ == json_reply(path@, body@),
{
    Reply {
        status: STATUS_OK,
        content_type: "application/json".to_owned(),
        cache_control: cache_control(advertised_ttl(path)),
        body,
    }
}

/// The text of a body that the cache may have given.
pub open spec fn body_text(cached: Option<String>) -> Option<Seq<char>> {
    match cached {
        Some(body) => Some(body@),
        None => None,
    }
}

/// What an optional reply says.
pub open spec fn reply_view(reply: Option<Reply>) -> Option<ReplyView> {
    match reply {
        Some(r) => Some(r@),
        None => None,
    }
}

/// What the cache layer answers from what the cache gave for the URL of a
/// request for `path`: the reply that carries the body, if the cache gave
/// one; nothing, so that the handler runs, if it gave none.
pub open spec fn answer_of(path: Seq<char>, cached: Option<Seq<char>>) -> Option<ReplyView> {
    match cached {
        Some(body) => Some(json_reply(path, body)),
        None => None,
    }
}

/// The answer to a request for `path` from what the cache gave for its
/// URL.
pub fn answer_from(path: &str, cached: Option<String>) -> (r: Option<Reply>)
    ensures
        reply_view(r) == answer_of(path@, body_text(cached)),
{
    match cached {
        Some(body) => Some(reply_with(path, body)),
        None => None,
    }
}

/// The cache in front of the read API. Its key is the URL of a request,
/// path and query; its value is the body of the successful answer.
pub struct ResponseCache {
    entries: Cache<String, String>,
}

impl ResponseCache {
    /// What has been written to the cache: for each URL the body kept
    /// last. The cache may have dropped any of it since.
    pub closed spec fn stored(&self) -> Map<Seq<char>, Seq<char>> {
        written(self.entries)
    }

    /// The lifetime, in seconds, after which the cache drops an entry. It
    /// is set when the cache is made and is the same for every entry,
    /// whatever lifetime the route of the entry advertises.
    pub closed spec fn entry_time_to_live(&self) -> u64 {
        time_to_live_of(self.entries)
    }

    /// A cache for up to `max_capacity` answers that drops each entry after
    /// `ENTRY_TIME_TO_LIVE` seconds.
    pub fn new(max_capacity: u64) -> (r: ResponseCache)
        ensures
            r.stored() == no_entries(),
            r.entry_time_to_live() == ENTRY_TIME_TO_LIVE,
    {
        ResponseCache { entries: build_cache(max_capacity, ENTRY_TIME_TO_LIVE) }
    }

    /// A cache for up to `max_capacity` answers that drops each entry after
    /// `time_to_live` seconds; none if that is longer than
    /// `MAX_TIME_TO_LIVE`.
    pub fn with_time_to_live(max_capacity: u64, time_to_live: u64) -> (r: Option<ResponseCache>)
        ensures
            r is Some <==> time_to_live <= MAX_TIME_TO_LIVE,
            r matches Some(c) ==> c.stored() == no_entries() && c.entry_time_to_live()
                == time_to_live,
    {
        if time_to_live <= MAX_TIME_TO_LIVE {
            Some(ResponseCache { entries: build_cache(max_capacity, time_to_live) })
        } else {
            None
        }
    }

    /// Tells whether an answer with this status is kept: only a success
    /// is. The body of any other answer need not even be read.
    pub fn keeps(status: u16) -> (r: bool)
        ensures
            r == (status == STATUS_OK),
    {
        status == STATUS_OK
    }

    /// Looks for a kept answer to the request. Whether the cache still
    /// holds an entry depends on time and on room, so a reply is never
    /// owed. A reply that is found is the body kept last for the URL, with
    /// the lifetime that the route advertises now; `answer_from` says what
    /// is answered for each thing the cache may give. Without a reply the
    /// handler has to run.
    pub fn lookup(&self, url: &str, path: &str) -> (r: Option<Reply>)
        ensures
            r matches Some(reply) ==> self.stored().contains_key(url@) && reply@ == json_reply(
                path@,
                self.stored()[url@],
            ),
    {
        answer_from(path, read_cache(&self.entries, url))
    }

    /// Settles the answer that the wrapped handler gave to a request that
    /// the cache could not answer. Only a success is kept.
    pub fn settle(&mut self, url: &str, path: &str, status: u16, body: Vec<u8>) -> (r: Settled)
        ensures
            final(self).stored() == after_settle(old(self).stored(), url@, status, body@),
            final(self).entry_time_to_live() == old(self).entry_time_to_live(),
            status != STATUS_OK ==> r is PassThrough,
            status == STATUS_OK && !valid_utf8(body@) ==> r is Failed,
            status == STATUS_OK && valid_utf8(body@) ==> (r matches Settled::Answer(reply)
                && reply@ == json_reply(path@, decode_utf8(body@))),
    {
        if status != STATUS_OK {
            return Settled::PassThrough;
        }
        match text_from_utf8(body) {
            Some(text) => {
                write_cache(&mut self.entries, url.to_owned(), text.clone());
                Settled::Answer(reply_with(path, text))
            },
            None => Settled::Failed,
        }
    }
}

/// An answer that is not a success is never kept: settling it leaves the
/// cache as it was, so a URL that the cache could not answer before cannot
/// be answered from it afterwards.
pub proof fn lemma_failure_is_not_kept(
    entries: Map<Seq<char>, Seq<char>>,
    url: Seq<char>,
    status: u16,
    body: Seq<u8>,
)
    requires
        status != STATUS_OK,
    ensures
        after_settle(entries, url, status, body) == entries,
        !entries.contains_key(url) ==> !after_settle(entries, url, status, body).contains_key(url),
{
}

/// Settling an answer touches the entry of its own URL only: two requests
/// that differ in their query are kept apart.
pub proof fn lemma_settle_keeps_other_urls(
    entries: Map<Seq<char>, Seq<char>>,
    url: Seq<char>,
    status: u16,
    body: Seq<u8>,
    other: Seq<char>,
)
    requires
        other != url,
    ensures
        after_settle(entries, url, status, body).contains_key(other) == entries.contains_key(other),
        entries.contains_key(other) ==> after_settle(entries, url, status, body)[other]
            == entries[other],
{
}

} // verus!
