//! The routing policy: the capture-route matcher, the fallback decision
//! between origin and storage gateway, the capture-route ingestion step,
//! and the error classification every failed exchange surfaces as.

use vstd::prelude::*;
use crate::media::MediaIndex;
use crate::plex::{container_pairs, collect_parts, pairs_view, Container};
use crate::strutil::{
    ends_with, join_url, make_join_url, starts_with, str_ends_with, str_starts_with,
    str_strip_prefix,
};
use crate::tokens::{add_spec, TokenCache};
use vstd::string::StrSliceExecFns;

verus! {

/// Where a non-capture request is sent.
pub enum Route {
    /// Proxy unchanged to the origin server.
    Origin,
    /// Issue a plain GET to this storage-gateway URL.
    Gateway(String),
}

pub open spec fn opt_str_view(o: Option<&str>) -> Option<Seq<char>> {
    match o {
        None => None,
        Some(t) => Some(t@),
    }
}

/// The fallback decision: a request is redirected to the gateway exactly
/// when it carries a known token, its path is a known media key, and the
/// reported file lies under the library root; the redirect target is the
/// gateway base joined with the file's path relative to the root. In every
/// other case the request goes to the origin.
pub open spec fn decide_route(
    tokens: Map<Seq<char>, u64>,
    media: Map<Seq<char>, Seq<char>>,
    library_root: Seq<char>,
    gateway_base: Seq<char>,
    token: Option<Seq<char>>,
    path: Seq<char>,
) -> Option<Seq<char>> {
    match token {
        None => None,
        Some(t) => if tokens.contains_key(t) && media.contains_key(path) && starts_with(
            media[path],
            library_root,
        ) {
            Some(
                join_url(
                    gateway_base,
                    media[path].subrange(library_root.len() as int, media[path].len() as int),
                ),
            )
        } else {
            None
        },
    }
}

/// The policy applied to every request that does not match the capture
/// route.
pub fn route_fallback(
    tokens: &TokenCache,
    media: &MediaIndex,
    library_root: &str,
    gateway_base: &str,
    token: Option<&str>,
    path: &str,
) -> (r: Route)
    requires
        tokens.wf(),
        media.wf(),
    ensures
        ({
            let d = decide_route(
                tokens@,
                media@,
                library_root@,
                gateway_base@,
                opt_str_view(token),
                path@,
            );
            &&& (r is Origin <==> d is None)
            &&& (r matches Route::Gateway(u) ==> d == Some(u@))
        }),
{
    match token {
        None => Route::Origin,
        Some(t) => {
            if !tokens.contains(t) {
                Route::Origin
            } else {
                match media.get(path) {
                    None => Route::Origin,
                    Some(file) => {
                        match str_strip_prefix(file.as_str(), library_root) {
                            None => Route::Origin,
                            Some(rest) => Route::Gateway(make_join_url(gateway_base, rest)),
                        }
                    },
                }
            }
        },
    }
}

/// The path shape of the metadata-capture route: the children listing of a
/// single metadata id — a nonempty id segment without separators between
/// the fixed prefix and suffix.
pub open spec fn is_capture_path(p: Seq<char>) -> bool {
    &&& p.len() > "/library/metadata/"@.len() + "/children"@.len()
    &&& starts_with(p, "/library/metadata/"@)
    &&& ends_with(p, "/children"@)
    &&& forall|x: int|
        "/library/metadata/"@.len() <= x < p.len() - "/children"@.len() ==> p[x] != '/'
}

pub fn is_capture_route(path: &str) -> (b: bool)
    ensures
        b == is_capture_path(path@),
{
    let pre = "/library/metadata/";
    let suf = "/children";
    proof {
        reveal_strlit("/library/metadata/");
        reveal_strlit("/children");
    }
    let n = path.unicode_len();
    let a = pre.unicode_len();
    let c = suf.unicode_len();
    proof {
        assert(a == 18);
        assert(c == 9);
    }
    if n <= a + c {
        return false;
    }
    if !str_starts_with(path, pre) {
        return false;
    }
    if !str_ends_with(path, suf) {
        return false;
    }
    let stop = n - c;
    let mut x = a;
    while x < stop
        invariant
            18 <= x <= stop,
            stop == n - 9,
            n == path@.len(),
            n > 27,
            forall|y: int| 18 <= y < x ==> path@[y] != '/',
        decreases stop - x,
    {
        if path.get_char(x) == '/' {
            proof {
                reveal_strlit("/library/metadata/");
                reveal_strlit("/children");
            }
            return false;
        }
        x = x + 1;
    }
    true
}

/// Folding (key, file) pairs into a media map in order: a later pair wins
/// over an earlier one with the same key.
pub open spec fn insert_all(
    m: Map<Seq<char>, Seq<char>>,
    ps: Seq<(Seq<char>, Seq<char>)>,
) -> Map<Seq<char>, Seq<char>>
    decreases ps.len(),
{
    if ps.len() == 0 {
        m
    } else {
        insert_all(m.insert(ps[0].0, ps[0].1), ps.drop_first())
    }
}

/// Upserts every (key, file) pair of the document into the index, in
/// document order.
pub fn ingest_container(media: &mut MediaIndex, c: &Container)
    requires
        old(media).wf(),
    ensures
        final(media).wf(),
        final(media)@ == insert_all(old(media)@, container_pairs(*c)),
{
    let parts = collect_parts(c);
    let ghost ps = container_pairs(*c);
    proof {
        crate::plex::lemma_pairs_view_index(parts@);
        assert(ps.skip(0) =~= ps);
    }
    let n = parts.len();
    let mut idx: usize = 0;
    while idx < n
        invariant
            0 <= idx <= n,
            n == parts@.len(),
            pairs_view(parts@) == ps,
            ps.len() == n,
            media.wf(),
            insert_all(old(media)@, ps) == insert_all(media@, ps.skip(idx as int)),
        decreases n - idx,
    {
        let pair = &parts[idx];
        let ghost mprev = media@;
        media.put(pair.0.clone(), pair.1.clone());
        proof {
            crate::plex::lemma_pairs_view_index(parts@);
            assert(ps[idx as int] == (parts@[idx as int].0@, parts@[idx as int].1@));
            assert(ps.skip(idx as int)[0] == ps[idx as int]);
            assert(ps.skip(idx as int).drop_first() =~= ps.skip(idx + 1));
            assert(media@ == mprev.insert(ps[idx as int].0, ps[idx as int].1));
        }
        idx = idx + 1;
    }
    proof {
        assert(ps.skip(n as int) =~= Seq::<(Seq<char>, Seq<char>)>::empty());
    }
}

/// The capture route buffers, parses and re-emits the body only for an OK
/// origin status; any other status streams straight through.
pub fn should_capture(status: u16) -> (b: bool)
    ensures
        b == (status == 200),
{
    status == 200
}

/// The capture step for a buffered OK response from the metadata-children
/// route: the token, if the request carried one, is registered whatever the
/// parse outcome; a parsed document has all its (key, file) pairs upserted;
/// and the buffered bytes come back unchanged either way, so the client
/// sees exactly what the origin sent.
pub fn capture_metadata(
    tokens: &mut TokenCache,
    media: &mut MediaIndex,
    token: Option<&str>,
    now: u64,
    body: Vec<u8>,
    doc: Option<&Container>,
) -> (out: Vec<u8>)
    requires
        old(tokens).wf(),
        old(media).wf(),
    ensures
        final(tokens).wf(),
        final(media).wf(),
        out@ == body@,
        token matches Some(t) ==> final(tokens)@ == add_spec(old(tokens)@, t@, now),
        token is None ==> final(tokens)@ == old(tokens)@,
        doc matches Some(c) ==> final(media)@ == insert_all(old(media)@, container_pairs(*c)),
        doc is None ==> final(media)@ == old(media)@,
{
    match token {
        Some(t) => {
            let owned = String::from_str(t);
            tokens.add(owned, now);
        },
        None => {},
    }
    match doc {
        Some(c) => {
            ingest_container(media, c);
        },
        None => {},
    }
    body
}

/// Classification of a failed exchange; every variant surfaces to the
/// client as HTTP 502 with a fixed short text body.
pub enum ProxyError {
    /// The upstream connection could not be established, the request could
    /// not be sent, or the upstream broke before the response completed.
    GatewayError,
    /// A buffered capture-route body exceeded the fixed cap.
    BodyTooLarge,
}

impl ProxyError {
    pub fn status_code(&self) -> (s: u16)
        ensures
            s == 502,
    {
        502
    }

    pub fn message(&self) -> (m: &'static str)
        ensures
            self is GatewayError ==> m@ == "Failed to proxy request"@,
            self is BodyTooLarge ==> m@ == "Failed to read response body"@,
    {
        match self {
            ProxyError::GatewayError => "Failed to proxy request",
            ProxyError::BodyTooLarge => "Failed to read response body",
        }
    }
}

/// A request with no token, or a token the cache does not hold, is proxied
/// to the origin — never to the gateway.
pub proof fn lemma_unknown_token_goes_origin(
    tokens: Map<Seq<char>, u64>,
    media: Map<Seq<char>, Seq<char>>,
    library_root: Seq<char>,
    gateway_base: Seq<char>,
    token: Option<Seq<char>>,
    path: Seq<char>,
)
    requires
        match token {
            None => true,
            Some(t) => !tokens.contains_key(t),
        },
    ensures
        decide_route(tokens, media, library_root, gateway_base, token, path) is None,
{
}

/// A media entry whose file does not start with the library root never
/// causes a gateway redirect, even with a known token and a matching key.
pub proof fn lemma_foreign_file_goes_origin(
    tokens: Map<Seq<char>, u64>,
    media: Map<Seq<char>, Seq<char>>,
    library_root: Seq<char>,
    gateway_base: Seq<char>,
    token: Option<Seq<char>>,
    path: Seq<char>,
)
    requires
        media.contains_key(path),
        !starts_with(media[path], library_root),
    ensures
        decide_route(tokens, media, library_root, gateway_base, token, path) is None,
{
}

} // verus!
