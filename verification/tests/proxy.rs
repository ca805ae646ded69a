use plex_proxy::media::MediaIndex;
use plex_proxy::plex::{collect_parts, Container, Media, MediaContainer, Metadata, Part};
use plex_proxy::route::{
    capture_metadata, ingest_container, is_capture_route, route_fallback, should_capture,
    ProxyError, Route,
};
use plex_proxy::strutil::{
    make_join_url, str_ends_with, str_eq, str_starts_with, str_strip_prefix,
    str_trim_end_slashes, str_trim_start_slashes,
};
use plex_proxy::tokens::TokenCache;
use plex_proxy::{CAPTURE_BODY_LIMIT, TOKEN_TTL_SECONDS};

fn sample_container() -> Container {
    Container {
        media_container: MediaContainer {
            metadata: vec![Metadata {
                media: vec![Media {
                    parts: vec![Part {
                        key: String::from("/library/metadata/1/part/1"),
                        file: String::from("/data/movies/a.mkv"),
                    }],
                }],
            }],
        },
    }
}

fn captured_state(token: &str) -> (TokenCache, MediaIndex) {
    let mut tokens = TokenCache::new();
    let mut media = MediaIndex::new();
    let container = sample_container();
    let body = vec![1u8, 2, 3];
    let out = capture_metadata(
        &mut tokens,
        &mut media,
        Some(token),
        0,
        body.clone(),
        Some(&container),
    );
    assert_eq!(out, body);
    (tokens, media)
}

#[test]
fn token_added_is_contained() {
    let mut c = TokenCache::new();
    c.add(String::from("t1"), 0);
    assert!(c.contains("t1"));
    assert!(!c.contains("t2"));
}

#[test]
fn token_expires_after_ttl_on_next_add() {
    let mut c = TokenCache::new();
    c.add(String::from("t1"), 0);
    c.add(String::from("t2"), TOKEN_TTL_SECONDS + 1);
    assert!(!c.contains("t1"));
    assert!(c.contains("t2"));
}

#[test]
fn token_within_ttl_survives_next_add() {
    let mut c = TokenCache::new();
    c.add(String::from("t1"), 0);
    c.add(String::from("t2"), TOKEN_TTL_SECONDS);
    assert!(c.contains("t1"));
    assert!(c.contains("t2"));
}

#[test]
fn token_add_is_idempotent_and_refreshes() {
    let mut c = TokenCache::new();
    c.add(String::from("t"), 0);
    c.add(String::from("t"), 1);
    assert!(c.contains("t"));
    // the refreshed timestamp keeps the token alive past the first TTL window
    c.add(String::from("other"), TOKEN_TTL_SECONDS);
    assert!(c.contains("t"));
}

#[test]
fn contains_never_evicts() {
    let mut c = TokenCache::new();
    c.add(String::from("t"), 0);
    // no further add happens; a read long past the TTL still sees the token
    assert!(c.contains("t"));
    assert!(c.contains("t"));
}

#[test]
fn distinct_token_adds_both_observable() {
    let mut c = TokenCache::new();
    c.add(String::from("a"), 5);
    c.add(String::from("b"), 5);
    assert!(c.contains("a"));
    assert!(c.contains("b"));
}

#[test]
fn media_put_then_get() {
    let mut m = MediaIndex::new();
    m.put(String::from("k"), String::from("v"));
    assert_eq!(m.get("k").map(|s| s.as_str()), Some("v"));
    m.put(String::from("k"), String::from("v2"));
    assert_eq!(m.get("k").map(|s| s.as_str()), Some("v2"));
    assert!(m.get("absent").is_none());
}

#[test]
fn distinct_media_puts_both_observable() {
    let mut m = MediaIndex::new();
    m.put(String::from("k1"), String::from("v1"));
    m.put(String::from("k2"), String::from("v2"));
    assert_eq!(m.get("k1").map(|s| s.as_str()), Some("v1"));
    assert_eq!(m.get("k2").map(|s| s.as_str()), Some("v2"));
}

#[test]
fn collect_parts_flattens_in_document_order() {
    let c = Container {
        media_container: MediaContainer {
            metadata: vec![
                Metadata {
                    media: vec![
                        Media {
                            parts: vec![
                                Part {
                                    key: String::from("/k1"),
                                    file: String::from("/f1"),
                                },
                                Part {
                                    key: String::from("/k2"),
                                    file: String::from("/f2"),
                                },
                            ],
                        },
                        Media { parts: vec![] },
                    ],
                },
                Metadata {
                    media: vec![Media {
                        parts: vec![Part {
                            key: String::from("/k3"),
                            file: String::from("/f3"),
                        }],
                    }],
                },
            ],
        },
    };
    let pairs = collect_parts(&c);
    let expected = vec![
        (String::from("/k1"), String::from("/f1")),
        (String::from("/k2"), String::from("/f2")),
        (String::from("/k3"), String::from("/f3")),
    ];
    assert_eq!(pairs, expected);
}

#[test]
fn capture_then_known_token_redirects_to_gateway() {
    let (tokens, media) = captured_state("tok");
    let r = route_fallback(
        &tokens,
        &media,
        "/data",
        "http://gw",
        Some("tok"),
        "/library/metadata/1/part/1",
    );
    match r {
        Route::Gateway(url) => assert_eq!(url, "http://gw/movies/a.mkv"),
        Route::Origin => panic!("expected a gateway redirect"),
    }
}

#[test]
fn gateway_base_trailing_slashes_are_trimmed() {
    let (tokens, media) = captured_state("tok");
    let r = route_fallback(
        &tokens,
        &media,
        "/data",
        "http://gw///",
        Some("tok"),
        "/library/metadata/1/part/1",
    );
    match r {
        Route::Gateway(url) => assert_eq!(url, "http://gw/movies/a.mkv"),
        Route::Origin => panic!("expected a gateway redirect"),
    }
}

#[test]
fn missing_token_goes_to_origin() {
    let (tokens, media) = captured_state("tok");
    let r = route_fallback(
        &tokens,
        &media,
        "/data",
        "http://gw",
        None,
        "/library/metadata/1/part/1",
    );
    assert!(matches!(r, Route::Origin));
}

#[test]
fn unknown_token_goes_to_origin() {
    let (tokens, media) = captured_state("tok");
    let r = route_fallback(
        &tokens,
        &media,
        "/data",
        "http://gw",
        Some("someone-else"),
        "/library/metadata/1/part/1",
    );
    assert!(matches!(r, Route::Origin));
}

#[test]
fn unknown_path_goes_to_origin() {
    let (tokens, media) = captured_state("tok");
    let r = route_fallback(&tokens, &media, "/data", "http://gw", Some("tok"), "/other");
    assert!(matches!(r, Route::Origin));
}

#[test]
fn file_outside_library_root_goes_to_origin() {
    let mut tokens = TokenCache::new();
    let mut media = MediaIndex::new();
    tokens.add(String::from("tok"), 0);
    media.put(
        String::from("/library/metadata/1/part/1"),
        String::from("/elsewhere/movies/a.mkv"),
    );
    let r = route_fallback(
        &tokens,
        &media,
        "/data",
        "http://gw",
        Some("tok"),
        "/library/metadata/1/part/1",
    );
    assert!(matches!(r, Route::Origin));
}

#[test]
fn capture_returns_body_unchanged_on_parse_success() {
    let mut tokens = TokenCache::new();
    let mut media = MediaIndex::new();
    let body = vec![123u8, 34, 97, 34, 58, 49, 125];
    let container = sample_container();
    let out = capture_metadata(
        &mut tokens,
        &mut media,
        Some("tok"),
        0,
        body.clone(),
        Some(&container),
    );
    assert_eq!(out, body);
    assert!(media.get("/library/metadata/1/part/1").is_some());
}

#[test]
fn capture_returns_body_unchanged_on_parse_failure() {
    let mut tokens = TokenCache::new();
    let mut media = MediaIndex::new();
    let body = vec![0u8, 1, 2, 3, 4];
    let out = capture_metadata(&mut tokens, &mut media, Some("tok"), 0, body.clone(), None);
    assert_eq!(out, body);
    // the token is registered even though parsing failed
    assert!(tokens.contains("tok"));
    // nothing was ingested
    assert!(media.get("/library/metadata/1/part/1").is_none());
}

#[test]
fn capture_without_token_registers_nothing() {
    let mut tokens = TokenCache::new();
    let mut media = MediaIndex::new();
    let container = sample_container();
    let out = capture_metadata(&mut tokens, &mut media, None, 0, vec![9u8], Some(&container));
    assert_eq!(out, vec![9u8]);
    assert!(!tokens.contains("tok"));
    assert!(media.get("/library/metadata/1/part/1").is_some());
}

#[test]
fn ingest_overwrites_earlier_pairs() {
    let mut media = MediaIndex::new();
    media.put(String::from("/library/metadata/1/part/1"), String::from("/old"));
    let container = sample_container();
    ingest_container(&mut media, &container);
    assert_eq!(
        media.get("/library/metadata/1/part/1").map(|s| s.as_str()),
        Some("/data/movies/a.mkv")
    );
}

#[test]
fn only_ok_status_is_captured() {
    assert!(should_capture(200));
    assert!(!should_capture(201));
    assert!(!should_capture(301));
    assert!(!should_capture(404));
    assert!(!should_capture(502));
}

#[test]
fn capture_route_matches_children_listing() {
    assert!(is_capture_route("/library/metadata/123/children"));
    assert!(is_capture_route("/library/metadata/x/children"));
    assert!(!is_capture_route("/library/metadata//children"));
    assert!(!is_capture_route("/library/metadata/1/2/children"));
    assert!(!is_capture_route("/library/metadata/1/child"));
    assert!(!is_capture_route("/library/metadata/1/children/"));
    assert!(!is_capture_route("/library/sections/1/children"));
    assert!(!is_capture_route("/"));
}

#[test]
fn join_url_normalizes_separators() {
    assert_eq!(make_join_url("http://gw/", "/a/b"), "http://gw/a/b");
    assert_eq!(make_join_url("http://gw", "a/b"), "http://gw/a/b");
    assert_eq!(make_join_url("http://gw//", "//a"), "http://gw/a");
}

#[test]
fn string_helpers_behave() {
    assert!(str_eq("abc", "abc"));
    assert!(!str_eq("abc", "abd"));
    assert!(str_starts_with("/data/movies", "/data"));
    assert!(!str_starts_with("/dat", "/data"));
    assert!(str_ends_with("a/children", "/children"));
    assert!(!str_ends_with("children", "/childrenX"));
    assert_eq!(str_strip_prefix("/data/movies/a", "/data"), Some("/movies/a"));
    assert_eq!(str_strip_prefix("/other/a", "/data"), None);
    assert_eq!(str_trim_end_slashes("http://gw///"), "http://gw");
    assert_eq!(str_trim_start_slashes("///a/b"), "a/b");
    assert_eq!(str_trim_end_slashes(""), "");
    assert_eq!(str_trim_start_slashes(""), "");
}

#[test]
fn errors_surface_as_bad_gateway() {
    let g = ProxyError::GatewayError;
    let b = ProxyError::BodyTooLarge;
    assert_eq!(g.status_code(), 502);
    assert_eq!(b.status_code(), 502);
    assert_eq!(g.message(), "Failed to proxy request");
    assert_eq!(b.message(), "Failed to read response body");
}

#[test]
fn capture_body_cap_is_one_mebibyte() {
    assert_eq!(CAPTURE_BODY_LIMIT, 1048576);
    assert_eq!(TOKEN_TTL_SECONDS, 900);
}
