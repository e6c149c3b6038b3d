use ani_rust::api::{
    access_denied, after_failure, headers, transfer_allowed, transient, ApiResolver, Failure,
    HeaderError, RateLimiter, ResolveError, Retry, SavedResolver, Transfer, TransferError,
};
use ani_rust::cli::{Language, SourceArgs};
use ani_rust::models::{headers_in_order, DrmValue, Resolved, Source, Track};

fn resolved(url: &str) -> Resolved {
    Resolved {
        sources: vec![Source { url: url.into(), drm: None }],
        headers: vec![("Referer".into(), "https://example.org/".into())],
        tracks: vec![Track { file: "https://example.org/en.vtt".into(), label: "English".into(), kind: String::new() }],
        drm: Some(DrmValue::Null),
    }
}

fn source() -> SourceArgs {
    SourceArgs {
        anime_id: "case-closed-5j4se".into(),
        playlist_only: false,
        source_json: None,
        language: Language::Sub,
        provider: "beep".into(),
        quality: "best".into(),
        display_name: None,
    }
}

#[test]
fn rate_limiter_spaces_requests() {
    let mut r = RateLimiter::new(5, 1_000);
    assert_eq!(r.interval, 200_000_000);
    assert_eq!(r.acquire(1_000), 0);
    assert_eq!(r.acquire(1_000), 200_000_000);
    assert_eq!(r.acquire(300_000_000), 100_001_000);
    assert_eq!(r.next, 600_001_000);
    assert_eq!(r.acquire(2_000_000_000), 0);
    assert_eq!(r.next, 2_200_000_000);
    assert_eq!(RateLimiter::new(0, 0).interval, 1_000_000_000);
    assert_eq!(RateLimiter::new(3, 0).interval, 333_333_333);
    assert_eq!(RateLimiter::new(7, 0).interval, 142_857_143);
    assert_eq!(RateLimiter::new(50, 0).interval, 20_000_000);
}

#[test]
fn transfers_are_bounded() {
    assert_eq!(transfer_allowed("https://example.org/x"), Ok(()));
    assert_eq!(transfer_allowed("HTTP://example.org/x"), Ok(()));
    assert_eq!(transfer_allowed("file:///etc/passwd"), Err(TransferError::NotHttp));
    assert_eq!(transfer_allowed("nonsense"), Err(TransferError::NotHttp));
    let mut t = Transfer::new(10);
    assert_eq!(t.finish(), Err(TransferError::Empty));
    assert_eq!(t.chunk(4), Ok(()));
    assert_eq!(t.chunk(6), Ok(()));
    assert_eq!(t.count, 10);
    assert_eq!(t.chunk(1), Err(TransferError::TooLarge));
    assert_eq!(t.finish(), Ok(()));
}

#[test]
fn retries_back_off_exponentially() {
    let timeout = Failure { timeout: true, connect: false, body: false, status: None };
    assert_eq!(after_failure(&timeout, 0, 3), Retry::After(500));
    assert_eq!(after_failure(&timeout, 1, 3), Retry::After(1000));
    assert_eq!(after_failure(&timeout, 2, 3), Retry::After(2000));
    assert_eq!(after_failure(&timeout, 3, 3), Retry::GiveUp);
    assert_eq!(after_failure(&timeout, 9, 10), Retry::After(256_000));
    let status = |s: u16| Failure { timeout: false, connect: false, body: false, status: Some(s) };
    assert!(transient(&status(429)));
    assert!(transient(&status(500)));
    assert!(transient(&status(599)));
    assert!(!transient(&status(404)));
    assert!(!transient(&status(403)));
    assert_eq!(after_failure(&status(404), 0, 3), Retry::GiveUp);
    let none = Failure { timeout: false, connect: false, body: false, status: None };
    assert!(!transient(&none));
    assert!(transient(&Failure { timeout: false, connect: true, body: false, status: None }));
    assert!(transient(&Failure { timeout: false, connect: false, body: true, status: None }));
}

#[test]
fn header_rules() {
    assert_eq!(headers(&vec![("Referer".into(), "https://x/".into())]), Ok(()));
    assert_eq!(headers(&vec![]), Ok(()));
    assert_eq!(headers(&vec![("Bad Name".into(), "v".into())]), Err(HeaderError::InvalidName));
    assert_eq!(headers(&vec![(String::new(), "v".into())]), Err(HeaderError::InvalidName));
    assert_eq!(headers(&vec![("X".into(), "a\nb".into())]), Err(HeaderError::InvalidValue));
    assert_eq!(headers(&vec![("X".into(), "a\tb".into())]), Ok(()));
}

#[test]
fn saved_responses() {
    let saved = SavedResolver::from_resolved(resolved("https://example.org/a.m3u8"), 3).unwrap();
    assert_eq!(saved.resolve(2).err(), Some(ResolveError::DifferentEpisode));
    let r = saved.resolve(3).unwrap();
    assert_eq!(r.sources[0].url, "https://example.org/a.m3u8");
    assert_eq!(r.tracks[0].label, "English");
    let mut empty = resolved("https://example.org/a.m3u8");
    empty.sources.clear();
    assert_eq!(SavedResolver::from_resolved(empty, 1).err(), Some(ResolveError::NoSources));
    assert_eq!(
        SavedResolver::from_resolved(resolved("ftp://example.org/a.m3u8"), 1).err(),
        Some(ResolveError::NotHttpStream)
    );
    assert_eq!(
        SavedResolver::from_resolved(resolved("a.m3u8"), 1).err(),
        Some(ResolveError::InvalidStreamUrl)
    );
    let mut bad_header = resolved("https://example.org/a.m3u8");
    bad_header.headers.push(("X".into(), "\u{7f}".into()));
    assert_eq!(
        SavedResolver::from_resolved(bad_header, 1).err(),
        Some(ResolveError::Header(HeaderError::InvalidValue))
    );
}

#[test]
fn api_requests() {
    let api = ApiResolver { endpoint: "https://pp.animex.one/rest/api/sources".into() };
    assert_eq!(
        api.request_url(&source(), 12).unwrap(),
        "https://pp.animex.one/rest/api/sources?id=case-closed-5j4se&epNum=12&type=sub&providerId=beep"
    );
    let mut s = source();
    s.anime_id = "a b&c".into();
    s.language = Language::Dub;
    assert_eq!(
        api.request_url(&s, 1).unwrap(),
        "https://pp.animex.one/rest/api/sources?id=a+b%26c&epNum=1&type=dub&providerId=beep"
    );
    let mut empty = resolved("https://example.org/a.m3u8");
    empty.sources.clear();
    assert_eq!(ApiResolver::check(empty).err(), Some(ResolveError::NoSources));
    assert!(ApiResolver::check(resolved("x")).is_ok());
    assert!(access_denied(Some(403)));
    assert!(!access_denied(Some(404)));
    assert!(!access_denied(None));
}

#[test]
fn header_maps_are_ordered() {
    let h = |names: &[&str]| names.iter().map(|n| (n.to_string(), "v".to_string())).collect::<Vec<_>>();
    assert!(headers_in_order(&h(&[])));
    assert!(headers_in_order(&h(&["Origin", "Referer", "referer"])));
    assert!(!headers_in_order(&h(&["Referer", "Origin"])));
    assert!(!headers_in_order(&h(&["Referer", "Referer"])));
    assert!(headers_in_order(&h(&["a", "ab", "b"])));
}
