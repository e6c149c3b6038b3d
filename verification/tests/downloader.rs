use ani_rust::api::HeaderError;
use ani_rust::cli::{Language, SourceArgs};
use ani_rust::downloader::{
    anime_folder, artifact, artifact_intact, artifact_name_safe, artifact_names, episode_dir,
    is_hls, is_mp4, manifest, manifest_matches, plan_stream, run_summary, saved_episodes_ok,
    stage_prefix, stream_protected, episode_complete, episode_start, EpisodeError, EpisodeStart,
    Mp4Error, Mp4Scan, Stream, Artifact,
};
use ani_rust::models::{protected, DrmValue, Resolved, Source};

fn source() -> SourceArgs {
    SourceArgs {
        anime_id: "case-closed-5j4se".into(),
        playlist_only: false,
        source_json: None,
        language: Language::Sub,
        provider: "beep".into(),
        quality: "best".into(),
        display_name: None,
    }
}

fn resolved(url: &str) -> Resolved {
    Resolved {
        sources: vec![Source { url: url.into(), drm: None }],
        headers: vec![],
        tracks: vec![],
        drm: None,
    }
}

#[test]
fn folder_names() {
    let mut s = source();
    assert_eq!(anime_folder(&s), "ani-case-closed-5j4se");
    assert_eq!(episode_dir(&s, 1), "sub-ani-beep-ep0001-best");
    s.display_name = Some("Case Closed".into());
    s.playlist_only = true;
    s.language = Language::Dub;
    s.quality = "720p".into();
    assert_eq!(anime_folder(&s), "ani-Case_Closed");
    assert_eq!(episode_dir(&s, 12345), "dub-ani-beep-ep12345-720p-playlist");
    assert_eq!(stage_prefix("sub-ani-beep-ep0001-best"), ".sub-ani-beep-ep0001-best-");
}

#[test]
fn stream_kinds() {
    assert!(is_hls("https://example.org/a/MASTER.M3U8?x=1"));
    assert!(!is_hls("https://example.org/a.m3u8x"));
    assert!(is_mp4("https://example.org/v.Mp4"));
    assert!(!is_mp4("https://example.org/v.mp4/"));
    assert!(!is_hls("not a url.m3u8"));
}

#[test]
fn stream_plans() {
    let s = source();
    match plan_stream(&resolved("https://example.org/a.m3u8"), &s) {
        Ok(Stream::Hls(u)) => assert_eq!(u, "https://example.org/a.m3u8"),
        _ => panic!("expected HLS"),
    }
    match plan_stream(&resolved("https://example.org/v.mp4"), &s) {
        Ok(Stream::Direct(u)) => assert_eq!(u, "https://example.org/v.mp4"),
        _ => panic!("expected a direct file"),
    }
    let mut p = resolved("https://example.org/a.m3u8");
    p.drm = Some(DrmValue::Other("{\"type\":\"widevine\"}".into()));
    assert_eq!(plan_stream(&p, &s).err(), Some(EpisodeError::Protected));
    let mut q = resolved("https://example.org/a.m3u8");
    q.sources[0].drm = Some(DrmValue::Bool(true));
    assert_eq!(plan_stream(&q, &s).err(), Some(EpisodeError::Protected));
    let mut h = resolved("https://example.org/a.m3u8");
    h.headers.push(("a b".into(), "v".into()));
    assert_eq!(plan_stream(&h, &s).err(), Some(EpisodeError::Header(HeaderError::InvalidName)));
    assert_eq!(plan_stream(&resolved("nope"), &s).err(), Some(EpisodeError::InvalidUrl));
    assert_eq!(
        plan_stream(&resolved("https://example.org/a.mpd"), &s).err(),
        Some(EpisodeError::UnsupportedFormat)
    );
    let mut only = source();
    only.playlist_only = true;
    assert_eq!(
        plan_stream(&resolved("https://example.org/v.mp4"), &only).err(),
        Some(EpisodeError::PlaylistNeedsHls)
    );
    let mut hd = source();
    hd.quality = "720p".into();
    assert_eq!(
        plan_stream(&resolved("https://example.org/v.mp4"), &hd).err(),
        Some(EpisodeError::ResolutionNeedsMaster)
    );
}

#[test]
fn drm_flags() {
    assert!(!protected(&None));
    assert!(!protected(&Some(DrmValue::Null)));
    assert!(!protected(&Some(DrmValue::Bool(false))));
    assert!(protected(&Some(DrmValue::Bool(true))));
    assert!(protected(&Some(DrmValue::Other("{\"type\":\"widevine\"}".into()))));
    let r = resolved("https://example.org/a.m3u8");
    assert!(!stream_protected(&r.sources[0], &r));
    let mut p = resolved("https://example.org/a.m3u8");
    p.drm = Some(DrmValue::Other("{\"type\":\"widevine\"}".into()));
    assert!(stream_protected(&r.sources[0], &p));
}

#[test]
fn manifests_round_trip() {
    let s = source();
    let names = artifact_names(false, vec!["subtitle-1-ani-English.vtt".into()]);
    assert_eq!(names, vec!["video.mp4", "subtitle-1-ani-English.vtt"]);
    assert_eq!(artifact_names(true, vec![]), vec!["playlist.m3u8"]);
    assert_eq!(artifact("video.mp4".into(), 0).err(), Some(EpisodeError::EmptyOutput));
    let a = artifact("video.mp4".into(), 10).unwrap();
    assert!(artifact_intact(&a, Some((true, 10))));
    assert!(!artifact_intact(&a, Some((true, 9))));
    assert!(!artifact_intact(&a, Some((false, 10))));
    assert!(!artifact_intact(&a, None));
    let m = manifest(&s, 1, "https://example.org/a.m3u8".into(), resolved("https://example.org/a.m3u8"), vec![a]);
    assert!(m.complete);
    assert_eq!(m.language, "sub");
    assert!(manifest_matches(&m, &s, 1));
    assert!(!manifest_matches(&m, &s, 2));
    let mut other = source();
    other.quality = "720p".into();
    assert!(!manifest_matches(&m, &other, 1));
    let empty = manifest(&s, 1, String::new(), resolved("x"), vec![]);
    assert!(!manifest_matches(&empty, &s, 1));
    assert!(artifact_name_safe("video.mp4"));
    assert!(!artifact_name_safe(".."));
    assert!(!artifact_name_safe("a/b"));
    assert!(!artifact_name_safe("a\\b"));
}

fn mp4_header() -> Vec<u8> {
    let mut v = vec![0, 0, 0, 24];
    v.extend_from_slice(b"ftypisom");
    v
}

#[test]
fn mp4_scan_finds_signatures_across_chunks() {
    let mut s = Mp4Scan::new();
    assert_eq!(s.feed(&mp4_header()), Ok(()));
    assert_eq!(s.feed(b"moov...ps"), Ok(()));
    assert_eq!(s.feed(b"sh"), Err(Mp4Error::Encrypted));
    let mut clean = Mp4Scan::new();
    assert_eq!(clean.feed(&mp4_header()), Ok(()));
    assert_eq!(clean.feed(b"mdat data"), Ok(()));
    for sig in [b"sinf", b"tenc", b"encv", b"enca"] {
        let mut t = Mp4Scan::new();
        let mut chunk = mp4_header();
        chunk.extend_from_slice(sig);
        assert_eq!(t.feed(&chunk), Err(Mp4Error::Encrypted));
    }
    let mut bad = Mp4Scan::new();
    assert_eq!(bad.feed(b"<html>..."), Err(Mp4Error::NotMp4));
    let mut short = Mp4Scan::new();
    assert_eq!(short.feed(b"abc"), Err(Mp4Error::NotMp4));
}

#[test]
fn run_summaries() {
    assert_eq!(run_summary(3, 1), "3 episode(s) completed or skipped; 1 failed");
    assert!(saved_episodes_ok(false, 5));
    assert!(saved_episodes_ok(true, 1));
    assert!(!saved_episodes_ok(true, 2));
}

#[test]
fn complete_episodes_are_skipped() {
    let s = source();
    let arts = || {
        vec![
            Artifact { name: "video.mp4".into(), bytes: 10 },
            Artifact { name: "subtitle-1-ani-English.vtt".into(), bytes: 3 },
        ]
    };
    let m = manifest(&s, 1, "u".into(), resolved("https://example.org/a.m3u8"), arts());
    assert!(episode_complete(&m, &s, 1, &vec![Some((true, 10)), Some((true, 3))]));
    assert!(!episode_complete(&m, &s, 1, &vec![Some((true, 10)), Some((true, 4))]));
    assert!(!episode_complete(&m, &s, 1, &vec![Some((true, 10)), None]));
    assert!(!episode_complete(&m, &s, 1, &vec![Some((true, 10))]));
    assert!(!episode_complete(&m, &s, 2, &vec![Some((true, 10)), Some((true, 3))]));
    let mut bad = arts();
    bad[1].name = "../x.vtt".into();
    let m2 = manifest(&s, 1, "u".into(), resolved("https://example.org/a.m3u8"), bad);
    assert!(!episode_complete(&m2, &s, 1, &vec![Some((true, 10)), Some((true, 3))]));
    let empty = manifest(&s, 1, "u".into(), resolved("x"), vec![]);
    assert!(!episode_complete(&empty, &s, 1, &vec![]));
    assert_eq!(episode_start(true, true), EpisodeStart::Skip);
    assert_eq!(episode_start(false, true), EpisodeStart::Refuse);
    assert_eq!(episode_start(false, false), EpisodeStart::Download);
}
