use ani_rust::hls::{
    attributes, export, get, media_step, playlist_lines, select, stage_begin, tag_name, validate,
    variants, HlsError, MediaStep, Playlist, StageStep,
};

fn master() -> Vec<ani_rust::hls::Variant> {
    variants(
        "#EXTM3U\n#EXT-X-STREAM-INF:BANDWIDTH=100,RESOLUTION=1280x720\n720.m3u8\n#EXT-X-STREAM-INF:BANDWIDTH=200,RESOLUTION=1920x1080\n../1080.m3u8",
        "https://example.org/a/master.m3u8",
    )
    .unwrap()
}

#[test]
fn protection() {
    for method in ["AES-128", "SAMPLE-AES", "SAMPLE-AES-CTR"] {
        assert!(validate(&format!("#EXTM3U\n#EXT-X-KEY:METHOD={method},URI=\"key\"")).is_err());
    }
    assert!(validate("#EXTM3U\n#EXT-X-SESSION-KEY:METHOD=AES-128").is_err());
    assert!(validate("#EXTM3U\n#EXT-X-KEY:METHOD=NONE").is_ok());
}

#[test]
fn validate_reports_each_refusal() {
    assert_eq!(validate("hello"), Err(HlsError::NotHls));
    assert_eq!(validate("  \n#EXTM3U\n"), Ok(()));
    assert_eq!(
        validate("#EXTM3U\n#EXT-X-KEY:METHOD=AES-128"),
        Err(HlsError::Encrypted)
    );
    assert_eq!(
        validate("#EXTM3U\n#EXT-X-KEY:METHOD=NONE,KEYFORMAT=\"x\""),
        Err(HlsError::Encrypted)
    );
    assert_eq!(
        validate("#EXTM3U\n#EXT-X-CONTENT-PROTECTION:x"),
        Err(HlsError::DrmProtected)
    );
    assert_eq!(
        validate("#EXTM3U\n#EXT-X-KEY:METHOD=\"NONE"),
        Err(HlsError::UnterminatedAttribute)
    );
    assert_eq!(
        validate("#EXTM3U\n#EXT-X-KEY:METHOD"),
        Err(HlsError::InvalidAttribute)
    );
}

#[test]
fn export_preserves_ranges_and_absolutizes_references() {
    let p = Playlist {
        url: "https://example.org/a/media.m3u8?token=playlist".into(),
        variants: vec![],
        text: "#EXTM3U\n#EXT-X-MAP:URI=\"../init.mp4?token=init\",BYTERANGE=\"100@0\"\n#EXTINF:1,\n#EXT-X-BYTERANGE:100@100\nsegment.m4s?token=media\n#EXT-X-ENDLIST\n".into(),
    };
    let result = export(&p).unwrap();
    assert!(result.contains("URI=\"https://example.org/init.mp4?token=init\",BYTERANGE=\"100@0\""));
    assert!(result.contains("https://example.org/a/segment.m4s?token=media"));
    assert!(result.contains("#EXT-X-BYTERANGE:100@100"));
    let mut encrypted = p;
    encrypted.text.push_str("#EXT-X-KEY:METHOD=AES-128,URI=\"key\"\n");
    assert!(export(&encrypted).is_err());
}

#[test]
fn export_output_is_exact() {
    let p = Playlist {
        url: "https://example.org/a/media.m3u8".into(),
        variants: vec![],
        text: "#EXTM3U\n  #EXTINF:2,\n seg.ts \n\n# comment\n#EXT-X-ENDLIST".into(),
    };
    assert_eq!(
        export(&p).unwrap(),
        "#EXTM3U\n#EXTINF:2,\nhttps://example.org/a/seg.ts\n\n# comment\n#EXT-X-ENDLIST\n"
    );
}

#[test]
fn export_refusals() {
    let base = "https://example.org/a/media.m3u8";
    let mk = |text: &str| Playlist { url: base.into(), variants: vec![], text: text.into() };
    assert_eq!(export(&mk("#EXTM3U\n#EXT-X-ENDLIST")), Err(HlsError::NoMediaReferences));
    assert_eq!(export(&mk("#EXTM3U\nseg.ts")), Err(HlsError::LiveUnsupported));
    assert_eq!(
        export(&mk("#EXTM3U\nseg{$x}.ts\n#EXT-X-ENDLIST")),
        Err(HlsError::VariableSubstitution)
    );
    assert_eq!(
        export(&mk("#EXTM3U\nftp://example.org/seg.ts\n#EXT-X-ENDLIST")),
        Err(HlsError::NonHttpReference)
    );
    assert_eq!(
        export(&mk("#EXTM3U\n#EXT-X-MAP:URI=\"init.mp4\nseg.ts\n#EXT-X-ENDLIST")),
        Err(HlsError::UnterminatedUri)
    );
    let mut with_variants = mk("#EXTM3U\nseg.ts\n#EXT-X-ENDLIST");
    with_variants.variants = master();
    assert_eq!(export(&with_variants), Err(HlsError::NotMediaPlaylist));
}

#[test]
fn quoted_and_quality() {
    assert_eq!(
        get(&attributes("CODECS=\"a,b\",BANDWIDTH=20").unwrap(), "CODECS").unwrap(),
        "a,b"
    );
    let v = master();
    assert_eq!(select(&v, "best").unwrap().height, 1080);
    assert_eq!(select(&v, "720p").unwrap().height, 720);
    assert!(select(&v, "480").is_err());
    assert_eq!(v[1].url, "https://example.org/1080.m3u8");
}

#[test]
fn attribute_parsing() {
    let a = attributes(" A = 1 ,B=\"x\"").unwrap();
    assert_eq!(a.len(), 2);
    assert_eq!(a[0], ("A".to_string(), "1".to_string()));
    assert_eq!(get(&a, "B").unwrap(), "x");
    assert_eq!(get(&a, "C"), None);
    let dup = attributes("A=1,A=2").unwrap();
    assert_eq!(dup, vec![("A".to_string(), "2".to_string())]);
    assert_eq!(get(&dup, "A").unwrap(), "2");
    let sorted = attributes("TYPE=AUDIO,URI=\"a\",BANDWIDTH=5,TYPE=VIDEO").unwrap();
    assert_eq!(
        sorted,
        vec![
            ("BANDWIDTH".to_string(), "5".to_string()),
            ("TYPE".to_string(), "VIDEO".to_string()),
            ("URI".to_string(), "a".to_string()),
        ]
    );
    assert_eq!(attributes("A=\"1"), Err(HlsError::UnterminatedAttribute));
    assert_eq!(attributes("A"), Err(HlsError::InvalidAttribute));
}

#[test]
fn variant_fields_and_errors() {
    let v = master();
    assert_eq!(v.len(), 2);
    assert_eq!(v[0].url, "https://example.org/a/720.m3u8");
    assert_eq!((v[0].height, v[0].bandwidth), (720, 100));
    assert_eq!((v[1].height, v[1].bandwidth), (1080, 200));
    let odd = variants(
        "#EXTM3U\n#EXT-X-STREAM-INF:RESOLUTION=abc\nx.m3u8",
        "https://example.org/",
    )
    .unwrap();
    assert_eq!((odd[0].height, odd[0].bandwidth), (0, 0));
    assert_eq!(
        variants("#EXTM3U\n#EXT-X-STREAM-INF:BANDWIDTH=1", "https://example.org/").unwrap_err(),
        HlsError::MissingVariantUri
    );
    assert_eq!(
        variants(
            "#EXTM3U\n#EXT-X-STREAM-INF:BANDWIDTH=1\n#EXT-X-STREAM-INF:BANDWIDTH=2\nx",
            "https://example.org/"
        )
        .unwrap_err(),
        HlsError::MissingVariantUri
    );
    assert!(variants("#EXTM3U\nseg.ts", "https://example.org/").unwrap().is_empty());
}

#[test]
fn select_takes_the_last_of_the_highest() {
    let v = variants(
        "#EXTM3U\n#EXT-X-STREAM-INF:BANDWIDTH=300,RESOLUTION=1x720\na\n#EXT-X-STREAM-INF:BANDWIDTH=300,RESOLUTION=1x720\nb\n#EXT-X-STREAM-INF:BANDWIDTH=100,RESOLUTION=1x720\nc",
        "https://example.org/",
    )
    .unwrap();
    assert_eq!(select(&v, "best").unwrap().url, "https://example.org/b");
    assert_eq!(select(&v, "720").unwrap().url, "https://example.org/b");
    assert_eq!(select(&v, "x").unwrap_err(), HlsError::InvalidQuality);
    assert_eq!(select(&v, "480p").unwrap_err(), HlsError::ResolutionUnavailable);
    assert_eq!(select(&[], "best").unwrap_err(), HlsError::ResolutionUnavailable);
}

#[test]
fn media_steps() {
    let m = Playlist { url: "https://example.org/a/master.m3u8".into(), text: "#EXTM3U".into(), variants: master() };
    match media_step(&m, "720p", 0).unwrap() {
        MediaStep::Load(u) => assert_eq!(u, "https://example.org/a/720.m3u8"),
        MediaStep::Done => panic!("expected a load"),
    }
    assert_eq!(media_step(&m, "best", 5).unwrap_err(), HlsError::TooManyNested);
    let media = Playlist { url: "https://example.org/a/m.m3u8".into(), text: "#EXTM3U".into(), variants: vec![] };
    assert!(matches!(media_step(&media, "best", 0), Ok(MediaStep::Done)));
    assert_eq!(media_step(&media, "720p", 0).unwrap_err(), HlsError::UnverifiableResolution);
    assert!(matches!(media_step(&media, "720p", 1), Ok(MediaStep::Done)));
    let audio = Playlist {
        url: "https://example.org/a/master.m3u8".into(),
        text: "#EXTM3U\n#EXT-X-MEDIA:TYPE=AUDIO,URI=\"a.m3u8\"".into(),
        variants: master(),
    };
    assert_eq!(media_step(&audio, "best", 0).unwrap_err(), HlsError::SeparateAudio);
}

#[test]
fn staging_builds_a_restricted_local_playlist() {
    let p = Playlist {
        url: "https://example.org/a/m.m3u8".into(),
        variants: vec![],
        text: "#EXTM3U\n#EXT-X-VERSION:03\n#EXT-X-MAP:URI=\"init.mp4\"\n#EXTINF:4.5,title\nseg1.ts\n#EXT-X-PROGRAM-DATE-TIME:x\n#EXT-X-DISCONTINUITY\n#EXTINF:2,\n/b/seg2.ts\n#EXT-X-ENDLIST\n".into(),
    };
    let mut plan = stage_begin(&p).unwrap();
    for line in playlist_lines(&p.text) {
        match plan.line(&p.url, &line).unwrap() {
            StageStep::Done => {}
            StageStep::Duration(d) => plan.push_duration(&d).unwrap(),
        }
    }
    plan.finish().unwrap();
    assert_eq!(
        plan.local,
        "#EXTM3U\n#EXT-X-VERSION:3\n#EXT-X-MAP:URI=\"init-0.mp4\"\n#EXTINF:4.5,\nsegment-1.ts\n#EXT-X-DISCONTINUITY\n#EXTINF:2,\nsegment-2.ts\n#EXT-X-ENDLIST\n"
    );
    assert_eq!(
        plan.files,
        vec![
            ("https://example.org/a/init.mp4".to_string(), "init-0.mp4".to_string()),
            ("https://example.org/a/seg1.ts".to_string(), "segment-1.ts".to_string()),
            ("https://example.org/b/seg2.ts".to_string(), "segment-2.ts".to_string()),
        ]
    );
}

#[test]
fn staging_refusals() {
    let mk = |text: &str| Playlist { url: "https://example.org/m.m3u8".into(), variants: vec![], text: text.into() };
    assert_eq!(stage_begin(&mk("#EXTM3U\nseg.ts")).err(), Some(HlsError::LiveUnsupported));
    assert_eq!(stage_begin(&mk("x")).err(), Some(HlsError::NotHls));
    let mut plan = stage_begin(&mk("#EXTM3U\n#EXT-X-ENDLIST")).unwrap();
    assert_eq!(plan.finish(), Err(HlsError::NoMedia));
    let base = "https://example.org/m.m3u8";
    assert_eq!(plan.line(base, "#EXT-X-MAP:URI=\"i\",BYTERANGE=\"1@0\"").err(), Some(HlsError::ByteRange));
    assert_eq!(plan.line(base, "#EXT-X-MAP:X=1").err(), Some(HlsError::MapMissingUri));
    assert_eq!(plan.line(base, "#EXT-X-TARGETDURATION:x").err(), Some(HlsError::InvalidNumber));
    assert_eq!(plan.line(base, "#EXT-X-START:TIME-OFFSET=1").err(), Some(HlsError::UnsupportedTag));
    assert_eq!(plan.push_duration("abc"), Err(HlsError::InvalidDuration));
    assert_eq!(tag_name("#EXT-X-START:TIME-OFFSET=1"), "#EXT-X-START");
    assert!(matches!(plan.line(base, "#EXT-X-KEY:METHOD=NONE"), Ok(StageStep::Done)));
    assert_eq!(plan.local, "#EXTM3U\n");
}
