use ani_rust::models::Track;
use ani_rust::subtitles::{target, SubtitleError};

fn track(file: &str, label: &str, kind: &str) -> Track {
    Track { file: file.into(), label: label.into(), kind: kind.into() }
}

#[test]
fn subtitle_targets() {
    let t = target(0, &track("https://example.org/subs/en.VTT?x=1", "English", "")).unwrap().unwrap();
    assert_eq!(t.url, "https://example.org/subs/en.VTT?x=1");
    assert_eq!(t.name, "subtitle-1-ani-English.vtt");
    let c = target(2, &track("https://example.org/a.ass", "Español (CC)", "captions")).unwrap().unwrap();
    assert_eq!(c.name, "subtitle-3-ani-Espa_ol__CC_.ass");
    assert!(target(0, &track("https://example.org/a.vtt", "x", "thumbnails")).unwrap().is_none());
    assert_eq!(
        target(0, &track("https://example.org/a.json", "x", "subtitles")).err(),
        Some(SubtitleError::UnsupportedFormat)
    );
    assert_eq!(
        target(0, &track("https://example.org/vtt", "x", "")).err(),
        Some(SubtitleError::UnsupportedFormat)
    );
    assert_eq!(target(0, &track("en.vtt", "x", "")).err(), Some(SubtitleError::InvalidUrl));
    let s = target(9, &track("https://example.org/a.srt", "../x", "subtitles")).unwrap().unwrap();
    assert_eq!(s.name, "subtitle-10-ani-___x.srt");
}
