//! Which subtitle tracks are saved, and under what file names.
use vstd::prelude::*;
use crate::downloader::spec_name_safe;
use crate::filenames::{sanitize, spec_sanitize};
use crate::models::Track;
use crate::text::{
    chars_of, decimal, is_alnum, is_digit, lower_seq, push_char, push_decimal, push_str,
    span_views, split, split_spans, str_eq, string_of_span, to_lower,
};
use crate::urls::{spec_url_parse, spec_url_path, url_parse, url_path};

verus! {

/// Why a subtitle track cannot be saved.
#[derive(Debug, PartialEq, Eq, Structural)]
pub enum SubtitleError {
    InvalidUrl,
    UnsupportedFormat,
}

/// A subtitle file to fetch: its URL (serialized) and its file name.
pub struct SubtitleTarget {
    pub url: String,
    pub name: String,
}

/// Tracks of no declared kind, or of kind `subtitles` or `captions`.
pub open spec fn kind_wanted(kind: Seq<char>) -> bool {
    kind.len() == 0 || kind == "subtitles"@ || kind == "captions"@
}

/// The lower-cased text after the last `.` of a URL path.
pub open spec fn extension(path: Seq<char>) -> Seq<char> {
    lower_seq(split(path, '.').last())
}

pub open spec fn supported_extension(e: Seq<char>) -> bool {
    e == "vtt"@ || e == "srt"@ || e == "ass"@ || e == "ssa"@
}

/// `subtitle-<n>-<sanitized label>.<extension>`, for track number `n` (from 1).
pub open spec fn subtitle_name(n: nat, label: Seq<char>, ext: Seq<char>) -> Seq<char> {
    "subtitle-"@ + decimal(n) + "-"@ + spec_sanitize(label) + "."@ + ext
}

/// What track `index` (from 0) gives: nothing for other kinds, else its URL
/// and file name, or the reason it is refused.
pub open spec fn spec_target(index: nat, t: Track) -> Result<Option<(Seq<char>, Seq<char>)>, SubtitleError> {
    if !kind_wanted(t.kind@) {
        Ok(None)
    } else {
        match spec_url_parse(t.file@) {
            None => Err(SubtitleError::InvalidUrl),
            Some(u) => {
                let path = match spec_url_path(u) {
                    Some(p) => p,
                    None => Seq::<char>::empty(),
                };
                let e = extension(path);
                if !supported_extension(e) {
                    Err(SubtitleError::UnsupportedFormat)
                } else {
                    Ok(Some((u, subtitle_name(index + 1, t.label@, e))))
                }
            },
        }
    }
}

pub open spec fn target_view(r: Result<Option<SubtitleTarget>, SubtitleError>) -> Result<
    Option<(Seq<char>, Seq<char>)>,
    SubtitleError,
> {
    match r {
        Ok(Some(t)) => Ok(Some((t.url@, t.name@))),
        Ok(None) => Ok(None),
        Err(e) => Err(e),
    }
}

/// Subtitle file names stay inside the episode folder.
pub proof fn lemma_subtitle_name_safe(n: nat, label: Seq<char>, ext: Seq<char>)
    requires
        supported_extension(ext),
    ensures
        spec_name_safe(subtitle_name(n, label, ext)),
{
    reveal_strlit("subtitle-");
    reveal_strlit("-");
    reveal_strlit(".");
    reveal_strlit("vtt");
    reveal_strlit("srt");
    reveal_strlit("ass");
    reveal_strlit("ssa");
    reveal_strlit("ani-");
    reveal_strlit("..");
    crate::text::lemma_decimal_digits(n);
    let name = subtitle_name(n, label, ext);
    let s = spec_sanitize(label);
    crate::filenames::lemma_sanitize_chars(label);
    assert forall|i: int| 0 <= i < name.len() implies #[trigger] name[i] != '/' && name[i] != '\\' by {
        let p1 = "subtitle-"@;
        let p2 = p1 + decimal(n);
        let p3 = p2 + "-"@;
        let p4 = p3 + s;
        let p5 = p4 + "."@;
        if i < p1.len() {
        } else if i < p2.len() {
            assert(name[i] == decimal(n)[i - p1.len()]);
            assert(is_digit(decimal(n)[i - p1.len()]));
        } else if i < p3.len() {
        } else if i < p4.len() {
            assert(name[i] == s[i - p3.len()]);
        } else if i < p5.len() {
        } else {
            assert(name[i] == ext[i - p5.len()]);
        }
    }
    assert(name.len() > 2);
}

/// The file to save for track `index` (from 0), if any.
pub fn target(index: usize, track: &Track) -> (r: Result<Option<SubtitleTarget>, SubtitleError>)
    requires
        index < usize::MAX,
    ensures
        target_view(r) == spec_target(index as nat, *track),
        r matches Ok(Some(t)) ==> spec_name_safe(t.name@),
{
    let k = track.kind.as_str();
    let kc = chars_of(k);
    if !(kc.len() == 0 || str_eq(k, "subtitles") || str_eq(k, "captions")) {
        return Ok(None);
    }
    let u = match url_parse(track.file.as_str()) {
        None => {
            return Err(SubtitleError::InvalidUrl);
        },
        Some(u) => u,
    };
    let path = match url_path(u.as_str()) {
        Some(p) => p,
        None => String::new(),
    };
    let pv = chars_of(path.as_str());
    let pieces = split_spans(&pv, 0, pv.len(), '.');
    assert(pv@.subrange(0, pv@.len() as int) == pv@);
    let (a, b) = pieces[pieces.len() - 1];
    assert(span_views(pv@, pieces@).last() == pv@.subrange(a as int, b as int));
    let mut ext = String::new();
    let mut i = a;
    while i < b
        invariant
            a <= i <= b <= pv@.len(),
            ext@ == lower_seq(pv@.subrange(a as int, i as int)),
        decreases b - i,
    {
        push_char(&mut ext, to_lower(pv[i]));
        assert(lower_seq(pv@.subrange(a as int, i + 1)) == lower_seq(pv@.subrange(a as int, i as int)).push(crate::text::lower(pv@[i as int])));
        i = i + 1;
    }
    let e = ext.as_str();
    if !(str_eq(e, "vtt") || str_eq(e, "srt") || str_eq(e, "ass") || str_eq(e, "ssa")) {
        return Err(SubtitleError::UnsupportedFormat);
    }
    let mut name = String::new();
    push_str(&mut name, "subtitle-");
    push_decimal(&mut name, index as u64 + 1);
    push_str(&mut name, "-");
    let label = sanitize(track.label.as_str());
    push_str(&mut name, label.as_str());
    push_str(&mut name, ".");
    push_str(&mut name, e);
    proof {
        lemma_subtitle_name_safe((index + 1) as nat, track.label@, ext@);
    }
    Ok(Some(SubtitleTarget { url: u, name }))
}


/// A wanted track is saved under the extension that follows the last `.` of
/// its URL path, lower-cased, whatever dots come before it: a path
/// `<anything>.<e>` with `e` free of dots and one of `vtt`, `srt`, `ass`,
/// `ssa` (in any case) gives the file `subtitle-<n>-<label>.<e>`, fetched from
/// the parsed URL; any other `e` refuses the track.
pub proof fn lemma_subtitle_extension_is_last(
    index: nat,
    t: Track,
    u: Seq<char>,
    before: Seq<char>,
    e: Seq<char>,
)
    requires
        t.kind@.len() == 0 || t.kind@ == "subtitles"@ || t.kind@ == "captions"@,
        spec_url_parse(t.file@) == Some(u),
        spec_url_path(u) == Some(before + seq!['.'] + e),
        !e.contains('.'),
    ensures
        (lower_seq(e) == "vtt"@ || lower_seq(e) == "srt"@ || lower_seq(e) == "ass"@ || lower_seq(e)
            == "ssa"@) ==> spec_target(index, t) == Ok::<
            Option<(Seq<char>, Seq<char>)>,
            SubtitleError,
        >(
            Some(
                (
                    u,
                    "subtitle-"@ + decimal(index + 1) + "-"@ + spec_sanitize(t.label@) + "."@
                        + lower_seq(e),
                ),
            ),
        ),
        !(lower_seq(e) == "vtt"@ || lower_seq(e) == "srt"@ || lower_seq(e) == "ass"@ || lower_seq(e)
            == "ssa"@) ==> spec_target(index, t) == Err::<Option<(Seq<char>, Seq<char>)>, SubtitleError>(
            SubtitleError::UnsupportedFormat,
        ),
{
    crate::text::lemma_split_last(before, e, '.');
    assert(extension(before + seq!['.'] + e) == lower_seq(e));
}

} // verus!
