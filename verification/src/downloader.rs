//! The decisions of an episode download: where it goes, what stream it uses,
//! when an earlier download counts as complete, and what its manifest says.
use vstd::prelude::*;
use crate::api::{headers, spec_headers, HeaderError};
use crate::cli::SourceArgs;
use crate::filenames::{sanitize, spec_sanitize};
use crate::models::{protected, spec_protected, Resolved};
use crate::text::{
    contains_char, ends_with, lower_ends_with, lower_seq, padded_decimal, push_padded, push_str,
    str_eq,
};
use crate::urls::{spec_url_parse, spec_url_path, url_parse, url_path};

verus! {

// ---------------------------------------------------------------------------
// Stream kinds
// ---------------------------------------------------------------------------

pub open spec fn path_ends_with(url: Seq<char>, suffix: Seq<char>) -> bool {
    spec_url_path(url) matches Some(p) && ends_with(lower_seq(p), suffix)
}

/// An HLS stream: the URL path ends with `.m3u8`, in any case.
pub fn is_hls(url: &str) -> (r: bool)
    ensures
        r == path_ends_with(url@, ".m3u8"@),
{
    match url_path(url) {
        Some(p) => lower_ends_with(p.as_str(), ".m3u8"),
        None => false,
    }
}

/// A direct MP4 file: the URL path ends with `.mp4`, in any case.
pub fn is_mp4(url: &str) -> (r: bool)
    ensures
        r == path_ends_with(url@, ".mp4"@),
{
    match url_path(url) {
        Some(p) => lower_ends_with(p.as_str(), ".mp4"),
        None => false,
    }
}

// ---------------------------------------------------------------------------
// Folder names
// ---------------------------------------------------------------------------

/// The folder of an anime: its title when known, else its id.
pub open spec fn spec_anime_folder(source: SourceArgs) -> Seq<char> {
    match source.display_name {
        Some(t) => spec_sanitize(t@),
        None => spec_sanitize(source.anime_id@),
    }
}

pub fn anime_folder(source: &SourceArgs) -> (r: String)
    ensures
        r@ == spec_anime_folder(*source),
{
    match &source.display_name {
        Some(t) => sanitize(t.as_str()),
        None => sanitize(source.anime_id.as_str()),
    }
}

/// The folder of one episode, such as `sub-ani-beep-ep0001-best`.
pub open spec fn spec_episode_dir(source: SourceArgs, number: u32) -> Seq<char> {
    source.language.spec_name() + "-"@ + spec_sanitize(source.provider@) + "-ep"@ + padded_decimal(
        number as nat,
        4,
    ) + "-"@ + source.quality@ + if source.playlist_only {
        "-playlist"@
    } else {
        Seq::<char>::empty()
    }
}

pub fn episode_dir(source: &SourceArgs, number: u32) -> (r: String)
    ensures
        r@ == spec_episode_dir(*source, number),
{
    let mut name = source.language.name();
    push_str(&mut name, "-");
    let p = sanitize(source.provider.as_str());
    push_str(&mut name, p.as_str());
    push_str(&mut name, "-ep");
    push_padded(&mut name, number as u64, 4);
    push_str(&mut name, "-");
    push_str(&mut name, source.quality.as_str());
    if source.playlist_only {
        push_str(&mut name, "-playlist");
    }
    name
}

/// The prefix of the staging folder of an episode folder `name`.
pub fn stage_prefix(name: &str) -> (r: String)
    ensures
        r@ == "."@ + name@ + "-"@,
{
    let mut r = String::new();
    push_str(&mut r, ".");
    push_str(&mut r, name);
    push_str(&mut r, "-");
    r
}

// ---------------------------------------------------------------------------
// Manifests
// ---------------------------------------------------------------------------

/// A published file and its size.
pub struct Artifact {
    pub name: String,
    pub bytes: u64,
}

/// What `metadata.json` records of a published episode.
pub struct Manifest {
    pub complete: bool,
    pub playlist_only: bool,
    pub anime_id: String,
    pub episode: u32,
    pub language: String,
    pub provider: String,
    pub quality: String,
    pub selected_url: String,
    pub resolved: Resolved,
    pub artifacts: Vec<Artifact>,
}

/// A manifest describes the requested episode, complete, with files.
pub open spec fn spec_manifest_matches(m: Manifest, source: SourceArgs, episode: u32) -> bool {
    &&& m.complete
    &&& m.anime_id@ == source.anime_id@
    &&& m.episode == episode
    &&& m.language@ == source.language.spec_name()
    &&& m.provider@ == source.provider@
    &&& m.quality@ == source.quality@
    &&& m.playlist_only == source.playlist_only
    &&& m.artifacts@.len() > 0
}

pub fn manifest_matches(m: &Manifest, source: &SourceArgs, episode: u32) -> (r: bool)
    ensures
        r == spec_manifest_matches(*m, *source, episode),
{
    let lang = source.language.name();
    m.complete && str_eq(m.anime_id.as_str(), source.anime_id.as_str()) && m.episode == episode
        && str_eq(m.language.as_str(), lang.as_str()) && str_eq(
        m.provider.as_str(),
        source.provider.as_str(),
    ) && str_eq(m.quality.as_str(), source.quality.as_str()) && m.playlist_only
        == source.playlist_only && m.artifacts.len() > 0
}

/// A file name that stays inside the episode folder.
pub open spec fn spec_name_safe(name: Seq<char>) -> bool {
    !name.contains('/') && !name.contains('\\') && name != ".."@
}

pub fn artifact_name_safe(name: &str) -> (r: bool)
    ensures
        r == spec_name_safe(name@),
{
    !contains_char(name, '/') && !contains_char(name, '\\') && !str_eq(name, "..")
}

/// A published file is intact: a regular file of the recorded, non-zero size.
/// `info` is (is a regular file, length) of the file, if it could be read.
pub fn artifact_intact(a: &Artifact, info: Option<(bool, u64)>) -> (r: bool)
    ensures
        r == spec_artifact_intact(*a, info),
{
    match info {
        Some((is_file, len)) => is_file && len == a.bytes && a.bytes > 0,
        None => false,
    }
}

/// A published file is intact: a regular file of the recorded, non-zero size.
pub open spec fn spec_artifact_intact(a: Artifact, info: Option<(bool, u64)>) -> bool {
    info matches Some((is_file, len)) && is_file && len == a.bytes && a.bytes > 0
}

/// An earlier download of the episode is complete: its manifest describes the
/// requested episode, complete, with files, and every recorded file has a safe
/// name and is intact. `infos[i]` is (is a regular file, length) of the file
/// of artifact `i`, if it could be read.
pub open spec fn spec_episode_complete(
    m: Manifest,
    source: SourceArgs,
    episode: u32,
    infos: Seq<Option<(bool, u64)>>,
) -> bool {
    &&& spec_manifest_matches(m, source, episode)
    &&& infos.len() == m.artifacts@.len()
    &&& forall|i: int|
        0 <= i < m.artifacts@.len() ==> spec_name_safe((#[trigger] m.artifacts@[i]).name@)
            && spec_artifact_intact(m.artifacts@[i], infos[i])
}

/// Whether an earlier download of the episode is complete, so that it is
/// skipped.
pub fn episode_complete(
    m: &Manifest,
    source: &SourceArgs,
    episode: u32,
    infos: &Vec<Option<(bool, u64)>>,
) -> (r: bool)
    ensures
        r == spec_episode_complete(*m, *source, episode, infos@),
{
    if !manifest_matches(m, source, episode) || infos.len() != m.artifacts.len() {
        return false;
    }
    let mut i: usize = 0;
    while i < m.artifacts.len()
        invariant
            i <= m.artifacts@.len(),
            infos@.len() == m.artifacts@.len(),
            forall|j: int|
                0 <= j < i ==> spec_name_safe((#[trigger] m.artifacts@[j]).name@)
                    && spec_artifact_intact(m.artifacts@[j], infos@[j]),
        decreases m.artifacts@.len() - i,
    {
        let a = &m.artifacts[i];
        if !artifact_name_safe(a.name.as_str()) || !artifact_intact(a, infos[i]) {
            return false;
        }
        i = i + 1;
    }
    true
}

// ---------------------------------------------------------------------------
// The stream of an episode
// ---------------------------------------------------------------------------

/// Why an episode cannot be downloaded.
#[derive(Debug, PartialEq, Eq, Structural)]
pub enum EpisodeError {
    Protected,
    Header(HeaderError),
    InvalidUrl,
    PlaylistNeedsHls,
    UnsupportedFormat,
    ResolutionNeedsMaster,
    EmptyOutput,
}

/// The stream to fetch, by its serialized URL.
#[derive(Debug)]
pub enum Stream {
    Hls(String),
    Direct(String),
}

pub open spec fn stream_view(r: Result<Stream, EpisodeError>) -> Result<(bool, Seq<char>), EpisodeError> {
    match r {
        Ok(Stream::Hls(u)) => Ok((true, u@)),
        Ok(Stream::Direct(u)) => Ok((false, u@)),
        Err(e) => Err(e),
    }
}

/// The first stream of a response, if it is unprotected, usable, and fits the
/// request: (is HLS, URL).
pub open spec fn spec_plan_stream(r: Resolved, source: SourceArgs) -> Result<(bool, Seq<char>), EpisodeError> {
    let s = r.sources@[0];
    if spec_protected(r.drm) || spec_protected(s.drm) {
        Err(EpisodeError::Protected)
    } else {
        match spec_headers(crate::hls::pairs_view(r.headers@)) {
            Err(e) => Err(EpisodeError::Header(e)),
            Ok(_) => match spec_url_parse(s.url@) {
                None => Err(EpisodeError::InvalidUrl),
                Some(u) => if path_ends_with(u, ".m3u8"@) {
                    Ok((true, u))
                } else if source.playlist_only {
                    Err(EpisodeError::PlaylistNeedsHls)
                } else if !path_ends_with(u, ".mp4"@) {
                    Err(EpisodeError::UnsupportedFormat)
                } else if source.quality@ != "best"@ {
                    Err(EpisodeError::ResolutionNeedsMaster)
                } else {
                    Ok((false, u))
                },
            },
        }
    }
}

/// Chooses the stream of an episode from a resolver response.
pub fn plan_stream(resolved: &Resolved, source: &SourceArgs) -> (r: Result<Stream, EpisodeError>)
    requires
        resolved.sources@.len() > 0,
    ensures
        stream_view(r) == spec_plan_stream(*resolved, *source),
{
    let s = &resolved.sources[0];
    if protected(&resolved.drm) || protected(&s.drm) {
        return Err(EpisodeError::Protected);
    }
    if let Err(e) = headers(&resolved.headers) {
        return Err(EpisodeError::Header(e));
    }
    let url = match url_parse(s.url.as_str()) {
        None => {
            return Err(EpisodeError::InvalidUrl);
        },
        Some(u) => u,
    };
    if is_hls(url.as_str()) {
        return Ok(Stream::Hls(url));
    }
    if source.playlist_only {
        return Err(EpisodeError::PlaylistNeedsHls);
    }
    if !is_mp4(url.as_str()) {
        return Err(EpisodeError::UnsupportedFormat);
    }
    if !str_eq(source.quality.as_str(), "best") {
        return Err(EpisodeError::ResolutionNeedsMaster);
    }
    Ok(Stream::Direct(url))
}

/// The stream plan of an episode: an unprotected HLS source (URL path ending
/// in `.m3u8`, any case) is planned as HLS whatever quality is asked for,
/// since quality is then chosen from the master playlist; only a direct file
/// needs `best`, must end in `.mp4`, and cannot serve a playlist-only request;
/// a source or response that declares DRM is always refused.
pub proof fn lemma_stream_plan(r: Resolved, source: SourceArgs)
    requires
        r.sources@.len() > 0,
    ensures
        (spec_protected(r.drm) || spec_protected(r.sources@[0].drm)) ==> spec_plan_stream(r, source)
            == Err::<(bool, Seq<char>), EpisodeError>(EpisodeError::Protected),
        !spec_protected(r.drm) && !spec_protected(r.sources@[0].drm) && spec_headers(
            crate::hls::pairs_view(r.headers@),
        ) is Ok ==> match spec_url_parse(r.sources@[0].url@) {
            Some(u) => (spec_url_path(u) matches Some(p) && ends_with(lower_seq(p), ".m3u8"@))
                ==> spec_plan_stream(r, source) == Ok::<(bool, Seq<char>), EpisodeError>((true, u)),
            None => true,
        },
        spec_plan_stream(r, source) matches Ok((false, u)) ==> {
            &&& source.quality@ == "best"@
            &&& !source.playlist_only
            &&& spec_url_path(u) matches Some(p) && ends_with(lower_seq(p), ".mp4"@)
            &&& !(spec_url_path(u) matches Some(p) && ends_with(lower_seq(p), ".m3u8"@))
        },
        spec_plan_stream(r, source) matches Ok((_, u)) ==> spec_url_parse(r.sources@[0].url@) == Some(u)
            && !spec_protected(r.drm) && !spec_protected(r.sources@[0].drm),
{
}

/// Whether a stream of an inspection is protected.
pub fn stream_protected(source: &crate::models::Source, resolved: &Resolved) -> (r: bool)
    ensures
        r == (spec_protected(source.drm) || spec_protected(resolved.drm)),
{
    protected(&source.drm) || protected(&resolved.drm)
}

/// The media file of an episode: the playlist, or the video.
pub open spec fn spec_media_name(playlist_only: bool) -> Seq<char> {
    if playlist_only {
        "playlist.m3u8"@
    } else {
        "video.mp4"@
    }
}

/// The files of an episode: its media file, then its subtitles.
pub fn artifact_names(playlist_only: bool, subtitles: Vec<String>) -> (r: Vec<String>)
    ensures
        r@.len() == subtitles@.len() + 1,
        r@[0]@ == spec_media_name(playlist_only),
        forall|i: int| 0 <= i < subtitles@.len() ==> r@[i + 1] == subtitles@[i],
{
    let mut r: Vec<String> = Vec::new();
    r.push(
        if playlist_only {
            crate::text::owned("playlist.m3u8")
        } else {
            crate::text::owned("video.mp4")
        },
    );
    let mut i: usize = 0;
    while i < subtitles.len()
        invariant
            i <= subtitles@.len(),
            r@.len() == i + 1,
            r@[0]@ == spec_media_name(playlist_only),
            forall|j: int| 0 <= j < i ==> r@[j + 1] == subtitles@[j],
        decreases subtitles@.len() - i,
    {
        r.push(subtitles[i].clone());
        i = i + 1;
    }
    r
}

/// A published file must not be empty.
pub fn artifact(name: String, bytes: u64) -> (r: Result<Artifact, EpisodeError>)
    ensures
        match r {
            Ok(a) => bytes > 0 && a.name == name && a.bytes == bytes,
            Err(e) => bytes == 0 && e == EpisodeError::EmptyOutput,
        },
{
    if bytes == 0 {
        Err(EpisodeError::EmptyOutput)
    } else {
        Ok(Artifact { name, bytes })
    }
}

/// The manifest of a finished episode.
pub fn manifest(
    source: &SourceArgs,
    number: u32,
    selected_url: String,
    resolved: Resolved,
    artifacts: Vec<Artifact>,
) -> (m: Manifest)
    ensures
        m.complete,
        m.playlist_only == source.playlist_only,
        m.anime_id@ == source.anime_id@,
        m.episode == number,
        m.language@ == source.language.spec_name(),
        m.provider@ == source.provider@,
        m.quality@ == source.quality@,
        m.selected_url == selected_url,
        m.resolved == resolved,
        m.artifacts == artifacts,
{
    Manifest {
        complete: true,
        playlist_only: source.playlist_only,
        anime_id: source.anime_id.clone(),
        episode: number,
        language: source.language.name(),
        provider: source.provider.clone(),
        quality: source.quality.clone(),
        selected_url,
        resolved,
        artifacts,
    }
}

/// A manifest written for an episode with files makes that episode count as
/// complete on the next run, as long as its files stay intact.
pub proof fn lemma_written_manifest_matches(
    source: SourceArgs,
    number: u32,
    m: Manifest,
)
    requires
        m.complete,
        m.playlist_only == source.playlist_only,
        m.anime_id@ == source.anime_id@,
        m.episode == number,
        m.language@ == source.language.spec_name(),
        m.provider@ == source.provider@,
        m.quality@ == source.quality@,
        m.artifacts@.len() > 0,
    ensures
        spec_manifest_matches(m, source, number),
{
}

/// How an episode run begins, given what its folder holds.
#[derive(Clone, Copy, Debug, PartialEq, Eq, Structural)]
pub enum EpisodeStart {
    /// A complete download is there already.
    Skip,
    /// The folder exists but is incomplete or for another request: it is left
    /// untouched and the episode fails.
    Refuse,
    /// Nothing is there: download.
    Download,
}

pub open spec fn spec_episode_start(complete: bool, exists: bool) -> EpisodeStart {
    if complete {
        EpisodeStart::Skip
    } else if exists {
        EpisodeStart::Refuse
    } else {
        EpisodeStart::Download
    }
}

/// Skip a complete episode, refuse to overwrite any other existing folder,
/// else download.
pub fn episode_start(complete: bool, exists: bool) -> (r: EpisodeStart)
    ensures
        r == spec_episode_start(complete, exists),
{
    if complete {
        EpisodeStart::Skip
    } else if exists {
        EpisodeStart::Refuse
    } else {
        EpisodeStart::Download
    }
}

/// A manifest only ever matches the request that it was written for: the
/// anime id, episode, language, provider, quality and playlist mode must all
/// be equal, so two requests that both match one manifest agree on all of
/// them (two anime that share a folder name never take each other's episode).
pub proof fn lemma_manifest_matches_only_its_request(
    m: Manifest,
    s1: SourceArgs,
    e1: u32,
    s2: SourceArgs,
    e2: u32,
)
    ensures
        spec_manifest_matches(m, s1, e1) ==> {
            &&& m.complete
            &&& m.artifacts@.len() > 0
            &&& m.anime_id@ == s1.anime_id@
            &&& m.episode == e1
            &&& m.language@ == s1.language.spec_name()
            &&& m.provider@ == s1.provider@
            &&& m.quality@ == s1.quality@
            &&& m.playlist_only == s1.playlist_only
        },
        spec_manifest_matches(m, s1, e1) && spec_manifest_matches(m, s2, e2) ==> {
            &&& s1.anime_id@ == s2.anime_id@
            &&& e1 == e2
            &&& s1.language == s2.language
            &&& s1.provider@ == s2.provider@
            &&& s1.quality@ == s2.quality@
            &&& s1.playlist_only == s2.playlist_only
        },
        forall|infos: Seq<Option<(bool, u64)>>|
            #[trigger] spec_episode_complete(m, s1, e1, infos) ==> m.anime_id@ == s1.anime_id@
                && m.episode == e1,
{
    if spec_manifest_matches(m, s1, e1) && spec_manifest_matches(m, s2, e2) {
        reveal_strlit("sub");
        reveal_strlit("dub");
        assert(s1.language.spec_name() == s2.language.spec_name());
        if s1.language != s2.language {
            assert("sub"@.len() == 3 && "dub"@.len() == 3);
            assert("sub"@[0] != "dub"@[0]);
        }
    }
}

/// A published episode is skipped on the next run: when the manifest written
/// for it has files, each with a safe name and still intact, the episode
/// counts as complete for the same request.
pub proof fn lemma_published_episode_is_complete(
    source: SourceArgs,
    number: u32,
    m: Manifest,
    infos: Seq<Option<(bool, u64)>>,
)
    requires
        m.complete,
        m.playlist_only == source.playlist_only,
        m.anime_id@ == source.anime_id@,
        m.episode == number,
        m.language@ == source.language.spec_name(),
        m.provider@ == source.provider@,
        m.quality@ == source.quality@,
        m.artifacts@.len() > 0,
        infos.len() == m.artifacts@.len(),
        forall|i: int|
            0 <= i < m.artifacts@.len() ==> spec_name_safe((#[trigger] m.artifacts@[i]).name@)
                && infos[i] == Some((true, m.artifacts@[i].bytes)) && m.artifacts@[i].bytes > 0,
    ensures
        spec_episode_complete(m, source, number, infos),
{
}

/// Publishing is idempotent: once an episode is published with the manifest
/// that `manifest` writes, and its files stay intact, the next run for the
/// same request finds it complete and skips it, whether or not its folder is
/// seen to exist; a skipped run resolves nothing and fetches nothing.
pub proof fn lemma_second_run_skips(
    source: SourceArgs,
    number: u32,
    m: Manifest,
    infos: Seq<Option<(bool, u64)>>,
    exists: bool,
)
    requires
        m.complete,
        m.playlist_only == source.playlist_only,
        m.anime_id@ == source.anime_id@,
        m.episode == number,
        m.language@ == source.language.spec_name(),
        m.provider@ == source.provider@,
        m.quality@ == source.quality@,
        m.artifacts@.len() > 0,
        infos.len() == m.artifacts@.len(),
        forall|i: int|
            0 <= i < m.artifacts@.len() ==> spec_name_safe((#[trigger] m.artifacts@[i]).name@)
                && infos[i] == Some((true, m.artifacts@[i].bytes)) && m.artifacts@[i].bytes > 0,
    ensures
        spec_episode_complete(m, source, number, infos),
        spec_episode_start(spec_episode_complete(m, source, number, infos), exists)
            == EpisodeStart::Skip,
{
    lemma_published_episode_is_complete(source, number, m, infos);
}

// ---------------------------------------------------------------------------
// Protected MP4 detection
// ---------------------------------------------------------------------------

/// Box types that signal encryption: `pssh`, `sinf`, `tenc`, `encv`, `enca`
/// (as ASCII bytes).
pub open spec fn is_signature(w: Seq<u8>) -> bool {
    ||| w == seq![0x70u8, 0x73u8, 0x73u8, 0x68u8]
    ||| w == seq![0x73u8, 0x69u8, 0x6eu8, 0x66u8]
    ||| w == seq![0x74u8, 0x65u8, 0x6eu8, 0x63u8]
    ||| w == seq![0x65u8, 0x6eu8, 0x63u8, 0x76u8]
    ||| w == seq![0x65u8, 0x6eu8, 0x63u8, 0x61u8]
}

/// Some four consecutive bytes of `s` form a signature.
pub open spec fn has_signature(s: Seq<u8>) -> bool {
    exists|i: int| 0 <= i && i + 4 <= s.len() && #[trigger] is_signature(s.subrange(i, i + 4))
}

/// An MP4 starts with a box whose type, at bytes 4 to 8, is `ftyp`.
pub open spec fn starts_as_mp4(s: Seq<u8>) -> bool {
    s.len() >= 8 && s.subrange(4, 8) == seq![0x66u8, 0x74u8, 0x79u8, 0x70u8]
}

#[derive(Debug, PartialEq, Eq, Structural)]
pub enum Mp4Error {
    NotMp4,
    Encrypted,
}

/// A scan of a downloaded MP4, fed chunk by chunk: a signature is found even
/// where it straddles two chunks.
pub struct Mp4Scan {
    /// The last (at most three) bytes fed.
    pub tail: Vec<u8>,
    pub started: bool,
    /// Every byte fed so far.
    pub seen: Ghost<Seq<u8>>,
}

pub open spec fn last_bytes(s: Seq<u8>, n: int) -> Seq<u8> {
    if s.len() <= n {
        s
    } else {
        s.subrange(s.len() - n, s.len() as int)
    }
}

impl Mp4Scan {
    pub open spec fn wf(&self) -> bool {
        &&& self.tail@ == last_bytes(self.seen@, 3)
        &&& !has_signature(self.seen@)
        &&& !self.started ==> self.seen@.len() == 0
        &&& self.started ==> starts_as_mp4(self.seen@)
    }

    pub fn new() -> (s: Mp4Scan)
        ensures
            s.wf(),
            s.seen@.len() == 0,
    {
        let seen: Ghost<Seq<u8>> = Ghost(Seq::empty());
        Mp4Scan { tail: Vec::new(), started: false, seen }
    }

    /// Feeds the next chunk. The stream must start as an MP4; a signature
    /// anywhere in everything fed so far is an error.
    pub fn feed(&mut self, chunk: &[u8]) -> (r: Result<(), Mp4Error>)
        requires
            old(self).wf(),
        ensures
            match r {
                Ok(_) => final(self).wf() && final(self).seen@ == old(self).seen@ + chunk@,
                Err(Mp4Error::NotMp4) => !old(self).started && !starts_as_mp4(chunk@),
                Err(Mp4Error::Encrypted) => has_signature(old(self).seen@ + chunk@) && (old(self).started || starts_as_mp4(chunk@)),
            },
            r is Ok <==> (old(self).started || starts_as_mp4(chunk@)) && !has_signature(
                old(self).seen@ + chunk@,
            ),
            r is Err ==> final(self).seen@ == old(self).seen@ && final(self).started
                == old(self).started && final(self).tail@ == old(self).tail@,
    {
        let ghost whole = self.seen@ + chunk@;
        let data = concat(&self.tail, chunk);
        if !self.started {
            assert(self.tail@.len() == 0);
            assert(data@ =~= chunk@);
            if !(data.len() >= 8 && data[4] == 0x66u8 && data[5] == 0x74u8 && data[6] == 0x79u8
                && data[7] == 0x70u8) {
                return Err(Mp4Error::NotMp4);
            }
            assert(data@.subrange(4, 8) =~= seq![0x66u8, 0x74u8, 0x79u8, 0x70u8]);
        }
        proof {
            lemma_window_cover(self.seen@, chunk@, self.tail@);
        }
        if any_signature(&data) {
            return Err(Mp4Error::Encrypted);
        }
        let tail = last3(&data);
        proof {
            lemma_last3(self.seen@, chunk@, self.tail@);
            if !self.started {
                assert(whole =~= chunk@);
            } else {
                assert(whole.subrange(4, 8) =~= self.seen@.subrange(4, 8));
            }
        }
        self.tail = tail;
        self.started = true;
        let seen: Ghost<Seq<u8>> = Ghost(whole);
        self.seen = seen;
        Ok(())
    }
}

fn concat(a: &Vec<u8>, b: &[u8]) -> (r: Vec<u8>)
    ensures
        r@ == a@ + b@,
{
    let mut data: Vec<u8> = Vec::new();
    let mut i: usize = 0;
    while i < a.len()
        invariant
            i <= a@.len(),
            data@ == a@.subrange(0, i as int),
        decreases a@.len() - i,
    {
        data.push(a[i]);
        i = i + 1;
    }
    let mut j: usize = 0;
    while j < b.len()
        invariant
            j <= b@.len(),
            data@ == a@ + b@.subrange(0, j as int),
        decreases b@.len() - j,
    {
        data.push(b[j]);
        j = j + 1;
    }
    assert(b@.subrange(0, b@.len() as int) == b@);
    data
}

fn any_signature(data: &Vec<u8>) -> (r: bool)
    ensures
        r == has_signature(data@),
{
    let mut p: usize = 0;
    while data.len() >= 4 && p <= data.len() - 4
        invariant
            p <= data@.len(),
            forall|q: int| 0 <= q < p && q + 4 <= data@.len() ==> !is_signature(
                #[trigger] data@.subrange(q, q + 4),
            ),
        decreases data@.len() - p,
    {
        let a = data[p];
        let b = data[p + 1];
        let c = data[p + 2];
        let d = data[p + 3];
        assert(data@.subrange(p as int, p + 4) =~= seq![a, b, c, d]);
        if (a == 0x70u8 && b == 0x73u8 && c == 0x73u8 && d == 0x68u8) || (a == 0x73u8 && b == 0x69u8
            && c == 0x6eu8 && d == 0x66u8) || (a == 0x74u8 && b == 0x65u8 && c == 0x6eu8 && d
            == 0x63u8) || (a == 0x65u8 && b == 0x6eu8 && c == 0x63u8 && (d == 0x76u8 || d
            == 0x61u8)) {
            assert(is_signature(data@.subrange(p as int, p + 4)));
            return true;
        }
        p = p + 1;
    }
    false
}

fn last3(data: &Vec<u8>) -> (r: Vec<u8>)
    ensures
        r@ == last_bytes(data@, 3),
{
    let n = data.len();
    let from = if n > 3 {
        n - 3
    } else {
        0
    };
    let mut tail: Vec<u8> = Vec::new();
    let mut t = from;
    while t < n
        invariant
            from <= t <= n == data@.len(),
            tail@ == data@.subrange(from as int, t as int),
        decreases n - t,
    {
        tail.push(data[t]);
        t = t + 1;
    }
    assert(tail@ =~= last_bytes(data@, 3));
    tail
}

/// Every window of `seen + chunk` that does not lie inside `seen` lies inside
/// `tail + chunk`, when `tail` is the last three bytes of `seen`.
proof fn lemma_window_cover(seen: Seq<u8>, chunk: Seq<u8>, tail: Seq<u8>)
    requires
        tail == last_bytes(seen, 3),
        !has_signature(seen),
    ensures
        has_signature(seen + chunk) == has_signature(tail + chunk),
{
    let whole = seen + chunk;
    let data = tail + chunk;
    let off = seen.len() - tail.len();
    assert forall|k: int| 0 <= k < data.len() implies data[k] == whole[off + k] by {
        if k < tail.len() {
            assert(tail[k] == seen[off + k]);
        }
    }
    if has_signature(whole) {
        let q = choose|q: int| 0 <= q && q + 4 <= whole.len() && #[trigger] is_signature(whole.subrange(q, q + 4));
        if q + 4 <= seen.len() {
            assert(whole.subrange(q, q + 4) =~= seen.subrange(q, q + 4));
            assert(false);
        } else {
            assert(whole.subrange(q, q + 4) =~= data.subrange(q - off, q - off + 4));
        }
    }
    if has_signature(data) {
        let q = choose|q: int| 0 <= q && q + 4 <= data.len() && #[trigger] is_signature(data.subrange(q, q + 4));
        assert(whole.subrange(off + q, off + q + 4) =~= data.subrange(q, q + 4));
    }
}

proof fn lemma_last3(seen: Seq<u8>, chunk: Seq<u8>, tail: Seq<u8>)
    requires
        tail == last_bytes(seen, 3),
    ensures
        last_bytes(tail + chunk, 3) == last_bytes(seen + chunk, 3),
{
    let whole = seen + chunk;
    let data = tail + chunk;
    let off = seen.len() - tail.len();
    assert forall|k: int| 0 <= k < data.len() implies data[k] == whole[off + k] by {
        if k < tail.len() {
            assert(tail[k] == seen[off + k]);
        }
    }
    assert(last_bytes(data, 3) =~= last_bytes(whole, 3));
}

// ---------------------------------------------------------------------------
// Command-line runs
// ---------------------------------------------------------------------------

/// A saved response answers for one episode only.
pub fn saved_episodes_ok(has_saved: bool, count: usize) -> (r: bool)
    ensures
        r == (!has_saved || count == 1),
{
    !has_saved || count == 1
}

/// `<completed> episode(s) completed or skipped; <failed> failed`.
pub fn run_summary(completed: u64, failed: u64) -> (r: String)
    ensures
        r@ == crate::text::decimal(completed as nat) + " episode(s) completed or skipped; "@
            + crate::text::decimal(failed as nat) + " failed"@,
{
    let mut r = String::new();
    crate::text::push_decimal(&mut r, completed);
    push_str(&mut r, " episode(s) completed or skipped; ");
    crate::text::push_decimal(&mut r, failed);
    push_str(&mut r, " failed");
    r
}

} // verus!
