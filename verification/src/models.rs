//! What a source resolver answers for one episode.
use vstd::prelude::*;
use crate::hls::pairs_view;
use crate::text::{lemma_seq_less_transitive, seq_less, str_less};

verus! {

/// The JSON value of a `drm` field, as far as the protection rule reads it.
#[derive(Debug)]
pub enum DrmValue {
    Null,
    Bool(bool),
    /// A number, string, array or object, as its JSON text.
    Other(String),
}

impl DrmValue {
    pub fn duplicate(&self) -> (r: DrmValue)
        ensures
            r == *self,
    {
        match self {
            DrmValue::Null => DrmValue::Null,
            DrmValue::Bool(b) => DrmValue::Bool(*b),
            DrmValue::Other(t) => DrmValue::Other(t.clone()),
        }
    }
}

/// A copy of an optional `drm` field.
pub fn copy_drm(d: &Option<DrmValue>) -> (r: Option<DrmValue>)
    ensures
        r == *d,
{
    match d {
        Some(v) => Some(v.duplicate()),
        None => None,
    }
}

/// A stream that the resolver offers.
pub struct Source {
    pub url: String,
    pub drm: Option<DrmValue>,
}

/// A subtitle or caption track.
pub struct Track {
    pub file: String,
    pub label: String,
    pub kind: String,
}

/// A resolver response: streams, the request headers they need, and subtitle tracks.
pub struct Resolved {
    pub sources: Vec<Source>,
    /// Header names and values: a map, so names ascend and none repeats (`wf`).
    pub headers: Vec<(String, String)>,
    pub tracks: Vec<Track>,
    pub drm: Option<DrmValue>,
}

/// Names in strictly ascending order, so each name occurs once.
pub open spec fn names_ascending(hs: Seq<(Seq<char>, Seq<char>)>) -> bool {
    forall|i: int, j: int| 0 <= i < j < hs.len() ==> seq_less(#[trigger] hs[i].0, #[trigger] hs[j].0)
}

impl Resolved {
    /// The headers form a map: names ascend strictly.
    pub open spec fn wf(&self) -> bool {
        names_ascending(pairs_view(self.headers@))
    }
}

/// Whether header names ascend strictly.
pub fn headers_in_order(hs: &Vec<(String, String)>) -> (r: bool)
    ensures
        r == names_ascending(pairs_view(hs@)),
{
    let ghost v = pairs_view(hs@);
    let mut i: usize = 1;
    while i < hs.len()
        invariant
            1 <= i,
            v == pairs_view(hs@),
            v.len() == hs@.len(),
            forall|a: int, b: int| 0 <= a < b < i && b < v.len() ==> seq_less(#[trigger] v[a].0, #[trigger] v[b].0),
        decreases hs@.len() - i,
    {
        let ok = str_less(hs[i - 1].0.as_str(), hs[i].0.as_str());
        assert(v[i - 1] == (hs@[i - 1].0@, hs@[i - 1].1@));
        assert(v[i as int] == (hs@[i as int].0@, hs@[i as int].1@));
        if !ok {
            assert(v.len() == hs@.len());
            assert(!seq_less(v[i - 1].0, v[i as int].0));
            return false;
        }
        assert forall|a: int, b: int| 0 <= a < b < i + 1 && b < v.len() implies seq_less(
            #[trigger] v[a].0,
            #[trigger] v[b].0,
        ) by {
            if b == i && a < i - 1 {
                lemma_seq_less_transitive(v[a].0, v[i - 1].0, v[b].0);
            }
        }
        i = i + 1;
    }
    true
}

/// A `drm` field declares protection unless it is absent, `null` or `false`.
pub open spec fn spec_protected(value: Option<DrmValue>) -> bool {
    match value {
        None => false,
        Some(DrmValue::Null) => false,
        Some(DrmValue::Bool(b)) => b,
        Some(DrmValue::Other(_)) => true,
    }
}

/// Whether a `drm` field declares protection.
pub fn protected(value: &Option<DrmValue>) -> (r: bool)
    ensures
        r == spec_protected(*value),
{
    match value {
        None => false,
        Some(DrmValue::Null) => false,
        Some(DrmValue::Bool(b)) => *b,
        Some(DrmValue::Other(_)) => true,
    }
}

impl Source {
    pub fn duplicate(&self) -> (r: Source)
        ensures
            r == *self,
    {
        Source { url: self.url.clone(), drm: copy_drm(&self.drm) }
    }
}

impl Track {
    pub fn duplicate(&self) -> (r: Track)
        ensures
            r == *self,
    {
        Track { file: self.file.clone(), label: self.label.clone(), kind: self.kind.clone() }
    }
}

impl Resolved {
    /// A copy with the same fields.
    pub fn duplicate(&self) -> (r: Resolved)
        ensures
            r.sources@ == self.sources@,
            r.headers@ == self.headers@,
            r.tracks@ == self.tracks@,
            r.drm == self.drm,
    {
        let mut sources: Vec<Source> = Vec::new();
        for i in 0..self.sources.len()
            invariant
                sources@ == self.sources@.subrange(0, i as int),
        {
            sources.push(self.sources[i].duplicate());
            assert(sources@ == self.sources@.subrange(0, i + 1));
        }
        let mut headers: Vec<(String, String)> = Vec::new();
        for i in 0..self.headers.len()
            invariant
                headers@ == self.headers@.subrange(0, i as int),
        {
            let (k, v) = &self.headers[i];
            headers.push((k.clone(), v.clone()));
            assert(headers@ == self.headers@.subrange(0, i + 1));
        }
        let mut tracks: Vec<Track> = Vec::new();
        for i in 0..self.tracks.len()
            invariant
                tracks@ == self.tracks@.subrange(0, i as int),
        {
            tracks.push(self.tracks[i].duplicate());
            assert(tracks@ == self.tracks@.subrange(0, i + 1));
        }
        assert(sources@ == self.sources@);
        assert(headers@ == self.headers@);
        assert(tracks@ == self.tracks@);
        Resolved { sources, headers, tracks, drm: copy_drm(&self.drm) }
    }
}

} // verus!
