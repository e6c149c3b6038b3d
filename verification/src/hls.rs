//! HLS playlists: attribute lists, encryption refusal, variant selection,
//! playlist export and the restricted local playlist.
use vstd::prelude::*;
use crate::text::{
    chars_of, find, lines, owned, parse_uint, parse_uint_span, push_char, push_decimal,
    push_span, push_str, span_eq, span_find, span_starts_with, span_views, spans_within,
    starts_with, string_of_span, trim, trim_span, trim_start, trim_start_idx, trimmed_line_spans,
    trimmed_lines, str_eq,
};
use crate::models::names_ascending;
use crate::text::{
    lemma_seq_less_irreflexive, lemma_seq_less_total, lemma_seq_less_transitive, seq_less, str_less,
};
use crate::text::{
    decimal, find_sub, is_digit, push_chars, push_padded, span_find_sub, split, split_spans,
};
use crate::urls::{
    http_scheme, is_http, opt_view, spec_url_join, spec_url_parse, spec_url_scheme, url_join,
    url_parse,
};

verus! {

/// Why a playlist was refused.
#[derive(Debug, PartialEq, Eq, Structural)]
pub enum HlsError {
    /// The text does not start with `#EXTM3U`.
    NotHls,
    /// A key tag names a method other than `NONE`, a key URI or a key format.
    Encrypted,
    /// A content-protection tag.
    DrmProtected,
    UnterminatedAttribute,
    InvalidAttribute,
    MissingVariantUri,
    /// A reference that does not resolve to a URL.
    InvalidUrl,
    /// A quality that is neither `best` nor a number.
    InvalidQuality,
    ResolutionUnavailable,
    UnverifiableResolution,
    SeparateAudio,
    TooManyNested,
    NoMediaReferences,
    NotMediaPlaylist,
    LiveUnsupported,
    VariableSubstitution,
    NonHttpReference,
    UnterminatedUri,
    ByteRange,
    MapMissingUri,
    InvalidDuration,
    InvalidNumber,
    UnsupportedTag,
    NoMedia,
}

// ---------------------------------------------------------------------------
// Attribute lists
// ---------------------------------------------------------------------------

/// Split state after the first `i` chars: finished fields, start of the
/// current field, and whether a quote is open.
pub open spec fn attr_scan(s: Seq<char>, i: int) -> (Seq<Seq<char>>, int, bool)
    decreases i,
{
    if i <= 0 || i > s.len() {
        (seq![], 0, false)
    } else {
        let prev = attr_scan(s, i - 1);
        let c = s[i - 1];
        let q = if c == '"' { !prev.2 } else { prev.2 };
        if c == ',' && !q {
            (prev.0.push(s.subrange(prev.1, i - 1)), i, q)
        } else {
            (prev.0, prev.1, q)
        }
    }
}

/// The fields of an attribute list: split at commas outside quotes.
pub open spec fn attr_fields(s: Seq<char>) -> Option<Seq<Seq<char>>> {
    let st = attr_scan(s, s.len() as int);
    if st.2 {
        None
    } else {
        Some(st.0.push(s.subrange(st.1, s.len() as int)))
    }
}

pub open spec fn trim_start_quotes(s: Seq<char>) -> Seq<char>
    decreases s.len(),
{
    if s.len() > 0 && s[0] == '"' {
        trim_start_quotes(s.drop_first())
    } else {
        s
    }
}

pub open spec fn trim_end_quotes(s: Seq<char>) -> Seq<char>
    decreases s.len(),
{
    if s.len() > 0 && s.last() == '"' {
        trim_end_quotes(s.drop_last())
    } else {
        s
    }
}

/// `str::trim_matches('"')`.
pub open spec fn trim_quotes(s: Seq<char>) -> Seq<char> {
    trim_end_quotes(trim_start_quotes(s))
}

/// `KEY=VALUE`, split at the first `=`, key trimmed, value trimmed and unquoted.
pub open spec fn attr_pair(f: Seq<char>) -> Option<(Seq<char>, Seq<char>)> {
    match find(f, '=') {
        None => None,
        Some(k) => Some((trim(f.subrange(0, k)), trim_quotes(trim(f.subrange(k + 1, f.len() as int))))),
    }
}

/// The attribute list `s` as key/value pairs in order of appearance.
pub open spec fn spec_attributes(s: Seq<char>) -> Result<Seq<(Seq<char>, Seq<char>)>, HlsError> {
    match attr_fields(s) {
        None => Err(HlsError::UnterminatedAttribute),
        Some(fs) => if forall|i: int| 0 <= i < fs.len() ==> (#[trigger] attr_pair(fs[i])) is Some {
            Ok(fs.map_values(|f: Seq<char>| attr_pair(f)->Some_0))
        } else {
            Err(HlsError::InvalidAttribute)
        },
    }
}

/// The value of `key`: that of its last occurrence, as in a map built in order.
pub open spec fn lookup(ps: Seq<(Seq<char>, Seq<char>)>, key: Seq<char>) -> Option<Seq<char>>
    decreases ps.len(),
{
    if ps.len() == 0 {
        None
    } else if ps.last().0 == key {
        Some(ps.last().1)
    } else {
        lookup(ps.drop_last(), key)
    }
}

pub open spec fn pairs_view(v: Seq<(String, String)>) -> Seq<(Seq<char>, Seq<char>)> {
    v.map_values(|p: (String, String)| (p.0@, p.1@))
}

pub open spec fn attrs_view(r: Result<Vec<(String, String)>, HlsError>) -> Result<
    Seq<(Seq<char>, Seq<char>)>,
    HlsError,
> {
    match r {
        Ok(v) => Ok(pairs_view(v@)),
        Err(e) => Err(e),
    }
}

proof fn lemma_trim_start_quotes_at(s: Seq<char>, k: int)
    requires
        0 <= k <= s.len(),
        forall|j: int| 0 <= j < k ==> #[trigger] s[j] == '"',
        k == s.len() || s[k] != '"',
    ensures
        trim_start_quotes(s) == s.subrange(k, s.len() as int),
    decreases k,
{
    if k == 0 {
        assert(s.subrange(0, s.len() as int) == s);
    } else {
        let t = s.drop_first();
        assert forall|j: int| 0 <= j < k - 1 implies #[trigger] t[j] == '"' by {
            assert(t[j] == s[j + 1]);
        }
        if k - 1 < t.len() {
            assert(t[k - 1] == s[k]);
        }
        lemma_trim_start_quotes_at(t, k - 1);
        assert(t.subrange(k - 1, t.len() as int) == s.subrange(k, s.len() as int));
    }
}

proof fn lemma_trim_end_quotes_at(s: Seq<char>, k: int)
    requires
        0 <= k <= s.len(),
        forall|j: int| k <= j < s.len() ==> #[trigger] s[j] == '"',
        k == 0 || s[k - 1] != '"',
    ensures
        trim_end_quotes(s) == s.subrange(0, k),
    decreases s.len() - k,
{
    if k == s.len() {
        assert(s.subrange(0, s.len() as int) == s);
    } else {
        let t = s.drop_last();
        assert forall|j: int| k <= j < t.len() implies #[trigger] t[j] == '"' by {
            assert(t[j] == s[j]);
        }
        if k > 0 {
            assert(t[k - 1] == s[k - 1]);
        }
        lemma_trim_end_quotes_at(t, k);
        assert(t.subrange(0, k) == s.subrange(0, k));
    }
}

/// Bounds of `trim_quotes(v[lo..hi])` inside `v`.
pub fn trim_quotes_span(v: &Vec<char>, lo: usize, hi: usize) -> (r: (usize, usize))
    requires
        lo <= hi <= v@.len(),
    ensures
        lo <= r.0 <= r.1 <= hi,
        v@.subrange(r.0 as int, r.1 as int) == trim_quotes(v@.subrange(lo as int, hi as int)),
{
    let ghost s = v@.subrange(lo as int, hi as int);
    let mut a = lo;
    while a < hi && v[a] == '"'
        invariant
            lo <= a <= hi <= v@.len(),
            forall|j: int| lo <= j < a ==> #[trigger] v@[j] == '"',
        decreases hi - a,
    {
        a = a + 1;
    }
    proof {
        assert forall|j: int| 0 <= j < a - lo implies #[trigger] s[j] == '"' by {
            assert(s[j] == v@[lo + j]);
        }
        if a < hi {
            assert(s[a - lo] == v@[a as int]);
        }
        lemma_trim_start_quotes_at(s, a - lo);
    }
    let ghost t = v@.subrange(a as int, hi as int);
    assert(t == s.subrange(a - lo, s.len() as int));
    let mut b = hi;
    while b > a && v[b - 1] == '"'
        invariant
            lo <= a <= b <= hi <= v@.len(),
            forall|j: int| b <= j < hi ==> #[trigger] v@[j] == '"',
        decreases b - a,
    {
        b = b - 1;
    }
    proof {
        assert forall|j: int| b - a <= j < t.len() implies #[trigger] t[j] == '"' by {
            assert(t[j] == v@[a + j]);
        }
        if b > a {
            assert(t[b - a - 1] == v@[b - 1]);
        }
        lemma_trim_end_quotes_at(t, b - a);
        assert(t.subrange(0, b - a) == v@.subrange(a as int, b as int));
    }
    (a, b)
}

/// One `KEY=VALUE` field `v[lo..hi]`.
fn attr_pair_exec(v: &Vec<char>, lo: usize, hi: usize) -> (r: Option<(String, String)>)
    requires
        lo <= hi <= v@.len(),
    ensures
        match r {
            Some(p) => attr_pair(v@.subrange(lo as int, hi as int)) == Some((p.0@, p.1@)),
            None => attr_pair(v@.subrange(lo as int, hi as int)) is None,
        },
{
    let ghost f = v@.subrange(lo as int, hi as int);
    match span_find(v, lo, hi, '=') {
        None => None,
        Some(k) => {
            let (ka, kb) = trim_span(v, lo, k);
            let (va, vb) = trim_span(v, k + 1, hi);
            let (qa, qb) = trim_quotes_span(v, va, vb);
            assert(f.subrange(0, k - lo) == v@.subrange(lo as int, k as int));
            assert(f.subrange(k - lo + 1, f.len() as int) == v@.subrange(k + 1, hi as int));
            Some((string_of_span(v, ka, kb), string_of_span(v, qa, qb)))
        },
    }
}

proof fn lemma_attr_scan_step(s: Seq<char>, t: Seq<char>, i: int)
    requires
        0 <= i <= s.len(),
        0 <= i <= t.len(),
        s.subrange(0, i) == t.subrange(0, i),
    ensures
        attr_scan(s, i) == attr_scan(t, i),
    decreases i,
{
    if i > 0 {
        assert(s.subrange(0, i - 1) == t.subrange(0, i - 1));
        lemma_attr_scan_step(s, t, i - 1);
        assert(s[i - 1] == s.subrange(0, i)[i - 1]);
        assert(t[i - 1] == t.subrange(0, i)[i - 1]);
        let prev = attr_scan(s, i - 1);
        lemma_attr_scan_bounds(s, i - 1);
        assert(s.subrange(prev.1, i - 1) == s.subrange(0, i).subrange(prev.1, i - 1));
        assert(t.subrange(prev.1, i - 1) == t.subrange(0, i).subrange(prev.1, i - 1));
    }
}

proof fn lemma_attr_scan_bounds(s: Seq<char>, i: int)
    requires
        0 <= i <= s.len(),
    ensures
        0 <= attr_scan(s, i).1 <= i,
    decreases i,
{
    if i > 0 {
        lemma_attr_scan_bounds(s, i - 1);
    }
}

/// The attribute list `v[lo..hi]`.
pub(crate) fn attributes_span(v: &Vec<char>, lo: usize, hi: usize) -> (r: Result<
    Vec<(String, String)>,
    HlsError,
>)
    requires
        lo <= hi <= v@.len(),
    ensures
        attrs_view(r) == spec_attributes(v@.subrange(lo as int, hi as int)),
{
    let ghost s = v@.subrange(lo as int, hi as int);
    let mut quoted = false;
    let mut start = lo;
    let mut fields: Vec<(usize, usize)> = Vec::new();
    let mut i = lo;
    while i < hi
        invariant
            lo <= start <= i <= hi <= v@.len(),
            s == v@.subrange(lo as int, hi as int),
            spans_within(v@, fields@),
            attr_scan(s, i - lo) == (span_views(v@, fields@), start - lo, quoted),
        decreases hi - i,
    {
        let c = v[i];
        assert(s[i - lo] == c);
        if c == '"' {
            quoted = !quoted;
        }
        if c == ',' && !quoted {
            let ghost old_f = fields@;
            fields.push((start, i));
            assert(s.subrange(start - lo, i - lo) == v@.subrange(start as int, i as int));
            assert(span_views(v@, fields@) == span_views(v@, old_f).push(v@.subrange(start as int, i as int)));
            start = i + 1;
        }
        i = i + 1;
    }
    if quoted {
        return Err(HlsError::UnterminatedAttribute);
    }
    let ghost old_f = fields@;
    fields.push((start, hi));
    assert(s.subrange(start - lo, s.len() as int) == v@.subrange(start as int, hi as int));
    assert(span_views(v@, fields@) == span_views(v@, old_f).push(v@.subrange(start as int, hi as int)));
    let ghost fs = span_views(v@, fields@);
    assert(attr_fields(s) == Some(fs));
    let mut out: Vec<(String, String)> = Vec::new();
    let mut k: usize = 0;
    while k < fields.len()
        invariant
            k <= fields@.len(),
            spans_within(v@, fields@),
            fs == span_views(v@, fields@),
            s == v@.subrange(lo as int, hi as int),
            attr_fields(s) == Some(fs),
            forall|j: int| 0 <= j < k ==> (#[trigger] attr_pair(fs[j])) is Some,
            pairs_view(out@) == fs.take(k as int).map_values(|f: Seq<char>| attr_pair(f)->Some_0),
        decreases fields@.len() - k,
    {
        let (a, b) = fields[k];
        assert(fs[k as int] == v@.subrange(a as int, b as int));
        match attr_pair_exec(v, a, b) {
            None => {
                assert(attr_pair(fs[k as int]) is None);
                return Err(HlsError::InvalidAttribute);
            },
            Some(p) => {
                let ghost old_out = out@;
                out.push(p);
                assert(pairs_view(out@) == pairs_view(old_out).push((p.0@, p.1@)));
                assert(fs.take(k + 1).map_values(|f: Seq<char>| attr_pair(f)->Some_0) == fs.take(
                    k as int,
                ).map_values(|f: Seq<char>| attr_pair(f)->Some_0).push(attr_pair(fs[k as int])->Some_0));
            },
        }
        k = k + 1;
    }
    assert(fs.take(k as int) == fs);
    Ok(out)
}

proof fn lemma_lookup_at(s: Seq<(Seq<char>, Seq<char>)>, i: int)
    requires
        names_ascending(s),
        0 <= i < s.len(),
    ensures
        lookup(s, s[i].0) == Some(s[i].1),
    decreases s.len(),
{
    if i < s.len() - 1 {
        assert(seq_less(s[i].0, s[s.len() - 1].0));
        lemma_seq_less_irreflexive(s[i].0);
        let d = s.drop_last();
        assert forall|a: int, b: int| 0 <= a < b < d.len() implies seq_less(#[trigger] d[a].0, #[trigger] d[b].0) by {
            assert(d[a] == s[a] && d[b] == s[b]);
        }
        assert(d[i] == s[i]);
        lemma_lookup_at(d, i);
    }
}

proof fn lemma_lookup_absent(s: Seq<(Seq<char>, Seq<char>)>, key: Seq<char>)
    requires
        forall|i: int| 0 <= i < s.len() ==> (#[trigger] s[i]).0 != key,
    ensures
        lookup(s, key) is None,
    decreases s.len(),
{
    if s.len() > 0 {
        let d = s.drop_last();
        assert(s[s.len() - 1].0 != key);
        assert forall|i: int| 0 <= i < d.len() implies (#[trigger] d[i]).0 != key by {
            assert(d[i] == s[i]);
        }
        lemma_lookup_absent(d, key);
    }
}

fn copy_pairs(out: &mut Vec<(String, String)>, m: &Vec<(String, String)>, lo: usize, hi: usize)
    requires
        lo <= hi <= m@.len(),
    ensures
        pairs_view(final(out)@) == pairs_view(old(out)@) + pairs_view(m@).subrange(lo as int, hi as int),
{
    let mut j = lo;
    while j < hi
        invariant
            lo <= j <= hi <= m@.len(),
            pairs_view(out@) == pairs_view(old(out)@) + pairs_view(m@).subrange(lo as int, j as int),
        decreases hi - j,
    {
        let ghost before = pairs_view(out@);
        out.push((m[j].0.clone(), m[j].1.clone()));
        assert(pairs_view(out@) == before.push((m@[j as int].0@, m@[j as int].1@)));
        assert(pairs_view(m@).subrange(lo as int, j + 1) == pairs_view(m@).subrange(lo as int, j as int).push(
            pairs_view(m@)[j as int],
        ));
        j = j + 1;
    }
}

/// A map, held as pairs with ascending keys, with `k` set to `v`.
fn map_insert(m: &Vec<(String, String)>, k: &String, v: &String) -> (r: Vec<(String, String)>)
    requires
        names_ascending(pairs_view(m@)),
    ensures
        names_ascending(pairs_view(r@)),
        forall|key: Seq<char>|
            #[trigger] lookup(pairs_view(r@), key) == if key == k@ {
                Some(v@)
            } else {
                lookup(pairs_view(m@), key)
            },
{
    let ghost s = pairs_view(m@);
    let mut i: usize = 0;
    while i < m.len() && str_less(m[i].0.as_str(), k.as_str())
        invariant
            i <= m@.len(),
            s == pairs_view(m@),
            s.len() == m@.len(),
            forall|j: int| 0 <= j < i ==> seq_less(#[trigger] s[j].0, k@),
        decreases m@.len() - i,
    {
        assert(s[i as int].0 == m@[i as int].0@);
        i = i + 1;
    }
    let start = if i < m.len() && str_eq(m[i].0.as_str(), k.as_str()) {
        i + 1
    } else {
        i
    };
    let mut r: Vec<(String, String)> = Vec::new();
    copy_pairs(&mut r, m, 0, i);
    let ghost mid = pairs_view(r@);
    r.push((k.clone(), v.clone()));
    assert(pairs_view(r@) == mid.push((k@, v@)));
    copy_pairs(&mut r, m, start, m.len());
    proof {
        let t = pairs_view(r@);
        let n = s.len() as int;
        let pre = s.subrange(0, i as int);
        let post = s.subrange(start as int, n);
        assert(t =~= pre + seq![(k@, v@)] + post);
        assert(i < n ==> s[i as int].0 == m@[i as int].0@);
        // everything from `start` on sorts after `k`
        assert forall|j: int| start <= j < n implies seq_less(k@, #[trigger] s[j].0) by {
            if start == i + 1 {
                assert(seq_less(s[i as int].0, s[j].0));
            } else {
                lemma_seq_less_total(s[i as int].0, k@);
                if j > i {
                    assert(seq_less(s[i as int].0, s[j].0));
                    lemma_seq_less_transitive(k@, s[i as int].0, s[j].0);
                }
            }
        }
        assert forall|a: int, b: int| 0 <= a < b < t.len() implies seq_less(#[trigger] t[a].0, #[trigger] t[b].0) by {
            if b < i {
                assert(t[a] == s[a] && t[b] == s[b]);
            } else if b == i {
                assert(t[a] == s[a]);
                assert(t[b] == (k@, v@));
            } else if a < i {
                assert(t[a] == s[a]);
                assert(t[b] == s[b - i - 1 + start]);
                assert(seq_less(s[a].0, s[b - i - 1 + start].0));
            } else if a == i {
                assert(t[a] == (k@, v@));
                assert(t[b] == s[b - i - 1 + start]);
            } else {
                assert(t[a] == s[a - i - 1 + start]);
                assert(t[b] == s[b - i - 1 + start]);
            }
        }
        assert forall|key: Seq<char>|
            #[trigger] lookup(t, key) == if key == k@ {
                Some(v@)
            } else {
                lookup(s, key)
            } by {
            if key == k@ {
                assert(t[i as int] == (k@, v@));
                lemma_lookup_at(t, i as int);
            } else if exists|j: int| 0 <= j < n && (#[trigger] s[j]).0 == key {
                let j = choose|j: int| 0 <= j < n && (#[trigger] s[j]).0 == key;
                lemma_lookup_at(s, j);
                if j < i {
                    assert(t[j] == s[j]);
                    lemma_lookup_at(t, j);
                } else {
                    assert(j >= start) by {
                        if j == i && start == i {
                            assert(s[j].0 != k@);
                        }
                    }
                    assert(t[j - start + i + 1] == s[j]);
                    lemma_lookup_at(t, j - start + i + 1);
                }
            } else {
                lemma_lookup_absent(s, key);
                assert forall|x: int| 0 <= x < t.len() implies (#[trigger] t[x]).0 != key by {
                    if x < i {
                        assert(t[x] == s[x]);
                    } else if x > i {
                        assert(t[x] == s[x - i - 1 + start]);
                    }
                }
                lemma_lookup_absent(t, key);
            }
        }
    }
    r
}

/// Parses an attribute list such as `BANDWIDTH=100,CODECS="a,b"` into a map:
/// keys in ascending order, each once, with the value of its last occurrence.
pub fn attributes(s: &str) -> (r: Result<Vec<(String, String)>, HlsError>)
    ensures
        match r {
            Ok(m) => spec_attributes(s@) matches Ok(ps) && names_ascending(pairs_view(m@)) && forall|
                key: Seq<char>,
            | #[trigger] lookup(pairs_view(m@), key) == lookup(ps, key),
            Err(e) => spec_attributes(s@) == Err::<Seq<(Seq<char>, Seq<char>)>, HlsError>(e),
        },
{
    let v = chars_of(s);
    assert(v@.subrange(0, v@.len() as int) == v@);
    let pairs = match attributes_span(&v, 0, v.len()) {
        Err(e) => {
            return Err(e);
        },
        Ok(p) => p,
    };
    let ghost ps = pairs_view(pairs@);
    let mut m: Vec<(String, String)> = Vec::new();
    let mut j: usize = 0;
    while j < pairs.len()
        invariant
            j <= pairs@.len(),
            ps == pairs_view(pairs@),
            ps.len() == pairs@.len(),
            names_ascending(pairs_view(m@)),
            forall|key: Seq<char>| #[trigger] lookup(pairs_view(m@), key) == lookup(ps.take(j as int), key),
        decreases pairs@.len() - j,
    {
        let next = map_insert(&m, &pairs[j].0, &pairs[j].1);
        proof {
            assert(ps[j as int] == (pairs@[j as int].0@, pairs@[j as int].1@));
            assert(ps.take(j + 1).drop_last() == ps.take(j as int));
            assert(ps.take(j + 1).last() == ps[j as int]);
            assert forall|key: Seq<char>| #[trigger] lookup(pairs_view(next@), key) == lookup(ps.take(j + 1), key) by {
                assert(lookup(pairs_view(m@), key) == lookup(ps.take(j as int), key));
            }
        }
        m = next;
        j = j + 1;
    }
    assert(ps.take(j as int) == ps);
    Ok(m)
}

/// The value of `key` in an attribute list.
pub fn get(attrs: &Vec<(String, String)>, key: &str) -> (r: Option<String>)
    ensures
        opt_view(r) == lookup(pairs_view(attrs@), key@),
{
    let mut k = attrs.len();
    assert(attrs@.subrange(0, k as int) == attrs@);
    while k > 0
        invariant
            k <= attrs@.len(),
            lookup(pairs_view(attrs@), key@) == lookup(pairs_view(attrs@.subrange(0, k as int)), key@),
        decreases k,
    {
        let ghost sub = pairs_view(attrs@.subrange(0, k as int));
        assert(sub.last() == (attrs@[k - 1].0@, attrs@[k - 1].1@));
        if crate::text::str_eq(attrs[k - 1].0.as_str(), key) {
            return Some(attrs[k - 1].1.clone());
        }
        assert(sub.drop_last() == pairs_view(attrs@.subrange(0, k - 1)));
        k = k - 1;
    }
    None
}

// ---------------------------------------------------------------------------
// Encryption and DRM refusal
// ---------------------------------------------------------------------------

/// A key tag may only say that there is no key.
pub open spec fn key_allowed(a: Seq<(Seq<char>, Seq<char>)>) -> bool {
    &&& lookup(a, "METHOD"@) == Some("NONE"@)
    &&& lookup(a, "URI"@) is None
    &&& lookup(a, "KEYFORMAT"@) is None
}

/// The text after the first `:`.
pub open spec fn after_colon(l: Seq<char>) -> Seq<char> {
    match find(l, ':') {
        Some(k) => l.subrange(k + 1, l.len() as int),
        None => seq![],
    }
}

pub open spec fn is_key_line(l: Seq<char>) -> bool {
    starts_with(l, "#EXT-X-KEY:"@) || starts_with(l, "#EXT-X-SESSION-KEY:"@)
}

/// The check that `validate` makes of one trimmed line.
pub open spec fn check_line(l: Seq<char>) -> Result<(), HlsError> {
    let key: Result<(), HlsError> = if is_key_line(l) {
        match spec_attributes(after_colon(l)) {
            Err(e) => Err(e),
            Ok(a) => if key_allowed(a) {
                Ok(())
            } else {
                Err(HlsError::Encrypted)
            },
        }
    } else {
        Ok(())
    };
    match key {
        Err(e) => Err(e),
        Ok(_) => if starts_with(l, "#EXT-X-CONTENT-PROTECTION"@) {
            Err(HlsError::DrmProtected)
        } else {
            Ok(())
        },
    }
}

/// The first failed line check from line `i` on.
pub open spec fn check_lines(ls: Seq<Seq<char>>, i: int) -> Result<(), HlsError>
    decreases ls.len() - i,
{
    if i < 0 || i >= ls.len() {
        Ok(())
    } else {
        match check_line(ls[i]) {
            Err(e) => Err(e),
            Ok(_) => check_lines(ls, i + 1),
        }
    }
}

/// A playlist is accepted when it starts with `#EXTM3U` and no line declares a
/// key, a key format, or content protection.
pub open spec fn spec_validate(text: Seq<char>) -> Result<(), HlsError> {
    if !starts_with(trim_start(text), "#EXTM3U"@) {
        Err(HlsError::NotHls)
    } else {
        check_lines(trimmed_lines(text), 0)
    }
}

/// Literal patterns that the line checks use.
struct Patterns {
    key: Vec<char>,
    session_key: Vec<char>,
    protection: Vec<char>,
}

impl Patterns {
    spec fn wf(&self) -> bool {
        &&& self.key@ == "#EXT-X-KEY:"@
        &&& self.session_key@ == "#EXT-X-SESSION-KEY:"@
        &&& self.protection@ == "#EXT-X-CONTENT-PROTECTION"@
    }

    fn new() -> (p: Patterns)
        ensures
            p.wf(),
    {
        Patterns {
            key: chars_of("#EXT-X-KEY:"),
            session_key: chars_of("#EXT-X-SESSION-KEY:"),
            protection: chars_of("#EXT-X-CONTENT-PROTECTION"),
        }
    }
}

fn check_line_exec(v: &Vec<char>, a: usize, b: usize, pats: &Patterns) -> (r: Result<(), HlsError>)
    requires
        a <= b <= v@.len(),
        pats.wf(),
    ensures
        r == check_line(v@.subrange(a as int, b as int)),
{
    let ghost l = v@.subrange(a as int, b as int);
    if span_starts_with(v, a, b, &pats.key) || span_starts_with(v, a, b, &pats.session_key) {
        let attrs = match span_find(v, a, b, ':') {
            Some(k) => {
                assert(l.subrange(k - a + 1, l.len() as int) == v@.subrange(k + 1, b as int));
                attributes_span(v, k + 1, b)
            },
            None => {
                assert(v@.subrange(b as int, b as int) == Seq::<char>::empty());
                attributes_span(v, b, b)
            },
        };
        match attrs {
            Err(e) => {
                return Err(e);
            },
            Ok(a) => {
                let method = get(&a, "METHOD");
                let ok_method = match &method {
                    Some(m) => str_eq(m.as_str(), "NONE"),
                    None => false,
                };
                if !(ok_method && get(&a, "URI").is_none() && get(&a, "KEYFORMAT").is_none()) {
                    return Err(HlsError::Encrypted);
                }
            },
        }
    }
    if span_starts_with(v, a, b, &pats.protection) {
        return Err(HlsError::DrmProtected);
    }
    Ok(())
}

/// `spec_validate` of the chars `v`.
pub fn validate_chars(v: &Vec<char>) -> (r: Result<(), HlsError>)
    ensures
        r == spec_validate(v@),
{
    let start = trim_start_idx(v, 0, v.len());
    assert(v@.subrange(0, v@.len() as int) == v@);
    let head = chars_of("#EXTM3U");
    if !span_starts_with(v, start, v.len(), &head) {
        return Err(HlsError::NotHls);
    }
    assert(starts_with(trim_start(v@), "#EXTM3U"@));
    let pats = Patterns::new();
    let ls = trimmed_line_spans(v);
    let ghost tl = trimmed_lines(v@);
    let mut i: usize = 0;
    while i < ls.len()
        invariant
            i <= ls@.len(),
            pats.wf(),
            spans_within(v@, ls@),
            span_views(v@, ls@) == tl,
            tl == trimmed_lines(v@),
            starts_with(trim_start(v@), "#EXTM3U"@),
            check_lines(tl, i as int) == check_lines(tl, 0),
        decreases ls@.len() - i,
    {
        let (a, b) = ls[i];
        assert(tl[i as int] == v@.subrange(a as int, b as int));
        let r = check_line_exec(v, a, b, &pats);
        if r.is_err() {
            return r;
        }
        i = i + 1;
    }
    Ok(())
}

/// Refuses anything but a plain HLS playlist: encryption keys, session keys and
/// content protection are errors.
pub fn validate(text: &str) -> (r: Result<(), HlsError>)
    ensures
        r == spec_validate(text@),
{
    let v = chars_of(text);
    validate_chars(&v)
}

// ---------------------------------------------------------------------------
// Variants of a master playlist
// ---------------------------------------------------------------------------

/// A stream of a master playlist.
#[derive(Debug)]
pub struct Variant {
    pub url: String,
    pub height: u32,
    pub bandwidth: u64,
}

/// A loaded playlist: its final URL (serialized), its text and its variants.
pub struct Playlist {
    pub url: String,
    pub text: String,
    pub variants: Vec<Variant>,
}

pub open spec fn variant_view(v: Variant) -> (Seq<char>, u32, u64) {
    (v.url@, v.height, v.bandwidth)
}

pub open spec fn variants_view(vs: Seq<Variant>) -> Seq<(Seq<char>, u32, u64)> {
    vs.map_values(|v: Variant| variant_view(v))
}

/// Height in `RESOLUTION=WxH`, or 0.
pub open spec fn height_of(a: Seq<(Seq<char>, Seq<char>)>) -> u32 {
    match lookup(a, "RESOLUTION"@) {
        None => 0,
        Some(r) => match find(r, 'x') {
            None => 0,
            Some(k) => match parse_uint(r.subrange(k + 1, r.len() as int), u32::MAX as nat) {
                Some(h) => h as u32,
                None => 0,
            },
        },
    }
}

/// `BANDWIDTH`, or 0.
pub open spec fn bandwidth_of(a: Seq<(Seq<char>, Seq<char>)>) -> u64 {
    match lookup(a, "BANDWIDTH"@) {
        None => 0,
        Some(b) => match parse_uint(b, u64::MAX as nat) {
            Some(n) => n as u64,
            None => 0,
        },
    }
}

pub open spec fn prepend<T>(acc: Seq<T>, r: Result<Seq<T>, HlsError>) -> Result<Seq<T>, HlsError> {
    match r {
        Ok(rest) => Ok(acc + rest),
        Err(e) => Err(e),
    }
}

/// Variants from trimmed line `i` on; `pending` holds the attributes of a
/// stream tag that still waits for its URI line.
pub open spec fn scan_variants(
    base: Seq<char>,
    ls: Seq<Seq<char>>,
    i: int,
    pending: Option<Seq<(Seq<char>, Seq<char>)>>,
) -> Result<Seq<(Seq<char>, u32, u64)>, HlsError>
    decreases ls.len() - i,
{
    if i < 0 || i >= ls.len() {
        if pending is Some {
            Err(HlsError::MissingVariantUri)
        } else {
            Ok(seq![])
        }
    } else {
        let l = ls[i];
        if l.len() == 0 {
            scan_variants(base, ls, i + 1, pending)
        } else if starts_with(l, "#EXT-X-STREAM-INF:"@) {
            if pending is Some {
                Err(HlsError::MissingVariantUri)
            } else {
                match spec_attributes(l.subrange("#EXT-X-STREAM-INF:"@.len() as int, l.len() as int)) {
                    Err(e) => Err(e),
                    Ok(a) => scan_variants(base, ls, i + 1, Some(a)),
                }
            }
        } else if l[0] != '#' {
            match pending {
                None => scan_variants(base, ls, i + 1, None),
                Some(a) => match spec_url_join(base, l) {
                    None => Err(HlsError::InvalidUrl),
                    Some(u) => prepend(
                        seq![(u, height_of(a), bandwidth_of(a))],
                        scan_variants(base, ls, i + 1, None),
                    ),
                },
            }
        } else {
            scan_variants(base, ls, i + 1, pending)
        }
    }
}

/// The variants of a playlist whose URL is `base`; none for a media playlist.
pub open spec fn spec_variants(text: Seq<char>, base: Seq<char>) -> Result<
    Seq<(Seq<char>, u32, u64)>,
    HlsError,
> {
    match spec_validate(text) {
        Err(e) => Err(e),
        Ok(_) => scan_variants(base, trimmed_lines(text), 0, None),
    }
}

pub open spec fn variants_result_view(r: Result<Vec<Variant>, HlsError>) -> Result<
    Seq<(Seq<char>, u32, u64)>,
    HlsError,
> {
    match r {
        Ok(v) => Ok(variants_view(v@)),
        Err(e) => Err(e),
    }
}

pub open spec fn opt_pairs_view(o: Option<Vec<(String, String)>>) -> Option<
    Seq<(Seq<char>, Seq<char>)>,
> {
    match o {
        Some(v) => Some(pairs_view(v@)),
        None => None,
    }
}

#[verifier::rlimit(40)]
fn height_exec(a: &Vec<(String, String)>) -> (h: u32)
    ensures
        h == height_of(pairs_view(a@)),
{
    match get(a, "RESOLUTION") {
        None => 0,
        Some(r) => {
            let rv = chars_of(r.as_str());
            match span_find(&rv, 0, rv.len(), 'x') {
                None => {
                    assert(rv@.subrange(0, rv@.len() as int) == rv@);
                    0
                },
                Some(k) => {
                    assert(rv@.subrange(0, rv@.len() as int) == rv@);
                    match parse_uint_span(&rv, k + 1, rv.len(), u32::MAX as u64) {
                        Some(h) => h as u32,
                        None => 0,
                    }
                },
            }
        },
    }
}

fn bandwidth_exec(a: &Vec<(String, String)>) -> (b: u64)
    ensures
        b == bandwidth_of(pairs_view(a@)),
{
    match get(a, "BANDWIDTH") {
        None => 0,
        Some(b) => {
            let bv = chars_of(b.as_str());
            assert(bv@.subrange(0, bv@.len() as int) == bv@);
            match parse_uint_span(&bv, 0, bv.len(), u64::MAX) {
                Some(n) => n,
                None => 0,
            }
        },
    }
}

/// The variants of the playlist text `v`, whose URL is `base`.
pub fn variants_chars(v: &Vec<char>, base: &str) -> (r: Result<Vec<Variant>, HlsError>)
    ensures
        variants_result_view(r) == spec_variants(v@, base@),
{
    let checked = validate_chars(v);
    if let Err(e) = checked {
        return Err(e);
    }
    let ls = trimmed_line_spans(v);
    let ghost tl = trimmed_lines(v@);
    let inf = chars_of("#EXT-X-STREAM-INF:");
    let mut result: Vec<Variant> = Vec::new();
    let mut pending: Option<Vec<(String, String)>> = None;
    let mut i: usize = 0;
    while i < ls.len()
        invariant
            i <= ls@.len(),
            spans_within(v@, ls@),
            span_views(v@, ls@) == tl,
            tl == trimmed_lines(v@),
            inf@ == "#EXT-X-STREAM-INF:"@,
            spec_variants(v@, base@) == prepend(
                variants_view(result@),
                scan_variants(base@, tl, i as int, opt_pairs_view(pending)),
            ),
        decreases ls@.len() - i,
    {
        let (a, b) = ls[i];
        let ghost l = tl[i as int];
        assert(l == v@.subrange(a as int, b as int));
        if a == b {
        } else if span_starts_with(v, a, b, &inf) {
            if pending.is_some() {
                return Err(HlsError::MissingVariantUri);
            }
            assert(l.subrange(inf@.len() as int, l.len() as int) == v@.subrange(a + inf@.len(), b as int));
            match attributes_span(v, a + inf.len(), b) {
                Err(e) => {
                    return Err(e);
                },
                Ok(attrs) => {
                    pending = Some(attrs);
                },
            }
        } else if v[a] != '#' {
            assert(l[0] == v@[a as int]);
            match pending {
                None => {},
                Some(attrs) => {
                    let line = string_of_span(v, a, b);
                    match url_join(base, line.as_str()) {
                        None => {
                            return Err(HlsError::InvalidUrl);
                        },
                        Some(u) => {
                            let ghost old_r = variants_view(result@);
                            let h = height_exec(&attrs);
                            let bw = bandwidth_exec(&attrs);
                            let ghost uv = u@;
                            result.push(Variant { url: u, height: h, bandwidth: bw });
                            assert(variants_view(result@) == old_r + seq![(uv, h, bw)]);
                            assert(forall|x: Seq<(Seq<char>, u32, u64)>| old_r + seq![(uv, h, bw)] + x == old_r + (seq![(uv, h, bw)] + x));
                        },
                    }
                    pending = None;
                },
            }
        } else {
            assert(l[0] == v@[a as int]);
        }
        i = i + 1;
    }
    if pending.is_some() {
        return Err(HlsError::MissingVariantUri);
    }
    assert(variants_view(result@) + seq![] == variants_view(result@));
    Ok(result)
}

/// The variants of a master playlist `text` loaded from `base`; none for a media playlist.
pub fn variants(text: &str, base: &str) -> (r: Result<Vec<Variant>, HlsError>)
    ensures
        variants_result_view(r) == spec_variants(text@, base@),
{
    let v = chars_of(text);
    variants_chars(&v, base)
}

// ---------------------------------------------------------------------------
// Quality selection
// ---------------------------------------------------------------------------

/// The height that a quality asks for: none for `best`.
pub open spec fn wanted_height(q: Seq<char>) -> Result<Option<u32>, HlsError> {
    if q == "best"@ {
        Ok(None)
    } else {
        match parse_uint(crate::cli::trim_end_p(q), u32::MAX as nat) {
            Some(h) => Ok(Some(h as u32)),
            None => Err(HlsError::InvalidQuality),
        }
    }
}

pub open spec fn fits(v: (Seq<char>, u32, u64), h: Option<u32>) -> bool {
    h is None || v.1 == h->Some_0
}

/// `a` sorts at least as high as `b` by (height, bandwidth).
pub open spec fn key_ge(a: (Seq<char>, u32, u64), b: (Seq<char>, u32, u64)) -> bool {
    a.1 > b.1 || (a.1 == b.1 && a.2 >= b.2)
}

/// Index of the last variant with the largest (height, bandwidth) among those
/// from `i` on that fit, starting from the choice `cur`.
pub open spec fn best_from(vs: Seq<(Seq<char>, u32, u64)>, h: Option<u32>, i: int, cur: Option<int>) -> Option<int>
    decreases vs.len() - i,
{
    if i < 0 || i >= vs.len() {
        cur
    } else if fits(vs[i], h) && (cur is None || key_ge(vs[i], vs[cur->Some_0])) {
        best_from(vs, h, i + 1, Some(i))
    } else {
        best_from(vs, h, i + 1, cur)
    }
}

/// Index of the variant that a quality selects.
pub open spec fn spec_select(vs: Seq<(Seq<char>, u32, u64)>, q: Seq<char>) -> Result<int, HlsError> {
    match wanted_height(q) {
        Err(e) => Err(e),
        Ok(h) => match best_from(vs, h, 0, None) {
            None => Err(HlsError::ResolutionUnavailable),
            Some(k) => Ok(k),
        },
    }
}

/// Index of the variant that `quality` selects: among those of the asked
/// height (all, for `best`), the last with the largest (height, bandwidth).
pub fn select_index(variants: &[Variant], quality: &str) -> (r: Result<usize, HlsError>)
    ensures
        match r {
            Ok(k) => spec_select(variants_view(variants@), quality@) == Ok::<int, HlsError>(k as int)
                && k < variants@.len(),
            Err(e) => spec_select(variants_view(variants@), quality@) == Err::<int, HlsError>(e),
        },
{
    let ghost vs = variants_view(variants@);
    let best = str_eq(quality, "best");
    let height: Option<u32> = if best {
        None
    } else {
        let q = chars_of(quality);
        let e = crate::cli::trim_end_p_span(&q, 0, q.len());
        assert(q@.subrange(0, q@.len() as int) == q@);
        match parse_uint_span(&q, 0, e, u32::MAX as u64) {
            Some(h) => Some(h as u32),
            None => {
                return Err(HlsError::InvalidQuality);
            },
        }
    };
    assert(wanted_height(quality@) == Ok::<Option<u32>, HlsError>(height));
    let mut cur: Option<usize> = None;
    let mut i: usize = 0;
    while i < variants.len()
        invariant
            i <= variants@.len(),
            vs == variants_view(variants@),
            cur matches Some(c) ==> c < i,
            best_from(vs, height, 0, None) == best_from(
                vs,
                height,
                i as int,
                match cur {
                    Some(c) => Some(c as int),
                    None => None,
                },
            ),
        decreases variants@.len() - i,
    {
        let v = &variants[i];
        assert(vs[i as int] == variant_view(*v));
        let fit = match height {
            None => true,
            Some(h) => v.height == h,
        };
        if fit {
            let take = match cur {
                None => true,
                Some(c) => {
                    let w = &variants[c];
                    assert(vs[c as int] == variant_view(*w));
                    v.height > w.height || (v.height == w.height && v.bandwidth >= w.bandwidth)
                },
            };
            if take {
                cur = Some(i);
            }
        }
        i = i + 1;
    }
    match cur {
        None => Err(HlsError::ResolutionUnavailable),
        Some(c) => Ok(c),
    }
}

/// The variant that `quality` selects (see `select_index`).
pub fn select<'a>(variants: &'a [Variant], quality: &str) -> (r: Result<&'a Variant, HlsError>)
    ensures
        match r {
            Ok(v) => spec_select(variants_view(variants@), quality@) matches Ok(k) && 0 <= k
                < variants@.len() && *v == variants@[k],
            Err(e) => spec_select(variants_view(variants@), quality@) == Err::<int, HlsError>(e),
        },
{
    match select_index(variants, quality) {
        Ok(k) => Ok(&variants[k]),
        Err(e) => Err(e),
    }
}

proof fn lemma_best_from(vs: Seq<(Seq<char>, u32, u64)>, h: Option<u32>, i: int, cur: Option<int>)
    requires
        0 <= i <= vs.len(),
        cur matches Some(c) ==> 0 <= c < i && fits(vs[c], h),
        cur matches Some(c) ==> forall|j: int|
            0 <= j < i && fits(vs[j], h) ==> #[trigger] key_ge(vs[c], vs[j]),
        cur matches Some(c) ==> forall|j: int|
            c < j < i && fits(vs[j], h) ==> !(#[trigger] key_ge(vs[j], vs[c])),
        cur is None ==> forall|j: int| 0 <= j < i ==> !fits(#[trigger] vs[j], h),
    ensures
        best_from(vs, h, i, cur) matches Some(k) ==> {
            &&& 0 <= k < vs.len()
            &&& fits(vs[k], h)
            &&& forall|j: int| 0 <= j < vs.len() && fits(vs[j], h) ==> #[trigger] key_ge(vs[k], vs[j])
            &&& forall|j: int| k < j < vs.len() && fits(vs[j], h) ==> !(#[trigger] key_ge(vs[j], vs[k]))
        },
        best_from(vs, h, i, cur) is None ==> forall|j: int| 0 <= j < vs.len() ==> !fits(#[trigger] vs[j], h),
    decreases vs.len() - i,
{
    if i < vs.len() {
        if fits(vs[i], h) && (cur is None || key_ge(vs[i], vs[cur->Some_0])) {
            assert forall|j: int| 0 <= j < i + 1 && fits(vs[j], h) implies #[trigger] key_ge(
                vs[i],
                vs[j],
            ) by {
                if j < i {
                    let c = cur->Some_0;
                    assert(key_ge(vs[c], vs[j]));
                }
            }
            lemma_best_from(vs, h, i + 1, Some(i));
        } else {
            lemma_best_from(vs, h, i + 1, cur);
        }
    }
}

/// The selected variant has the asked height (any, for `best`), no variant of
/// that height sorts above it by (height, bandwidth), and none after it sorts
/// as high; when nothing is selected, no variant has the asked height.
pub proof fn lemma_select_is_last_maximum(vs: Seq<(Seq<char>, u32, u64)>, q: Seq<char>)
    requires
        wanted_height(q) is Ok,
    ensures
        spec_select(vs, q) matches Ok(k) ==> {
            &&& 0 <= k < vs.len()
            &&& fits(vs[k], wanted_height(q)->Ok_0)
            &&& forall|j: int|
                0 <= j < vs.len() && fits(vs[j], wanted_height(q)->Ok_0) ==> #[trigger] key_ge(vs[k], vs[j])
            &&& forall|j: int|
                k < j < vs.len() && fits(vs[j], wanted_height(q)->Ok_0) ==> !(#[trigger] key_ge(vs[j], vs[k]))
        },
        spec_select(vs, q) is Err ==> forall|j: int|
            0 <= j < vs.len() ==> !fits(#[trigger] vs[j], wanted_height(q)->Ok_0),
{
    lemma_best_from(vs, wanted_height(q)->Ok_0, 0, None);
}

/// A quality that names a height selects exactly that height: the variant
/// picked has the asked height and the largest bandwidth among those of that
/// height (the last such one on a tie); when no variant has that height the
/// request fails with `ResolutionUnavailable`, and never falls back to
/// another height.
pub proof fn lemma_select_exact_height(vs: Seq<(Seq<char>, u32, u64)>, q: Seq<char>, h: nat)
    requires
        q != "best"@,
        parse_uint(crate::cli::trim_end_p(q), u32::MAX as nat) == Some(h),
    ensures
        spec_select(vs, q) matches Ok(k) ==> {
            &&& 0 <= k < vs.len()
            &&& vs[k].1 == h
            &&& forall|j: int| 0 <= j < vs.len() && vs[j].1 == h ==> #[trigger] vs[j].2 <= vs[k].2
            &&& forall|j: int| k < j < vs.len() && vs[j].1 == h ==> #[trigger] vs[j].2 < vs[k].2
        },
        (forall|j: int| 0 <= j < vs.len() ==> #[trigger] vs[j].1 != h) ==> spec_select(vs, q) == Err::<
            int,
            HlsError,
        >(HlsError::ResolutionUnavailable),
        (exists|j: int| 0 <= j < vs.len() && #[trigger] vs[j].1 == h) ==> spec_select(vs, q) is Ok,
{
    lemma_select_is_last_maximum(vs, q);
    let w = wanted_height(q)->Ok_0;
    assert(w == Some(h as u32));
    if spec_select(vs, q) is Ok {
        let k = spec_select(vs, q)->Ok_0;
        assert forall|j: int| 0 <= j < vs.len() && vs[j].1 == h implies #[trigger] vs[j].2 <= vs[k].2 by {
            assert(fits(vs[j], w));
            assert(key_ge(vs[k], vs[j]));
        }
        assert forall|j: int| k < j < vs.len() && vs[j].1 == h implies #[trigger] vs[j].2 < vs[k].2 by {
            assert(fits(vs[j], w));
            assert(!key_ge(vs[j], vs[k]));
        }
    }
    if exists|j: int| 0 <= j < vs.len() && #[trigger] vs[j].1 == h {
        let j = choose|j: int| 0 <= j < vs.len() && #[trigger] vs[j].1 == h;
        assert(fits(vs[j], wanted_height(q)->Ok_0));
    }
}

/// `best` selects the highest variant: the largest height, then the largest
/// bandwidth (the last such one on a tie); it fails only without variants.
pub proof fn lemma_select_best(vs: Seq<(Seq<char>, u32, u64)>)
    ensures
        spec_select(vs, "best"@) matches Ok(k) ==> {
            &&& 0 <= k < vs.len()
            &&& forall|j: int|
                0 <= j < vs.len() ==> #[trigger] vs[j].1 < vs[k].1 || (vs[j].1 == vs[k].1 && vs[j].2
                    <= vs[k].2)
            &&& forall|j: int|
                k < j < vs.len() ==> #[trigger] vs[j].1 < vs[k].1 || (vs[j].1 == vs[k].1 && vs[j].2
                    < vs[k].2)
        },
        spec_select(vs, "best"@) is Ok <==> vs.len() > 0,
{
    lemma_select_is_last_maximum(vs, "best"@);
    let w = wanted_height("best"@)->Ok_0;
    if spec_select(vs, "best"@) is Ok {
        let k = spec_select(vs, "best"@)->Ok_0;
        assert forall|j: int| 0 <= j < vs.len() implies #[trigger] vs[j].1 < vs[k].1 || (vs[j].1
            == vs[k].1 && vs[j].2 <= vs[k].2) by {
            assert(fits(vs[j], w));
            assert(key_ge(vs[k], vs[j]));
        }
        assert forall|j: int| k < j < vs.len() implies #[trigger] vs[j].1 < vs[k].1 || (vs[j].1
            == vs[k].1 && vs[j].2 < vs[k].2) by {
            assert(fits(vs[j], w));
            assert(!key_ge(vs[j], vs[k]));
        }
    }
    if vs.len() > 0 {
        assert(fits(vs[0], wanted_height("best"@)->Ok_0));
    }
}

// ---------------------------------------------------------------------------
// From a master playlist down to a media playlist
// ---------------------------------------------------------------------------

/// What to do next with a loaded playlist.
#[derive(Debug)]
pub enum MediaStep {
    /// The playlist is a media playlist.
    Done,
    /// Load this URL (serialized) and decide again.
    Load(String),
}

/// Master playlists nest at most this deep.
pub open spec fn max_nesting() -> u32 {
    5
}

/// An audio rendition with its own URI is refused.
pub open spec fn audio_check(l: Seq<char>) -> Result<(), HlsError> {
    if starts_with(l, "#EXT-X-MEDIA:"@) {
        match spec_attributes(l.subrange("#EXT-X-MEDIA:"@.len() as int, l.len() as int)) {
            Err(e) => Err(e),
            Ok(a) => if lookup(a, "TYPE"@) == Some("AUDIO"@) && lookup(a, "URI"@) is Some {
                Err(HlsError::SeparateAudio)
            } else {
                Ok(())
            },
        }
    } else {
        Ok(())
    }
}

pub open spec fn audio_checks(ls: Seq<Seq<char>>, i: int) -> Result<(), HlsError>
    decreases ls.len() - i,
{
    if i < 0 || i >= ls.len() {
        Ok(())
    } else {
        match audio_check(ls[i]) {
            Err(e) => Err(e),
            Ok(_) => audio_checks(ls, i + 1),
        }
    }
}

/// The decision for a playlist loaded after `round` earlier loads: done for a
/// media playlist, else the URL of the variant that `quality` selects.
pub open spec fn spec_media_step(
    text: Seq<char>,
    vs: Seq<(Seq<char>, u32, u64)>,
    quality: Seq<char>,
    round: u32,
) -> Result<Option<Seq<char>>, HlsError> {
    if round == 0 && !(quality == "best"@ || vs.len() > 0) {
        Err(HlsError::UnverifiableResolution)
    } else if round >= max_nesting() {
        Err(HlsError::TooManyNested)
    } else if vs.len() == 0 {
        Ok(None)
    } else {
        match audio_checks(trimmed_lines(text), 0) {
            Err(e) => Err(e),
            Ok(_) => match spec_select(vs, quality) {
                Err(e) => Err(e),
                Ok(k) => match spec_url_parse(vs[k].0) {
                    None => Err(HlsError::InvalidUrl),
                    Some(u) => Ok(Some(u)),
                },
            },
        }
    }
}

pub open spec fn media_step_view(r: Result<MediaStep, HlsError>) -> Result<Option<Seq<char>>, HlsError> {
    match r {
        Ok(MediaStep::Done) => Ok(None),
        Ok(MediaStep::Load(u)) => Ok(Some(u@)),
        Err(e) => Err(e),
    }
}

/// Decides, for a playlist loaded after `round` earlier loads, whether it is
/// the media playlist or which variant URL to load next.
pub fn media_step(p: &Playlist, quality: &str, round: u32) -> (r: Result<MediaStep, HlsError>)
    ensures
        media_step_view(r) == spec_media_step(p.text@, variants_view(p.variants@), quality@, round),
{
    if round == 0 && !(str_eq(quality, "best") || p.variants.len() > 0) {
        return Err(HlsError::UnverifiableResolution);
    }
    if round >= 5 {
        return Err(HlsError::TooManyNested);
    }
    if p.variants.len() == 0 {
        return Ok(MediaStep::Done);
    }
    let v = chars_of(p.text.as_str());
    let ls = trimmed_line_spans(&v);
    let ghost tl = trimmed_lines(v@);
    let media = chars_of("#EXT-X-MEDIA:");
    let mut i: usize = 0;
    while i < ls.len()
        invariant
            i <= ls@.len(),
            spans_within(v@, ls@),
            span_views(v@, ls@) == tl,
            media@ == "#EXT-X-MEDIA:"@,
            tl == trimmed_lines(p.text@),
            round < 5,
            p.variants@.len() > 0,
            !(round == 0 && !(quality@ == "best"@ || p.variants@.len() > 0)),
            audio_checks(tl, 0) == audio_checks(tl, i as int),
        decreases ls@.len() - i,
    {
        let (a, b) = ls[i];
        let ghost l = tl[i as int];
        assert(l == v@.subrange(a as int, b as int));
        if span_starts_with(&v, a, b, &media) {
            assert(l.subrange(media@.len() as int, l.len() as int) == v@.subrange(a + media@.len(), b as int));
            match attributes_span(&v, a + media.len(), b) {
                Err(e) => {
                    return Err(e);
                },
                Ok(attrs) => {
                    let audio = match get(&attrs, "TYPE") {
                        Some(t) => str_eq(t.as_str(), "AUDIO"),
                        None => false,
                    };
                    if audio && get(&attrs, "URI").is_some() {
                        return Err(HlsError::SeparateAudio);
                    }
                },
            }
        }
        i = i + 1;
    }
    let k = match select_index(p.variants.as_slice(), quality) {
        Err(e) => {
            return Err(e);
        },
        Ok(k) => k,
    };
    assert(variants_view(p.variants@)[k as int] == variant_view(p.variants@[k as int]));
    match url_parse(p.variants[k].url.as_str()) {
        None => Err(HlsError::InvalidUrl),
        Some(u) => Ok(MediaStep::Load(u)),
    }
}

// ---------------------------------------------------------------------------
// Export of a media playlist
// ---------------------------------------------------------------------------

/// A reference resolved against the playlist URL; it must use HTTP(S).
pub open spec fn absolute(base: Seq<char>, value: Seq<char>) -> Result<Seq<char>, HlsError> {
    match spec_url_join(base, value) {
        None => Err(HlsError::InvalidUrl),
        Some(u) => if is_http(spec_url_scheme(u)) {
            Ok(u)
        } else {
            Err(HlsError::NonHttpReference)
        },
    }
}

/// A tag line with every `URI="..."` value made absolute.
pub open spec fn rewrite_uris(base: Seq<char>, rem: Seq<char>) -> Result<Seq<char>, HlsError>
    decreases rem.len(),
{
    match find_sub(rem, "URI=\""@) {
        None => Ok(rem),
        Some(st) => {
            let vs = st + "URI=\""@.len();
            match find(rem.subrange(vs, rem.len() as int), '"') {
                None => Err(HlsError::UnterminatedUri),
                Some(e0) => {
                    let end = vs + e0;
                    match absolute(base, rem.subrange(vs, end)) {
                        Err(e) => Err(e),
                        Ok(u) => if 0 <= end && end + 1 <= rem.len() {
                            prepend(
                                rem.subrange(0, vs) + u + seq!['"'],
                                rewrite_uris(base, rem.subrange(end + 1, rem.len() as int)),
                            )
                        } else {
                            Err(HlsError::UnterminatedUri)
                        },
                    }
                },
            }
        },
    }
}

pub open spec fn is_media_line(l: Seq<char>) -> bool {
    l.len() > 0 && l[0] != '#'
}

/// One trimmed line of the exported playlist.
pub open spec fn export_line(base: Seq<char>, l: Seq<char>) -> Result<Seq<char>, HlsError> {
    if is_media_line(l) {
        absolute(base, l)
    } else if starts_with(l, "#EXT"@) {
        rewrite_uris(base, l)
    } else {
        Ok(l)
    }
}

/// The exported lines from `i` on, each ended by a newline.
pub open spec fn export_lines(base: Seq<char>, ls: Seq<Seq<char>>, i: int) -> Result<Seq<char>, HlsError>
    decreases ls.len() - i,
{
    if i < 0 || i >= ls.len() {
        Ok(seq![])
    } else {
        match export_line(base, ls[i]) {
            Err(e) => Err(e),
            Ok(x) => prepend(x + seq!['\n'], export_lines(base, ls, i + 1)),
        }
    }
}

/// A complete, unencrypted media playlist with every reference made an
/// absolute HTTP(S) URL.
pub open spec fn spec_export(text: Seq<char>, url: Seq<char>, variant_count: nat) -> Result<
    Seq<char>,
    HlsError,
> {
    let ls = trimmed_lines(text);
    match spec_validate(text) {
        Err(e) => Err(e),
        Ok(_) => if !(exists|i: int| 0 <= i < ls.len() && #[trigger] is_media_line(ls[i])) {
            Err(HlsError::NoMediaReferences)
        } else if variant_count != 0 {
            Err(HlsError::NotMediaPlaylist)
        } else if !(exists|i: int| 0 <= i < ls.len() && #[trigger] ls[i] == "#EXT-X-ENDLIST"@) {
            Err(HlsError::LiveUnsupported)
        } else if find_sub(text, "{$"@) is Some {
            Err(HlsError::VariableSubstitution)
        } else {
            export_lines(url, ls, 0)
        },
    }
}

pub open spec fn string_result_view(r: Result<String, HlsError>) -> Result<Seq<char>, HlsError> {
    match r {
        Ok(s) => Ok(s@),
        Err(e) => Err(e),
    }
}

fn absolute_exec(base: &str, value: &str) -> (r: Result<String, HlsError>)
    ensures
        string_result_view(r) == absolute(base@, value@),
{
    match url_join(base, value) {
        None => Err(HlsError::InvalidUrl),
        Some(u) => if http_scheme(u.as_str()) {
            Ok(u)
        } else {
            Err(HlsError::NonHttpReference)
        },
    }
}

fn rewrite_uris_exec(base: &str, v: &Vec<char>, lo: usize, hi: usize, pat: &Vec<char>) -> (r: Result<
    String,
    HlsError,
>)
    requires
        lo <= hi <= v@.len(),
        pat@ == "URI=\""@,
    ensures
        string_result_view(r) == rewrite_uris(base@, v@.subrange(lo as int, hi as int)),
{
    let mut out = String::new();
    let mut rem = lo;
    while rem <= hi
        invariant
            lo <= rem <= hi <= v@.len(),
            pat@ == "URI=\""@,
            rewrite_uris(base@, v@.subrange(lo as int, hi as int)) == prepend(
                out@,
                rewrite_uris(base@, v@.subrange(rem as int, hi as int)),
            ),
        decreases hi - rem,
    {
        let ghost r = v@.subrange(rem as int, hi as int);
        match span_find_sub(v, rem, hi, pat) {
            None => {
                push_span(&mut out, v, rem, hi);
                return Ok(out);
            },
            Some(st) => {
                let vs = st + pat.len();
                assert(r.subrange(vs - rem, r.len() as int) == v@.subrange(vs as int, hi as int));
                match span_find(v, vs, hi, '"') {
                    None => {
                        return Err(HlsError::UnterminatedUri);
                    },
                    Some(end) => {
                        assert(r.subrange(vs - rem, end - rem) == v@.subrange(vs as int, end as int));
                        let value = string_of_span(v, vs, end);
                        match absolute_exec(base, value.as_str()) {
                            Err(e) => {
                                return Err(e);
                            },
                            Ok(u) => {
                                assert(r.subrange(0, vs - rem) == v@.subrange(rem as int, vs as int));
                                assert(r.subrange(end - rem + 1, r.len() as int) == v@.subrange(end + 1, hi as int));
                                let ghost before = out@;
                                let ghost piece = v@.subrange(rem as int, vs as int) + u@ + seq!['"'];
                                push_span(&mut out, v, rem, vs);
                                push_str(&mut out, u.as_str());
                                push_char(&mut out, '"');
                                assert(out@ == before + piece);
                                assert(forall|x: Seq<char>| before + piece + x == before + (piece + x));
                                rem = end + 1;
                            },
                        }
                    },
                }
            },
        }
    }
    Err(HlsError::UnterminatedUri)
}

/// Exports a media playlist without requesting any referenced media:
/// references become absolute HTTP(S) URLs so that the file works on its own.
pub fn export(p: &Playlist) -> (r: Result<String, HlsError>)
    ensures
        string_result_view(r) == spec_export(p.text@, p.url@, p.variants@.len()),
{
    let v = chars_of(p.text.as_str());
    if let Err(e) = validate_chars(&v) {
        return Err(e);
    }
    let ls = trimmed_line_spans(&v);
    let ghost tl = trimmed_lines(v@);
    let endlist = chars_of("#EXT-X-ENDLIST");
    let mut has_media = false;
    let mut has_end = false;
    let mut i: usize = 0;
    while i < ls.len()
        invariant
            i <= ls@.len(),
            spans_within(v@, ls@),
            span_views(v@, ls@) == tl,
            endlist@ == "#EXT-X-ENDLIST"@,
            has_media == exists|j: int| 0 <= j < i && #[trigger] is_media_line(tl[j]),
            has_end == exists|j: int| 0 <= j < i && #[trigger] tl[j] == "#EXT-X-ENDLIST"@,
        decreases ls@.len() - i,
    {
        let (a, b) = ls[i];
        assert(tl[i as int] == v@.subrange(a as int, b as int));
        if a < b && v[a] != '#' {
            assert(is_media_line(tl[i as int]));
            has_media = true;
        } else {
            assert(!is_media_line(tl[i as int]));
        }
        if span_eq(&v, a, b, &endlist) {
            has_end = true;
        }
        proof {
            if has_media {
                assert(exists|j: int| 0 <= j < i + 1 && #[trigger] is_media_line(tl[j]));
            } else {
                assert(!exists|j: int| 0 <= j < i + 1 && #[trigger] is_media_line(tl[j]));
            }
            if has_end {
                assert(exists|j: int| 0 <= j < i + 1 && #[trigger] tl[j] == "#EXT-X-ENDLIST"@);
            } else {
                assert(!exists|j: int| 0 <= j < i + 1 && #[trigger] tl[j] == "#EXT-X-ENDLIST"@);
            }
        }
        i = i + 1;
    }
    if !has_media {
        return Err(HlsError::NoMediaReferences);
    }
    if p.variants.len() != 0 {
        return Err(HlsError::NotMediaPlaylist);
    }
    if !has_end {
        return Err(HlsError::LiveUnsupported);
    }
    let subst = chars_of("{$");
    assert(v@.subrange(0, v@.len() as int) == v@);
    if span_find_sub(&v, 0, v.len(), &subst).is_some() {
        return Err(HlsError::VariableSubstitution);
    }
    let uri = chars_of("URI=\"");
    let ext = chars_of("#EXT");
    assert(spec_export(p.text@, p.url@, p.variants@.len()) == export_lines(p.url@, tl, 0));
    let mut out = String::new();
    let mut k: usize = 0;
    while k < ls.len()
        invariant
            k <= ls@.len(),
            spans_within(v@, ls@),
            span_views(v@, ls@) == tl,
            uri@ == "URI=\""@,
            ext@ == "#EXT"@,
            spec_export(p.text@, p.url@, p.variants@.len()) == export_lines(p.url@, tl, 0),
            export_lines(p.url@, tl, 0) == prepend(out@, export_lines(p.url@, tl, k as int)),
        decreases ls@.len() - k,
    {
        let (a, b) = ls[k];
        let ghost l = tl[k as int];
        assert(l == v@.subrange(a as int, b as int));
        let piece = if a < b && v[a] != '#' {
            let line = string_of_span(&v, a, b);
            absolute_exec(p.url.as_str(), line.as_str())
        } else if span_starts_with(&v, a, b, &ext) {
            rewrite_uris_exec(p.url.as_str(), &v, a, b, &uri)
        } else {
            Ok(string_of_span(&v, a, b))
        };
        match piece {
            Err(e) => {
                return Err(e);
            },
            Ok(x) => {
                let ghost before = out@;
                push_str(&mut out, x.as_str());
                push_char(&mut out, '\n');
                assert(out@ == before + (x@ + seq!['\n']));
                assert(forall|y: Seq<char>| before + (x@ + seq!['\n']) + y == before + ((x@ + seq!['\n']) + y));
            },
        }
        k = k + 1;
    }
    assert(out@ + seq![] == out@);
    Ok(out)
}

// ---------------------------------------------------------------------------
// The restricted local playlist that ffmpeg reads
// ---------------------------------------------------------------------------

pub open spec fn init_name(n: nat) -> Seq<char> {
    "init-"@ + decimal(n) + ".mp4"@
}

pub open spec fn segment_name(n: nat) -> Seq<char> {
    "segment-"@ + decimal(n) + ".ts"@
}

pub open spec fn map_line(n: nat) -> Seq<char> {
    "#EXT-X-MAP:URI=\""@ + init_name(n) + "\""@
}

/// Tags whose numeric value is kept, each with its colon.
pub open spec fn numeric_tags() -> Seq<Seq<char>> {
    seq![
        "#EXT-X-VERSION:"@,
        "#EXT-X-TARGETDURATION:"@,
        "#EXT-X-MEDIA-SEQUENCE:"@,
        "#EXT-X-DISCONTINUITY-SEQUENCE:"@,
    ]
}

/// Tags that are kept as they are.
pub open spec fn kept_tags() -> Seq<Seq<char>> {
    seq![
        "#EXT-X-ENDLIST"@,
        "#EXT-X-DISCONTINUITY"@,
        "#EXT-X-INDEPENDENT-SEGMENTS"@,
        "#EXT-X-PLAYLIST-TYPE:VOD"@,
    ]
}

/// A segment duration as printed: digits and points only.
pub open spec fn is_duration_text(d: Seq<char>) -> bool {
    d.len() > 0 && forall|i: int| 0 <= i < d.len() ==> is_digit(#[trigger] d[i]) || d[i] == '.'
}

/// The only lines that the local playlist may hold: no remote URI and no
/// tag outside a fixed list reaches the media tool.
pub open spec fn safe_local_line(l: Seq<char>) -> bool {
    ||| l == "#EXTM3U"@
    ||| exists|n: nat| l == map_line(n)
    ||| exists|n: nat| l == segment_name(n)
    ||| exists|d: Seq<char>| is_duration_text(d) && l == "#EXTINF:"@ + d + ","@
    ||| exists|k: int, n: nat| 0 <= k < 4 && l == numeric_tags()[k] + decimal(n)
    ||| exists|k: int| 0 <= k < 4 && l == kept_tags()[k]
}

/// Lines, each ended by a newline.
pub open spec fn join_lines(ls: Seq<Seq<char>>) -> Seq<char>
    decreases ls.len(),
{
    if ls.len() == 0 {
        seq![]
    } else {
        join_lines(ls.drop_last()) + ls.last() + seq!['\n']
    }
}

pub open spec fn opt_seq<T>(o: Option<T>) -> Seq<T> {
    match o {
        Some(x) => seq![x],
        None => seq![],
    }
}

/// The local playlist and the files it names, built line by line.
pub struct StagePlan {
    /// The local playlist text.
    pub local: String,
    /// (absolute URL, local file name) of every media file to fetch.
    pub files: Vec<(String, String)>,
    /// The lines of `local`.
    pub lines: Ghost<Seq<Seq<char>>>,
}

impl StagePlan {
    /// The local text is its lines, each line is safe, and the n-th file is
    /// named `init-n.mp4` or `segment-n.ts`.
    pub open spec fn wf(&self) -> bool {
        &&& self.local@ == join_lines(self.lines@)
        &&& forall|i: int| 0 <= i < self.lines@.len() ==> safe_local_line(#[trigger] self.lines@[i])
        &&& forall|k: int|
            0 <= k < self.files@.len() ==> (#[trigger] self.files@[k]).1@ == init_name(k as nat)
                || self.files@[k].1@ == segment_name(k as nat)
    }
}

/// What a line of the media playlist adds: a local line, a file to fetch,
/// and a segment duration still to be printed.
pub open spec fn spec_stage_line(n: nat, base: Seq<char>, l: Seq<char>) -> Result<
    (Option<Seq<char>>, Option<(Seq<char>, Seq<char>)>, Option<Seq<char>>),
    HlsError,
> {
    if l == "#EXTM3U"@ || starts_with(l, "#EXT-X-KEY:"@) {
        Ok((None, None, None))
    } else if starts_with(l, "#EXT-X-MAP:"@) {
        match spec_attributes(l.subrange("#EXT-X-MAP:"@.len() as int, l.len() as int)) {
            Err(e) => Err(e),
            Ok(a) => if lookup(a, "BYTERANGE"@) is Some {
                Err(HlsError::ByteRange)
            } else {
                match lookup(a, "URI"@) {
                    None => Err(HlsError::MapMissingUri),
                    Some(u) => match spec_url_join(base, u) {
                        None => Err(HlsError::InvalidUrl),
                        Some(url) => Ok((Some(map_line(n)), Some((url, init_name(n))), None)),
                    },
                }
            },
        }
    } else if is_media_line(l) {
        match spec_url_join(base, l) {
            None => Err(HlsError::InvalidUrl),
            Some(url) => Ok((Some(segment_name(n)), Some((url, segment_name(n))), None)),
        }
    } else if starts_with(l, "#EXTINF:"@) {
        Ok((None, None, Some(split(l.subrange("#EXTINF:"@.len() as int, l.len() as int), ',')[0])))
    } else if exists|k: int| 0 <= k < 4 && starts_with(l, #[trigger] numeric_tags()[k]) {
        let k = choose|k: int| 0 <= k < 4 && starts_with(l, #[trigger] numeric_tags()[k]);
        let t = numeric_tags()[k];
        match parse_uint(l.subrange(t.len() as int, l.len() as int), u64::MAX as nat) {
            None => Err(HlsError::InvalidNumber),
            Some(v) => Ok((Some(t + decimal(v)), None, None)),
        }
    } else if kept_tags().contains(l) {
        Ok((Some(l), None, None))
    } else if starts_with(l, "#EXT-X-PROGRAM-DATE-TIME:"@) || !starts_with(l, "#EXT"@) {
        Ok((None, None, None))
    } else {
        Err(HlsError::UnsupportedTag)
    }
}

/// What to do after a line.
#[derive(Debug)]
pub enum StageStep {
    Done,
    /// Print this duration value and hand it to `push_duration`.
    Duration(String),
}

pub open spec fn step_view(s: StageStep) -> Option<Seq<char>> {
    match s {
        StageStep::Done => None,
        StageStep::Duration(d) => Some(d@),
    }
}

/// Literal patterns of the staging rules.
struct StagePatterns {
    m3u: Vec<char>,
    key: Vec<char>,
    map: Vec<char>,
    inf: Vec<char>,
    numeric: Vec<Vec<char>>,
    kept: Vec<Vec<char>>,
    date: Vec<char>,
    ext: Vec<char>,
}

impl StagePatterns {
    spec fn wf(&self) -> bool {
        &&& self.m3u@ == "#EXTM3U"@
        &&& self.key@ == "#EXT-X-KEY:"@
        &&& self.map@ == "#EXT-X-MAP:"@
        &&& self.inf@ == "#EXTINF:"@
        &&& self.numeric@.len() == 4
        &&& forall|k: int| 0 <= k < 4 ==> (#[trigger] self.numeric@[k])@ == numeric_tags()[k]
        &&& self.kept@.len() == 4
        &&& forall|k: int| 0 <= k < 4 ==> (#[trigger] self.kept@[k])@ == kept_tags()[k]
        &&& self.date@ == "#EXT-X-PROGRAM-DATE-TIME:"@
        &&& self.ext@ == "#EXT"@
    }

    fn new() -> (p: StagePatterns)
        ensures
            p.wf(),
    {
        let mut numeric: Vec<Vec<char>> = Vec::new();
        numeric.push(chars_of("#EXT-X-VERSION:"));
        numeric.push(chars_of("#EXT-X-TARGETDURATION:"));
        numeric.push(chars_of("#EXT-X-MEDIA-SEQUENCE:"));
        numeric.push(chars_of("#EXT-X-DISCONTINUITY-SEQUENCE:"));
        let mut kept: Vec<Vec<char>> = Vec::new();
        kept.push(chars_of("#EXT-X-ENDLIST"));
        kept.push(chars_of("#EXT-X-DISCONTINUITY"));
        kept.push(chars_of("#EXT-X-INDEPENDENT-SEGMENTS"));
        kept.push(chars_of("#EXT-X-PLAYLIST-TYPE:VOD"));
        StagePatterns {
            m3u: chars_of("#EXTM3U"),
            key: chars_of("#EXT-X-KEY:"),
            map: chars_of("#EXT-X-MAP:"),
            inf: chars_of("#EXTINF:"),
            numeric,
            kept,
            date: chars_of("#EXT-X-PROGRAM-DATE-TIME:"),
            ext: chars_of("#EXT"),
        }
    }
}

/// Starts the local playlist of a complete, unencrypted media playlist.
pub open spec fn spec_stage_begin(text: Seq<char>) -> Result<(), HlsError> {
    let ls = trimmed_lines(text);
    match spec_validate(text) {
        Err(e) => Err(e),
        Ok(_) => if !(exists|i: int| 0 <= i < ls.len() && #[trigger] ls[i] == "#EXT-X-ENDLIST"@) {
            Err(HlsError::LiveUnsupported)
        } else {
            Ok(())
        },
    }
}

/// The trimmed lines of a playlist text, which `StagePlan::line` takes one by one.
pub fn playlist_lines(text: &str) -> (r: Vec<String>)
    ensures
        r@.len() == trimmed_lines(text@).len(),
        forall|i: int| 0 <= i < r@.len() ==> (#[trigger] r@[i])@ == trimmed_lines(text@)[i],
{
    let v = chars_of(text);
    let ls = trimmed_line_spans(&v);
    let mut r: Vec<String> = Vec::new();
    let mut i: usize = 0;
    while i < ls.len()
        invariant
            i <= ls@.len(),
            spans_within(v@, ls@),
            span_views(v@, ls@) == trimmed_lines(text@),
            r@.len() == i,
            forall|j: int| 0 <= j < i ==> (#[trigger] r@[j])@ == trimmed_lines(text@)[j],
        decreases ls@.len() - i,
    {
        let (a, b) = ls[i];
        assert(trimmed_lines(text@)[i as int] == v@.subrange(a as int, b as int));
        r.push(string_of_span(&v, a, b));
        i = i + 1;
    }
    r
}

/// Checks that a media playlist can be staged and starts its local playlist.
pub fn stage_begin(p: &Playlist) -> (r: Result<StagePlan, HlsError>)
    ensures
        match r {
            Ok(plan) => spec_stage_begin(p.text@) is Ok && plan.wf() && plan.lines@ == seq!["#EXTM3U"@]
                && plan.files@.len() == 0,
            Err(e) => spec_stage_begin(p.text@) == Err::<(), HlsError>(e),
        },
{
    let v = chars_of(p.text.as_str());
    if let Err(e) = validate_chars(&v) {
        return Err(e);
    }
    let ls = trimmed_line_spans(&v);
    let ghost tl = trimmed_lines(v@);
    let endlist = chars_of("#EXT-X-ENDLIST");
    let mut has_end = false;
    let mut i: usize = 0;
    while i < ls.len()
        invariant
            i <= ls@.len(),
            spans_within(v@, ls@),
            span_views(v@, ls@) == tl,
            endlist@ == "#EXT-X-ENDLIST"@,
            has_end == exists|j: int| 0 <= j < i && #[trigger] tl[j] == "#EXT-X-ENDLIST"@,
        decreases ls@.len() - i,
    {
        let (a, b) = ls[i];
        assert(tl[i as int] == v@.subrange(a as int, b as int));
        if span_eq(&v, a, b, &endlist) {
            has_end = true;
        }
        proof {
            if has_end {
                assert(exists|j: int| 0 <= j < i + 1 && #[trigger] tl[j] == "#EXT-X-ENDLIST"@);
            } else {
                assert(!exists|j: int| 0 <= j < i + 1 && #[trigger] tl[j] == "#EXT-X-ENDLIST"@);
            }
        }
        i = i + 1;
    }
    if !has_end {
        return Err(HlsError::LiveUnsupported);
    }
    let mut local = String::new();
    push_str(&mut local, "#EXTM3U");
    push_char(&mut local, '\n');
    let lines: Ghost<Seq<Seq<char>>> = Ghost(Seq::empty().push("#EXTM3U"@));
    let plan = StagePlan { local, files: Vec::new(), lines };
    proof {
        let ls = seq!["#EXTM3U"@];
        assert(plan.lines@ == ls);
        assert(ls.drop_last() == Seq::<Seq<char>>::empty());
        assert(join_lines(ls) == join_lines(ls.drop_last()) + ls.last() + seq!['\n']);
        assert(plan.local@ == join_lines(ls));
        assert(safe_local_line(ls[0]));
    }
    Ok(plan)
}

proof fn lemma_join_push(ls: Seq<Seq<char>>, l: Seq<char>)
    ensures
        join_lines(ls.push(l)) == join_lines(ls) + l + seq!['\n'],
{
    assert(ls.push(l).drop_last() == ls);
}

impl StagePlan {
    /// Adds a safe line.
    fn add_line(&mut self, l: &String)
        requires
            old(self).wf(),
            safe_local_line(l@),
        ensures
            final(self).wf(),
            final(self).lines@ == old(self).lines@.push(l@),
            final(self).files@ == old(self).files@,
    {
        proof {
            lemma_join_push(self.lines@, l@);
        }
        let ghost old_lines = self.lines@;
        push_str(&mut self.local, l.as_str());
        push_char(&mut self.local, '\n');
        let lines: Ghost<Seq<Seq<char>>> = Ghost(self.lines@.push(l@));
        self.lines = lines;
        assert(self.lines@ == old_lines.push(l@));
        assert(self.local@ == join_lines(old_lines) + l@ + seq!['\n']);
        assert forall|i: int| 0 <= i < self.lines@.len() implies safe_local_line(
            #[trigger] self.lines@[i],
        ) by {
            if i < old_lines.len() {
                assert(self.lines@[i] == old_lines[i]);
            }
        }
    }

    /// Applies one trimmed line of the media playlist whose URL is `base`.
    #[verifier::loop_isolation(false)]
    pub fn line(&mut self, base: &str, line: &str) -> (r: Result<StageStep, HlsError>)
        requires
            old(self).wf(),
        ensures
            final(self).wf(),
            match r {
                Ok(step) => spec_stage_line(old(self).files@.len(), base@, line@) matches Ok(
                    (o, f, d),
                ) && final(self).lines@ == old(self).lines@ + opt_seq(o) && pairs_view(
                    final(self).files@,
                ) == pairs_view(old(self).files@) + opt_seq(f) && step_view(step) == d,
                Err(e) => spec_stage_line(old(self).files@.len(), base@, line@) == Err::<
                    (Option<Seq<char>>, Option<(Seq<char>, Seq<char>)>, Option<Seq<char>>),
                    HlsError,
                >(e) && final(self).lines@ == old(self).lines@ && final(self).files@ == old(
                    self,
                ).files@,
            },
    {
        let pats = StagePatterns::new();
        let v = chars_of(line);
        let n = v.len();
        let ghost l = line@;
        assert(v@.subrange(0, n as int) == l);
        let ghost count = self.files@.len();
        let ghost before_files = pairs_view(self.files@);
        let ghost before_lines = self.lines@;
        if span_eq(&v, 0, n, &pats.m3u) || span_starts_with(&v, 0, n, &pats.key) {
            assert(self.lines@ + opt_seq::<Seq<char>>(None) == self.lines@);
            assert(pairs_view(self.files@) + opt_seq::<(Seq<char>, Seq<char>)>(None) == pairs_view(self.files@));
            return Ok(StageStep::Done);
        }
        if span_starts_with(&v, 0, n, &pats.map) {
            assert(l.subrange(pats.map@.len() as int, n as int) == v@.subrange(pats.map@.len() as int, n as int));
            let attrs = match attributes_span(&v, pats.map.len(), n) {
                Err(e) => {
                    return Err(e);
                },
                Ok(a) => a,
            };
            if get(&attrs, "BYTERANGE").is_some() {
                return Err(HlsError::ByteRange);
            }
            let uri = match get(&attrs, "URI") {
                None => {
                    return Err(HlsError::MapMissingUri);
                },
                Some(u) => u,
            };
            let url = match url_join(base, uri.as_str()) {
                None => {
                    return Err(HlsError::InvalidUrl);
                },
                Some(u) => u,
            };
            let k = self.files.len();
            let mut name = String::new();
            push_str(&mut name, "init-");
            push_padded(&mut name, k as u64, 0);
            push_str(&mut name, ".mp4");
            proof {
                crate::text::lemma_decimal_len(k as nat);
            }
            assert(name@ == init_name(k as nat));
            let mut out = String::new();
            push_str(&mut out, "#EXT-X-MAP:URI=\"");
            push_str(&mut out, name.as_str());
            push_str(&mut out, "\"");
            assert(out@ == map_line(k as nat));
            assert(safe_local_line(out@));
            self.add_line(&out);
            let ghost entry = (url@, name@);
            let ghost files_before = self.files@;
            self.files.push((url, name));
            assert(pairs_view(self.files@) == before_files.push(entry));
            assert(self.files@[k as int].1@ == init_name(k as nat));
            assert forall|j: int| 0 <= j < self.files@.len() implies (#[trigger] self.files@[j]).1@
                == init_name(j as nat) || self.files@[j].1@ == segment_name(j as nat) by {
                if j < k {
                    assert(self.files@[j] == files_before[j]);
                }
            }
            assert(before_lines + opt_seq(Some(map_line(k as nat))) == before_lines.push(map_line(k as nat)));
            assert(before_files + opt_seq(Some(entry)) == before_files.push(entry));
            return Ok(StageStep::Done);
        }
        if n > 0 && v[0] != '#' {
            assert(l[0] == v@[0]);
            let url = match url_join(base, line) {
                None => {
                    return Err(HlsError::InvalidUrl);
                },
                Some(u) => u,
            };
            let k = self.files.len();
            let mut name = String::new();
            push_str(&mut name, "segment-");
            push_padded(&mut name, k as u64, 0);
            push_str(&mut name, ".ts");
            proof {
                crate::text::lemma_decimal_len(k as nat);
            }
            assert(name@ == segment_name(k as nat));
            assert(safe_local_line(name@));
            self.add_line(&name);
            let ghost entry = (url@, name@);
            let ghost files_before = self.files@;
            self.files.push((url, name));
            assert(pairs_view(self.files@) == before_files.push(entry));
            assert(self.files@[k as int].1@ == segment_name(k as nat));
            assert forall|j: int| 0 <= j < self.files@.len() implies (#[trigger] self.files@[j]).1@
                == init_name(j as nat) || self.files@[j].1@ == segment_name(j as nat) by {
                if j < k {
                    assert(self.files@[j] == files_before[j]);
                }
            }
            assert(before_lines + opt_seq(Some(segment_name(k as nat))) == before_lines.push(segment_name(k as nat)));
            assert(before_files + opt_seq(Some(entry)) == before_files.push(entry));
            return Ok(StageStep::Done);
        }
        if n > 0 {
            assert(l[0] == v@[0]);
        }
        assert(!is_media_line(l));
        if span_starts_with(&v, 0, n, &pats.inf) {
            let parts = split_spans(&v, pats.inf.len(), n, ',');
            let (a, b) = parts[0];
            assert(l.subrange(pats.inf@.len() as int, n as int) == v@.subrange(pats.inf@.len() as int, n as int));
            assert(span_views(v@, parts@)[0] == v@.subrange(a as int, b as int));
            assert(self.lines@ + opt_seq::<Seq<char>>(None) == self.lines@);
            assert(pairs_view(self.files@) + opt_seq::<(Seq<char>, Seq<char>)>(None) == pairs_view(self.files@));
            return Ok(StageStep::Duration(string_of_span(&v, a, b)));
        }
        let mut k: usize = 0;
        while k < 4
            invariant
                k <= 4,
                pats.wf(),
                v@ == l,
                forall|j: int| 0 <= j < k ==> !starts_with(l, #[trigger] numeric_tags()[j]),
                self.wf(),
                self.lines@ == before_lines,
                self.files@ == old(self).files@,
            decreases 4 - k,
        {
            assert(pats.numeric@[k as int]@ == numeric_tags()[k as int]);
            if span_starts_with(&v, 0, n, &pats.numeric[k]) {
                assert(v@.subrange(0, n as int) == l);
                assert(starts_with(l, numeric_tags()[k as int]));
                let t = &pats.numeric[k];
                proof {
                    // every other tag differs from this one before its own colon
                    assert forall|j: int| 0 <= j < 4 && starts_with(l, #[trigger] numeric_tags()[j]) implies j == k by {
                        reveal_strlit("#EXT-X-VERSION:");
                        reveal_strlit("#EXT-X-TARGETDURATION:");
                        reveal_strlit("#EXT-X-MEDIA-SEQUENCE:");
                        reveal_strlit("#EXT-X-DISCONTINUITY-SEQUENCE:");
                        if j != k {
                            let a = numeric_tags()[j];
                            let b = numeric_tags()[k as int];
                            assert(l.subrange(0, a.len() as int) == a);
                            assert(l.subrange(0, b.len() as int) == b);
                            assert(a[8] != b[8] || a[9] != b[9] || a[10] != b[10] || a[11] != b[11] || a[12] != b[12]) by {
                                assert(a[8] == l[8] && b[8] == l[8]) by {
                                    assert(l.subrange(0, a.len() as int)[8] == l[8]);
                                    assert(l.subrange(0, b.len() as int)[8] == l[8]);
                                }
                            }
                            assert(l.subrange(0, a.len() as int)[8] == l[8]);
                            assert(l.subrange(0, b.len() as int)[8] == l[8]);
                            assert(l.subrange(0, a.len() as int)[9] == l[9]);
                            assert(l.subrange(0, b.len() as int)[9] == l[9]);
                            assert(l.subrange(0, a.len() as int)[10] == l[10]);
                            assert(l.subrange(0, b.len() as int)[10] == l[10]);
                            assert(l.subrange(0, a.len() as int)[11] == l[11]);
                            assert(l.subrange(0, b.len() as int)[11] == l[11]);
                            assert(l.subrange(0, a.len() as int)[12] == l[12]);
                            assert(l.subrange(0, b.len() as int)[12] == l[12]);
                        }
                    }
                }
                assert(l.subrange(t@.len() as int, n as int) == v@.subrange(t@.len() as int, n as int));
                match parse_uint_span(&v, t.len(), n, u64::MAX) {
                    None => {
                        return Err(HlsError::InvalidNumber);
                    },
                    Some(value) => {
                        let mut out = String::new();
                        push_chars(&mut out, t);
                        push_padded(&mut out, value, 0);
                        proof {
                            crate::text::lemma_decimal_len(value as nat);
                        }
                        assert(out@ == numeric_tags()[k as int] + decimal(value as nat));
                        assert(safe_local_line(out@));
                        self.add_line(&out);
                        assert(pairs_view(self.files@) + opt_seq::<(Seq<char>, Seq<char>)>(None) == pairs_view(self.files@));
                        assert(before_lines + opt_seq(Some(out@)) == before_lines.push(out@));
                        let ghost chosen = choose|j: int| 0 <= j < 4 && starts_with(l, #[trigger] numeric_tags()[j]);
                        assert(chosen == k);
                        return Ok(StageStep::Done);
                    },
                }
            }
            k = k + 1;
        }
        assert(!exists|j: int| 0 <= j < 4 && starts_with(l, #[trigger] numeric_tags()[j]));
        let mut k: usize = 0;
        while k < 4
            invariant
                k <= 4,
                pats.wf(),
                v@ == l,
                forall|j: int| 0 <= j < k ==> #[trigger] kept_tags()[j] != l,
                self.wf(),
                self.lines@ == before_lines,
                self.files@ == old(self).files@,
            decreases 4 - k,
        {
            assert(pats.kept@[k as int]@ == kept_tags()[k as int]);
            if span_eq(&v, 0, n, &pats.kept[k]) {
                assert(kept_tags()[k as int] == l);
                assert(kept_tags().contains(l));
                assert(safe_local_line(line@));
                let owned_line = owned(line);
                self.add_line(&owned_line);
                assert(before_lines + opt_seq(Some(l)) == before_lines.push(l));
                assert(pairs_view(self.files@) + opt_seq::<(Seq<char>, Seq<char>)>(None) == pairs_view(self.files@));
                return Ok(StageStep::Done);
            }
            k = k + 1;
        }
        assert(!kept_tags().contains(l));
        if span_starts_with(&v, 0, n, &pats.date) || !span_starts_with(&v, 0, n, &pats.ext) {
            assert(self.lines@ + opt_seq::<Seq<char>>(None) == self.lines@);
            assert(pairs_view(self.files@) + opt_seq::<(Seq<char>, Seq<char>)>(None) == pairs_view(self.files@));
            return Ok(StageStep::Done);
        }
        Err(HlsError::UnsupportedTag)
    }

    /// Adds the `#EXTINF` line of a printed segment duration.
    #[verifier::loop_isolation(false)]
    pub fn push_duration(&mut self, duration: &str) -> (r: Result<(), HlsError>)
        requires
            old(self).wf(),
        ensures
            final(self).wf(),
            final(self).files@ == old(self).files@,
            match r {
                Ok(_) => is_duration_text(duration@) && final(self).lines@ == old(self).lines@.push(
                    "#EXTINF:"@ + duration@ + ","@,
                ),
                Err(e) => !is_duration_text(duration@) && e == HlsError::InvalidDuration
                    && final(self).lines@ == old(self).lines@,
            },
    {
        let d = chars_of(duration);
        if d.len() == 0 {
            return Err(HlsError::InvalidDuration);
        }
        let mut i: usize = 0;
        while i < d.len()
            invariant
                i <= d@.len(),
                d@ == duration@,
                forall|j: int| 0 <= j < i ==> is_digit(#[trigger] d@[j]) || d@[j] == '.',
            decreases d@.len() - i,
        {
            let c = d[i];
            if !(('0' <= c && c <= '9') || c == '.') {
                assert(!(is_digit(d@[i as int]) || d@[i as int] == '.'));
                return Err(HlsError::InvalidDuration);
            }
            i = i + 1;
        }
        let mut out = String::new();
        push_str(&mut out, "#EXTINF:");
        push_str(&mut out, duration);
        push_str(&mut out, ",");
        assert(is_duration_text(duration@));
        assert(out@ == "#EXTINF:"@ + duration@ + ","@);
        assert(safe_local_line(out@));
        self.add_line(&out);
        Ok(())
    }

    /// The staged playlist must name at least one media file.
    pub fn finish(&self) -> (r: Result<(), HlsError>)
        ensures
            r is Ok <==> self.files@.len() > 0,
            r matches Err(e) ==> e == HlsError::NoMedia,
    {
        if self.files.len() == 0 {
            Err(HlsError::NoMedia)
        } else {
            Ok(())
        }
    }
}

/// The tag of an unsupported line: the text before its first colon.
pub fn tag_name(line: &str) -> (r: String)
    ensures
        r@ == split(line@, ':')[0],
{
    let v = chars_of(line);
    let parts = split_spans(&v, 0, v.len(), ':');
    assert(v@.subrange(0, v@.len() as int) == v@);
    let (a, b) = parts[0];
    assert(span_views(v@, parts@)[0] == v@.subrange(a as int, b as int));
    string_of_span(&v, a, b)
}


// ---------------------------------------------------------------------------
// Laws
// ---------------------------------------------------------------------------

/// A line that declares neither a key (other than `METHOD=NONE` without URI or
/// key format) nor content protection.
pub open spec fn unprotected_line(l: Seq<char>) -> bool {
    &&& !starts_with(l, "#EXT-X-CONTENT-PROTECTION"@)
    &&& is_key_line(l) ==> (spec_attributes(after_colon(l)) matches Ok(a) && key_allowed(a))
}

proof fn lemma_check_lines_ok(ls: Seq<Seq<char>>, i: int)
    requires
        0 <= i,
        check_lines(ls, i) is Ok,
    ensures
        forall|j: int| i <= j < ls.len() ==> unprotected_line(#[trigger] ls[j]),
    decreases ls.len() - i,
{
    if i < ls.len() {
        lemma_check_lines_ok(ls, i + 1);
    }
}

/// Every playlist that `validate` accepts is plain: no line of it declares an
/// encryption key, a session key, a key format or content protection.
pub proof fn lemma_accepted_playlist_is_unprotected(text: Seq<char>)
    requires
        spec_validate(text) is Ok,
    ensures
        starts_with(trim_start(text), "#EXTM3U"@),
        forall|i: int|
            0 <= i < trimmed_lines(text).len() ==> unprotected_line(#[trigger] trimmed_lines(text)[i]),
{
    lemma_check_lines_ok(trimmed_lines(text), 0);
}

proof fn lemma_export_lines_ok(base: Seq<char>, ls: Seq<Seq<char>>, i: int)
    requires
        0 <= i,
        export_lines(base, ls, i) is Ok,
    ensures
        forall|j: int| i <= j < ls.len() ==> (export_line(base, #[trigger] ls[j]) is Ok),
    decreases ls.len() - i,
{
    if i < ls.len() {
        lemma_export_lines_ok(base, ls, i + 1);
    }
}

/// An exported playlist is plain, complete and a media playlist, and each of
/// its media references becomes an absolute HTTP(S) URL.
pub proof fn lemma_export_is_plain_and_absolute(text: Seq<char>, url: Seq<char>, variant_count: nat)
    requires
        spec_export(text, url, variant_count) is Ok,
    ensures
        variant_count == 0,
        exists|i: int|
            0 <= i < trimmed_lines(text).len() && #[trigger] trimmed_lines(text)[i] == "#EXT-X-ENDLIST"@,
        forall|i: int|
            0 <= i < trimmed_lines(text).len() ==> unprotected_line(#[trigger] trimmed_lines(text)[i]),
        forall|i: int|
            0 <= i < trimmed_lines(text).len() && is_media_line(#[trigger] trimmed_lines(text)[i])
                ==> (absolute(url, trimmed_lines(text)[i]) matches Ok(u) && is_http(spec_url_scheme(u))),
{
    lemma_accepted_playlist_is_unprotected(text);
    let ls = trimmed_lines(text);
    lemma_export_lines_ok(url, ls, 0);
    assert forall|i: int| 0 <= i < ls.len() && is_media_line(#[trigger] ls[i]) implies (absolute(
        url,
        ls[i],
    ) matches Ok(u) && is_http(spec_url_scheme(u))) by {
        assert(export_line(url, ls[i]) is Ok);
    }
}


proof fn lemma_not_prefix(l: Seq<char>, p: Seq<char>, k: int)
    requires
        0 <= k < p.len(),
        k < l.len() ==> l[k] != p[k],
    ensures
        !starts_with(l, p),
{
    if starts_with(l, p) {
        assert(l.subrange(0, p.len() as int)[k] == l[k]);
    }
}

/// The structural tags `#EXT-X-ENDLIST`, `#EXT-X-DISCONTINUITY`,
/// `#EXT-X-INDEPENDENT-SEGMENTS` and `#EXT-X-PLAYLIST-TYPE:VOD` are staged as
/// they are: each adds exactly its own line to the local playlist, and no file.
pub proof fn lemma_structural_tags_are_kept(n: nat, base: Seq<char>, l: Seq<char>)
    requires
        l == "#EXT-X-PLAYLIST-TYPE:VOD"@ || l == "#EXT-X-ENDLIST"@ || l == "#EXT-X-DISCONTINUITY"@
            || l == "#EXT-X-INDEPENDENT-SEGMENTS"@,
    ensures
        spec_stage_line(n, base, l) == Ok::<
            (Option<Seq<char>>, Option<(Seq<char>, Seq<char>)>, Option<Seq<char>>),
            HlsError,
        >((Some(l), None, None)),
{
    reveal_strlit("#EXT-X-ENDLIST");
    reveal_strlit("#EXT-X-DISCONTINUITY");
    reveal_strlit("#EXT-X-INDEPENDENT-SEGMENTS");
    reveal_strlit("#EXT-X-PLAYLIST-TYPE:VOD");
    reveal_strlit("#EXTM3U");
    reveal_strlit("#EXT-X-KEY:");
    reveal_strlit("#EXT-X-MAP:");
    reveal_strlit("#EXTINF:");
    reveal_strlit("#EXT-X-VERSION:");
    reveal_strlit("#EXT-X-TARGETDURATION:");
    reveal_strlit("#EXT-X-MEDIA-SEQUENCE:");
    reveal_strlit("#EXT-X-DISCONTINUITY-SEQUENCE:");
    assert(l.len() >= 14);
    assert(l[0] == '#' && l[4] == '-');
    assert(l[7] == 'E' || l[7] == 'D' || l[7] == 'I' || l[7] == 'P');
    assert(l != "#EXTM3U"@);
    lemma_not_prefix(l, "#EXT-X-KEY:"@, 7);
    lemma_not_prefix(l, "#EXT-X-MAP:"@, 7);
    assert(!is_media_line(l));
    lemma_not_prefix(l, "#EXTINF:"@, 4);
    lemma_not_prefix(l, numeric_tags()[0], 7);
    lemma_not_prefix(l, numeric_tags()[1], 7);
    lemma_not_prefix(l, numeric_tags()[2], 7);
    if l == "#EXT-X-DISCONTINUITY"@ {
        assert(numeric_tags()[3].len() > l.len());
    } else {
        lemma_not_prefix(l, numeric_tags()[3], 7);
    }
    assert(!exists|k: int| 0 <= k < 4 && starts_with(l, #[trigger] numeric_tags()[k]));
    if l == "#EXT-X-ENDLIST"@ {
        assert(kept_tags()[0] == l);
    } else if l == "#EXT-X-DISCONTINUITY"@ {
        assert(kept_tags()[1] == l);
    } else if l == "#EXT-X-INDEPENDENT-SEGMENTS"@ {
        assert(kept_tags()[2] == l);
    } else {
        assert(kept_tags()[3] == l);
    }
    assert(kept_tags().contains(l));
}

} // verus!
