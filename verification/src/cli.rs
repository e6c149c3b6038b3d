//! Command-line options and the episode list syntax.
use vstd::prelude::*;
use crate::text::{
    decimal, join_char, lemma_decimal_digits, lemma_parse_decimal, lemma_split_join,
    chars_of, owned, parse_uint, parse_uint_span, span_eq, span_views, spans_within, split,
    split_spans, trim, trim_span, lemma_split_from_nonempty,
};

verus! {

/// Options that every command shares.
pub struct Cli {
    pub debug: bool,
    /// Disable the interactive terminal UI (also automatic for pipes and --debug).
    pub plain: bool,
    pub api_url: String,
    pub graphql_url: String,
    pub retries: u32,
    /// Maximum HTTP requests per second sent to source/media servers.
    pub rate_limit: u32,
    pub command: Option<Command>,
}

/// Audio/subtitle track language.
#[derive(Clone, Copy, Debug, PartialEq, Eq, Structural)]
pub enum Language {
    Sub,
    Dub,
}

impl Language {
    pub open spec fn spec_name(self) -> Seq<char> {
        match self {
            Language::Sub => "sub"@,
            Language::Dub => "dub"@,
        }
    }

    /// The lower-case name used in requests, folder names and manifests.
    pub fn name(&self) -> (r: String)
        ensures
            r@ == self.spec_name(),
    {
        match self {
            Language::Sub => owned("sub"),
            Language::Dub => owned("dub"),
        }
    }

    /// The same text as `name`.
    pub fn to_string(&self) -> (r: String)
        ensures
            r@ == self.spec_name(),
    {
        self.name()
    }
}

/// What identifies the media of one anime to resolve.
pub struct SourceArgs {
    pub anime_id: String,
    /// Save the selected HLS playlist and subtitles, without video segments.
    pub playlist_only: bool,
    /// Use a saved resolver response instead of the source API (one episode only).
    pub source_json: Option<String>,
    pub language: Language,
    pub provider: String,
    pub quality: String,
    /// Human-readable title used for the parent download folder; falls back to anime_id when unset.
    pub display_name: Option<String>,
}

pub fn copy_opt(o: &Option<String>) -> (r: Option<String>)
    ensures
        r == *o,
{
    match o {
        Some(s) => Some(s.clone()),
        None => None,
    }
}

impl SourceArgs {
    /// A copy with the same fields.
    pub fn duplicate(&self) -> (r: SourceArgs)
        ensures
            r == *self,
    {
        SourceArgs {
            anime_id: self.anime_id.clone(),
            playlist_only: self.playlist_only,
            source_json: copy_opt(&self.source_json),
            language: self.language,
            provider: self.provider.clone(),
            quality: self.quality.clone(),
            display_name: copy_opt(&self.display_name),
        }
    }
}

pub enum Command {
    Search { query: String, limit: u32, include_adult: bool },
    Inspect { source: SourceArgs, episode: u32 },
    Download {
        source: SourceArgs,
        episodes: String,
        output: String,
        concurrency: u32,
        ffmpeg: String,
    },
}

// ---------------------------------------------------------------------------
// Quality
// ---------------------------------------------------------------------------

/// `str::trim_end_matches('p')`.
pub open spec fn trim_end_p(s: Seq<char>) -> Seq<char>
    decreases s.len(),
{
    if s.len() > 0 && s.last() == 'p' {
        trim_end_p(s.drop_last())
    } else {
        s
    }
}

/// `best`, or a positive number followed by any number of `p`.
pub open spec fn quality_ok(s: Seq<char>) -> bool {
    s == "best"@ || (parse_uint(trim_end_p(s), u32::MAX as nat) matches Some(n) && n > 0)
}

pub open spec fn quality_error() -> Seq<char> {
    "expected best or a resolution such as 720p"@
}

proof fn lemma_trim_end_p_at(s: Seq<char>, k: int)
    requires
        0 <= k <= s.len(),
        forall|j: int| k <= j < s.len() ==> #[trigger] s[j] == 'p',
        k == 0 || s[k - 1] != 'p',
    ensures
        trim_end_p(s) == s.subrange(0, k),
    decreases s.len() - k,
{
    if k == s.len() {
        assert(s.subrange(0, k) == s);
    } else {
        let t = s.drop_last();
        assert forall|j: int| k <= j < t.len() implies #[trigger] t[j] == 'p' by {
            assert(t[j] == s[j]);
        }
        if k > 0 {
            assert(t[k - 1] == s[k - 1]);
        }
        lemma_trim_end_p_at(t, k);
        assert(t.subrange(0, k) == s.subrange(0, k));
    }
}

/// End of `trim_end_p(v[lo..hi])` inside `v`.
pub fn trim_end_p_span(v: &Vec<char>, lo: usize, hi: usize) -> (e: usize)
    requires
        lo <= hi <= v@.len(),
    ensures
        lo <= e <= hi,
        v@.subrange(lo as int, e as int) == trim_end_p(v@.subrange(lo as int, hi as int)),
{
    let ghost s = v@.subrange(lo as int, hi as int);
    let mut e = hi;
    while e > lo && v[e - 1] == 'p'
        invariant
            lo <= e <= hi <= v@.len(),
            forall|j: int| e <= j < hi ==> #[trigger] v@[j] == 'p',
        decreases e - lo,
    {
        e = e - 1;
    }
    proof {
        assert forall|j: int| e - lo <= j < s.len() implies #[trigger] s[j] == 'p' by {
            assert(s[j] == v@[lo + j]);
        }
        if e > lo {
            assert(s[e - lo - 1] == v@[e - 1]);
        }
        lemma_trim_end_p_at(s, e - lo);
        assert(s.subrange(0, e - lo) == v@.subrange(lo as int, e as int));
    }
    e
}

/// Checks a `--quality` value: `best` or a resolution such as `720p`.
pub fn quality(s: &str) -> (r: Result<String, String>)
    ensures
        match r {
            Ok(q) => quality_ok(s@) && q@ == s@,
            Err(e) => !quality_ok(s@) && e@ == quality_error(),
        },
{
    let v = chars_of(s);
    let best = chars_of("best");
    assert(v@.subrange(0, v@.len() as int) == v@);
    if span_eq(&v, 0, v.len(), &best) {
        return Ok(owned(s));
    }
    let e = trim_end_p_span(&v, 0, v.len());
    match parse_uint_span(&v, 0, e, u32::MAX as u64) {
        Some(n) if n > 0 => Ok(owned(s)),
        _ => Err(owned("expected best or a resolution such as 720p")),
    }
}

// ---------------------------------------------------------------------------
// Episode lists
// ---------------------------------------------------------------------------

pub open spec fn invalid_episode() -> Seq<char> {
    "invalid episode"@
}

pub open spec fn invalid_range() -> Seq<char> {
    "invalid range"@
}

pub open spec fn unbounded_range() -> Seq<char> {
    "episodes must be positive, ascending, and bounded to 10000 per range"@
}

pub open spec fn too_many_episodes() -> Seq<char> {
    "maximum 10000 episodes per invocation"@
}

/// The first and last episode of one comma-separated part, `N` or `N-M`.
pub open spec fn part_bounds(p: Seq<char>) -> Result<(u32, u32), Seq<char>> {
    let bounds = split(trim(p), '-');
    match parse_uint(bounds[0], u32::MAX as nat) {
        None => Err(invalid_episode()),
        Some(start) => {
            let end: Result<nat, Seq<char>> = if bounds.len() == 1 {
                Ok(start)
            } else if bounds.len() == 2 {
                match parse_uint(bounds[1], u32::MAX as nat) {
                    Some(e) => Ok(e),
                    None => Err(invalid_range()),
                }
            } else {
                Err(invalid_range())
            };
            match end {
                Err(e) => Err(e),
                Ok(end) => if start == 0 || end < start || end - start > 10000 {
                    Err(unbounded_range())
                } else {
                    Ok((start as u32, end as u32))
                },
            }
        },
    }
}

pub open spec fn range_set(a: u32, b: u32) -> Set<u32> {
    Set::new(|x: u32| a <= x <= b)
}

/// Adds the parts from `i` on to the episodes in `acc`, stopping at the first error.
pub open spec fn episodes_from(parts: Seq<Seq<char>>, i: int, acc: Set<u32>) -> Result<
    Set<u32>,
    Seq<char>,
>
    decreases parts.len() - i,
{
    if i < 0 || i >= parts.len() {
        Ok(acc)
    } else {
        match part_bounds(parts[i]) {
            Err(e) => Err(e),
            Ok((a, b)) => {
                let next = acc.union(range_set(a, b));
                if next.len() > 10000 {
                    Err(too_many_episodes())
                } else {
                    episodes_from(parts, i + 1, next)
                }
            },
        }
    }
}

/// The episodes that a list such as `1,3,5-10` names, or the message of its first error.
pub open spec fn spec_episodes(s: Seq<char>) -> Result<Set<u32>, Seq<char>> {
    episodes_from(split(s, ','), 0, Set::empty())
}

pub open spec fn increasing(s: Seq<u32>) -> bool {
    forall|i: int, j: int| 0 <= i < j < s.len() ==> s[i] < s[j]
}

/// The sorted union of `out` and `a..=b`.
fn insert_range(out: &Vec<u32>, a: u32, b: u32) -> (r: Vec<u32>)
    requires
        increasing(out@),
        a <= b,
    ensures
        increasing(r@),
        r@.to_set() == out@.to_set().union(range_set(a, b)),
{
    let n = out.len();
    let mut r: Vec<u32> = Vec::new();
    let mut i: usize = 0;
    while i < n && out[i] < a
        invariant
            n == out@.len(),
            i <= n,
            increasing(out@),
            r@ == out@.subrange(0, i as int),
            forall|k: int| 0 <= k < i ==> out@[k] < a,
        decreases n - i,
    {
        r.push(out[i]);
        assert(r@ == out@.subrange(0, i + 1));
        i = i + 1;
    }
    let mut x: u64 = a as u64;
    while x <= b as u64
        invariant
            n == out@.len(),
            i <= n,
            increasing(out@),
            a <= x <= b + 1,
            forall|k: int| 0 <= k < i ==> out@[k] < a,
            i < n ==> out@[i as int] >= a,
            r@.len() == i + (x - a),
            forall|k: int| 0 <= k < i ==> r@[k] == out@[k],
            forall|k: int| i <= k < r@.len() ==> r@[k] == a + (k - i),
            forall|k: int| 0 <= k < r@.len() ==> r@[k] < x,
            increasing(r@),
        decreases b + 1 - x,
    {
        let ghost before = r@;
        r.push(x as u32);
        assert(forall|k: int| 0 <= k < before.len() ==> r@[k] == before[k]);
        x = x + 1;
    }
    let m = r.len();
    assert(m == i + (b - a) + 1);
    let mut j = i;
    while j < n && out[j] <= b
        invariant
            n == out@.len(),
            i <= j <= n,
            forall|k: int| i <= k < j ==> out@[k] <= b,
            r@.len() == m,
            m == i + (b - a) + 1,
            a <= b,
            forall|k: int| 0 <= k < i ==> r@[k] == out@[k],
            forall|k: int| i <= k < m ==> r@[k] == a + (k - i),
            forall|k: int| 0 <= k < i ==> out@[k] < a,
            increasing(r@),
            increasing(out@),
        decreases n - j,
    {
        j = j + 1;
    }
    let mut t = j;
    while t < n
        invariant
            n == out@.len(),
            i <= j <= t <= n,
            increasing(out@),
            j < n ==> out@[j as int] > b,
            m == i + (b - a) + 1,
            a <= b,
            r@.len() == m + (t - j),
            forall|k: int| 0 <= k < i ==> r@[k] == out@[k],
            forall|k: int| i <= k < m ==> r@[k] == a + (k - i),
            forall|k: int| m <= k < r@.len() ==> r@[k] == out@[j + (k - m)],
            forall|k: int| 0 <= k < i ==> out@[k] < a,
            increasing(r@),
        decreases n - t,
    {
        proof {
            if t > j {
                assert(out@[t - 1] < out@[t as int]);
            } else {
                assert(out@[j as int] > b);
            }
        }
        let ghost before = r@;
        r.push(out[t]);
        assert(forall|k: int| 0 <= k < before.len() ==> r@[k] == before[k]);
        t = t + 1;
    }
    proof {
        assert forall|y: u32| #[trigger] r@.to_set().contains(y) == out@.to_set().union(
            range_set(a, b),
        ).contains(y) by {
            if r@.contains(y) {
                let k = choose|k: int| 0 <= k < r@.len() && r@[k] == y;
                if k < i {
                    assert(out@[k] == y);
                    assert(out@.contains(y));
                } else if k < m {
                    assert(range_set(a, b).contains(y));
                } else {
                    assert(out@[j + (k - m)] == y);
                    assert(out@.contains(y));
                }
            }
            if out@.contains(y) {
                let k = choose|k: int| 0 <= k < out@.len() && out@[k] == y;
                if k < i {
                    assert(r@[k] == y);
                } else if k < j {
                    if k > i {
                        assert(out@[i as int] < out@[k]);
                    }
                    assert(r@[i + (y - a)] == y);
                } else {
                    assert(r@[m + (k - j)] == y);
                }
            }
            if range_set(a, b).contains(y) {
                assert(r@[i + (y - a)] == y);
            }
        }
        assert(r@.to_set() =~= out@.to_set().union(range_set(a, b)));
    }
    r
}

/// A strictly increasing sequence has as many elements as its set.
pub proof fn lemma_increasing_len(s: Seq<u32>)
    requires
        increasing(s),
    ensures
        s.to_set().len() == s.len(),
        s.to_set().finite(),
{
    assert(s.no_duplicates());
    s.unique_seq_to_set();
    vstd::seq_lib::seq_to_set_is_finite(s);
}

/// The bounds of one part, in the way that `part_bounds` reads it.
fn part_bounds_exec(v: &Vec<char>, lo: usize, hi: usize) -> (r: Result<(u32, u32), String>)
    requires
        lo <= hi <= v@.len(),
    ensures
        match r {
            Ok(p) => part_bounds(v@.subrange(lo as int, hi as int)) == Ok::<(u32, u32), Seq<char>>(p),
            Err(e) => part_bounds(v@.subrange(lo as int, hi as int)) == Err::<(u32, u32), Seq<char>>(e@),
        },
{
    let (a, b) = trim_span(v, lo, hi);
    let bounds = split_spans(v, a, b, '-');
    let ghost views = split(trim(v@.subrange(lo as int, hi as int)), '-');
    assert(span_views(v@, bounds@) == views);
    let (s0, e0) = bounds[0];
    assert(views[0] == v@.subrange(s0 as int, e0 as int));
    let start = match parse_uint_span(v, s0, e0, u32::MAX as u64) {
        None => {
            return Err(owned("invalid episode"));
        },
        Some(x) => x,
    };
    let end = if bounds.len() == 1 {
        start
    } else if bounds.len() == 2 {
        let (s1, e1) = bounds[1];
        assert(views[1] == v@.subrange(s1 as int, e1 as int));
        match parse_uint_span(v, s1, e1, u32::MAX as u64) {
            None => {
                return Err(owned("invalid range"));
            },
            Some(x) => x,
        }
    } else {
        return Err(owned("invalid range"));
    };
    if start == 0 || end < start || end - start > 10000 {
        return Err(owned("episodes must be positive, ascending, and bounded to 10000 per range"));
    }
    Ok((start as u32, end as u32))
}

/// Parses an episode list such as `1,3,5-10`: ascending, without repeats.
pub fn episodes(s: &str) -> (r: Result<Vec<u32>, String>)
    ensures
        match r {
            Ok(v) => spec_episodes(s@) == Ok::<Set<u32>, Seq<char>>(v@.to_set()) && increasing(v@),
            Err(e) => spec_episodes(s@) == Err::<Set<u32>, Seq<char>>(e@),
        },
        r matches Ok(v) ==> 1 <= v@.len() <= 10000 && forall|i: int|
            0 <= i < v@.len() ==> #[trigger] v@[i] >= 1,
{
    let v = chars_of(s);
    let parts = split_spans(&v, 0, v.len(), ',');
    let ghost ps = split(s@, ',');
    assert(v@.subrange(0, v@.len() as int) == v@);
    assert(span_views(v@, parts@) == ps);
    let mut out: Vec<u32> = Vec::new();
    let mut k: usize = 0;
    proof {
        assert(out@.to_set() =~= Set::<u32>::empty());
    }
    while k < parts.len()
        invariant
            k <= parts@.len(),
            spans_within(v@, parts@),
            span_views(v@, parts@) == ps,
            ps == split(s@, ','),
            increasing(out@),
            out@.len() <= 10000,
            forall|i: int| 0 <= i < out@.len() ==> #[trigger] out@[i] >= 1,
            k > 0 ==> out@.len() >= 1,
            episodes_from(ps, k as int, out@.to_set()) == spec_episodes(s@),
        decreases parts@.len() - k,
    {
        let (lo, hi) = parts[k];
        assert(ps[k as int] == v@.subrange(lo as int, hi as int));
        let (a, b) = match part_bounds_exec(&v, lo, hi) {
            Err(e) => {
                return Err(e);
            },
            Ok(p) => p,
        };
        let next = insert_range(&out, a, b);
        proof {
            lemma_increasing_len(next@);
            assert(next@.to_set().contains(a));
            assert forall|i: int| 0 <= i < next@.len() implies #[trigger] next@[i] >= 1 by {
                assert(next@.to_set().contains(next@[i]));
                if !range_set(a, b).contains(next@[i]) {
                    assert(out@.to_set().contains(next@[i]));
                    let j = choose|j: int| 0 <= j < out@.len() && out@[j] == next@[i];
                    assert(out@[j] >= 1);
                }
            }
            if next@.len() == 0 {
                assert(next@.to_set().len() == 0);
            }
        }
        if next.len() > 10000 {
            return Err(owned("maximum 10000 episodes per invocation"));
        }
        out = next;
        k = k + 1;
    }
    proof {
        lemma_split_from_nonempty(s@, ',', 0, 0);
    }
    Ok(out)
}


// ---------------------------------------------------------------------------
// Laws
// ---------------------------------------------------------------------------

/// An episode list written back as text: the numbers in decimal, joined with commas.
pub open spec fn episode_text(v: Seq<u32>) -> Seq<char> {
    join_char(v.map_values(|n: u32| decimal(n as nat)), ',')
}

proof fn lemma_part_bounds_decimal(n: u32)
    requires
        n >= 1,
    ensures
        part_bounds(decimal(n as nat)) == Ok::<(u32, u32), Seq<char>>((n, n)),
{
    let d = decimal(n as nat);
    lemma_parse_decimal(n as nat, u32::MAX as nat);
    lemma_decimal_digits(n as nat);
    assert(!d.contains('-')) by {
        if d.contains('-') {
            let j = choose|j: int| 0 <= j < d.len() && d[j] == '-';
            assert(d[j] != '-');
        }
    }
    lemma_split_join(seq![d], '-');
    assert(join_char(seq![d], '-') == d);
}

proof fn lemma_increasing_take(v: Seq<u32>, k: int)
    requires
        increasing(v),
        0 <= k <= v.len(),
    ensures
        increasing(v.take(k)),
{
}

proof fn lemma_episodes_from_list(v: Seq<u32>, k: int)
    requires
        increasing(v),
        v.len() <= 10000,
        forall|i: int| 0 <= i < v.len() ==> #[trigger] v[i] >= 1,
        0 <= k <= v.len(),
    ensures
        episodes_from(v.map_values(|n: u32| decimal(n as nat)), k, v.take(k).to_set()) == Ok::<
            Set<u32>,
            Seq<char>,
        >(v.to_set()),
    decreases v.len() - k,
{
    let ds = v.map_values(|n: u32| decimal(n as nat));
    if k == v.len() {
        assert(v.take(k) == v);
    } else {
        assert(ds[k] == decimal(v[k] as nat));
        lemma_part_bounds_decimal(v[k]);
        let t0 = v.take(k);
        let t1 = v.take(k + 1);
        let next = t0.to_set().union(range_set(v[k], v[k]));
        assert(next =~= t1.to_set()) by {
            assert forall|x: u32| next.contains(x) <==> t1.to_set().contains(x) by {
                if next.contains(x) {
                    if x == v[k] {
                        assert(t1[k] == x);
                    } else {
                        let j = choose|j: int| 0 <= j < t0.len() && #[trigger] t0[j] == x;
                        assert(t1[j] == x);
                    }
                }
                if t1.to_set().contains(x) {
                    let j = choose|j: int| 0 <= j < t1.len() && #[trigger] t1[j] == x;
                    if j < k {
                        assert(t0[j] == x);
                    }
                }
            }
        }
        lemma_increasing_take(v, k + 1);
        lemma_increasing_len(v.take(k + 1));
        lemma_episodes_from_list(v, k + 1);
    }
}

proof fn lemma_increasing_same_prefix(v: Seq<u32>, w: Seq<u32>, i: int)
    requires
        increasing(v),
        increasing(w),
        v.len() == w.len(),
        v.to_set() == w.to_set(),
        0 <= i < v.len(),
    ensures
        forall|j: int| 0 <= j <= i ==> v[j] == w[j],
    decreases i,
{
    if i > 0 {
        lemma_increasing_same_prefix(v, w, i - 1);
    }
    assert(w.to_set().contains(w[i]));
    assert(v.to_set().contains(v[i]));
    let a = choose|j: int| 0 <= j < v.len() && v[j] == w[i];
    let b = choose|j: int| 0 <= j < w.len() && w[j] == v[i];
    if v[i] != w[i] {
        if a < i {
            assert(w[a] == v[a]);
        }
        if b < i {
            assert(w[b] == v[b]);
        }
    }
}

/// A parsed episode list written back as text parses to the same list: the
/// text names the same episodes, and the list is the only ascending one of
/// them, so `episodes` returns it again.
pub proof fn lemma_episodes_round_trip(v: Seq<u32>)
    requires
        increasing(v),
        1 <= v.len() <= 10000,
        forall|i: int| 0 <= i < v.len() ==> #[trigger] v[i] >= 1,
    ensures
        spec_episodes(episode_text(v)) == Ok::<Set<u32>, Seq<char>>(v.to_set()),
        forall|w: Seq<u32>| increasing(w) && w.to_set() == v.to_set() ==> w == v,
{
    let ds = v.map_values(|n: u32| decimal(n as nat));
    assert forall|k: int| 0 <= k < ds.len() implies !(#[trigger] ds[k]).contains(',') by {
        lemma_decimal_digits(v[k] as nat);
        if ds[k].contains(',') {
            let j = choose|j: int| 0 <= j < ds[k].len() && ds[k][j] == ',';
            assert(decimal(v[k] as nat)[j] != ',');
        }
    }
    lemma_split_join(ds, ',');
    assert(v.take(0).to_set() =~= Set::<u32>::empty());
    lemma_episodes_from_list(v, 0);
    assert forall|w: Seq<u32>| increasing(w) && w.to_set() == v.to_set() implies w == v by {
        lemma_increasing_len(w);
        lemma_increasing_len(v);
        lemma_increasing_same_prefix(v, w, v.len() - 1);
        assert(w =~= v);
    }
}

} // verus!
