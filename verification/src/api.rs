//! The rules of the shared HTTP layer and of the two source resolvers.
use vstd::prelude::*;
use crate::cli::{Language, SourceArgs};
use crate::models::{Resolved, Source};
use crate::text::{chars_of, push_decimal, push_str};
use crate::urls::{
    http_scheme, is_http, opt_view, spec_url_append_pair, spec_url_parse, spec_url_scheme,
    url_append_pair, url_parse,
};

verus! {

// ---------------------------------------------------------------------------
// Rate limiting
// ---------------------------------------------------------------------------

/// Nanoseconds per second.
pub open spec fn second() -> nat {
    1_000_000_000
}

/// The spacing of requests for a rate of `per_second` (at least one) per
/// second: a second divided by the rate, rounded to the nearest nanosecond.
pub open spec fn spec_interval(per_second: u32) -> nat {
    let n: nat = if per_second == 0 { 1 } else { per_second as nat };
    (second() + n / 2) / n
}

/// Caps the request rate: each request starts at least one interval after
/// the previous one. Times are nanoseconds on a monotonic clock.
pub struct RateLimiter {
    pub interval: u64,
    /// The earliest start of the next request.
    pub next: u64,
}

impl RateLimiter {
    /// A limiter for `per_second` requests per second (0 counts as 1), whose
    /// first request may start at `now`.
    pub fn new(per_second: u32, now: u64) -> (r: RateLimiter)
        ensures
            r.interval == spec_interval(per_second),
            r.next == now,
    {
        let n: u64 = if per_second == 0 {
            1
        } else {
            per_second as u64
        };
        RateLimiter { interval: (1_000_000_000 + n / 2) / n, next: now }
    }

    /// Grants a request asked for at `now`: returns how long to wait, and moves
    /// the next start one interval past this one.
    pub fn acquire(&mut self, now: u64) -> (wait: u64)
        requires
            (if old(self).next > now { old(self).next } else { now }) + old(self).interval <= u64::MAX,
        ensures
            final(self).interval == old(self).interval,
            wait == (if old(self).next > now { old(self).next - now } else { 0 }),
            final(self).next == now + wait + old(self).interval,
    {
        let start = if self.next > now {
            self.next
        } else {
            now
        };
        self.next = start + self.interval;
        start - now
    }
}

/// The start times that requests asked for at the times `nows`, one after the
/// other, get from a limiter with `interval` whose next start is `next`: each
/// starts when asked, or at the limiter's next start if that is later (the
/// `now + wait` of `acquire`), and moves the next start one interval past it.
pub open spec fn grant_starts(interval: int, next: int, nows: Seq<int>) -> Seq<int>
    decreases nows.len(),
{
    if nows.len() == 0 {
        seq![]
    } else {
        let start = if next > nows[0] {
            next
        } else {
            nows[0]
        };
        seq![start] + grant_starts(interval, start + interval, nows.drop_first())
    }
}

/// Requests are paced: none starts before it was asked for or before the
/// limiter's next start, and the `j`-th starts at least `j - i` intervals
/// after the `i`-th, so no more than one request per interval goes out.
pub proof fn lemma_requests_are_paced(interval: nat, next: int, nows: Seq<int>)
    ensures
        grant_starts(interval as int, next, nows).len() == nows.len(),
        forall|i: int|
            0 <= i < nows.len() ==> #[trigger] grant_starts(interval as int, next, nows)[i] >= nows[i]
                && grant_starts(interval as int, next, nows)[i] >= next,
        forall|i: int, j: int|
            0 <= i <= j < nows.len() ==> #[trigger] grant_starts(interval as int, next, nows)[j]
                >= #[trigger] grant_starts(interval as int, next, nows)[i] + (j - i) * interval,
    decreases nows.len(),
{
    if nows.len() > 0 {
        let start = if next > nows[0] {
            next
        } else {
            nows[0]
        };
        let rest = nows.drop_first();
        lemma_requests_are_paced(interval, start + interval, rest);
        let g = grant_starts(interval as int, next, nows);
        let r = grant_starts(interval as int, start + interval, rest);
        assert(g == seq![start] + r);
        assert forall|i: int| 0 <= i < nows.len() implies #[trigger] g[i] >= nows[i] && g[i] >= next by {
            if i > 0 {
                assert(g[i] == r[i - 1]);
                assert(rest[i - 1] == nows[i]);
            }
        }
        assert forall|i: int, j: int| 0 <= i <= j < nows.len() implies #[trigger] g[j] >= #[trigger] g[i]
            + (j - i) * interval by {
            if i == j {
                assert((j - i) * interval == 0) by (nonlinear_arith)
                    requires
                        i == j,
                {
                }
            } else if i == 0 {
                assert(g[j] == r[j - 1]);
                assert(r[j - 1] >= r[0] + (j - 1) * interval);
                assert(r[0] >= start + interval);
                assert((j - 1) * interval + interval == (j - i) * interval) by (nonlinear_arith)
                    requires
                        i == 0,
                {
                }
            } else {
                assert(g[j] == r[j - 1]);
                assert(g[i] == r[i - 1]);
                assert(r[j - 1] >= r[i - 1] + ((j - 1) - (i - 1)) * interval);
            }
        }
    }
}

// ---------------------------------------------------------------------------
// Transfers
// ---------------------------------------------------------------------------

/// Why a transfer failed.
#[derive(Debug, PartialEq, Eq, Structural)]
pub enum TransferError {
    /// Only HTTP(S) URLs are fetched.
    NotHttp,
    /// The body is larger than the caller allows.
    TooLarge,
    /// The body is empty.
    Empty,
}

/// Whether a URL may be fetched: it must use HTTP or HTTPS.
pub fn transfer_allowed(url: &str) -> (r: Result<(), TransferError>)
    ensures
        r is Ok <==> is_http(spec_url_scheme(url@)),
        r matches Err(e) ==> e == TransferError::NotHttp,
{
    if http_scheme(url) {
        Ok(())
    } else {
        Err(TransferError::NotHttp)
    }
}

/// The bytes received so far by one transfer, against its limit.
pub struct Transfer {
    pub count: u64,
    pub max: u64,
}

impl Transfer {
    pub fn new(max: u64) -> (t: Transfer)
        ensures
            t.count == 0,
            t.max == max,
    {
        Transfer { count: 0, max }
    }

    /// Counts a received chunk of `len` bytes; more than `max` in all is an error.
    pub fn chunk(&mut self, len: u64) -> (r: Result<(), TransferError>)
        requires
            old(self).count <= old(self).max,
        ensures
            final(self).max == old(self).max,
            r is Ok <==> old(self).count + len <= old(self).max,
            r is Ok ==> final(self).count == old(self).count + len,
            r matches Err(e) ==> e == TransferError::TooLarge && final(self).count == old(self).count,
            final(self).count <= final(self).max,
    {
        if len > self.max - self.count {
            Err(TransferError::TooLarge)
        } else {
            self.count = self.count + len;
            Ok(())
        }
    }

    /// A finished transfer must have received something.
    pub fn finish(&self) -> (r: Result<(), TransferError>)
        ensures
            r is Ok <==> self.count > 0,
            r matches Err(e) ==> e == TransferError::Empty,
    {
        if self.count == 0 {
            Err(TransferError::Empty)
        } else {
            Ok(())
        }
    }
}

/// How a failed attempt ended, as far as the retry rule reads it.
pub struct Failure {
    pub timeout: bool,
    pub connect: bool,
    pub body: bool,
    /// The HTTP status, for a failure that carries one.
    pub status: Option<u16>,
}

/// Timeouts, connection and body errors, 429 and server errors are transient.
pub open spec fn spec_transient(f: Failure) -> bool {
    f.timeout || f.connect || f.body || (f.status matches Some(s) && ((500 <= s <= 599) || s == 429))
}

/// What to do after a failed attempt.
#[derive(Debug, PartialEq, Eq, Structural)]
pub enum Retry {
    /// Try again after this many milliseconds.
    After(u64),
    GiveUp,
}

pub open spec fn pow2(n: nat) -> nat
    decreases n,
{
    if n == 0 {
        1
    } else {
        2 * pow2((n - 1) as nat)
    }
}

/// Exponential backoff: 500 ms, then doubled for each earlier attempt.
pub open spec fn backoff_ms(attempt: nat) -> nat {
    500 * pow2(attempt)
}

/// Whether a failure is transient.
pub fn transient(f: &Failure) -> (r: bool)
    ensures
        r == spec_transient(*f),
{
    f.timeout || f.connect || f.body || match f.status {
        Some(s) => (500 <= s && s <= 599) || s == 429,
        None => false,
    }
}

/// The decision after attempt number `attempt` (from 0) of `retries + 1` failed.
pub fn after_failure(f: &Failure, attempt: u32, retries: u32) -> (r: Retry)
    requires
        attempt <= retries <= 50,
    ensures
        r == (if !spec_transient(*f) || attempt == retries {
            Retry::GiveUp
        } else {
            Retry::After(backoff_ms(attempt as nat) as u64)
        }),
{
    if !transient(f) || attempt == retries {
        return Retry::GiveUp;
    }
    let mut p: u64 = 1;
    let mut k: u32 = 0;
    proof {
        lemma_pow2_mono(0, 50);
        lemma_pow2_50();
    }
    while k < attempt
        invariant
            k <= attempt <= 50,
            p == pow2(k as nat),
            p <= pow2(50),
        decreases attempt - k,
    {
        proof {
            lemma_pow2_mono((k + 1) as nat, 50);
            lemma_pow2_50();
        }
        p = p * 2;
        k = k + 1;
    }
    proof {
        lemma_pow2_mono(attempt as nat, 50);
        lemma_pow2_50();
    }
    Retry::After(500 * p)
}

proof fn lemma_pow2_mono(a: nat, b: nat)
    requires
        a <= b,
    ensures
        pow2(a) <= pow2(b),
    decreases b,
{
    if a < b {
        lemma_pow2_mono(a, (b - 1) as nat);
    }
}

proof fn lemma_pow2_50()
    ensures
        pow2(50) == 0x4_0000_0000_0000,
{
    reveal_with_fuel(pow2, 51);
}

/// Every retry waits twice as long as the one before it.
pub proof fn lemma_backoff_doubles(attempt: nat)
    ensures
        backoff_ms(attempt + 1) == 2 * backoff_ms(attempt),
{
    assert(pow2(attempt + 1) == 2 * pow2(attempt));
}

// ---------------------------------------------------------------------------
// Request headers
// ---------------------------------------------------------------------------

/// A char of an HTTP token: what a header name may hold.
pub open spec fn is_token_char(c: char) -> bool {
    ('0' <= c <= '9') || ('a' <= c <= 'z') || ('A' <= c <= 'Z') || c == '!' || c == '#' || c == '$'
        || c == '%' || c == '&' || c == '\'' || c == '*' || c == '+' || c == '-' || c == '.' || c == '^'
        || c == '_' || c == '`' || c == '|' || c == '~'
}

/// What `HeaderName::from_bytes` accepts.
pub open spec fn valid_header_name(s: Seq<char>) -> bool {
    1 <= s.len() <= 65535 && forall|i: int| 0 <= i < s.len() ==> is_token_char(#[trigger] s[i])
}

/// What `HeaderValue::from_str` accepts: no control char but tab, no DEL.
pub open spec fn valid_header_value(s: Seq<char>) -> bool {
    forall|i: int|
        0 <= i < s.len() ==> #[trigger] s[i] == '\t' || ((s[i] as u32) >= 32 && (s[i] as u32) != 127)
}

/// `reqwest::header::HeaderName::from_bytes` succeeds exactly on non-empty
/// names of at most 65535 token chars.
#[verifier::external_body]
fn header_name_valid(name: &str) -> (r: bool)
    ensures
        r == valid_header_name(name@),
{
    reqwest::header::HeaderName::from_bytes(name.as_bytes()).is_ok()
}

/// `reqwest::header::HeaderValue::from_str` succeeds exactly when every byte
/// is a tab or at least 32 and not 127, which for chars is the rule above.
#[verifier::external_body]
fn header_value_valid(value: &str) -> (r: bool)
    ensures
        r == valid_header_value(value@),
{
    reqwest::header::HeaderValue::from_str(value).is_ok()
}

/// A header that HTTP cannot carry.
#[derive(Debug, PartialEq, Eq, Structural)]
pub enum HeaderError {
    InvalidName,
    InvalidValue,
}

/// The first invalid header, name before value, from entry `i` on.
pub open spec fn headers_from(hs: Seq<(Seq<char>, Seq<char>)>, i: int) -> Result<(), HeaderError>
    decreases hs.len() - i,
{
    if i < 0 || i >= hs.len() {
        Ok(())
    } else if !valid_header_name(hs[i].0) {
        Err(HeaderError::InvalidName)
    } else if !valid_header_value(hs[i].1) {
        Err(HeaderError::InvalidValue)
    } else {
        headers_from(hs, i + 1)
    }
}

pub open spec fn spec_headers(hs: Seq<(Seq<char>, Seq<char>)>) -> Result<(), HeaderError> {
    headers_from(hs, 0)
}

/// Checks resolver headers in order; the map that requests carry is built
/// from the accepted entries.
pub fn headers(values: &Vec<(String, String)>) -> (r: Result<(), HeaderError>)
    ensures
        r == spec_headers(crate::hls::pairs_view(values@)),
{
    let ghost hs = crate::hls::pairs_view(values@);
    let mut i: usize = 0;
    while i < values.len()
        invariant
            i <= values@.len(),
            hs == crate::hls::pairs_view(values@),
            spec_headers(hs) == headers_from(hs, i as int),
        decreases values@.len() - i,
    {
        let (k, v) = &values[i];
        assert(hs[i as int] == (k@, v@));
        if !header_name_valid(k.as_str()) {
            return Err(HeaderError::InvalidName);
        }
        if !header_value_valid(v.as_str()) {
            return Err(HeaderError::InvalidValue);
        }
        i = i + 1;
    }
    Ok(())
}

// ---------------------------------------------------------------------------
// Resolvers
// ---------------------------------------------------------------------------

/// Why a resolver response was refused.
#[derive(Debug, PartialEq, Eq, Structural)]
pub enum ResolveError {
    NoSources,
    Header(HeaderError),
    InvalidStreamUrl,
    NotHttpStream,
    /// A saved response answers for another episode.
    DifferentEpisode,
}

/// The first stream, from index `i` on, whose URL does not parse or is not HTTP(S).
pub open spec fn streams_from(urls: Seq<Seq<char>>, i: int) -> Result<(), ResolveError>
    decreases urls.len() - i,
{
    if i < 0 || i >= urls.len() {
        Ok(())
    } else {
        match spec_url_parse(urls[i]) {
            None => Err(ResolveError::InvalidStreamUrl),
            Some(u) => if !is_http(spec_url_scheme(u)) {
                Err(ResolveError::NotHttpStream)
            } else {
                streams_from(urls, i + 1)
            },
        }
    }
}

pub open spec fn source_urls(sources: Seq<Source>) -> Seq<Seq<char>> {
    sources.map_values(|s: Source| s.url@)
}

/// A saved response is accepted when it has a stream, valid headers, and
/// HTTP(S) stream URLs.
pub open spec fn spec_saved_check(r: Resolved) -> Result<(), ResolveError> {
    if r.sources@.len() == 0 {
        Err(ResolveError::NoSources)
    } else {
        match spec_headers(crate::hls::pairs_view(r.headers@)) {
            Err(e) => Err(ResolveError::Header(e)),
            Ok(_) => streams_from(source_urls(r.sources@), 0),
        }
    }
}

/// A resolver response saved by the user, valid for one episode.
pub struct SavedResolver {
    pub resolved: Resolved,
    pub episode: u32,
}

impl SavedResolver {
    /// Accepts a saved response for `episode`.
    #[verifier::loop_isolation(false)]
    pub fn from_resolved(resolved: Resolved, episode: u32) -> (r: Result<SavedResolver, ResolveError>)
        requires
            resolved.wf(),
        ensures
            r matches Ok(s) ==> s.resolved.wf(),
            match r {
                Ok(s) => spec_saved_check(resolved) is Ok && s.resolved == resolved && s.episode == episode,
                Err(e) => spec_saved_check(resolved) == Err::<(), ResolveError>(e),
            },
    {
        if resolved.sources.len() == 0 {
            return Err(ResolveError::NoSources);
        }
        if let Err(e) = headers(&resolved.headers) {
            return Err(ResolveError::Header(e));
        }
        let ghost urls = source_urls(resolved.sources@);
        let mut i: usize = 0;
        while i < resolved.sources.len()
            invariant
                i <= resolved.sources@.len(),
                urls == source_urls(resolved.sources@),
                streams_from(urls, 0) == streams_from(urls, i as int),
            decreases resolved.sources@.len() - i,
        {
            assert(urls[i as int] == resolved.sources@[i as int].url@);
            match url_parse(resolved.sources[i].url.as_str()) {
                None => {
                    return Err(ResolveError::InvalidStreamUrl);
                },
                Some(u) => {
                    if !http_scheme(u.as_str()) {
                        return Err(ResolveError::NotHttpStream);
                    }
                },
            }
            i = i + 1;
        }
        Ok(SavedResolver { resolved, episode })
    }

    /// The saved response, for the episode that it was saved for only.
    pub fn resolve(&self, episode: u32) -> (r: Result<Resolved, ResolveError>)
        ensures
            r matches Ok(res) ==> (self.resolved.wf() ==> res.wf()),
            match r {
                Ok(res) => episode == self.episode && res.sources@ == self.resolved.sources@
                    && res.headers@ == self.resolved.headers@ && res.tracks@ == self.resolved.tracks@
                    && res.drm == self.resolved.drm,
                Err(e) => episode != self.episode && e == ResolveError::DifferentEpisode,
            },
    {
        if episode != self.episode {
            return Err(ResolveError::DifferentEpisode);
        }
        Ok(self.resolved.duplicate())
    }
}

/// The source API: `endpoint` is the serialized resolver URL.
pub struct ApiResolver {
    pub endpoint: String,
}

/// The request URL for one episode: the endpoint with `id`, `epNum`, `type`
/// and `providerId` appended to its query.
pub open spec fn spec_request_url(endpoint: Seq<char>, source: SourceArgs, episode: u32) -> Option<Seq<char>> {
    match spec_url_append_pair(endpoint, "id"@, source.anime_id@) {
        None => None,
        Some(u1) => match spec_url_append_pair(u1, "epNum"@, crate::text::decimal(episode as nat)) {
            None => None,
            Some(u2) => match spec_url_append_pair(u2, "type"@, source.language.spec_name()) {
                None => None,
                Some(u3) => spec_url_append_pair(u3, "providerId"@, source.provider@),
            },
        },
    }
}

impl ApiResolver {
    /// The URL to request for `episode`.
    pub fn request_url(&self, source: &SourceArgs, episode: u32) -> (r: Option<String>)
        ensures
            opt_view(r) == spec_request_url(self.endpoint@, *source, episode),
    {
        let u1 = match url_append_pair(self.endpoint.as_str(), "id", source.anime_id.as_str()) {
            None => {
                return None;
            },
            Some(u) => u,
        };
        let mut number = String::new();
        push_decimal(&mut number, episode as u64);
        let u2 = match url_append_pair(u1.as_str(), "epNum", number.as_str()) {
            None => {
                return None;
            },
            Some(u) => u,
        };
        let lang = source.language.name();
        let u3 = match url_append_pair(u2.as_str(), "type", lang.as_str()) {
            None => {
                return None;
            },
            Some(u) => u,
        };
        url_append_pair(u3.as_str(), "providerId", source.provider.as_str())
    }

    /// A resolver response must offer a stream.
    pub fn check(resolved: Resolved) -> (r: Result<Resolved, ResolveError>)
        requires
            resolved.wf(),
        ensures
            r matches Ok(res) ==> res.wf(),
            match r {
                Ok(res) => resolved.sources@.len() > 0 && res == resolved,
                Err(e) => resolved.sources@.len() == 0 && e == ResolveError::NoSources,
            },
    {
        if resolved.sources.len() == 0 {
            Err(ResolveError::NoSources)
        } else {
            Ok(resolved)
        }
    }
}

/// A refusal with status 403 gets the hint to use a saved response.
pub fn access_denied(status: Option<u16>) -> (r: bool)
    ensures
        r == (status == Some(403u16)),
{
    match status {
        Some(s) => s == 403,
        None => false,
    }
}

} // verus!
