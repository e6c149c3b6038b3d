//! The catalog search: request checks, the GraphQL envelope, and the text
//! that lists search results.
use vstd::prelude::*;
use crate::text::{
    chars_of, ctrl, decimal, is_ctrl, owned, push_char, push_decimal, push_str, trim, trim_span,
};
use crate::urls::{http_scheme, is_http, spec_url_parse, spec_url_scheme, url_parse};

verus! {

/// A GraphQL reply: its data, and the errors that it reports.
pub struct GraphQlResponse<T> {
    pub data: Option<T>,
    pub errors: Vec<GraphQlError>,
}

pub struct GraphQlError {
    pub message: String,
}

pub struct SearchData {
    pub catalog_anime: Option<CatalogAnime>,
}

pub struct CatalogAnime {
    pub items: Vec<AnimeSearchResult>,
}

/// One anime of a search.
pub struct AnimeSearchResult {
    /// Internal AnimeX identifier; AniList/MAL IDs are informational only.
    pub id: String,
    pub anilist_id: Option<i64>,
    pub mal_id: Option<i64>,
    pub title_romaji: Option<String>,
    pub title_english: Option<String>,
    /// The cover image scalar, as JSON text: a URL or a structured object.
    pub cover_image: Option<String>,
    /// The banner image scalar, as JSON text.
    pub banner_image: Option<String>,
    pub color: Option<String>,
    pub format: Option<String>,
    pub status: Option<String>,
    pub episode_count: Option<i32>,
    pub season_year: Option<i32>,
    pub season: Option<String>,
    pub genres: Option<Vec<String>>,
}

/// Why a catalog search failed.
#[derive(Debug)]
pub enum CatalogError {
    InvalidUrl,
    NotHttp,
    EmptyQuery,
    LimitOutOfRange,
    /// The errors that GraphQL reported, cleaned and joined with `; `.
    GraphQl(String),
    NoData,
    NullCatalog,
}

// ---------------------------------------------------------------------------
// Cleaning text for the terminal
// ---------------------------------------------------------------------------

/// The text without control chars.
pub open spec fn spec_clean(s: Seq<char>) -> Seq<char> {
    s.filter(|c: char| !is_ctrl(c))
}

/// Drops control chars, so that remote text cannot steer the terminal.
pub fn clean(s: &str) -> (r: String)
    ensures
        r@ == spec_clean(s@),
        forall|i: int| 0 <= i < r@.len() ==> !is_ctrl(#[trigger] r@[i]),
{
    let v = chars_of(s);
    let mut out = String::new();
    let mut i: usize = 0;
    while i < v.len()
        invariant
            i <= v@.len(),
            v@ == s@,
            out@ == spec_clean(v@.subrange(0, i as int)),
        decreases v@.len() - i,
    {
        let c = v[i];
        proof {
            let a = v@.subrange(0, i as int);
            assert(v@.subrange(0, i + 1) == a.push(c));
            a.lemma_filter_push(c, |c: char| !is_ctrl(c));
        }
        if !ctrl(c) {
            push_char(&mut out, c);
        }
        i = i + 1;
    }
    assert(v@.subrange(0, v@.len() as int) == v@);
    proof {
        let f = |c: char| !is_ctrl(c);
        assert forall|i: int| 0 <= i < out@.len() implies !is_ctrl(#[trigger] out@[i]) by {
            s@.lemma_filter_pred(f, i);
        }
    }
    out
}

// ---------------------------------------------------------------------------
// Requests and replies
// ---------------------------------------------------------------------------

/// The GraphQL endpoint must be an HTTP(S) URL; returns its serialization.
pub fn graphql_endpoint(url: &str) -> (r: Result<String, CatalogError>)
    ensures
        match r {
            Ok(u) => spec_url_parse(url@) == Some(u@) && is_http(spec_url_scheme(u@)),
            Err(CatalogError::InvalidUrl) => spec_url_parse(url@) is None,
            Err(CatalogError::NotHttp) => spec_url_parse(url@) matches Some(u) && !is_http(
                spec_url_scheme(u),
            ),
            Err(_) => false,
        },
{
    match url_parse(url) {
        None => Err(CatalogError::InvalidUrl),
        Some(u) => if http_scheme(u.as_str()) {
            Ok(u)
        } else {
            Err(CatalogError::NotHttp)
        },
    }
}

/// A search needs a query with some non-blank text and a limit from 1 to 100.
pub fn check_search(query: &str, limit: usize) -> (r: Result<(), CatalogError>)
    ensures
        match r {
            Ok(_) => trim(query@).len() > 0 && 1 <= limit <= 100,
            Err(CatalogError::EmptyQuery) => trim(query@).len() == 0,
            Err(CatalogError::LimitOutOfRange) => trim(query@).len() > 0 && !(1 <= limit <= 100),
            Err(_) => false,
        },
{
    let v = chars_of(query);
    let (a, b) = trim_span(&v, 0, v.len());
    assert(v@.subrange(0, v@.len() as int) == v@);
    if a == b {
        return Err(CatalogError::EmptyQuery);
    }
    if !(1 <= limit && limit <= 100) {
        return Err(CatalogError::LimitOutOfRange);
    }
    Ok(())
}

/// Messages joined with `sep`.
pub open spec fn join(ls: Seq<Seq<char>>, sep: Seq<char>) -> Seq<char>
    decreases ls.len(),
{
    if ls.len() == 0 {
        seq![]
    } else if ls.len() == 1 {
        ls[0]
    } else {
        join(ls.drop_last(), sep) + sep + ls.last()
    }
}

pub open spec fn error_messages(es: Seq<GraphQlError>) -> Seq<Seq<char>> {
    es.map_values(|e: GraphQlError| spec_clean(e.message@))
}

/// Appends `items` joined with `sep`, each cleaned of control chars when
/// `clean_items` holds.
pub fn push_joined(out: &mut String, items: &Vec<String>, sep: &str, clean_items: bool)
    ensures
        final(out)@ == old(out)@ + join(
            if clean_items {
                items@.map_values(|s: String| spec_clean(s@))
            } else {
                items@.map_values(|s: String| s@)
            },
            sep@,
        ),
{
    let ghost ls = if clean_items {
        items@.map_values(|s: String| spec_clean(s@))
    } else {
        items@.map_values(|s: String| s@)
    };
    let ghost start = out@;
    let mut i: usize = 0;
    while i < items.len()
        invariant
            i <= items@.len(),
            ls.len() == items@.len(),
            ls == (if clean_items {
                items@.map_values(|s: String| spec_clean(s@))
            } else {
                items@.map_values(|s: String| s@)
            }),
            out@ == start + join(ls.take(i as int), sep@),
        decreases items@.len() - i,
    {
        if i > 0 {
            push_str(out, sep);
        }
        let piece = if clean_items {
            clean(items[i].as_str())
        } else {
            items[i].clone()
        };
        assert(piece@ == ls[i as int]);
        push_str(out, piece.as_str());
        proof {
            let t = ls.take(i + 1);
            assert(t.drop_last() == ls.take(i as int));
            assert(t.last() == ls[i as int]);
            if i == 0 {
                assert(ls.take(0) == Seq::<Seq<char>>::empty());
            }
        }
        i = i + 1;
    }
    assert(ls.take(i as int) == ls);
}

/// The data of a reply without errors.
pub fn envelope<T>(resp: GraphQlResponse<T>) -> (r: Result<T, CatalogError>)
    ensures
        match r {
            Ok(d) => resp.errors@.len() == 0 && resp.data == Some(d),
            Err(CatalogError::GraphQl(m)) => resp.errors@.len() > 0 && m@ == join(
                error_messages(resp.errors@),
                "; "@,
            ),
            Err(CatalogError::NoData) => resp.errors@.len() == 0 && resp.data is None,
            Err(_) => false,
        },
{
    if resp.errors.len() > 0 {
        let mut messages: Vec<String> = Vec::new();
        let mut i: usize = 0;
        while i < resp.errors.len()
            invariant
                i <= resp.errors@.len(),
                messages@.len() == i,
                forall|j: int| 0 <= j < i ==> (#[trigger] messages@[j])@ == resp.errors@[j].message@,
            decreases resp.errors@.len() - i,
        {
            messages.push(resp.errors[i].message.clone());
            i = i + 1;
        }
        let mut m = String::new();
        push_joined(&mut m, &messages, "; ", true);
        assert(messages@.map_values(|s: String| spec_clean(s@)) =~= error_messages(resp.errors@));
        return Err(CatalogError::GraphQl(m));
    }
    match resp.data {
        Some(d) => Ok(d),
        None => Err(CatalogError::NoData),
    }
}

/// The items of a search, unless the catalog field is null.
pub fn search_items(data: SearchData) -> (r: Result<Vec<AnimeSearchResult>, CatalogError>)
    ensures
        match r {
            Ok(items) => data.catalog_anime matches Some(c) && items == c.items,
            Err(CatalogError::NullCatalog) => data.catalog_anime is None,
            Err(_) => false,
        },
{
    match data.catalog_anime {
        Some(c) => Ok(c.items),
        None => Err(CatalogError::NullCatalog),
    }
}

// ---------------------------------------------------------------------------
// Listing search results
// ---------------------------------------------------------------------------

/// The English title when it is not empty, else the Romaji title, else the id.
pub open spec fn title_of(r: AnimeSearchResult) -> Seq<char> {
    match r.title_english {
        Some(t) if t@.len() > 0 => t@,
        _ => match r.title_romaji {
            Some(t) => t@,
            None => r.id@,
        },
    }
}

/// A signed integer in decimal.
pub open spec fn int_text(n: int) -> Seq<char> {
    if n < 0 {
        "-"@ + decimal((-n) as nat)
    } else {
        decimal(n as nat)
    }
}

pub open spec fn opt_int_text(n: Option<int>) -> Option<Seq<char>> {
    match n {
        Some(v) => Some(int_text(v)),
        None => None,
    }
}

pub open spec fn opt_string(s: Option<String>) -> Option<Seq<char>> {
    match s {
        Some(v) => Some(v@),
        None => None,
    }
}

/// `    <label>: <value>` for a present value.
pub open spec fn field_line(label: Seq<char>, value: Option<Seq<char>>) -> Seq<char> {
    match value {
        Some(v) => "    "@ + label + ": "@ + spec_clean(v) + "\n"@,
        None => seq![],
    }
}

pub open spec fn i64_opt(n: Option<i64>) -> Option<int> {
    match n {
        Some(v) => Some(v as int),
        None => None,
    }
}

pub open spec fn i32_opt(n: Option<i32>) -> Option<int> {
    match n {
        Some(v) => Some(v as int),
        None => None,
    }
}

pub open spec fn genres_text(g: Option<Vec<String>>) -> Option<Seq<char>> {
    match g {
        Some(v) => Some(join(v@.map_values(|s: String| s@), ", "@)),
        None => None,
    }
}

/// The first lines of the block of result number `n`: title and id.
pub open spec fn entry_head(n: nat, r: AnimeSearchResult) -> Seq<char> {
    "["@ + decimal(n) + "] "@ + spec_clean(title_of(r)) + "\n    ID: "@ + spec_clean(r.id@) + "\n"@
}

/// The lines of the fields that a result has.
pub open spec fn entry_fields(r: AnimeSearchResult) -> Seq<char> {
    field_line("AniList"@, opt_int_text(i64_opt(r.anilist_id))) + field_line(
        "MAL"@,
        opt_int_text(i64_opt(r.mal_id)),
    ) + field_line("Episodes"@, opt_int_text(i32_opt(r.episode_count))) + field_line(
        "Year"@,
        opt_int_text(i32_opt(r.season_year)),
    ) + field_line("Season"@, opt_string(r.season)) + field_line("Format"@, opt_string(r.format))
        + field_line("Status"@, opt_string(r.status)) + field_line("Genres"@, genres_text(r.genres))
}

/// The block that lists result number `n` (from 1), ended by a blank line.
pub open spec fn entry_text(n: nat, r: AnimeSearchResult) -> Seq<char> {
    entry_head(n, r) + entry_fields(r) + "\n"@
}

/// The blocks of the first `k` results.
pub open spec fn entries_upto(rs: Seq<AnimeSearchResult>, k: int) -> Seq<char>
    decreases k,
{
    if k <= 0 || k > rs.len() {
        seq![]
    } else {
        entries_upto(rs, k - 1) + entry_text(k as nat, rs[k - 1])
    }
}

/// The text that lists search results.
pub open spec fn spec_display(rs: Seq<AnimeSearchResult>) -> Seq<char> {
    if rs.len() == 0 {
        "No anime found.\n"@
    } else {
        entries_upto(rs, rs.len() as int)
    }
}

pub(crate) fn push_int(out: &mut String, n: i64)
    ensures
        final(out)@ == old(out)@ + int_text(n as int),
{
    if n < 0 {
        push_str(out, "-");
        let m: u64 = (0i128 - (n as i128)) as u64;
        push_decimal(out, m);
    } else {
        push_decimal(out, n as u64);
    }
}

fn push_field(out: &mut String, label: &str, value: Option<String>)
    ensures
        final(out)@ == old(out)@ + field_line(label@, opt_string(value)),
{
    match value {
        Some(v) => {
            push_str(out, "    ");
            push_str(out, label);
            push_str(out, ": ");
            let c = clean(v.as_str());
            push_str(out, c.as_str());
            push_str(out, "\n");
        },
        None => {},
    }
}

fn int_field(n: Option<i64>) -> (r: Option<String>)
    ensures
        opt_string(r) == opt_int_text(i64_opt(n)),
{
    match n {
        Some(v) => {
            let mut s = String::new();
            push_int(&mut s, v);
            Some(s)
        },
        None => None,
    }
}

fn copy_opt(s: &Option<String>) -> (r: Option<String>)
    ensures
        opt_string(r) == opt_string(*s),
{
    match s {
        Some(v) => Some(v.clone()),
        None => None,
    }
}

fn push_head(out: &mut String, n: u64, r: &AnimeSearchResult)
    ensures
        final(out)@ == old(out)@ + entry_head(n as nat, *r),
{
    let ghost start = out@;
    push_str(out, "[");
    push_decimal(out, n);
    push_str(out, "] ");
    let title = match &r.title_english {
        Some(t) if chars_of(t.as_str()).len() > 0 => t.clone(),
        _ => match &r.title_romaji {
            Some(t) => t.clone(),
            None => r.id.clone(),
        },
    };
    assert(title@ == title_of(*r));
    let t = clean(title.as_str());
    push_str(out, t.as_str());
    push_str(out, "\n    ID: ");
    let id = clean(r.id.as_str());
    push_str(out, id.as_str());
    push_str(out, "\n");
    assert(out@ =~= start + entry_head(n as nat, *r));
}

fn push_fields(out: &mut String, r: &AnimeSearchResult)
    ensures
        final(out)@ == old(out)@ + entry_fields(*r),
{
    let ghost s0 = out@;
    push_field(out, "AniList", int_field(r.anilist_id));
    push_field(out, "MAL", int_field(r.mal_id));
    let ghost s2 = out@;
    push_field(
        out,
        "Episodes",
        int_field(
            match r.episode_count {
                Some(v) => Some(v as i64),
                None => None,
            },
        ),
    );
    push_field(
        out,
        "Year",
        int_field(
            match r.season_year {
                Some(v) => Some(v as i64),
                None => None,
            },
        ),
    );
    let ghost s4 = out@;
    push_field(out, "Season", copy_opt(&r.season));
    push_field(out, "Format", copy_opt(&r.format));
    let ghost s6 = out@;
    push_field(out, "Status", copy_opt(&r.status));
    let genres = match &r.genres {
        Some(g) => {
            let mut s = String::new();
            push_joined(&mut s, g, ", ", false);
            Some(s)
        },
        None => None,
    };
    assert(opt_string(genres) == genres_text(r.genres));
    push_field(out, "Genres", genres);
    assert(out@ =~= s0 + entry_fields(*r));
}

fn push_entry(out: &mut String, n: u64, r: &AnimeSearchResult)
    ensures
        final(out)@ == old(out)@ + entry_text(n as nat, *r),
{
    let ghost start = out@;
    push_head(out, n, r);
    push_fields(out, r);
    push_str(out, "\n");
    assert(out@ =~= start + entry_text(n as nat, *r));
}

/// The text that lists search results, as the terminal prints it.
pub fn display_text(results: &Vec<AnimeSearchResult>) -> (r: String)
    ensures
        r@ == spec_display(results@),
{
    let mut out = String::new();
    if results.len() == 0 {
        push_str(&mut out, "No anime found.\n");
        return out;
    }
    let mut i: usize = 0;
    while i < results.len()
        invariant
            i <= results@.len(),
            out@ == entries_upto(results@, i as int),
        decreases results@.len() - i,
    {
        push_entry(&mut out, i as u64 + 1, &results[i]);
        i = i + 1;
    }
    out
}

} // verus!
