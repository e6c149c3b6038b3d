//! The interactive session as a state machine: each key or finished operation
//! moves the state, and names the outside work to do next.
use vstd::prelude::*;
use crate::catalog::{clean, join, push_joined, spec_clean, AnimeSearchResult};
use crate::text::{decimal, find_sub, int_error, int_error_text, push_decimal, span_find_sub};
use crate::cli::{episodes, increasing, spec_episodes, Language, SourceArgs};
use crate::hls::trim_quotes;
use crate::text::{
    chars_of, ctrl, is_ctrl, owned, parse_uint, parse_uint_span, push_char, push_str, span_eq,
    str_eq, string_of_span, trim, trim_span,
};

verus! {

/// The screens of the session.
#[derive(Clone, Copy, Debug, PartialEq, Eq, Structural)]
pub enum Page {
    Search,
    Results,
    Configure,
    Paste,
    Report,
}

/// A key, as far as the session reads it.
#[derive(Clone, Copy, Debug, PartialEq, Eq, Structural)]
pub enum Key {
    Char(char),
    Enter,
    Esc,
    Tab,
    BackTab,
    Up,
    Down,
    PageUp,
    PageDown,
    Backspace,
    F(u8),
    Other,
}

/// A key press with its modifiers.
#[derive(Clone, Copy, Debug, PartialEq, Eq, Structural)]
pub struct KeyPress {
    pub code: Key,
    pub ctrl: bool,
    pub alt: bool,
}

/// The labels of the download settings, in field order.
pub open spec fn field_count() -> nat {
    9
}

/// The whole state of the session.
pub struct App {
    pub page: Page,
    pub query: String,
    pub results: Vec<AnimeSearchResult>,
    /// The highlighted result.
    pub selection: Option<usize>,
    /// Episodes, language, provider, quality, output folder, concurrency,
    /// ffmpeg program, JSON file, format.
    pub fields: Vec<String>,
    pub focus: usize,
    pub notice: String,
    pub pasted: String,
    pub paste_backup: String,
    pub report: String,
    pub scroll: u16,
    pub limit: usize,
    pub adult: bool,
}

/// What the session asks the terminal loop to do.
pub enum Action {
    Nothing,
    Quit,
    /// Search the catalog for `query` with `limit` and `adult`.
    Search,
    /// Run a plan: inspect its first episode, or download all of them.
    Run { plan: Plan, inspect: bool },
    /// Check the pasted JSON as a resolver response.
    CheckPaste,
}

/// A download or inspection that the settings describe.
pub struct Plan {
    pub source: SourceArgs,
    pub episodes: Vec<u32>,
    pub output: String,
    pub concurrency: usize,
    pub ffmpeg: String,
    pub pasted: String,
}

/// How a search ended.
pub enum SearchOutcome {
    Found(Vec<AnimeSearchResult>),
    Cancelled,
    Failed(String),
}

/// How an inspection or a download ended.
pub enum OperationOutcome {
    Done(String),
    Cancelled,
    Failed(String),
}

/// Where a saved resolver response comes from.
pub enum SavedSource {
    Pasted(String),
    File(String),
    Api,
}

// ---------------------------------------------------------------------------
// Text editing
// ---------------------------------------------------------------------------

/// `String::pop`.
#[verifier::external_body]
fn pop_char(s: &mut String)
    ensures
        final(s)@ == (if old(s)@.len() > 0 {
            old(s)@.drop_last()
        } else {
            old(s)@
        }),
{
    s.pop();
}

/// What a key does to a text field: Backspace deletes, Ctrl-U clears, a
/// char without Ctrl or Alt is typed.
pub open spec fn spec_edit(t: Seq<char>, k: KeyPress) -> Seq<char> {
    match k.code {
        Key::Backspace => if t.len() > 0 {
            t.drop_last()
        } else {
            t
        },
        Key::Char(c) => if c == 'u' && k.ctrl {
            Seq::empty()
        } else if !(k.ctrl || k.alt) {
            t.push(c)
        } else {
            t
        },
        _ => t,
    }
}

pub fn edit(text: &mut String, k: KeyPress)
    ensures
        final(text)@ == spec_edit(old(text)@, k),
{
    match k.code {
        Key::Backspace => pop_char(text),
        Key::Char(c) => {
            if c == 'u' && k.ctrl {
                *text = String::new();
            } else if !(k.ctrl || k.alt) {
                push_char(text, c);
            }
        },
        _ => {},
    }
}

/// The text without control chars but line breaks.
pub open spec fn spec_clean_lines(s: Seq<char>) -> Seq<char> {
    s.filter(|c: char| !is_ctrl(c) || c == '\n')
}

pub fn clean_lines(s: &str) -> (r: String)
    ensures
        r@ == spec_clean_lines(s@),
{
    let v = chars_of(s);
    let mut out = String::new();
    let mut i: usize = 0;
    while i < v.len()
        invariant
            i <= v@.len(),
            v@ == s@,
            out@ == spec_clean_lines(v@.subrange(0, i as int)),
        decreases v@.len() - i,
    {
        let c = v[i];
        proof {
            let a = v@.subrange(0, i as int);
            assert(v@.subrange(0, i + 1) == a.push(c));
            a.lemma_filter_push(c, |c: char| !is_ctrl(c) || c == '\n');
        }
        if !ctrl(c) || c == '\n' {
            push_char(&mut out, c);
        }
        i = i + 1;
    }
    assert(v@.subrange(0, v@.len() as int) == v@);
    out
}

// ---------------------------------------------------------------------------
// Settings to plan
// ---------------------------------------------------------------------------

pub open spec fn strip_one_p(q: Seq<char>) -> Seq<char> {
    if q.len() > 0 && q.last() == 'p' {
        q.drop_last()
    } else {
        q
    }
}

/// `best`, or a positive number with at most one `p` after it.
pub open spec fn plan_quality_ok(q: Seq<char>) -> bool {
    q == "best"@ || (parse_uint(strip_one_p(q), u32::MAX as nat) matches Some(n) && n > 0)
}

pub open spec fn plan_language(s: Seq<char>) -> Option<Language> {
    if s == "sub"@ {
        Some(Language::Sub)
    } else if s == "dub"@ {
        Some(Language::Dub)
    } else {
        None
    }
}

/// A path field: trimmed, and without surrounding quotes.
pub open spec fn unquoted(s: Seq<char>) -> Seq<char> {
    trim_quotes(trim(s))
}

pub open spec fn msg_language() -> Seq<char> {
    "El idioma debe ser sub o dub"@
}

pub open spec fn msg_quality() -> Seq<char> {
    "Calidad inválida: usa best o 720p"@
}

/// The start of the message for a concurrency that is no number; the parse
/// error follows it.
pub open spec fn msg_concurrency() -> Seq<char> {
    "Concurrencia inválida: "@
}

pub open spec fn msg_concurrency_range() -> Seq<char> {
    "Concurrencia permitida: 1-64"@
}

pub open spec fn msg_required() -> Seq<char> {
    "Proveedor, carpeta y ffmpeg son obligatorios"@
}

pub open spec fn msg_shared_json() -> Seq<char> {
    "Una respuesta JSON corresponde a un solo episodio; indica un único número"@
}

pub open spec fn msg_select() -> Seq<char> {
    "Selecciona un anime"@
}

impl App {
    /// The index of the highlighted result, if it names one.
    pub open spec fn selected_index(&self) -> Option<int> {
        match self.selection {
            Some(i) => if i < self.results@.len() {
                Some(i as int)
            } else {
                None
            },
            None => None,
        }
    }

    pub open spec fn wf(&self) -> bool {
        &&& self.fields@.len() == field_count()
        &&& self.focus < field_count()
        &&& self.selection matches Some(i) ==> i < self.results@.len()
    }

    /// The first check of the settings that fails, as its message; none when
    /// the settings make a plan.
    pub open spec fn spec_plan_error(&self) -> Option<Seq<char>> {
        let f = self.fields@;
        match spec_episodes(trim(f[0]@)) {
            Err(m) => Some(m),
            Ok(eps) => if plan_language(trim(f[1]@)) is None {
                Some(msg_language())
            } else if !plan_quality_ok(trim(f[3]@)) {
                Some(msg_quality())
            } else {
                match parse_uint(trim(f[5]@), usize::MAX as nat) {
                    None => Some(msg_concurrency() + int_error_text(trim(f[5]@))),
                    Some(c) => if !(1 <= c <= 64) {
                        Some(msg_concurrency_range())
                    } else if !(trim(f[2]@).len() > 0 && trim(f[4]@).len() > 0 && (f[8]@ == "m3u8"@
                        || trim(f[6]@).len() > 0)) {
                        Some(msg_required())
                    } else if !((trim(f[7]@).len() == 0 && trim(self.pasted@).len() == 0) || eps.len()
                        == 1) {
                        Some(msg_shared_json())
                    } else if self.selected_index() is None {
                        Some(msg_select())
                    } else {
                        None
                    },
                }
            },
        }
    }

    /// What a plan made from the settings holds.
    pub open spec fn plan_fits(&self, p: Plan) -> bool {
        let f = self.fields@;
        let r = self.results@[self.selected_index()->Some_0];
        &&& spec_episodes(trim(f[0]@)) == Ok::<Set<u32>, Seq<char>>(p.episodes@.to_set())
        &&& increasing(p.episodes@)
        &&& p.source.anime_id@ == r.id@
        &&& p.source.playlist_only == (f[8]@ == "m3u8"@)
        &&& crate::urls::opt_view(p.source.source_json) == (if trim(f[7]@).len() > 0 {
            Some(unquoted(f[7]@))
        } else {
            None
        })
        &&& Some(p.source.language) == plan_language(trim(f[1]@))
        &&& p.source.provider@ == trim(f[2]@)
        &&& p.source.quality@ == trim(f[3]@)
        &&& p.source.display_name == (match r.title_english {
            Some(t) => Some(t),
            None => r.title_romaji,
        })
        &&& p.output@ == unquoted(f[4]@)
        &&& parse_uint(trim(f[5]@), usize::MAX as nat) == Some(p.concurrency as nat)
        &&& p.ffmpeg@ == unquoted(f[6]@)
        &&& p.pasted == self.pasted
    }
}

/// The trimmed text of a field.
fn trimmed(s: &String) -> (r: String)
    ensures
        r@ == trim(s@),
{
    let v = chars_of(s.as_str());
    let (a, b) = trim_span(&v, 0, v.len());
    assert(v@.subrange(0, v@.len() as int) == v@);
    string_of_span(&v, a, b)
}

/// The trimmed, unquoted text of a path field.
fn unquote(s: &String) -> (r: String)
    ensures
        r@ == unquoted(s@),
{
    let t = trimmed(s);
    let v = chars_of(t.as_str());
    let (x, y) = crate::hls::trim_quotes_span(&v, 0, v.len());
    assert(v@.subrange(0, v@.len() as int) == v@);
    string_of_span(&v, x, y)
}

fn plan_quality(q: &String) -> (r: bool)
    ensures
        r == plan_quality_ok(q@),
{
    let v = chars_of(q.as_str());
    let best = chars_of("best");
    assert(v@.subrange(0, v@.len() as int) == v@);
    if span_eq(&v, 0, v.len(), &best) {
        return true;
    }
    let e = if v.len() > 0 && v[v.len() - 1] == 'p' {
        v.len() - 1
    } else {
        v.len()
    };
    assert(v@.subrange(0, e as int) == strip_one_p(v@));
    match parse_uint_span(&v, 0, e, u32::MAX as u64) {
        Some(n) => n > 0,
        None => false,
    }
}

impl App {
    /// A plan from the settings and the highlighted result, or the message of
    /// the first check that fails.
    pub fn plan(&self) -> (r: Result<Plan, String>)
        requires
            self.wf(),
        ensures
            match r {
                Ok(p) => self.spec_plan_error() is None && self.plan_fits(p),
                Err(m) => self.spec_plan_error() == Some(m@),
            },
    {
        let f0 = trimmed(&self.fields[0]);
        let eps = match episodes(f0.as_str()) {
            Err(m) => {
                return Err(m);
            },
            Ok(e) => e,
        };
        let f1 = trimmed(&self.fields[1]);
        let language = if str_eq(f1.as_str(), "sub") {
            Language::Sub
        } else if str_eq(f1.as_str(), "dub") {
            Language::Dub
        } else {
            return Err(owned("El idioma debe ser sub o dub"));
        };
        let quality = trimmed(&self.fields[3]);
        if !plan_quality(&quality) {
            return Err(owned("Calidad inválida: usa best o 720p"));
        }
        let f5 = trimmed(&self.fields[5]);
        let c5 = chars_of(f5.as_str());
        assert(c5@.subrange(0, c5@.len() as int) == c5@);
        let concurrency: usize = match parse_uint_span(&c5, 0, c5.len(), usize::MAX as u64) {
            None => {
                let mut m = owned("Concurrencia inválida: ");
                push_str(&mut m, int_error(&c5, 0, c5.len()));
                assert(c5@.subrange(0, c5@.len() as int) == c5@);
                return Err(m);
            },
            Some(c) => c as usize,
        };
        if !(1 <= concurrency && concurrency <= 64) {
            return Err(owned("Concurrencia permitida: 1-64"));
        }
        let provider = trimmed(&self.fields[2]);
        let output_t = trimmed(&self.fields[4]);
        let ffmpeg_t = trimmed(&self.fields[6]);
        let m3u8 = str_eq(self.fields[8].as_str(), "m3u8");
        let provider_len = chars_of(provider.as_str()).len();
        let output_len = chars_of(output_t.as_str()).len();
        let ffmpeg_len = chars_of(ffmpeg_t.as_str()).len();
        if !(provider_len > 0 && output_len > 0 && (m3u8 || ffmpeg_len > 0)) {
            return Err(owned("Proveedor, carpeta y ffmpeg son obligatorios"));
        }
        let f7 = trimmed(&self.fields[7]);
        let json_len = chars_of(f7.as_str()).len();
        let source_json: Option<String> = if json_len > 0 {
            Some(unquote(&self.fields[7]))
        } else {
            None
        };
        let pasted_t = trimmed(&self.pasted);
        let pasted_len = chars_of(pasted_t.as_str()).len();
        proof {
            crate::cli::lemma_increasing_len(eps@);
        }
        if !((json_len == 0 && pasted_len == 0) || eps.len() == 1) {
            return Err(owned("Una respuesta JSON corresponde a un solo episodio; indica un único número"));
        }
        let r = match self.selection {
            Some(i) if i < self.results.len() => &self.results[i],
            _ => {
                return Err(owned("Selecciona un anime"));
            },
        };
        let display_name = match &r.title_english {
            Some(t) => Some(t.clone()),
            None => crate::cli::copy_opt(&r.title_romaji),
        };
        let p = Plan {
            source: SourceArgs {
                anime_id: r.id.clone(),
                playlist_only: m3u8,
                source_json,
                language,
                provider,
                quality,
                display_name,
            },
            episodes: eps,
            output: unquote(&self.fields[4]),
            concurrency,
            ffmpeg: unquote(&self.fields[6]),
            pasted: self.pasted.clone(),
        };
        Ok(p)
    }
}

// ---------------------------------------------------------------------------
// Transitions
// ---------------------------------------------------------------------------

/// The next result limit: 10, 25, 50, then 10 again.
pub open spec fn next_limit(l: usize) -> usize {
    if l == 10 {
        25
    } else if l == 25 {
        50
    } else {
        10
    }
}

/// All but the page and the notice are the same.
pub open spec fn same_data(a: App, b: App) -> bool {
    &&& b.query == a.query
    &&& b.results == a.results
    &&& b.selection == a.selection
    &&& b.fields == a.fields
    &&& b.focus == a.focus
    &&& b.pasted == a.pasted
    &&& b.paste_backup == a.paste_backup
    &&& b.report == a.report
    &&& b.scroll == a.scroll
    &&& b.limit == a.limit
    &&& b.adult == a.adult
}

/// All the same.
pub open spec fn same(a: App, b: App) -> bool {
    same_data(a, b) && b.page == a.page && b.notice == a.notice
}

/// `b` has the fields of `a` but field `i`, whose text is `v`.
pub open spec fn fields_but(a: Seq<String>, b: Seq<String>, i: int, v: Seq<char>) -> bool {
    &&& b.len() == a.len()
    &&& b[i]@ == v
    &&& forall|j: int| 0 <= j < a.len() && j != i ==> b[j] == a[j]
}

/// All the same but the fields, the pasted text and the page.
pub open spec fn same_but_edit(a: App, b: App) -> bool {
    &&& b.query == a.query
    &&& b.results == a.results
    &&& b.selection == a.selection
    &&& b.focus == a.focus
    &&& b.paste_backup == a.paste_backup
    &&& b.report == a.report
    &&& b.scroll == a.scroll
    &&& b.limit == a.limit
    &&& b.adult == a.adult
    &&& b.notice == a.notice
    &&& b.page == a.page
}

/// All the same but the query.
pub open spec fn same_but_query(a: App, b: App) -> bool {
    &&& b.results == a.results
    &&& b.selection == a.selection
    &&& b.fields == a.fields
    &&& b.focus == a.focus
    &&& b.pasted == a.pasted
    &&& b.paste_backup == a.paste_backup
    &&& b.report == a.report
    &&& b.scroll == a.scroll
    &&& b.limit == a.limit
    &&& b.adult == a.adult
    &&& b.notice == a.notice
    &&& b.page == a.page
}

pub open spec fn is_quit_key(k: KeyPress) -> bool {
    k.code == Key::Char('c') && k.ctrl
}

/// A key on the search page.
pub open spec fn search_key(a: App, b: App, k: KeyPress, act: Action) -> bool {
    match k.code {
        Key::Esc => act is Quit && same(a, b),
        Key::F(2) => act is Nothing && b.adult == !a.adult && b.page == a.page && b.notice == a.notice
            && b.query == a.query && b.results == a.results && b.selection == a.selection && b.fields
            == a.fields && b.focus == a.focus && b.pasted == a.pasted && b.paste_backup
            == a.paste_backup && b.report == a.report && b.scroll == a.scroll && b.limit == a.limit,
        Key::F(3) => act is Nothing && b.limit == next_limit(a.limit) && b.page == a.page && b.notice
            == a.notice && b.query == a.query && b.results == a.results && b.selection == a.selection
            && b.fields == a.fields && b.focus == a.focus && b.pasted == a.pasted && b.paste_backup
            == a.paste_backup && b.report == a.report && b.scroll == a.scroll && b.adult == a.adult,
        Key::Enter => act is Search && same(a, b),
        _ => act is Nothing && b.query@ == spec_edit(a.query@, k) && b.page == a.page && b.notice
            == a.notice && b.results == a.results && b.selection == a.selection && b.fields == a.fields
            && b.focus == a.focus && b.pasted == a.pasted && b.paste_backup == a.paste_backup
            && b.report == a.report && b.scroll == a.scroll && b.limit == a.limit && b.adult == a.adult,
    }
}

/// A key on the results page.
pub open spec fn results_key(a: App, b: App, k: KeyPress, act: Action) -> bool {
    &&& act is Nothing
    &&& match k.code {
        Key::Esc => b.page == Page::Search && b.notice@.len() == 0 && same_data(a, b),
        Key::Down if a.results@.len() > 0 => {
            let next = match a.selection {
                Some(i) => i + 1,
                None => 1,
            };
            &&& b.selection == Some(
                (if next < a.results@.len() {
                    next
                } else {
                    a.results@.len() - 1
                }) as usize,
            )
            &&& b.page == a.page && b.notice == a.notice && b.query == a.query && b.results
                == a.results && b.fields == a.fields && b.focus == a.focus && b.pasted == a.pasted
                && b.paste_backup == a.paste_backup && b.report == a.report && b.scroll == a.scroll
                && b.limit == a.limit && b.adult == a.adult
        },
        Key::Up => {
            &&& b.selection == match a.selection {
                Some(i) => Some((if i > 0 { i - 1 } else { 0 }) as usize),
                None => None,
            }
            &&& b.page == a.page && b.notice == a.notice && b.query == a.query && b.results
                == a.results && b.fields == a.fields && b.focus == a.focus && b.pasted == a.pasted
                && b.paste_backup == a.paste_backup && b.report == a.report && b.scroll == a.scroll
                && b.limit == a.limit && b.adult == a.adult
        },
        Key::Enter if a.selected_index() is Some => {
            &&& b.page == Page::Configure
            &&& b.notice@.len() == 0
            &&& b.pasted@.len() == 0
            &&& fields_but(a.fields@, b.fields@, 7, Seq::empty())
            &&& b.query == a.query && b.results == a.results && b.selection == a.selection && b.focus
                == a.focus && b.paste_backup == a.paste_backup && b.report == a.report && b.scroll
                == a.scroll && b.limit == a.limit && b.adult == a.adult
        },
        _ => same(a, b),
    }
}

/// A key on the settings page.
pub open spec fn configure_key(a: App, b: App, k: KeyPress, act: Action) -> bool {
    if (k.code == Key::Char(' ') || k.code == Key::Enter) && a.focus == 8 {
        &&& act is Nothing
        &&& fields_but(
            a.fields@,
            b.fields@,
            8,
            if a.fields@[8]@ == "video"@ {
                "m3u8"@
            } else {
                "video"@
            },
        )
        &&& same_but_edit(a, b) && b.pasted == a.pasted
    } else {
        match k.code {
            Key::Esc => act is Nothing && b.page == Page::Results && b.notice == a.notice && same_data(
                a,
                b,
            ),
            Key::Tab | Key::Down => act is Nothing && b.focus == (a.focus + 1) % 9 && b.page == a.page
                && b.notice == a.notice && b.query == a.query && b.results == a.results && b.selection
                == a.selection && b.fields == a.fields && b.pasted == a.pasted && b.paste_backup
                == a.paste_backup && b.report == a.report && b.scroll == a.scroll && b.limit == a.limit
                && b.adult == a.adult,
            Key::BackTab | Key::Up => act is Nothing && b.focus == (a.focus + 8) % 9 && b.page
                == a.page && b.notice == a.notice && b.query == a.query && b.results == a.results
                && b.selection == a.selection && b.fields == a.fields && b.pasted == a.pasted
                && b.paste_backup == a.paste_backup && b.report == a.report && b.scroll == a.scroll
                && b.limit == a.limit && b.adult == a.adult,
            Key::F(2) => act is Nothing && b.paste_backup == a.pasted && b.page == Page::Paste
                && b.notice@.len() == 0 && b.query == a.query && b.results == a.results && b.selection
                == a.selection && b.fields == a.fields && b.focus == a.focus && b.pasted == a.pasted
                && b.report == a.report && b.scroll == a.scroll && b.limit == a.limit && b.adult
                == a.adult,
            Key::F(4) | Key::F(5) => match a.spec_plan_error() {
                Some(m) => act is Nothing && b.notice@ == m && b.page == a.page && same_data(a, b),
                None => act matches Action::Run { plan, inspect } && inspect == (k.code == Key::F(4))
                    && a.plan_fits(plan) && same(a, b),
            },
            _ => if a.focus == 8 {
                act is Nothing && same(a, b)
            } else {
                &&& act is Nothing
                &&& fields_but(a.fields@, b.fields@, a.focus as int, spec_edit(a.fields@[a.focus as int]@, k))
                &&& same_but_edit(a, b)
                &&& b.pasted@ == if a.focus == 7 {
                    Seq::empty()
                } else {
                    a.pasted@
                }
            },
        }
    }
}

/// A key on the paste page.
pub open spec fn paste_key(a: App, b: App, k: KeyPress, act: Action) -> bool {
    match k.code {
        Key::Esc => act is Nothing && b.pasted == a.paste_backup && b.page == Page::Configure && b.notice
            == a.notice && b.query == a.query && b.results == a.results && b.selection == a.selection
            && b.fields == a.fields && b.focus == a.focus && b.paste_backup == a.paste_backup && b.report
            == a.report && b.scroll == a.scroll && b.limit == a.limit && b.adult == a.adult,
        Key::F(2) => act is CheckPaste && same(a, b),
        _ => {
            &&& act is Nothing
            &&& b.pasted@ == if k.code == Key::Enter {
                a.pasted@.push('\n')
            } else {
                spec_edit(a.pasted@, k)
            }
            &&& b.page == a.page && b.notice == a.notice && b.query == a.query && b.results == a.results
                && b.selection == a.selection && b.fields == a.fields && b.focus == a.focus
                && b.paste_backup == a.paste_backup && b.report == a.report && b.scroll == a.scroll
                && b.limit == a.limit && b.adult == a.adult
        },
    }
}

pub open spec fn sat_add(x: u16, d: u16) -> u16 {
    if x + d > u16::MAX {
        u16::MAX
    } else {
        (x + d) as u16
    }
}

pub open spec fn sat_sub(x: u16, d: u16) -> u16 {
    if x < d {
        0
    } else {
        (x - d) as u16
    }
}

/// A key on the report page.
pub open spec fn report_key(a: App, b: App, k: KeyPress, act: Action) -> bool {
    &&& act is Nothing
    &&& match k.code {
        Key::Enter | Key::Esc => b.page == Page::Configure && b.notice@.len() == 0 && same_data(a, b),
        Key::Char('/') => b.page == Page::Search && b.notice == a.notice && same_data(a, b),
        Key::Down | Key::Up | Key::PageDown | Key::PageUp => {
            &&& b.scroll == match k.code {
                Key::Down => sat_add(a.scroll, 1),
                Key::Up => sat_sub(a.scroll, 1),
                Key::PageDown => sat_add(a.scroll, 10),
                _ => sat_sub(a.scroll, 10),
            }
            &&& b.page == a.page && b.notice == a.notice && b.query == a.query && b.results == a.results
                && b.selection == a.selection && b.fields == a.fields && b.focus == a.focus && b.pasted
                == a.pasted && b.paste_backup == a.paste_backup && b.report == a.report && b.limit
                == a.limit && b.adult == a.adult
        },
        _ => same(a, b),
    }
}

/// What a key press does to the session.
pub open spec fn spec_key(a: App, b: App, k: KeyPress, act: Action) -> bool {
    if is_quit_key(k) {
        act is Quit && same(a, b)
    } else {
        match a.page {
            Page::Search => search_key(a, b, k, act),
            Page::Results => results_key(a, b, k, act),
            Page::Configure => configure_key(a, b, k, act),
            Page::Paste => paste_key(a, b, k, act),
            Page::Report => report_key(a, b, k, act),
        }
    }
}

fn sat_add16(x: u16, d: u16) -> (r: u16)
    ensures
        r == sat_add(x, d),
{
    if x > u16::MAX - d {
        u16::MAX
    } else {
        x + d
    }
}

fn sat_sub16(x: u16, d: u16) -> (r: u16)
    ensures
        r == sat_sub(x, d),
{
    if x < d {
        0
    } else {
        x - d
    }
}

impl App {
    /// A fresh session on the search page, with the default settings.
    pub fn new() -> (a: App)
        ensures
            a.wf(),
            a.page == Page::Search,
            a.query@.len() == 0,
            a.results@.len() == 0,
            a.selection is None,
            a.fields@[0]@ == "1"@,
            a.fields@[1]@ == "sub"@,
            a.fields@[2]@ == "beep"@,
            a.fields@[3]@ == "best"@,
            a.fields@[4]@ == "./downloads"@,
            a.fields@[5]@ == "3"@,
            a.fields@[6]@ == "ffmpeg"@,
            a.fields@[7]@.len() == 0,
            a.fields@[8]@ == "video"@,
            a.focus == 0,
            a.notice@.len() == 0,
            a.pasted@.len() == 0,
            a.paste_backup@.len() == 0,
            a.report@.len() == 0,
            a.scroll == 0,
            a.limit == 10,
            !a.adult,
    {
        let mut fields: Vec<String> = Vec::new();
        fields.push(owned("1"));
        fields.push(owned("sub"));
        fields.push(owned("beep"));
        fields.push(owned("best"));
        fields.push(owned("./downloads"));
        fields.push(owned("3"));
        fields.push(owned("ffmpeg"));
        fields.push(String::new());
        fields.push(owned("video"));
        App {
            page: Page::Search,
            query: String::new(),
            results: Vec::new(),
            selection: None,
            fields,
            focus: 0,
            notice: String::new(),
            pasted: String::new(),
            paste_backup: String::new(),
            report: String::new(),
            scroll: 0,
            limit: 10,
            adult: false,
        }
    }

    /// The highlighted result.
    pub fn selected(&self) -> (r: Option<&AnimeSearchResult>)
        ensures
            match r {
                Some(x) => self.selected_index() matches Some(i) && *x == self.results@[i],
                None => self.selected_index() is None,
            },
    {
        match self.selection {
            Some(i) => if i < self.results.len() {
                Some(&self.results[i])
            } else {
                None
            },
            None => None,
        }
    }

    /// Shows a report from its top.
    pub fn show_report(&mut self, report: String)
        requires
            old(self).wf(),
        ensures
            final(self).wf(),
            final(self).report == report,
            final(self).scroll == 0,
            final(self).page == Page::Report,
            final(self).notice == old(self).notice,
            final(self).query == old(self).query,
            final(self).results == old(self).results,
            final(self).selection == old(self).selection,
            final(self).fields == old(self).fields,
            final(self).focus == old(self).focus,
            final(self).pasted == old(self).pasted,
            final(self).paste_backup == old(self).paste_backup,
            final(self).limit == old(self).limit,
            final(self).adult == old(self).adult,
    {
        self.report = report;
        self.scroll = 0;
        self.page = Page::Report;
    }

    /// Replaces field `i` by `v`.
    fn set_field(&mut self, i: usize, v: String)
        requires
            old(self).wf(),
            i < 9,
        ensures
            final(self).wf(),
            fields_but(old(self).fields@, final(self).fields@, i as int, v@),
            same_but_edit(*old(self), *final(self)),
            final(self).pasted == old(self).pasted,
    {
        self.fields.set(i, v);
    }

    /// Reacts to a key press.
    pub fn on_key(&mut self, k: KeyPress) -> (act: Action)
        requires
            old(self).wf(),
        ensures
            final(self).wf(),
            spec_key(*old(self), *final(self), k, act),
    {
        if k.code == Key::Char('c') && k.ctrl {
            return Action::Quit;
        }
        match self.page {
            Page::Search => self.key_search(k),
            Page::Results => self.key_results(k),
            Page::Configure => self.key_configure(k),
            Page::Paste => self.key_paste(k),
            Page::Report => self.key_report(k),
        }
    }

    fn key_search(&mut self, k: KeyPress) -> (act: Action)
        requires
            old(self).wf(),
        ensures
            final(self).wf(),
            search_key(*old(self), *final(self), k, act),
    {
        match k.code {
            Key::Esc => Action::Quit,
            Key::F(2) => {
                self.adult = !self.adult;
                Action::Nothing
            },
            Key::F(3) => {
                self.limit = if self.limit == 10 {
                    25
                } else if self.limit == 25 {
                    50
                } else {
                    10
                };
                Action::Nothing
            },
            Key::Enter => Action::Search,
            _ => {
                edit(&mut self.query, k);
                Action::Nothing
            },
        }
    }

    fn key_results(&mut self, k: KeyPress) -> (act: Action)
        requires
            old(self).wf(),
        ensures
            final(self).wf(),
            results_key(*old(self), *final(self), k, act),
    {
        if k.code == Key::Esc {
            self.page = Page::Search;
            self.notice = String::new();
        } else if k.code == Key::Down && self.results.len() > 0 {
            let next = match self.selection {
                Some(i) => i + 1,
                None => 1,
            };
            let last = self.results.len() - 1;
            self.selection = Some(
                if next < self.results.len() {
                    next
                } else {
                    last
                },
            );
        } else if k.code == Key::Up {
            self.selection = match self.selection {
                Some(i) => Some(
                    if i > 0 {
                        i - 1
                    } else {
                        0
                    },
                ),
                None => None,
            };
        } else if k.code == Key::Enter && self.selected().is_some() {
            self.page = Page::Configure;
            self.pasted = String::new();
            self.set_field(7, String::new());
            self.notice = String::new();
        }
        Action::Nothing
    }

    fn key_configure(&mut self, k: KeyPress) -> (act: Action)
        requires
            old(self).wf(),
        ensures
            final(self).wf(),
            configure_key(*old(self), *final(self), k, act),
    {
        if (k.code == Key::Char(' ') || k.code == Key::Enter) && self.focus == 8 {
            let v = if str_eq(self.fields[8].as_str(), "video") {
                owned("m3u8")
            } else {
                owned("video")
            };
            self.set_field(8, v);
            return Action::Nothing;
        }
        match k.code {
            Key::Esc => {
                self.page = Page::Results;
                Action::Nothing
            },
            Key::Tab | Key::Down => {
                self.focus = (self.focus + 1) % 9;
                Action::Nothing
            },
            Key::BackTab | Key::Up => {
                self.focus = (self.focus + 8) % 9;
                Action::Nothing
            },
            Key::F(2) => {
                self.paste_backup = self.pasted.clone();
                self.page = Page::Paste;
                self.notice = String::new();
                Action::Nothing
            },
            Key::F(4) | Key::F(5) => match self.plan() {
                Err(m) => {
                    self.notice = m;
                    Action::Nothing
                },
                Ok(plan) => Action::Run { plan, inspect: k.code == Key::F(4) },
            },
            _ => {
                if self.focus == 8 {
                    return Action::Nothing;
                }
                if self.focus == 7 {
                    self.pasted = String::new();
                }
                let focus = self.focus;
                let mut t = self.fields[focus].clone();
                edit(&mut t, k);
                self.set_field(focus, t);
                Action::Nothing
            },
        }
    }

    fn key_paste(&mut self, k: KeyPress) -> (act: Action)
        requires
            old(self).wf(),
        ensures
            final(self).wf(),
            paste_key(*old(self), *final(self), k, act),
    {
        match k.code {
            Key::Esc => {
                self.pasted = self.paste_backup.clone();
                self.page = Page::Configure;
                Action::Nothing
            },
            Key::F(2) => Action::CheckPaste,
            Key::Enter => {
                push_char(&mut self.pasted, '\n');
                Action::Nothing
            },
            _ => {
                edit(&mut self.pasted, k);
                Action::Nothing
            },
        }
    }

    fn key_report(&mut self, k: KeyPress) -> (act: Action)
        requires
            old(self).wf(),
        ensures
            final(self).wf(),
            report_key(*old(self), *final(self), k, act),
    {
        match k.code {
            Key::Enter | Key::Esc => {
                self.page = Page::Configure;
                self.notice = String::new();
            },
            Key::Char('/') => {
                self.page = Page::Search;
            },
            Key::Down => {
                self.scroll = sat_add16(self.scroll, 1);
            },
            Key::Up => {
                self.scroll = sat_sub16(self.scroll, 1);
            },
            Key::PageDown => {
                self.scroll = sat_add16(self.scroll, 10);
            },
            Key::PageUp => {
                self.scroll = sat_sub16(self.scroll, 10);
            },
            _ => {},
        }
        Action::Nothing
    }
}

pub open spec fn msg_search_cancelled() -> Seq<char> {
    "Búsqueda cancelada"@
}

pub open spec fn msg_cancelled() -> Seq<char> {
    "Operación cancelada. Los episodios ya publicados se conservan.\nPuedes ajustar la configuración y volver a intentar."@
}

pub open spec fn msg_failed_hint() -> Seq<char> {
    "\n\nEnter: volver a la configuración. Si tienes una respuesta autorizada, pégala con F2."@
}

pub open spec fn msg_json_ready() -> Seq<char> {
    "JSON listo. Indica el episodio correcto y pulsa F5."@
}

/// The report of a finished operation.
pub open spec fn report_text(o: OperationOutcome) -> Seq<char> {
    match o {
        OperationOutcome::Done(s) => s@,
        OperationOutcome::Cancelled => msg_cancelled(),
        OperationOutcome::Failed(m) => m@ + msg_failed_hint(),
    }
}

impl App {
    /// Pasted text: typed into the query or the focused field without control
    /// chars, or appended as it is to the JSON being pasted.
    pub fn on_paste(&mut self, text: &str)
        requires
            old(self).wf(),
        ensures
            final(self).wf(),
            match old(self).page {
                Page::Search => final(self).query@ == old(self).query@ + spec_clean(text@) && same_but_query(
                    *old(self),
                    *final(self),
                ),
                Page::Configure => fields_but(
                    old(self).fields@,
                    final(self).fields@,
                    old(self).focus as int,
                    old(self).fields@[old(self).focus as int]@ + spec_clean(text@),
                ) && same_but_edit(*old(self), *final(self)) && final(self).pasted@ == (if old(self).focus == 7 {
                    Seq::empty()
                } else {
                    old(self).pasted@
                }),
                Page::Paste => final(self).pasted@ == old(self).pasted@ + text@ && same_but_edit(
                    *old(self),
                    *final(self),
                ) && final(self).fields == old(self).fields,
                _ => same(*old(self), *final(self)),
            },
    {
        match self.page {
            Page::Search => {
                let c = clean(text);
                push_str(&mut self.query, c.as_str());
            },
            Page::Configure => {
                if self.focus == 7 {
                    self.pasted = String::new();
                }
                let focus = self.focus;
                let mut t = self.fields[focus].clone();
                let c = clean(text);
                push_str(&mut t, c.as_str());
                self.set_field(focus, t);
            },
            Page::Paste => {
                push_str(&mut self.pasted, text);
            },
            _ => {},
        }
    }

    /// The end of a search.
    pub fn search_finished(&mut self, o: SearchOutcome)
        requires
            old(self).wf(),
        ensures
            final(self).wf(),
            match o {
                SearchOutcome::Found(items) => {
                    &&& final(self).results == items
                    &&& final(self).selection == (if items@.len() > 0 {
                        Some(0usize)
                    } else {
                        None
                    })
                    &&& final(self).page == Page::Results
                    &&& final(self).notice@.len() == 0
                },
                SearchOutcome::Cancelled => final(self).notice@ == msg_search_cancelled() && final(self).page == old(self).page && same_data(*old(self), *final(self)),
                SearchOutcome::Failed(m) => final(self).notice == m && final(self).page == old(self).page && same_data(*old(self), *final(self)),
            },
            final(self).query == old(self).query,
            final(self).fields == old(self).fields,
            final(self).focus == old(self).focus,
            final(self).pasted == old(self).pasted,
            final(self).limit == old(self).limit,
            final(self).adult == old(self).adult,
    {
        match o {
            SearchOutcome::Found(items) => {
                let n = items.len();
                self.results = items;
                self.selection = if n > 0 {
                    Some(0)
                } else {
                    None
                };
                self.page = Page::Results;
                self.notice = String::new();
            },
            SearchOutcome::Cancelled => {
                self.notice = owned("Búsqueda cancelada");
            },
            SearchOutcome::Failed(m) => {
                self.notice = m;
            },
        }
    }

    /// The end of an inspection or a download: its report is shown.
    pub fn operation_finished(&mut self, o: OperationOutcome)
        requires
            old(self).wf(),
        ensures
            final(self).wf(),
            final(self).report@ == report_text(o),
            final(self).scroll == 0,
            final(self).page == Page::Report,
            final(self).notice == old(self).notice,
            final(self).query == old(self).query,
            final(self).results == old(self).results,
            final(self).selection == old(self).selection,
            final(self).fields == old(self).fields,
            final(self).focus == old(self).focus,
            final(self).pasted == old(self).pasted,
            final(self).paste_backup == old(self).paste_backup,
            final(self).limit == old(self).limit,
            final(self).adult == old(self).adult,
    {
        let text = match o {
            OperationOutcome::Done(s) => s,
            OperationOutcome::Cancelled => owned(
                "Operación cancelada. Los episodios ya publicados se conservan.\nPuedes ajustar la configuración y volver a intentar.",
            ),
            OperationOutcome::Failed(m) => {
                let mut t = m;
                push_str(
                    &mut t,
                    "\n\nEnter: volver a la configuración. Si tienes una respuesta autorizada, pégala con F2.",
                );
                t
            },
        };
        self.show_report(text);
    }

    /// The check of pasted JSON: accepted JSON replaces the JSON file setting.
    pub fn paste_checked(&mut self, r: Result<(), String>)
        requires
            old(self).wf(),
        ensures
            final(self).wf(),
            match r {
                Ok(_) => fields_but(old(self).fields@, final(self).fields@, 7, Seq::empty())
                    && final(self).page == Page::Configure && final(self).notice@ == msg_json_ready(),
                Err(m) => final(self).notice == m && final(self).page == old(self).page
                    && final(self).fields == old(self).fields,
            },
            final(self).query == old(self).query,
            final(self).results == old(self).results,
            final(self).selection == old(self).selection,
            final(self).focus == old(self).focus,
            final(self).pasted == old(self).pasted,
            final(self).paste_backup == old(self).paste_backup,
            final(self).report == old(self).report,
            final(self).scroll == old(self).scroll,
            final(self).limit == old(self).limit,
            final(self).adult == old(self).adult,
    {
        match r {
            Ok(_) => {
                self.set_field(7, String::new());
                self.page = Page::Configure;
                self.notice = owned("JSON listo. Indica el episodio correcto y pulsa F5.");
            },
            Err(m) => {
                self.notice = m;
            },
        }
    }
}

impl Plan {
    /// Where a saved response comes from: pasted text first, then a file,
    /// else the source API.
    pub fn saved_source(&self) -> (r: SavedSource)
        ensures
            match r {
                SavedSource::Pasted(t) => trim(self.pasted@).len() > 0 && t == self.pasted,
                SavedSource::File(p) => trim(self.pasted@).len() == 0 && self.source.source_json
                    == Some(p),
                SavedSource::Api => trim(self.pasted@).len() == 0 && self.source.source_json is None,
            },
    {
        let t = trimmed(&self.pasted);
        if chars_of(t.as_str()).len() > 0 {
            SavedSource::Pasted(self.pasted.clone())
        } else {
            match &self.source.source_json {
                Some(p) => SavedSource::File(p.clone()),
                None => SavedSource::Api,
            }
        }
    }

    /// The episode that a saved response answers for: the first one.
    pub fn first_episode(&self) -> (r: Option<u32>)
        ensures
            r == (if self.episodes@.len() > 0 {
                Some(self.episodes@[0])
            } else {
                None
            }),
    {
        if self.episodes.len() > 0 {
            Some(self.episodes[0])
        } else {
            None
        }
    }
}

/// Whether a key cancels a running operation: Esc, Ctrl-C, and `q` while
/// downloads run.
pub open spec fn spec_cancels(k: KeyPress, downloads: bool) -> bool {
    k.code == Key::Esc || (downloads && k.code == Key::Char('q')) || (k.code == Key::Char('c')
        && k.ctrl)
}

pub fn cancels(k: KeyPress, downloads: bool) -> (r: bool)
    ensures
        r == spec_cancels(k, downloads),
{
    k.code == Key::Esc || (downloads && k.code == Key::Char('q')) || (k.code == Key::Char('c')
        && k.ctrl)
}

// ---------------------------------------------------------------------------
// Reports
// ---------------------------------------------------------------------------

/// The report line of one episode.
pub open spec fn episode_line_text(n: u32, r: Result<(), String>) -> Seq<char> {
    match r {
        Ok(_) => "Episodio "@ + decimal(n as nat) + ": completo u omitido"@,
        Err(e) => "Episodio "@ + decimal(n as nat) + ": "@ + e@,
    }
}

pub fn episode_line(n: u32, r: &Result<(), String>) -> (s: String)
    ensures
        s@ == episode_line_text(n, *r),
{
    let mut s = owned("Episodio ");
    push_decimal(&mut s, n as u64);
    match r {
        Ok(_) => push_str(&mut s, ": completo u omitido"),
        Err(e) => {
            push_str(&mut s, ": ");
            push_str(&mut s, e.as_str());
        },
    }
    s
}

pub open spec fn msg_denied_hint() -> Seq<char> {
    "\n\nEl proveedor denegó el acceso. Vuelve con Enter y usa F2 para pegar una respuesta JSON autorizada, o indica su archivo. Se admite un episodio por respuesta."@
}

/// The report of a download run: the folder, then the episode lines; a 403
/// anywhere adds the hint to paste an authorized response.
pub open spec fn spec_report(folder: Seq<char>, lines: Seq<Seq<char>>) -> Seq<char> {
    let base = "Carpeta: "@ + folder + "\n\n"@ + join(lines, "\n\n"@);
    if find_sub(base, "403"@) is Some {
        base + msg_denied_hint()
    } else {
        base
    }
}

pub fn execution_report(folder: &str, lines: &Vec<String>) -> (r: String)
    ensures
        r@ == spec_report(folder@, lines@.map_values(|s: String| s@)),
{
    let mut r = owned("Carpeta: ");
    push_str(&mut r, folder);
    push_str(&mut r, "\n\n");
    push_joined(&mut r, lines, "\n\n", false);
    let v = chars_of(r.as_str());
    let pat = chars_of("403");
    assert(v@.subrange(0, v@.len() as int) == v@);
    if span_find_sub(&v, 0, v.len(), &pat).is_some() {
        push_str(
            &mut r,
            "\n\nEl proveedor denegó el acceso. Vuelve con Enter y usa F2 para pegar una respuesta JSON autorizada, o indica su archivo. Se admite un episodio por respuesta.",
        );
    }
    r
}


// ---------------------------------------------------------------------------
// Laws
// ---------------------------------------------------------------------------

/// A plan that uses a saved response (a JSON file or pasted JSON) has exactly
/// one episode: one response answers for one episode.
pub proof fn lemma_saved_plan_has_one_episode(a: App, p: Plan)
    requires
        a.wf(),
        a.spec_plan_error() is None,
        a.plan_fits(p),
        trim(a.fields@[7]@).len() > 0 || trim(a.pasted@).len() > 0,
    ensures
        p.episodes@.len() == 1,
{
    crate::cli::lemma_increasing_len(p.episodes@);
}

/// Opening the paste editor and leaving it with Esc keeps the pasted JSON and
/// the settings as they were, and returns to the settings.
pub proof fn lemma_paste_escape_restores(
    a: App,
    b: App,
    c: App,
    k1: KeyPress,
    k2: KeyPress,
    act1: Action,
    act2: Action,
)
    requires
        a.page == Page::Configure,
        k1.code == Key::F(2),
        k2.code == Key::Esc,
        spec_key(a, b, k1, act1),
        spec_key(b, c, k2, act2),
    ensures
        c.pasted == a.pasted,
        c.fields == a.fields,
        c.focus == a.focus,
        c.page == Page::Configure,
{
}

/// F3 cycles the result limit through 10, 25 and 50.
pub proof fn lemma_limit_cycles(l: usize)
    ensures
        next_limit(l) == 10 || next_limit(l) == 25 || next_limit(l) == 50,
        (l == 10 || l == 25 || l == 50) ==> next_limit(next_limit(next_limit(l))) == l,
{
}

/// Toggling the format twice on the settings page restores it, whichever of
/// `video` and `m3u8` it was.
pub proof fn lemma_format_toggle_twice(a: App, b: App, c: App, k1: KeyPress, k2: KeyPress, act1: Action, act2: Action)
    requires
        a.wf(),
        a.page == Page::Configure,
        a.focus == 8,
        a.fields@[8]@ == "video"@ || a.fields@[8]@ == "m3u8"@,
        k1.code == Key::Char(' ') || k1.code == Key::Enter,
        k2.code == Key::Char(' ') || k2.code == Key::Enter,
        spec_key(a, b, k1, act1),
        spec_key(b, c, k2, act2),
    ensures
        c.fields@.len() == a.fields@.len(),
        forall|i: int| 0 <= i < a.fields@.len() ==> (#[trigger] c.fields@[i])@ == a.fields@[i]@,
        c.page == Page::Configure,
{
    assert("video"@ != "m3u8"@) by {
        reveal_strlit("video");
        reveal_strlit("m3u8");
        assert("video"@.len() != "m3u8"@.len());
    }
}

} // verus!
