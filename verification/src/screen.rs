//! The text that each screen of the session shows.
use vstd::prelude::*;
use crate::app::{spec_clean_lines, clean_lines, App, Page};
use crate::catalog::{
    clean, i32_opt, int_text, join, push_int, push_joined, spec_clean, AnimeSearchResult,
};
use crate::text::{chars_of, decimal, line_spans, lines, push_decimal, push_str};

verus! {

/// `sí` or `no`.
pub open spec fn yes_no(b: bool) -> Seq<char> {
    if b {
        "sí"@
    } else {
        "no"@
    }
}

/// The search form: the query, the result limit and the adult filter.
pub open spec fn spec_search_text(query: Seq<char>, limit: nat, adult: bool) -> Seq<char> {
    "Título: "@ + spec_clean(query) + "\n\nResultados: "@ + decimal(limit) + "   Incluir adultos: "@
        + yes_no(adult)
        + "\n\nEscribe un título y pulsa Enter.\nF2 cambia el filtro de adultos.\nF3 alterna entre 10, 25 y 50 resultados."@
}

/// The name of a result in the list: English title, else Romaji title, else id.
pub open spec fn list_title(r: AnimeSearchResult) -> Seq<char> {
    match r.title_english {
        Some(t) => t@,
        None => match r.title_romaji {
            Some(t) => t@,
            None => r.id@,
        },
    }
}

/// A number, or `?` when unknown.
pub open spec fn or_unknown(n: Option<i32>) -> Seq<char> {
    match i32_opt(n) {
        Some(v) => int_text(v),
        None => "?"@,
    }
}

/// A text, or `?` when unknown.
pub open spec fn text_or_unknown(s: Option<String>) -> Seq<char> {
    match s {
        Some(t) => t@,
        None => "?"@,
    }
}

/// The genres joined with `, `, or nothing.
pub open spec fn genres_or_empty(g: Option<Vec<String>>) -> Seq<char> {
    match g {
        Some(v) => join(v@.map_values(|s: String| s@), ", "@),
        None => seq![],
    }
}

/// The details of a result, before control chars are dropped.
pub open spec fn details_raw(r: AnimeSearchResult) -> Seq<char> {
    list_title(r) + "\n\nID: "@ + r.id@ + "\nEpisodios: "@ + or_unknown(r.episode_count) + "\nAño: "@
        + or_unknown(r.season_year) + "\nFormato: "@ + text_or_unknown(r.format) + "\nEstado: "@
        + text_or_unknown(r.status) + "\n\nGéneros: "@ + genres_or_empty(r.genres)
}

pub open spec fn msg_no_results() -> Seq<char> {
    "Sin resultados. Esc para otra búsqueda."@
}

/// The labels of the download settings, in field order.
pub open spec fn field_labels() -> Seq<Seq<char>> {
    seq![
        "Episodios (1,3,5-10)"@,
        "Idioma (sub/dub)"@,
        "Proveedor"@,
        "Calidad (best/720p)"@,
        "Carpeta de salida"@,
        "Descargas simultáneas (1-64)"@,
        "Programa ffmpeg"@,
        "Archivo JSON (opcional)"@,
        "Formato (Espacio: alternar)"@,
    ]
}

/// The line of setting `i`: its label and its value; pasted JSON stands in
/// for the JSON file.
pub open spec fn config_item(a: App, i: int) -> Seq<char> {
    field_labels()[i] + ": "@ + if i == 7 && a.pasted@.len() > 0 {
        "[JSON pegado]"@
    } else {
        spec_clean(a.fields@[i]@)
    }
}

/// The key help of each screen.
pub open spec fn spec_help(p: Page) -> Seq<char> {
    match p {
        Page::Search => "Enter: buscar · Esc: salir · Ctrl-U: borrar · F2: adultos · F3: límite"@,
        Page::Results => "↑/↓: seleccionar · Enter: configurar descarga · Esc: otra búsqueda"@,
        Page::Configure => "Tab/↑/↓: campo · Ctrl-U: borrar · F2: pegar JSON · F4: inspeccionar\nF5: descargar · Esc: volver a resultados"@,
        Page::Paste => "Pega JSON desde el portapapeles · F2: aplicar · Ctrl-U: borrar · Esc: volver"@,
        Page::Report => "↑/↓ o RePág/AvPág: desplazar · Enter/Esc: configuración · /: otra búsqueda"@,
    }
}

/// The screen of a running inspection or search.
pub open spec fn spec_wait_text(label: Seq<char>) -> Seq<char> {
    label + "\n\nProcesando…\nEsc: cancelar y volver"@
}

fn label(i: usize) -> (r: &'static str)
    requires
        i < 9,
    ensures
        r@ == field_labels()[i as int],
{
    if i == 0 {
        "Episodios (1,3,5-10)"
    } else if i == 1 {
        "Idioma (sub/dub)"
    } else if i == 2 {
        "Proveedor"
    } else if i == 3 {
        "Calidad (best/720p)"
    } else if i == 4 {
        "Carpeta de salida"
    } else if i == 5 {
        "Descargas simultáneas (1-64)"
    } else if i == 6 {
        "Programa ffmpeg"
    } else if i == 7 {
        "Archivo JSON (opcional)"
    } else {
        "Formato (Espacio: alternar)"
    }
}

fn push_opt_int(out: &mut String, n: Option<i32>)
    ensures
        final(out)@ == old(out)@ + or_unknown(n),
{
    match n {
        Some(v) => push_int(out, v as i64),
        None => push_str(out, "?"),
    }
}

fn push_opt_text(out: &mut String, s: &Option<String>)
    ensures
        final(out)@ == old(out)@ + text_or_unknown(*s),
{
    match s {
        Some(t) => push_str(out, t.as_str()),
        None => push_str(out, "?"),
    }
}

fn title_ref(r: &AnimeSearchResult) -> (t: &String)
    ensures
        t@ == list_title(*r),
{
    match &r.title_english {
        Some(t) => t,
        None => match &r.title_romaji {
            Some(t) => t,
            None => &r.id,
        },
    }
}

/// The key help of a screen.
pub fn help(p: Page) -> (r: &'static str)
    ensures
        r@ == spec_help(p),
{
    match p {
        Page::Search => "Enter: buscar · Esc: salir · Ctrl-U: borrar · F2: adultos · F3: límite",
        Page::Results => "↑/↓: seleccionar · Enter: configurar descarga · Esc: otra búsqueda",
        Page::Configure => "Tab/↑/↓: campo · Ctrl-U: borrar · F2: pegar JSON · F4: inspeccionar\nF5: descargar · Esc: volver a resultados",
        Page::Paste => "Pega JSON desde el portapapeles · F2: aplicar · Ctrl-U: borrar · Esc: volver",
        Page::Report => "↑/↓ o RePág/AvPág: desplazar · Enter/Esc: configuración · /: otra búsqueda",
    }
}

/// The screen of a running inspection or search.
pub fn wait_text(label: &str) -> (r: String)
    ensures
        r@ == spec_wait_text(label@),
{
    let mut r = String::new();
    push_str(&mut r, label);
    push_str(&mut r, "\n\nProcesando…\nEsc: cancelar y volver");
    r
}

impl App {
    /// The search form.
    pub fn search_text(&self) -> (r: String)
        ensures
            r@ == spec_search_text(self.query@, self.limit as nat, self.adult),
    {
        let mut r = String::new();
        push_str(&mut r, "Título: ");
        let q = clean(self.query.as_str());
        push_str(&mut r, q.as_str());
        push_str(&mut r, "\n\nResultados: ");
        push_decimal(&mut r, self.limit as u64);
        push_str(&mut r, "   Incluir adultos: ");
        push_str(&mut r, if self.adult { "sí" } else { "no" });
        push_str(
            &mut r,
            "\n\nEscribe un título y pulsa Enter.\nF2 cambia el filtro de adultos.\nF3 alterna entre 10, 25 y 50 resultados.",
        );
        r
    }

    /// The names of the results, in order, cleaned of control chars.
    pub fn result_titles(&self) -> (r: Vec<String>)
        ensures
            r@.len() == self.results@.len(),
            forall|i: int|
                0 <= i < r@.len() ==> (#[trigger] r@[i])@ == spec_clean(list_title(self.results@[i])),
    {
        let mut r: Vec<String> = Vec::new();
        let mut i: usize = 0;
        while i < self.results.len()
            invariant
                i <= self.results@.len(),
                r@.len() == i,
                forall|j: int|
                    0 <= j < i ==> (#[trigger] r@[j])@ == spec_clean(list_title(self.results@[j])),
            decreases self.results@.len() - i,
        {
            let t = title_ref(&self.results[i]);
            r.push(clean(t.as_str()));
            i = i + 1;
        }
        r
    }

    /// The details of the highlighted result.
    pub fn details_text(&self) -> (r: String)
        ensures
            r@ == spec_clean_lines(
                match self.selected_index() {
                    Some(i) => details_raw(self.results@[i]),
                    None => msg_no_results(),
                },
            ),
    {
        match self.selected() {
            None => clean_lines("Sin resultados. Esc para otra búsqueda."),
            Some(r) => {
                let mut t = String::new();
                push_str(&mut t, title_ref(r).as_str());
                push_str(&mut t, "\n\nID: ");
                push_str(&mut t, r.id.as_str());
                push_str(&mut t, "\nEpisodios: ");
                push_opt_int(&mut t, r.episode_count);
                push_str(&mut t, "\nAño: ");
                push_opt_int(&mut t, r.season_year);
                push_str(&mut t, "\nFormato: ");
                push_opt_text(&mut t, &r.format);
                push_str(&mut t, "\nEstado: ");
                push_opt_text(&mut t, &r.status);
                push_str(&mut t, "\n\nGéneros: ");
                match &r.genres {
                    Some(g) => push_joined(&mut t, g, ", ", false),
                    None => {},
                }
                assert(t@ == details_raw(*r));
                clean_lines(t.as_str())
            },
        }
    }

    /// The title of the settings: ` Descargar <id> `, with the id of the
    /// highlighted result, if any.
    pub fn config_title(&self) -> (r: String)
        ensures
            r@ == " Descargar "@ + match self.selected_index() {
                Some(i) => spec_clean(self.results@[i].id@),
                None => Seq::<char>::empty(),
            } + " "@,
    {
        let mut r = String::new();
        push_str(&mut r, " Descargar ");
        match self.selected() {
            Some(x) => {
                let c = clean(x.id.as_str());
                push_str(&mut r, c.as_str());
            },
            None => {},
        }
        push_str(&mut r, " ");
        r
    }

    /// The lines of the settings, in field order.
    pub fn config_items(&self) -> (r: Vec<String>)
        requires
            self.wf(),
        ensures
            r@.len() == 9,
            forall|i: int| 0 <= i < 9 ==> (#[trigger] r@[i])@ == config_item(*self, i),
    {
        let pasted = chars_of(self.pasted.as_str()).len() > 0;
        let mut r: Vec<String> = Vec::new();
        let mut i: usize = 0;
        while i < 9
            invariant
                i <= 9,
                self.wf(),
                pasted == (self.pasted@.len() > 0),
                r@.len() == i,
                forall|j: int| 0 <= j < i ==> (#[trigger] r@[j])@ == config_item(*self, j),
            decreases 9 - i,
        {
            let mut s = String::new();
            push_str(&mut s, label(i));
            push_str(&mut s, ": ");
            if i == 7 && pasted {
                push_str(&mut s, "[JSON pegado]");
            } else {
                let c = clean(self.fields[i].as_str());
                push_str(&mut s, c.as_str());
            }
            r.push(s);
            i = i + 1;
        }
        r
    }

    /// The bottom box: the key help of the screen, then the notice.
    pub fn footer_text(&self) -> (r: String)
        ensures
            r@ == spec_help(self.page) + "\n"@ + spec_clean(self.notice@),
    {
        let mut r = String::new();
        push_str(&mut r, help(self.page));
        push_str(&mut r, "\n");
        let n = clean(self.notice.as_str());
        push_str(&mut r, n.as_str());
        r
    }

    /// The first line of pasted text to show in a box of `height` rows (two
    /// of them borders), so that the last lines stay visible.
    pub fn paste_offset(&self, height: u16) -> (r: u16)
        ensures
            r == ({
                let inner: int = if height >= 2 { height - 2 } else { 0 };
                let over: int = if lines(self.pasted@).len() > inner {
                    lines(self.pasted@).len() - inner
                } else {
                    0
                };
                if over > u16::MAX { u16::MAX as int } else { over }
            }),
    {
        let v = chars_of(self.pasted.as_str());
        let n = line_spans(&v).len();
        let inner: usize = if height >= 2 { (height - 2) as usize } else { 0 };
        let over: usize = if n > inner { n - inner } else { 0 };
        if over > 65535 {
            u16::MAX
        } else {
            over as u16
        }
    }
}

} // verus!
