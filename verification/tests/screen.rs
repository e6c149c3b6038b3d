use ani_rust::app::{App, Page};
use ani_rust::catalog::AnimeSearchResult;
use ani_rust::screen::{help, wait_text};

fn anime() -> AnimeSearchResult {
    AnimeSearchResult {
        id: "case-closed-5j4se".into(),
        anilist_id: None,
        mal_id: None,
        title_romaji: Some("Meitantei Conan".into()),
        title_english: Some("Case Closed".into()),
        cover_image: Some("{\"large\":\"https://example.org/cover.jpg\"}".into()),
        banner_image: None,
        color: None,
        format: Some("TV".into()),
        status: Some("RELEASING".into()),
        episode_count: Some(1147),
        season_year: Some(1996),
        season: None,
        genres: Some(vec!["Mystery".into(), "Comedy".into()]),
    }
}

#[test]
fn search_form_text() {
    let mut a = App::new();
    a.query = "case\u{1b}closed".into();
    assert_eq!(
        a.search_text(),
        "Título: caseclosed\n\nResultados: 10   Incluir adultos: no\n\nEscribe un título y pulsa Enter.\nF2 cambia el filtro de adultos.\nF3 alterna entre 10, 25 y 50 resultados."
    );
    a.adult = true;
    a.limit = 25;
    assert!(a.search_text().contains("Resultados: 25   Incluir adultos: sí"));
}

#[test]
fn result_list_and_details() {
    let mut a = App::new();
    assert_eq!(a.details_text(), "Sin resultados. Esc para otra búsqueda.");
    let mut plain = anime();
    plain.title_english = None;
    plain.title_romaji = None;
    plain.episode_count = None;
    plain.format = None;
    plain.genres = None;
    a.results = vec![anime(), plain];
    a.selection = Some(0);
    assert_eq!(a.result_titles(), vec!["Case Closed", "case-closed-5j4se"]);
    assert_eq!(
        a.details_text(),
        "Case Closed\n\nID: case-closed-5j4se\nEpisodios: 1147\nAño: 1996\nFormato: TV\nEstado: RELEASING\n\nGéneros: Mystery, Comedy"
    );
    a.selection = Some(1);
    assert_eq!(
        a.details_text(),
        "case-closed-5j4se\n\nID: case-closed-5j4se\nEpisodios: ?\nAño: 1996\nFormato: ?\nEstado: RELEASING\n\nGéneros: "
    );
    assert_eq!(a.config_title(), " Descargar case-closed-5j4se ");
    a.selection = None;
    assert_eq!(a.config_title(), " Descargar  ");
}

#[test]
fn settings_lines() {
    let mut a = App::new();
    let items = a.config_items();
    assert_eq!(items.len(), 9);
    assert_eq!(items[0], "Episodios (1,3,5-10): 1");
    assert_eq!(items[5], "Descargas simultáneas (1-64): 3");
    assert_eq!(items[7], "Archivo JSON (opcional): ");
    assert_eq!(items[8], "Formato (Espacio: alternar): video");
    a.pasted = "{}".into();
    a.fields[7] = "x.json".into();
    assert_eq!(a.config_items()[7], "Archivo JSON (opcional): [JSON pegado]");
}

#[test]
fn footers_and_waiting() {
    let mut a = App::new();
    a.notice = "Búsqueda\u{7} cancelada".into();
    assert_eq!(
        a.footer_text(),
        "Enter: buscar · Esc: salir · Ctrl-U: borrar · F2: adultos · F3: límite\nBúsqueda cancelada"
    );
    assert_eq!(
        help(Page::Configure),
        "Tab/↑/↓: campo · Ctrl-U: borrar · F2: pegar JSON · F4: inspeccionar\nF5: descargar · Esc: volver a resultados"
    );
    assert_eq!(
        wait_text("Descargando"),
        "Descargando\n\nProcesando…\nEsc: cancelar y volver"
    );
}

#[test]
fn paste_view_follows_the_last_lines() {
    let mut a = App::new();
    a.pasted = "a\nb\nc\nd\ne\n".into();
    assert_eq!(a.paste_offset(5), 2);
    assert_eq!(a.paste_offset(10), 0);
    assert_eq!(a.paste_offset(1), 5);
    a.pasted = String::new();
    assert_eq!(a.paste_offset(0), 0);
}
