use ani_rust::app::{
    cancels, clean_lines, edit, episode_line, execution_report, Action, App, Key, KeyPress,
    OperationOutcome, Page, SavedSource, SearchOutcome,
};
use ani_rust::catalog::AnimeSearchResult;
use ani_rust::cli::Language;

fn fixture(id: &str, english: Option<&str>, romaji: Option<&str>) -> AnimeSearchResult {
    AnimeSearchResult {
        id: id.into(),
        anilist_id: None,
        mal_id: None,
        title_romaji: romaji.map(Into::into),
        title_english: english.map(Into::into),
        cover_image: None,
        banner_image: None,
        color: None,
        format: None,
        status: None,
        episode_count: None,
        season_year: None,
        season: None,
        genres: None,
    }
}

fn selected_app() -> App {
    let mut a = App::new();
    a.results = vec![fixture("internal-fixture", Some("Fixture"), None)];
    a.selection = Some(0);
    a
}

fn key(code: Key) -> KeyPress {
    KeyPress { code, ctrl: false, alt: false }
}

fn ctrl(c: char) -> KeyPress {
    KeyPress { code: Key::Char(c), ctrl: true, alt: false }
}

#[test]
fn plan_uses_internal_id_and_rejects_shared_json() {
    let mut a = selected_app();
    a.fields[0] = "1-3".into();
    assert_eq!(a.plan().unwrap().source.anime_id, "internal-fixture");
    a.pasted = "{}".into();
    assert!(a.plan().is_err());
    a.fields[0] = "2".into();
    assert!(a.plan().is_ok());
    a.fields[5] = "0".into();
    assert!(a.plan().is_err());
}

#[test]
fn plan_fields() {
    let mut a = selected_app();
    a.fields[0] = " 3,1 ".into();
    a.fields[1] = " dub ".into();
    a.fields[2] = " beep ".into();
    a.fields[3] = "720p".into();
    a.fields[4] = " \"./out dir\" ".into();
    a.fields[5] = "8".into();
    a.fields[6] = "\"/usr/bin/ffmpeg\"".into();
    a.fields[7] = " \"saved.json\" ".into();
    a.fields[8] = "m3u8".into();
    a.fields[0] = "4".into();
    let p = a.plan().unwrap();
    assert_eq!(p.episodes, vec![4]);
    assert_eq!(p.source.language, Language::Dub);
    assert_eq!(p.source.provider, "beep");
    assert_eq!(p.source.quality, "720p");
    assert_eq!(p.source.source_json.as_deref(), Some("saved.json"));
    assert!(p.source.playlist_only);
    assert_eq!(p.source.display_name.as_deref(), Some("Fixture"));
    assert_eq!(p.output, "./out dir");
    assert_eq!(p.ffmpeg, "/usr/bin/ffmpeg");
    assert_eq!(p.concurrency, 8);
    assert!(matches!(p.saved_source(), SavedSource::File(f) if f == "saved.json"));
    assert_eq!(p.first_episode(), Some(4));
}

#[test]
fn plan_messages() {
    let mut a = selected_app();
    a.fields[1] = "es".into();
    assert_eq!(a.plan().err().unwrap(), "El idioma debe ser sub o dub");
    a.fields[1] = "sub".into();
    a.fields[3] = "720pp".into();
    assert_eq!(a.plan().err().unwrap(), "Calidad inválida: usa best o 720p");
    a.fields[3] = "best".into();
    a.fields[5] = "x".into();
    assert_eq!(
        a.plan().err().unwrap(),
        "Concurrencia inválida: invalid digit found in string"
    );
    a.fields[5] = " ".into();
    assert_eq!(
        a.plan().err().unwrap(),
        "Concurrencia inválida: cannot parse integer from empty string"
    );
    a.fields[5] = "99999999999999999999999".into();
    assert_eq!(
        a.plan().err().unwrap(),
        "Concurrencia inválida: number too large to fit in target type"
    );
    a.fields[5] = "65".into();
    assert_eq!(a.plan().err().unwrap(), "Concurrencia permitida: 1-64");
    a.fields[5] = "3".into();
    a.fields[6] = " ".into();
    assert_eq!(a.plan().err().unwrap(), "Proveedor, carpeta y ffmpeg son obligatorios");
    a.fields[8] = "m3u8".into();
    assert!(a.plan().is_ok());
    a.fields[0] = "1-2".into();
    a.fields[7] = "x.json".into();
    assert_eq!(
        a.plan().err().unwrap(),
        "Una respuesta JSON corresponde a un solo episodio; indica un único número"
    );
    a.fields[0] = "0".into();
    assert_eq!(
        a.plan().err().unwrap(),
        "episodes must be positive, ascending, and bounded to 10000 per range"
    );
    let mut b = App::new();
    assert_eq!(b.plan().err().unwrap(), "Selecciona un anime");
    b.results = vec![fixture("id", None, Some("Romaji"))];
    b.selection = Some(0);
    let p = b.plan().unwrap();
    assert_eq!(p.source.display_name.as_deref(), Some("Romaji"));
    assert!(matches!(p.saved_source(), SavedSource::Api));
}

#[test]
fn new_app_defaults() {
    let a = App::new();
    assert_eq!(a.page, Page::Search);
    assert_eq!(
        a.fields,
        vec!["1", "sub", "beep", "best", "./downloads", "3", "ffmpeg", "", "video"]
    );
    assert_eq!((a.focus, a.limit, a.adult, a.scroll), (0, 10, false, 0));
}

#[test]
fn search_page_keys() {
    let mut a = App::new();
    assert!(matches!(a.on_key(key(Key::Char('n'))), Action::Nothing));
    a.on_key(key(Key::Char('a')));
    assert_eq!(a.query, "na");
    a.on_key(key(Key::Backspace));
    assert_eq!(a.query, "n");
    a.on_key(KeyPress { code: Key::Char('x'), ctrl: false, alt: true });
    assert_eq!(a.query, "n");
    a.on_key(ctrl('u'));
    assert_eq!(a.query, "");
    a.on_key(key(Key::F(2)));
    assert!(a.adult);
    a.on_key(key(Key::F(3)));
    assert_eq!(a.limit, 25);
    a.on_key(key(Key::F(3)));
    a.on_key(key(Key::F(3)));
    assert_eq!(a.limit, 10);
    assert!(matches!(a.on_key(key(Key::Enter)), Action::Search));
    assert!(matches!(a.on_key(key(Key::Esc)), Action::Quit));
    assert!(matches!(a.on_key(ctrl('c')), Action::Quit));
}

#[test]
fn search_outcomes() {
    let mut a = App::new();
    a.search_finished(SearchOutcome::Cancelled);
    assert_eq!(a.notice, "Búsqueda cancelada");
    assert_eq!(a.page, Page::Search);
    a.search_finished(SearchOutcome::Failed("boom".into()));
    assert_eq!(a.notice, "boom");
    a.search_finished(SearchOutcome::Found(vec![fixture("a", None, None), fixture("b", None, None)]));
    assert_eq!(a.page, Page::Results);
    assert_eq!(a.selection, Some(0));
    assert_eq!(a.notice, "");
    a.on_key(key(Key::Down));
    a.on_key(key(Key::Down));
    assert_eq!(a.selection, Some(1));
    a.on_key(key(Key::Up));
    a.on_key(key(Key::Up));
    assert_eq!(a.selection, Some(0));
    a.pasted = "old".into();
    a.on_key(key(Key::Enter));
    assert_eq!(a.page, Page::Configure);
    assert_eq!(a.pasted, "");
    a.on_key(key(Key::Esc));
    assert_eq!(a.page, Page::Results);
    a.on_key(key(Key::Esc));
    assert_eq!(a.page, Page::Search);
    a.search_finished(SearchOutcome::Found(vec![]));
    assert_eq!(a.selection, None);
    a.on_key(key(Key::Enter));
    assert_eq!(a.page, Page::Results);
}

#[test]
fn configure_page_keys() {
    let mut a = selected_app();
    a.page = Page::Configure;
    a.on_key(key(Key::BackTab));
    assert_eq!(a.focus, 8);
    a.on_key(key(Key::Char(' ')));
    assert_eq!(a.fields[8], "m3u8");
    a.on_key(key(Key::Enter));
    assert_eq!(a.fields[8], "video");
    a.on_key(key(Key::Char('x')));
    assert_eq!(a.fields[8], "video");
    a.on_key(key(Key::Tab));
    assert_eq!(a.focus, 0);
    a.on_key(key(Key::Char('0')));
    assert_eq!(a.fields[0], "10");
    a.on_key(key(Key::F(4)));
    a.on_key(key(Key::Up));
    a.on_key(key(Key::Up));
    assert_eq!(a.focus, 7);
    a.pasted = "{}".into();
    a.on_key(key(Key::Char('f')));
    assert_eq!(a.fields[7], "f");
    assert_eq!(a.pasted, "");
    a.fields[0] = "10-11".into();
    match a.on_key(key(Key::F(5))) {
        Action::Nothing => assert_eq!(
            a.notice,
            "Una respuesta JSON corresponde a un solo episodio; indica un único número"
        ),
        _ => panic!("expected the plan to be refused"),
    }
    a.fields[7] = String::new();
    a.fields[0] = "10".into();
    match a.on_key(key(Key::F(4))) {
        Action::Run { plan, inspect } => {
            assert!(inspect);
            assert_eq!(plan.episodes, vec![10]);
        }
        _ => panic!("expected a run"),
    }
    a.pasted = "p".into();
    a.on_key(key(Key::F(2)));
    assert_eq!(a.page, Page::Paste);
    assert_eq!(a.paste_backup, "p");
}

#[test]
fn paste_page_keys() {
    let mut a = selected_app();
    a.page = Page::Configure;
    a.on_key(key(Key::F(2)));
    a.on_paste("{\"sources\"");
    a.on_key(key(Key::Enter));
    assert_eq!(a.pasted, "{\"sources\"\n");
    assert!(matches!(a.on_key(key(Key::F(2))), Action::CheckPaste));
    a.paste_checked(Err("bad".into()));
    assert_eq!(a.notice, "bad");
    assert_eq!(a.page, Page::Paste);
    a.fields[7] = "f.json".into();
    a.paste_checked(Ok(()));
    assert_eq!(a.page, Page::Configure);
    assert_eq!(a.fields[7], "");
    assert_eq!(a.notice, "JSON listo. Indica el episodio correcto y pulsa F5.");
    a.on_key(key(Key::F(2)));
    a.on_paste("more");
    a.on_key(key(Key::Esc));
    assert_eq!(a.pasted, "{\"sources\"\n");
    assert_eq!(a.page, Page::Configure);
}

#[test]
fn paste_events_are_cleaned() {
    let mut a = App::new();
    a.on_paste("a\u{1b}[2Jb\n");
    assert_eq!(a.query, "a[2Jb");
    let mut c = selected_app();
    c.page = Page::Configure;
    c.focus = 7;
    c.pasted = "x".into();
    c.on_paste("f\t.json");
    assert_eq!(c.fields[7], "f.json");
    assert_eq!(c.pasted, "");
    c.page = Page::Report;
    c.on_paste("ignored");
    assert_eq!(c.fields[7], "f.json");
}

#[test]
fn report_page() {
    let mut a = selected_app();
    a.operation_finished(OperationOutcome::Cancelled);
    assert_eq!(a.page, Page::Report);
    assert_eq!(
        a.report,
        "Operación cancelada. Los episodios ya publicados se conservan.\nPuedes ajustar la configuración y volver a intentar."
    );
    a.on_key(key(Key::PageDown));
    a.on_key(key(Key::Down));
    assert_eq!(a.scroll, 11);
    a.on_key(key(Key::PageUp));
    a.on_key(key(Key::PageUp));
    assert_eq!(a.scroll, 0);
    a.on_key(key(Key::Char('/')));
    assert_eq!(a.page, Page::Search);
    a.operation_finished(OperationOutcome::Failed("denied".into()));
    assert_eq!(
        a.report,
        "denied\n\nEnter: volver a la configuración. Si tienes una respuesta autorizada, pégala con F2."
    );
    a.notice = "n".into();
    a.on_key(key(Key::Enter));
    assert_eq!(a.page, Page::Configure);
    assert_eq!(a.notice, "");
    a.operation_finished(OperationOutcome::Done("ok".into()));
    assert_eq!(a.report, "ok");
    a.scroll = u16::MAX;
    a.on_key(key(Key::Down));
    assert_eq!(a.scroll, u16::MAX);
}

#[test]
fn editing_and_cleaning() {
    let mut t = String::from("ab");
    edit(&mut t, KeyPress { code: Key::Char('c'), ctrl: false, alt: false });
    assert_eq!(t, "abc");
    edit(&mut t, KeyPress { code: Key::Char('v'), ctrl: true, alt: false });
    assert_eq!(t, "abc");
    edit(&mut t, KeyPress { code: Key::Tab, ctrl: false, alt: false });
    assert_eq!(t, "abc");
    let mut e = String::new();
    edit(&mut e, KeyPress { code: Key::Backspace, ctrl: false, alt: false });
    assert_eq!(e, "");
    assert_eq!(clean_lines("a\r\nb\u{7}"), "a\nb");
}

#[test]
fn cancel_keys() {
    assert!(cancels(key(Key::Esc), false));
    assert!(cancels(ctrl('c'), false));
    assert!(!cancels(key(Key::Char('q')), false));
    assert!(cancels(key(Key::Char('q')), true));
    assert!(!cancels(key(Key::Char('c')), true));
}

#[test]
fn reports_of_runs() {
    assert_eq!(episode_line(7, &Ok(())), "Episodio 7: completo u omitido");
    assert_eq!(episode_line(12, &Err("boom".into())), "Episodio 12: boom");
    let lines = vec!["Episodio 1: completo u omitido".to_string(), "Episodio 2: x".to_string()];
    assert_eq!(
        execution_report("/d", &lines),
        "Carpeta: /d\n\nEpisodio 1: completo u omitido\n\nEpisodio 2: x"
    );
    let denied = vec!["Episodio 1: HTTP status 403 Forbidden".to_string()];
    assert_eq!(
        execution_report("/d", &denied),
        "Carpeta: /d\n\nEpisodio 1: HTTP status 403 Forbidden\n\nEl proveedor denegó el acceso. Vuelve con Enter y usa F2 para pegar una respuesta JSON autorizada, o indica su archivo. Se admite un episodio por respuesta."
    );
}
