use ani_rust::tui::{header, rows, BarState};

fn bar(message: &str, position: u64, length: Option<u64>, finished: bool) -> BarState {
    BarState { message: message.into(), position, length, finished }
}

#[test]
fn download_screen_text() {
    let bars = vec![
        bar("Episodio 1: completo", 3, Some(3), true),
        bar("Episodio 2: descargando", 1, Some(4), false),
        bar("Episodio 3: en espera", 0, None, false),
    ];
    assert_eq!(header(&bars), "ani-rust  /  Descargas    1/3 finalizados");
    assert_eq!(
        rows(&bars),
        vec![
            "Episodio 2: descargando   1/4 segmentos",
            "Episodio 3: en espera   0/0 segmentos",
            "Episodio 1: completo   3/3 segmentos",
        ]
    );
    assert_eq!(header(&vec![]), "ani-rust  /  Descargas    0/0 finalizados");
}
