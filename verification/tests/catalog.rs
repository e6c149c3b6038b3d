use ani_rust::catalog::{
    check_search, clean, display_text, envelope, graphql_endpoint, search_items, AnimeSearchResult,
    CatalogAnime, CatalogError, GraphQlError, GraphQlResponse, SearchData,
};

fn item(id: &str) -> AnimeSearchResult {
    AnimeSearchResult {
        id: id.into(),
        anilist_id: None,
        mal_id: None,
        title_romaji: None,
        title_english: None,
        cover_image: None,
        banner_image: None,
        color: None,
        format: None,
        status: None,
        episode_count: None,
        season_year: None,
        season: None,
        genres: None,
    }
}

#[test]
fn nullable_metadata_and_internal_id() {
    let mut it = item("actual-internal-id");
    it.anilist_id = Some(20);
    it.title_romaji = Some("Example".into());
    let response = GraphQlResponse {
        data: Some(SearchData { catalog_anime: Some(CatalogAnime { items: vec![it] }) }),
        errors: vec![],
    };
    let item = search_items(envelope(response).unwrap()).unwrap().pop().unwrap();
    assert_eq!(item.id, "actual-internal-id");
    assert_eq!(item.anilist_id, Some(20));
    assert_eq!(item.episode_count, None);
}

#[test]
fn errors_without_data() {
    let response: GraphQlResponse<SearchData> = GraphQlResponse {
        data: None,
        errors: vec![GraphQlError { message: "bad query".into() }],
    };
    match envelope(response) {
        Err(CatalogError::GraphQl(m)) => assert_eq!(m, "bad query"),
        _ => panic!("expected the GraphQL error"),
    }
}

#[test]
fn envelope_joins_cleaned_errors() {
    let response: GraphQlResponse<SearchData> = GraphQlResponse {
        data: Some(SearchData { catalog_anime: None }),
        errors: vec![
            GraphQlError { message: "a\u{1b}b".into() },
            GraphQlError { message: "c".into() },
        ],
    };
    match envelope(response) {
        Err(CatalogError::GraphQl(m)) => assert_eq!(m, "ab; c"),
        _ => panic!("expected the GraphQL errors"),
    }
    let empty: GraphQlResponse<SearchData> = GraphQlResponse { data: None, errors: vec![] };
    assert!(matches!(envelope(empty), Err(CatalogError::NoData)));
    assert!(matches!(
        search_items(SearchData { catalog_anime: None }),
        Err(CatalogError::NullCatalog)
    ));
}

#[test]
fn search_checks() {
    assert!(check_search("naruto", 10).is_ok());
    assert!(matches!(check_search("  ", 10), Err(CatalogError::EmptyQuery)));
    assert!(matches!(check_search("x", 0), Err(CatalogError::LimitOutOfRange)));
    assert!(matches!(check_search("x", 101), Err(CatalogError::LimitOutOfRange)));
    assert!(check_search("x", 100).is_ok());
}

#[test]
fn endpoint_checks() {
    assert_eq!(
        graphql_endpoint("https://graphql.animex.one/graphql").unwrap(),
        "https://graphql.animex.one/graphql"
    );
    assert_eq!(graphql_endpoint("HTTP://Example.org").unwrap(), "http://example.org/");
    assert!(matches!(graphql_endpoint("ftp://example.org/"), Err(CatalogError::NotHttp)));
    assert!(matches!(graphql_endpoint("not a url"), Err(CatalogError::InvalidUrl)));
}

#[test]
fn listing_text() {
    assert_eq!(display_text(&vec![]), "No anime found.\n");
    let mut a = item("case-closed");
    a.title_english = Some(String::new());
    a.title_romaji = Some("Meitantei\u{1b} Conan".into());
    a.anilist_id = Some(235);
    a.mal_id = Some(-1);
    a.episode_count = Some(1147);
    a.season_year = Some(1996);
    a.format = Some("TV".into());
    a.genres = Some(vec!["Mystery".into(), "Comedy".into()]);
    let b = item("b\nid");
    assert_eq!(
        display_text(&vec![a, b]),
        "[1] Meitantei Conan\n    ID: case-closed\n    AniList: 235\n    MAL: -1\n    Episodes: 1147\n    Year: 1996\n    Format: TV\n    Genres: Mystery, Comedy\n\n[2] bid\n    ID: bid\n\n"
    );
    assert_eq!(clean("a\tb\u{9b}c"), "abc");
}
