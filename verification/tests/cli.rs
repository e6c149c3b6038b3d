use ani_rust::cli::{episodes, quality, Language};

#[test]
fn ranges() {
    assert_eq!(episodes("1,3,5-7,3").unwrap(), vec![1, 3, 5, 6, 7]);
    for s in ["", "0", "4-2", "1-2-3", "1-99999999"] {
        assert!(episodes(s).is_err());
    }
}

#[test]
fn episode_lists_are_sorted_without_repeats() {
    assert_eq!(episodes("5-7, 1 ,6").unwrap(), vec![1, 5, 6, 7]);
    assert_eq!(episodes("3").unwrap(), vec![3]);
    assert_eq!(episodes("+2").unwrap(), vec![2]);
    assert_eq!(episodes("1-10000").unwrap().len(), 10000);
}

#[test]
fn episode_errors_name_the_problem() {
    assert_eq!(episodes("x").unwrap_err(), "invalid episode");
    assert_eq!(episodes("").unwrap_err(), "invalid episode");
    assert_eq!(episodes("1-x").unwrap_err(), "invalid range");
    assert_eq!(episodes("1-2-3").unwrap_err(), "invalid range");
    assert_eq!(
        episodes("0").unwrap_err(),
        "episodes must be positive, ascending, and bounded to 10000 per range"
    );
    assert_eq!(
        episodes("4-2").unwrap_err(),
        "episodes must be positive, ascending, and bounded to 10000 per range"
    );
    assert_eq!(
        episodes("1-10002").unwrap_err(),
        "episodes must be positive, ascending, and bounded to 10000 per range"
    );
    assert_eq!(
        episodes("1-10001").unwrap_err(),
        "maximum 10000 episodes per invocation"
    );
    assert_eq!(
        episodes("1-10000,20000").unwrap_err(),
        "maximum 10000 episodes per invocation"
    );
}

#[test]
fn quality_accepts_best_and_resolutions() {
    assert_eq!(quality("best").unwrap(), "best");
    assert_eq!(quality("720p").unwrap(), "720p");
    assert_eq!(quality("1080").unwrap(), "1080");
    assert_eq!(quality("720pp").unwrap(), "720pp");
    for s in ["0p", "p", "", "Best", "hd", "-1"] {
        assert_eq!(
            quality(s).unwrap_err(),
            "expected best or a resolution such as 720p"
        );
    }
}

#[test]
fn language_names() {
    assert_eq!(Language::Sub.to_string(), "sub");
    assert_eq!(Language::Dub.name(), "dub");
}

#[test]
fn parsed_lists_parse_back() {
    for s in ["1,3,5-7,3", "10-12, 2", "7"] {
        let v = episodes(s).unwrap();
        let text = v.iter().map(|n| n.to_string()).collect::<Vec<_>>().join(",");
        assert_eq!(episodes(&text).unwrap(), v);
    }
}
