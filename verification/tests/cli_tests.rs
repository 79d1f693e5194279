use filter_sync::cli::parse_arguments;

fn argv(args: &[&str]) -> Vec<Vec<u8>> {
    args.iter().map(|a| a.as_bytes().to_vec()).collect()
}

fn texts(args: &[Vec<u8>]) -> Vec<String> {
    args.iter()
        .map(|a| String::from_utf8(a.clone()).unwrap())
        .collect()
}

#[test]
fn sources_end_at_the_separator() {
    let inv = parse_arguments(argv(&[
        "prog",
        "github:a/b",
        "cdrg",
        "--",
        "game",
        "--fullscreen",
    ]));
    assert_eq!(texts(&inv.sources), vec!["github:a/b", "cdrg"]);
    assert!(!inv.clear);
    assert_eq!(texts(&inv.command), vec!["game", "--fullscreen"]);
}

#[test]
fn without_separator_everything_is_a_source() {
    let inv = parse_arguments(argv(&["prog", "a:b", "c:d"]));
    assert_eq!(texts(&inv.sources), vec!["a:b", "c:d"]);
    assert!(inv.command.is_empty());
    assert!(!inv.clear);
}

#[test]
fn program_name_is_no_source() {
    let inv = parse_arguments(argv(&["github:looks/like-a-source"]));
    assert!(inv.sources.is_empty());
    assert!(inv.command.is_empty());
    let inv = parse_arguments(argv(&["--", "a:b"]));
    assert_eq!(texts(&inv.sources), vec!["a:b"]);
    assert!(inv.command.is_empty());
    let inv = parse_arguments(argv(&["--clear"]));
    assert!(!inv.clear);
}

#[test]
fn no_arguments_at_all() {
    let inv = parse_arguments(Vec::new());
    assert!(inv.sources.is_empty());
    assert!(inv.command.is_empty());
    assert!(!inv.clear);
}

#[test]
fn clear_may_stand_anywhere_among_the_sources() {
    for args in [
        ["prog", "--clear", "a:b", "c:d"],
        ["prog", "a:b", "--clear", "c:d"],
        ["prog", "a:b", "c:d", "--clear"],
    ] {
        let inv = parse_arguments(argv(&args));
        assert!(inv.clear);
        assert_eq!(texts(&inv.sources), vec!["a:b", "c:d"]);
    }
}

#[test]
fn clear_given_twice_is_clear() {
    let inv = parse_arguments(argv(&["prog", "--clear", "a:b", "--clear"]));
    assert!(inv.clear);
    assert_eq!(texts(&inv.sources), vec!["a:b"]);
}

#[test]
fn clear_behind_the_separator_belongs_to_the_command() {
    let inv = parse_arguments(argv(&["prog", "a:b", "--", "game", "--clear"]));
    assert!(!inv.clear);
    assert_eq!(texts(&inv.sources), vec!["a:b"]);
    assert_eq!(texts(&inv.command), vec!["game", "--clear"]);
}

#[test]
fn only_the_first_separator_separates() {
    let inv = parse_arguments(argv(&["prog", "a:b", "--", "game", "--", "x"]));
    assert_eq!(texts(&inv.sources), vec!["a:b"]);
    assert_eq!(texts(&inv.command), vec!["game", "--", "x"]);
}

#[test]
fn separator_at_either_end() {
    let inv = parse_arguments(argv(&["prog", "--", "game"]));
    assert!(inv.sources.is_empty());
    assert_eq!(texts(&inv.command), vec!["game"]);
    let inv = parse_arguments(argv(&["prog", "a:b", "--"]));
    assert_eq!(texts(&inv.sources), vec!["a:b"]);
    assert!(inv.command.is_empty());
    let inv = parse_arguments(argv(&["prog", "--"]));
    assert!(inv.sources.is_empty());
    assert!(inv.command.is_empty());
}

#[test]
fn near_misses_are_sources() {
    let inv = parse_arguments(argv(&["prog", "-", "---", "--clear ", "--Clear", "-- "]));
    assert_eq!(
        texts(&inv.sources),
        vec!["-", "---", "--clear ", "--Clear", "-- "]
    );
    assert!(!inv.clear);
    assert!(inv.command.is_empty());
}

#[test]
fn arguments_need_not_be_text() {
    let odd: Vec<u8> = vec![0xff, 0xfe, b'/', 0x80];
    let inv = parse_arguments(vec![
        b"prog".to_vec(),
        odd.clone(),
        b"--".to_vec(),
        odd.clone(),
    ]);
    assert_eq!(inv.sources, vec![odd.clone()]);
    assert_eq!(inv.command, vec![odd]);
}
