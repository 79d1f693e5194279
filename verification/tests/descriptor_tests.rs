use filter_sync::descriptor::{expand, parse, parse_argument};
use filter_sync::error::{Malformation, SyncError};

#[test]
fn parse_splits_type_from_payload() {
    let d = parse("github:owner/repo").unwrap();
    assert_eq!(d.kind, "github");
    assert_eq!(d.payload, "owner/repo");
    assert_eq!(d.canonical(), "github:owner/repo");
}

#[test]
fn parse_rejects_text_without_colon() {
    assert_eq!(
        parse("owner/repo").unwrap_err(),
        SyncError::MalformedDescriptor(Malformation::MissingSeparator)
    );
    assert_eq!(
        parse("").unwrap_err(),
        SyncError::MalformedDescriptor(Malformation::MissingSeparator)
    );
}

#[test]
fn parse_splits_at_first_colon_only() {
    let d = parse("github:owner/repo:extra").unwrap();
    assert_eq!(d.kind, "github");
    assert_eq!(d.payload, "owner/repo:extra");
    assert_eq!(d.canonical(), "github:owner/repo:extra");
}

#[test]
fn parse_accepts_empty_parts() {
    let d = parse(":payload").unwrap();
    assert_eq!(d.kind, "");
    assert_eq!(d.payload, "payload");
    let d = parse("kind:").unwrap();
    assert_eq!(d.kind, "kind");
    assert_eq!(d.payload, "");
    let d = parse(":").unwrap();
    assert_eq!(d.kind, "");
    assert_eq!(d.payload, "");
    assert_eq!(d.canonical(), ":");
}

#[test]
fn parse_does_not_inspect_payload() {
    let d = parse("github:not a repository at all").unwrap();
    assert_eq!(d.payload, "not a repository at all");
    let d = parse("other:thing").unwrap();
    assert_eq!(d.kind, "other");
}

#[test]
fn parse_handles_text_beyond_ascii() {
    let d = parse("gïthub:öwner/répo").unwrap();
    assert_eq!(d.kind, "gïthub");
    assert_eq!(d.payload, "öwner/répo");
    assert_eq!(d.canonical(), "gïthub:öwner/répo");
}

#[test]
fn expand_replaces_known_shorthands() {
    assert_eq!(
        expand("neversink-lite"),
        "github:NeverSinkDev/NeverSink-PoE2litefilter"
    );
    assert_eq!(expand("cdrg"), "github:cdrg/cdr-poe2filter");
}

#[test]
fn expand_leaves_other_text_alone() {
    assert_eq!(expand("github:a/b"), "github:a/b");
    assert_eq!(expand("neversink"), "neversink");
    assert_eq!(expand("NEVERSINK-LITE"), "NEVERSINK-LITE");
    assert_eq!(expand("cdrg "), "cdrg ");
    assert_eq!(expand(""), "");
}

#[test]
fn expand_twice_is_expand_once() {
    for raw in ["neversink-lite", "cdrg", "github:a/b", "plain"] {
        let once = expand(raw);
        assert_eq!(expand(&once), once);
    }
}

#[test]
fn alias_parses_as_its_canonical_form() {
    let short = parse("neversink-lite").unwrap();
    let long = parse("github:NeverSinkDev/NeverSink-PoE2litefilter").unwrap();
    assert_eq!(short.kind, long.kind);
    assert_eq!(short.payload, long.payload);
    assert_eq!(short.kind, "github");
    assert_eq!(short.payload, "NeverSinkDev/NeverSink-PoE2litefilter");
    assert_eq!(short.canonical(), long.canonical());
    assert_eq!(
        short.canonical(),
        "github:NeverSinkDev/NeverSink-PoE2litefilter"
    );
}

#[test]
fn second_alias_parses_as_its_canonical_form() {
    let short = parse("cdrg").unwrap();
    let long = parse("github:cdrg/cdr-poe2filter").unwrap();
    assert_eq!(short.kind, long.kind);
    assert_eq!(short.payload, long.payload);
    assert_eq!(short.canonical(), "github:cdrg/cdr-poe2filter");
}

#[test]
fn canonical_form_parses_to_the_same_descriptor() {
    for raw in ["github:a/b", "github:a/b/c", "x:y:z", ":", "k:"] {
        let d = parse(raw).unwrap();
        let again = parse(&d.canonical()).unwrap();
        assert_eq!(again.kind, d.kind);
        assert_eq!(again.payload, d.payload);
    }
}

#[test]
fn argument_must_be_valid_utf8() {
    for bad in [
        vec![0xffu8],
        vec![b'a', b':', 0x80],
        vec![0xc3],
        vec![0xe2, 0x82],
        vec![0xed, 0xa0, 0x80],
        vec![0xf5, 0x80, 0x80, 0x80],
        vec![0xc0, 0xaf],
    ] {
        assert_eq!(
            parse_argument(&bad).unwrap_err(),
            SyncError::MalformedDescriptor(Malformation::InvalidText)
        );
    }
}

#[test]
fn argument_that_is_text_is_parsed_as_text() {
    let d = parse_argument(&b"github:a/b".to_vec()).unwrap();
    assert_eq!(d.kind, "github");
    assert_eq!(d.payload, "a/b");
    let d = parse_argument(&"k:\u{20ac}\u{1F600}".as_bytes().to_vec()).unwrap();
    assert_eq!(d.payload, "\u{20ac}\u{1F600}");
    let d = parse_argument(&b"cdrg".to_vec()).unwrap();
    assert_eq!(d.canonical(), "github:cdrg/cdr-poe2filter");
    assert_eq!(
        parse_argument(&b"nocolon".to_vec()).unwrap_err(),
        SyncError::MalformedDescriptor(Malformation::MissingSeparator)
    );
    assert_eq!(
        parse_argument(&Vec::new()).unwrap_err(),
        SyncError::MalformedDescriptor(Malformation::MissingSeparator)
    );
}

#[test]
fn invalid_text_is_reported_before_a_missing_colon() {
    assert_eq!(
        parse_argument(&vec![b'x', 0xfe]).unwrap_err(),
        SyncError::MalformedDescriptor(Malformation::InvalidText)
    );
}

#[test]
fn same_source_goes_by_canonical_form() {
    let a = parse("neversink-lite").unwrap();
    let b = parse("github:NeverSinkDev/NeverSink-PoE2litefilter").unwrap();
    let c = parse("github:NeverSinkDev/NeverSink-PoE2litefilter/main").unwrap();
    assert!(a.same_source(&b));
    assert!(b.same_source(&a));
    assert!(a.same_source(&a));
    assert!(!a.same_source(&c));
    let d = parse("github:a/b").unwrap();
    let e = parse("github:a/B").unwrap();
    assert!(!d.same_source(&e));
}
