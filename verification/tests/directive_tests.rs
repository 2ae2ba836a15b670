use fragment_directives::directive::TextDirective;
use fragment_directives::parse::{parse_fragment_directive, tokenize_payload};
use fragment_directives::percent::{percent_decode, percent_encode};
use fragment_directives::serialize::{create_fragment_directive, create_text_directive};

fn directive(prefix: &[u8], start: &[u8], end: &[u8], suffix: &[u8]) -> TextDirective {
    TextDirective {
        prefix: prefix.to_vec(),
        start: start.to_vec(),
        end: end.to_vec(),
        suffix: suffix.to_vec(),
    }
}

#[test]
fn marker_absence_leaves_fragment_alone() {
    let r = parse_fragment_directive(&b"foo".to_vec());
    assert!(r.is_none());
}

#[test]
fn basic_split_yields_base_and_one_directive() {
    let r = parse_fragment_directive(&b"id:~:text=hello".to_vec()).unwrap();
    assert_eq!(r.hash_without_fragment_directive, b"id".to_vec());
    assert_eq!(r.fragment_directive, b"text=hello".to_vec());
    assert_eq!(r.text_directives.len(), 1);
    assert_eq!(r.text_directives[0], directive(b"", b"hello", b"", b""));
}

#[test]
fn full_grammar_reads_all_four_parts() {
    let r = parse_fragment_directive(&b":~:text=pre-,word,end,-suf".to_vec()).unwrap();
    assert_eq!(r.hash_without_fragment_directive, b"".to_vec());
    assert_eq!(r.text_directives.len(), 1);
    assert_eq!(r.text_directives[0], directive(b"pre", b"word", b"end", b"suf"));
}

#[test]
fn multiple_directives_keep_their_order() {
    let r = parse_fragment_directive(&b":~:text=a&text=b".to_vec()).unwrap();
    assert_eq!(r.text_directives.len(), 2);
    assert_eq!(r.text_directives[0].start, b"a".to_vec());
    assert_eq!(r.text_directives[1].start, b"b".to_vec());
}

#[test]
fn prefix_only_segment_yields_no_directive() {
    let r = parse_fragment_directive(&b":~:text=-,".to_vec()).unwrap();
    assert_eq!(r.text_directives.len(), 0);
}

#[test]
fn unknown_directive_kinds_are_ignored() {
    let r = parse_fragment_directive(&b":~:foo=bar&text=x&unknown".to_vec()).unwrap();
    assert_eq!(r.text_directives.len(), 1);
    assert_eq!(r.text_directives[0].start, b"x".to_vec());
}

#[test]
fn marker_alone_is_found_with_nothing_in_it() {
    let r = parse_fragment_directive(&b":~:".to_vec()).unwrap();
    assert_eq!(r.hash_without_fragment_directive, b"".to_vec());
    assert_eq!(r.fragment_directive, b"".to_vec());
    assert_eq!(r.text_directives.len(), 0);
}

#[test]
fn percent_encoded_parts_are_decoded() {
    let r = parse_fragment_directive(&b":~:text=a%2Cb%26c".to_vec()).unwrap();
    assert_eq!(r.text_directives.len(), 1);
    assert_eq!(r.text_directives[0].start, b"a,b&c".to_vec());
}

#[test]
fn serialize_single_directive() {
    let d = directive(b"pre", b"word", b"end", b"suf");
    let s = create_text_directive(&d).unwrap();
    assert_eq!(s, b"text=pre-,word,end,-suf".to_vec());
}

#[test]
fn serialize_escapes_reserved_bytes() {
    let d = directive(b"", b"a,b-c&d#e%f", b"", b"");
    let s = create_text_directive(&d).unwrap();
    assert_eq!(s, b"text=a%2Cb%2Dc%26d%23e%25f".to_vec());
}

#[test]
fn serialize_invalid_directive_fails() {
    let d = directive(b"pre", b"", b"end", b"suf");
    assert!(create_text_directive(&d).is_none());
}

#[test]
fn serialization_skips_invalid_entries() {
    let list = vec![directive(b"", b"ok", b"", b""), directive(b"p", b"", b"e", b"s")];
    let s = create_fragment_directive(&list).unwrap();
    assert_eq!(s, b":~:text=ok".to_vec());
}

#[test]
fn serialization_of_only_invalid_entries_fails() {
    let list = vec![directive(b"p", b"", b"", b"")];
    assert!(create_fragment_directive(&list).is_none());
    assert!(create_fragment_directive(&Vec::new()).is_none());
}

#[test]
fn serialization_joins_directives_with_ampersand() {
    let list = vec![directive(b"", b"a", b"", b""), directive(b"", b"b", b"", b"")];
    let s = create_fragment_directive(&list).unwrap();
    assert_eq!(s, b":~:text=a&text=b".to_vec());
}

#[test]
fn round_trip_reproduces_the_directive() {
    let cases = vec![
        directive(b"", b"hello", b"", b""),
        directive(b"pre", b"word", b"end", b"suf"),
        directive(b"a-b", b"c,d", b"e&f", b"g#h%i"),
        directive(b"", b"-", b"", b","),
        directive(b"\xc3\xa9", b"caf\xc3\xa9", b"", b""),
    ];
    for d in cases {
        let wire = create_text_directive(&d).unwrap();
        let parsed = tokenize_payload(&wire);
        assert_eq!(parsed, vec![d]);
    }
}

#[test]
fn round_trip_through_the_full_fragment() {
    let d = directive(b"the ", b"start text", b"end text", b" tail");
    let list = vec![d.clone()];
    let wire = create_fragment_directive(&list).unwrap();
    let r = parse_fragment_directive(&wire).unwrap();
    assert_eq!(r.text_directives, vec![d]);
    assert_eq!(r.hash_without_fragment_directive, b"".to_vec());
}

#[test]
fn from_parts_requires_a_start() {
    let ok = TextDirective::from_parts(b"p".to_vec(), b"s".to_vec(), Vec::new(), Vec::new());
    assert_eq!(ok.unwrap(), directive(b"p", b"s", b"", b""));
    let bad = TextDirective::from_parts(b"p".to_vec(), Vec::new(), b"e".to_vec(), Vec::new());
    assert!(bad.is_none());
}

#[test]
fn percent_decode_handles_escapes_and_leaves_the_rest() {
    assert_eq!(percent_decode(&b"%41%2d%2Cx".to_vec()), b"A-,x".to_vec());
    assert_eq!(percent_decode(&b"a%zz%4".to_vec()), b"a%zz%4".to_vec());
    assert_eq!(percent_decode(&b"".to_vec()), b"".to_vec());
}

#[test]
fn percent_encode_escapes_exactly_the_reserved_set() {
    assert_eq!(percent_encode(&b"plain text!".to_vec()), b"plain text!".to_vec());
    assert_eq!(percent_encode(&b"-,&#%".to_vec()), b"%2D%2C%26%23%25".to_vec());
    assert_eq!(percent_encode(&b"\x01\x7f\xff".to_vec()), b"%01%7F%FF".to_vec());
}

#[test]
fn later_segments_survive_a_malformed_one() {
    let r = parse_fragment_directive(&b":~:text=-,&text=good&text=".to_vec()).unwrap();
    assert_eq!(r.text_directives.len(), 1);
    assert_eq!(r.text_directives[0].start, b"good".to_vec());
}

#[test]
fn first_marker_occurrence_splits_the_fragment() {
    let r = parse_fragment_directive(&b"a:~:text=x:~:y".to_vec()).unwrap();
    assert_eq!(r.hash_without_fragment_directive, b"a".to_vec());
    assert_eq!(r.fragment_directive, b"text=x:~:y".to_vec());
}
