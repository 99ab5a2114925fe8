use cargo_audit_build::codec::{parse_ledger, render_ledger, LedgerError};
use cargo_audit_build::{BuildTrustStore, TrustRecord};

const D1: &str = "536e506bb90914c243a12b397b9a998f85ae2cbd9ba02dfd03a9e155ca5ca0f4";
const D2: &str = "ba7816bf8f01cfea414140de5dae2223b00361a396177a9cb410ff61f20015ad";

fn associates(l: &BuildTrustStore, d: &str) -> Vec<String> {
    let mut v = l.record(d).expect("record").associates.clone();
    v.sort();
    v
}

#[test]
fn unseen_digest_is_not_trusted() {
    let l = BuildTrustStore::new();
    assert!(!l.is_trusted(D1));
    assert!(l.record(D1).is_none());
}

#[test]
fn set_trust_then_is_trusted() {
    for t in [true, false] {
        let mut l = BuildTrustStore::new();
        l.set_trust(D1, t, "a@1.0");
        assert_eq!(l.is_trusted(D1), t);
        l.set_trust(D1, !t, "a@1.0");
        assert_eq!(l.is_trusted(D1), !t);
    }
}

#[test]
fn set_trust_reports_flag_changes_only() {
    let mut l = BuildTrustStore::new();
    assert!(!l.set_trust(D1, false, "a@1.0"));
    assert_eq!(l.entries.len(), 1);
    assert!(l.set_trust(D1, true, "a@1.0"));
    assert!(!l.set_trust(D1, true, "b@2.0"));
    assert_eq!(associates(&l, D1), vec!["a@1.0".to_string(), "b@2.0".to_string()]);
    assert!(l.set_trust(D1, false, "b@2.0"));
    assert_eq!(associates(&l, D1), vec!["a@1.0".to_string(), "b@2.0".to_string()]);
}

#[test]
fn record_association_reports_growth() {
    let mut l = BuildTrustStore::new();
    assert!(l.record_association(D2, "a@1.0"));
    assert!(!l.is_trusted(D2));
    assert!(!l.record_association(D2, "a@1.0"));
    assert!(l.record_association(D2, "b@2.0"));
    assert_eq!(associates(&l, D2), vec!["a@1.0".to_string(), "b@2.0".to_string()]);
    assert_eq!(l.entries.len(), 1);
}

#[test]
fn default_ledger_is_empty() {
    let l = BuildTrustStore::default();
    assert!(l.entries.is_empty());
}

#[test]
fn render_is_canonical_json() {
    let mut l = BuildTrustStore::new();
    l.set_trust(D1, true, "pkg@1.0");
    l.record_association(D2, "a@1.0");
    l.record_association(D2, "b@2.0");
    let text = render_ledger(&l);
    assert_eq!(
        text,
        format!("{{\"{}\":[true,[\"pkg@1.0\"]],\"{}\":[false,[\"a@1.0\",\"b@2.0\"]]}}", D1, D2)
    );
    assert_eq!(render_ledger(&BuildTrustStore::new()), "{}");
}

#[test]
fn render_escapes_special_characters() {
    let mut l = BuildTrustStore::new();
    l.set_trust("k", false, "q\"b\\s\n\u{1}");
    assert_eq!(render_ledger(&l), "{\"k\":[false,[\"q\\\"b\\\\s\\n\\u0001\"]]}");
}

#[test]
fn save_then_load_gives_equal_ledger() {
    let mut l = BuildTrustStore::new();
    l.set_trust(D1, true, "pkg@1.0");
    l.record_association(D1, "other@0.2.0");
    l.set_trust(D2, false, "x@3.1.4");
    l.set_trust("k", false, "q\"b\\s\n\u{1}\u{e9}");
    let back = parse_ledger(&render_ledger(&l)).ok().expect("parses");
    assert_eq!(back.entries.len(), 3);
    for d in [D1, D2, "k"] {
        assert_eq!(back.is_trusted(d), l.is_trusted(d));
        assert_eq!(associates(&back, d), associates(&l, d));
    }
}

#[test]
fn parse_accepts_whitespace_and_escapes() {
    let text = "\n{\n  \"ab\" : [ true , [ \"x@1\" , \"y\\u0040\\/2\" ] ],\n  \"cd\":[false,[]]\n}\n";
    let l = parse_ledger(text).ok().expect("parses");
    assert!(l.is_trusted("ab"));
    assert!(!l.is_trusted("cd"));
    assert_eq!(associates(&l, "ab"), vec!["x@1".to_string(), "y@/2".to_string()]);
    assert!(associates(&l, "cd").is_empty());
    let empty = parse_ledger("{}").ok().expect("parses");
    assert!(empty.entries.is_empty());
    let pretty = parse_ledger("{\n}").ok().expect("parses");
    assert!(pretty.entries.is_empty());
}

#[test]
fn parse_decodes_surrogate_pairs() {
    let l = parse_ledger("{\"d\":[true,[\"smile\\ud83d\\ude00\"]]}").ok().expect("parses");
    assert_eq!(associates(&l, "d"), vec!["smile\u{1f600}".to_string()]);
    for text in [
        "{\"d\":[true,[\"\\udc00\"]]}",
        "{\"d\":[true,[\"\\ud83d\"]]}",
        "{\"d\":[true,[\"\\ud83d\\u0041\"]]}",
        "{\"d\":[true,[\"\\ud83dx\"]]}",
    ] {
        assert!(matches!(parse_ledger(text), Err(LedgerError::Malformed)), "{:?}", text);
    }
}

#[test]
fn parse_later_member_wins_and_duplicates_collapse() {
    let l = parse_ledger("{\"d\":[true,[\"a\",\"a\"]],\"d\":[false,[\"b\"]]}").ok().expect("parses");
    assert_eq!(l.entries.len(), 1);
    assert!(!l.is_trusted("d"));
    assert_eq!(associates(&l, "d"), vec!["b".to_string()]);
}

#[test]
fn parse_rejects_malformed_ledger() {
    for text in [
        "",
        "not json",
        "[]",
        "{",
        "{\"d\":[true]}",
        "{\"d\":[1,[]]}",
        "{\"d\":[true,[\"a\"]]} x",
        "{\"d\":[true,[\"a\",]]}",
        "{\"d\":[true,[\"a\"]],}",
        "{\"d\":[true,[\"\\ud800\"]]}",
        "{\"d\":[true,[\"\\q\"]]}",
        "{\"d\":[true,[\"a\nb\"]]}",
        "{d:[true,[]]}",
    ] {
        assert!(matches!(parse_ledger(text), Err(LedgerError::Malformed)), "{:?}", text);
    }
}

#[test]
fn trust_record_lists_associates() {
    let r = TrustRecord { trusted: false, associates: vec!["a@1".to_string()] };
    assert!(r.has_associate("a@1"));
    assert!(!r.has_associate("b@1"));
}

#[test]
fn corrupt_ledger_file_fails_to_load() {
    let mut l = BuildTrustStore::new();
    l.set_trust(D1, true, "pkg@1.0");
    let text = render_ledger(&l);
    let cut = &text[..text.len() - 1];
    assert!(matches!(parse_ledger(cut), Err(LedgerError::Malformed)));
    assert!(matches!(parse_ledger("\u{0}\u{1}garbage"), Err(LedgerError::Malformed)));
}

#[test]
fn repeated_associates_are_written_once() {
    let l = parse_ledger("{\"d\":[true,[\"a\",\"a\"]]}").ok().expect("parses");
    assert_eq!(l.record("d").expect("record").associates, vec!["a".to_string()]);
    assert_eq!(render_ledger(&l), "{\"d\":[true,[\"a\"]]}");
}

#[test]
fn distinct_associates_keep_first_places() {
    let v: Vec<String> = ["b", "a", "b", "c", "a"].iter().map(|s| s.to_string()).collect();
    assert_eq!(
        BuildTrustStore::distinct_associates(&v),
        vec!["b".to_string(), "a".to_string(), "c".to_string()]
    );
}
