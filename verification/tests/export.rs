use axum::http::HeaderValue;
use openbiz::export::{ascii_escaped, download_name};

#[test]
fn the_filename_is_taken_from_the_iri_and_is_safe_to_write() {
    for (iri, expected) in [
        ("http://acme.example/v/finance", "finance.ttl"),
        ("http://acme.example/v/finance#", "finance.ttl"),
        ("http://acme.example/v/risk-2024.v2", "risk-2024.v2.ttl"),
        ("urn:openbiz:graph:system", "system.ttl"),
        ("http://acme.example/v/a b/c", "c.ttl"),
        ("http://acme.example/v/../..", "graph.ttl"),
        ("http://acme.example/v/金融", "graph.ttl"),
        ("http:///", "http.ttl"),
    ] {
        assert_eq!(download_name(iri, "ttl"), expected, "for {iri}");
    }
}

#[test]
fn a_filename_can_never_carry_a_separator_or_a_quote() {
    for iri in [
        "http://acme.example/v/..%2f..%2fetc%2fpasswd",
        "http://acme.example/v/.hidden",
        "http://acme.example/v/say\"hello\"",
        "http://acme.example/v/back\\slash",
    ] {
        let name = download_name(iri, "nq");
        assert!(
            !name.contains(['/', '\\', '"']) && !name.starts_with('.'),
            "{iri} produced {name}"
        );
        assert!(name.ends_with(".nq"));
    }
}

#[test]
fn a_non_ascii_iri_survives_into_a_header_value_escaped() {
    let iri = "http://acme.example/v/金融";
    let escaped = ascii_escaped(iri);

    assert!(escaped.is_ascii());
    assert!(HeaderValue::from_str(&escaped).is_ok());
    assert!(escaped.starts_with("http://acme.example/v/"));
    assert!(escaped.contains('%'), "the non-ASCII part must be escaped");
    assert_eq!(
        ascii_escaped("a%b"),
        "a%25b",
        "the escape itself is escaped"
    );
    assert_eq!(ascii_escaped("http://a/b#c"), "http://a/b#c");
}

#[test]
fn each_byte_of_a_character_is_escaped_in_upper_case_hex() {
    assert_eq!(ascii_escaped("é"), "%C3%A9");
    assert_eq!(ascii_escaped("a b"), "a%20b");
    assert_eq!(ascii_escaped("tab\there"), "tab%09here");
    assert_eq!(ascii_escaped("\u{7f}"), "%7F");
    assert_eq!(ascii_escaped(""), "");
}

#[test]
fn the_escaping_can_be_undone() {
    let iri = "http://acme.example/v/金融 100%";
    let escaped = ascii_escaped(iri);
    let mut bytes = Vec::new();
    let text = escaped.as_bytes();
    let mut i = 0;
    while i < text.len() {
        if text[i] == b'%' {
            let hex = std::str::from_utf8(&text[i + 1..i + 3]).expect("hex digits");
            bytes.push(u8::from_str_radix(hex, 16).expect("a byte"));
            i += 3;
        } else {
            bytes.push(text[i]);
            i += 1;
        }
    }
    assert_eq!(String::from_utf8(bytes).expect("UTF-8"), iri);
}

#[test]
fn runs_of_unsafe_characters_become_one_hyphen_and_the_ends_are_trimmed() {
    assert_eq!(download_name("http://x/a  b!!c", "jsonld"), "a-b-c.jsonld");
    assert_eq!(download_name("http://x/--a--", "trig"), "a.trig");
    assert_eq!(download_name("http://x/.a.b.", "rdf"), "a.b.rdf");
    assert_eq!(download_name("", "ttl"), "graph.ttl");
    assert_eq!(download_name("////", "ttl"), "graph.ttl");
    assert_eq!(download_name("Résumé_2024", "nt"), "R-sum-_2024.nt");
}
