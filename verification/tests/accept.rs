use openbiz::accept::{weights, Reading, ANYTHING, FULL_WEIGHT};

/// What a stated weight reads as, as a single-precision float.
fn read(text: &Option<String>) -> Reading {
    match text {
        None => Reading::Unreadable,
        Some(text) => match text.parse::<f32>() {
            Ok(weight) if weight > 0.0 => Reading::Positive(weight.to_bits()),
            Ok(_) => Reading::NotPositive,
            Err(_) => Reading::Unreadable,
        },
    }
}

/// The ranges of `accept`, most preferred first, each weight read as a single-precision float.
fn preferences(accept: &str) -> Vec<String> {
    let readings: Vec<Reading> = weights(accept).iter().map(read).collect();
    openbiz::accept::preferences(accept, &readings)
}

#[test]
fn ranges_come_back_in_preference_order() {
    assert_eq!(
        preferences("text/turtle;q=0.4, application/ld+json;q=0.9"),
        vec!["application/ld+json", "text/turtle"]
    );
}

#[test]
fn equal_weights_keep_the_order_they_were_written_in() {
    assert_eq!(
        preferences("application/n-quads, application/trig"),
        vec!["application/n-quads", "application/trig"]
    );
    assert_eq!(
        preferences("application/trig, application/n-quads"),
        vec!["application/trig", "application/n-quads"]
    );
}

#[test]
fn a_zero_weight_is_a_refusal_and_is_dropped() {
    assert_eq!(
        preferences("text/turtle;q=0, application/n-triples"),
        vec!["application/n-triples"]
    );
}

#[test]
fn a_header_expressing_nothing_ranks_nothing() {
    assert!(preferences("").is_empty());
    assert!(preferences(" , ,").is_empty());
    assert!(preferences("text/html;q=0").is_empty());
}

#[test]
fn a_browsers_header_ranks_the_wildcard_last() {
    assert_eq!(
        preferences("text/html,application/xhtml+xml,application/xml;q=0.9,*/*;q=0.8"),
        vec![
            "text/html",
            "application/xhtml+xml",
            "application/xml",
            ANYTHING
        ]
    );
}

#[test]
fn an_unparseable_weight_is_full_weight() {
    assert_eq!(
        preferences("text/turtle;q=banana, application/n-triples;q=0.5"),
        vec!["text/turtle", "application/n-triples"]
    );
}

#[test]
fn weights_are_compared_as_numbers_not_as_text() {
    assert_eq!(
        preferences("a/b;q=0.25, c/d;q=0.3, e/f;q=1.0, g/h;q=00.9"),
        vec!["e/f", "g/h", "c/d", "a/b"]
    );
    assert_eq!(preferences("a/b;q=0.50, c/d;q=0.5"), vec!["a/b", "c/d"]);
}

#[test]
fn a_negative_or_zero_weight_in_any_spelling_is_a_refusal() {
    assert!(preferences("a/b;q=-0.5, c/d;q=0.000, e/f;q=.0").is_empty());
    assert_eq!(preferences("a/b;q=+0.5"), vec!["a/b"]);
}

#[test]
fn parameters_other_than_the_weight_are_ignored() {
    assert_eq!(
        preferences("text/plain; charset=utf-8 ;q=0.1 , text/html;level=1"),
        vec!["text/html", "text/plain"]
    );
    // `q = 0.1` is not a `q=` parameter, so the range keeps full weight.
    assert_eq!(
        preferences("text/plain;q = 0.1, text/html;q=0.5"),
        vec!["text/plain", "text/html"]
    );
}

#[test]
fn a_weight_in_exponent_notation_is_read_as_a_number() {
    assert_eq!(
        preferences("a/b;q=1e-3, c/d;q=0.5"),
        vec!["c/d", "a/b"]
    );
    assert_eq!(preferences("a/b;q=5E-1, c/d;q=0.4"), vec!["a/b", "c/d"]);
    assert_eq!(preferences("a/b;q=0.05e+1, c/d;q=0.5"), vec!["a/b", "c/d"]);
}

#[test]
fn an_infinite_weight_ranks_first_and_not_a_number_is_dropped() {
    assert_eq!(preferences("a/b;q=1, c/d;q=inf"), vec!["c/d", "a/b"]);
    assert_eq!(preferences("a/b;q=Infinity, c/d;q=+INF"), vec!["a/b", "c/d"]);
    assert_eq!(preferences("a/b;q=nan, c/d"), vec!["c/d"]);
    assert_eq!(preferences("a/b;q=-inf, c/d;q=NaN"), Vec::<String>::new());
}

#[test]
fn a_weight_beyond_what_a_float_holds_is_infinite_or_nothing() {
    assert_eq!(preferences("a/b;q=1e39, c/d;q=inf"), vec!["a/b", "c/d"]);
    assert!(preferences("a/b;q=1e-50").is_empty());
    assert_eq!(preferences("a/b;q=1e999999999999999999999999, c/d"), vec!["a/b", "c/d"]);
}

#[test]
fn an_exponent_without_digits_does_not_read_and_is_full_weight() {
    assert_eq!(preferences("a/b;q=1e, c/d;q=0.5"), vec!["a/b", "c/d"]);
    assert_eq!(preferences("a/b;q=e5, c/d;q=0.5"), vec!["a/b", "c/d"]);
}

#[test]
fn a_weight_single_precision_rounds_to_infinity_ties_with_infinity() {
    // 3.5e38 is past the largest finite single-precision value and reads as infinite, so it ties
    // with `inf` and the written order stands; 3.4e38 is still finite and ranks below `inf`.
    assert_eq!(preferences("a/b;q=3.5e38, c/d;q=inf"), vec!["a/b", "c/d"]);
    assert_eq!(preferences("a/b;q=3.4e38, c/d;q=inf"), vec!["c/d", "a/b"]);
    assert_eq!(
        preferences("a/b;q=340282356779733661637539395458142568447, c/d;q=inf"),
        vec!["c/d", "a/b"]
    );
    assert_eq!(
        preferences("a/b;q=340282356779733661637539395458142568448, c/d;q=inf"),
        vec!["a/b", "c/d"]
    );
}

#[test]
fn a_weight_single_precision_rounds_to_zero_is_refused() {
    // 7e-46 is below half the least positive single-precision value and reads as zero; 8e-46
    // rounds up to that least value and is positive.
    assert_eq!(preferences("a/b;q=7e-46, c/d;q=0.5"), vec!["c/d"]);
    assert_eq!(preferences("a/b;q=8e-46, c/d"), vec!["c/d", "a/b"]);
}

#[test]
fn weights_that_read_as_the_same_float_tie_and_keep_their_order() {
    // 0.3 and 0.30000001 both read as the single-precision float 0x3E99999A.
    assert_eq!(preferences("a;q=0.3, b;q=0.30000001"), vec!["a", "b"]);
    assert_eq!(preferences("b;q=0.30000001, a;q=0.3"), vec!["b", "a"]);
    // 0.3000001 is a different float, and heavier.
    assert_eq!(preferences("a;q=0.3, b;q=0.3000001"), vec!["b", "a"]);
}

#[test]
fn the_weights_an_accept_header_states_are_handed_out_in_order() {
    assert_eq!(
        weights("text/turtle;charset=utf-8; q = 0.4 , , application/trig;q=x;q=0.9, */*"),
        vec![None, Some("x".to_owned()), None]
    );
    assert_eq!(
        weights("a;q= 0.5 ;level=1"),
        vec![Some("0.5".to_owned())]
    );
}

#[test]
fn ranking_follows_the_readings_handed_in() {
    let readings = vec![
        Reading::Positive(0x3E80_0000),
        Reading::NotPositive,
        Reading::Unreadable,
        Reading::Positive(FULL_WEIGHT + 1),
    ];
    assert_eq!(
        openbiz::accept::preferences("a;q=x, b;q=y, c;q=z, d;q=w", &readings),
        vec!["d", "c", "a"]
    );
    // A range that states no weight has full weight whatever its reading says.
    assert_eq!(
        openbiz::accept::preferences("a;q=x, b", &vec![Reading::Positive(0x3E80_0000), Reading::NotPositive]),
        vec!["b", "a"]
    );
}
