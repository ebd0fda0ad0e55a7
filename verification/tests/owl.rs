use openbiz::owl::{NullReasoner, Profile, Reasoner, ReasoningError};

#[test]
fn null_reasoner_derives_nothing() {
    let r = NullReasoner;
    assert_eq!(r.materialise("http://example.org/g").unwrap(), 0);
}

#[test]
fn null_reasoner_explains_nothing_it_did_not_derive() {
    let r = NullReasoner;
    let explanation = r.explain("http://example.org/g", "?s ?p ?o").unwrap();
    assert!(
        explanation.is_none(),
        "a reasoner that derives nothing must not claim an explanation"
    );
}

#[test]
fn the_null_reasoner_claims_no_more_than_rdfs() {
    assert_eq!(NullReasoner.profile(), Profile::Rdfs);
}

#[test]
fn each_reasoning_error_says_what_went_wrong() {
    assert_eq!(
        ReasoningError::OutOfProfile(Profile::El, "it uses owl:unionOf".to_owned()).to_string(),
        "ontology is not in the El profile: it uses owl:unionOf"
    );
    assert_eq!(
        ReasoningError::Inconsistent("A and not A".to_owned()).to_string(),
        "ontology is inconsistent: A and not A"
    );
    assert_eq!(
        ReasoningError::Engine("out of memory".to_owned()).to_string(),
        "reasoning engine failed: out of memory"
    );
}
