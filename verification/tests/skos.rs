use openbiz::skos::{LabelQuery, Node};

#[test]
fn an_empty_query_is_refused() {
    assert!(LabelQuery::new("").is_err());
    assert_eq!(LabelQuery::new("wind").expect("a query").text(), "wind");
}

#[test]
fn a_node_is_written_as_n_triples_writes_it() {
    assert_eq!(Node::iri("urn:a").to_string(), "<urn:a>");
    assert_eq!(Node::blank("b0").to_string(), "_:b0");
    assert_eq!(Node::iri("urn:a").as_iri(), Some("urn:a"));
    assert_eq!(Node::blank("b0").as_iri(), None);
}

#[test]
fn iris_sort_before_blank_nodes_and_by_their_text() {
    assert!(Node::iri("urn:z").sorts_before(&Node::blank("a")));
    assert!(Node::iri("urn:a").sorts_before(&Node::iri("urn:b")));
    assert!(!Node::iri("urn:b").sorts_before(&Node::iri("urn:a")));
    assert!(!Node::iri("urn:a").sorts_before(&Node::iri("urn:a")));
}
