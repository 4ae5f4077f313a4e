use dict_merge::{merge, render, sort_by_term, Definition, Definitions, Dictionary, Entry, LoadError, Node};

fn s(x: &str) -> Node {
    Node::Str(x.to_string())
}

fn map(pairs: Vec<(&str, Node)>) -> Node {
    Node::Mapping(pairs.into_iter().map(|(k, v)| (s(k), v)).collect())
}

fn dict(name: &str, doc: &Node) -> Dictionary {
    Dictionary::from_document(name.to_string(), doc).unwrap()
}

fn run(docs: Vec<Node>, sort: bool) -> String {
    let dicts: Vec<Dictionary> = docs.iter().map(|d| dict("d", d)).collect();
    render(&merge(dicts, sort)).unwrap()
}

#[test]
fn scalar_definition_has_no_note() {
    let d = Definition::decode(&s("a feline")).unwrap();
    assert_eq!(d.text, "a feline");
    assert_eq!(d.note, None);
}

#[test]
fn structured_definition_keeps_note() {
    let d = Definition::decode(&map(vec![("def", s("a feline")), ("note", s("informal"))])).unwrap();
    assert_eq!(d.text, "a feline");
    assert_eq!(d.note, Some("informal".to_string()));
}

#[test]
fn structured_definition_without_note() {
    let d = Definition::decode(&map(vec![("def", s("a feline"))])).unwrap();
    assert_eq!(d.text, "a feline");
    assert_eq!(d.note, None);
    let d = Definition::decode(&map(vec![("note", Node::Null), ("def", s("x")), ("extra", Node::Other)])).unwrap();
    assert_eq!(d.text, "x");
    assert_eq!(d.note, None);
}

#[test]
fn other_shapes_are_rejected() {
    for n in [
        Node::Other,
        Node::Scalar("42".to_string()),
        Node::Null,
        Node::Sequence(vec![s("a")]),
        map(vec![("note", s("n"))]),
        map(vec![("def", Node::Other)]),
        map(vec![("def", s("t")), ("note", Node::Other)]),
    ] {
        assert_eq!(Definition::decode(&n).err(), Some(LoadError::InvalidDefinitionShape { index: None }));
    }
}

#[test]
fn single_field_gives_one_element_list() {
    let l = Definitions::decode(&s("a feline")).unwrap();
    assert_eq!(l.0.len(), 1);
    assert_eq!(l.0[0].text, "a feline");
}

#[test]
fn sequence_field_keeps_order_and_length() {
    let l = Definitions::decode(&Node::Sequence(vec![
        s("a feline"),
        map(vec![("def", s("a whip")), ("note", s("nautical"))]),
        s("a jazz fan"),
    ]))
    .unwrap();
    let texts: Vec<&str> = l.0.iter().map(|d| d.text.as_str()).collect();
    assert_eq!(texts, vec!["a feline", "a whip", "a jazz fan"]);
    assert_eq!(l.0[1].note, Some("nautical".to_string()));
}

#[test]
fn empty_sequence_gives_empty_list_and_empty_display() {
    let l = Definitions::decode(&Node::Sequence(vec![])).unwrap();
    assert_eq!(l.0.len(), 0);
    assert_eq!(l.to_display_string(), "");
}

#[test]
fn bad_sequence_element_reports_its_index() {
    let r = Definitions::decode(&Node::Sequence(vec![s("a"), s("b"), Node::Other, Node::Null]));
    assert_eq!(r.err(), Some(LoadError::InvalidDefinitionShape { index: Some(2) }));
}

#[test]
fn display_joins_texts_and_ignores_notes() {
    let a = Definitions(vec![
        Definition { text: "x".to_string(), note: None },
        Definition { text: "y".to_string(), note: Some("n".to_string()) },
    ]);
    let b = Definitions(vec![
        Definition { text: "x".to_string(), note: Some("m".to_string()) },
        Definition { text: "y".to_string(), note: None },
    ]);
    assert_eq!(a.to_display_string(), "x; y");
    assert_eq!(a.to_display_string(), b.to_display_string());
}

#[test]
fn end_to_end_scalar() {
    assert_eq!(run(vec![map(vec![("cat", s("a feline"))])], false), "cat,a feline\n");
}

#[test]
fn end_to_end_structured_note_dropped() {
    let doc = map(vec![("cat", map(vec![("def", s("a feline")), ("note", s("informal"))]))]);
    assert_eq!(run(vec![doc], false), "cat,a feline\n");
}

#[test]
fn end_to_end_sequence() {
    let doc = map(vec![("cat", Node::Sequence(vec![s("a feline"), s("a whip")]))]);
    assert_eq!(run(vec![doc], false), "cat,a feline; a whip\n");
}

#[test]
fn end_to_end_two_documents_unsorted_and_sorted() {
    let docs = || vec![map(vec![("b", s("second"))]), map(vec![("a", s("first"))])];
    assert_eq!(run(docs(), false), "b,second\na,first\n");
    assert_eq!(run(docs(), true), "a,first\nb,second\n");
}

#[test]
fn end_to_end_number_is_rejected() {
    let doc = map(vec![("cat", Node::Scalar("42".to_string()))]);
    let r = Dictionary::from_document("d".to_string(), &doc);
    assert_eq!(r.err(), Some(LoadError::InvalidDefinitionShape { index: None }));
    let doc = map(vec![("cat", Node::Sequence(vec![s("a"), Node::Scalar("true".to_string())]))]);
    let r = Dictionary::from_document("d".to_string(), &doc);
    assert_eq!(r.err(), Some(LoadError::InvalidDefinitionShape { index: Some(1) }));
}

#[test]
fn numbers_inside_a_structured_definition_are_text() {
    let d = Definition::decode(&map(vec![
        ("def", Node::Scalar("42".to_string())),
        ("note", Node::Scalar("true".to_string())),
    ]))
    .unwrap();
    assert_eq!(d.text, "42");
    assert_eq!(d.note, Some("true".to_string()));
}

#[test]
fn numeric_terms_are_text() {
    let doc = Node::Mapping(vec![(Node::Scalar("1".to_string()), s("one"))]);
    assert_eq!(run(vec![doc], false), "1,one\n");
}

#[test]
fn source_without_file_name_is_refused() {
    let doc = map(vec![("cat", s("a feline"))]);
    assert_eq!(Dictionary::from_source("", &doc).err(), Some(LoadError::UnnamedSource));
    assert_eq!(Dictionary::from_source("/", &doc).err(), Some(LoadError::UnnamedSource));
}

#[test]
fn document_that_is_not_a_mapping_is_malformed() {
    assert_eq!(
        Dictionary::from_document("d".to_string(), &s("x")).err(),
        Some(LoadError::MalformedDocument)
    );
    let doc = Node::Mapping(vec![(Node::Other, s("x"))]);
    assert_eq!(Dictionary::from_document("d".to_string(), &doc).err(), Some(LoadError::MalformedDocument));
}

#[test]
fn empty_document_has_no_entries() {
    let d = dict("empty", &Node::Mapping(vec![]));
    assert_eq!(d.name, "empty");
    assert!(d.terms.is_empty());
}

#[test]
fn document_name_is_file_stem() {
    let doc = map(vec![("cat", s("a feline"))]);
    let d = Dictionary::from_source("some/dir/animals.yaml", &doc).unwrap();
    assert_eq!(d.name, "animals");
    assert_eq!(d.terms.len(), 1);
    assert_eq!(d.terms[0].term, "cat");
}

#[test]
fn duplicate_terms_are_all_kept() {
    let docs = vec![map(vec![("x", s("1"))]), map(vec![("x", s("2")), ("a", s("3"))])];
    assert_eq!(run(docs, true), "a,3\nx,1\nx,2\n");
}

#[test]
fn sort_is_by_code_point_and_stable() {
    let e = |t: &str, d: &str| Entry::from((t.to_string(), Definitions(vec![Definition { text: d.to_string(), note: None }])));
    let v = vec![e("b", "1"), e("B", "2"), e("ab", "3"), e("b", "4"), e("a", "5"), e("é", "6"), e("", "7")];
    let out: Vec<(String, String)> = sort_by_term(v)
        .into_iter()
        .map(|x| (x.term, x.definitions.0[0].text.clone()))
        .collect();
    let want = [("", "7"), ("B", "2"), ("a", "5"), ("ab", "3"), ("b", "1"), ("b", "4"), ("é", "6")];
    let want: Vec<(String, String)> = want.iter().map(|(a, b)| (a.to_string(), b.to_string())).collect();
    assert_eq!(out, want);
}

#[test]
fn fields_with_special_characters_are_quoted() {
    let doc = map(vec![
        ("a,b", s("say \"hi\"")),
        ("line", s("one\ntwo")),
        ("plain", Node::Sequence(vec![s("x"), s("y")])),
    ]);
    assert_eq!(
        run(vec![doc], false),
        "\"a,b\",\"say \"\"hi\"\"\"\nline,\"one\ntwo\"\nplain,x; y\n"
    );
}

#[test]
fn rendered_rows_read_back() {
    let doc = map(vec![
        ("a,b", s("say \"hi\"")),
        ("cr", s("x\ry")),
        ("", Node::Sequence(vec![s("p, q"), s("r")])),
    ]);
    let out = run(vec![doc], false);
    let mut rdr = csv::ReaderBuilder::new().has_headers(false).from_reader(out.as_bytes());
    let rows: Vec<(String, String)> = rdr
        .records()
        .map(|r| {
            let r = r.unwrap();
            (r[0].to_string(), r[1].to_string())
        })
        .collect();
    let want = [("a,b", "say \"hi\""), ("cr", "x\ry"), ("", "p, q; r")];
    let want: Vec<(String, String)> = want.iter().map(|(a, b)| (a.to_string(), b.to_string())).collect();
    assert_eq!(rows, want);
}

#[test]
fn entry_row_renders_term_and_display() {
    let e = Entry::from(("dog".to_string(), Definitions(vec![Definition { text: "a canine".to_string(), note: Some("n".to_string()) }])));
    assert_eq!(e.to_csv_row().unwrap(), "dog,a canine\n");
}
