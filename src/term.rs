//! Entries of a dictionary, and the decoding of a whole source document.
use vstd::prelude::*;
use crate::node::{Node, scalar_str, scalar_text};
use crate::definition::{
    Definitions, DefinitionView, LoadError, definitions_of, definitions_error, opt_view,
};

verus! {

/// An entry as a mathematical value: its term and its definitions.
pub type EntryView = (Seq<char>, Seq<DefinitionView>);

/// One output row: a term with its definitions.
pub struct Entry {
    pub term: String,
    pub definitions: Definitions,
}

impl View for Entry {
    type V = EntryView;

    open spec fn view(&self) -> EntryView {
        (self.term@, self.definitions@)
    }
}

impl From<(String, Definitions)> for Entry {
    fn from(p: (String, Definitions)) -> (r: Entry)
        ensures
            r@ == (p.0@, p.1@),
    {
        let (term, definitions) = p;
        Entry { term, definitions }
    }
}

impl vstd::std_specs::convert::FromSpecImpl<(String, Definitions)> for Entry {
    open spec fn obeys_from_spec() -> bool {
        true
    }

    open spec fn from_spec(p: (String, Definitions)) -> Entry {
        Entry { term: p.0, definitions: p.1 }
    }
}

/// The views of a sequence of entries.
pub open spec fn entries_view(s: Seq<Entry>) -> Seq<EntryView> {
    s.map_values(|e: Entry| e@)
}

/// True when a key/value pair of a document is a scalar term (a string, a
/// number or a boolean, read as its text) with a well-shaped definition
/// field.
pub open spec fn pair_ok(p: (Node, Node)) -> bool {
    scalar_text(p.0) is Some && definitions_of(p.1) is Some
}

/// The entry that a well-shaped key/value pair stands for.
pub open spec fn pair_entry(p: (Node, Node)) -> EntryView {
    (scalar_text(p.0)->0, definitions_of(p.1)->0)
}

/// The error that a key/value pair that is not well shaped reports.
pub open spec fn pair_error(p: (Node, Node), e: LoadError) -> bool {
    if scalar_text(p.0) is Some {
        definitions_error(p.1, e)
    } else {
        e == LoadError::MalformedDocument
    }
}

/// True when `i` is the position of the first pair of `m` that is not well
/// shaped.
pub open spec fn first_bad_pair(m: Seq<(Node, Node)>, i: int) -> bool {
    &&& 0 <= i < m.len()
    &&& !pair_ok(m[i])
    &&& forall|j: int| 0 <= j < i ==> #[trigger] pair_ok(m[j])
}

/// The entries of a document, one per key/value pair in source order, if the
/// document is a mapping whose pairs are all well shaped.
pub open spec fn document_entries(doc: Node) -> Option<Seq<EntryView>> {
    match doc {
        Node::Mapping(m) => if forall|i: int| 0 <= i < m@.len() ==> #[trigger] pair_ok(m@[i]) {
            Some(m@.map_values(|p: (Node, Node)| pair_entry(p)))
        } else {
            None
        },
        _ => None,
    }
}

/// The error that decoding a document that is not well shaped reports.
pub open spec fn document_error(doc: Node, e: LoadError) -> bool {
    match doc {
        Node::Mapping(m) => exists|i: int| #[trigger]
            first_bad_pair(m@, i) && pair_error(m@[i], e),
        _ => e == LoadError::MalformedDocument,
    }
}

/// What `std::path::Path::file_stem` returns for a path, as text.
pub uninterp spec fn file_stem_of(path: Seq<char>) -> Option<Seq<char>>;

/// Relies on `std::path::Path::file_stem`: the final component of the path
/// without its extension, or nothing when the path has no file name.
#[verifier::external_body]
fn file_stem(path: &str) -> (r: Option<String>)
    ensures
        opt_view(r) == file_stem_of(path@),
{
    std::path::Path::new(path).file_stem().map(|s| s.to_string_lossy().into_owned())
}

/// The decoded entries of one source document, with the document's name.
pub struct Dictionary {
    pub name: String,
    pub terms: Vec<Entry>,
}

impl Dictionary {
    /// Decodes a parsed document, a mapping from terms to definition
    /// fields, into a dictionary called `name`. Pairs keep their source order;
    /// a term that occurs twice gives two entries.
    pub fn from_document(name: String, doc: &Node) -> (r: Result<Dictionary, LoadError>)
        ensures
            r is Ok ==> r->Ok_0.name@ == name@ && document_entries(*doc) == Some(
                entries_view(r->Ok_0.terms@),
            ),
            r is Err ==> document_entries(*doc) is None && document_error(*doc, r->Err_0),
    {
        match doc {
            Node::Mapping(m) => {
                let mut terms: Vec<Entry> = Vec::new();
                let mut i: usize = 0;
                while i < m.len()
                    invariant
                        *doc == Node::Mapping(*m),
                        i <= m@.len(),
                        terms@.len() == i,
                        forall|j: int| 0 <= j < i ==> #[trigger] pair_ok(m@[j]),
                        forall|j: int|
                            0 <= j < i ==> pair_entry(m@[j]) == (#[trigger] terms@[j])@,
                    decreases m@.len() - i,
                {
                    let ghost k = i as int;
                    match scalar_str(&m[i].0) {
                        Some(t) => match Definitions::decode(&m[i].1) {
                            Ok(defs) => {
                                terms.push(Entry { term: t.clone(), definitions: defs });
                            },
                            Err(e) => {
                                assert(first_bad_pair(m@, k));
                                return Err(e);
                            },
                        },
                        None => {
                            assert(first_bad_pair(m@, k));
                            return Err(LoadError::MalformedDocument);
                        },
                    }
                    i = i + 1;
                }
                let r = Dictionary { name, terms };
                assert(entries_view(r.terms@) =~= m@.map_values(
                    |p: (Node, Node)| pair_entry(p),
                ));
                Ok(r)
            },
            _ => Err(LoadError::MalformedDocument),
        }
    }

    /// Decodes a parsed document read from the source `path`. The dictionary
    /// is named after the path's file stem; a path without one is refused.
    pub fn from_source(path: &str, doc: &Node) -> (r: Result<Dictionary, LoadError>)
        ensures
            file_stem_of(path@) is None ==> r == Err::<Dictionary, LoadError>(
                LoadError::UnnamedSource,
            ),
            file_stem_of(path@) is Some ==> (r is Ok <==> document_entries(*doc) is Some),
            r is Ok ==> document_entries(*doc) == Some(entries_view(r->Ok_0.terms@))
                && file_stem_of(path@) == Some(r->Ok_0.name@),
            r is Err && file_stem_of(path@) is Some ==> document_error(*doc, r->Err_0),
    {
        match file_stem(path) {
            Some(name) => Dictionary::from_document(name, doc),
            None => Err(LoadError::UnnamedSource),
        }
    }
}

} // verus!
