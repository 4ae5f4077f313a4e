//! Decoding of one definition, and of a one-or-many list of definitions.
use vstd::prelude::*;
use crate::node::{Node, lookup, scalar_str, scalar_text};
use crate::text::str_eq;

verus! {

/// What went wrong while decoding a source document.
#[derive(Debug, PartialEq, Eq)]
pub enum LoadError {
    /// A definition (or, with `index`, the element at that position of a
    /// definition sequence) is neither a string nor a mapping with a string
    /// under `def`.
    InvalidDefinitionShape { index: Option<usize> },
    /// The document is not a mapping from scalar terms to definitions.
    MalformedDocument,
    /// The source identifier has no file name to name the document after.
    UnnamedSource,
}

/// A definition as a mathematical value: its text and its optional note.
pub type DefinitionView = (Seq<char>, Option<Seq<char>>);

/// The characters of an optional string.
pub open spec fn opt_view(o: Option<String>) -> Option<Seq<char>> {
    match o {
        Some(s) => Some(s@),
        None => None,
    }
}

/// The key under which a structured definition holds its text.
pub open spec fn def_key() -> Seq<char> {
    seq!['d', 'e', 'f']
}

/// The key under which a structured definition holds its note.
pub open spec fn note_key() -> Seq<char> {
    seq!['n', 'o', 't', 'e']
}

/// The definition that a raw value stands for, if it has one of the two
/// accepted shapes: a string, or a mapping with a scalar under `def` and,
/// optionally, a scalar or null under `note`. Inside the mapping a number or
/// a boolean is read as its text; on its own it is no definition.
pub open spec fn definition_of(n: Node) -> Option<DefinitionView> {
    match n {
        Node::Str(s) => Some((s@, None)),
        Node::Mapping(m) => match lookup(m@, def_key()) {
            Some(d) => match scalar_text(d) {
                Some(t) => match lookup(m@, note_key()) {
                    None => Some((t, None)),
                    Some(Node::Null) => Some((t, None)),
                    Some(x) => match scalar_text(x) {
                        Some(x) => Some((t, Some(x))),
                        None => None,
                    },
                },
                None => None,
            },
            None => None,
        },
        _ => None,
    }
}

/// One canonical definition of a term.
pub struct Definition {
    pub text: String,
    pub note: Option<String>,
}

impl View for Definition {
    type V = DefinitionView;

    open spec fn view(&self) -> DefinitionView {
        (self.text@, opt_view(self.note))
    }
}

/// The value of the first pair of `m` whose key is the string `k`.
fn find_key<'a>(m: &'a Vec<(Node, Node)>, k: &str) -> (r: Option<&'a Node>)
    ensures
        match r {
            Some(v) => lookup(m@, k@) == Some(*v),
            None => lookup(m@, k@) is None,
        },
{
    let mut i: usize = 0;
    assert(m@.subrange(0, m@.len() as int) =~= m@);
    while i < m.len()
        invariant
            i <= m@.len(),
            lookup(m@, k@) == lookup(m@.subrange(i as int, m@.len() as int), k@),
        decreases m@.len() - i,
    {
        let rest = Ghost(m@.subrange(i as int, m@.len() as int));
        assert(rest@.drop_first() =~= m@.subrange(i + 1, m@.len() as int));
        if let Some(s) = scalar_str(&m[i].0) {
            if str_eq(s.as_str(), k) {
                return Some(&m[i].1);
            }
        }
        i = i + 1;
    }
    None
}

impl Definition {
    /// Decodes one definition from a string or from a structured mapping.
    pub fn decode(n: &Node) -> (r: Result<Definition, LoadError>)
        ensures
            r is Ok ==> definition_of(*n) == Some(r->Ok_0@),
            r is Err ==> definition_of(*n) is None && r->Err_0 == (LoadError::InvalidDefinitionShape {
                index: None,
            }),
    {
        proof {
            reveal_strlit("def");
            reveal_strlit("note");
            assert("def"@ == def_key());
            assert("note"@ == note_key());
        }
        match n {
            Node::Str(s) => Ok(Definition { text: s.clone(), note: None }),
            Node::Mapping(m) => {
                let t = match find_key(m, "def") {
                    Some(d) => match scalar_str(d) {
                        Some(t) => t,
                        None => return Err(LoadError::InvalidDefinitionShape { index: None }),
                    },
                    None => return Err(LoadError::InvalidDefinitionShape { index: None }),
                };
                match find_key(m, "note") {
                    None => Ok(Definition { text: t.clone(), note: None }),
                    Some(Node::Null) => Ok(Definition { text: t.clone(), note: None }),
                    Some(x) => match scalar_str(x) {
                        Some(x) => Ok(Definition { text: t.clone(), note: Some(x.clone()) }),
                        None => Err(LoadError::InvalidDefinitionShape { index: None }),
                    },
                }
            },
            _ => Err(LoadError::InvalidDefinitionShape { index: None }),
        }
    }
}

/// True when every element of a sequence has an accepted definition shape.
pub open spec fn all_definitions(v: Seq<Node>) -> bool {
    forall|i: int| 0 <= i < v.len() ==> (#[trigger] definition_of(v[i])) is Some
}

/// The definition list that a raw field stands for: a sequence is decoded
/// element by element, any other value as a single definition.
pub open spec fn definitions_of(n: Node) -> Option<Seq<DefinitionView>> {
    match n {
        Node::Sequence(v) => if all_definitions(v@) {
            Some(Seq::new(v@.len(), |i: int| definition_of(v@[i])->0))
        } else {
            None
        },
        _ => match definition_of(n) {
            Some(d) => Some(seq![d]),
            None => None,
        },
    }
}

/// True when `i` is the position of the first element of `v` that is not a
/// definition.
pub open spec fn first_invalid(v: Seq<Node>, i: int) -> bool {
    &&& 0 <= i < v.len()
    &&& definition_of(v[i]) is None
    &&& forall|j: int| 0 <= j < i ==> (#[trigger] definition_of(v[j])) is Some
}

/// The error that decoding a field as a definition list reports.
pub open spec fn definitions_error(n: Node, e: LoadError) -> bool {
    match n {
        Node::Sequence(v) => exists|i: int|
            #[trigger] first_invalid(v@, i) && e == (LoadError::InvalidDefinitionShape {
                index: Some(i as usize),
            }),
        _ => e == (LoadError::InvalidDefinitionShape { index: None }),
    }
}

/// The text of each definition, in order.
pub open spec fn texts(ds: Seq<DefinitionView>) -> Seq<Seq<char>> {
    ds.map_values(|d: DefinitionView| d.0)
}

/// The strings of `s` joined with `"; "` between neighbours.
pub open spec fn join_texts(s: Seq<Seq<char>>) -> Seq<char>
    decreases s.len(),
{
    if s.len() == 0 {
        Seq::empty()
    } else if s.len() == 1 {
        s[0]
    } else {
        join_texts(s.drop_last()) + seq![';', ' '] + s.last()
    }
}

/// The ordered definitions of one term.
pub struct Definitions(pub Vec<Definition>);

impl View for Definitions {
    type V = Seq<DefinitionView>;

    open spec fn view(&self) -> Seq<DefinitionView> {
        self.0@.map_values(|d: Definition| d@)
    }
}

impl Definitions {
    /// Decodes a field that holds either one definition or a sequence of
    /// them; the result keeps the order of the sequence.
    pub fn decode(n: &Node) -> (r: Result<Definitions, LoadError>)
        ensures
            r is Ok ==> definitions_of(*n) == Some(r->Ok_0@),
            r is Err ==> definitions_of(*n) is None && definitions_error(*n, r->Err_0),
    {
        match n {
            Node::Sequence(v) => {
                let mut out: Vec<Definition> = Vec::new();
                let mut i: usize = 0;
                while i < v.len()
                    invariant
                        *n == Node::Sequence(*v),
                        i <= v@.len(),
                        out@.len() == i,
                        forall|j: int| 0 <= j < i ==> (#[trigger] definition_of(v@[j])) == Some(
                            out@[j]@,
                        ),
                    decreases v@.len() - i,
                {
                    match Definition::decode(&v[i]) {
                        Ok(d) => out.push(d),
                        Err(_) => {
                            let e = LoadError::InvalidDefinitionShape { index: Some(i) };
                            let ghost k = i as int;
                            assert(first_invalid(v@, k));
                            return Err(e);
                        },
                    }
                    i = i + 1;
                }
                let r = Definitions(out);
                assert(r@ =~= Seq::new(v@.len(), |i: int| definition_of(v@[i])->0));
                Ok(r)
            },
            _ => match Definition::decode(n) {
                Ok(d) => {
                    let mut out: Vec<Definition> = Vec::new();
                    out.push(d);
                    let r = Definitions(out);
                    assert(r@ =~= seq![d@]);
                    Ok(r)
                },
                Err(e) => Err(e),
            },
        }
    }

    /// The texts of the definitions joined with `"; "`; notes are left out.
    pub fn to_display_string(&self) -> (r: String)
        ensures
            r@ == join_texts(texts(self@)),
    {
        let ghost all = texts(self@);
        let mut r = String::new();
        let mut i: usize = 0;
        assert(all.subrange(0, 0) =~= Seq::<Seq<char>>::empty());
        while i < self.0.len()
            invariant
                i <= self.0@.len(),
                all == texts(self@),
                all.len() == self.0@.len(),
                r@ == join_texts(all.subrange(0, i as int)),
            decreases self.0@.len() - i,
        {
            proof {
                reveal_strlit("; ");
                assert("; "@ =~= seq![';', ' ']);
            }
            let ghost before = all.subrange(0, i as int);
            assert(all.subrange(0, i + 1).drop_last() =~= before);
            assert(all[i as int] == self.0@[i as int].text@);
            let ghost next = all.subrange(0, i + 1);
            assert(next.last() == all[i as int]);
            if i > 0 {
                r.append("; ");
                r.append(self.0[i].text.as_str());
                assert(r@ =~= join_texts(next));
            } else {
                assert(r@ =~= Seq::<char>::empty());
                r.append(self.0[i].text.as_str());
                assert(r@ =~= join_texts(next));
            }
            i = i + 1;
        }
        assert(all.subrange(0, i as int) =~= all);
        r
    }
}

} // verus!
