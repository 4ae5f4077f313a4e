//! An untyped, already parsed value of a source document.
use vstd::prelude::*;

verus! {

/// The shape of a raw value as a structured-data decoder hands it over.
pub enum Node {
    /// A string scalar.
    Str(String),
    /// A number or a boolean, with its text.
    Scalar(String),
    /// The null scalar.
    Null,
    /// Any other value, such as a tagged one.
    Other,
    /// A sequence of values, in source order.
    Sequence(Vec<Node>),
    /// A mapping, as its key/value pairs in source order.
    Mapping(Vec<(Node, Node)>),
}

/// The text of a string, number or boolean.
pub open spec fn scalar_text(n: Node) -> Option<Seq<char>> {
    match n {
        Node::Str(s) => Some(s@),
        Node::Scalar(s) => Some(s@),
        _ => None,
    }
}

/// True when `n` is a scalar whose text is `k`.
pub open spec fn is_str_key(n: Node, k: Seq<char>) -> bool {
    scalar_text(n) == Some(k)
}

/// The text of a string, number or boolean.
pub fn scalar_str(n: &Node) -> (r: Option<&String>)
    ensures
        match r {
            Some(s) => scalar_text(*n) == Some(s@),
            None => scalar_text(*n) is None,
        },
{
    match n {
        Node::Str(s) => Some(s),
        Node::Scalar(s) => Some(s),
        _ => None,
    }
}

/// The value of the first pair of `m` whose key is the string `k`.
pub open spec fn lookup(m: Seq<(Node, Node)>, k: Seq<char>) -> Option<Node>
    decreases m.len(),
{
    if m.len() == 0 {
        None
    } else if is_str_key(m[0].0, k) {
        Some(m[0].1)
    } else {
        lookup(m.drop_first(), k)
    }
}

} // verus!
