//! Properties that relate the decoders, the display rule and the CSV output.
use vstd::prelude::*;
use crate::node::{Node, lookup, scalar_text};
use crate::definition::{
    DefinitionView, all_definitions, def_key, definition_of, definitions_of, join_texts,
    note_key, opt_view, texts,
};
use crate::term::EntryView;
use crate::merge::{csv_field, csv_row, csv_special, escape_quotes, needs_quotes, row_of, sorted_by_term};
use crate::text::text_le;

verus! {

/// A string decodes to a definition with that text and no note.
pub proof fn lemma_scalar_definition(s: String)
    ensures
        definition_of(Node::Str(s)) == Some((s@, None::<Seq<char>>)),
{
}

/// A mapping with the text `t` under `def` and the note `n` (or no note)
/// under `note` decodes to a definition with that text and that note.
pub proof fn lemma_structured_definition(m: Vec<(Node, Node)>, t: String, n: Option<String>)
    requires
        lookup(m@, def_key()) == Some(Node::Str(t)),
        match n {
            Some(x) => lookup(m@, note_key()) == Some(Node::Str(x)),
            None => lookup(m@, note_key()) is None,
        },
    ensures
        definition_of(Node::Mapping(m)) == Some((t@, opt_view(n))),
{
}

/// A value that is neither a string nor a mapping with a scalar under `def`
/// is no definition.
pub proof fn lemma_other_shapes_rejected(n: Node)
    requires
        !(n is Str),
        !(n matches Node::Mapping(m) && lookup(m@, def_key()) matches Some(d) && scalar_text(d) is Some),
    ensures
        definition_of(n) is None,
{
}

/// A field that is not a sequence normalizes to the one-element list of its
/// decoded definition.
pub proof fn lemma_single_shape(n: Node)
    requires
        !(n is Sequence),
    ensures
        definitions_of(n) == (match definition_of(n) {
            Some(d) => Some(seq![d]),
            None => None::<Seq<DefinitionView>>,
        }),
{
}

/// A sequence of `k` definitions normalizes to a list of `k` definitions in
/// the same order; the empty sequence gives the empty list.
pub proof fn lemma_multiple_shape(v: Vec<Node>)
    requires
        all_definitions(v@),
    ensures
        definitions_of(Node::Sequence(v)) matches Some(ds) && ds.len() == v@.len() && forall|i: int|
            0 <= i < v@.len() ==> ds[i] == definition_of(v@[i])->0,
        v@.len() == 0 ==> definitions_of(Node::Sequence(v)) == Some(Seq::<DefinitionView>::empty()),
{
    if v@.len() == 0 {
        assert(definitions_of(Node::Sequence(v))->0 =~= Seq::<DefinitionView>::empty());
    }
}

/// The displayed string depends on the texts alone: lists with the same
/// texts and any notes display alike.
pub proof fn lemma_display_ignores_notes(a: Seq<DefinitionView>, b: Seq<DefinitionView>)
    requires
        a.len() == b.len(),
        forall|i: int| 0 <= i < a.len() ==> (#[trigger] a[i]).0 == b[i].0,
    ensures
        join_texts(texts(a)) == join_texts(texts(b)),
{
    assert(texts(a) =~= texts(b));
}

/// In a list ordered by term each entry's term is at most the next one's.
pub proof fn lemma_sorted_adjacent(s: Seq<EntryView>)
    requires
        sorted_by_term(s),
    ensures
        forall|i: int| 0 <= i < s.len() - 1 ==> text_le((#[trigger] s[i]).0, s[i + 1].0),
{
    assert forall|i: int| 0 <= i < s.len() - 1 implies text_le((#[trigger] s[i]).0, s[i + 1].0) by {
        assert(text_le(s[i].0, s[i + 1].0));
    }
}

/// Reads the rest of a quoted CSV field, after its opening quote: the
/// content with doubled quotes undone, and what follows the closing quote.
pub open spec fn read_quoted(s: Seq<char>) -> Option<(Seq<char>, Seq<char>)>
    decreases s.len(),
{
    if s.len() == 0 {
        None
    } else if s[0] == '"' {
        if s.len() > 1 && s[1] == '"' {
            match read_quoted(s.subrange(2, s.len() as int)) {
                Some((f, r)) => Some((seq!['"'] + f, r)),
                None => None,
            }
        } else {
            Some((Seq::empty(), s.drop_first()))
        }
    } else {
        match read_quoted(s.drop_first()) {
            Some((f, r)) => Some((seq![s[0]] + f, r)),
            None => None,
        }
    }
}

/// Reads an unquoted CSV field: everything up to a comma or a line feed.
pub open spec fn read_plain(s: Seq<char>) -> (Seq<char>, Seq<char>)
    decreases s.len(),
{
    if s.len() == 0 || s[0] == ',' || s[0] == '\n' {
        (Seq::empty(), s)
    } else {
        (seq![s[0]] + read_plain(s.drop_first()).0, read_plain(s.drop_first()).1)
    }
}

/// Reads one CSV field from the start of `s`, and what follows it.
pub open spec fn read_field(s: Seq<char>) -> Option<(Seq<char>, Seq<char>)> {
    if s.len() > 0 && s[0] == '"' {
        read_quoted(s.drop_first())
    } else {
        Some(read_plain(s))
    }
}

/// Reads a CSV record of two fields ending in a line feed.
pub open spec fn parse_row(s: Seq<char>) -> Option<(Seq<char>, Seq<char>)> {
    match read_field(s) {
        Some((a, r1)) => if r1.len() > 0 && r1[0] == ',' {
            match read_field(r1.drop_first()) {
                Some((b, r2)) => if r2 == seq!['\n'] {
                    Some((a, b))
                } else {
                    None
                },
                None => None,
            }
        } else {
            None
        },
        None => None,
    }
}

proof fn lemma_read_quoted(f: Seq<char>, rest: Seq<char>)
    requires
        rest.len() > 0,
        rest[0] != '"',
    ensures
        read_quoted(escape_quotes(f) + seq!['"'] + rest) == Some((f, rest)),
    decreases f.len(),
{
    let s = escape_quotes(f) + seq!['"'] + rest;
    if f.len() == 0 {
        assert(escape_quotes(f) =~= Seq::<char>::empty());
        assert(s =~= seq!['"'] + rest);
        assert(s.drop_first() =~= rest);
    } else {
        let t = f.drop_first();
        lemma_read_quoted(t, rest);
        let s2 = escape_quotes(t) + seq!['"'] + rest;
        if f[0] == '"' {
            assert(s =~= seq!['"', '"'] + s2);
            assert(s.subrange(2, s.len() as int) =~= s2);
        } else {
            assert(s =~= seq![f[0]] + s2);
            assert(s.drop_first() =~= s2);
        }
        assert(f =~= seq![f[0]] + t);
    }
}

proof fn lemma_read_plain(f: Seq<char>, rest: Seq<char>)
    requires
        !needs_quotes(f),
        rest.len() > 0,
        rest[0] == ',' || rest[0] == '\n',
    ensures
        read_plain(f + rest) == (f, rest),
    decreases f.len(),
{
    let s = f + rest;
    if f.len() == 0 {
        assert(s =~= rest);
    } else {
        let t = f.drop_first();
        assert(!csv_special(f[0]));
        assert(!needs_quotes(t)) by {
            if needs_quotes(t) {
                let i = choose|i: int| 0 <= i < t.len() && csv_special(#[trigger] t[i]);
                assert(csv_special(f[i + 1]));
            }
        }
        lemma_read_plain(t, rest);
        assert(s.drop_first() =~= t + rest);
        assert(f =~= seq![f[0]] + t);
    }
}

proof fn lemma_read_field(f: Seq<char>, rest: Seq<char>)
    requires
        rest.len() > 0,
        rest[0] == ',' || rest[0] == '\n',
    ensures
        read_field(csv_field(f) + rest) == Some((f, rest)),
{
    if needs_quotes(f) {
        let s = csv_field(f) + rest;
        assert(s.drop_first() =~= escape_quotes(f) + seq!['"'] + rest);
        lemma_read_quoted(f, rest);
    } else {
        if f.len() > 0 {
            assert(!csv_special(f[0]));
        }
        lemma_read_plain(f, rest);
    }
}

/// Reading back a rendered record gives its two fields.
pub proof fn lemma_csv_round_trip(a: Seq<char>, b: Seq<char>)
    ensures
        parse_row(csv_row(a, b)) == Some((a, b)),
{
    let r1 = seq![','] + csv_field(b) + seq!['\n'];
    assert(csv_row(a, b) =~= csv_field(a) + r1);
    lemma_read_field(a, r1);
    assert(r1.drop_first() =~= csv_field(b) + seq!['\n']);
    lemma_read_field(b, seq!['\n']);
}

/// Reading back an entry's output row gives its term and its displayed
/// definitions.
pub proof fn lemma_row_round_trip(e: EntryView)
    ensures
        parse_row(row_of(e)) == Some((e.0, join_texts(texts(e.1)))),
{
    lemma_csv_round_trip(e.0, join_texts(texts(e.1)));
}

} // verus!
