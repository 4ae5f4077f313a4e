//! Merging the entries of many documents, ordering them, and rendering them
//! as two-column CSV.
use vstd::prelude::*;
use vstd::multiset::Multiset;
use crate::definition::{join_texts, texts};
use crate::term::{Dictionary, Entry, EntryView, entries_view};
use crate::text::{text_le, str_le, lemma_text_le_refl, lemma_text_le_total, lemma_text_le_trans};

verus! {

/// The entries of each document in turn, in document order.
pub open spec fn concat_all(s: Seq<Seq<EntryView>>) -> Seq<EntryView>
    decreases s.len(),
{
    if s.len() == 0 {
        Seq::empty()
    } else {
        concat_all(s.drop_last()) + s.last()
    }
}

/// The entry views of each dictionary, in order.
pub open spec fn dictionaries_view(ds: Seq<Dictionary>) -> Seq<Seq<EntryView>> {
    ds.map_values(|d: Dictionary| entries_view(d.terms@))
}

/// True when the terms of `s` never decrease.
pub open spec fn sorted_by_term(s: Seq<EntryView>) -> bool {
    forall|i: int, j: int| 0 <= i < j < s.len() ==> text_le(#[trigger] s[i].0, #[trigger] s[j].0)
}

/// The test for an entry with the term `t`.
pub open spec fn has_term(t: Seq<char>) -> spec_fn(EntryView) -> bool {
    |e: EntryView| e.0 == t
}

/// The entries of `s` whose term is `t`, in order.
pub open spec fn with_term(s: Seq<EntryView>, t: Seq<char>) -> Seq<EntryView> {
    s.filter(has_term(t))
}

proof fn lemma_with_term_none(s: Seq<EntryView>, t: Seq<char>)
    requires
        forall|i: int| 0 <= i < s.len() ==> (#[trigger] s[i]).0 != t,
    ensures
        with_term(s, t) == Seq::<EntryView>::empty(),
    decreases s.len(),
{
    reveal(Seq::filter);
    if s.len() > 0 {
        lemma_with_term_none(s.drop_last(), t);
    }
}

proof fn lemma_with_term_one(e: EntryView, t: Seq<char>)
    ensures
        with_term(seq![e], t) == (if e.0 == t {
            seq![e]
        } else {
            Seq::<EntryView>::empty()
        }),
{
    reveal_with_fuel(Seq::filter, 2);
    assert(seq![e].drop_last() =~= Seq::<EntryView>::empty());
    assert(Seq::<EntryView>::empty().push(e) =~= seq![e]);
}

/// Concatenates the entries of all dictionaries, in dictionary order and,
/// within a dictionary, in entry order.
pub fn flatten(docs: Vec<Dictionary>) -> (r: Vec<Entry>)
    ensures
        entries_view(r@) == concat_all(dictionaries_view(docs@)),
{
    let ghost all = dictionaries_view(docs@);
    let mut rest = docs;
    let mut out: Vec<Entry> = Vec::new();
    let ghost n = all.len();
    assert(all.subrange(0, 0) =~= Seq::<Seq<EntryView>>::empty());
    while rest.len() > 0
        invariant
            n == all.len(),
            rest@.len() <= n,
            dictionaries_view(rest@) == all.subrange(n - rest@.len(), n as int),
            entries_view(out@) == concat_all(all.subrange(0, n - rest@.len())),
        decreases rest@.len(),
    {
        let ghost k = n - rest@.len();
        let ghost before = rest@;
        let mut d = rest.remove(0);
        assert(dictionaries_view(before)[0] == all.subrange(k, n as int)[0]);
        assert(all[k] == entries_view(d.terms@));
        assert forall|i: int| 0 <= i < rest@.len() implies #[trigger] dictionaries_view(rest@)[i]
            == all[k + 1 + i] by {
            assert(rest@[i] == before[i + 1]);
            assert(dictionaries_view(before)[i + 1] == all.subrange(k, n as int)[i + 1]);
        }
        assert(dictionaries_view(rest@) =~= all.subrange(k + 1, n as int));
        out.append(&mut d.terms);
        assert(all.subrange(0, k + 1).drop_last() =~= all.subrange(0, k));
        assert(entries_view(out@) =~= concat_all(all.subrange(0, k + 1)));
    }
    assert(all.subrange(0, n as int) =~= all);
    out
}

/// Orders entries by term, code point by code point; entries with equal
/// terms keep their relative order. The result holds the same entries.
pub fn sort_by_term(v: Vec<Entry>) -> (r: Vec<Entry>)
    ensures
        sorted_by_term(entries_view(r@)),
        entries_view(r@).to_multiset() == entries_view(v@).to_multiset(),
        forall|t: Seq<char>| #[trigger] with_term(entries_view(r@), t) == with_term(entries_view(v@), t),
{
    broadcast use vstd::seq_lib::group_to_multiset_ensures;

    let ghost all = entries_view(v@);
    let mut rest = v;
    let mut out: Vec<Entry> = Vec::new();
    assert(entries_view(out@) =~= Seq::<EntryView>::empty());
    assert(entries_view(out@).to_multiset() =~= Multiset::empty());
    assert forall|t: Seq<char>| #[trigger] with_term(all, t) == with_term(entries_view(out@), t)
        + with_term(entries_view(rest@), t) by {
        reveal(Seq::filter);
        assert(with_term(entries_view(out@), t) =~= Seq::<EntryView>::empty());
        assert(Seq::<EntryView>::empty() + with_term(all, t) =~= with_term(all, t));
    }
    while rest.len() > 0
        invariant
            sorted_by_term(entries_view(out@)),
            entries_view(out@).to_multiset().add(entries_view(rest@).to_multiset())
                == all.to_multiset(),
            forall|t: Seq<char>| #[trigger] with_term(all, t) == with_term(entries_view(out@), t)
                + with_term(entries_view(rest@), t),
        decreases rest@.len(),
    {
        let ghost before = rest@;
        let e = rest.remove(0);
        proof {
            assert(entries_view(rest@) =~= entries_view(before).remove(0));
            vstd::seq_lib::to_multiset_remove(entries_view(before), 0);
            assert(entries_view(before)[0] == e@);
            assert(entries_view(before).contains(e@));
        }
        let mut j: usize = out.len();
        while j > 0 && !str_le(out[j - 1].term.as_str(), e.term.as_str())
            invariant
                j <= out@.len(),
                forall|k: int| j <= k < out@.len() ==> !text_le(#[trigger] out@[k].term@, e.term@),
            decreases j,
        {
            j = j - 1;
        }
        let ghost old_out = entries_view(out@);
        proof {
            assert forall|k: int| 0 <= k < j implies text_le(#[trigger] old_out[k].0, e.term@) by {
                if k < j - 1 {
                    assert(text_le(old_out[k].0, old_out[j - 1].0));
                    lemma_text_le_trans(old_out[k].0, old_out[j - 1].0, e.term@);
                }
            }
            assert forall|k: int| j <= k < old_out.len() implies text_le(
                e.term@,
                #[trigger] old_out[k].0,
            ) by {
                lemma_text_le_total(e.term@, old_out[k].0);
            }
        }
        out.insert(j, e);
        proof {
            let nv = entries_view(out@);
            assert(nv =~= old_out.insert(j as int, e@));
            vstd::seq_lib::to_multiset_insert(old_out, j as int, e@);
            assert forall|a: int, b: int| 0 <= a < b < nv.len() implies text_le(
                #[trigger] nv[a].0,
                #[trigger] nv[b].0,
            ) by {
                if a < j && b > j {
                    assert(text_le(old_out[a].0, old_out[b - 1].0));
                } else if a > j {
                    assert(text_le(old_out[a - 1].0, old_out[b - 1].0));
                }
            }
            let mo = old_out.to_multiset();
            let mb = entries_view(before).to_multiset();
            assert(mo.add(mb) == all.to_multiset());
            assert(entries_view(before)[0] == e@);
            assert(entries_view(before).contains(e@));
            vstd::seq_lib::to_multiset_contains(entries_view(before), e@);
            assert(mb.count(e@) > 0);
            assert(mo.insert(e@).add(mb.remove(e@)) =~= mo.add(mb));
            assert(entries_view(out@).to_multiset().add(entries_view(rest@).to_multiset())
                =~= all.to_multiset());
            let a = old_out.subrange(0, j as int);
            let b = old_out.subrange(j as int, old_out.len() as int);
            let rv = entries_view(rest@);
            assert(old_out =~= a + b);
            assert(nv =~= a + seq![e@] + b);
            assert(entries_view(before) =~= seq![e@] + rv);
            assert forall|t: Seq<char>| #[trigger] with_term(all, t) == with_term(nv, t) + with_term(rv, t) by {
                Seq::filter_distributes_over_add(a, b, has_term(t));
                Seq::filter_distributes_over_add(a + seq![e@], b, has_term(t));
                Seq::filter_distributes_over_add(a, seq![e@], has_term(t));
                Seq::filter_distributes_over_add(seq![e@], rv, has_term(t));
                lemma_with_term_one(e@, t);
                assert(with_term(all, t) == with_term(old_out, t) + with_term(entries_view(before), t));
                if e@.0 == t {
                    assert forall|i: int| 0 <= i < b.len() implies (#[trigger] b[i]).0 != t by {
                        assert(!text_le(old_out[j + i].0, e.term@));
                        lemma_text_le_refl(t);
                    }
                    lemma_with_term_none(b, t);
                    assert(with_term(nv, t) + with_term(rv, t) =~= with_term(a, t) + seq![e@] + with_term(rv, t));
                    assert(with_term(old_out, t) + with_term(entries_view(before), t)
                        =~= with_term(a, t) + with_term(b, t) + (seq![e@] + with_term(rv, t)));
                } else {
                    assert(with_term(nv, t) =~= with_term(a, t) + with_term(b, t));
                    assert(with_term(entries_view(before), t) =~= with_term(rv, t));
                }
            }
        }
    }
    assert(entries_view(rest@) =~= Seq::<EntryView>::empty());
    assert(entries_view(out@).to_multiset().add(Multiset::empty()) =~= entries_view(out@).to_multiset());
    assert forall|t: Seq<char>| #[trigger] with_term(entries_view(out@), t) == with_term(all, t) by {
        reveal(Seq::filter);
        assert(with_term(entries_view(rest@), t) =~= Seq::<EntryView>::empty());
        assert(with_term(entries_view(out@), t) + with_term(entries_view(rest@), t)
            =~= with_term(entries_view(out@), t));
    }
    out
}

/// The characters that make the csv writer quote a field.
pub open spec fn csv_special(c: char) -> bool {
    c == ',' || c == '"' || c == '\r' || c == '\n'
}

/// True when a field holds a character that forces quoting.
pub open spec fn needs_quotes(f: Seq<char>) -> bool {
    exists|i: int| 0 <= i < f.len() && csv_special(#[trigger] f[i])
}

/// A field with each double quote doubled.
pub open spec fn escape_quotes(f: Seq<char>) -> Seq<char>
    decreases f.len(),
{
    if f.len() == 0 {
        Seq::empty()
    } else {
        (if f[0] == '"' {
            seq!['"', '"']
        } else {
            seq![f[0]]
        }) + escape_quotes(f.drop_first())
    }
}

/// A field as written by the csv writer: as it is, or in double quotes with
/// its quotes doubled when it holds a special character.
pub open spec fn csv_field(f: Seq<char>) -> Seq<char> {
    if needs_quotes(f) {
        seq!['"'] + escape_quotes(f) + seq!['"']
    } else {
        f
    }
}

/// A record of two fields as written by the csv writer, with its terminator.
pub open spec fn csv_row(a: Seq<char>, b: Seq<char>) -> Seq<char> {
    csv_field(a) + seq![','] + csv_field(b) + seq!['\n']
}

/// Relies on `csv::Writer::write_record` (default configuration, no header
/// row, writing into memory): a field is quoted exactly when it holds a
/// comma, a double quote, a carriage return or a line feed; quotes inside a
/// quoted field are doubled; the record ends with a line feed. Writing one
/// record into a `Vec` cannot fail, and the output of UTF-8 fields is UTF-8.
#[verifier::external_body]
fn write_csv_row(a: &str, b: &str) -> (r: Option<String>)
    ensures
        r is Some,
        r matches Some(s) ==> s@ == csv_row(a@, b@),
{
    let mut w = csv::WriterBuilder::new().has_headers(false).from_writer(Vec::new());
    w.write_record([a, b]).ok()?;
    let bytes = w.into_inner().ok()?;
    String::from_utf8(bytes).ok()
}

/// The output row of an entry: its term and its displayed definitions.
pub open spec fn row_of(e: EntryView) -> Seq<char> {
    csv_row(e.0, join_texts(texts(e.1)))
}

/// The output rows of entries, in order.
pub open spec fn rows_of(s: Seq<EntryView>) -> Seq<char>
    decreases s.len(),
{
    if s.len() == 0 {
        Seq::empty()
    } else {
        rows_of(s.drop_last()) + row_of(s.last())
    }
}

impl Entry {
    /// Renders the entry as one CSV record: the term, then the definition
    /// texts joined with `"; "`. Always `Some`.
    pub fn to_csv_row(&self) -> (r: Option<String>)
        ensures
            r matches Some(s) && s@ == row_of(self@),
    {
        let text = self.definitions.to_display_string();
        write_csv_row(self.term.as_str(), text.as_str())
    }
}

/// Renders entries as CSV records without a header, in order. Always
/// `Some`.
pub fn render(entries: &Vec<Entry>) -> (r: Option<String>)
    ensures
        r matches Some(s) && s@ == rows_of(entries_view(entries@)),
{
    let mut out = String::new();
    let mut i: usize = 0;
    assert(entries_view(entries@).subrange(0, 0) =~= Seq::<EntryView>::empty());
    while i < entries.len()
        invariant
            i <= entries@.len(),
            out@ == rows_of(entries_view(entries@).subrange(0, i as int)),
        decreases entries@.len() - i,
    {
        let row = match entries[i].to_csv_row() {
            Some(row) => row,
            None => return None,
        };
        out.append(row.as_str());
        let ghost all = entries_view(entries@);
        assert(all.subrange(0, i + 1).drop_last() =~= all.subrange(0, i as int));
        i = i + 1;
    }
    assert(entries_view(entries@).subrange(0, i as int) =~= entries_view(entries@));
    Some(out)
}

/// Merges the dictionaries' entries: all of them, in dictionary order then
/// entry order, or, with `sort`, ordered by term with entries of equal terms
/// left in that order.
pub fn merge(docs: Vec<Dictionary>, sort: bool) -> (r: Vec<Entry>)
    ensures
        !sort ==> entries_view(r@) == concat_all(dictionaries_view(docs@)),
        sort ==> sorted_by_term(entries_view(r@)),
        sort ==> entries_view(r@).to_multiset() == concat_all(
            dictionaries_view(docs@),
        ).to_multiset(),
        sort ==> forall|t: Seq<char>| #[trigger] with_term(entries_view(r@), t) == with_term(
            concat_all(dictionaries_view(docs@)),
            t,
        ),
{
    let all = flatten(docs);
    if sort {
        sort_by_term(all)
    } else {
        all
    }
}

} // verus!
