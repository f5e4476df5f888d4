//! The selector builder: turns a deployment's match-label mapping into the
//! `key=value,key=value` query text. Pairs are emitted in sorted order, so
//! the text depends only on the mapping itself, not on the order in which
//! its entries were handed over.

use crate::model::{label_views, Deployment, Label};
use crate::order::{lemma_pair_order_total, pair_le, pair_order};
use vstd::prelude::*;
use vstd::relations::sorted_by;
use vstd::seq_lib::lemma_sorted_unique;
use vstd::seq_lib::to_multiset_build;
use vstd::seq_lib::to_multiset_insert;
use vstd::string::StringExecFns;

verus! {

/// The selector text for pairs taken in the order given: `key=value`
/// entries joined with commas.
pub open spec fn selector_text(pairs: Seq<(Seq<char>, Seq<char>)>) -> Seq<char>
    decreases pairs.len(),
{
    if pairs.len() == 0 {
        Seq::empty()
    } else {
        let entry = pairs.last().0 + seq!['='] + pairs.last().1;
        if pairs.len() == 1 {
            entry
        } else {
            selector_text(pairs.drop_last()) + seq![','] + entry
        }
    }
}

/// The selector text of a mapping: its pairs in sorted order, joined.
pub open spec fn selector_of(pairs: Seq<(Seq<char>, Seq<char>)>) -> Seq<char> {
    selector_text(pairs.sort_by(pair_order()))
}

/// The selector builder is deterministic: two enumerations of the same
/// label mapping, in whatever order, yield the same selector text.
pub proof fn lemma_selector_deterministic(
    a: Seq<(Seq<char>, Seq<char>)>,
    b: Seq<(Seq<char>, Seq<char>)>,
)
    requires
        a.to_multiset() == b.to_multiset(),
    ensures
        selector_of(a) == selector_of(b),
{
    lemma_pair_order_total();
    a.lemma_sort_by_ensures(pair_order());
    b.lemma_sort_by_ensures(pair_order());
    assert(a.sort_by(pair_order()).to_multiset() == b.sort_by(pair_order()).to_multiset());
    lemma_sorted_unique(a.sort_by(pair_order()), b.sort_by(pair_order()), pair_order());
}

fn clone_label(l: &Label) -> (r: Label)
    ensures
        r@ == l@,
{
    Label { key: l.key.clone(), value: l.value.clone() }
}

/// Compares two string slices in the lexicographic order of `lex_le`.
fn str_le_exec(a: &str, b: &str) -> (r: bool)
    ensures
        r == crate::order::lex_le(a@, b@),
{
    let alen = a.unicode_len();
    let blen = b.unicode_len();
    let mut i: usize = 0;
    proof {
        assert(a@.skip(0) =~= a@);
        assert(b@.skip(0) =~= b@);
    }
    loop
        invariant
            i <= alen,
            i <= blen,
            alen == a@.len(),
            blen == b@.len(),
            crate::order::lex_le(a@, b@) == crate::order::lex_le(
                a@.skip(i as int),
                b@.skip(i as int),
            ),
        decreases alen - i,
    {
        if i == alen {
            proof {
                assert(a@.skip(i as int).len() == 0);
            }
            return true;
        }
        if i == blen {
            proof {
                assert(b@.skip(i as int).len() == 0);
                assert(a@.skip(i as int).len() > 0);
            }
            return false;
        }
        let ca = a.get_char(i);
        let cb = b.get_char(i);
        proof {
            assert(a@.skip(i as int)[0] == a@[i as int]);
            assert(b@.skip(i as int)[0] == b@[i as int]);
        }
        if ca < cb {
            return true;
        }
        if cb < ca {
            return false;
        }
        proof {
            assert(a@.skip(i as int).skip(1) =~= a@.skip(i as int + 1));
            assert(b@.skip(i as int).skip(1) =~= b@.skip(i as int + 1));
        }
        i = i + 1;
    }
}

/// Compares two labels in the pair order: key first, then value.
fn label_le_exec(a: &Label, b: &Label) -> (r: bool)
    ensures
        r == pair_le(a@, b@),
{
    if a.key == b.key {
        str_le_exec(a.value.as_str(), b.value.as_str())
    } else {
        str_le_exec(a.key.as_str(), b.key.as_str())
    }
}

/// The position at which `l` belongs in the sorted sequence `out`.
fn insert_position(out: &Vec<Label>, l: &Label) -> (pos: usize)
    requires
        sorted_by(label_views(out@), pair_order()),
    ensures
        pos <= out.len(),
        forall|j: int| 0 <= j < pos ==> pair_le(label_views(out@)[j], l@),
        pos < out.len() ==> pair_le(l@, label_views(out@)[pos as int]),
{
    let mut pos: usize = 0;
    loop
        invariant
            pos <= out.len(),
            forall|j: int| 0 <= j < pos ==> pair_le(label_views(out@)[j], l@),
        decreases out.len() - pos,
    {
        if pos == out.len() {
            return pos;
        }
        if !label_le_exec(&out[pos], l) {
            proof {
                lemma_pair_order_total();
                assert(pair_order()(label_views(out@)[pos as int], l@)
                    || pair_order()(l@, label_views(out@)[pos as int]));
                assert(label_views(out@)[pos as int] == out@[pos as int]@);
            }
            return pos;
        }
        proof {
            assert(label_views(out@)[pos as int] == out@[pos as int]@);
        }
        pos = pos + 1;
    }
}

/// Inserts `l` into the sorted sequence `out`, keeping it sorted.
fn insert_sorted(out: &mut Vec<Label>, l: Label)
    requires
        sorted_by(label_views(old(out)@), pair_order()),
    ensures
        sorted_by(label_views(final(out)@), pair_order()),
        label_views(final(out)@).to_multiset() == label_views(old(out)@).to_multiset().insert(
            l@,
        ),
{
    let ghost prev = label_views(out@);
    let pos = insert_position(out, &l);
    let ghost lv = l@;
    out.insert(pos, l);
    proof {
        let nv = label_views(out@);
        let p = pos as int;
        assert(nv =~= prev.insert(p, lv));
        prev.insert_ensures(p, lv);
        to_multiset_insert(prev, p, lv);
        lemma_pair_order_total();
        assert forall|i: int, j: int| 0 <= i < j < nv.len() implies pair_order()(
            nv[i],
            nv[j],
        ) by {
            if i < p {
                assert(nv[i] == prev[i]);
            } else if i > p {
                assert(nv[i] == prev[i - 1]);
            }
            if j < p {
                assert(nv[j] == prev[j]);
            } else if j > p {
                assert(nv[j] == prev[j - 1]);
            }
            if j < p {
                assert(pair_order()(prev[i], prev[j]));
            } else if j == p {
                assert(pair_le(prev[i], lv));
                assert(pair_order()(nv[i], nv[j]));
            } else if i < p {
                assert(pair_order()(prev[i], prev[j - 1]));
            } else if i == p {
                assert(p < prev.len());
                assert(pair_le(lv, prev[p]));
                assert(pair_order()(nv[i], prev[p]));
                if j - 1 > p {
                    assert(pair_order()(prev[p], prev[j - 1]));
                }
            } else {
                assert(pair_order()(prev[i - 1], prev[j - 1]));
            }
        }
    }
}

/// Sorts the labels by the pair order.
fn sorted_labels(labels: &Vec<Label>) -> (r: Vec<Label>)
    ensures
        label_views(r@) == label_views(labels@).sort_by(pair_order()),
{
    let mut out: Vec<Label> = Vec::new();
    let mut i: usize = 0;
    proof {
        assert(label_views(out@) =~= Seq::<(Seq<char>, Seq<char>)>::empty());
        assert(label_views(labels@.take(0)) =~= Seq::<(Seq<char>, Seq<char>)>::empty());
        assert(label_views(out@).to_multiset() =~= label_views(
            labels@.take(0),
        ).to_multiset());
    }
    while i < labels.len()
        invariant
            i <= labels.len(),
            sorted_by(label_views(out@), pair_order()),
            label_views(out@).to_multiset() == label_views(labels@.take(i as int)).to_multiset(),
        decreases labels.len() - i,
    {
        let l = clone_label(&labels[i]);
        proof {
            assert(label_views(labels@.take(i as int + 1)) =~= label_views(
                labels@.take(i as int),
            ).push(labels@[i as int]@));
            to_multiset_build(label_views(labels@.take(i as int)), labels@[i as int]@);
        }
        insert_sorted(&mut out, l);
        i = i + 1;
    }
    proof {
        assert(labels@.take(labels@.len() as int) =~= labels@);
        lemma_pair_order_total();
        label_views(labels@).lemma_sort_by_ensures(pair_order());
        assert(label_views(out@).to_multiset() == label_views(labels@).sort_by(
            pair_order(),
        ).to_multiset());
        lemma_sorted_unique(
            label_views(out@),
            label_views(labels@).sort_by(pair_order()),
            pair_order(),
        );
    }
    out
}

/// Joins the labels, in the order given, as `key=value` entries separated
/// by commas.
fn join_pairs(labels: &Vec<Label>) -> (r: String)
    ensures
        r@ == selector_text(label_views(labels@)),
{
    let mut out = String::new();
    let mut i: usize = 0;
    proof {
        assert(label_views(labels@.take(0)) =~= Seq::<(Seq<char>, Seq<char>)>::empty());
        assert(label_views(labels@).take(0) =~= Seq::<(Seq<char>, Seq<char>)>::empty());
    }
    while i < labels.len()
        invariant
            i <= labels.len(),
            out@ == selector_text(label_views(labels@).take(i as int)),
        decreases labels.len() - i,
    {
        if i > 0 {
            out.append(",");
        }
        let l = &labels[i];
        out.append(l.key.as_str());
        out.append("=");
        out.append(l.value.as_str());
        proof {
            reveal_strlit(",");
            reveal_strlit("=");
            let views = label_views(labels@);
            assert(views.take(i as int + 1).drop_last() =~= views.take(i as int));
            assert(views.take(i as int + 1).last() == labels@[i as int]@);
            assert(","@ =~= seq![',']);
            assert("="@ =~= seq!['=']);
            assert(out@ =~= selector_text(views.take(i as int + 1)));
        }
        i = i + 1;
    }
    proof {
        assert(label_views(labels@).take(labels@.len() as int) =~= label_views(labels@));
    }
    out
}

/// The selector builder. Absent match labels mean "no selector available":
/// no text is produced. Present match labels, even zero of them, produce
/// the joined text of the sorted pairs.
pub fn label_selector(d: &Deployment) -> (r: Option<String>)
    ensures
        r is Some <==> d.match_labels is Some,
        d.match_labels matches Some(v) ==> r matches Some(s) && s@ == selector_of(
            label_views(v@),
        ),
{
    match &d.match_labels {
        None => None,
        Some(v) => {
            let sorted = sorted_labels(v);
            Some(join_pairs(&sorted))
        },
    }
}

} // verus!
