//! A total order on label pairs, used to make the selector text a function
//! of the label mapping alone rather than of any particular iteration order.

use vstd::prelude::*;
use vstd::relations::total_ordering;

verus! {

/// Lexicographic "less than or equal" on character sequences, comparing
/// characters by their Unicode scalar values.
pub open spec fn lex_le(a: Seq<char>, b: Seq<char>) -> bool
    decreases a.len(),
{
    if a.len() == 0 {
        true
    } else if b.len() == 0 {
        false
    } else if a[0] < b[0] {
        true
    } else if b[0] < a[0] {
        false
    } else {
        lex_le(a.skip(1), b.skip(1))
    }
}

/// Order on (key, value) pairs: by key first, then by value.
pub open spec fn pair_le(a: (Seq<char>, Seq<char>), b: (Seq<char>, Seq<char>)) -> bool {
    if a.0 == b.0 {
        lex_le(a.1, b.1)
    } else {
        lex_le(a.0, b.0)
    }
}

/// The pair order as a first-class relation, so that every use names the
/// same function value.
pub open spec fn pair_order() -> spec_fn((Seq<char>, Seq<char>), (Seq<char>, Seq<char>)) -> bool {
    |a: (Seq<char>, Seq<char>), b: (Seq<char>, Seq<char>)| pair_le(a, b)
}

pub proof fn lemma_lex_le_total(a: Seq<char>, b: Seq<char>)
    ensures
        lex_le(a, b) || lex_le(b, a),
    decreases a.len(),
{
    if a.len() == 0 {
    } else if b.len() == 0 {
    } else {
        lemma_lex_le_total(a.skip(1), b.skip(1));
    }
}

pub proof fn lemma_lex_le_antisymmetric(a: Seq<char>, b: Seq<char>)
    requires
        lex_le(a, b),
        lex_le(b, a),
    ensures
        a == b,
    decreases a.len(),
{
    if a.len() == 0 {
        assert(b.len() == 0);
        assert(a =~= b);
    } else {
        assert(b.len() > 0);
        assert(a[0] == b[0]);
        lemma_lex_le_antisymmetric(a.skip(1), b.skip(1));
        assert(a.skip(1).len() == b.skip(1).len());
        assert forall|i: int| 0 <= i < a.len() implies a[i] == b[i] by {
            if i > 0 {
                assert(a[i] == a.skip(1)[i - 1]);
                assert(b[i] == b.skip(1)[i - 1]);
            }
        }
        assert(a =~= b);
    }
}

pub proof fn lemma_lex_le_transitive(a: Seq<char>, b: Seq<char>, c: Seq<char>)
    requires
        lex_le(a, b),
        lex_le(b, c),
    ensures
        lex_le(a, c),
    decreases a.len(),
{
    if a.len() == 0 {
    } else {
        assert(b.len() > 0);
        assert(c.len() > 0);
        if a[0] == b[0] && b[0] == c[0] {
            lemma_lex_le_transitive(a.skip(1), b.skip(1), c.skip(1));
        }
    }
}

/// The pair order is a total ordering, as `Seq::sort_by` requires.
pub proof fn lemma_pair_order_total()
    ensures
        total_ordering(pair_order()),
{
    let r = pair_order();
    assert forall|x: (Seq<char>, Seq<char>)| #[trigger] r(x, x) by {
        lemma_lex_le_total(x.1, x.1);
    }
    assert forall|x: (Seq<char>, Seq<char>), y: (Seq<char>, Seq<char>)|
        #[trigger] r(x, y) && #[trigger] r(y, x) implies x == y by {
        if x.0 == y.0 {
            lemma_lex_le_antisymmetric(x.1, y.1);
        } else {
            lemma_lex_le_antisymmetric(x.0, y.0);
        }
    }
    assert forall|x: (Seq<char>, Seq<char>), y: (Seq<char>, Seq<char>), z: (Seq<char>, Seq<char>)|
        #[trigger] r(x, y) && #[trigger] r(y, z) implies r(x, z) by {
        if x.0 == y.0 && y.0 == z.0 {
            lemma_lex_le_transitive(x.1, y.1, z.1);
        } else if x.0 == y.0 {
            assert(lex_le(x.0, z.0));
        } else if y.0 == z.0 {
            assert(lex_le(x.0, z.0));
        } else {
            lemma_lex_le_transitive(x.0, y.0, z.0);
            if x.0 == z.0 {
                lemma_lex_le_antisymmetric(x.0, y.0);
            }
        }
    }
    assert forall|x: (Seq<char>, Seq<char>), y: (Seq<char>, Seq<char>)|
        #[trigger] r(x, y) || #[trigger] r(y, x) by {
        if x.0 == y.0 {
            lemma_lex_le_total(x.1, y.1);
        } else {
            lemma_lex_le_total(x.0, y.0);
        }
    }
}

} // verus!
