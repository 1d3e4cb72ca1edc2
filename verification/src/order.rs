//! The order of texts: character by character, a text before its extensions.
use crate::text::chars_of;
use vstd::prelude::*;

verus! {

/// Whether `a` comes before `b`: at the first character in which they differ
/// `a` has the smaller one, or `b` only continues `a`.
pub open spec fn precedes(a: Seq<char>, b: Seq<char>) -> bool
    decreases a.len(),
{
    if b.len() == 0 {
        false
    } else if a.len() == 0 {
        true
    } else if a[0] != b[0] {
        a[0] < b[0]
    } else {
        precedes(a.drop_first(), b.drop_first())
    }
}

/// No text comes before itself.
pub proof fn lemma_irreflexive(a: Seq<char>)
    ensures
        !precedes(a, a),
    decreases a.len(),
{
    if a.len() > 0 {
        lemma_irreflexive(a.drop_first());
    }
}

/// The order is transitive.
pub proof fn lemma_transitive(a: Seq<char>, b: Seq<char>, c: Seq<char>)
    requires
        precedes(a, b),
        precedes(b, c),
    ensures
        precedes(a, c),
    decreases a.len(),
{
    if a.len() > 0 && b.len() > 0 && c.len() > 0 && a[0] == b[0] && b[0] == c[0] {
        lemma_transitive(a.drop_first(), b.drop_first(), c.drop_first());
    }
}

/// Of two different texts one comes before the other.
pub proof fn lemma_total(a: Seq<char>, b: Seq<char>)
    ensures
        a == b || precedes(a, b) || precedes(b, a),
    decreases a.len(),
{
    if a.len() == 0 && b.len() == 0 {
        assert(a == b);
    } else if a.len() > 0 && b.len() > 0 && a[0] == b[0] {
        lemma_total(a.drop_first(), b.drop_first());
        if a.drop_first() == b.drop_first() {
            assert(a == seq![a[0]] + a.drop_first());
            assert(b == seq![b[0]] + b.drop_first());
        }
    }
}

/// How one text stands to another.
#[derive(Clone, Copy, PartialEq, Eq, Structural, Debug)]
pub enum Relation {
    Before,
    Same,
    After,
}

/// How `a` stands to `b`.
pub open spec fn relation(a: Seq<char>, b: Seq<char>) -> Relation {
    if precedes(a, b) {
        Relation::Before
    } else if precedes(b, a) {
        Relation::After
    } else {
        Relation::Same
    }
}

/// [`relation`] tells the three cases apart.
pub proof fn lemma_relation(a: Seq<char>, b: Seq<char>)
    ensures
        relation(a, b) == Relation::Before <==> precedes(a, b),
        relation(a, b) == Relation::After <==> precedes(b, a),
        relation(a, b) == Relation::Same <==> a == b,
{
    lemma_total(a, b);
    lemma_irreflexive(a);
    if precedes(a, b) && precedes(b, a) {
        lemma_transitive(a, b, a);
    }
}

/// Puts two texts in order.
pub fn relate(a: &str, b: &str) -> (r: Relation)
    ensures
        r == relation(a@, b@),
        r == Relation::Before <==> precedes(a@, b@),
        r == Relation::After <==> precedes(b@, a@),
        r == Relation::Same <==> a@ == b@,
{
    let x: Vec<char> = chars_of(a);
    let y: Vec<char> = chars_of(b);
    proof {
        lemma_relation(a@, b@);
    }
    let mut i: usize = 0;
    assert(x@.skip(0) == x@ && y@.skip(0) == y@);
    while i < x.len() && i < y.len() && x[i] == y[i]
        invariant
            i <= x@.len(),
            i <= y@.len(),
            precedes(x@, y@) == precedes(x@.skip(i as int), y@.skip(i as int)),
            precedes(y@, x@) == precedes(y@.skip(i as int), x@.skip(i as int)),
        decreases x@.len() - i,
    {
        assert(x@.skip(i as int).drop_first() == x@.skip(i + 1));
        assert(y@.skip(i as int).drop_first() == y@.skip(i + 1));
        i = i + 1;
    }
    if i < x.len() && i < y.len() {
        if x[i] < y[i] {
            Relation::Before
        } else {
            Relation::After
        }
    } else if i < y.len() {
        Relation::Before
    } else if i < x.len() {
        Relation::After
    } else {
        Relation::Same
    }
}

/// Whether the texts stand in strictly ascending order.
pub open spec fn ascending(list: Seq<Seq<char>>) -> bool {
    forall|i: int, j: int| 0 <= i < j < list.len() ==> precedes(#[trigger] list[i], #[trigger] list[j])
}

/// Two strictly ascending lists of the same texts are equal.
pub proof fn lemma_ascending_unique(a: Seq<Seq<char>>, b: Seq<Seq<char>>)
    requires
        ascending(a),
        ascending(b),
        forall|t: Seq<char>| #![auto] a.contains(t) <==> b.contains(t),
    ensures
        a == b,
    decreases a.len(),
{
    if a.len() == 0 {
        if b.len() > 0 {
            assert(b.contains(b[0]));
        }
        assert(a == b);
    } else {
        assert(a.contains(a[0]));
        assert(b.len() > 0);
        assert(b.contains(b[0]));
        let i = choose|i: int| 0 <= i < b.len() && b[i] == a[0];
        let j = choose|j: int| 0 <= j < a.len() && a[j] == b[0];
        if i != 0 && j != 0 {
            assert(precedes(b[0], b[i]));
            assert(precedes(a[0], a[j]));
            lemma_transitive(a[0], b[0], a[0]);
            lemma_irreflexive(a[0]);
        }
        assert(a[0] == b[0]);
        let at = a.drop_first();
        let bt = b.drop_first();
        assert forall|t: Seq<char>| #![auto] at.contains(t) <==> bt.contains(t) by {
            if at.contains(t) {
                let k = choose|k: int| 0 <= k < at.len() && at[k] == t;
                assert(a[k + 1] == t);
                assert(a.contains(t));
                assert(precedes(a[0], a[k + 1]));
                lemma_irreflexive(t);
                let m = choose|m: int| 0 <= m < b.len() && b[m] == t;
                assert(bt[m - 1] == t);
            }
            if bt.contains(t) {
                let k = choose|k: int| 0 <= k < bt.len() && bt[k] == t;
                assert(b[k + 1] == t);
                assert(b.contains(t));
                assert(precedes(b[0], b[k + 1]));
                lemma_irreflexive(t);
                let m = choose|m: int| 0 <= m < a.len() && a[m] == t;
                assert(at[m - 1] == t);
            }
        }
        assert(ascending(at)) by {
            assert forall|i: int, j: int| 0 <= i < j < at.len() implies precedes(
                #[trigger] at[i],
                #[trigger] at[j],
            ) by {
                assert(precedes(a[i + 1], a[j + 1]));
            }
        }
        assert(ascending(bt)) by {
            assert forall|i: int, j: int| 0 <= i < j < bt.len() implies precedes(
                #[trigger] bt[i],
                #[trigger] bt[j],
            ) by {
                assert(precedes(b[i + 1], b[j + 1]));
            }
        }
        lemma_ascending_unique(at, bt);
        assert(a == seq![a[0]] + at);
        assert(b == seq![b[0]] + bt);
    }
}

/// Whether two texts agree in front of `k`, and there the first one ends or has
/// the smaller character.
pub open spec fn falls_behind_at(a: Seq<char>, b: Seq<char>, k: int) -> bool {
    &&& 0 <= k <= a.len()
    &&& k < b.len()
    &&& forall|j: int| 0 <= j < k ==> a[j] == b[j]
    &&& k == a.len() || (a[k] as int) < (b[k] as int)
}

/// A text comes before another one exactly if there is such a place.
pub proof fn law_order(a: Seq<char>, b: Seq<char>)
    ensures
        precedes(a, b) <==> exists|k: int| falls_behind_at(a, b, k),
    decreases a.len(),
{
    if a.len() == 0 && b.len() > 0 {
        assert(falls_behind_at(a, b, 0));
    } else if a.len() > 0 && b.len() > 0 {
        if a[0] < b[0] {
            assert(falls_behind_at(a, b, 0));
        } else if a[0] == b[0] {
            let x = a.drop_first();
            let y = b.drop_first();
            law_order(x, y);
            if precedes(x, y) {
                let k = choose|k: int| falls_behind_at(x, y, k);
                assert forall|j: int| 0 <= j < k + 1 implies a[j] == b[j] by {
                    if j > 0 {
                        assert(x[j - 1] == y[j - 1]);
                    }
                }
                assert(falls_behind_at(a, b, k + 1));
            }
            if exists|k: int| falls_behind_at(a, b, k) {
                let k = choose|k: int| falls_behind_at(a, b, k);
                assert forall|j: int| 0 <= j < k - 1 implies x[j] == y[j] by {
                    assert(a[j + 1] == b[j + 1]);
                }
                assert(falls_behind_at(x, y, k - 1));
            }
        }
    }
}

} // verus!
