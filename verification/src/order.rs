//! The order of texts, and rows kept in that order.

use vstd::prelude::*;

use crate::text::chars_of;
use crate::text::views;

verus! {

/// The order of texts: by the first character in which they differ, a prefix
/// before what it is a prefix of.
pub open spec fn text_le(a: Seq<char>, b: Seq<char>) -> bool
    decreases a.len(),
{
    a.len() == 0 || (b.len() > 0 && (a[0] < b[0] || (a[0] == b[0] && text_le(a.skip(1), b.skip(1)))))
}

/// What stands before what: the order is total, reflexive and transitive, and
/// only a text itself stands on both sides of it.
pub proof fn lemma_total(a: Seq<char>, b: Seq<char>)
    ensures
        text_le(a, b) || text_le(b, a),
        text_le(a, b) && text_le(b, a) ==> a == b,
        text_le(a, a),
    decreases a.len(),
{
    if a.len() > 0 && b.len() > 0 {
        lemma_total(a.skip(1), b.skip(1));
        lemma_total(a.skip(1), a.skip(1));
        if text_le(a, b) && text_le(b, a) {
            assert(a =~= seq![a[0]] + a.skip(1));
            assert(b =~= seq![b[0]] + b.skip(1));
        }
    } else if a.len() > 0 {
        lemma_total(a.skip(1), a.skip(1));
    } else if b.len() == 0 {
        assert(a =~= b);
    }
}

/// The order is transitive.
pub proof fn lemma_transitive(a: Seq<char>, b: Seq<char>, c: Seq<char>)
    requires
        text_le(a, b),
        text_le(b, c),
    ensures
        text_le(a, c),
    decreases a.len(),
{
    if a.len() > 0 && a[0] == b[0] && b[0] == c[0] {
        lemma_transitive(a.skip(1), b.skip(1), c.skip(1));
    }
}

/// Whether `a` stands at or before `b`.
pub fn at_or_before(a: &str, b: &str) -> (yes: bool)
    ensures
        yes == text_le(a@, b@),
{
    let left = chars_of(a);
    let right = chars_of(b);
    let mut i: usize = 0;
    assert(a@.skip(0) =~= a@);
    assert(b@.skip(0) =~= b@);
    while i < left.len()
        invariant
            left@ == a@,
            right@ == b@,
            i <= left.len(),
            i <= right.len(),
            text_le(a@, b@) == text_le(a@.skip(i as int), b@.skip(i as int)),
        decreases left.len() - i,
    {
        if i == right.len() {
            return false;
        }
        if left[i] < right[i] {
            return true;
        }
        if right[i] < left[i] {
            return false;
        }
        assert(a@.skip(i as int).skip(1) =~= a@.skip(i + 1));
        assert(b@.skip(i as int).skip(1) =~= b@.skip(i + 1));
        i = i + 1;
    }
    true
}

/// Whether a row of texts stands in order.
pub open spec fn in_order(row: Seq<Seq<char>>) -> bool {
    forall|i: int, j: int| 0 <= i <= j < row.len() ==> text_le(#[trigger] row[i], #[trigger] row[j])
}

/// Where a text goes in a row that stands in order: behind everything that is
/// at or before it.
pub open spec fn place(row: Seq<Seq<char>>, text: Seq<char>) -> int
    decreases row.len(),
{
    if row.len() == 0 {
        0
    } else if text_le(row.last(), text) {
        row.len() as int
    } else {
        place(row.drop_last(), text)
    }
}

/// The row with `text` at its place.
pub open spec fn placed(row: Seq<Seq<char>>, text: Seq<char>) -> Seq<Seq<char>> {
    row.insert(place(row, text), text)
}

/// What [`place`] means.
pub proof fn lemma_place(row: Seq<Seq<char>>, text: Seq<char>)
    ensures
        0 <= place(row, text) <= row.len(),
        place(row, text) > 0 ==> text_le(row[place(row, text) - 1], text),
        forall|i: int|
            place(row, text) <= i < row.len() ==> !text_le(#[trigger] row[i], text) && text_le(
                text,
                row[i],
            ),
    decreases row.len(),
{
    if row.len() > 0 && !text_le(row.last(), text) {
        lemma_place(row.drop_last(), text);
        lemma_total(row.last(), text);
        assert forall|i: int| place(row, text) <= i < row.len() implies !text_le(
            #[trigger] row[i],
            text,
        ) && text_le(text, row[i]) by {
            if i < row.len() - 1 {
                assert(row[i] == row.drop_last()[i]);
            }
        }
    }
}

/// A row in order stays so when a text goes to its place.
pub proof fn lemma_placed_in_order(row: Seq<Seq<char>>, text: Seq<char>)
    requires
        in_order(row),
    ensures
        in_order(placed(row, text)),
        placed(row, text).to_multiset() == row.to_multiset().insert(text),
{
    broadcast use vstd::seq_lib::group_to_multiset_ensures;

    let at = place(row, text);
    let after = placed(row, text);
    lemma_place(row, text);
    assert forall|i: int, j: int| 0 <= i <= j < after.len() implies text_le(
        #[trigger] after[i],
        #[trigger] after[j],
    ) by {
        let a = if i < at {
            i
        } else {
            i - 1
        };
        let b = if j < at {
            j
        } else {
            j - 1
        };
        if i == at && j == at {
            lemma_total(text, text);
        } else if i == at {
            assert(after[j] == row[b]);
        } else if j == at {
            assert(after[i] == row[a]);
            assert(text_le(row[a], row[at - 1]));
            lemma_transitive(row[a], row[at - 1], text);
        } else {
            assert(after[i] == row[a]);
            assert(after[j] == row[b]);
        }
    }
}

proof fn lemma_push_multiset(row: Seq<Seq<char>>, text: Seq<char>)
    ensures
        row.push(text).to_multiset() == row.to_multiset().insert(text),
{
    broadcast use vstd::seq_lib::group_to_multiset_ensures;

}

/// Puts a list of texts in order.
pub fn sorted(list: &Vec<String>) -> (row: Vec<String>)
    ensures
        in_order(views(row@)),
        views(row@).to_multiset() == views(list@).to_multiset(),
{
    let mut row: Vec<String> = Vec::new();
    let mut i: usize = 0;
    assert(views(row@) =~= views(list@).take(0));
    while i < list.len()
        invariant
            i <= list.len(),
            row.len() == i,
            in_order(views(row@)),
            views(row@).to_multiset() == views(list@).take(i as int).to_multiset(),
        decreases list.len() - i,
    {
        let mut at: usize = row.len();
        let ghost text = list@[i as int]@;
        let ghost before = views(row@);
        assert(before.take(at as int) =~= before);
        while at > 0 && !at_or_before(row[at - 1].as_str(), list[i].as_str())
            invariant
                at <= row.len(),
                i < list.len(),
                text == list@[i as int]@,
                before == views(row@),
                place(before, text) == place(before.take(at as int), text),
            decreases at,
        {
            assert(before.take(at as int).drop_last() =~= before.take(at - 1));
            assert(before.take(at as int).last() == row@[at - 1]@);
            at = at - 1;
        }
        proof {
            if at > 0 {
                assert(before.take(at as int).last() == row@[at - 1]@);
            }
            lemma_placed_in_order(before, text);
            assert(views(list@).take(i + 1) =~= views(list@).take(i as int).push(text));
            lemma_push_multiset(views(list@).take(i as int), text);
        }
        row.insert(at, list[i].clone());
        assert(views(row@) =~= placed(before, text));
        i = i + 1;
    }
    assert(views(list@).take(i as int) =~= views(list@));
    row
}

/// **Texts are ordered by the first character in which they differ**, and a text
/// that runs out stands before the longer one.
pub proof fn texts_are_ordered_by_their_first_difference(a: Seq<char>, b: Seq<char>)
    ensures
        text_le(a, b) <==> exists|k: int|
            0 <= k <= a.len() && k <= b.len() && #[trigger] a.take(k) == b.take(k) && (k == a.len()
                || (k < b.len() && a[k] < b[k])),
    decreases a.len(),
{
    if a.len() == 0 {
        assert(a.take(0) =~= b.take(0));
    } else if b.len() > 0 && a[0] == b[0] {
        let x = a.skip(1);
        let y = b.skip(1);
        texts_are_ordered_by_their_first_difference(x, y);
        if text_le(x, y) {
            let k = choose|k: int|
                0 <= k <= x.len() && k <= y.len() && #[trigger] x.take(k) == y.take(k) && (k
                    == x.len() || (k < y.len() && x[k] < y[k]));
            assert forall|i: int| 0 <= i < k + 1 implies a[i] == b[i] by {
                if i > 0 {
                    assert(x.take(k)[i - 1] == y.take(k)[i - 1]);
                }
            }
            assert(a.take(k + 1) =~= b.take(k + 1));
        }
        if exists|k: int|
            0 <= k <= a.len() && k <= b.len() && #[trigger] a.take(k) == b.take(k) && (k == a.len()
                || (k < b.len() && a[k] < b[k])) {
            let k = choose|k: int|
                0 <= k <= a.len() && k <= b.len() && #[trigger] a.take(k) == b.take(k) && (k
                    == a.len() || (k < b.len() && a[k] < b[k]));
            assert(k > 0);
            assert forall|i: int| 0 <= i < k - 1 implies x[i] == y[i] by {
                assert(a.take(k)[i + 1] == b.take(k)[i + 1]);
            }
            assert(x.take(k - 1) =~= y.take(k - 1));
        }
    } else if b.len() > 0 && a[0] < b[0] {
        assert(a.take(0) =~= b.take(0));
    } else {
        assert forall|k: int|
            0 <= k <= a.len() && k <= b.len() && #[trigger] a.take(k) == b.take(k) implies !(k
            == a.len() || (k < b.len() && a[k] < b[k])) by {
            if k > 0 {
                assert(a.take(k)[0] == b.take(k)[0]);
            }
        }
    }
}

/// **In order is: none stands before an earlier one.**
pub proof fn in_order_means_none_is_out_of_place(row: Seq<Seq<char>>, i: int, j: int)
    requires
        in_order(row),
        0 <= i < j < row.len(),
    ensures
        text_le(row[i], row[j]),
        text_le(row[j], row[i]) ==> row[i] == row[j],
{
    lemma_total(row[i], row[j]);
}

} // verus!
