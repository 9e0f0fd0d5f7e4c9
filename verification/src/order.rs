//! The order of siblings: by name, whatever order the listing came in.

use vstd::prelude::*;
use crate::text::{name_precedes, precedes, precedes_from};

verus! {

/// Where `name` goes into `order`, sought from position `from` on: before the first index
/// whose name it precedes, or at the end.
pub open spec fn insertion_point(
    names: Seq<Seq<char>>,
    order: Seq<int>,
    name: Seq<char>,
    from: int,
) -> int
    decreases order.len() - from,
{
    if from < 0 || from >= order.len() {
        order.len() as int
    } else if precedes(name, names[order[from]]) {
        from
    } else {
        insertion_point(names, order, name, from + 1)
    }
}

/// The first `count` indices of `names`, ordered by their names; indices of equal names
/// stay in their order.
pub open spec fn order_of_first(names: Seq<Seq<char>>, count: int) -> Seq<int>
    decreases count,
{
    if count <= 0 || count > names.len() {
        seq![]
    } else {
        let earlier = order_of_first(names, count - 1);
        earlier.insert(insertion_point(names, earlier, names[count - 1], 0), count - 1)
    }
}

/// The indices of `names` in the order of the names.
pub open spec fn name_order(names: Seq<Seq<char>>) -> Seq<int> {
    order_of_first(names, names.len() as int)
}

/// Index `i` comes before index `j`: by its name, or by its place where the names are equal.
pub open spec fn comes_before(names: Seq<Seq<char>>, i: int, j: int) -> bool {
    precedes(names[i], names[j]) || (names[i] == names[j] && i < j)
}

/// The texts of a list of character vectors.
pub open spec fn chars_view(names: Seq<Vec<char>>) -> Seq<Seq<char>> {
    Seq::new(names.len(), |i: int| names[i]@)
}

/// A list of indices as integers.
pub open spec fn indices_view(order: Seq<usize>) -> Seq<int> {
    Seq::new(order.len(), |i: int| order[i] as int)
}

/// Two texts that agree up to `from` and of which neither precedes the other are equal.
proof fn lemma_neither_precedes(a: Seq<char>, b: Seq<char>, from: int)
    requires
        0 <= from <= a.len(),
        from <= b.len(),
        a.take(from) == b.take(from),
        !precedes_from(a, b, from),
        !precedes_from(b, a, from),
    ensures
        a == b,
    decreases a.len() - from,
{
    if from < a.len() && from < b.len() {
        assert(a.take(from + 1) =~= a.take(from).push(a[from]));
        assert(b.take(from + 1) =~= b.take(from).push(b[from]));
        lemma_neither_precedes(a, b, from + 1);
    } else {
        assert(a.take(from) == a);
        assert(b.take(from) == b);
    }
}

/// From a position up to which three texts agree, `precedes_from` is transitive and no
/// text precedes itself.
proof fn lemma_precedes_from_order(a: Seq<char>, b: Seq<char>, c: Seq<char>, from: int)
    requires
        0 <= from,
    ensures
        !precedes_from(a, a, from),
        precedes_from(a, b, from) ==> !precedes_from(b, a, from),
        precedes_from(a, b, from) && precedes_from(b, c, from) ==> precedes_from(a, c, from),
    decreases a.len() - from,
{
    if from < a.len() {
        lemma_precedes_from_order(a, b, c, from + 1);
    }
}

/// The order of names is a strict total order: no name precedes itself, of two different
/// names exactly one precedes the other, and the order is transitive.
pub proof fn lemma_precedes_is_total_order(a: Seq<char>, b: Seq<char>, c: Seq<char>)
    ensures
        !precedes(a, a),
        precedes(a, b) ==> !precedes(b, a),
        a != b ==> precedes(a, b) || precedes(b, a),
        precedes(a, b) && precedes(b, c) ==> precedes(a, c),
{
    lemma_precedes_from_order(a, b, c, 0);
    if !precedes(a, b) && !precedes(b, a) {
        assert(a.take(0) =~= b.take(0));
        lemma_neither_precedes(a, b, 0);
    }
}

/// The insertion point lies within the order; the name precedes the name at that point,
/// where there is one, and none of those before it.
proof fn lemma_insertion_point(
    names: Seq<Seq<char>>,
    order: Seq<int>,
    name: Seq<char>,
    from: int,
)
    requires
        0 <= from <= order.len(),
    ensures
        from <= insertion_point(names, order, name, from) <= order.len(),
        insertion_point(names, order, name, from) < order.len() ==> precedes(
            name,
            names[order[insertion_point(names, order, name, from)]],
        ),
        forall|p: int|
            from <= p < insertion_point(names, order, name, from) ==> !precedes(
                name,
                names[#[trigger] order[p]],
            ),
    decreases order.len() - from,
{
    if from < order.len() && !precedes(name, names[order[from]]) {
        lemma_insertion_point(names, order, name, from + 1);
    }
}

/// The order holds each of the first `count` indices, and each once; and every index of
/// it comes before those after it: the names never fall, and equal names keep their places.
pub proof fn lemma_order_of_first(names: Seq<Seq<char>>, count: int)
    requires
        0 <= count <= names.len(),
    ensures
        order_of_first(names, count).len() == count,
        forall|p: int|
            0 <= p < count ==> 0 <= #[trigger] order_of_first(names, count)[p] < count,
        forall|i: int| 0 <= i < count ==> order_of_first(names, count).contains(i),
        order_of_first(names, count).no_duplicates(),
        forall|p: int, q: int|
            0 <= p < q < count ==> comes_before(
                names,
                #[trigger] order_of_first(names, count)[p],
                #[trigger] order_of_first(names, count)[q],
            ),
    decreases count,
{
    if count > 0 {
        let earlier = order_of_first(names, count - 1);
        let name = names[count - 1];
        let at = insertion_point(names, earlier, name, 0);
        let order = order_of_first(names, count);
        lemma_order_of_first(names, count - 1);
        lemma_insertion_point(names, earlier, name, 0);
        assert(order == earlier.insert(at, count - 1));
        assert forall|i: int| 0 <= i < count implies order.contains(i) by {
            if i == count - 1 {
                assert(order[at] == i);
            } else {
                assert(earlier.contains(i));
                let p = choose|p: int| 0 <= p < earlier.len() && earlier[p] == i;
                if p < at {
                    assert(order[p] == i);
                } else {
                    assert(order[p + 1] == i);
                }
            }
        }
        assert forall|p: int, q: int| 0 <= p < q < count implies comes_before(
            names,
            #[trigger] order[p],
            #[trigger] order[q],
        ) by {
            if q == at {
                assert(order[p] == earlier[p]);
                lemma_precedes_is_total_order(names[earlier[p]], name, name);
            } else if p == at {
                assert(order[q] == earlier[q - 1]);
                if q - 1 > at {
                    assert(comes_before(names, earlier[at], earlier[q - 1]));
                    lemma_precedes_is_total_order(name, names[earlier[at]], names[earlier[q - 1]]);
                }
            } else {
                let p0 = if p < at {
                    p
                } else {
                    p - 1
                };
                let q0 = if q < at {
                    q
                } else {
                    q - 1
                };
                assert(order[p] == earlier[p0]);
                assert(order[q] == earlier[q0]);
            }
        }
        assert forall|p: int, q: int| 0 <= p < order.len() && 0 <= q < order.len() && p
            != q implies order[p] != order[q] by {
            lemma_precedes_is_total_order(names[order[p]], names[order[q]], names[order[p]]);
            if p < q {
                assert(comes_before(names, order[p], order[q]));
            } else {
                assert(comes_before(names, order[q], order[p]));
            }
        }
    }
}

/// The indices of `names` as `name_order` arranges them.
pub fn sort_by_name(names: &Vec<Vec<char>>) -> (order: Vec<usize>)
    ensures
        indices_view(order@) == name_order(chars_view(names@)),
        order@.len() == names@.len(),
        forall|p: int| 0 <= p < order@.len() ==> #[trigger] order@[p] < names@.len(),
{
    let ghost texts = chars_view(names@);
    let mut order: Vec<usize> = Vec::new();
    let mut k: usize = 0;
    assert(indices_view(order@) =~= order_of_first(texts, 0));
    while k < names.len()
        invariant
            texts == chars_view(names@),
            k <= names.len(),
            order@.len() == k,
            forall|p: int| 0 <= p < order@.len() ==> #[trigger] order@[p] < k,
            indices_view(order@) == order_of_first(texts, k as int),
        decreases names.len() - k,
    {
        let ghost earlier = indices_view(order@);
        let mut at: usize = 0;
        while at < order.len() && !name_precedes(&names[k], &names[order[at]])
            invariant
                texts == chars_view(names@),
                k < names.len(),
                order@.len() == k,
                forall|p: int| 0 <= p < order@.len() ==> #[trigger] order@[p] < k,
                earlier == indices_view(order@),
                at <= order.len(),
                insertion_point(texts, earlier, texts[k as int], 0) == insertion_point(
                    texts,
                    earlier,
                    texts[k as int],
                    at as int,
                ),
            decreases order.len() - at,
        {
            at = at + 1;
        }
        order.insert(at, k);
        assert(indices_view(order@) =~= earlier.insert(at as int, k as int));
        k = k + 1;
    }
    order
}

} // verus!
