//! Searching rows of elements.
use vstd::prelude::*;

verus! {

/// The first element that `wanted` holds of, if there is one.
pub open spec fn first<T>(items: Seq<T>, wanted: spec_fn(T) -> bool) -> Option<T>
    decreases items.len(),
{
    if items.len() == 0 {
        None
    } else if wanted(items[0]) {
        Some(items[0])
    } else {
        first(items.drop_first(), wanted)
    }
}

/// What a reference that may be absent refers to.
pub open spec fn held<T>(reference: Option<&T>) -> Option<T> {
    match reference {
        Some(value) => Some(*value),
        None => None,
    }
}

/// The first wanted element is wanted and comes from the row, and where none
/// is found no element is wanted.
pub proof fn lemma_first<T>(items: Seq<T>, wanted: spec_fn(T) -> bool)
    ensures
        match first(items, wanted) {
            Some(item) => wanted(item) && exists|i: int|
                #![trigger items[i]]
                0 <= i < items.len() && items[i] == item && forall|j: int|
                    0 <= j < i ==> !wanted(#[trigger] items[j]),
            None => forall|i: int| 0 <= i < items.len() ==> !wanted(#[trigger] items[i]),
        },
    decreases items.len(),
{
    if items.len() > 0 && !wanted(items[0]) {
        let rest = items.drop_first();
        lemma_first(rest, wanted);
        match first(items, wanted) {
            Some(item) => {
                let k = choose|k: int|
                    #![trigger rest[k]]
                    0 <= k < rest.len() && rest[k] == item && forall|j: int|
                        0 <= j < k ==> !wanted(#[trigger] rest[j]);
                assert(items[k + 1] == item);
                assert forall|j: int| 0 <= j < k + 1 implies !wanted(#[trigger] items[j]) by {
                    if j > 0 {
                        assert(items[j] == rest[j - 1]);
                    }
                }
            },
            None => {
                assert forall|j: int| 0 <= j < items.len() implies !wanted(#[trigger] items[j]) by {
                    if j > 0 {
                        assert(items[j] == rest[j - 1]);
                    }
                }
            },
        }
    } else if items.len() > 0 {
        assert(items[0] == first(items, wanted)->0);
    }
}

/// A wanted element before which none is wanted is the first.
pub proof fn lemma_first_at<T>(items: Seq<T>, wanted: spec_fn(T) -> bool, at: int)
    requires
        0 <= at < items.len(),
        wanted(items[at]),
        forall|j: int| 0 <= j < at ==> !wanted(#[trigger] items[j]),
    ensures
        first(items, wanted) == Some(items[at]),
    decreases items.len(),
{
    if at > 0 {
        assert(!wanted(items[0]));
        let rest = items.drop_first();
        assert forall|j: int| 0 <= j < at - 1 implies !wanted(#[trigger] rest[j]) by {
            assert(rest[j] == items[j + 1]);
        }
        lemma_first_at(rest, wanted, at - 1);
    }
}

/// Where no element is wanted none is found.
pub proof fn lemma_first_none<T>(items: Seq<T>, wanted: spec_fn(T) -> bool)
    requires
        forall|j: int| 0 <= j < items.len() ==> !wanted(#[trigger] items[j]),
    ensures
        first(items, wanted) == None::<T>,
{
    lemma_first(items, wanted);
}

/// In two rows one behind the other the first row is searched first.
pub proof fn lemma_first_concat<T>(left: Seq<T>, right: Seq<T>, wanted: spec_fn(T) -> bool)
    ensures
        first(left + right, wanted) == match first(left, wanted) {
            Some(item) => Some(item),
            None => first(right, wanted),
        },
    decreases left.len(),
{
    if left.len() == 0 {
        assert(left + right =~= right);
    } else {
        assert((left + right).drop_first() =~= left.drop_first() + right);
        lemma_first_concat(left.drop_first(), right, wanted);
    }
}

/// A row made from the rows that `each` gives holds what any of them holds.
pub proof fn lemma_flat_map_contains<T, U>(items: Seq<T>, each: spec_fn(T) -> Seq<U>, wanted: U)
    ensures
        items.flat_map(each).contains(wanted) <==> exists|i: int|
            0 <= i < items.len() && each(#[trigger] items[i]).contains(wanted),
    decreases items.len(),
{
    if items.len() == 0 {
        assert(items.flat_map(each) =~= Seq::empty());
    } else {
        let rest = items.drop_last();
        lemma_flat_map_contains(rest, each, wanted);
        rest.lemma_flat_map_push(each, items.last());
        assert(rest.push(items.last()) =~= items);
        lemma_concat_contains(rest.flat_map(each), each(items.last()), wanted);
        assert(items[items.len() - 1] == items.last());
        if rest.flat_map(each).contains(wanted) {
            let i = choose|i: int|
                0 <= i < rest.len() && each(#[trigger] rest[i]).contains(wanted);
            assert(items[i] == rest[i]);
        }
        if exists|i: int| 0 <= i < items.len() && each(#[trigger] items[i]).contains(wanted) {
            let i = choose|i: int|
                0 <= i < items.len() && each(#[trigger] items[i]).contains(wanted);
            if i < rest.len() {
                assert(rest[i] == items[i]);
            }
        }
    }
}

/// Two rows one behind the other hold what either of them holds.
pub proof fn lemma_concat_contains<T>(left: Seq<T>, right: Seq<T>, wanted: T)
    ensures
        (left + right).contains(wanted) <==> left.contains(wanted) || right.contains(wanted),
{
    let whole = left + right;
    if left.contains(wanted) {
        let i = choose|i: int| 0 <= i < left.len() && left[i] == wanted;
        assert(whole[i] == wanted);
    }
    if right.contains(wanted) {
        let i = choose|i: int| 0 <= i < right.len() && right[i] == wanted;
        assert(whole[left.len() + i] == wanted);
    }
    if whole.contains(wanted) {
        let i = choose|i: int| 0 <= i < whole.len() && whole[i] == wanted;
        if i < left.len() {
            assert(left[i] == wanted);
        } else {
            assert(right[i - left.len()] == wanted);
        }
    }
}

/// A row of the wanted elements holds what the whole row holds and is wanted.
pub proof fn lemma_filter_holds<T>(items: Seq<T>, wanted: spec_fn(T) -> bool, item: T)
    ensures
        items.filter(wanted).contains(item) <==> items.contains(item) && wanted(item),
    decreases items.len(),
{
    if items.len() == 0 {
        reveal(Seq::filter);
        assert(items.filter(wanted) =~= Seq::empty());
    } else {
        let rest = items.drop_last();
        let last = items.last();
        lemma_filter_holds(rest, wanted, item);
        rest.lemma_filter_push(last, wanted);
        assert(rest.push(last) =~= items);
        assert(rest + seq![last] =~= items);
        lemma_concat_contains(rest, seq![last], item);
        assert(seq![last].contains(item) <==> item == last) by {
            assert(seq![last][0] == last);
        }
        if wanted(last) {
            assert(rest.filter(wanted).push(last) =~= rest.filter(wanted) + seq![last]);
            lemma_concat_contains(rest.filter(wanted), seq![last], item);
        }
    }
}

/// A reference stands for what it refers to.
pub proof fn law_held<T>(value: T)
    ensures
        held(Some(&value)) == Some(value),
        held(None::<&T>) is None,
{
}


} // verus!
