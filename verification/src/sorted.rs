//! Rows of texts kept in order.
use crate::text::comes_before;
#[allow(unused_imports)]
use crate::text::{
    lemma_precedes_asymmetric, lemma_precedes_total, lemma_precedes_transitive, precedes,
};
use vstd::prelude::*;

verus! {

/// Whether no text precedes one that stands before it.
pub open spec fn in_order(s: Seq<Seq<char>>) -> bool {
    forall|i: int, j: int| 0 <= i < j < s.len() ==> !precedes(#[trigger] s[j], #[trigger] s[i])
}

/// Adds a text to a row in order, behind the texts that it equals.
pub fn insert_in_order(row: Vec<String>, text: String) -> (longer: Vec<String>)
    requires
        in_order(row.deep_view()),
    ensures
        longer.len() == row.len() + 1,
        in_order(longer.deep_view()),
        longer.deep_view().to_multiset() == row.deep_view().to_multiset().insert(text@),
{
    let mut longer = row;
    let ghost before = longer.deep_view();
    let mut i: usize = 0;
    while i < longer.len() && !comes_before(text.as_str(), longer[i].as_str())
        invariant
            i <= longer.len(),
            longer.deep_view() == before,
            forall|j: int| 0 <= j < i ==> !precedes(text@, #[trigger] before[j]),
        decreases longer.len() - i,
    {
        assert(before[i as int] == longer@[i as int]@);
        i += 1;
    }
    proof {
        assert(i < before.len() ==> before[i as int] == longer@[i as int]@);
        assert forall|j: int| i <= j < before.len() implies !precedes(
            #[trigger] before[j],
            text@,
        ) by {
            if precedes(before[j], text@) {
                if j == i {
                    lemma_precedes_asymmetric(before[j], text@);
                } else {
                    lemma_precedes_transitive(before[j], text@, before[i as int]);
                }
            }
        }
        broadcast use vstd::seq_lib::to_multiset_insert;
        before.to_multiset_ensures();
    }
    longer.insert(i, text);
    proof {
        let after = longer.deep_view();
        assert(after =~= before.insert(i as int, text@));
        assert forall|a: int, b: int| 0 <= a < b < after.len() implies !precedes(
            #[trigger] after[b],
            #[trigger] after[a],
        ) by {
            let from_b = if b < i { b } else { b - 1 };
            let from_a = if a < i { a } else { a - 1 };
            if a != i {
                assert(after[a] == before[from_a]);
            }
            if b != i {
                assert(after[b] == before[from_b]);
            }
        }
    }
    longer
}

/// In a row in order every text equals or precedes those behind it.
pub proof fn law_in_order(s: Seq<Seq<char>>)
    ensures
        in_order(s) <==> forall|i: int, j: int|
            0 <= i < j < s.len() ==> #[trigger] s[i] == #[trigger] s[j] || precedes(s[i], s[j]),
{
    assert forall|i: int, j: int| 0 <= i < j < s.len() implies (!precedes(s[j], s[i]) <==> (
    #[trigger] s[i] == #[trigger] s[j] || precedes(s[i], s[j]))) by {
        lemma_precedes_total(s[i], s[j]);
        lemma_precedes_asymmetric(s[i], s[j]);
        lemma_precedes_asymmetric(s[j], s[i]);
    }
}


} // verus!
