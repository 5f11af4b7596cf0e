//! Label sets and label selectors.
//!
//! A label set is a list of `(key, value)` pairs; a selector is a list of
//! required pairs, and matches a label set when every required pair is
//! present.

use vstd::prelude::*;
use crate::text::str_eq;

verus! {

/// Whether the label set holds the pair.
pub open spec fn has_label(labels: Seq<(Seq<char>, Seq<char>)>, k: Seq<char>, v: Seq<char>) -> bool {
    exists|i: int| 0 <= i < labels.len() && #[trigger] labels[i] == (k, v)
}

/// Whether every pair the selector requires is present in the label set.
pub open spec fn selector_matches(
    sel: Seq<(Seq<char>, Seq<char>)>,
    labels: Seq<(Seq<char>, Seq<char>)>,
) -> bool {
    forall|j: int|
        0 <= j < sel.len() ==> has_label(labels, (#[trigger] sel[j]).0, sel[j].1)
}

/// Whether the label set holds the pair.
pub fn labels_contain(labels: &Vec<(String, String)>, k: &str, v: &str) -> (r: bool)
    ensures
        r == has_label(labels.deep_view(), k@, v@),
{
    let mut i: usize = 0;
    while i < labels.len()
        invariant
            i <= labels@.len(),
            forall|j: int| 0 <= j < i ==> #[trigger] labels.deep_view()[j] != (k@, v@),
        decreases labels@.len() - i,
    {
        if str_eq(labels[i].0.as_str(), k) && str_eq(labels[i].1.as_str(), v) {
            assert(labels.deep_view()[i as int] == (k@, v@));
            return true;
        }
        i += 1;
    }
    false
}

/// Whether the selector matches the label set: every required pair present.
pub fn selector_matches_labels(sel: &Vec<(String, String)>, labels: &Vec<(String, String)>) -> (r:
    bool)
    ensures
        r == selector_matches(sel.deep_view(), labels.deep_view()),
{
    let mut j: usize = 0;
    while j < sel.len()
        invariant
            j <= sel@.len(),
            forall|i: int|
                0 <= i < j ==> has_label(labels.deep_view(), (#[trigger] sel.deep_view()[i]).0, sel.deep_view()[i].1),
        decreases sel@.len() - j,
    {
        if !labels_contain(labels, sel[j].0.as_str(), sel[j].1.as_str()) {
            assert(!has_label(labels.deep_view(), sel.deep_view()[j as int].0, sel.deep_view()[j as int].1));
            return false;
        }
        j += 1;
    }
    true
}

/// A copy of a pair list, pair for pair.
pub fn clone_pairs(v: &Vec<(String, String)>) -> (r: Vec<(String, String)>)
    ensures
        r.deep_view() == v.deep_view(),
{
    let mut r: Vec<(String, String)> = Vec::new();
    let mut i: usize = 0;
    proof {
        assert(v.deep_view().len() == v@.len());
        assert(r.deep_view() =~~= v.deep_view().subrange(0, 0));
    }
    while i < v.len()
        invariant
            i <= v@.len(),
            r.deep_view() == v.deep_view().subrange(0, i as int),
        decreases v@.len() - i,
    {
        proof {
            assert(v.deep_view().len() == v@.len());
            assert(r.deep_view().len() == r@.len());
            assert(v.deep_view().subrange(0, i as int).len() == i);
        }
        let ghost pre = r@;
        let k = v[i].0.clone();
        let val = v[i].1.clone();
        r.push((k, val));
        i += 1;
        proof {
            assert(r@ == pre.push((k, val)));
            assert(pre.len() == i - 1);
            assert(r@.len() == i);
            assert(r.deep_view()[i - 1] == (k@, val@));
            assert(r.deep_view()[i - 1] == v.deep_view()[i - 1]);
            assert forall|j: int| 0 <= j < i - 1 implies #[trigger] r.deep_view()[j]
                == v.deep_view()[j] by {
                assert(r@[j] == pre[j]);
                assert(r.deep_view()[j] == r@[j].deep_view());
                assert(v.deep_view().subrange(0, i - 1)[j] == v.deep_view()[j]);
            }
            assert(r.deep_view() =~~= v.deep_view().subrange(0, i as int));
        }
    }
    proof {
        assert(r.deep_view() =~~= v.deep_view());
    }
    r
}

} // verus!
