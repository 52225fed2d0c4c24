//! Natural ordering of names (runs of digits compared as numbers), and a
//! sort by it.
use vstd::prelude::*;
use std::cmp::Ordering;

verus! {

/// Which way a sort runs.
#[derive(PartialEq, Eq, Structural, Clone, Copy, Debug)]
pub enum SortOrder {
    Asc,
    Desc,
}

/// How `natord::compare` orders two texts.
pub uninterp spec fn natural_cmp(a: Seq<char>, b: Seq<char>) -> Ordering;

pub open spec fn flipped(o: Ordering) -> Ordering {
    match o {
        Ordering::Less => Ordering::Greater,
        Ordering::Equal => Ordering::Equal,
        Ordering::Greater => Ordering::Less,
    }
}

/// Relies on `natord::compare`: its result depends on the two texts alone,
/// and it treats both sides alike, so swapping them flips the result.
#[verifier::external_body]
fn natural_compare(a: &str, b: &str) -> (r: Ordering)
    ensures
        r == natural_cmp(a@, b@),
        flipped(r) == natural_cmp(b@, a@),
{
    natord::compare(a, b)
}

/// Whether `a` may stand right before `b` in a sort in `order`.
pub open spec fn in_order(order: SortOrder, a: Seq<char>, b: Seq<char>) -> bool {
    match order {
        SortOrder::Asc => natural_cmp(a, b) != Ordering::Greater,
        SortOrder::Desc => natural_cmp(b, a) != Ordering::Greater,
    }
}

pub open spec fn strings_view(v: Seq<String>) -> Seq<Seq<char>> {
    v.map_values(|s: String| s@)
}

/// Every name stands in order with the next one.
pub open spec fn is_sorted(order: SortOrder, s: Seq<Seq<char>>) -> bool {
    forall|i: int| 0 <= i < s.len() - 1 ==> in_order(order, #[trigger] s[i], s[i + 1])
}

/// Whether `a` must move behind `b`.
fn goes_after(order: SortOrder, a: &str, b: &str) -> (r: bool)
    ensures
        r ==> in_order(order, b@, a@),
        !r ==> in_order(order, a@, b@),
{
    match order {
        SortOrder::Asc => natural_compare(a, b) matches Ordering::Greater,
        SortOrder::Desc => natural_compare(b, a) matches Ordering::Greater,
    }
}

/// Sorts names in natural order, ascending or descending. Names that
/// compare equal keep no particular order.
pub fn natural_sort(names: Vec<String>, order: SortOrder) -> (r: Vec<String>)
    ensures
        r@.to_multiset() == names@.to_multiset(),
        is_sorted(order, strings_view(r@)),
{
    broadcast use vstd::seq_lib::group_to_multiset_ensures;

    let mut rest = names;
    let mut out: Vec<String> = Vec::new();
    while rest.len() > 0
        invariant
            out@.to_multiset().add(rest@.to_multiset()) == names@.to_multiset(),
            is_sorted(order, strings_view(out@)),
        decreases rest@.len(),
    {
        let ghost before = rest@;
        let x = rest.pop().unwrap();
        assert(before == rest@.push(x));
        let mut j: usize = out.len();
        while j > 0 && goes_after(order, out[j - 1].as_str(), x.as_str())
            invariant
                j <= out@.len(),
                forall|k: int| j <= k < out@.len() ==> in_order(order, x@, #[trigger] out@[k]@),
            decreases j,
        {
            j = j - 1;
        }
        let ghost old_out = out@;
        let ghost xv = x@;
        let ghost xs = x;
        assert(j > 0 ==> in_order(order, old_out[j - 1]@, xv));
        out.insert(j, x);
        proof {
            assert(out@.remove(j as int) =~= old_out);
            assert(out@[j as int]@ == xv);
            assert(out@.contains(out@[j as int]));
            out@.to_multiset_ensures();
            assert(out@.remove(j as int).to_multiset() == out@.to_multiset().remove(out@[j as int]));
            assert(old_out.to_multiset() =~= out@.to_multiset().remove(out@[j as int]));
            assert(out@.to_multiset().count(out@[j as int]) > 0);
            assert(out@.to_multiset() =~= old_out.to_multiset().insert(out@[j as int]));
            rest@.to_multiset_ensures();
            assert(out@[j as int] == xs);
            assert(rest@.push(xs).to_multiset() == rest@.to_multiset().insert(xs));
            assert(before.to_multiset() =~= rest@.to_multiset().insert(out@[j as int]));
            assert(out@.to_multiset().add(rest@.to_multiset()) =~= old_out.to_multiset().add(
                before.to_multiset(),
            ));
            let sv = strings_view(out@);
            assert forall|i: int| 0 <= i < sv.len() - 1 implies in_order(
                order,
                #[trigger] sv[i],
                sv[i + 1],
            ) by {
                if i + 1 < j {
                    assert(sv[i] == strings_view(old_out)[i]);
                    assert(sv[i + 1] == strings_view(old_out)[i + 1]);
                } else if i + 1 == j {
                } else if i == j {
                    assert(in_order(order, xv, old_out[j as int]@));
                } else {
                    assert(sv[i] == strings_view(old_out)[i - 1]);
                    assert(sv[i + 1] == strings_view(old_out)[i]);
                }
            }
        }
    }
    out
}

/// Natural order is a strict total order on `names`: it is antisymmetric,
/// `Less` is transitive, and only equal names compare `Equal`.
pub open spec fn strict_total_on(names: Set<Seq<char>>) -> bool {
    &&& forall|a: Seq<char>, b: Seq<char>|
        names.contains(a) && names.contains(b) ==> #[trigger] natural_cmp(b, a) == flipped(
            #[trigger] natural_cmp(a, b),
        )
    &&& forall|a: Seq<char>, b: Seq<char>, c: Seq<char>|
        names.contains(a) && names.contains(b) && names.contains(c) && #[trigger] natural_cmp(a, b)
            == Ordering::Less && #[trigger] natural_cmp(b, c) == Ordering::Less ==> natural_cmp(a, c)
            == Ordering::Less
    &&& forall|a: Seq<char>, b: Seq<char>|
        names.contains(a) && names.contains(b) && a != b ==> #[trigger] natural_cmp(a, b)
            != Ordering::Equal
}

/// `a` comes strictly before `b` in a sort in `order`.
pub open spec fn before(order: SortOrder, a: Seq<char>, b: Seq<char>) -> bool {
    match order {
        SortOrder::Asc => natural_cmp(a, b) == Ordering::Less,
        SortOrder::Desc => natural_cmp(b, a) == Ordering::Less,
    }
}

proof fn lemma_sorted_globally(order: SortOrder, s: Seq<Seq<char>>, p: int, q: int)
    requires
        is_sorted(order, s),
        strict_total_on(s.to_set()),
        0 <= p < q < s.len(),
    ensures
        s[p] == s[q] || before(order, s[p], s[q]),
    decreases q - p,
{
    assert(s.to_set().contains(s[p]) && s.to_set().contains(s[q]));
    assert(s.to_set().contains(s[q - 1]));
    assert(in_order(order, s[q - 1], s[q]));
    if p < q - 1 {
        lemma_sorted_globally(order, s, p, q - 1);
    }
}

/// A sort in natural order does not depend on the order in which the names
/// came: two sorted arrangements of the same names are the same sequence,
/// where natural order is a strict total order on them.
pub proof fn lemma_sorted_arrangement_unique(order: SortOrder, s1: Seq<Seq<char>>, s2: Seq<Seq<char>>)
    requires
        is_sorted(order, s1),
        is_sorted(order, s2),
        s1.to_multiset() == s2.to_multiset(),
        strict_total_on(s1.to_set()),
    ensures
        s1 == s2,
    decreases s1.len(),
{
    broadcast use vstd::seq_lib::group_to_multiset_ensures;

    s1.to_multiset_ensures();
    s2.to_multiset_ensures();
    assert(s1.len() == s2.len());
    if s1.len() == 0 {
        assert(s1 =~= s2);
    } else {
        let a = s1[0];
        let b = s2[0];
        assert(s2.to_multiset().count(a) > 0);
        assert(s1.to_multiset().count(b) > 0);
        assert(s2.contains(a));
        assert(s1.contains(b));
        assert forall|x: Seq<char>| s2.to_set().contains(x) implies s1.to_set().contains(x) by {
            assert(s2.contains(x));
            assert(s2.to_multiset().count(x) > 0);
            assert(s1.contains(x));
        }
        if a != b {
            let i = choose|i: int| 0 <= i < s1.len() && s1[i] == b;
            let j = choose|j: int| 0 <= j < s2.len() && s2[j] == a;
            lemma_sorted_globally(order, s1, 0, i);
            assert(strict_total_on(s2.to_set()));
            lemma_sorted_globally(order, s2, 0, j);
            assert(s1.to_set().contains(a) && s1.to_set().contains(b));
            assert(natural_cmp(b, a) == flipped(natural_cmp(a, b)));
        }
        let t1 = s1.drop_first();
        let t2 = s2.drop_first();
        assert(s1.remove(0) =~= t1);
        assert(s2.remove(0) =~= t2);
        assert(t1.to_multiset() =~= s1.to_multiset().remove(a));
        assert(t2.to_multiset() =~= s2.to_multiset().remove(b));
        assert(is_sorted(order, t1)) by {
            assert forall|i: int| 0 <= i < t1.len() - 1 implies in_order(order, #[trigger] t1[i], t1[i + 1]) by {
                assert(in_order(order, s1[i + 1], s1[i + 2]));
            }
        }
        assert(is_sorted(order, t2)) by {
            assert forall|i: int| 0 <= i < t2.len() - 1 implies in_order(order, #[trigger] t2[i], t2[i + 1]) by {
                assert(in_order(order, s2[i + 1], s2[i + 2]));
            }
        }
        assert(strict_total_on(t1.to_set())) by {
            assert forall|x: Seq<char>| t1.to_set().contains(x) implies s1.to_set().contains(x) by {
                let k = choose|k: int| 0 <= k < t1.len() && t1[k] == x;
                assert(s1[k + 1] == x);
            }
        }
        lemma_sorted_arrangement_unique(order, t1, t2);
        assert(s1 =~= s2) by {
            assert forall|i: int| 0 <= i < s1.len() implies s1[i] == s2[i] by {
                if i > 0 {
                    assert(s1[i] == t1[i - 1]);
                    assert(s2[i] == t2[i - 1]);
                }
            }
        }
    }
}

} // verus!
