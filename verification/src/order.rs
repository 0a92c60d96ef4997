use vstd::prelude::*;
use vstd::relations::{sorted_by, total_ordering};
use vstd::seq_lib::{lemma_multiset_commutative, lemma_sorted_unique};
use crate::text::first_difference;

verus! {

/// `a` comes strictly before `b` when names are sorted: compared character
/// by character, and a proper prefix before the longer name.
pub open spec fn name_less(a: Seq<char>, b: Seq<char>) -> bool
    decreases a.len(),
{
    if a.len() == 0 {
        b.len() > 0
    } else if b.len() == 0 {
        false
    } else if a[0] != b[0] {
        (a[0] as int) < (b[0] as int)
    } else {
        name_less(a.drop_first(), b.drop_first())
    }
}

/// `a` comes before `b`, or is `b`, when names are sorted.
pub open spec fn name_le(a: Seq<char>, b: Seq<char>) -> bool {
    !name_less(b, a)
}

/// The order of sorted names, as a relation.
pub open spec fn by_name() -> spec_fn(Seq<char>, Seq<char>) -> bool {
    |a: Seq<char>, b: Seq<char>| name_le(a, b)
}

/// `names` sorted.
pub open spec fn sorted_names(names: Seq<Seq<char>>) -> Seq<Seq<char>> {
    names.sort_by(by_name())
}

/// The text of each string.
pub open spec fn string_views(v: Seq<String>) -> Seq<Seq<char>> {
    v.map_values(|s: String| s@)
}

proof fn lemma_name_less_irreflexive(a: Seq<char>)
    ensures
        !name_less(a, a),
    decreases a.len(),
{
    if a.len() > 0 {
        lemma_name_less_irreflexive(a.drop_first());
    }
}

proof fn lemma_name_less_transitive(a: Seq<char>, b: Seq<char>, c: Seq<char>)
    requires
        name_less(a, b),
        name_less(b, c),
    ensures
        name_less(a, c),
    decreases a.len(),
{
    if a.len() > 0 && b.len() > 0 && c.len() > 0 && a[0] == b[0] && b[0] == c[0] {
        lemma_name_less_transitive(a.drop_first(), b.drop_first(), c.drop_first());
    }
}

proof fn lemma_name_less_total(a: Seq<char>, b: Seq<char>)
    requires
        a != b,
    ensures
        name_less(a, b) || name_less(b, a),
    decreases a.len(),
{
    if a.len() > 0 && b.len() > 0 && a[0] == b[0] {
        if a.drop_first() == b.drop_first() {
            assert(a =~= seq![a[0]] + a.drop_first());
            assert(b =~= seq![b[0]] + b.drop_first());
        }
        lemma_name_less_total(a.drop_first(), b.drop_first());
    } else if a.len() == 0 && b.len() == 0 {
        assert(a =~= b);
    }
}

/// No two names each sort before the other.
pub proof fn lemma_name_less_asymmetric(a: Seq<char>, b: Seq<char>)
    requires
        name_less(a, b),
    ensures
        !name_less(b, a),
{
    if name_less(b, a) {
        lemma_name_less_transitive(a, b, a);
        lemma_name_less_irreflexive(a);
    }
}

/// Sorted names are totally ordered.
pub proof fn lemma_by_name_total_ordering()
    ensures
        total_ordering(by_name()),
{
    assert forall|a: Seq<char>| #[trigger] by_name()(a, a) by {
        lemma_name_less_irreflexive(a);
    }
    assert forall|a: Seq<char>, b: Seq<char>| #[trigger] by_name()(a, b) && #[trigger] by_name()(
        b,
        a,
    ) implies a == b by {
        if a != b {
            lemma_name_less_total(a, b);
        }
    }
    assert forall|a: Seq<char>, b: Seq<char>, c: Seq<char>| #[trigger] by_name()(a, b)
        && #[trigger] by_name()(b, c) implies by_name()(a, c) by {
        if name_less(c, a) {
            if a == b {
            } else {
                lemma_name_less_total(a, b);
                lemma_name_less_transitive(c, a, b);
            }
        }
    }
    assert forall|a: Seq<char>, b: Seq<char>| #[trigger] by_name()(a, b) || #[trigger] by_name()(
        b,
        a,
    ) by {
        if name_less(b, a) && name_less(a, b) {
            lemma_name_less_transitive(a, b, a);
            lemma_name_less_irreflexive(a);
        }
    }
}

/// Names that first differ where `a` holds the smaller character sort with
/// `a` first.
pub proof fn lemma_first_difference_name_less(a: Seq<char>, b: Seq<char>, k: int)
    requires
        first_difference(a, b, k),
    ensures
        name_less(a, b),
    decreases k,
{
    if k > 0 {
        assert(a[0] == a.take(k)[0] && b[0] == b.take(k)[0]);
        assert(a.drop_first().take(k - 1) =~= a.take(k).drop_first());
        assert(b.drop_first().take(k - 1) =~= b.take(k).drop_first());
        lemma_first_difference_name_less(a.drop_first(), b.drop_first(), k - 1);
    }
}

/// A sequence of names that is sorted and holds the names of `names` is
/// `sorted_names(names)`.
pub proof fn lemma_sorted_names_unique(s: Seq<Seq<char>>, names: Seq<Seq<char>>)
    requires
        sorted_by(s, by_name()),
        s.to_multiset() == names.to_multiset(),
    ensures
        s == sorted_names(names),
{
    lemma_by_name_total_ordering();
    names.lemma_sort_by_ensures(by_name());
    lemma_sorted_unique(s, sorted_names(names), by_name());
}

/// Sorting keeps every name, each as often as it occurs, and puts them in
/// name order.
pub proof fn lemma_sorted_names_permutes(names: Seq<Seq<char>>)
    ensures
        sorted_names(names).to_multiset() == names.to_multiset(),
        sorted_names(names).len() == names.len(),
        forall|i: int, j: int|
            0 <= i < j < names.len() ==> !name_less(
                #[trigger] sorted_names(names)[j],
                #[trigger] sorted_names(names)[i],
            ),
{
    lemma_by_name_total_ordering();
    names.lemma_sort_by_ensures(by_name());
    names.to_multiset_ensures();
    sorted_names(names).to_multiset_ensures();
    assert forall|i: int, j: int| 0 <= i < j < names.len() implies !name_less(
        #[trigger] sorted_names(names)[j],
        #[trigger] sorted_names(names)[i],
    ) by {
        assert(by_name()(sorted_names(names)[i], sorted_names(names)[j]));
    }
}

/// Whether the name `a` sorts strictly before the name `b`.
pub fn name_precedes(a: &str, b: &str) -> (r: bool)
    ensures
        r == name_less(a@, b@),
{
    let n = a.unicode_len();
    let m = b.unicode_len();
    let mut i: usize = 0;
    assert(a@.skip(0) =~= a@ && b@.skip(0) =~= b@);
    while i < n && i < m
        invariant
            n == a@.len(),
            m == b@.len(),
            i <= n,
            i <= m,
            name_less(a@, b@) == name_less(a@.skip(i as int), b@.skip(i as int)),
        decreases n - i,
    {
        let x = a.get_char(i);
        let y = b.get_char(i);
        if x != y {
            return x < y;
        }
        assert(a@.skip(i as int).drop_first() =~= a@.skip(i + 1));
        assert(b@.skip(i as int).drop_first() =~= b@.skip(i + 1));
        i = i + 1;
    }
    i == n && i < m
}

/// `paths` sorted by name.
pub fn sort_by_name(paths: &Vec<String>) -> (r: Vec<String>)
    ensures
        string_views(r@) == sorted_names(string_views(paths@)),
{
    let mut out: Vec<String> = Vec::new();
    let n = paths.len();
    let ghost all = string_views(paths@);
    proof {
        lemma_by_name_total_ordering();
        assert(string_views(out@) =~= all.take(0));
    }
    for i in 0..n
        invariant
            n == paths.len(),
            all == string_views(paths@),
            total_ordering(by_name()),
            sorted_by(string_views(out@), by_name()),
            string_views(out@).to_multiset() == all.take(i as int).to_multiset(),
    {
        let x = paths[i].clone();
        let ghost before = string_views(out@);
        let mut p: usize = 0;
        while p < out.len() && !name_precedes(x.as_str(), out[p].as_str())
            invariant
                before == string_views(out@),
                p <= out.len(),
                forall|k: int| 0 <= k < p ==> !name_less(x@, #[trigger] before[k]),
            decreases out.len() - p,
        {
            p = p + 1;
        }
        out.insert(p, x);
        let ghost after = string_views(out@);
        proof {
            assert(after =~= before.insert(p as int, x@));
            assert forall|a: int, b: int| 0 <= a < b < after.len() implies #[trigger] by_name()(
                after[a],
                after[b],
            ) by {
                if b < p {
                    assert(by_name()(before[a], before[b]));
                } else if b == p {
                    assert(!name_less(x@, before[a]));
                } else if a < p {
                    // before[a] <= x < before[p] <= before[b - 1]
                    assert(by_name()(before[a], before[b - 1]));
                } else if a == p {
                    assert(name_less(x@, before[p as int]));
                    if p < b - 1 {
                        assert(by_name()(before[p as int], before[b - 1]));
                    }
                    if name_less(before[b - 1], x@) {
                        lemma_name_less_transitive(before[b - 1], x@, before[p as int]);
                        if p < b - 1 {
                        } else {
                            lemma_name_less_irreflexive(before[p as int]);
                        }
                    }
                } else {
                    assert(by_name()(before[a - 1], before[b - 1]));
                }
            }
            lemma_multiset_commutative(before.take(p as int).push(x@), before.skip(p as int));
            lemma_multiset_commutative(before.take(p as int), before.skip(p as int));
            assert(before.take(p as int) + before.skip(p as int) =~= before);
            assert(before.take(p as int).push(x@) + before.skip(p as int) =~= after);
            before.take(p as int).to_multiset_ensures();
            assert(all.take(i + 1) =~= all.take(i as int).push(x@));
            all.take(i as int).to_multiset_ensures();
            assert(after.to_multiset() =~= all.take(i + 1).to_multiset());
        }
    }
    proof {
        assert(all.take(n as int) =~= all);
        lemma_sorted_names_unique(string_views(out@), all);
    }
    out
}

} // verus!
