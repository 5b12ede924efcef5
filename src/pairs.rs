use vstd::prelude::*;

use vstd::std_specs::cmp::PartialEqSpec;
use crate::linked_list::{concat_map, elem, flatten_lists, is_clone_of, tails, List};

verus! {

/// Two elements at different positions of `s` add up to `total`.
pub open spec fn has_pair_sum(total: int, s: Seq<i32>) -> bool {
    exists|i: int, j: int| 0 <= i < j < s.len() && s[i] + s[j] == total
}

/// The sums of the head of `suffix` with each element after it.
fn sums_with_head(suffix: &List<i32>) -> (r: List<i64>)
    ensures
        r@.len() == if suffix@.len() == 0 {
            0
        } else {
            suffix@.len() - 1
        },
        forall|k: int| 0 <= k < r@.len() ==> #[trigger] r@[k] == suffix@[0] + suffix@[k + 1],
{
    match suffix {
        List::Nil => List::Nil,
        List::Cons(x, rest) => {
            let head = *x as i64;
            let add_head = |a: &i32| -> (s: i64)
                ensures
                    s == head + *a,
                { head + *a as i64 };
            let r = crate::linked_list::map(add_head, rest);
            assert forall|k: int| 0 <= k < r@.len() implies #[trigger] r@[k] == suffix@[0]
                + suffix@[k + 1] by {
                assert(rest@[k] == suffix@[k + 1]);
                assert(add_head.ensures((&rest@[k],), r@[k]));
            }
            r
        },
    }
}

/// A value occurs in a flattened sequence exactly when it occurs in one of its parts.
proof fn lemma_flatten_contains<B>(ss: Seq<Seq<B>>, v: B)
    ensures
        ss.flatten().contains(v) <==> exists|i: int, k: int|
            0 <= i < ss.len() && 0 <= k < ss[i].len() && #[trigger] ss[i][k] == v,
    decreases ss.len(),
{
    if ss.len() > 0 {
        let rest = ss.drop_first();
        lemma_flatten_contains(rest, v);
        let flat = ss.flatten();
        assert(flat == ss[0] + rest.flatten());
        if flat.contains(v) {
            let p = choose|p: int| 0 <= p < flat.len() && flat[p] == v;
            if p < ss[0].len() {
                assert(ss[0][p] == v);
            } else {
                assert(rest.flatten()[p - ss[0].len()] == v);
                let (i, k) = choose|i: int, k: int|
                    0 <= i < rest.len() && 0 <= k < rest[i].len() && #[trigger] rest[i][k] == v;
                assert(ss[i + 1][k] == v);
            }
        }
        if exists|i: int, k: int| 0 <= i < ss.len() && 0 <= k < ss[i].len() && #[trigger] ss[i][k] == v {
            let (i, k) = choose|i: int, k: int|
                0 <= i < ss.len() && 0 <= k < ss[i].len() && #[trigger] ss[i][k] == v;
            if i == 0 {
                assert(flat[k] == v);
            } else {
                assert(rest[i - 1][k] == v);
                let p = choose|p: int| 0 <= p < rest.flatten().len() && rest.flatten()[p] == v;
                assert(flat[p + ss[0].len()] == v);
            }
        }
    }
}

/// Whether two elements of `xs` at different positions add up to `total`.
///
/// Every suffix contributes the sums of its head with each later element; `total` is then
/// looked up among all those sums. The sums are taken in `i64`, so none of them overflows.
pub fn has_pair_adding_to(total: i32, xs: &List<i32>) -> (r: bool)
    ensures
        r == has_pair_sum(total as int, xs@),
{
    let suffixes = tails(xs);
    let sums = concat_map(sums_with_head, &suffixes);
    let r = elem(total as i64, &sums);
    proof {
        let n = xs@.len() as int;
        let parts = choose|parts: Seq<List<i64>>|
            {
                &&& parts.len() == suffixes@.len()
                &&& forall|i: int|
                    0 <= i < suffixes@.len() ==> sums_with_head.ensures(
                        (&suffixes@[i],),
                        #[trigger] parts[i],
                    )
                &&& sums@ == flatten_lists(parts)
            };
        let views = parts.map_values(|l: List<i64>| l@);
        assert forall|i: int| 0 <= i <= n implies (#[trigger] suffixes@[i])@ =~= xs@.subrange(
            i,
            n,
        ) by {
            assert(is_clone_of(xs@.subrange(i, n), suffixes@[i]@));
        }
        assert forall|i: int, k: int| 0 <= i < views.len() && 0 <= k < views[i].len() implies
            #[trigger] views[i][k] == xs@[i] + xs@[i + k + 1] && i + k + 1 < n by {
            assert(sums_with_head.ensures((&suffixes@[i],), parts[i]));
            assert(suffixes@[i]@ =~= xs@.subrange(i, n));
        }
        lemma_flatten_contains(views, total as i64);
        if r {
            let p = choose|p: int| 0 <= p < sums@.len() && sums@[p] == total as i64;
            assert(sums@.contains(total as i64));
            let (i, k) = choose|i: int, k: int|
                0 <= i < views.len() && 0 <= k < views[i].len() && #[trigger] views[i][k]
                    == total as i64;
            assert(xs@[i] + xs@[i + k + 1] == total);
        }
        if has_pair_sum(total as int, xs@) {
            let (i, j) = choose|i: int, j: int|
                0 <= i < j < xs@.len() && xs@[i] + xs@[j] == total;
            assert(sums_with_head.ensures((&suffixes@[i],), parts[i]));
            assert(suffixes@[i]@ =~= xs@.subrange(i, n));
            assert(views[i][j - i - 1] == total as i64);
            let p = choose|p: int| 0 <= p < sums@.len() && sums@[p] == total as i64;
            assert(sums@[p].eq_spec(&(total as i64)));
        }
    }
    r
}

} // verus!
