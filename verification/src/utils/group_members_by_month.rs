//! Grouping members by the month they joined in.
use std::collections::BTreeMap;
use vstd::prelude::*;
use crate::calendar::timestamp_in_range;
use crate::utils::start_of_month::{
    lemma_start_of_month_bounds, lemma_start_of_month_idempotent, start_of_month, start_of_month_spec,
};
use crate::utils::response_templates::group_views;
use crate::utils::types::MembersByMonth;

verus! {

/// The start of the month of a member's join timestamp.
pub open spec fn join_month(p: (i64, String)) -> int {
    start_of_month_spec(p.0 as int)
}

/// All join timestamps are in the supported range.
pub open spec fn joins_in_range(s: Seq<(i64, String)>) -> bool {
    forall|i: int| 0 <= i < s.len() ==> timestamp_in_range(#[trigger] s[i].0 as int)
}

/// The grouping, built member by member: each id is appended to the group of
/// its join month.
pub open spec fn grouped_by_month(s: Seq<(i64, String)>) -> Map<i64, Seq<String>>
    decreases s.len(),
{
    if s.len() == 0 {
        Map::empty()
    } else {
        let prev = grouped_by_month(s.drop_last());
        let k = join_month(s.last()) as i64;
        let group = if prev.contains_key(k) { prev[k] } else { Seq::empty() };
        prev.insert(k, group.push(s.last().1))
    }
}

/// Whether a member joined in the month starting at `month`.
pub open spec fn in_month(month: int) -> spec_fn((i64, String)) -> bool {
    |p: (i64, String)| join_month(p) == month
}

/// The ids of the members, in order.
pub open spec fn ids_of(s: Seq<(i64, String)>) -> Seq<String> {
    s.map_values(|p: (i64, String)| p.1)
}

/// The ids, in order, of the members who joined in the month starting at `month`.
pub open spec fn ids_in_month(s: Seq<(i64, String)>, month: int) -> Seq<String> {
    ids_of(s.filter(in_month(month)))
}

proof fn lemma_filter_none<A>(s: Seq<A>, pred: spec_fn(A) -> bool)
    requires
        forall|i: int| 0 <= i < s.len() ==> !pred(#[trigger] s[i]),
    ensures
        s.filter(pred).len() == 0,
    decreases s.len(),
{
    reveal_with_fuel(Seq::filter, 1);
    if s.len() > 0 {
        assert forall|i: int| 0 <= i < s.drop_last().len() implies !pred(#[trigger] s.drop_last()[i]) by {
            assert(s.drop_last()[i] == s[i]);
        }
        lemma_filter_none(s.drop_last(), pred);
    }
}

/// The grouping has a key for exactly the join months of the members, and under
/// each key the ids of the members who joined in that month, in their order.
pub proof fn lemma_grouped_by_month(s: Seq<(i64, String)>)
    requires
        joins_in_range(s),
    ensures
        forall|k: i64| #[trigger]
            grouped_by_month(s).contains_key(k) <==> exists|i: int|
                0 <= i < s.len() && join_month(s[i]) == k,
        forall|k: i64| #[trigger]
            grouped_by_month(s).contains_key(k) ==> grouped_by_month(s)[k] == ids_in_month(s, k as int),
    decreases s.len(),
{
    if s.len() > 0 {
        let prev = s.drop_last();
        assert(joins_in_range(prev)) by {
            assert forall|i: int| 0 <= i < prev.len() implies timestamp_in_range(#[trigger] prev[i].0 as int) by {
                assert(prev[i] == s[i]);
            }
        }
        lemma_grouped_by_month(prev);
        let last = s.last();
        assert(timestamp_in_range(s[s.len() - 1].0 as int));
        lemma_start_of_month_bounds(last.0 as int);
        let k0 = join_month(last) as i64;
        assert(k0 as int == join_month(last));
        reveal_with_fuel(Seq::filter, 1);
        assert forall|k: i64| #[trigger]
            grouped_by_month(s).contains_key(k) <==> exists|i: int|
                0 <= i < s.len() && join_month(s[i]) == k by {
            if grouped_by_month(prev).contains_key(k) {
                let i = choose|i: int| 0 <= i < prev.len() && join_month(prev[i]) == k;
                assert(s[i] == prev[i]);
            }
            if exists|i: int| 0 <= i < s.len() && join_month(s[i]) == k {
                let i = choose|i: int| 0 <= i < s.len() && join_month(s[i]) == k;
                if i < s.len() - 1 {
                    assert(s[i] == prev[i]);
                }
            }
        }
        assert forall|k: i64| #[trigger]
            grouped_by_month(s).contains_key(k) implies grouped_by_month(s)[k] == ids_in_month(s, k as int) by {
            let pk = in_month(k as int);
            assert(s.drop_last() == prev);
            assert(s.filter(pk) == if pk(last) { prev.filter(pk).push(last) } else { prev.filter(pk) });
            assert(ids_of(prev.filter(pk).push(last)) =~= ids_of(prev.filter(pk)).push(last.1));
            if k == k0 {
                assert(pk(last));
                assert(ids_in_month(s, k as int) == ids_in_month(prev, k as int).push(last.1));
            } else {
                assert(!pk(last));
                assert(ids_in_month(s, k as int) == ids_in_month(prev, k as int));
                assert(grouped_by_month(prev).contains_key(k));
                assert(grouped_by_month(s)[k] == grouped_by_month(prev)[k]);
            }
            if k == k0 && !grouped_by_month(prev).contains_key(k) {
                assert forall|i: int| 0 <= i < prev.len() implies !pk(#[trigger] prev[i]) by {
                    if pk(prev[i]) {
                        assert(join_month(prev[i]) == k);
                    }
                }
                lemma_filter_none(prev, pk);
                assert(prev.filter(pk) =~= Seq::<(i64, String)>::empty());
                assert(ids_in_month(prev, k as int) =~= Seq::<String>::empty());
            }
        }
    }
}

/// Every key of the grouping is the start of its own month.
pub proof fn lemma_group_keys_are_month_starts(s: Seq<(i64, String)>)
    requires
        joins_in_range(s),
    ensures
        forall|k: i64| #[trigger] grouped_by_month(s).contains_key(k) ==> start_of_month_spec(k as int) == k,
{
    lemma_grouped_by_month(s);
    assert forall|k: i64| #[trigger] grouped_by_month(s).contains_key(k) implies start_of_month_spec(k as int) == k by {
        let i = choose|i: int| 0 <= i < s.len() && join_month(s[i]) == k;
        assert(timestamp_in_range(s[i].0 as int));
        lemma_start_of_month_idempotent(s[i].0 as int);
    }
}

/// The ids of a group, or none when the key is absent.
pub open spec fn group_or_empty(m: Map<i64, Seq<String>>, k: i64) -> Seq<String> {
    if m.contains_key(k) {
        m[k]
    } else {
        Seq::empty()
    }
}

/// Two groupings put together: the keys of either, and under each key the
/// first grouping's ids followed by the second's.
pub open spec fn merged_groups(a: Map<i64, Seq<String>>, b: Map<i64, Seq<String>>) -> Map<i64, Seq<String>> {
    Map::new(
        |k: i64| a.contains_key(k) || b.contains_key(k),
        |k: i64| group_or_empty(a, k) + group_or_empty(b, k),
    )
}

/// Grouping the members of `a` followed by those of `b` is grouping each and
/// merging the two, key by key, `a`'s ids first.
pub proof fn lemma_grouped_by_month_concat(a: Seq<(i64, String)>, b: Seq<(i64, String)>)
    ensures
        grouped_by_month(a + b) == merged_groups(grouped_by_month(a), grouped_by_month(b)),
    decreases b.len(),
{
    let ga = grouped_by_month(a);
    if b.len() == 0 {
        assert(a + b =~= a);
        assert forall|k: i64| #[trigger] ga.contains_key(k) implies merged_groups(ga, grouped_by_month(b))[k]
            == ga[k] by {
            assert(ga[k] + Seq::<String>::empty() =~= ga[k]);
        }
        assert(merged_groups(ga, grouped_by_month(b)) =~= ga);
    } else {
        let bp = b.drop_last();
        let x = b.last();
        lemma_grouped_by_month_concat(a, bp);
        assert((a + b).drop_last() =~= a + bp);
        assert((a + b).last() == x);
        let gbp = grouped_by_month(bp);
        let gb = grouped_by_month(b);
        let k0 = join_month(x) as i64;
        let mp = merged_groups(ga, gbp);
        assert(grouped_by_month(a + b) == mp.insert(k0, group_or_empty(mp, k0).push(x.1)));
        assert(gb == gbp.insert(k0, group_or_empty(gbp, k0).push(x.1)));
        assert forall|k: i64| #[trigger] merged_groups(ga, gb).contains_key(k) implies merged_groups(ga, gb)[k]
            == mp.insert(k0, group_or_empty(mp, k0).push(x.1))[k] by {
            if k == k0 {
                assert(group_or_empty(ga, k) + group_or_empty(gbp, k).push(x.1) =~= (group_or_empty(ga, k)
                    + group_or_empty(gbp, k)).push(x.1));
            }
        }
        assert(merged_groups(ga, gb) =~= mp.insert(k0, group_or_empty(mp, k0).push(x.1)));
    }
}

/// Adds the ids of group `k` of `m` to a running collection.
pub open spec fn add_group(m: Map<i64, Seq<String>>) -> spec_fn(vstd::multiset::Multiset<String>, i64) -> vstd::multiset::Multiset<String> {
    |acc: vstd::multiset::Multiset<String>, k: i64| acc.add(m[k].to_multiset())
}

/// All the ids of a grouping, whatever their group.
pub open spec fn all_grouped_ids(m: Map<i64, Seq<String>>) -> vstd::multiset::Multiset<String> {
    m.dom().fold(vstd::multiset::Multiset::empty(), add_group(m))
}

proof fn lemma_add_group_commutative(m: Map<i64, Seq<String>>)
    ensures
        vstd::set::fold::is_fun_commutative(add_group(m)),
{
    broadcast use vstd::multiset::group_multiset_axioms;
    let f = add_group(m);
    assert forall|a1: i64, a2: i64, b: vstd::multiset::Multiset<String>| #[trigger] f(f(b, a2), a1) == f(f(b, a1), a2) by {
        assert(b.add(m[a2].to_multiset()).add(m[a1].to_multiset()) =~= b.add(m[a1].to_multiset()).add(
            m[a2].to_multiset(),
        ));
    }
}

/// Folding two groupings that agree on the keys of `keys` over those keys gives the same ids.
proof fn lemma_fold_groups_agree(
    keys: Set<i64>,
    m1: Map<i64, Seq<String>>,
    m2: Map<i64, Seq<String>>,
    z: vstd::multiset::Multiset<String>,
)
    requires
        keys.finite(),
        forall|k: i64| #[trigger] keys.contains(k) ==> m1[k] == m2[k],
    ensures
        keys.fold(z, add_group(m1)) == keys.fold(z, add_group(m2)),
    decreases keys.len(),
{
    lemma_add_group_commutative(m1);
    lemma_add_group_commutative(m2);
    if keys.len() == 0 {
        vstd::set_lib::lemma_set_empty_equivalency_len(keys);
        assert(keys =~= Set::<i64>::empty());
        vstd::set::fold::lemma_fold_empty(z, add_group(m1));
        vstd::set::fold::lemma_fold_empty(z, add_group(m2));
    } else {
        let a = keys.choose();
        assert(keys.contains(a));
        let rest = keys.remove(a);
        lemma_fold_groups_agree(rest, m1, m2, z);
        assert(rest.insert(a) =~= keys);
        vstd::set::fold::lemma_fold_insert(rest, z, add_group(m1), a);
        vstd::set::fold::lemma_fold_insert(rest, z, add_group(m2), a);
    }
}

/// Replacing or adding group `k` replaces its ids in the collection of all ids.
proof fn lemma_all_grouped_ids_insert(m: Map<i64, Seq<String>>, k: i64, v: Seq<String>)
    requires
        m.dom().finite(),
    ensures
        all_grouped_ids(m.insert(k, v)).add(group_or_empty(m, k).to_multiset()) == all_grouped_ids(m).add(
            v.to_multiset(),
        ),
{
    broadcast use vstd::multiset::group_multiset_axioms;
    let m2 = m.insert(k, v);
    let z = vstd::multiset::Multiset::<String>::empty();
    lemma_add_group_commutative(m);
    lemma_add_group_commutative(m2);
    let rest = m.dom().remove(k);
    assert forall|j: i64| #[trigger] rest.contains(j) implies m[j] == m2[j] by {}
    lemma_fold_groups_agree(rest, m, m2, z);
    assert(rest.insert(k) =~= m2.dom());
    vstd::set::fold::lemma_fold_insert(rest, z, add_group(m2), k);
    if m.contains_key(k) {
        assert(rest.insert(k) =~= m.dom());
        vstd::set::fold::lemma_fold_insert(rest, z, add_group(m), k);
        let r = rest.fold(z, add_group(m));
        assert(r.add(v.to_multiset()).add(m[k].to_multiset()) =~= r.add(m[k].to_multiset()).add(v.to_multiset()));
    } else {
        assert(rest =~= m.dom());
        assert(Seq::<String>::empty().to_multiset() =~= vstd::multiset::Multiset::<String>::empty()) by {
            broadcast use vstd::seq_lib::group_to_multiset_ensures;
        }
        let r = rest.fold(z, add_group(m));
        assert(r.add(v.to_multiset()).add(vstd::multiset::Multiset::empty()) =~= r.add(v.to_multiset()));
    }
}

/// The grouping holds every member's id once, in some group: together its
/// groups are a permutation of the ids; no group is empty; it has finitely many
/// keys, and none exactly when there are no members.
pub proof fn lemma_grouping_is_a_permutation(s: Seq<(i64, String)>)
    ensures
        grouped_by_month(s).dom().finite(),
        all_grouped_ids(grouped_by_month(s)) == ids_of(s).to_multiset(),
        forall|k: i64| #[trigger] grouped_by_month(s).contains_key(k) ==> grouped_by_month(s)[k].len() > 0,
        grouped_by_month(s).dom().is_empty() <==> s.len() == 0,
    decreases s.len(),
{
    broadcast use vstd::multiset::group_multiset_axioms;
    broadcast use vstd::seq_lib::group_to_multiset_ensures;
    if s.len() == 0 {
        let m = grouped_by_month(s);
        assert(m.dom() =~= Set::<i64>::empty());
        vstd::set::fold::lemma_fold_empty(vstd::multiset::Multiset::<String>::empty(), add_group(m));
        assert(ids_of(s) =~= Seq::<String>::empty());
        assert(ids_of(s).to_multiset() =~= vstd::multiset::Multiset::<String>::empty());
    } else {
        let p = s.drop_last();
        let x = s.last();
        lemma_grouping_is_a_permutation(p);
        let gp = grouped_by_month(p);
        let k = join_month(x) as i64;
        let v = group_or_empty(gp, k).push(x.1);
        assert(grouped_by_month(s) == gp.insert(k, v));
        lemma_all_grouped_ids_insert(gp, k, v);
        assert(ids_of(s) =~= ids_of(p).push(x.1));
        assert(v.to_multiset() =~= group_or_empty(gp, k).to_multiset().insert(x.1));
        let a = all_grouped_ids(gp.insert(k, v));
        let g = group_or_empty(gp, k).to_multiset();
        assert(a.add(g) =~= ids_of(p).to_multiset().add(g).insert(x.1));
        assert(a =~= ids_of(p).to_multiset().insert(x.1)) by {
            assert forall|y: String| a.count(y) == ids_of(p).to_multiset().insert(x.1).count(y) by {
                assert(a.add(g).count(y) == a.count(y) + g.count(y));
            }
        }
        assert(grouped_by_month(s).contains_key(k));
    }
}

/// Groups `(join timestamp, id)` pairs under the start of their month (UTC),
/// keeping the ids of each month in the order given.
pub fn group_members_by_month(members: Vec<(i64, String)>) -> (r: MembersByMonth)
    requires
        joins_in_range(members@),
    ensures
        group_views(r@) == grouped_by_month(members@),
        forall|k: i64| #[trigger]
            r@.contains_key(k) <==> exists|i: int|
                0 <= i < members@.len() && join_month(members@[i]) == k,
        forall|k: i64| #[trigger] r@.contains_key(k) ==> r@[k]@ == ids_in_month(members@, k as int),
        all_grouped_ids(group_views(r@)) == ids_of(members@).to_multiset(),
        forall|k: i64| #[trigger] r@.contains_key(k) ==> r@[k]@.len() > 0,
        r@.dom().is_empty() <==> members@.len() == 0,
{
    let mut members_by_month: MembersByMonth = BTreeMap::new();
    let mut i: usize = 0;
    assert(members@.take(0) =~= Seq::<(i64, String)>::empty());
    while i < members.len()
        invariant
            i <= members@.len(),
            joins_in_range(members@),
            members_by_month@.dom() == grouped_by_month(members@.take(i as int)).dom(),
            forall|k: i64| #[trigger]
                members_by_month@.contains_key(k) ==> members_by_month@[k]@ == grouped_by_month(
                    members@.take(i as int),
                )[k],
        decreases members@.len() - i,
    {
        let ts = members[i].0;
        let id = members[i].1.clone();
        assert(timestamp_in_range(members@[i as int].0 as int));
        let key = start_of_month(ts);
        let ghost prefix = members@.take(i + 1);
        assert(prefix.drop_last() =~= members@.take(i as int));
        assert(prefix.last() == members@[i as int]);
        match members_by_month.remove(&key) {
            Some(mut group) => {
                group.push(id);
                members_by_month.insert(key, group);
            },
            None => {
                let mut group: Vec<String> = Vec::new();
                group.push(id);
                members_by_month.insert(key, group);
            },
        }
        assert(members_by_month@.dom() =~= grouped_by_month(prefix).dom());
        i += 1;
    }
    assert(members@.take(members@.len() as int) =~= members@);
    proof {
        lemma_grouped_by_month(members@);
        lemma_grouping_is_a_permutation(members@);
        assert(group_views(members_by_month@) =~= grouped_by_month(members@));
        assert(members_by_month@.dom() =~= grouped_by_month(members@).dom());
    }
    members_by_month
}

} // verus!
