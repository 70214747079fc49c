//! Collapses records that differ only in their host into one group.

use vstd::prelude::*;
use crate::record::{key_of, same_result, views, MinionResult, ResultView};

verus! {

/// Groups: a key (a record with its host cleared) and the hosts that gave it.
pub type GroupsView = Seq<(ResultView, Seq<Seq<char>>)>;

/// The index of the group with `key`, if any.
pub open spec fn group_index(groups: GroupsView, key: ResultView) -> Option<int>
    decreases groups.len(),
{
    if groups.len() == 0 {
        None
    } else if groups.last().0 == key {
        Some(groups.len() - 1)
    } else {
        group_index(groups.drop_last(), key)
    }
}

/// `groups` after one more record: its host joins the group of its key,
/// which is opened at the end if there is none yet.
pub open spec fn add_record(groups: GroupsView, r: ResultView) -> GroupsView {
    match group_index(groups, key_of(r)) {
        Some(g) => groups.update(g, (groups[g].0, groups[g].1.push(r.host))),
        None => groups.push((key_of(r), seq![r.host])),
    }
}

/// The groups of a record sequence, taken in order: groups in the order in
/// which their keys first occur, hosts in the order of their records.
pub open spec fn grouped(rs: Seq<ResultView>) -> GroupsView
    decreases rs.len(),
{
    if rs.len() == 0 {
        Seq::empty()
    } else {
        add_record(grouped(rs.drop_last()), rs.last())
    }
}

/// The host lists of all groups, one after another.
pub open spec fn all_hosts(groups: GroupsView) -> Seq<Seq<char>>
    decreases groups.len(),
{
    if groups.len() == 0 {
        Seq::empty()
    } else {
        all_hosts(groups.drop_last()) + groups.last().1
    }
}

pub open spec fn hosts_of(rs: Seq<ResultView>) -> Seq<Seq<char>> {
    rs.map_values(|r: ResultView| r.host)
}

/// The view of executable groups.
pub open spec fn groups_view(gs: Seq<(MinionResult, Vec<String>)>) -> GroupsView {
    gs.map_values(|g: (MinionResult, Vec<String>)| (g.0@, g.1@.map_values(|h: String| h@)))
}

proof fn lemma_group_index(groups: GroupsView, key: ResultView)
    ensures
        match group_index(groups, key) {
            Some(g) => 0 <= g < groups.len() && groups[g].0 == key,
            None => forall|j: int| 0 <= j < groups.len() ==> groups[j].0 != key,
        },
    decreases groups.len(),
{
    if groups.len() > 0 && groups.last().0 != key {
        lemma_group_index(groups.drop_last(), key);
        assert(forall|j: int| 0 <= j < groups.len() - 1 ==> groups.drop_last()[j] == groups[j]);
    }
}

/// Adding hosts to groups, or opening new groups at the end, moves no key.
proof fn lemma_group_index_stable(groups: GroupsView, r: ResultView, key: ResultView)
    requires
        group_index(groups, key) is Some,
    ensures
        group_index(add_record(groups, r), key) == group_index(groups, key),
    decreases groups.len(),
{
    lemma_group_index(groups, key);
    lemma_group_index(groups, key_of(r));
    let next = add_record(groups, r);
    match group_index(groups, key_of(r)) {
        Some(g) => {
            lemma_same_keys_same_index(groups, next, key);
        },
        None => {
            assert(next.drop_last() =~= groups);
            assert(next.last().0 != key);
        },
    }
}

/// Two group sequences with the same keys give the same index.
proof fn lemma_same_keys_same_index(a: GroupsView, b: GroupsView, key: ResultView)
    requires
        a.len() == b.len(),
        forall|j: int| 0 <= j < a.len() ==> a[j].0 == b[j].0,
    ensures
        group_index(a, key) == group_index(b, key),
    decreases a.len(),
{
    if a.len() > 0 {
        lemma_same_keys_same_index(a.drop_last(), b.drop_last(), key);
    }
}

/// The host of every record stands in the group of its key.
proof fn lemma_host_in_group(rs: Seq<ResultView>, i: int)
    requires
        0 <= i < rs.len(),
    ensures
        group_index(grouped(rs), key_of(rs[i])) matches Some(g)
            && grouped(rs)[g].1.contains(rs[i].host),
    decreases rs.len(),
{
    let prev = grouped(rs.drop_last());
    let r = rs.last();
    lemma_group_index(prev, key_of(r));
    if i == rs.len() - 1 {
        lemma_group_index(grouped(rs), key_of(r));
        match group_index(prev, key_of(r)) {
            Some(g) => {
                lemma_same_keys_same_index(prev, grouped(rs), key_of(r));
                assert(grouped(rs)[g].1.last() == r.host);
            },
            None => {
                assert(grouped(rs).last().0 == key_of(r));
                assert(grouped(rs).last().1[0] == r.host);
            },
        }
    } else {
        lemma_host_in_group(rs.drop_last(), i);
        assert(rs.drop_last()[i] == rs[i]);
        let g = group_index(prev, key_of(rs[i]))->Some_0;
        lemma_group_index_stable(prev, r, key_of(rs[i]));
        lemma_group_index(prev, key_of(rs[i]));
        let h = rs[i].host;
        let k = choose|k: int| 0 <= k < prev[g].1.len() && prev[g].1[k] == h;
        match group_index(prev, key_of(r)) {
            Some(g2) => {
                if g2 == g {
                    assert(grouped(rs)[g].1[k] == h);
                } else {
                    assert(grouped(rs)[g] == prev[g]);
                }
            },
            None => {
                assert(grouped(rs)[g] == prev[g]);
            },
        }
    }
}

/// Grouping ignores the host: two records that are the same result, hosts
/// aside, land in one group, which holds both hosts.
pub proof fn lemma_same_result_same_group(rs: Seq<ResultView>, i: int, j: int)
    requires
        0 <= i < rs.len(),
        0 <= j < rs.len(),
        same_result(rs[i], rs[j]),
    ensures
        exists|g: int|
            0 <= g < grouped(rs).len() && grouped(rs)[g].0 == key_of(rs[i])
                && #[trigger] grouped(rs)[g].1.contains(rs[i].host) && grouped(rs)[g].1.contains(rs[j].host),
{
    lemma_host_in_group(rs, i);
    lemma_host_in_group(rs, j);
    lemma_group_index(grouped(rs), key_of(rs[i]));
}

/// Adding a host to group `g` adds it to the hosts of all groups.
proof fn lemma_all_hosts_update(groups: GroupsView, g: int, h: Seq<char>)
    requires
        0 <= g < groups.len(),
    ensures
        all_hosts(groups.update(g, (groups[g].0, groups[g].1.push(h)))).to_multiset()
            =~= all_hosts(groups).to_multiset().insert(h),
    decreases groups.len(),
{
    broadcast use vstd::seq_lib::group_to_multiset_ensures, vstd::seq_lib::lemma_multiset_commutative;

    let next = groups.update(g, (groups[g].0, groups[g].1.push(h)));
    if g == groups.len() - 1 {
        assert(next.drop_last() =~= groups.drop_last());
        assert(all_hosts(next) =~= (all_hosts(groups.drop_last()) + groups.last().1).push(h));
    } else {
        lemma_all_hosts_update(groups.drop_last(), g, h);
        assert(next.drop_last() =~= groups.drop_last().update(g, (groups[g].0, groups[g].1.push(h))));
    }
}

/// Grouping is a partition: the hosts of all groups, taken together, are
/// exactly the hosts of the records, none lost and none added.
pub proof fn lemma_grouping_partition(rs: Seq<ResultView>)
    ensures
        all_hosts(grouped(rs)).to_multiset() =~= hosts_of(rs).to_multiset(),
    decreases rs.len(),
{
    broadcast use vstd::seq_lib::group_to_multiset_ensures, vstd::seq_lib::lemma_multiset_commutative;

    if rs.len() > 0 {
        lemma_grouping_partition(rs.drop_last());
        let prev = grouped(rs.drop_last());
        let r = rs.last();
        assert(hosts_of(rs) =~= hosts_of(rs.drop_last()).push(r.host));
        match group_index(prev, key_of(r)) {
            Some(g) => {
                lemma_group_index(prev, key_of(r));
                lemma_all_hosts_update(prev, g, r.host);
            },
            None => {
                let next = prev.push((key_of(r), seq![r.host]));
                assert(next.drop_last() =~= prev);
                assert(all_hosts(next) =~= all_hosts(prev).push(r.host));
            },
        }
    }
}

/// The index of the group of `result`'s key, searched from the last group.
fn find_group(groups: &Vec<(MinionResult, Vec<String>)>, result: &MinionResult) -> (r: Option<usize>)
    requires
        forall|j: int| 0 <= j < groups@.len() ==> (#[trigger] groups@[j]).0@.host == Seq::<char>::empty(),
    ensures
        match r {
            Some(g) => group_index(groups_view(groups@), key_of(result@)) == Some(g as int),
            None => group_index(groups_view(groups@), key_of(result@)) is None,
        },
{
    let mut g: usize = groups.len();
    assert(groups_view(groups@).take(g as int) =~= groups_view(groups@));
    while g > 0
        invariant
            g <= groups@.len(),
            forall|j: int| 0 <= j < groups@.len() ==> (#[trigger] groups@[j]).0@.host == Seq::<char>::empty(),
            group_index(groups_view(groups@), key_of(result@))
                == group_index(groups_view(groups@).take(g as int), key_of(result@)),
        decreases g,
    {
        proof {
            assert(groups_view(groups@).take(g as int).drop_last() =~= groups_view(groups@).take(g - 1));
        }
        if groups[g - 1].0.same_result_as(result) {
            proof {
                assert(groups@[g - 1].0@.host == Seq::<char>::empty());
                assert(groups_view(groups@).take(g as int).last().0 == key_of(result@));
            }
            return Some(g - 1);
        }
        g = g - 1;
    }
    assert(groups_view(groups@).take(0) =~= Seq::<(ResultView, Seq<Seq<char>>)>::empty());
    None
}

/// Groups records that are the same result, hosts aside: one group per key,
/// in the order in which keys first occur, each with its hosts in the order
/// of their records.
pub fn get_compressed(results: Vec<MinionResult>) -> (r: Vec<(MinionResult, Vec<String>)>)
    ensures
        groups_view(r@) == grouped(views(results@)),
        all_hosts(groups_view(r@)).to_multiset() == hosts_of(views(results@)).to_multiset(),
{
    let mut groups: Vec<(MinionResult, Vec<String>)> = Vec::new();
    let mut i: usize = 0;
    assert(views(results@).take(0) =~= Seq::<ResultView>::empty());
    while i < results.len()
        invariant
            0 <= i <= results@.len(),
            groups_view(groups@) == grouped(views(results@).take(i as int)),
            forall|j: int| 0 <= j < groups@.len() ==> (#[trigger] groups@[j]).0@.host == Seq::<char>::empty(),
        decreases results@.len() - i,
    {
        let result = &results[i];
        let ghost rs = views(results@).take(i + 1);
        proof {
            assert(rs.drop_last() =~= views(results@).take(i as int));
            assert(rs.last() == result@);
            lemma_group_index(groups_view(groups@), key_of(result@));
        }
        let found = find_group(&groups, result);
        let ghost before = groups_view(groups@);
        if found.is_none() {
            let key = result.grouping_key();
            let mut hosts: Vec<String> = Vec::new();
            hosts.push(result.host.clone());
            groups.push((key, hosts));
            proof {
                assert(hosts@.map_values(|h: String| h@) =~= seq![result@.host]);
                assert(groups_view(groups@) =~= before.push((key_of(result@), seq![result@.host])));
            }
        } else {
            let gi = found.unwrap();
            let ghost old_groups = groups@;
            let mut entry = groups.remove(gi);
            assert(entry == old_groups[gi as int]);
            entry.1.push(result.host.clone());
            let ghost new_entry = entry;
            groups.insert(gi, entry);
            proof {
                assert(groups@ =~= old_groups.update(gi as int, new_entry));
                assert(new_entry.1@.map_values(|h: String| h@) =~= old_groups[gi as int].1@.map_values(|h: String| h@).push(result@.host));
                assert(groups_view(groups@) =~= before.update(
                    gi as int,
                    (before[gi as int].0, before[gi as int].1.push(result@.host)),
                ));
            }
        }
        assert(groups_view(groups@) == add_record(before, result@));
        i = i + 1;
    }
    assert(views(results@).take(results@.len() as int) =~= views(results@));
    proof {
        lemma_grouping_partition(views(results@));
    }
    groups
}

} // verus!
