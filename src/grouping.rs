use vstd::prelude::*;
use crate::measurement::{SmartphoneData, RADIUS};

verus! {

/// The plausible records of one cell, in input order.
#[derive(Debug)]
pub struct CellGroup {
    pub ci: i32,
    pub members: Vec<SmartphoneData>,
}

/// A record whose distance lies within the plausibility radius.
pub open spec fn is_plausible(d: SmartphoneData) -> bool {
    d.distance <= RADIUS
}

/// The plausible records of cell `ci`, in order.
pub open spec fn members_of(s: Seq<SmartphoneData>, ci: i32) -> Seq<SmartphoneData>
    decreases s.len(),
{
    if s.len() == 0 {
        Seq::empty()
    } else {
        let rest = members_of(s.drop_last(), ci);
        if s.last().ci == ci && is_plausible(s.last()) {
            rest.push(s.last())
        } else {
            rest
        }
    }
}

/// The records beyond the plausibility radius, in order.
pub open spec fn unassigned_of(s: Seq<SmartphoneData>) -> Seq<SmartphoneData>
    decreases s.len(),
{
    if s.len() == 0 {
        Seq::empty()
    } else {
        let rest = unassigned_of(s.drop_last());
        if is_plausible(s.last()) {
            rest
        } else {
            rest.push(s.last())
        }
    }
}

/// Total number of records held by the groups.
pub open spec fn group_sizes(g: Seq<CellGroup>) -> int
    decreases g.len(),
{
    if g.len() == 0 {
        0
    } else {
        group_sizes(g.drop_last()) + g.last().members@.len()
    }
}

/// The groups partition the plausible records of `s` by cell: one group per
/// cell that has a plausible record, none empty, each holding exactly that
/// cell's plausible records in input order.
pub open spec fn groups_of(s: Seq<SmartphoneData>, g: Seq<CellGroup>) -> bool {
    &&& forall|i: int, j: int| 0 <= i < j < g.len() ==> g[i].ci != g[j].ci
    &&& forall|i: int| 0 <= i < g.len() ==> #[trigger] g[i].members@ == members_of(s, g[i].ci)
    &&& forall|i: int| 0 <= i < g.len() ==> g[i].members@.len() > 0
    &&& forall|k: int|
        0 <= k < s.len() && is_plausible(s[k]) ==> exists|i: int|
            0 <= i < g.len() && #[trigger] g[i].ci == s[k].ci
}

/// Every member of a cell's group is a plausible record of the input with
/// that cell's identifier.
pub proof fn lemma_members_from_input(s: Seq<SmartphoneData>, ci: i32, k: int)
    requires
        0 <= k < members_of(s, ci).len(),
    ensures
        members_of(s, ci)[k].ci == ci,
        is_plausible(members_of(s, ci)[k]),
        s.contains(members_of(s, ci)[k]),
    decreases s.len(),
{
    let rest = members_of(s.drop_last(), ci);
    if k < rest.len() {
        lemma_members_from_input(s.drop_last(), ci, k);
        let j = choose|j: int| 0 <= j < s.drop_last().len() && s.drop_last()[j] == rest[k];
        assert(s[j] == rest[k]);
    } else {
        assert(s[s.len() - 1] == s.last());
    }
}

proof fn lemma_unassigned_from_input(s: Seq<SmartphoneData>, k: int)
    requires
        0 <= k < unassigned_of(s).len(),
    ensures
        !is_plausible(unassigned_of(s)[k]),
    decreases s.len(),
{
    if k < unassigned_of(s.drop_last()).len() {
        lemma_unassigned_from_input(s.drop_last(), k);
    }
}

proof fn lemma_member_kept(s: Seq<SmartphoneData>, k: int)
    requires
        0 <= k < s.len(),
        is_plausible(s[k]),
    ensures
        members_of(s, s[k].ci).contains(s[k]),
    decreases s.len(),
{
    let c = s[k].ci;
    if k < s.len() - 1 {
        assert(s.drop_last()[k] == s[k]);
        lemma_member_kept(s.drop_last(), k);
        let j = choose|j: int| 0 <= j < members_of(s.drop_last(), c).len()
            && members_of(s.drop_last(), c)[j] == s[k];
        if s.last().ci == c && is_plausible(s.last()) {
            assert(members_of(s, c)[j] == s[k]);
        }
    } else {
        assert(s.last() == s[k]);
        assert(members_of(s, c).last() == s[k]);
    }
}

proof fn lemma_unassigned_kept(s: Seq<SmartphoneData>, k: int)
    requires
        0 <= k < s.len(),
        !is_plausible(s[k]),
    ensures
        unassigned_of(s).contains(s[k]),
    decreases s.len(),
{
    if k < s.len() - 1 {
        assert(s.drop_last()[k] == s[k]);
        lemma_unassigned_kept(s.drop_last(), k);
        let j = choose|j: int| 0 <= j < unassigned_of(s.drop_last()).len()
            && unassigned_of(s.drop_last())[j] == s[k];
        if !is_plausible(s.last()) {
            assert(unassigned_of(s)[j] == s[k]);
        }
    } else {
        assert(s.last() == s[k]);
        assert(unassigned_of(s).last() == s[k]);
    }
}

/// Grouping places every record in exactly one place: a record within the
/// plausibility radius in the group of its own cell and in no other group
/// nor among the unassigned records; any other record among the unassigned
/// records and in no group.
pub proof fn lemma_record_placed_once(s: Seq<SmartphoneData>, g: Seq<CellGroup>, k: int)
    requires
        groups_of(s, g),
        0 <= k < s.len(),
    ensures
        is_plausible(s[k]) ==> {
            &&& !unassigned_of(s).contains(s[k])
            &&& exists|i: int| 0 <= i < g.len() && #[trigger] g[i].ci == s[k].ci
                && g[i].members@.contains(s[k])
            &&& forall|i: int| 0 <= i < g.len() && #[trigger] g[i].members@.contains(s[k]) ==> g[i].ci == s[k].ci
        },
        !is_plausible(s[k]) ==> {
            &&& unassigned_of(s).contains(s[k])
            &&& forall|i: int| 0 <= i < g.len() ==> !(#[trigger] g[i].members@.contains(s[k]))
        },
{
    assert forall|i: int| 0 <= i < g.len() && #[trigger] g[i].members@.contains(s[k]) implies g[i].ci
        == s[k].ci && is_plausible(s[k]) by {
        assert(g[i].members@ == members_of(s, g[i].ci));
        let j = choose|j: int| 0 <= j < g[i].members@.len() && g[i].members@[j] == s[k];
        lemma_members_from_input(s, g[i].ci, j);
    }
    if is_plausible(s[k]) {
        if unassigned_of(s).contains(s[k]) {
            let j = choose|j: int| 0 <= j < unassigned_of(s).len() && unassigned_of(s)[j] == s[k];
            lemma_unassigned_from_input(s, j);
        }
        let i = choose|i: int| 0 <= i < g.len() && #[trigger] g[i].ci == s[k].ci;
        assert(g[i].members@ == members_of(s, g[i].ci));
        lemma_member_kept(s, k);
    } else {
        lemma_unassigned_kept(s, k);
    }
}

proof fn lemma_members_absent(s: Seq<SmartphoneData>, ci: i32)
    requires
        forall|k: int| 0 <= k < s.len() ==> !(#[trigger] s[k].ci == ci && is_plausible(s[k])),
    ensures
        members_of(s, ci) == Seq::<SmartphoneData>::empty(),
    decreases s.len(),
{
    if s.len() > 0 {
        assert forall|k: int| 0 <= k < s.drop_last().len() implies !(#[trigger] s.drop_last()[k].ci
            == ci && is_plausible(s.drop_last()[k])) by {
            assert(s.drop_last()[k] == s[k]);
        }
        lemma_members_absent(s.drop_last(), ci);
        assert(s.last() == s[s.len() - 1]);
    }
}

proof fn lemma_group_sizes_update(g: Seq<CellGroup>, j: int, x: CellGroup)
    requires
        0 <= j < g.len(),
    ensures
        group_sizes(g.update(j, x)) == group_sizes(g) - g[j].members@.len() + x.members@.len(),
    decreases g.len(),
{
    let u = g.update(j, x);
    if j == g.len() - 1 {
        assert(u.drop_last() =~= g.drop_last());
    } else {
        assert(u.drop_last() =~= g.drop_last().update(j, x));
        lemma_group_sizes_update(g.drop_last(), j, x);
    }
}

proof fn lemma_group_sizes_push(g: Seq<CellGroup>, x: CellGroup)
    ensures
        group_sizes(g.push(x)) == group_sizes(g) + x.members@.len(),
{
    assert(g.push(x).drop_last() =~= g);
}

/// Position of the group of cell `ci`, if there is one.
fn find_group(groups: &Vec<CellGroup>, ci: i32) -> (r: Option<usize>)
    ensures
        r matches Some(j) ==> j < groups.len() && groups@[j as int].ci == ci,
        r is None ==> forall|i: int| 0 <= i < groups.len() ==> groups@[i].ci != ci,
{
    let mut j: usize = 0;
    while j < groups.len()
        invariant
            j <= groups.len(),
            forall|i: int| 0 <= i < j ==> groups@[i].ci != ci,
        decreases groups.len() - j,
    {
        if groups[j].ci == ci {
            return Some(j);
        }
        j = j + 1;
    }
    None
}

/// Splits the records into one group per cell, holding the records within
/// the plausibility radius in input order, and the list of the others.
/// Every record lands in exactly one place.
pub fn group_and_filter(data: &Vec<SmartphoneData>) -> (r: (Vec<CellGroup>, Vec<SmartphoneData>))
    ensures
        groups_of(data@, r.0@),
        r.1@ == unassigned_of(data@),
        group_sizes(r.0@) + r.1@.len() == data@.len(),
{
    let mut groups: Vec<CellGroup> = Vec::new();
    let mut unassigned: Vec<SmartphoneData> = Vec::new();
    let mut idx: usize = 0;
    assert(data@.subrange(0, 0) =~= Seq::<SmartphoneData>::empty());
    while idx < data.len()
        invariant
            idx <= data.len(),
            groups_of(data@.subrange(0, idx as int), groups@),
            unassigned@ == unassigned_of(data@.subrange(0, idx as int)),
            group_sizes(groups@) + unassigned@.len() == idx,
        decreases data.len() - idx,
    {
        let d = data[idx];
        let ghost prev = data@.subrange(0, idx as int);
        let ghost next = data@.subrange(0, idx + 1);
        assert(next.drop_last() =~= prev);
        assert(next.last() == d);
        if d.distance <= RADIUS {
            match find_group(&groups, d.ci) {
                Some(j) => {
                    let ghost old_groups = groups@;
                    let mut g = groups.remove(j);
                    g.members.push(d);
                    groups.insert(j, g);
                    proof {
                        assert(groups@ =~= old_groups.update(j as int, g));
                        lemma_group_sizes_update(old_groups, j as int, g);
                        assert forall|i: int| 0 <= i < groups@.len() implies #[trigger] groups@[
                            i].members@ == members_of(next, groups@[i].ci) by {
                            assert(old_groups[i].members@ == members_of(prev, old_groups[i].ci));
                        }
                        assert forall|k: int| 0 <= k < next.len() && is_plausible(next[k]) implies exists|
                            i: int,
                        | 0 <= i < groups@.len() && #[trigger] groups@[i].ci == next[k].ci by {
                            if k < prev.len() {
                                assert(next[k] == prev[k]);
                                let i = choose|i: int|
                                    0 <= i < old_groups.len() && #[trigger] old_groups[i].ci
                                        == prev[k].ci;
                                assert(groups@[i].ci == next[k].ci);
                            } else {
                                assert(groups@[j as int].ci == next[k].ci);
                            }
                        }
                        assert(unassigned_of(next) == unassigned_of(prev));
                    }
                },
                None => {
                    let ghost old_groups = groups@;
                    proof {
                        assert forall|k: int| 0 <= k < prev.len() implies !(#[trigger] prev[k].ci
                            == d.ci && is_plausible(prev[k])) by {
                            if prev[k].ci == d.ci && is_plausible(prev[k]) {
                                let i = choose|i: int|
                                    0 <= i < old_groups.len() && #[trigger] old_groups[i].ci
                                        == prev[k].ci;
                            }
                        }
                        lemma_members_absent(prev, d.ci);
                    }
                    let mut members: Vec<SmartphoneData> = Vec::new();
                    members.push(d);
                    let g = CellGroup { ci: d.ci, members };
                    groups.push(g);
                    proof {
                        assert(members_of(next, d.ci) =~= members@);
                        lemma_group_sizes_push(old_groups, g);
                        assert forall|i: int| 0 <= i < groups@.len() implies #[trigger] groups@[
                            i].members@ == members_of(next, groups@[i].ci) by {
                            if i < old_groups.len() {
                                assert(groups@[i] == old_groups[i]);
                                assert(old_groups[i].members@ == members_of(prev, old_groups[i].ci));
                            }
                        }
                        assert forall|k: int| 0 <= k < next.len() && is_plausible(next[k]) implies exists|
                            i: int,
                        | 0 <= i < groups@.len() && #[trigger] groups@[i].ci == next[k].ci by {
                            if k < prev.len() {
                                assert(next[k] == prev[k]);
                                let i = choose|i: int|
                                    0 <= i < old_groups.len() && #[trigger] old_groups[i].ci
                                        == prev[k].ci;
                                assert(groups@[i] == old_groups[i]);
                            } else {
                                assert(groups@[old_groups.len() as int].ci == next[k].ci);
                            }
                        }
                        assert(unassigned_of(next) == unassigned_of(prev));
                    }
                },
            }
        } else {
            unassigned.push(d);
            proof {
                assert forall|i: int| 0 <= i < groups@.len() implies #[trigger] groups@[
                    i].members@ == members_of(next, groups@[i].ci) by {
                    assert(groups@[i].members@ == members_of(prev, groups@[i].ci));
                }
                assert forall|k: int| 0 <= k < next.len() && is_plausible(next[k]) implies exists|
                    i: int,
                | 0 <= i < groups@.len() && #[trigger] groups@[i].ci == next[k].ci by {
                    assert(next[k] == prev[k]);
                }
            }
        }
        idx = idx + 1;
    }
    assert(data@.subrange(0, data.len() as int) =~= data@);
    (groups, unassigned)
}

} // verus!
