use vstd::prelude::*;
use crate::measurement::{record_in_range, coord_in_range, LocatorError, SmartphoneData, SCALE};
use crate::distance::{distance_spec, rssi_to_distance};
use crate::noise::{add_rssi_noise_with, admissible_offset, draw_noise_offset, noise_bound_in_range};
use crate::grouping::{group_and_filter, lemma_members_from_input, group_sizes, groups_of, members_of, unassigned_of, CellGroup};
use crate::multilateration::{estimate_of, member_in_range, multilaterate};

verus! {

/// Some record carries a reference ceiling of one unit.
pub open spec fn has_degenerate_ceiling(s: Seq<SmartphoneData>) -> bool {
    exists|i: int| 0 <= i < s.len() && (#[trigger] s[i]).max_rssi == SCALE
}

/// All records lie within the supported ranges.
pub open spec fn all_in_range(s: Seq<SmartphoneData>) -> bool {
    forall|i: int| 0 <= i < s.len() ==> record_in_range(#[trigger] s[i])
}

/// The record after the clean pass.
pub open spec fn with_distance(d: SmartphoneData) -> SmartphoneData {
    SmartphoneData { distance: distance_spec(d.rssi, d.max_rssi) as u64, ..d }
}

/// The record after the noisy pass with the given offset: the noisy reading,
/// its distance, and that distance as the distance of the pass.
pub open spec fn with_noise(d: SmartphoneData, offset: i64) -> SmartphoneData {
    let noisy = (d.rssi + offset) as i64;
    let dist = distance_spec(noisy, d.max_rssi) as u64;
    SmartphoneData { noisy_rssi: noisy, noisy_distance: dist, distance: dist, ..d }
}

/// `after` is `before` after a noisy pass with some offset that noise of the
/// given bound can produce.
pub open spec fn is_noisy_version(before: SmartphoneData, after: SmartphoneData, noise_bound: i64) -> bool {
    exists|offset: i64| admissible_offset(noise_bound, offset) && after == #[trigger] with_noise(before, offset)
}

fn find_degenerate_ceiling(data: &Vec<SmartphoneData>) -> (r: bool)
    ensures
        r == has_degenerate_ceiling(data@),
{
    let mut i: usize = 0;
    while i < data.len()
        invariant
            i <= data.len(),
            forall|k: int| 0 <= k < i ==> (#[trigger] data@[k]).max_rssi != SCALE,
        decreases data.len() - i,
    {
        if data[i].max_rssi == SCALE {
            return true;
        }
        i = i + 1;
    }
    false
}

/// The clean pass: sets each record's distance from its signal strength.
/// Fails, leaving the records untouched, when some reference ceiling is one
/// unit.
pub fn compute_distances(data: &mut Vec<SmartphoneData>) -> (r: Result<(), LocatorError>)
    requires
        all_in_range(old(data)@),
    ensures
        r is Err <==> has_degenerate_ceiling(old(data)@),
        r is Err ==> final(data)@ == old(data)@,
        r is Ok ==> final(data)@.len() == old(data)@.len() && forall|i: int|
            0 <= i < old(data)@.len() ==> #[trigger] final(data)@[i] == with_distance(old(data)@[i]),
{
    if find_degenerate_ceiling(data) {
        return Err(LocatorError::InvalidInput);
    }
    let ghost orig = data@;
    let mut i: usize = 0;
    while i < data.len()
        invariant
            i <= data.len(),
            data@.len() == orig.len(),
            all_in_range(orig),
            !has_degenerate_ceiling(orig),
            forall|k: int| 0 <= k < i ==> #[trigger] data@[k] == with_distance(orig[k]),
            forall|k: int| i <= k < data@.len() ==> #[trigger] data@[k] == orig[k],
        decreases data.len() - i,
    {
        let mut rec = data[i];
        assert(record_in_range(orig[i as int]));
        assert(rec.max_rssi != SCALE);
        match rssi_to_distance(rec.rssi, rec.max_rssi) {
            Some(d) => {
                rec.distance = d;
            },
            None => {},
        }
        data.set(i, rec);
        i = i + 1;
    }
    Ok(())
}

/// The noisy pass with offsets from the caller: record `i` gets signal
/// strength `rssi + offsets[i]`, and the distance of that reading becomes
/// both its noisy distance and its distance. Fails, leaving the records
/// untouched, when some reference ceiling is one unit.
pub fn apply_noise_with(data: &mut Vec<SmartphoneData>, noise_bound: i64, offsets: &Vec<i64>) -> (r: Result<(), LocatorError>)
    requires
        all_in_range(old(data)@),
        noise_bound_in_range(noise_bound),
        offsets.len() == old(data)@.len(),
        forall|i: int| 0 <= i < offsets.len() ==> admissible_offset(noise_bound, #[trigger] offsets@[i]),
    ensures
        r is Err <==> has_degenerate_ceiling(old(data)@),
        r is Err ==> final(data)@ == old(data)@,
        r is Ok ==> final(data)@.len() == old(data)@.len() && forall|i: int|
            0 <= i < old(data)@.len() ==> #[trigger] final(data)@[i] == with_noise(old(data)@[i], offsets@[i]),
{
    if find_degenerate_ceiling(data) {
        return Err(LocatorError::InvalidInput);
    }
    let ghost orig = data@;
    let mut i: usize = 0;
    while i < data.len()
        invariant
            i <= data.len(),
            data@.len() == orig.len(),
            offsets.len() == orig.len(),
            all_in_range(orig),
            !has_degenerate_ceiling(orig),
            noise_bound_in_range(noise_bound),
            forall|k: int| 0 <= k < offsets.len() ==> admissible_offset(noise_bound, #[trigger] offsets@[k]),
            forall|k: int| 0 <= k < i ==> #[trigger] data@[k] == with_noise(orig[k], offsets@[k]),
            forall|k: int| i <= k < data@.len() ==> #[trigger] data@[k] == orig[k],
        decreases data.len() - i,
    {
        let mut rec = data[i];
        assert(record_in_range(orig[i as int]));
        assert(rec.max_rssi != SCALE);
        assert(admissible_offset(noise_bound, offsets@[i as int]));
        let noisy = add_rssi_noise_with(rec.rssi, noise_bound, offsets[i]);
        rec.noisy_rssi = noisy;
        match rssi_to_distance(noisy, rec.max_rssi) {
            Some(d) => {
                rec.noisy_distance = d;
                rec.distance = d;
            },
            None => {},
        }
        data.set(i, rec);
        i = i + 1;
    }
    Ok(())
}

/// The noisy pass with offsets drawn at random from `(-noise_bound, noise_bound)`.
pub fn apply_noise(data: &mut Vec<SmartphoneData>, noise_bound: i64) -> (r: Result<(), LocatorError>)
    requires
        all_in_range(old(data)@),
        noise_bound_in_range(noise_bound),
    ensures
        r is Err <==> has_degenerate_ceiling(old(data)@),
        r is Err ==> final(data)@ == old(data)@,
        r is Ok ==> final(data)@.len() == old(data)@.len() && forall|i: int|
            0 <= i < old(data)@.len() ==> is_noisy_version(old(data)@[i], #[trigger] final(data)@[i], noise_bound),
{
    let mut offsets: Vec<i64> = Vec::new();
    let mut i: usize = 0;
    while i < data.len()
        invariant
            i <= data.len(),
            offsets.len() == i,
            noise_bound_in_range(noise_bound),
            forall|k: int| 0 <= k < offsets.len() ==> admissible_offset(noise_bound, #[trigger] offsets@[k]),
        decreases data.len() - i,
    {
        let offset = draw_noise_offset(noise_bound);
        offsets.push(offset);
        i = i + 1;
    }
    let r = apply_noise_with(data, noise_bound, &offsets);
    proof {
        if r is Ok {
            assert forall|i: int| 0 <= i < old(data)@.len() implies is_noisy_version(
                old(data)@[i], #[trigger] final(data)@[i], noise_bound) by {
                assert(admissible_offset(noise_bound, offsets@[i]));
                assert(final(data)@[i] == with_noise(old(data)@[i], offsets@[i]));
            }
        }
    }
    r
}

/// All device positions lie within the supported range.
pub open spec fn positions_in_range(s: Seq<SmartphoneData>) -> bool {
    forall|i: int| 0 <= i < s.len() ==> coord_in_range((#[trigger] s[i]).x) && coord_in_range(s[i].y)
}

/// Groups the records by cell and estimates each cell's transmitter from its
/// group. Returns the groups, the records beyond the plausibility radius, and
/// one estimate per group, in the order of the groups.
pub fn estimate_all(data: &Vec<SmartphoneData>) -> (r: (
    Vec<CellGroup>,
    Vec<SmartphoneData>,
    Vec<(i32, Option<(i64, i64)>)>,
))
    requires
        positions_in_range(data@),
    ensures
        groups_of(data@, r.0@),
        r.1@ == unassigned_of(data@),
        group_sizes(r.0@) + r.1@.len() == data@.len(),
        r.2@.len() == r.0@.len(),
        forall|i: int| 0 <= i < r.2@.len() ==> (#[trigger] r.2@[i]).0 == r.0@[i].ci
            && r.2@[i].1 == estimate_of(r.0@[i].members@),
{
    let (groups, unassigned) = group_and_filter(data);
    let mut estimates: Vec<(i32, Option<(i64, i64)>)> = Vec::new();
    let mut i: usize = 0;
    while i < groups.len()
        invariant
            i <= groups.len(),
            estimates@.len() == i,
            groups_of(data@, groups@),
            positions_in_range(data@),
            forall|k: int| 0 <= k < i ==> (#[trigger] estimates@[k]).0 == groups@[k].ci
                && estimates@[k].1 == estimate_of(groups@[k].members@),
        decreases groups.len() - i,
    {
        let g = &groups[i];
        proof {
            assert(g.members@ == members_of(data@, g.ci));
            if g.members@.len() >= 2 {
                lemma_members_from_input(data@, g.ci, 0);
                lemma_members_from_input(data@, g.ci, 1);
                assert(member_in_range(g.members@[0]));
                assert(member_in_range(g.members@[1]));
            }
        }
        let estimate = multilaterate(&g.members);
        estimates.push((g.ci, estimate));
        i = i + 1;
    }
    (groups, unassigned, estimates)
}

} // verus!
