use vstd::prelude::*;
use crate::measurement::{coord_in_range, SmartphoneData, RADIUS_LIMIT};
use crate::geometry::{circles_meet, find_circle_intersection, intersection_x, intersection_y, Circle, Point};

verus! {

/// The circle that a record draws: centered on the device, with the record's
/// distance as radius.
pub open spec fn circle_of(d: SmartphoneData) -> Circle {
    Circle { center: Point { x: d.x, y: d.y }, radius: d.distance }
}

/// A record whose circle the intersection arithmetic accepts.
pub open spec fn member_in_range(d: SmartphoneData) -> bool {
    coord_in_range(d.x) && coord_in_range(d.y) && d.distance <= RADIUS_LIMIT
}

/// The estimate for one group: the intersection of the circles of its first
/// two records, when there are two and they meet.
pub open spec fn estimate_of(s: Seq<SmartphoneData>) -> Option<(i64, i64)> {
    if s.len() >= 2 && circles_meet(circle_of(s[0]), circle_of(s[1])) {
        Some(
            (
                intersection_x(circle_of(s[0]), circle_of(s[1])) as i64,
                intersection_y(circle_of(s[0]), circle_of(s[1])) as i64,
            ),
        )
    } else {
        None
    }
}

fn circle_from(d: &SmartphoneData) -> (c: Circle)
    ensures
        c == circle_of(*d),
{
    Circle { center: Point { x: d.x, y: d.y }, radius: d.distance }
}

/// Estimates the transmitter of one cell from the circles of its first two
/// records; the other records are not used. `None` when there are fewer than
/// two records, when their positions coincide, or when their circles do not
/// meet.
pub fn multilaterate(ci_data: &Vec<SmartphoneData>) -> (r: Option<(i64, i64)>)
    requires
        ci_data.len() >= 2 ==> member_in_range(ci_data@[0]) && member_in_range(ci_data@[1]),
    ensures
        r == estimate_of(ci_data@),
        ci_data.len() < 2 ==> r is None,
        r is Some <==> ci_data.len() >= 2 && circles_meet(circle_of(ci_data@[0]), circle_of(ci_data@[1])),
        r matches Some(p) ==> p.0 == intersection_x(circle_of(ci_data@[0]), circle_of(ci_data@[1]))
            && p.1 == intersection_y(circle_of(ci_data@[0]), circle_of(ci_data@[1])),
{
    if ci_data.len() < 2 {
        return None;
    }
    let c1 = circle_from(&ci_data[0]);
    let c2 = circle_from(&ci_data[1]);
    match find_circle_intersection(&c1, &c2) {
        Some(point) => Some((point.x, point.y)),
        None => None,
    }
}

} // verus!
