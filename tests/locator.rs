use cell_locator::distance::rssi_to_distance;
use cell_locator::geometry::{find_circle_intersection, int_sqrt, Circle, Point};
use cell_locator::grouping::group_and_filter;
use cell_locator::measurement::{LocatorError, SmartphoneData, RADIUS};
use cell_locator::multilateration::multilaterate;
use cell_locator::noise::{add_rssi_noise, add_rssi_noise_with, draw_noise_offset};
use cell_locator::pipeline::{apply_noise, apply_noise_with, compute_distances, estimate_all};

fn circle(x: i64, y: i64, radius: u64) -> Circle {
    Circle { center: Point { x, y }, radius }
}

fn at(x: i64, y: i64, distance: u64) -> SmartphoneData {
    let mut d = SmartphoneData::new(7, 0, x, y, 0, 0);
    d.distance = distance;
    d
}

fn sample() -> Vec<SmartphoneData> {
    vec![
        SmartphoneData::new(12801, 10000, 1450000, 1040000, 61000, 100045),
        SmartphoneData::new(12801, 53000, 936000, 752000, 61000, 100230),
        SmartphoneData::new(12801, 36000, 850000, 600000, 61000, 110002),
        SmartphoneData::new(12801, 176000, 827200, 850400, 251000, 129885),
        SmartphoneData::new(12801, 201000, 904000, 728000, 251000, 134546),
        SmartphoneData::new(12802, 108000, 1468000, 2716800, 251000, 156778),
        SmartphoneData::new(12804, 9000, 219200, 2000000, 251000, 164747),
        SmartphoneData::new(0, 0, 339200, 2614400, 251000, 169567),
        SmartphoneData::new(12801, 10000, 784000, 1262000, 61000, 4725),
        SmartphoneData::new(12802, 24000, 1720000, 2050800, 61000, 7321),
        SmartphoneData::new(12803, 8000, 1720000, 2050800, 61000, 7321),
        SmartphoneData::new(12802, 87000, 1984000, 2313600, 251000, 94521),
        SmartphoneData::new(12803, 17000, 2216000, 2118400, 251000, 136744),
        SmartphoneData::new(12804, 70000, 800000, 2434400, 251000, 156554),
        SmartphoneData::new(0, 0, 161600, 2748800, 251000, 174677),
    ]
}

#[test]
fn distance_follows_the_model() {
    assert_eq!(rssi_to_distance(10000, 61000), Some(510000));
    assert_eq!(rssi_to_distance(176000, 251000), Some(180000));
    assert_eq!(rssi_to_distance(0, 251000), Some(602400));
    // a reading above the ceiling gives the same distance as one below it
    assert_eq!(rssi_to_distance(71000, 61000), Some(100000));
}

#[test]
fn distance_rounds_down() {
    // 1 * 600000 / 7000 = 85.71...
    assert_eq!(rssi_to_distance(8001, 8000), Some(85));
}

#[test]
fn distance_is_never_negative() {
    for (s, m) in [(-5000, 3000), (5000, -3000), (0, 0), (12, 999)] {
        let d = rssi_to_distance(s, m).unwrap();
        assert!(d as i128 >= 0);
    }
}

#[test]
fn distance_at_ceiling_is_zero() {
    assert_eq!(rssi_to_distance(61000, 61000), Some(0));
    assert_eq!(rssi_to_distance(-4000, -4000), Some(0));
}

#[test]
fn distance_rejects_ceiling_of_one_unit() {
    assert_eq!(rssi_to_distance(5000, 1000), None);
}

#[test]
fn integer_square_root() {
    assert_eq!(int_sqrt(0), 0);
    assert_eq!(int_sqrt(15), 3);
    assert_eq!(int_sqrt(16), 4);
    assert_eq!(int_sqrt(1875000000000000), 43301270);
    assert_eq!(int_sqrt(u128::MAX), u64::MAX as u128);
}

#[test]
fn tangent_circles_meet_in_one_point() {
    let p = find_circle_intersection(&circle(0, 0, 5000), &circle(10000, 0, 5000));
    assert_eq!(p, Some(Point { x: 5000, y: 0 }));
}

#[test]
fn disjoint_circles_do_not_meet() {
    assert_eq!(find_circle_intersection(&circle(0, 0, 1000), &circle(10000, 0, 1000)), None);
}

#[test]
fn nested_circles_do_not_meet() {
    assert_eq!(find_circle_intersection(&circle(0, 0, 9000), &circle(1000, 0, 1000)), None);
}

#[test]
fn coincident_centers_give_no_point() {
    assert_eq!(find_circle_intersection(&circle(300, 400, 1000), &circle(300, 400, 1000)), None);
}

#[test]
fn crossing_circles_give_a_point_on_both() {
    let p = find_circle_intersection(&circle(0, 0, 5000), &circle(3000, 4000, 5000)).unwrap();
    assert_eq!(p, Point { x: 4964, y: -599 });
    // within two thousandths of a unit of both circles
    let d1 = ((p.x as f64).powi(2) + (p.y as f64).powi(2)).sqrt();
    let d2 = (((p.x - 3000) as f64).powi(2) + ((p.y - 4000) as f64).powi(2)).sqrt();
    assert!((d1 - 5000.0).abs() <= 2.0);
    assert!((d2 - 5000.0).abs() <= 2.0);
}

#[test]
fn small_groups_yield_no_estimate() {
    assert_eq!(multilaterate(&vec![]), None);
    assert_eq!(multilaterate(&vec![at(0, 0, 5000)]), None);
}

#[test]
fn two_records_give_the_tangent_point() {
    let group = vec![at(0, 0, 5000), at(10000, 0, 5000)];
    assert_eq!(multilaterate(&group), Some((5000, 0)));
}

#[test]
fn only_the_first_two_records_count() {
    let group = vec![at(0, 0, 5000), at(10000, 0, 5000), at(-70000, 90000, 1)];
    assert_eq!(multilaterate(&group), Some((5000, 0)));
}

#[test]
fn zero_noise_keeps_the_reading() {
    assert_eq!(add_rssi_noise(12345, 0), 12345);
    assert_eq!(draw_noise_offset(0), 0);
    assert_eq!(add_rssi_noise_with(12345, 0, 0), 12345);
}

#[test]
fn noise_stays_inside_the_open_interval() {
    for _ in 0..200 {
        let r = add_rssi_noise(10000, 3500);
        assert!(r > 6500 && r < 13500);
        let o = draw_noise_offset(2);
        assert!((-1..=1).contains(&o));
    }
    assert_eq!(draw_noise_offset(1), 0);
}

#[test]
fn noise_varies_between_draws() {
    let first = add_rssi_noise(0, 1000000);
    let varied = (0..50).any(|_| add_rssi_noise(0, 1000000) != first);
    assert!(varied);
}

#[test]
fn injected_offset_is_added() {
    assert_eq!(add_rssi_noise_with(10000, 3500, -3499), 6501);
    assert_eq!(add_rssi_noise_with(10000, 3500, 1200), 11200);
}

#[test]
fn grouping_partitions_the_records() {
    let mut data = sample();
    compute_distances(&mut data).unwrap();
    let (groups, unassigned) = group_and_filter(&data);
    let total: usize = groups.iter().map(|g| g.members.len()).sum();
    assert_eq!(total + unassigned.len(), data.len());
    assert_eq!(unassigned.len(), 2);
    assert!(unassigned.iter().all(|d| d.distance > RADIUS && d.ci == 0));
    let ids: Vec<i32> = groups.iter().map(|g| g.ci).collect();
    assert_eq!(ids, vec![12801, 12802, 12804, 12803]);
    let sizes: Vec<usize> = groups.iter().map(|g| g.members.len()).collect();
    assert_eq!(sizes, vec![6, 3, 2, 2]);
    assert_eq!(groups[0].members[0].time, 100045);
    assert_eq!(groups[0].members[5].time, 4725);
}

#[test]
fn grouping_of_nothing_is_empty() {
    let (groups, unassigned) = group_and_filter(&vec![]);
    assert!(groups.is_empty());
    assert!(unassigned.is_empty());
}

#[test]
fn record_at_the_radius_is_kept() {
    let mut edge = at(0, 0, RADIUS);
    edge.ci = 3;
    let mut beyond = at(0, 0, RADIUS + 1);
    beyond.ci = 3;
    let (groups, unassigned) = group_and_filter(&vec![edge, beyond]);
    assert_eq!(groups.len(), 1);
    assert_eq!(groups[0].members, vec![edge]);
    assert_eq!(unassigned, vec![beyond]);
}

#[test]
fn clean_pass_sets_distances() {
    let mut data = sample();
    assert_eq!(compute_distances(&mut data), Ok(()));
    assert_eq!(data[0].distance, 510000);
    assert_eq!(data[3].distance, 180000);
    assert_eq!(data[7].distance, 602400);
    assert_eq!(data[0].rssi, 10000);
}

#[test]
fn clean_pass_rejects_ceiling_of_one_unit() {
    let mut data = sample();
    data[4].max_rssi = 1000;
    let before = data.clone();
    assert_eq!(compute_distances(&mut data), Err(LocatorError::InvalidInput));
    assert_eq!(data, before);
}

#[test]
fn noisy_pass_with_given_offsets() {
    let mut data = sample();
    compute_distances(&mut data).unwrap();
    let offsets: Vec<i64> = (0..data.len() as i64).map(|i| i * 100 - 700).collect();
    assert_eq!(apply_noise_with(&mut data, 3500, &offsets), Ok(()));
    assert_eq!(data[0].noisy_rssi, 9300);
    assert_eq!(data[0].noisy_distance, 517000);
    assert_eq!(data[0].distance, 517000);
    assert_eq!(data[7].noisy_rssi, 0);
    assert_eq!(data[7].distance, 602400);
}

#[test]
fn noisy_pass_with_zero_bound_matches_clean_pass() {
    let mut clean = sample();
    compute_distances(&mut clean).unwrap();
    let mut noisy = clean.clone();
    assert_eq!(apply_noise(&mut noisy, 0), Ok(()));
    for (c, n) in clean.iter().zip(noisy.iter()) {
        assert_eq!(n.noisy_rssi, c.rssi);
        assert_eq!(n.distance, c.distance);
        assert_eq!(n.noisy_distance, c.distance);
    }
}

#[test]
fn noisy_pass_rejects_ceiling_of_one_unit() {
    let mut data = sample();
    data[0].max_rssi = 1000;
    assert_eq!(apply_noise(&mut data, 3500), Err(LocatorError::InvalidInput));
}

#[test]
fn end_to_end_estimates() {
    let mut data = sample();
    compute_distances(&mut data).unwrap();
    let (groups, unassigned, estimates) = estimate_all(&data);
    assert_eq!(groups.len(), 4);
    assert_eq!(unassigned.len(), 2);
    assert_eq!(
        estimates,
        vec![
            (12801, Some((1000000, 800000))),
            (12802, Some((1570591, 2389292))),
            (12804, Some((800000, 2000000))),
            (12803, Some((1999229, 1600321))),
        ]
    );
}

#[test]
fn end_to_end_tangent_records() {
    let data = vec![at(0, 0, 5000), at(10000, 0, 5000)];
    let (_, unassigned, estimates) = estimate_all(&data);
    assert!(unassigned.is_empty());
    assert_eq!(estimates, vec![(7, Some((5000, 0)))]);
}

#[test]
fn lone_record_gets_no_estimate() {
    let data = vec![at(0, 0, 5000)];
    let (_, _, estimates) = estimate_all(&data);
    assert_eq!(estimates, vec![(7, None)]);
}
