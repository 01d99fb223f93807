use cosmic_world_clock::zones::{CivilDate, LocalDateTime};
use cosmic_world_clock::world_clocks::{
    clock_label, clock_list_refresh, clock_utc_offset, extract_clock_coordinates, offset_or_zero,
    sort_by_offsets, sort_clocks_by_offset, world_clock_labels, ClockCoordinates,
};

const TWO_CLOCKS: &str = "[<(uint32 2, <('Tokyo', 'RJTT', true, [(0.62191898430954862, 2.4408429589140699)], [(0.62282074357417661, 2.4391218722853854)])>)>, <(uint32 2, <('Berlin', 'EDDT', true, [(0.91746141594945008, 0.23241968454167572)], [(0.91658875132345297, 0.23387411976724018)])>)>]\n";

fn coords(city: &str, latitude: &str, longitude: &str) -> ClockCoordinates {
    ClockCoordinates {
        city: city.to_string(),
        latitude: latitude.to_string(),
        longitude: longitude.to_string(),
    }
}

fn pairs(list: &[(&str, &str)]) -> Vec<(String, String)> {
    list.iter().map(|(a, b)| (a.to_string(), b.to_string())).collect()
}

#[test]
fn extracts_cities_and_first_coordinate_pair() {
    let clocks = extract_clock_coordinates(TWO_CLOCKS);
    assert_eq!(
        clocks,
        vec![
            coords("Tokyo", "0.62191898430954862", " 2.4408429589140699"),
            coords("Berlin", "0.91746141594945008", " 0.23241968454167572"),
        ]
    );
}

#[test]
fn empty_setting_has_no_clocks() {
    assert_eq!(extract_clock_coordinates(""), vec![]);
    assert_eq!(extract_clock_coordinates("@a(ua{sv}) []"), vec![]);
}

#[test]
fn entry_without_coordinates_is_skipped() {
    let text = "[('Nowhere', 'XXXX', true), ('Paris', 'LFPB', true, [(0.85, 0.04)], @a(dd) [])]";
    assert_eq!(extract_clock_coordinates(text), vec![coords("Paris", "0.85", " 0.04")]);
}

#[test]
fn entry_without_comma_in_pair_is_skipped() {
    let text = "('Lone', [(0.5)], x) ('Twin', [(1, 2)])";
    assert_eq!(extract_clock_coordinates(text), vec![coords("Twin", "1", " 2")]);
}

#[test]
fn longitude_stops_at_a_second_comma_and_pair_at_parenthesis() {
    let text = "('A', [(1,2,3)]) ('B b', [(4,5)], [(6,7)])";
    assert_eq!(
        extract_clock_coordinates(text),
        vec![coords("A", "1", "2"), coords("B b", "4", "5")]
    );
}

#[test]
fn city_without_closing_quote_takes_the_whole_entry() {
    let text = "('Odd [(1,2)]";
    assert_eq!(extract_clock_coordinates(text), vec![coords("Odd [(1,2)]", "1", "2")]);
}

#[test]
fn coordinates_run_to_the_next_list_when_unclosed() {
    let text = "('C', [(1, 2 [(3, 4)])";
    assert_eq!(extract_clock_coordinates(text), vec![coords("C", "1", " 2 ")]);
}

#[test]
fn non_ascii_city_names_survive() {
    let text = "('São Paulo', 'SBSP', true, [(-0.4104, -0.8123)])";
    assert_eq!(
        extract_clock_coordinates(text),
        vec![coords("São Paulo", "-0.4104", " -0.8123")]
    );
}

#[test]
fn sorts_by_offset_keeping_equal_offsets_in_order() {
    let clocks = pairs(&[("a", "A"), ("b", "B"), ("c", "C"), ("d", "D"), ("e", "E")]);
    let offsets = vec![3600, -7200, 3600, 0, -7200];
    let sorted = sort_by_offsets(&clocks, &offsets);
    assert_eq!(sorted, pairs(&[("b", "B"), ("e", "E"), ("d", "D"), ("a", "A"), ("c", "C")]));
}

#[test]
fn sorting_empty_and_single_lists() {
    assert_eq!(sort_by_offsets(&vec![], &vec![]), Vec::<(String, String)>::new());
    let one = pairs(&[("x", "Y")]);
    assert_eq!(sort_by_offsets(&one, &vec![5]), one);
}

#[test]
fn sorting_agrees_with_std_sort_by_key() {
    let clocks: Vec<(String, String)> =
        (0..40).map(|i| (format!("city{i}"), format!("zone{i}"))).collect();
    let offsets: Vec<i32> = (0..40).map(|i| ((i * 7919) % 13 - 6) * 3600).collect();
    let mut expected: Vec<((String, String), i32)> =
        clocks.iter().cloned().zip(offsets.iter().cloned()).collect();
    expected.sort_by_key(|(_, k)| *k);
    let expected: Vec<(String, String)> = expected.into_iter().map(|(c, _)| c).collect();
    assert_eq!(sort_by_offsets(&clocks, &offsets), expected);
}

#[test]
fn utc_offset_of_known_and_unknown_zones() {
    assert_eq!(clock_utc_offset("UTC").seconds(), 0);
    assert_eq!(clock_utc_offset("Asia/Tokyo").seconds(), 9 * 3600);
    assert_eq!(clock_utc_offset("Asia/Kolkata").seconds(), 5 * 3600 + 1800);
    assert_eq!(clock_utc_offset("No/Such_Zone").seconds(), 0);
}

#[test]
fn clocks_are_ordered_by_current_offset() {
    let clocks = pairs(&[
        ("Tokyo", "Asia/Tokyo"),
        ("Nowhere", "No/Such_Zone"),
        ("Honolulu", "Pacific/Honolulu"),
        ("Greenwich", "UTC"),
        ("Kolkata", "Asia/Kolkata"),
    ]);
    let (sorted, offsets) = sort_clocks_by_offset(&clocks);
    let seconds: Vec<i32> = offsets.iter().map(|o| o.seconds()).collect();
    assert_eq!(seconds, vec![9 * 3600, 0, -10 * 3600, 0, 19800]);
    assert_eq!(
        sorted,
        pairs(&[
            ("Honolulu", "Pacific/Honolulu"),
            ("Nowhere", "No/Such_Zone"),
            ("Greenwich", "UTC"),
            ("Kolkata", "Asia/Kolkata"),
            ("Tokyo", "Asia/Tokyo"),
        ])
    );
}

#[test]
fn missing_zone_counts_as_offset_zero() {
    let found = clock_utc_offset("Asia/Kolkata");
    assert_eq!(offset_or_zero(Ok(found), "Asia/Kolkata").seconds(), 19800);
    assert_eq!(clock_utc_offset("No/Such_Zone").seconds(), 0);
}

fn at(hour: i8, minute: i8) -> LocalDateTime {
    LocalDateTime { date: CivilDate { year: 2024, month: 7, day: 8 }, hour, minute, second: 0 }
}

#[test]
fn clock_labels_show_city_and_time() {
    assert_eq!(clock_label("Tokyo", at(18, 43)), "Tokyo 18:43");
    assert_eq!(clock_label("São Paulo", at(6, 5)), "São Paulo 06:05");
    assert_eq!(clock_label("", at(0, 0)), " 00:00");
    assert_eq!(clock_label("Berlin", at(23, 59)), "Berlin 23:59");
}

#[test]
fn world_clock_labels_read_each_zone() {
    let clocks = pairs(&[("Greenwich", "UTC"), ("Tokyo", "Asia/Tokyo"), ("Nowhere", "No/Such_Zone")]);
    let utc = jiff::Timestamp::now().to_zoned(jiff::tz::TimeZone::UTC);
    let (labels, readings) = world_clock_labels(&clocks);
    assert_eq!(readings.len(), 3);
    assert_eq!(readings[1].time().hour, labels[1][6..8].parse::<i8>().unwrap());
    let tokyo = utc.with_time_zone(jiff::tz::TimeZone::get("Asia/Tokyo").unwrap());
    let expect = |city: &str, z: &jiff::Zoned| format!("{city} {:02}:{:02}", z.hour(), z.minute());
    assert_eq!(labels.len(), 3);
    // The minute may turn between the readings; allow either side of it.
    let later_utc = utc.checked_add(jiff::SignedDuration::from_secs(60)).unwrap();
    let later_tokyo = tokyo.checked_add(jiff::SignedDuration::from_secs(60)).unwrap();
    assert!(labels[0] == expect("Greenwich", &utc) || labels[0] == expect("Greenwich", &later_utc));
    assert!(labels[1] == expect("Tokyo", &tokyo) || labels[1] == expect("Tokyo", &later_tokyo));
    assert!(labels[2] == expect("Nowhere", &utc) || labels[2] == expect("Nowhere", &later_utc));
}

#[test]
fn clock_list_is_read_once_a_minute() {
    assert_eq!(clock_list_refresh(None, 125), Some(2));
    assert_eq!(clock_list_refresh(Some(2), 179), None);
    assert_eq!(clock_list_refresh(Some(2), 180), Some(3));
    assert_eq!(clock_list_refresh(Some(7), 125), Some(2));
}

#[test]
fn clock_list_is_read_again_within_two_minutes_of_a_change() {
    // Ticks every 50 seconds from t = 10; the list was read at the first tick.
    let mut last = clock_list_refresh(None, 10);
    assert_eq!(last, Some(0));
    let change = 75;
    let mut read_after_change = None;
    let mut t = 60;
    while t <= change + 120 {
        if let Some(minute) = clock_list_refresh(last, t) {
            last = Some(minute);
            if t > change && read_after_change.is_none() {
                read_after_change = Some(t);
            }
        }
        t += 50;
    }
    assert_eq!(read_after_change, Some(160));
}
