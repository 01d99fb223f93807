use cosmic_world_clock::applet::{
    after_time_zone_watch, button_padding, is_horizontal, panel_extent, settings_launch,
    shown_time_parts,
    ticks_on_sleep_signal, time_parts, AppletClock, ClockAction, ClockEvent, PanelAnchor,
    TickTimer, TimerChange, WatchStep,
};
use cosmic_world_clock::zones::{CivilDate, LocalDateTime};

fn reading(year: i16, month: i8, day: i8, hour: i8, minute: i8, second: i8) -> LocalDateTime {
    LocalDateTime { date: CivilDate { year, month, day }, hour, minute, second }
}

fn strings(list: &[&str]) -> Vec<String> {
    list.iter().map(|s| s.to_string()).collect()
}

#[test]
fn time_parts_split_at_colons_and_white_space() {
    assert_eq!(time_parts("18:43:07"), strings(&["18", "43", "07"]));
    assert_eq!(time_parts("6:43:07 PM"), strings(&["6", "43", "07", "PM"]));
    assert_eq!(time_parts("6:43:07\u{202f}PM"), strings(&["6", "43", "07", "PM"]));
    assert_eq!(time_parts("  12::30  "), strings(&["12", "", "30"]));
    assert_eq!(time_parts(":"), strings(&["", ""]));
    assert_eq!(time_parts(""), Vec::<String>::new());
    assert_eq!(time_parts(" \t\n"), Vec::<String>::new());
}

#[test]
fn time_parts_agree_with_std() {
    let samples = [
        "13:05:59",
        "1:05:59 AM",
        "午後1:05:59",
        "01.05.59",
        "a:b c:d\u{3000}e",
        "\u{85}x\u{a0}y:\u{2028}",
        "::",
    ];
    for s in samples {
        let expected: Vec<String> =
            s.split_whitespace().flat_map(|w| w.split(':')).map(|p| p.to_string()).collect();
        assert_eq!(time_parts(s), expected, "for {s:?}");
    }
}

#[test]
fn settings_launch_passes_the_token() {
    let launch = settings_launch(Some("tok-1".to_string()));
    assert_eq!(launch.program, "cosmic-settings");
    assert_eq!(launch.args, strings(&["time"]));
    assert_eq!(
        launch.env,
        vec![
            ("XDG_ACTIVATION_TOKEN".to_string(), "tok-1".to_string()),
            ("DESKTOP_STARTUP_ID".to_string(), "tok-1".to_string()),
        ]
    );
}

#[test]
fn settings_launch_without_token_sets_no_environment() {
    let launch = settings_launch(None);
    assert_eq!(launch.program, "cosmic-settings");
    assert_eq!(launch.args, strings(&["time"]));
    assert!(launch.env.is_empty());
}

#[test]
fn new_state_selects_today() {
    let now = reading(2024, 7, 8, 15, 20, 3);
    let clock = AppletClock::new(now);
    assert_eq!(clock.now(), now);
    assert_eq!(clock.date_today(), now.date);
    assert_eq!(clock.date_selected(), now.date);
    assert!(clock.time_zone().is_none());
}

#[test]
fn activation_token_leaves_the_state_alone() {
    let now = reading(2024, 2, 29, 23, 59, 59);
    let mut clock = AppletClock::new(now);
    match clock.update(ClockEvent::ActivationToken(Some("t".to_string()))) {
        ClockAction::LaunchSettings(launch) => {
            assert_eq!(launch.env.len(), 2);
            assert_eq!(launch.env[0].1, "t");
        }
        _ => panic!("expected a launch"),
    }
    assert_eq!(clock.now(), now);
    assert_eq!(clock.date_today(), now.date);
    assert!(clock.time_zone().is_none());
}

#[test]
fn updating_the_zone_reports_a_name_it_does_not_know() {
    let start = reading(2024, 1, 1, 0, 0, 0);
    let mut clock = AppletClock::new(start);
    assert!(clock.update_time_zone("Not/A_Zone").is_some());
    assert!(clock.time_zone().is_none());
    assert_eq!(clock.date_today(), start.date);
    assert!(clock.update_time_zone("UTC").is_none());
    assert_eq!(clock.time_zone(), Some(&jiff::tz::TimeZone::UTC));
    let utc_now = jiff::Timestamp::now().to_zoned(jiff::tz::TimeZone::UTC);
    assert_eq!(clock.date_today().year, utc_now.year());
    assert!(clock.update_time_zone("Also/Not_A_Zone").is_some());
    assert_eq!(clock.time_zone(), Some(&jiff::tz::TimeZone::UTC));
}

#[test]
fn time_zone_update_applies_a_known_zone() {
    let mut clock = AppletClock::new(reading(1999, 12, 31, 23, 0, 0));
    match clock.update(ClockEvent::TimezoneUpdate("UTC".to_string())) {
        ClockAction::Nothing => {}
        _ => panic!("unexpected action"),
    }
    assert_eq!(clock.time_zone(), Some(&jiff::tz::TimeZone::UTC));
    assert_eq!(clock.date_selected(), clock.date_today());
    let utc_now = jiff::Timestamp::now().to_zoned(jiff::tz::TimeZone::UTC);
    let today = clock.date_today();
    assert_eq!(today.year, utc_now.year());
    assert!(clock.now().hour >= 0 && clock.now().hour <= 23);
}

#[test]
fn time_zone_update_ignores_an_unknown_zone() {
    let start = reading(1999, 12, 31, 23, 0, 0);
    let mut clock = AppletClock::new(start);
    match clock.update(ClockEvent::TimezoneUpdate("Not/A_Zone".to_string())) {
        ClockAction::ZoneNotFound(_) => {}
        _ => panic!("expected the name to be reported as unknown"),
    }
    assert!(clock.time_zone().is_none());
    assert_eq!(clock.date_today(), start.date);
    assert_eq!(clock.date_selected(), start.date);
    assert_ne!(clock.now(), start);
}

#[test]
fn tick_reads_the_clock_in_the_state_zone() {
    let mut clock = AppletClock::new(reading(1970, 1, 1, 0, 0, 0));
    clock.update(ClockEvent::TimezoneUpdate("Asia/Tokyo".to_string()));
    let today = clock.date_today();
    clock.update(ClockEvent::Tick);
    let tokyo = jiff::Zoned::now().with_time_zone(jiff::tz::TimeZone::get("Asia/Tokyo").unwrap());
    assert_eq!(clock.now().date.year, tokyo.year());
    assert_eq!(clock.date_today(), today);
    assert_ne!(today, CivilDate { year: 1970, month: 1, day: 1 });
}

#[test]
fn start_reads_the_system_clock() {
    let clock = AppletClock::start();
    assert_eq!(clock.date_today(), clock.now().date);
    assert!(clock.time_zone().is_none());
    assert!(clock.now().date.year >= 2024);
}

#[test]
fn timer_with_seconds_never_moves_ticks() {
    let timer = TickTimer::new();
    assert_eq!(timer.period(), 1);
    assert_eq!(timer.on_tick(1_720_493_204), TimerChange::Keep);
}

#[test]
fn timer_without_seconds_ticks_on_the_minute() {
    let mut timer = TickTimer::new();
    assert_eq!(
        timer.on_show_seconds(false, 125),
        TimerChange::Restart { first_tick_after: 55, period: 60, skip_missed: true }
    );
    assert_eq!(timer.period(), 60);
    assert_eq!(timer.on_tick(125), TimerChange::ResetAfter(55));
    assert_eq!(timer.on_tick(179), TimerChange::ResetAfter(1));
    assert_eq!(timer.on_tick(180), TimerChange::Keep);
    assert_eq!(
        timer.on_show_seconds(false, 180),
        TimerChange::Restart { first_tick_after: 60, period: 60, skip_missed: true }
    );
    assert_eq!(
        timer.on_show_seconds(true, 181),
        TimerChange::Restart { first_tick_after: 1, period: 1, skip_missed: false }
    );
    assert_eq!(timer.period(), 1);
}

#[test]
fn failed_time_zone_watch_is_retried_after_a_minute() {
    assert_eq!(after_time_zone_watch(true), WatchStep::Stop);
    assert_eq!(after_time_zone_watch(false), WatchStep::RetryAfter(60));
}

#[test]
fn only_waking_ticks() {
    assert!(ticks_on_sleep_signal(false));
    assert!(!ticks_on_sleep_signal(true));
}

#[test]
fn layout_follows_the_panel_anchor() {
    assert!(is_horizontal(PanelAnchor::Top));
    assert!(is_horizontal(PanelAnchor::Bottom));
    assert!(!is_horizontal(PanelAnchor::Left));
    assert!(!is_horizontal(PanelAnchor::Right));
    assert_eq!(button_padding(true, 8), [0, 8]);
    assert_eq!(button_padding(false, 8), [8, 0]);
    assert_eq!(panel_extent(32, 4), 40);
    assert_eq!(panel_extent(0, 0), 0);
}


#[test]
fn time_zone_report_from_start_applies_the_zone() {
    let mut clock = AppletClock::start();
    clock.update(ClockEvent::TimezoneUpdate("Asia/Tokyo".to_string()));
    let tokyo = jiff::tz::TimeZone::get("Asia/Tokyo").unwrap();
    assert_eq!(clock.time_zone().and_then(|z| z.iana_name()), Some("Asia/Tokyo"));
    assert_eq!(clock.date_selected(), clock.date_today());
    let now = jiff::Zoned::now().with_time_zone(tokyo);
    let shown = clock.now();
    assert!(shown.hour == now.hour() || (shown.hour + 1) % 24 == now.hour());
}

#[test]
fn shown_time_follows_the_locale() {
    let t = reading(2024, 7, 8, 18, 43, 7);
    assert_eq!(shown_time_parts("en-US", t), Some(strings(&["6", "43", "07", "PM"])));
    assert_eq!(shown_time_parts("de", t), Some(strings(&["18", "43", "07"])));
    assert_eq!(shown_time_parts("not a locale!", t), None);
}

#[test]
fn zone_once_set_stays_set_over_a_run() {
    let mut clock = AppletClock::new(reading(2022, 3, 4, 5, 6, 7));
    let events = [
        ("tick", ""),
        ("zone", "Not/A_Zone"),
        ("zone", "Europe/Berlin"),
        ("tick", ""),
        ("zone", "Nor/This_One"),
        ("token", ""),
        ("tick", ""),
    ];
    let mut set = false;
    for (kind, name) in events {
        let event = match kind {
            "tick" => ClockEvent::Tick,
            "zone" => ClockEvent::TimezoneUpdate(name.to_string()),
            _ => ClockEvent::ActivationToken(None),
        };
        let action = clock.update(event);
        if kind == "zone" && name == "Europe/Berlin" {
            assert!(matches!(action, ClockAction::Nothing));
            set = true;
        }
        if set {
            assert_eq!(
                clock.time_zone().and_then(|z| z.iana_name()),
                Some("Europe/Berlin")
            );
        } else {
            assert!(clock.time_zone().is_none());
        }
    }
}
