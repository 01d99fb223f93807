//! The decisions of the panel applet: its clock state and how messages
//! change it, the timer that drives its ticks, and its layout numbers.
use vstd::prelude::*;
use crate::text::{
    first_white_space_from, is_white_space, lemma_first_white_space_from, lemma_pieces_lack, lemma_pieces_within, lemma_white_space_pieces_lack,
    chars_of, find_white_space_in_window, split_at_white_space, split_pieces, split_window,
    string_views,
};
use crate::zones::{
    lookup_time_zone, now_for_found_zone, now_in_system_zone, now_in_zone, CivilDate,
    LocalDateTime, MissingZone, NamedZone, ZonedReading,
};

verus! {

/// What the applet's clock state holds, as the contracts speak of it.
pub struct ClockStateView {
    pub now: LocalDateTime,
    /// The time zone the time on display was read in; `None` for the system's.
    pub now_zone: Option<jiff::tz::TimeZone>,
    pub zone: Option<jiff::tz::TimeZone>,
    /// The name the state's zone was found under.
    pub zone_name: Option<Seq<char>>,
    pub date_today: CivilDate,
    pub date_selected: CivilDate,
    /// How many readings of the clock have become the time on display since
    /// the state was made.
    pub readings: nat,
}

/// The clock state of the applet: the time on display, the time zone chosen
/// by the system (none until the system reports one), kept with the name it
/// was found under, today's date and the date selected in the calendar.
pub struct AppletClock {
    now: LocalDateTime,
    now_zone: Ghost<Option<jiff::tz::TimeZone>>,
    zone: Option<NamedZone>,
    date_today: CivilDate,
    date_selected: CivilDate,
    readings: Ghost<nat>,
}

/// The time zone of a zone found, if any.
pub open spec fn zone_of(found: Option<NamedZone>) -> Option<jiff::tz::TimeZone> {
    match found {
        Some(z) => Some(z.zone_value()),
        None => None,
    }
}

/// The name a zone found was looked up under, if any.
pub open spec fn name_of(found: Option<NamedZone>) -> Option<Seq<char>> {
    match found {
        Some(z) => Some(z.looked_up_as()),
        None => None,
    }
}

impl View for AppletClock {
    type V = ClockStateView;

    closed spec fn view(&self) -> ClockStateView {
        ClockStateView {
            now: self.now,
            now_zone: self.now_zone@,
            zone: zone_of(self.zone),
            zone_name: name_of(self.zone),
            date_today: self.date_today,
            date_selected: self.date_selected,
            readings: self.readings@,
        }
    }
}

impl AppletClock {
    /// Every date and time held lies in the ranges that jiff reports, and the
    /// time on display is read in the state's time zone (the system's where
    /// the state has none).
    #[verifier::type_invariant]
    spec fn well_formed(self) -> bool {
        &&& self.now.is_valid()
        &&& self.date_today.is_valid()
        &&& self.date_selected.is_valid()
        &&& self.now_zone@ == zone_of(self.zone)
    }

    /// The state at start-up, from a first reading `now` of the clock in the
    /// system's time zone: no time zone of its own yet, and today's date
    /// selected.
    pub fn new(now: LocalDateTime) -> (s: Self)
        requires
            now.is_valid(),
        ensures
            s@.now == now,
            s@.now_zone is None,
            s@.zone is None,
            s@.zone_name is None,
            s@.date_today == now.date,
            s@.date_selected == now.date,
            s@.readings == 0,
    {
        AppletClock {
            now,
            now_zone: Ghost(None),
            zone: None,
            date_today: now.date,
            date_selected: now.date,
            readings: Ghost(0),
        }
    }

    /// The state at start-up, reading the clock in the system's time zone.
    pub fn start() -> (s: Self)
        ensures
            s@.now.is_valid(),
            s@.now_zone is None,
            s@.zone is None,
            s@.zone_name is None,
            s@.date_today == s@.now.date,
            s@.date_selected == s@.now.date,
            s@.readings == 0,
    {
        let reading = now_in_system_zone();
        Self::new(reading.time())
    }

    /// The time on display.
    pub fn now(&self) -> (now: LocalDateTime)
        ensures
            now == self@.now,
            now.is_valid(),
            self@.now_zone == self@.zone,
    {
        proof {
            use_type_invariant(self);
        }
        self.now
    }

    /// Today's date, as last set.
    pub fn date_today(&self) -> (date: CivilDate)
        ensures
            date == self@.date_today,
            date.is_valid(),
    {
        proof {
            use_type_invariant(self);
        }
        self.date_today
    }

    /// The date selected in the calendar.
    pub fn date_selected(&self) -> (date: CivilDate)
        ensures
            date == self@.date_selected,
            date.is_valid(),
    {
        proof {
            use_type_invariant(self);
        }
        self.date_selected
    }

    /// The time zone that the system reported, if any.
    pub fn time_zone(&self) -> (zone: Option<&jiff::tz::TimeZone>)
        ensures
            zone is None <==> self@.zone is None,
            zone matches Some(z) ==> self@.zone == Some(*z),
    {
        match &self.zone {
            Some(found) => Some(found.time_zone()),
            None => None,
        }
    }

    /// A reading of the clock, taken in the state's time zone, becomes the
    /// time on display. Nothing else changes.
    pub fn show_reading(&mut self, reading: ZonedReading)
        requires
            reading.reading_time().is_valid(),
            reading.reading_zone() == old(self)@.zone,
        ensures
            final(self)@.now == reading.reading_time(),
            final(self)@.now_zone == reading.reading_zone(),
            final(self)@.zone == old(self)@.zone,
            final(self)@.zone_name == old(self)@.zone_name,
            final(self)@.date_today == old(self)@.date_today,
            final(self)@.date_selected == old(self)@.date_selected,
            final(self)@.readings == old(self)@.readings + 1,
    {
        proof {
            use_type_invariant(&*self);
        }
        let time = reading.time();
        self.now = time;
        let ghost count = self.readings@ + 1;
        self.readings = Ghost(count);
    }

    /// A tick: the time on display becomes the current time read in the
    /// state's time zone, or in the system's where it has none. Nothing else
    /// changes.
    pub fn tick(&mut self)
        ensures
            final(self)@.now.is_valid(),
            final(self)@.now_zone == old(self)@.zone,
            final(self)@.zone == old(self)@.zone,
            final(self)@.zone_name == old(self)@.zone_name,
            final(self)@.date_today == old(self)@.date_today,
            final(self)@.date_selected == old(self)@.date_selected,
            final(self)@.readings == old(self)@.readings + 1,
    {
        proof {
            use_type_invariant(&*self);
        }
        let reading = match &self.zone {
            Some(found) => now_in_zone(found.time_zone()),
            None => now_in_system_zone(),
        };
        self.show_reading(reading);
    }


    /// The outcome of looking up a time zone that the system reported: where
    /// it was found, the zone, with `reading` taken in it, is applied (the zone
    /// and the name it was found under become the state's, the reading the
    /// time on display, its date today's and the selected date); where it was
    /// not, nothing changes and the outcome is handed back.
    pub fn apply_lookup(
        &mut self,
        found: Result<(NamedZone, ZonedReading), MissingZone>,
    ) -> (missing: Option<MissingZone>)
        requires
            found matches Ok((zone, reading)) ==> reading.reading_time().is_valid()
                && reading.reading_zone() == Some(zone.zone_value()),
        ensures
            match found {
                Ok((zone, reading)) => {
                    &&& missing is None
                    &&& final(self)@.now == reading.reading_time()
                    &&& final(self)@.now_zone == Some(zone.zone_value())
                    &&& final(self)@.zone == Some(zone.zone_value())
                    &&& final(self)@.zone_name == Some(zone.looked_up_as())
                    &&& final(self)@.date_today == reading.reading_time().date
                    &&& final(self)@.date_selected == reading.reading_time().date
                    &&& final(self)@.readings == old(self)@.readings + 1
                },
                Err(m) => missing == Some(m) && final(self)@ == old(self)@,
            },
    {
        match found {
            Ok((zone, reading)) => {
                let time = reading.time();
                let ghost shown = Some(zone.zone_value());
                let ghost count = self.readings@ + 1;
                *self = AppletClock {
                    now: time,
                    now_zone: Ghost(shown),
                    zone: Some(zone),
                    date_today: time.date,
                    date_selected: time.date,
                    readings: Ghost(count),
                };
                None
            },
            Err(m) => Some(m),
        }
    }

    /// The system reported the time zone `name`. It is looked up in the time
    /// zone database, the outcome applied (`apply_lookup`, with the clock read
    /// in the zone found), and a tick follows. Where the name was not found,
    /// the outcome of that lookup is handed back and the zone, its name and the
    /// dates are as before; where it was found, the state's zone is the one
    /// found under `name` and the selected date is today's. Either way the time
    /// on display is read in the state's zone.
    pub fn update_time_zone(&mut self, name: &str) -> (missing: Option<MissingZone>)
        ensures
            final(self)@.now.is_valid(),
            final(self)@.now_zone == final(self)@.zone,
            match missing {
                Some(m) => {
                    &&& m.looked_up_as() == name@
                    &&& final(self)@.zone == old(self)@.zone
                    &&& final(self)@.zone_name == old(self)@.zone_name
                    &&& final(self)@.date_today == old(self)@.date_today
                    &&& final(self)@.date_selected == old(self)@.date_selected
                    &&& final(self)@.readings == old(self)@.readings + 1
                },
                None => {
                    &&& final(self)@.zone is Some
                    &&& final(self)@.zone_name == Some(name@)
                    &&& final(self)@.date_selected == final(self)@.date_today
                    &&& final(self)@.readings == old(self)@.readings + 2
                },
            },
    {
        let found = match lookup_time_zone(name) {
            Ok(zone) => {
                let reading = now_for_found_zone(&zone);
                Ok((zone, reading))
            },
            Err(missing) => Err(missing),
        };
        let missing = self.apply_lookup(found);
        self.tick();
        missing
    }
}

/// How to launch the time page of the settings application.
#[derive(Clone, Debug)]
pub struct SettingsLaunch {
    pub program: String,
    pub args: Vec<String>,
    pub env: Vec<(String, String)>,
}

/// `launch` runs `cosmic-settings time`, and, where an activation token was
/// handed over, passes it in `XDG_ACTIVATION_TOKEN` and `DESKTOP_STARTUP_ID`.
pub open spec fn is_settings_launch(launch: SettingsLaunch, token: Option<String>) -> bool {
    &&& launch.program@ == "cosmic-settings"@
    &&& launch.args@.len() == 1
    &&& launch.args@[0]@ == "time"@
    &&& match token {
        Some(t) => {
            &&& launch.env@.len() == 2
            &&& launch.env@[0].0@ == "XDG_ACTIVATION_TOKEN"@
            &&& launch.env@[0].1@ == t@
            &&& launch.env@[1].0@ == "DESKTOP_STARTUP_ID"@
            &&& launch.env@[1].1@ == t@
        },
        None => launch.env@.len() == 0,
    }
}

/// The launch of the settings application for an activation token.
pub fn settings_launch(token: Option<String>) -> (launch: SettingsLaunch)
    ensures
        is_settings_launch(launch, token),
{
    let mut args: Vec<String> = Vec::new();
    args.push("time".to_owned());
    let mut env: Vec<(String, String)> = Vec::new();
    match &token {
        Some(t) => {
            env.push(("XDG_ACTIVATION_TOKEN".to_owned(), t.clone()));
            env.push(("DESKTOP_STARTUP_ID".to_owned(), t.clone()));
        },
        None => {},
    }
    SettingsLaunch { program: "cosmic-settings".to_owned(), args, env }
}

/// A message to the applet that changes its clock state or asks for work.
#[derive(Clone, Debug)]
pub enum ClockEvent {
    /// The timer ticked, or the machine woke from sleep.
    Tick,
    /// The system's time zone is now the one of this name.
    TimezoneUpdate(String),
    /// An activation token arrived (possibly none) for opening the settings.
    ActivationToken(Option<String>),
}

/// What the applet has to do after a message.
pub enum ClockAction {
    Nothing,
    LaunchSettings(SettingsLaunch),
    /// The reported time zone is not in the time zone database; the state
    /// kept its zone.
    ZoneNotFound(MissingZone),
}

/// How handling `event` takes the clock state `before` to `after`, with
/// `action` as the answer: a tick reads the time again in the state's zone
/// and changes nothing else; a time zone report whose name is found sets that
/// zone (under that name) and selects today, and one whose name is not found
/// hands the lookup's outcome back and keeps zone and dates; an activation
/// token changes nothing and asks for the settings to be launched with it.
/// In every case the time on display is valid and read in the state's zone.
pub open spec fn clock_update_step(
    before: ClockStateView,
    event: ClockEvent,
    action: ClockAction,
    after: ClockStateView,
) -> bool {
    &&& after.now.is_valid()
    &&& after.now_zone == after.zone
    &&& match event {
        ClockEvent::Tick => {
            &&& action is Nothing
            &&& after.readings == before.readings + 1
            &&& after.zone == before.zone
            &&& after.zone_name == before.zone_name
            &&& after.date_today == before.date_today
            &&& after.date_selected == before.date_selected
        },
        ClockEvent::TimezoneUpdate(name) => match action {
            ClockAction::ZoneNotFound(m) => {
                &&& m.looked_up_as() == name@
                &&& after.zone == before.zone
                &&& after.zone_name == before.zone_name
                &&& after.date_today == before.date_today
                &&& after.date_selected == before.date_selected
                &&& after.readings == before.readings + 1
            },
            ClockAction::Nothing => {
                &&& after.readings == before.readings + 2
                &&& after.zone is Some
                &&& after.zone_name == Some(name@)
                &&& after.date_selected == after.date_today
            },
            ClockAction::LaunchSettings(_) => false,
        },
        ClockEvent::ActivationToken(token) => {
            &&& after == before
            &&& action matches ClockAction::LaunchSettings(launch) && is_settings_launch(
                launch,
                token,
            )
        },
    }
}

impl AppletClock {
    /// Handles a message (see `clock_update_step`): a tick refreshes the time
    /// on display, a time zone report is applied where the zone is known (else
    /// the lookup's outcome is handed back) and followed by a tick, and an
    /// activation token leaves the state alone and asks for the settings to be
    /// launched with it.
    pub fn update(&mut self, event: ClockEvent) -> (action: ClockAction)
        ensures
            clock_update_step(old(self)@, event, action, final(self)@),
    {
        proof {
            use_type_invariant(&*self);
        }
        match event {
            ClockEvent::Tick => {
                self.tick();
                ClockAction::Nothing
            },
            ClockEvent::TimezoneUpdate(name) => match self.update_time_zone(name.as_str()) {
                Some(missing) => ClockAction::ZoneNotFound(missing),
                None => ClockAction::Nothing,
            },
            ClockEvent::ActivationToken(token) => ClockAction::LaunchSettings(
                settings_launch(token),
            ),
        }
    }
}

/// Handling a message never unsets the time zone, and the zone or its name
/// changes only on a time zone report whose name was found, the name then
/// being the reported one. The time on display is always read in the state's
/// zone (the system's where it has none).
pub proof fn law_zone_changes_only_on_found_report(
    before: ClockStateView,
    event: ClockEvent,
    action: ClockAction,
    after: ClockStateView,
)
    requires
        clock_update_step(before, event, action, after),
    ensures
        after.now_zone == after.zone,
        before.zone is Some ==> after.zone is Some,
        after.zone != before.zone || after.zone_name != before.zone_name ==> reported_and_found(
            event,
            action,
            after.zone_name,
        ),
{
}
/// A tick always puts a new reading of the clock on display: one more
/// reading has become the time shown than before the tick, taken in the
/// state's time zone (the system's where it has none), and the zone, its name
/// and the dates stay. Every time zone report puts at least one new reading
/// on display too; only an activation token shows none.
pub proof fn law_tick_shows_a_new_reading(
    before: ClockStateView,
    event: ClockEvent,
    action: ClockAction,
    after: ClockStateView,
)
    requires
        clock_update_step(before, event, action, after),
    ensures
        event is Tick ==> {
            &&& after.readings == before.readings + 1
            &&& after.now_zone == before.zone
            &&& after.zone == before.zone
            &&& after.zone_name == before.zone_name
            &&& after.date_today == before.date_today
            &&& after.date_selected == before.date_selected
        },
        event is TimezoneUpdate ==> after.readings > before.readings,
        event is ActivationToken ==> after.readings == before.readings,
{
}


/// `event` reported a time zone, the answer says it was found, and `name` is
/// the reported name.
pub open spec fn reported_and_found(
    event: ClockEvent,
    action: ClockAction,
    name: Option<Seq<char>>,
) -> bool {
    &&& event matches ClockEvent::TimezoneUpdate(reported) && name == Some(reported@)
    &&& action is Nothing
}

/// A run of messages: `states[i + 1]` is what handling `events[i]` made of
/// `states[i]`, answering `actions[i]`.
pub open spec fn clock_run(
    states: Seq<ClockStateView>,
    events: Seq<ClockEvent>,
    actions: Seq<ClockAction>,
) -> bool {
    &&& states.len() == events.len() + 1
    &&& actions.len() == events.len()
    &&& forall|i: int|
        0 <= i < events.len() ==> #[trigger] clock_update_step(
            states[i],
            events[i],
            actions[i],
            states[i + 1],
        )
}

/// Over any run of messages, a time zone once set stays set, and at every
/// point the state's zone name is the one it started with or a name that a
/// time zone report of the run gave and that was found.
pub proof fn law_zone_over_a_run(
    states: Seq<ClockStateView>,
    events: Seq<ClockEvent>,
    actions: Seq<ClockAction>,
)
    requires
        clock_run(states, events, actions),
    ensures
        forall|i: int, j: int|
            0 <= i <= j < states.len() && (#[trigger] states[i]).zone is Some
                ==> (#[trigger] states[j]).zone is Some,
        forall|j: int|
            0 <= j < states.len() ==> (#[trigger] states[j]).zone_name == states[0].zone_name
                || exists|i: int|
                0 <= i < j && #[trigger] reported_and_found(events[i], actions[i], states[j].zone_name),
    decreases events.len(),
{
    if events.len() > 0 {
        let n = events.len() - 1;
        let s = states.drop_last();
        let e = events.drop_last();
        let a = actions.drop_last();
        assert forall|i: int| 0 <= i < e.len() implies #[trigger] clock_update_step(
            s[i],
            e[i],
            a[i],
            s[i + 1],
        ) by {
            assert(clock_update_step(states[i], events[i], actions[i], states[i + 1]));
        }
        law_zone_over_a_run(s, e, a);
        assert(clock_update_step(states[n], events[n], actions[n], states[n + 1]));
        law_zone_changes_only_on_found_report(states[n], events[n], actions[n], states[n + 1]);
        assert forall|i: int, j: int|
            0 <= i <= j < states.len() && (#[trigger] states[i]).zone is Some implies (
            #[trigger] states[j]).zone is Some by {
            if j <= n {
                assert(s[i] == states[i] && s[j] == states[j]);
            } else if i <= n {
                assert(s[i] == states[i] && s[n] == states[n]);
            }
        }
        assert forall|j: int| 0 <= j < states.len() implies (#[trigger] states[j]).zone_name
            == states[0].zone_name || exists|i: int|
            0 <= i < j && #[trigger] reported_and_found(events[i], actions[i], states[j].zone_name) by {
            if j <= n {
                assert(s[j] == states[j] && s[0] == states[0]);
                if s[j].zone_name != s[0].zone_name {
                    let i = choose|i: int|
                        0 <= i < j && #[trigger] reported_and_found(e[i], a[i], s[j].zone_name);
                    assert(e[i] == events[i] && a[i] == actions[i]);
                }
            } else if states[j].zone_name != states[n].zone_name {
                assert(reported_and_found(events[n], actions[n], states[j].zone_name));
            } else {
                assert(s[n] == states[n] && s[0] == states[0]);
                if s[n].zone_name != s[0].zone_name {
                    let i = choose|i: int|
                        0 <= i < n && #[trigger] reported_and_found(e[i], a[i], s[n].zone_name);
                    assert(e[i] == events[i] && a[i] == actions[i]);
                    assert(reported_and_found(events[i], actions[i], states[j].zone_name));
                }
            }
        }
    }
}


/// A change to the timer that drives the ticks.
#[derive(Clone, Copy, Debug, PartialEq, Eq, Structural)]
pub enum TimerChange {
    /// Leave the timer as it is.
    Keep,
    /// Fire the next tick after this many seconds, then go on with the period.
    ResetAfter(u64),
    /// A new timer: first tick after `first_tick_after` seconds, then one every
    /// `period` seconds; `skip_missed` where missed ticks are skipped rather
    /// than fired in a burst.
    Restart { first_tick_after: u64, period: u64, skip_missed: bool },
}

/// The timer's period in seconds: one while seconds are shown, sixty otherwise.
#[derive(Clone, Copy, Debug)]
pub struct TickTimer {
    period: u64,
}

impl TickTimer {
    #[verifier::type_invariant]
    spec fn well_formed(self) -> bool {
        self.period == 1 || self.period == 60
    }

    /// The period, in seconds.
    pub closed spec fn period_secs(self) -> u64 {
        self.period
    }

    /// The timer at start: a tick every second, missed ticks skipped.
    pub fn new() -> (t: Self)
        ensures
            t.period_secs() == 1,
    {
        TickTimer { period: 1 }
    }

    /// The period, in seconds.
    pub fn period(&self) -> (p: u64)
        ensures
            p == self.period_secs(),
            p == 1 || p == 60,
    {
        proof {
            use_type_invariant(self);
        }
        self.period
    }

    /// After a tick at `now_secs` (seconds since the Unix epoch): where the
    /// time is off the period's grid, the next tick is moved onto it, so that
    /// per-minute ticks stay on the minute.
    pub fn on_tick(&self, now_secs: u64) -> (change: TimerChange)
        ensures
            now_secs % self.period_secs() == 0 ==> change is Keep,
            now_secs % self.period_secs() != 0 ==> change == TimerChange::ResetAfter(
                (self.period_secs() - now_secs % self.period_secs()) as u64,
            ),
    {
        proof {
            use_type_invariant(self);
        }
        let current = now_secs % self.period;
        if current != 0 {
            TimerChange::ResetAfter(self.period - current)
        } else {
            TimerChange::Keep
        }
    }

    /// The setting to show seconds changed at `now_secs`: with seconds, a tick
    /// every second from one second on; without, a tick every minute from the
    /// start of the next minute, missed ticks skipped.
    pub fn on_show_seconds(&mut self, show_seconds: bool, now_secs: u64) -> (change: TimerChange)
        ensures
            show_seconds ==> final(self).period_secs() == 1 && change == (TimerChange::Restart {
                first_tick_after: 1,
                period: 1,
                skip_missed: false,
            }),
            !show_seconds ==> final(self).period_secs() == 60 && change == (TimerChange::Restart {
                first_tick_after: (60 - now_secs % 60) as u64,
                period: 60,
                skip_missed: true,
            }),
    {
        if show_seconds {
            self.period = 1;
            TimerChange::Restart { first_tick_after: 1, period: 1, skip_missed: false }
        } else {
            self.period = 60;
            let delta = 60 - now_secs % 60;
            TimerChange::Restart { first_tick_after: delta, period: 60, skip_missed: true }
        }
    }
}

/// What to do when watching the system's time zone ended.
#[derive(Clone, Copy, Debug, PartialEq, Eq, Structural)]
pub enum WatchStep {
    /// The watch ended normally: stop watching.
    Stop,
    /// The watch failed: watch again after this many seconds.
    RetryAfter(u64),
}

/// After the watch on the system's time zone ended, with or without error:
/// a failed watch is retried after a minute.
pub fn after_time_zone_watch(ended_ok: bool) -> (step: WatchStep)
    ensures
        ended_ok ==> step is Stop,
        !ended_ok ==> step == WatchStep::RetryAfter(60),
{
    if ended_ok {
        WatchStep::Stop
    } else {
        WatchStep::RetryAfter(60)
    }
}

/// Whether a `PrepareForSleep` signal from logind calls for a tick: it does
/// when the machine wakes, that is when the signal does not announce the start
/// of sleep.
pub fn ticks_on_sleep_signal(sleep_starts: bool) -> (tick: bool)
    ensures
        tick == !sleep_starts,
{
    !sleep_starts
}

/// The edge of the screen that the panel is attached to.
#[derive(Clone, Copy, Debug, PartialEq, Eq, Structural)]
pub enum PanelAnchor {
    Left,
    Right,
    Top,
    Bottom,
}

/// A panel at the top or bottom is horizontal.
pub fn is_horizontal(anchor: PanelAnchor) -> (horizontal: bool)
    ensures
        horizontal == (anchor == PanelAnchor::Top || anchor == PanelAnchor::Bottom),
{
    match anchor {
        PanelAnchor::Top | PanelAnchor::Bottom => true,
        _ => false,
    }
}

/// The padding of the applet's button, `[vertical, horizontal]`: the
/// suggested padding goes across the panel's length.
pub fn button_padding(horizontal: bool, padding: u16) -> (p: [u16; 2])
    ensures
        horizontal ==> p@ == seq![0u16, padding],
        !horizontal ==> p@ == seq![padding, 0u16],
{
    let p = if horizontal {
        [0, padding]
    } else {
        [padding, 0]
    };
    assert(horizontal ==> p@ =~= seq![0u16, padding]);
    assert(!horizontal ==> p@ =~= seq![padding, 0u16]);
    p
}

/// The extent that the applet reserves across the panel: the suggested size
/// and the suggested padding on both sides.
pub fn panel_extent(size: u16, padding: u16) -> (extent: u16)
    requires
        size + 2 * padding <= u16::MAX,
    ensures
        extent == size + 2 * padding,
{
    size + 2 * padding
}


/// Separates the fields of a formatted time: `:`.
pub open spec fn colon() -> Seq<char> {
    seq![':']
}

/// The pieces of each non-empty word when split at `:`, in order.
pub open spec fn parts_of_words(words: Seq<Seq<char>>) -> Seq<Seq<char>>
    decreases words.len(),
{
    if words.len() == 0 {
        seq![]
    } else {
        let first = if words[0].len() == 0 {
            Seq::<Seq<char>>::empty()
        } else {
            split_pieces(words[0], colon())
        };
        first + parts_of_words(words.drop_first())
    }
}

/// The time of day `hour:minute:second` as ICU4X formats it for the locale
/// `tag` in its medium length (`icu::datetime::fieldsets::T::medium()`, with
/// ICU's compiled data), such as `18:43:07` or `6:43:07 PM`.
pub uninterp spec fn icu_medium_time(tag: Seq<char>, hour: int, minute: int, second: int) -> Seq<char>;

/// Formats a time of day with `icu::datetime::DateTimeFormatter` for the
/// locale `tag` (parsed by `icu::locale::Locale::try_from_str`) and the medium
/// time field set. Stated: a formatted text is ICU's text for these arguments,
/// which depends on them alone. Where parsing the tag, loading the formatter
/// or building the time fails, there is no text; when that happens is not
/// stated.
#[verifier::external_body]
fn format_medium_time(tag: &str, hour: u8, minute: u8, second: u8) -> (formatted: Option<String>)
    ensures
        formatted matches Some(text) ==> text@ == icu_medium_time(
            tag@,
            hour as int,
            minute as int,
            second as int,
        ),
{
    let locale = icu::locale::Locale::try_from_str(tag).ok()?;
    let prefs = icu::datetime::DateTimeFormatterPreferences::from(locale);
    let fields = icu::datetime::fieldsets::T::medium();
    let formatter = icu::datetime::DateTimeFormatter::try_new(prefs, fields).ok()?;
    let time = icu::datetime::input::Time::try_new(hour, minute, second, 0).ok()?;
    Some(formatter.format(&time).to_string())
}

/// What the vertical layout shows of the time `time` for the locale `tag`:
/// the time of day formatted by ICU in its medium length, split into the
/// parts that are stacked (`time_parts`). `None` where ICU gave no text.
pub fn shown_time_parts(tag: &str, time: LocalDateTime) -> (parts: Option<Vec<String>>)
    requires
        time.is_valid(),
    ensures
        parts matches Some(p) ==> string_views(p@) == time_display_parts(
            icu_medium_time(tag@, time.hour as int, time.minute as int, time.second as int),
        ),
{
    let hour = time.hour as u8;
    let minute = time.minute as u8;
    let second = time.second as u8;
    match format_medium_time(tag, hour, minute, second) {
        Some(formatted) => Some(time_parts(formatted.as_str())),
        None => None,
    }
}

/// The parts that the vertical layout stacks, one above the other: the
/// formatted time split at white space (empty words dropped), then each word
/// split at `:`.
pub open spec fn time_display_parts(formatted: Seq<char>) -> Seq<Seq<char>> {
    parts_of_words(split_at_white_space(formatted))
}

/// The parts of a formatted time for the vertical layout:
/// `split_whitespace().flat_map(|s| s.split(':'))`.
pub fn time_parts(formatted: &str) -> (parts: Vec<String>)
    ensures
        string_views(parts@) == time_display_parts(formatted@),
{
    let v = chars_of(formatted);
    let n = v.len();
    let colon = {
        let mut c: Vec<char> = Vec::new();
        c.push(':');
        c
    };
    assert(colon@ =~= seq![':']);
    assert(v@.subrange(0, n as int) =~= formatted@);
    let mut parts: Vec<String> = Vec::new();
    let mut pos: usize = 0;
    loop
        invariant_except_break
            pos <= n == v@.len(),
            v@ == formatted@,
            colon@ == seq![':'],
            string_views(parts@) + parts_of_words(
                split_at_white_space(v@.subrange(pos as int, n as int)),
            ) == time_display_parts(formatted@),
        ensures
            string_views(parts@) == time_display_parts(formatted@),
        decreases n - pos,
    {
        let ghost w = v@.subrange(pos as int, n as int);
        let ghost before = string_views(parts@);
        let found = find_white_space_in_window(&v, pos, n);
        let end = match found {
            Some(j) => j,
            None => n,
        };
        let ghost word = v@.subrange(pos as int, end as int);
        let ghost rest_words = match found {
            Some(j) => split_at_white_space(v@.subrange(j + 1, n as int)),
            None => Seq::<Seq<char>>::empty(),
        };
        proof {
            match found {
                Some(j) => {
                    assert(w.take(j - pos) =~= word);
                    assert(w.skip(j - pos + 1) =~= v@.subrange(j + 1, n as int));
                },
                None => {
                    assert(word =~= w);
                },
            }
            assert(split_at_white_space(w) =~= seq![word] + rest_words);
            assert((seq![word] + rest_words).drop_first() =~= rest_words);
        }
        if end > pos {
            let mut pieces = split_window(&v, pos, end, &colon);
            let ghost added = pieces@;
            parts.append(&mut pieces);
            proof {
                assert(string_views(parts@) =~= before + string_views(added));
            }
        }
        proof {
            assert(parts_of_words(seq![word] + rest_words) == (if word.len() == 0 {
                Seq::<Seq<char>>::empty()
            } else {
                split_pieces(word, colon@)
            }) + parts_of_words(rest_words));
        }
        match found {
            Some(j) => {
                proof {
                    assert(string_views(parts@) + parts_of_words(rest_words) =~= before
                        + parts_of_words(split_at_white_space(w)));
                }
                pos = j + 1;
            },
            None => {
                proof {
                    assert(parts_of_words(rest_words) =~= Seq::<Seq<char>>::empty());
                    assert(string_views(parts@) =~= before + parts_of_words(
                        split_at_white_space(w),
                    ));
                }
                break;
            },
        }
    }
    parts
}


/// A tick that `on_tick` moves lands on the period's grid, within one period:
/// waiting `period - now % period` seconds from `now` reaches a multiple of
/// the period.
pub proof fn law_moved_tick_lands_on_grid(period: u64, now_secs: u64)
    requires
        period > 0,
        now_secs % period != 0,
    ensures
        0 < period - now_secs % period < period,
        (now_secs + (period - now_secs % period)) % (period as int) == 0,
{
    let p = period as int;
    let q = now_secs as int / p;
    let r = now_secs as int % p;
    vstd::arithmetic::div_mod::lemma_fundamental_div_mod(now_secs as int, p);
    assert(now_secs + (p - r) == (q + 1) * p) by (nonlinear_arith)
        requires
            now_secs == p * q + r,
    ;
    vstd::arithmetic::div_mod::lemma_mod_multiples_basic(q + 1, p);
}

/// Without seconds the time is updated every minute, on the minute: the
/// first tick after `on_show_seconds(false, now)` comes at most a minute
/// later, at the start of a minute.
pub proof fn law_minute_ticks_start_on_the_minute(now_secs: u64)
    ensures
        1 <= 60 - now_secs % 60 <= 60,
        (now_secs + (60 - now_secs % 60)) % 60 == 0,
{
    if now_secs % 60 != 0 {
        law_moved_tick_lands_on_grid(60, now_secs);
    } else {
        vstd::arithmetic::div_mod::lemma_fundamental_div_mod(now_secs as int, 60);
        vstd::arithmetic::div_mod::lemma_mod_multiples_basic(now_secs as int / 60 + 1, 60);
    }
}


/// A part of the formatted time is clean: it holds no `:` and no white space.
pub open spec fn part_is_clean(part: Seq<char>) -> bool {
    &&& !part.contains(':')
    &&& forall|m: int| 0 <= m < part.len() ==> !is_white_space(#[trigger] part[m])
}

proof fn lemma_parts_of_words_clean(words: Seq<Seq<char>>)
    requires
        forall|k: int, m: int|
            0 <= k < words.len() && 0 <= m < words[k].len() ==> !is_white_space(
                #[trigger] words[k][m],
            ),
    ensures
        forall|k: int|
            0 <= k < parts_of_words(words).len() ==> part_is_clean(
                #[trigger] parts_of_words(words)[k],
            ),
    decreases words.len(),
{
    if words.len() > 0 {
        let w = words[0];
        let first = if w.len() == 0 {
            Seq::<Seq<char>>::empty()
        } else {
            split_pieces(w, colon())
        };
        let rest_words = words.drop_first();
        assert forall|k: int, m: int|
            0 <= k < rest_words.len() && 0 <= m < rest_words[k].len() implies !is_white_space(
            #[trigger] rest_words[k][m],
        ) by {
            assert(rest_words[k] == words[k + 1]);
        }
        lemma_parts_of_words_clean(rest_words);
        lemma_pieces_lack(w, ':');
        lemma_pieces_within(w, colon());
        let all = parts_of_words(words);
        assert(all == first + parts_of_words(rest_words));
        assert forall|k: int| 0 <= k < all.len() implies part_is_clean(#[trigger] all[k]) by {
            if k < first.len() {
                let piece = split_pieces(w, colon())[k];
                assert forall|m: int| 0 <= m < piece.len() implies !is_white_space(
                    #[trigger] piece[m],
                ) by {
                    assert(w.contains(piece[m]));
                    let t = choose|t: int| 0 <= t < w.len() && w[t] == piece[m];
                    assert(words[0][t] == w[t]);
                }
            } else {
                assert(all[k] == parts_of_words(rest_words)[k - first.len()]);
            }
        }
    }
}

/// Every part that the vertical layout stacks is clean: the time is split
/// wherever it held white space or a colon.
pub proof fn law_time_parts_are_clean(formatted: Seq<char>)
    ensures
        forall|k: int|
            0 <= k < time_display_parts(formatted).len() ==> part_is_clean(
                #[trigger] time_display_parts(formatted)[k],
            ),
{
    lemma_white_space_pieces_lack(formatted);
    lemma_parts_of_words_clean(split_at_white_space(formatted));
}


/// The parts, put back together with a `:` between each two.
pub open spec fn joined_with_colons(parts: Seq<Seq<char>>) -> Seq<char>
    decreases parts.len(),
{
    if parts.len() == 0 {
        seq![]
    } else if parts.len() == 1 {
        parts[0]
    } else {
        parts[0] + seq![':'] + joined_with_colons(parts.drop_first())
    }
}

proof fn lemma_first_white_space_across(a: Seq<char>, c: char, b: Seq<char>, from: int)
    requires
        is_white_space(c),
        0 <= from <= a.len(),
    ensures
        first_white_space_from(a + seq![c] + b, from) == match first_white_space_from(a, from) {
            Some(i) => Some(i),
            None => Some(a.len() as int),
        },
    decreases a.len() - from,
{
    let s = a + seq![c] + b;
    if from == a.len() {
        assert(s[from] == c);
    } else {
        assert(s[from] == a[from]);
        if !is_white_space(a[from]) {
            lemma_first_white_space_across(a, c, b, from + 1);
        }
    }
}

proof fn lemma_split_white_space_across(a: Seq<char>, c: char, b: Seq<char>)
    requires
        is_white_space(c),
    ensures
        split_at_white_space(a + seq![c] + b) == split_at_white_space(a) + split_at_white_space(b),
    decreases a.len(),
{
    let s = a + seq![c] + b;
    lemma_first_white_space_across(a, c, b, 0);
    lemma_first_white_space_from(a, 0);
    match first_white_space_from(a, 0) {
        Some(i) => {
            assert(s.take(i) =~= a.take(i));
            assert(s.skip(i + 1) =~= a.skip(i + 1) + seq![c] + b);
            lemma_split_white_space_across(a.skip(i + 1), c, b);
            assert(split_at_white_space(s) =~= seq![a.take(i)] + (split_at_white_space(a.skip(i + 1))
                + split_at_white_space(b)));
        },
        None => {
            assert(s.take(a.len() as int) =~= a);
            assert(s.skip(a.len() as int + 1) =~= b);
        },
    }
}

proof fn lemma_parts_of_words_add(x: Seq<Seq<char>>, y: Seq<Seq<char>>)
    ensures
        parts_of_words(x + y) == parts_of_words(x) + parts_of_words(y),
    decreases x.len(),
{
    if x.len() == 0 {
        assert(x + y =~= y);
    } else {
        assert((x + y).drop_first() =~= x.drop_first() + y);
        assert((x + y)[0] == x[0]);
        lemma_parts_of_words_add(x.drop_first(), y);
    }
}

proof fn lemma_colon_pieces_joined(w: Seq<char>)
    ensures
        split_pieces(w, colon()).len() >= 1,
        joined_with_colons(split_pieces(w, colon())) == w,
    decreases w.len(),
{
    crate::text::lemma_first_occurrence_from(w, colon(), 0);
    match crate::text::first_occurrence(w, colon()) {
        Some(i) => {
            let rest = w.skip(i + 1);
            lemma_colon_pieces_joined(rest);
            let pieces = split_pieces(w, colon());
            assert(pieces == seq![w.take(i)] + split_pieces(rest, colon()));
            assert(pieces.drop_first() =~= split_pieces(rest, colon()));
            assert(w.subrange(i, i + 1) == colon());
            assert(w =~= w.take(i) + seq![':'] + rest) by {
                assert(w.subrange(i, i + 1)[0] == w[i]);
            }
        },
        None => {},
    }
}

/// Nothing of the time is lost or made up: a formatted time without white
/// space gives parts that, put back together with `:` between them, are the
/// time itself (with the law above, each part holds no `:`).
pub proof fn law_time_parts_rejoin_to_the_word(formatted: Seq<char>)
    requires
        formatted.len() > 0,
        forall|k: int| 0 <= k < formatted.len() ==> !is_white_space(#[trigger] formatted[k]),
    ensures
        joined_with_colons(time_display_parts(formatted)) == formatted,
{
    lemma_first_white_space_from(formatted, 0);
    assert(split_at_white_space(formatted) == seq![formatted]);
    let words = seq![formatted];
    assert(words[0] == formatted);
    assert(words.drop_first() =~= Seq::<Seq<char>>::empty());
    assert(parts_of_words(words.drop_first()) == Seq::<Seq<char>>::empty());
    assert(parts_of_words(words) =~= split_pieces(formatted, colon()));
    lemma_colon_pieces_joined(formatted);
}

/// A time with nothing in it shows no parts.
pub proof fn law_empty_time_has_no_parts()
    ensures
        time_display_parts(Seq::<char>::empty()).len() == 0,
{
    let e = Seq::<char>::empty();
    assert(split_at_white_space(e) == seq![e]);
    let words = seq![e];
    assert(words[0] == e);
    assert(words.drop_first() =~= Seq::<Seq<char>>::empty());
    assert(parts_of_words(words.drop_first()) == Seq::<Seq<char>>::empty());
    assert(parts_of_words(words) =~= Seq::<Seq<char>>::empty());
}

/// White space separates: the parts of a time with a white-space character
/// in it are the parts of what comes before it followed by the parts of what
/// comes after it.
pub proof fn law_time_parts_split_at_white_space(a: Seq<char>, c: char, b: Seq<char>)
    requires
        is_white_space(c),
    ensures
        time_display_parts(a + seq![c] + b) == time_display_parts(a) + time_display_parts(b),
{
    lemma_split_white_space_across(a, c, b);
    lemma_parts_of_words_add(split_at_white_space(a), split_at_white_space(b));
}

} // verus!
