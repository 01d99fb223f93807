//! Time zones and the current time, as the `jiff` crate gives them.
use vstd::prelude::*;

verus! {

/// A time zone of `jiff`, carried through the library as it is.
#[verifier::external_type_specification]
#[verifier::external_body]
pub struct ExTimeZone(jiff::tz::TimeZone);

/// The least offset from UTC that a `jiff` time zone has, in seconds (-25:59:59).
pub open spec fn min_utc_offset() -> int {
    -93599
}

/// The greatest offset from UTC that a `jiff` time zone has, in seconds (25:59:59).
pub open spec fn max_utc_offset() -> int {
    93599
}

/// A time zone found in the time zone database, with the name it was
/// looked up under. Only `lookup_time_zone` makes one.
pub struct NamedZone {
    zone: jiff::tz::TimeZone,
    name: Ghost<Seq<char>>,
}

impl NamedZone {
    /// The time zone found.
    pub closed spec fn zone_value(self) -> jiff::tz::TimeZone {
        self.zone
    }

    /// The name the zone was looked up under.
    pub closed spec fn looked_up_as(self) -> Seq<char> {
        self.name@
    }

    /// The time zone found.
    pub fn time_zone(&self) -> (zone: &jiff::tz::TimeZone)
        ensures
            *zone == self.zone_value(),
    {
        &self.zone
    }
}

/// A name that the time zone database does not know. Only
/// `lookup_time_zone` makes one.
pub struct MissingZone {
    name: Ghost<Seq<char>>,
}

impl MissingZone {
    /// The name that was looked up and not found.
    pub closed spec fn looked_up_as(self) -> Seq<char> {
        self.name@
    }
}

/// Looks a time zone up by its identifier with `jiff::tz::TimeZone::get`,
/// in jiff's default time zone database (on Linux the system's zoneinfo
/// files). Stated: the outcome, found or not, carries the name it was looked
/// up under. Which outcome it is, is not stated: it depends on that database.
#[verifier::external_body]
pub(crate) fn lookup_time_zone(name: &str) -> (found: Result<NamedZone, MissingZone>)
    ensures
        match found {
            Ok(z) => z.looked_up_as() == name@,
            Err(m) => m.looked_up_as() == name@,
        },
{
    match jiff::tz::TimeZone::get(name) {
        Ok(zone) => Ok(NamedZone { zone, name: Ghost(name@) }),
        Err(_) => Err(MissingZone { name: Ghost(name@) }),
    }
}

/// An offset from UTC in seconds, with the name of the time zone it stands
/// for. Made only here: by `utc_offset_now` for a zone found, and by
/// `ZoneOffset::for_missing_zone` for a name the database did not know.
pub struct ZoneOffset {
    seconds: i32,
    zone_name: Ghost<Seq<char>>,
}

impl ZoneOffset {
    /// The offset, in seconds.
    pub closed spec fn offset_secs(self) -> i32 {
        self.seconds
    }

    /// The name of the time zone that the offset stands for.
    pub closed spec fn zone_name(self) -> Seq<char> {
        self.zone_name@
    }

    /// The offset, in seconds.
    pub fn seconds(&self) -> (seconds: i32)
        ensures
            seconds == self.offset_secs(),
    {
        self.seconds
    }

    /// The offset that stands for a name the database does not know: 0.
    pub fn for_missing_zone(missing: &MissingZone) -> (offset: Self)
        ensures
            offset.offset_secs() == 0,
            offset.zone_name() == missing.looked_up_as(),
    {
        ZoneOffset { seconds: 0, zone_name: Ghost(missing.name@) }
    }
}

/// The offset of `zone` from UTC at this moment, in seconds:
/// `zone.to_offset(jiff::Timestamp::now()).seconds()`. Stated: it lies in
/// the range of `jiff::tz::Offset` (`Offset::MIN` to `Offset::MAX`), and it
/// stands for the name the zone was looked up under. Which offset it is
/// depends on the clock.
#[verifier::external_body]
pub(crate) fn utc_offset_now(zone: &NamedZone) -> (offset: ZoneOffset)
    ensures
        min_utc_offset() <= offset.offset_secs() <= max_utc_offset(),
        offset.zone_name() == zone.looked_up_as(),
{
    ZoneOffset {
        seconds: zone.zone.to_offset(jiff::Timestamp::now()).seconds(),
        zone_name: Ghost(zone.name@),
    }
}

/// The UTC time zone, `jiff::tz::TimeZone::UTC`. Nothing is stated of it:
/// a time zone is opaque to the contracts here. Readings taken in it for a
/// world clock are marked as UTC readings by `now_for_missing_zone`.
#[verifier::external_body]
pub(crate) fn utc_zone() -> (zone: jiff::tz::TimeZone) {
    jiff::tz::TimeZone::UTC
}

/// A calendar date, as `jiff::civil::Date` reports it.
#[derive(Clone, Copy, Debug, PartialEq, Eq, Structural)]
pub struct CivilDate {
    pub year: i16,
    pub month: i8,
    pub day: i8,
}

impl CivilDate {
    /// The ranges in which `jiff` reports a date's fields.
    pub open spec fn is_valid(self) -> bool {
        &&& -9999 <= self.year <= 9999
        &&& 1 <= self.month <= 12
        &&& 1 <= self.day <= 31
    }
}

/// A reading of the clock in some time zone: date and time of day to the second.
#[derive(Clone, Copy, Debug, PartialEq, Eq, Structural)]
pub struct LocalDateTime {
    pub date: CivilDate,
    pub hour: i8,
    pub minute: i8,
    pub second: i8,
}

impl LocalDateTime {
    /// The ranges in which `jiff::Zoned` reports its fields.
    pub open spec fn is_valid(self) -> bool {
        &&& self.date.is_valid()
        &&& 0 <= self.hour <= 23
        &&& 0 <= self.minute <= 59
        &&& 0 <= self.second <= 59
    }
}

/// A reading of the clock, with the time zone it was taken in (`None` for
/// the system's time zone) and, for the reading of a world clock, the time
/// zone name of that clock and whether the reading is in UTC because the
/// database did not know the name. Made only in this module.
pub struct ZonedReading {
    time: LocalDateTime,
    zone: Ghost<Option<jiff::tz::TimeZone>>,
    clock_name: Ghost<Option<Seq<char>>>,
    in_utc: Ghost<bool>,
}

impl ZonedReading {
    /// The date and time read.
    pub closed spec fn reading_time(self) -> LocalDateTime {
        self.time
    }

    /// The time zone the reading was taken in; `None` for the system's.
    pub closed spec fn reading_zone(self) -> Option<jiff::tz::TimeZone> {
        self.zone@
    }

    /// For the reading of a world clock, the time zone name of that clock.
    pub closed spec fn read_for(self) -> Option<Seq<char>> {
        self.clock_name@
    }

    /// The reading is in UTC, for a world clock whose name the database did
    /// not know.
    pub closed spec fn read_in_utc(self) -> bool {
        self.in_utc@
    }

    /// The date and time read.
    pub fn time(&self) -> (time: LocalDateTime)
        ensures
            time == self.reading_time(),
    {
        self.time
    }
}

/// The current time for the world clock of a time zone that was found: read
/// in that zone.
pub fn now_for_found_zone(zone: &NamedZone) -> (now: ZonedReading)
    ensures
        now.reading_time().is_valid(),
        now.reading_zone() == Some(zone.zone_value()),
        now.read_for() == Some(zone.looked_up_as()),
        !now.read_in_utc(),
{
    let reading = now_in_zone(&zone.zone);
    ZonedReading {
        time: reading.time,
        zone: reading.zone,
        clock_name: Ghost(Some(zone.name@)),
        in_utc: Ghost(false),
    }
}

/// The current time for the world clock of a name the database did not
/// know: read in UTC (`jiff::tz::TimeZone::UTC`), offset 0, where such a
/// clock is sorted.
pub fn now_for_missing_zone(missing: &MissingZone) -> (now: ZonedReading)
    ensures
        now.reading_time().is_valid(),
        now.read_for() == Some(missing.looked_up_as()),
        now.read_in_utc(),
{
    let utc = utc_zone();
    let reading = now_in_zone(&utc);
    ZonedReading {
        time: reading.time,
        zone: reading.zone,
        clock_name: Ghost(Some(missing.name@)),
        in_utc: Ghost(true),
    }
}

/// The current time in `zone`: `jiff::Zoned::now().with_time_zone(zone)`,
/// read field by field. Stated: each field lies in the range that jiff's
/// documentation gives for it, and the reading is taken in `zone`. Which
/// time it is depends on the clock.
#[verifier::external_body]
pub(crate) fn now_in_zone(zone: &jiff::tz::TimeZone) -> (now: ZonedReading)
    ensures
        now.reading_time().is_valid(),
        now.reading_zone() == Some(*zone),
        now.read_for() is None,
        !now.read_in_utc(),
{
    let z = jiff::Zoned::now().with_time_zone(zone.clone());
    ZonedReading {
        time: LocalDateTime {
            date: CivilDate { year: z.year(), month: z.month(), day: z.day() },
            hour: z.hour(),
            minute: z.minute(),
            second: z.second(),
        },
        zone: Ghost(Some(*zone)),
        clock_name: Ghost(None),
        in_utc: Ghost(false),
    }
}

/// The current time in the system's time zone: `jiff::Zoned::now()`, read
/// field by field. Stated: each field lies in the range that jiff's
/// documentation gives for it, and the reading is taken in the system's zone.
/// Which time it is depends on the clock and on the system's time zone setting.
#[verifier::external_body]
pub(crate) fn now_in_system_zone() -> (now: ZonedReading)
    ensures
        now.reading_time().is_valid(),
        now.reading_zone() is None,
        now.read_for() is None,
        !now.read_in_utc(),
{
    let z = jiff::Zoned::now();
    ZonedReading {
        time: LocalDateTime {
            date: CivilDate { year: z.year(), month: z.month(), day: z.day() },
            hour: z.hour(),
            minute: z.minute(),
            second: z.second(),
        },
        zone: Ghost(None),
        clock_name: Ghost(None),
        in_utc: Ghost(false),
    }
}

} // verus!
