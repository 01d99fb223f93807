//! The world clocks of GNOME Clocks: reading the `world-clocks` setting and
//! ordering the clocks by their current UTC offset.
use vstd::prelude::*;
use crate::zones::{
    lookup_time_zone, max_utc_offset, min_utc_offset, now_for_found_zone, now_for_missing_zone,
    utc_offset_now, LocalDateTime, MissingZone, ZoneOffset, ZonedReading,
};
use crate::text::{
    lemma_before_first_lacks, lemma_first_split_parts, lemma_lack_passes_to_parts,
    after_first, before_first, chars_of, find_in_window, split_pieces, split_window, string_of_window,
    string_views,
};

verus! {

/// Opens an entry of the setting: `('`.
pub open spec fn entry_marker() -> Seq<char> {
    seq!['(', '\'']
}

/// Ends the city name: `'`.
pub open spec fn quote_mark() -> Seq<char> {
    seq!['\'']
}

/// Opens the list of coordinate pairs: `[(`.
pub open spec fn coordinates_marker() -> Seq<char> {
    seq!['[', '(']
}

/// Closes a coordinate pair: `)`.
pub open spec fn closing_paren() -> Seq<char> {
    seq![')']
}

/// Separates latitude and longitude: `,`.
pub open spec fn comma() -> Seq<char> {
    seq![',']
}

/// What one entry (the text after a `('`) yields: the city name, which runs
/// to the next `'`, and the text of the first coordinate pair in radians,
/// `[(lat, lon` up to the `)`; the latitude is the part before the first
/// comma and the longitude the part between the first and a second comma.
/// An entry without `[(` or without a comma in its pair yields nothing.
pub open spec fn clock_fields(entry: Seq<char>) -> Option<(Seq<char>, Seq<char>, Seq<char>)> {
    let city = before_first(entry, quote_mark());
    match after_first(entry, coordinates_marker()) {
        None => None,
        Some(rest) => {
            let coords = before_first(before_first(rest, coordinates_marker()), closing_paren());
            match after_first(coords, comma()) {
                None => None,
                Some(tail) => Some((city, before_first(coords, comma()), before_first(tail, comma()))),
            }
        },
    }
}

/// The fields of each entry that yields any, in order.
pub open spec fn fields_of_entries(entries: Seq<Seq<char>>) -> Seq<(Seq<char>, Seq<char>, Seq<char>)>
    decreases entries.len(),
{
    if entries.len() == 0 {
        seq![]
    } else {
        let rest = fields_of_entries(entries.drop_first());
        match clock_fields(entries[0]) {
            Some(f) => seq![f] + rest,
            None => rest,
        }
    }
}

/// The clocks that the text of the setting describes: every piece after the
/// first when the text is split at `('`, kept where it yields fields.
pub open spec fn world_clock_fields(text: Seq<char>) -> Seq<(Seq<char>, Seq<char>, Seq<char>)> {
    fields_of_entries(split_pieces(text, entry_marker()).drop_first())
}

/// One clock of the setting, with its coordinates still as text (radians).
#[derive(Debug, PartialEq, Eq)]
pub struct ClockCoordinates {
    pub city: String,
    pub latitude: String,
    pub longitude: String,
}

impl View for ClockCoordinates {
    type V = (Seq<char>, Seq<char>, Seq<char>);

    open spec fn view(&self) -> (Seq<char>, Seq<char>, Seq<char>) {
        (self.city@, self.latitude@, self.longitude@)
    }
}

/// The views of a sequence of clocks.
pub open spec fn clock_views(v: Seq<ClockCoordinates>) -> Seq<(Seq<char>, Seq<char>, Seq<char>)> {
    v.map_values(|c: ClockCoordinates| c@)
}

fn pattern_of(a: char, b: Option<char>) -> (p: Vec<char>)
    ensures
        p@ == match b {
            Some(b) => seq![a, b],
            None => seq![a],
        },
{
    let mut p: Vec<char> = Vec::new();
    p.push(a);
    if let Some(b) = b {
        p.push(b);
    }
    assert(p@ =~= match b {
        Some(b) => seq![a, b],
        None => seq![a],
    });
    p
}

/// The fields of one entry of the setting, where it has them.
pub fn clock_of_entry(entry: &str) -> (r: Option<ClockCoordinates>)
    ensures
        match r {
            Some(c) => clock_fields(entry@) == Some(c@),
            None => clock_fields(entry@) is None,
        },
{
    let e = chars_of(entry);
    let m = e.len();
    let quote = pattern_of('\'', None);
    let coords_open = pattern_of('[', Some('('));
    let close = pattern_of(')', None);
    let sep = pattern_of(',', None);
    assert(e@.subrange(0, m as int) =~= entry@);

    let city_end = match find_in_window(&e, 0, m, &quote) {
        Some(j) => j,
        None => m,
    };
    let city = string_of_window(&e, 0, city_end);
    let a = match find_in_window(&e, 0, m, &coords_open) {
        Some(k) => k + 2,
        None => return None,
    };
    let b = match find_in_window(&e, a, m, &coords_open) {
        Some(j) => j,
        None => m,
    };
    let c = match find_in_window(&e, a, b, &close) {
        Some(j) => j,
        None => b,
    };
    assert(e@.subrange(a as int, m as int).subrange(0, b - a) =~= e@.subrange(a as int, b as int));
    let x = match find_in_window(&e, a, c, &sep) {
        Some(x) => x,
        None => return None,
    };
    let d = match find_in_window(&e, x + 1, c, &sep) {
        Some(y) => y,
        None => c,
    };
    let latitude = string_of_window(&e, a, x);
    let longitude = string_of_window(&e, x + 1, d);
    Some(ClockCoordinates { city, latitude, longitude })
}


/// The clocks that the text of the `world-clocks` setting describes, with
/// their coordinates as text (the first part of `parse_gnome_clocks`).
pub fn extract_clock_coordinates(text: &str) -> (clocks: Vec<ClockCoordinates>)
    ensures
        clock_views(clocks@) == world_clock_fields(text@),
{
    let v = chars_of(text);
    let marker = pattern_of('(', Some('\''));
    assert(v@.subrange(0, v@.len() as int) =~= text@);
    let pieces = split_window(&v, 0, v.len(), &marker);
    let ghost entries = string_views(pieces@);
    let mut clocks: Vec<ClockCoordinates> = Vec::new();
    if pieces.len() == 0 {
        return clocks;
    }
    let mut i: usize = 1;
    while i < pieces.len()
        invariant
            1 <= i <= pieces@.len(),
            entries == string_views(pieces@),
            entries == split_pieces(text@, entry_marker()),
            clock_views(clocks@) + fields_of_entries(entries.skip(i as int)) == fields_of_entries(
                entries.drop_first(),
            ),
        decreases pieces@.len() - i,
    {
        let ghost before = clocks@;
        assert(entries.skip(i as int)[0] == pieces@[i as int]@);
        assert(entries.skip(i as int).drop_first() =~= entries.skip(i + 1));
        match clock_of_entry(pieces[i].as_str()) {
            Some(c) => {
                clocks.push(c);
                assert(clock_views(clocks@) =~= clock_views(before) + seq![c@]);
            },
            None => {},
        }
        i = i + 1;
    }
    assert(entries.skip(i as int) =~= Seq::<Seq<char>>::empty());
    assert(entries.skip(1) =~= entries.drop_first());
    clocks
}


/// `p` lists each position `0..n` exactly once.
pub open spec fn is_permutation(p: Seq<int>, n: int) -> bool {
    &&& p.len() == n
    &&& forall|i: int| 0 <= i < n ==> 0 <= #[trigger] p[i] < n
    &&& forall|i: int, j: int| 0 <= i < j < n ==> #[trigger] p[i] != #[trigger] p[j]
}

/// Position `a` comes before position `b` when ordering by `keys` and, among
/// equal keys, by position: the order of a stable sort.
pub open spec fn key_precedes(keys: Seq<i32>, a: int, b: int) -> bool {
    keys[a] < keys[b] || (keys[a] == keys[b] && a < b)
}

/// `result` is `input` rearranged by `p` into the order of a stable sort by `keys`.
pub open spec fn arranged_by<T>(result: Seq<T>, input: Seq<T>, keys: Seq<i32>, p: Seq<int>) -> bool {
    &&& is_permutation(p, input.len() as int)
    &&& result.len() == input.len()
    &&& forall|i: int| 0 <= i < result.len() ==> result[i] == input[#[trigger] p[i]]
    &&& forall|i: int, j: int|
        0 <= i < j < result.len() ==> key_precedes(keys, #[trigger] p[i], #[trigger] p[j])
}

/// `result` is what a stable sort of `input` by `keys` gives: ordered by key,
/// with items of equal key in their original order.
pub open spec fn is_stable_sort_of<T>(result: Seq<T>, input: Seq<T>, keys: Seq<i32>) -> bool {
    exists|p: Seq<int>| #[trigger] arranged_by(result, input, keys, p)
}

/// The positions of `order`, as integers.
pub open spec fn positions(order: Seq<usize>) -> Seq<int> {
    order.map_values(|x: usize| x as int)
}

/// The positions `0..keys.len()` in the order of a stable sort by `keys`.
fn stable_order(keys: &Vec<i32>) -> (order: Vec<usize>)
    ensures
        is_permutation(positions(order@), keys@.len() as int),
        forall|i: int, j: int|
            0 <= i < j < order@.len() ==> key_precedes(
                keys@,
                #[trigger] order@[i] as int,
                #[trigger] order@[j] as int,
            ),
{
    let n = keys.len();
    let mut order: Vec<usize> = Vec::new();
    let mut i: usize = 0;
    while i < n
        invariant
            n == keys@.len(),
            i <= n,
            order@.len() == i,
            forall|a: int| 0 <= a < i ==> #[trigger] order@[a] < i,
            forall|a: int, b: int| 0 <= a < b < i ==> #[trigger] order@[a] != #[trigger] order@[b],
            forall|a: int, b: int|
                0 <= a < b < i ==> key_precedes(
                    keys@,
                    #[trigger] order@[a] as int,
                    #[trigger] order@[b] as int,
                ),
        decreases n - i,
    {
        let mut pos: usize = 0;
        while pos < order.len() && keys[order[pos]] <= keys[i]
            invariant
                n == keys@.len(),
                i < n,
                order@.len() == i,
                pos <= i,
                forall|a: int| 0 <= a < i ==> #[trigger] order@[a] < i,
                forall|a: int| 0 <= a < pos ==> keys@[#[trigger] order@[a] as int] <= keys@[i as int],
            decreases i - pos,
        {
            pos = pos + 1;
        }
        let ghost old_order = order@;
        proof {
            assert forall|b: int| pos <= b < i implies keys@[i as int] < keys@[
                #[trigger] old_order[b] as int
            ] by {
                if b > pos {
                    assert(key_precedes(keys@, old_order[pos as int] as int, old_order[b] as int));
                }
            }
        }
        order.insert(pos, i);
        proof {
            assert(order@ =~= old_order.insert(pos as int, i));
            assert forall|a: int, b: int| 0 <= a < b < i + 1 implies key_precedes(
                keys@,
                #[trigger] order@[a] as int,
                #[trigger] order@[b] as int,
            ) && order@[a] != order@[b] by {
                if b < pos {
                    assert(order@[a] == old_order[a] && order@[b] == old_order[b]);
                } else if b == pos {
                    assert(order@[a] == old_order[a]);
                } else if a < pos {
                    assert(order@[a] == old_order[a] && order@[b] == old_order[b - 1]);
                } else if a == pos {
                    assert(order@[b] == old_order[b - 1]);
                } else {
                    assert(order@[a] == old_order[a - 1] && order@[b] == old_order[b - 1]);
                }
            }
            assert forall|a: int| 0 <= a < i + 1 implies #[trigger] order@[a] < i + 1 by {
                if a < pos {
                    assert(order@[a] == old_order[a]);
                } else if a > pos {
                    assert(order@[a] == old_order[a - 1]);
                }
            }
        }
        i = i + 1;
    }
    proof {
        let p = positions(order@);
        assert forall|a: int, b: int| 0 <= a < b < n implies #[trigger] p[a] != #[trigger] p[b] by {
            assert(order@[a] != order@[b]);
        }
        assert forall|a: int| 0 <= a < n implies 0 <= #[trigger] p[a] < n by {
            assert(order@[a] < n);
        }
    }
    order
}

/// `clocks` ordered by `offsets` (the offset of each clock, at the same
/// position), keeping clocks of equal offset in their order: what
/// `sort_by_key` does with those keys.
pub fn sort_by_offsets(clocks: &Vec<(String, String)>, offsets: &Vec<i32>) -> (sorted: Vec<(String, String)>)
    requires
        offsets@.len() == clocks@.len(),
    ensures
        is_stable_sort_of(sorted@, clocks@, offsets@),
{
    let order = stable_order(offsets);
    let n = order.len();
    let mut sorted: Vec<(String, String)> = Vec::new();
    let mut a: usize = 0;
    while a < n
        invariant
            n == order@.len(),
            n == clocks@.len(),
            a <= n,
            is_permutation(positions(order@), n as int),
            sorted@.len() == a,
            forall|k: int| 0 <= k < a ==> sorted@[k] == clocks@[#[trigger] positions(order@)[k]],
        decreases n - a,
    {
        let k = order[a];
        proof {
            assert(positions(order@)[a as int] == k as int);
        }
        let item = (clocks[k].0.clone(), clocks[k].1.clone());
        sorted.push(item);
        a = a + 1;
    }
    let ghost p = positions(order@);
    assert forall|i: int, j: int| 0 <= i < j < sorted@.len() implies key_precedes(
        offsets@,
        #[trigger] p[i],
        #[trigger] p[j],
    ) by {
        assert(key_precedes(offsets@, order@[i] as int, order@[j] as int));
    }
    assert(arranged_by(sorted@, clocks@, offsets@, p));
    sorted
}


/// The current UTC offset of the time zone named `tz_name`, in seconds, or 0
/// where the name is not found: the sort key of `get_gnome_clocks`. The
/// offset stands for `tz_name`: it is the offset of the zone found under that
/// name, or the 0 of a lookup of that name that found none (only a lookup
/// makes the token for that). Which of the two, and which offset, rests on
/// the time zone database and the clock.
pub fn clock_utc_offset(tz_name: &str) -> (offset: ZoneOffset)
    ensures
        offset.zone_name() == tz_name@,
        min_utc_offset() <= offset.offset_secs() <= max_utc_offset(),
{
    let found = match lookup_time_zone(tz_name) {
        Ok(zone) => Ok(utc_offset_now(&zone)),
        Err(missing) => Err(missing),
    };
    offset_or_zero(found, tz_name)
}

/// The sort key made of an offset lookup's outcome for `tz_name`: the offset
/// where the zone was found, 0 where it was not.
pub fn offset_or_zero(found: Result<ZoneOffset, MissingZone>, tz_name: &str) -> (offset: ZoneOffset)
    requires
        match found {
            Ok(o) => o.zone_name() == tz_name@ && min_utc_offset() <= o.offset_secs()
                <= max_utc_offset(),
            Err(m) => m.looked_up_as() == tz_name@,
        },
    ensures
        offset.zone_name() == tz_name@,
        min_utc_offset() <= offset.offset_secs() <= max_utc_offset(),
        match found {
            Ok(o) => offset == o,
            Err(_) => offset.offset_secs() == 0,
        },
{
    match found {
        Ok(o) => o,
        Err(missing) => ZoneOffset::for_missing_zone(&missing),
    }
}

/// The offsets in seconds of a sequence of offsets.
pub open spec fn offset_seconds(keys: Seq<ZoneOffset>) -> Seq<i32> {
    keys.map_values(|k: ZoneOffset| k.offset_secs())
}

/// `keys` holds one offset for each clock, standing for that clock's time
/// zone name, in range.
pub open spec fn keys_of_clocks(keys: Seq<ZoneOffset>, clocks: Seq<(String, String)>) -> bool {
    &&& keys.len() == clocks.len()
    &&& forall|i: int|
        0 <= i < keys.len() ==> (#[trigger] keys[i]).zone_name() == clocks[i].1@ && min_utc_offset()
            <= keys[i].offset_secs() <= max_utc_offset()
}

/// `clocks` (pairs of city and time zone name) ordered by the current UTC
/// offset of each clock's time zone, clocks of equal offset kept in their
/// order, together with the offsets used, one per clock. Each clock's offset
/// is taken once, at the time of the call, for its own time zone name; a name
/// that the time zone database does not know counts as offset 0.
pub fn sort_clocks_by_offset(clocks: &Vec<(String, String)>) -> (result: (
    Vec<(String, String)>,
    Vec<ZoneOffset>,
))
    ensures
        keys_of_clocks(result.1@, clocks@),
        is_stable_sort_of(result.0@, clocks@, offset_seconds(result.1@)),
{
    let mut keys: Vec<ZoneOffset> = Vec::new();
    let mut offsets: Vec<i32> = Vec::new();
    let mut i: usize = 0;
    while i < clocks.len()
        invariant
            i <= clocks@.len(),
            keys@.len() == i,
            offsets@ == offset_seconds(keys@),
            forall|k: int|
                0 <= k < i ==> (#[trigger] keys@[k]).zone_name() == clocks@[k].1@ && min_utc_offset()
                    <= keys@[k].offset_secs() <= max_utc_offset(),
        decreases clocks@.len() - i,
    {
        let key = clock_utc_offset(clocks[i].1.as_str());
        offsets.push(key.seconds());
        keys.push(key);
        assert(offsets@ =~= offset_seconds(keys@));
        i = i + 1;
    }
    let sorted = sort_by_offsets(clocks, &offsets);
    (sorted, keys)
}

/// The decimal digit `d` (0 to 9).
pub open spec fn digit_char(d: int) -> char {
    seq!['0', '1', '2', '3', '4', '5', '6', '7', '8', '9'][d]
}

/// `v` (0 to 99) in two decimal digits.
pub open spec fn two_digits(v: int) -> Seq<char> {
    seq![digit_char(v / 10), digit_char(v % 10)]
}

/// The label of a world clock in the panel: the city, a space and the time
/// of day as `HH:MM`, as in `Tokyo 18:43`.
pub open spec fn clock_label_text(city: Seq<char>, hour: int, minute: int) -> Seq<char> {
    city + seq![' '] + two_digits(hour) + seq![':'] + two_digits(minute)
}

fn push_two_digits(v: &mut Vec<char>, n: i8)
    requires
        0 <= n <= 99,
    ensures
        final(v)@ == old(v)@ + two_digits(n as int),
{
    let digits = ['0', '1', '2', '3', '4', '5', '6', '7', '8', '9'];
    let tens = (n / 10) as usize;
    let ones = (n % 10) as usize;
    v.push(digits[tens]);
    v.push(digits[ones]);
    assert(digits@ =~= seq!['0', '1', '2', '3', '4', '5', '6', '7', '8', '9']);
    assert(final(v)@ =~= old(v)@ + two_digits(n as int));
}
/// The number that a decimal digit character stands for.
pub open spec fn digit_value(c: char) -> int {
    c as int - '0' as int
}

proof fn lemma_digit_char(d: int)
    requires
        0 <= d <= 9,
    ensures
        '0' as int <= digit_char(d) as int <= '9' as int,
        digit_value(digit_char(d)) == d,
{
    let digits = seq!['0', '1', '2', '3', '4', '5', '6', '7', '8', '9'];
    assert(digit_char(d) == digits[d]);
    if d == 0 {
    } else if d == 1 {
    } else if d == 2 {
    } else if d == 3 {
    } else if d == 4 {
    } else if d == 5 {
    } else if d == 6 {
    } else if d == 7 {
    } else if d == 8 {
    } else {
    }
}

/// A clock's label is its whole city name, whatever its length, then a
/// space, then the hour and the minute in two decimal digits each with a `:`
/// between them: `Los Angeles 18:43`.
pub proof fn law_label_is_city_then_time(city: Seq<char>, hour: int, minute: int)
    requires
        0 <= hour <= 23,
        0 <= minute <= 59,
    ensures
        ({
            let label = clock_label_text(city, hour, minute);
            let n = city.len() as int;
            &&& label.len() == n + 6
            &&& label.take(n) == city
            &&& label[n] == ' '
            &&& label[n + 3] == ':'
            &&& forall|k: int|
                n < k < n + 6 && k != n + 3 ==> '0' as int <= #[trigger] label[k] as int <= '9' as int
            &&& 10 * digit_value(label[n + 1]) + digit_value(label[n + 2]) == hour
            &&& 10 * digit_value(label[n + 4]) + digit_value(label[n + 5]) == minute
        }),
{
    let label = clock_label_text(city, hour, minute);
    let n = city.len() as int;
    lemma_digit_char(hour / 10);
    lemma_digit_char(hour % 10);
    lemma_digit_char(minute / 10);
    lemma_digit_char(minute % 10);
    assert(label.take(n) =~= city);
    assert(label[n + 1] == digit_char(hour / 10));
    assert(label[n + 2] == digit_char(hour % 10));
    assert(label[n + 4] == digit_char(minute / 10));
    assert(label[n + 5] == digit_char(minute % 10));
}


/// The label of the clock of `city` showing the time `time`.
pub fn clock_label(city: &str, time: LocalDateTime) -> (label: String)
    requires
        time.is_valid(),
    ensures
        label@ == clock_label_text(city@, time.hour as int, time.minute as int),
{
    let mut v = chars_of(city);
    v.push(' ');
    push_two_digits(&mut v, time.hour);
    v.push(':');
    push_two_digits(&mut v, time.minute);
    let n = v.len();
    assert(v@.subrange(0, n as int) =~= v@);
    string_of_window(&v, 0, n)
}

/// `reading` is the reading of the world clock whose time zone name is
/// `name`: taken in the zone found under that name, or in UTC where the
/// database did not know it.
pub open spec fn reads_clock(reading: ZonedReading, name: Seq<char>) -> bool {
    &&& reading.read_for() == Some(name)
    &&& reading.reading_time().is_valid()
}

/// The labels of the world clocks (pairs of city and time zone name), in
/// their order, with the readings of the clock they show: each city with the
/// current time in its time zone, or in UTC (offset 0, where it is sorted)
/// where the time zone database does not know the name.
pub fn world_clock_labels(clocks: &Vec<(String, String)>) -> (result: (Vec<String>, Vec<ZonedReading>))
    ensures
        result.0@.len() == clocks@.len(),
        result.1@.len() == clocks@.len(),
        forall|i: int|
            0 <= i < clocks@.len() ==> {
                &&& reads_clock(#[trigger] result.1@[i], clocks@[i].1@)
                &&& result.0@[i]@ == clock_label_text(
                    clocks@[i].0@,
                    result.1@[i].reading_time().hour as int,
                    result.1@[i].reading_time().minute as int,
                )
            },
{
    let mut labels: Vec<String> = Vec::new();
    let mut readings: Vec<ZonedReading> = Vec::new();
    let mut i: usize = 0;
    while i < clocks.len()
        invariant
            i <= clocks@.len(),
            labels@.len() == i,
            readings@.len() == i,
            forall|k: int|
                0 <= k < i ==> {
                    &&& reads_clock(#[trigger] readings@[k], clocks@[k].1@)
                    &&& labels@[k]@ == clock_label_text(
                        clocks@[k].0@,
                        readings@[k].reading_time().hour as int,
                        readings@[k].reading_time().minute as int,
                    )
                },
        decreases clocks@.len() - i,
    {
        let reading = match lookup_time_zone(clocks[i].1.as_str()) {
            Ok(zone) => now_for_found_zone(&zone),
            Err(missing) => now_for_missing_zone(&missing),
        };
        let time = reading.time();
        let label = clock_label(clocks[i].0.as_str(), time);
        labels.push(label);
        readings.push(reading);
        i = i + 1;
    }
    (labels, readings)
}

/// The minute (since the Unix epoch) at which the list of world clocks is
/// read again at a tick at `now_secs`, where the list was last read in
/// `last_minute`: once per minute. `None` where it was already read in this
/// minute.
pub open spec fn refresh_due(last_minute: Option<u64>, now_secs: u64) -> Option<u64> {
    if last_minute == Some(now_secs / 60) {
        None
    } else {
        Some(now_secs / 60)
    }
}

/// Whether the list of world clocks is read again at a tick at `now_secs`,
/// and the minute to record for it: once per minute, so that clocks added in
/// GNOME Clocks appear within a minute.
pub fn clock_list_refresh(last_minute: Option<u64>, now_secs: u64) -> (due: Option<u64>)
    ensures
        due == refresh_due(last_minute, now_secs),
{
    let minute = now_secs / 60;
    match last_minute {
        Some(m) => if m == minute {
            None
        } else {
            Some(minute)
        },
        None => Some(minute),
    }
}

/// A permutation of `0..n` takes every value in `0..n`.
pub proof fn lemma_permutation_onto(p: Seq<int>, n: int)
    requires
        is_permutation(p, n),
    ensures
        forall|k: int| 0 <= k < n ==> #[trigger] p.contains(k),
{
    broadcast use vstd::set::group_set_axioms, vstd::seq_lib::seq_to_set_is_finite;

    assert(p.no_duplicates()) by {
        assert forall|i: int, j: int| 0 <= i < p.len() && 0 <= j < p.len() && i != j implies p[i]
            != p[j] by {
            if i < j {
                assert(p[i] != p[j]);
            } else {
                assert(p[j] != p[i]);
            }
        }
    }
    p.unique_seq_to_set();
    let range = vstd::set_lib::set_int_range(0, n);
    vstd::set_lib::lemma_int_range(0, n);
    assert(p.to_set().subset_of(range)) by {
        assert forall|a: int| p.to_set().contains(a) implies range.contains(a) by {
            let i = choose|i: int| 0 <= i < p.len() && p[i] == a;
            assert(0 <= p[i] < n);
        }
    }
    vstd::set_lib::lemma_subset_equality(p.to_set(), range);
    assert forall|k: int| 0 <= k < n implies #[trigger] p.contains(k) by {
        assert(range.contains(k));
        assert(p.to_set().contains(k));
    }
}

/// `result` is `input` rearranged by the permutation `p`.
pub open spec fn rearranged_by<T>(result: Seq<T>, input: Seq<T>, p: Seq<int>) -> bool {
    &&& is_permutation(p, input.len() as int)
    &&& result.len() == input.len()
    &&& forall|i: int| 0 <= i < result.len() ==> result[i] == input[#[trigger] p[i]]
}

/// A rearrangement holds each item as often as the input does.
proof fn lemma_rearrangement_multiset<T>(result: Seq<T>, input: Seq<T>, p: Seq<int>)
    requires
        rearranged_by(result, input, p),
    ensures
        result.to_multiset() == input.to_multiset(),
    decreases input.len(),
{
    broadcast use vstd::seq_lib::group_to_multiset_ensures;

    let n = input.len() as int;
    if n == 0 {
        assert(result =~= Seq::<T>::empty());
        assert(input =~= Seq::<T>::empty());
    } else {
        let j = p[n - 1];
        let x = result[n - 1];
        let shorter = result.drop_last();
        let rest = input.remove(j);
        let q = Seq::new((n - 1) as nat, |i: int| if p[i] < j { p[i] } else { p[i] - 1 });
        assert(is_permutation(q, n - 1)) by {
            assert forall|i: int| 0 <= i < n - 1 implies 0 <= #[trigger] q[i] < n - 1 by {
                assert(p[i] != p[n - 1]);
            }
            assert forall|i: int, k: int| 0 <= i < k < n - 1 implies #[trigger] q[i] != #[trigger] q[k] by {
                assert(p[i] != p[k]);
                assert(p[i] != j && p[k] != j);
            }
        }
        assert forall|i: int| 0 <= i < n - 1 implies shorter[i] == rest[#[trigger] q[i]] by {
            assert(p[i] != p[n - 1]);
            assert(shorter[i] == input[p[i]]);
        }
        lemma_rearrangement_multiset(shorter, rest, q);
        assert(result =~= shorter.push(x));
        assert(x == input[j]);
        assert(input.to_multiset().count(x) > 0) by {
            assert(input.contains(x));
        }
        assert(input.to_multiset() =~= rest.to_multiset().insert(x));
    }
}

/// Sorting by offset keeps every clock: the result holds each clock as
/// often as the input does, so it is as long, each clock of the input is in
/// it, and it holds no clock that the input does not.
pub proof fn law_sort_keeps_every_clock<T>(sorted: Seq<T>, clocks: Seq<T>, offsets: Seq<i32>)
    requires
        is_stable_sort_of(sorted, clocks, offsets),
    ensures
        sorted.len() == clocks.len(),
        sorted.to_multiset() == clocks.to_multiset(),
        forall|i: int| 0 <= i < clocks.len() ==> sorted.contains(#[trigger] clocks[i]),
        forall|j: int| 0 <= j < sorted.len() ==> clocks.contains(#[trigger] sorted[j]),
{
    let p = choose|p: Seq<int>| arranged_by(sorted, clocks, offsets, p);
    lemma_permutation_onto(p, clocks.len() as int);
    lemma_rearrangement_multiset(sorted, clocks, p);
    assert forall|i: int| 0 <= i < clocks.len() implies sorted.contains(#[trigger] clocks[i]) by {
        assert(p.contains(i));
        let j = choose|j: int| 0 <= j < p.len() && #[trigger] p[j] == i;
        assert(sorted[j] == clocks[p[j]]);
    }
    assert forall|j: int| 0 <= j < sorted.len() implies clocks.contains(#[trigger] sorted[j]) by {
        assert(sorted[j] == clocks[p[j]]);
        assert(0 <= p[j] < clocks.len());
    }
}

/// Clocks sorted by offset ascend by offset: the offset of a clock is never
/// greater than that of a clock after it, and clocks of equal offset keep
/// their order.
pub proof fn law_sorted_clocks_ascend<T>(sorted: Seq<T>, clocks: Seq<T>, offsets: Seq<i32>)
    requires
        is_stable_sort_of(sorted, clocks, offsets),
    ensures
        exists|p: Seq<int>|
            {
                &&& is_permutation(p, clocks.len() as int)
                &&& forall|i: int| 0 <= i < sorted.len() ==> sorted[i] == clocks[#[trigger] p[i]]
                &&& forall|i: int, j: int|
                    0 <= i < j < sorted.len() ==> offsets[#[trigger] p[i]] <= offsets[#[trigger] p[j]]
                &&& forall|i: int, j: int|
                    0 <= i < j < sorted.len() && offsets[#[trigger] p[i]] == offsets[#[trigger] p[j]]
                        ==> p[i] < p[j]
            },
{
    let p = choose|p: Seq<int>| arranged_by(sorted, clocks, offsets, p);
    assert forall|i: int, j: int| 0 <= i < j < sorted.len() implies offsets[#[trigger] p[i]]
        <= offsets[#[trigger] p[j]] by {
        assert(key_precedes(offsets, p[i], p[j]));
    }
    assert forall|i: int, j: int|
        0 <= i < j < sorted.len() && offsets[#[trigger] p[i]] == offsets[#[trigger] p[j]] implies p[i]
        < p[j] by {
        assert(key_precedes(offsets, p[i], p[j]));
    }
}

/// The positions that come before `x` in the order of a stable sort by `keys`.
pub open spec fn predecessors(keys: Seq<i32>, n: int, x: int) -> Set<int> {
    Set::new(|y: int| 0 <= y < n && key_precedes(keys, y, x))
}

/// In an arrangement, the positions before the `i`-th are exactly its predecessors.
proof fn lemma_predecessors_are_prefix<T>(
    result: Seq<T>,
    input: Seq<T>,
    keys: Seq<i32>,
    p: Seq<int>,
    i: int,
)
    requires
        arranged_by(result, input, keys, p),
        0 <= i < input.len(),
    ensures
        predecessors(keys, input.len() as int, p[i]).len() == i,
{
    broadcast use vstd::set::group_set_axioms, vstd::seq_lib::seq_to_set_is_finite;

    let n = input.len() as int;
    lemma_permutation_onto(p, n);
    let prefix = p.take(i);
    assert(prefix.to_set() =~= predecessors(keys, n, p[i])) by {
        assert forall|y: int| prefix.to_set().contains(y) implies predecessors(
            keys,
            n,
            p[i],
        ).contains(y) by {
            let a = choose|a: int| 0 <= a < prefix.len() && prefix[a] == y;
            assert(key_precedes(keys, p[a], p[i]));
            assert(0 <= p[a] < n);
        }
        assert forall|y: int| predecessors(keys, n, p[i]).contains(y) implies prefix.to_set().contains(
            y,
        ) by {
            assert(p.contains(y));
            let b = choose|b: int| 0 <= b < p.len() && #[trigger] p[b] == y;
            if b > i {
                assert(key_precedes(keys, p[i], p[b]));
            }
            assert(b < i);
            assert(prefix[b] == y);
        }
    }
    assert(prefix.no_duplicates()) by {
        assert forall|a: int, b: int| 0 <= a < prefix.len() && 0 <= b < prefix.len() && a != b implies prefix[a]
            != prefix[b] by {
            if a < b {
                assert(p[a] != p[b]);
            } else {
                assert(p[b] != p[a]);
            }
        }
    }
    prefix.unique_seq_to_set();
}

/// A stable sort by given offsets has one outcome: any two results are equal.
pub proof fn law_stable_sort_is_unique<T>(
    first: Seq<T>,
    second: Seq<T>,
    clocks: Seq<T>,
    offsets: Seq<i32>,
)
    requires
        is_stable_sort_of(first, clocks, offsets),
        is_stable_sort_of(second, clocks, offsets),
    ensures
        first == second,
{
    let p = choose|p: Seq<int>| arranged_by(first, clocks, offsets, p);
    let q = choose|q: Seq<int>| arranged_by(second, clocks, offsets, q);
    let n = clocks.len() as int;
    lemma_permutation_onto(q, n);
    assert forall|i: int| 0 <= i < n implies p[i] == q[i] by {
        assert(0 <= p[i] < n);
        assert(q.contains(p[i]));
        let j = choose|j: int| 0 <= j < q.len() && #[trigger] q[j] == p[i];
        lemma_predecessors_are_prefix(first, clocks, offsets, p, i);
        lemma_predecessors_are_prefix(second, clocks, offsets, q, j);
    }
    assert(first =~= second) by {
        assert forall|i: int| 0 <= i < first.len() implies first[i] == second[i] by {
            assert(first[i] == clocks[p[i]]);
            assert(second[i] == clocks[q[i]]);
        }
    }
}


/// The fields of one entry are clean: the city holds no `'`, and neither
/// coordinate holds a `,` or a `)`.
pub open spec fn fields_are_clean(f: (Seq<char>, Seq<char>, Seq<char>)) -> bool {
    &&& !f.0.contains('\'')
    &&& !f.1.contains(',')
    &&& !f.1.contains(')')
    &&& !f.2.contains(',')
    &&& !f.2.contains(')')
}

proof fn lemma_entry_fields_clean(entry: Seq<char>)
    ensures
        clock_fields(entry) matches Some(f) ==> fields_are_clean(f),
{
    lemma_before_first_lacks(entry, '\'');
    if let Some(rest) = after_first(entry, coordinates_marker()) {
        let coords = before_first(before_first(rest, coordinates_marker()), closing_paren());
        lemma_before_first_lacks(before_first(rest, coordinates_marker()), ')');
        lemma_before_first_lacks(coords, ',');
        lemma_first_split_parts(coords, comma());
        let lat = before_first(coords, comma());
        lemma_lack_passes_to_parts(coords, ')', lat.len() as int);
        if let Some(tail) = after_first(coords, comma()) {
            lemma_before_first_lacks(tail, ',');
            lemma_lack_passes_to_parts(coords, ')', coords.len() - tail.len());
            lemma_first_split_parts(tail, comma());
            let lon = before_first(tail, comma());
            lemma_lack_passes_to_parts(tail, ')', lon.len() as int);
        }
    }
}

proof fn lemma_fields_of_entries_clean(entries: Seq<Seq<char>>)
    ensures
        forall|k: int|
            0 <= k < fields_of_entries(entries).len() ==> fields_are_clean(
                #[trigger] fields_of_entries(entries)[k],
            ),
    decreases entries.len(),
{
    if entries.len() > 0 {
        lemma_entry_fields_clean(entries[0]);
        lemma_fields_of_entries_clean(entries.drop_first());
        let rest = fields_of_entries(entries.drop_first());
        let all = fields_of_entries(entries);
        assert forall|k: int| 0 <= k < all.len() implies fields_are_clean(#[trigger] all[k]) by {
            if clock_fields(entries[0]) is Some && k > 0 {
                assert(all[k] == rest[k - 1]);
            }
        }
    }
}

/// Every clock read from the setting is clean: its city name holds no quote
/// mark, and its latitude and longitude texts hold no comma and no closing
/// parenthesis.
pub proof fn law_clock_fields_are_clean(text: Seq<char>)
    ensures
        forall|k: int|
            0 <= k < world_clock_fields(text).len() ==> fields_are_clean(
                #[trigger] world_clock_fields(text)[k],
            ),
{
    lemma_fields_of_entries_clean(split_pieces(text, entry_marker()).drop_first());
}


/// Clocks already in order of their offsets stay as they are: the only
/// result of sorting them is the input itself.
pub proof fn law_sorted_clocks_stay<T>(clocks: Seq<T>, offsets: Seq<i32>, sorted: Seq<T>)
    requires
        offsets.len() == clocks.len(),
        forall|i: int, j: int| 0 <= i < j < offsets.len() ==> offsets[i] <= offsets[j],
        is_stable_sort_of(sorted, clocks, offsets),
    ensures
        sorted == clocks,
{
    let n = clocks.len() as int;
    let identity = Seq::new(n as nat, |i: int| i);
    assert(arranged_by(clocks, clocks, offsets, identity));
    law_stable_sort_is_unique(sorted, clocks, clocks, offsets);
}


/// The minute in which the list was last read, after ticks at the times
/// `ticks`, starting from `last_minute`.
pub open spec fn minute_read_after(last_minute: Option<u64>, ticks: Seq<u64>) -> Option<u64>
    decreases ticks.len(),
{
    if ticks.len() == 0 {
        last_minute
    } else {
        let before = minute_read_after(last_minute, ticks.drop_last());
        match refresh_due(before, ticks.last()) {
            Some(m) => Some(m),
            None => before,
        }
    }
}

/// After any ticks, the list was last read in the minute of the latest tick
/// (where there was one).
proof fn lemma_read_in_minute_of_last_tick(last_minute: Option<u64>, ticks: Seq<u64>)
    requires
        ticks.len() > 0,
    ensures
        minute_read_after(last_minute, ticks) == Some((ticks.last() / 60) as u64),
{
}

/// Clocks added in GNOME Clocks appear within two minutes while the applet
/// ticks at least once a minute: if a change happens at `change` seconds, the
/// list was last read no later than that minute, and ticks come at most a
/// minute apart from before the change to two minutes after it, then some
/// tick within two minutes after the change, and after it, reads the list
/// again (in a minute later than the change's).
pub proof fn law_clock_list_read_within_two_minutes(
    last_minute: Option<u64>,
    ticks: Seq<u64>,
    change: u64,
)
    requires
        ticks.len() > 0,
        ticks[0] <= change,
        change + 120 <= ticks.last(),
        forall|i: int| 0 <= i < ticks.len() - 1 ==> ticks[i] <= #[trigger] ticks[i + 1] <= ticks[i] + 60,
        last_minute matches Some(m) ==> m <= change / 60,
    ensures
        exists|k: int|
            0 <= k < ticks.len() && change < ticks[k] <= change + 120 && ticks[k] / 60 > change / 60
                && #[trigger] refresh_due(minute_read_after(last_minute, ticks.take(k)), ticks[k])
                == Some((ticks[k] / 60) as u64),
{
    // The first tick in a minute later than the change's.
    let bound = (change / 60 + 1) * 60;
    let k = first_tick_at_or_after(ticks, bound as int, 0);
    assert(change < bound <= change + 60);
    if k > 0 {
        assert(ticks[k - 1] < bound);
        assert(ticks[k - 1] <= ticks[k - 1 + 1] <= ticks[k - 1] + 60);
        let prefix = ticks.take(k);
        lemma_read_in_minute_of_last_tick(last_minute, prefix);
        assert(prefix.last() == ticks[k - 1]);
        assert(ticks[k - 1] / 60 <= change / 60) by (nonlinear_arith)
            requires
                ticks[k - 1] < bound,
                bound == (change / 60 + 1) * 60,
        ;
    } else {
        assert(ticks.take(0) =~= Seq::<u64>::empty());
    }
    assert(ticks[k] / 60 > change / 60) by (nonlinear_arith)
        requires
            ticks[k] >= bound,
            bound == (change / 60 + 1) * 60,
    ;
    assert(refresh_due(minute_read_after(last_minute, ticks.take(k)), ticks[k]) == Some(
        (ticks[k] / 60) as u64,
    ));
}

/// The first position at or after `from` of a tick at or after `bound`,
/// where the last tick is at or after it.
proof fn first_tick_at_or_after(ticks: Seq<u64>, bound: int, from: int) -> (k: int)
    requires
        0 <= from < ticks.len(),
        ticks.last() >= bound,
        from > 0 ==> ticks[from - 1] < bound,
    ensures
        from <= k < ticks.len(),
        ticks[k] >= bound,
        k > 0 ==> ticks[k - 1] < bound,
    decreases ticks.len() - from,
{
    if ticks[from] >= bound {
        from
    } else {
        first_tick_at_or_after(ticks, bound, from + 1)
    }
}


proof fn lemma_filter_map_add<A, B>(a: Seq<A>, b: Seq<A>, f: spec_fn(A) -> Option<B>)
    ensures
        (a + b).filter_map(f) == a.filter_map(f) + b.filter_map(f),
    decreases b.len(),
{
    if b.len() == 0 {
        assert(a + b =~= a);
        assert(a.filter_map(f) + b.filter_map(f) =~= a.filter_map(f));
    } else {
        let ab = a + b;
        assert(ab.drop_last() =~= a + b.drop_last());
        assert(ab.last() == b.last());
        lemma_filter_map_add(a, b.drop_last(), f);
        match f(b.last()) {
            Some(x) => {
                assert(ab.filter_map(f) =~= a.filter_map(f) + (b.drop_last().filter_map(f) + seq![x]));
            },
            None => {},
        }
    }
}

proof fn lemma_fields_of_entries_filter_map(
    entries: Seq<Seq<char>>,
    f: spec_fn(Seq<char>) -> Option<(Seq<char>, Seq<char>, Seq<char>)>,
)
    requires
        forall|e: Seq<char>| #[trigger] f(e) == clock_fields(e),
    ensures
        fields_of_entries(entries) == entries.filter_map(f),
    decreases entries.len(),
{
    if entries.len() > 0 {
        let head = seq![entries[0]];
        let tail = entries.drop_first();
        assert(entries =~= head + tail);
        lemma_filter_map_add(head, tail, f);
        lemma_fields_of_entries_filter_map(tail, f);
        Seq::<Seq<char>>::lemma_filter_map_singleton(entries[0], f);
        assert(f(entries[0]) == clock_fields(entries[0]));
    }
}

/// Every entry of the setting yields its clock, and no other clocks come: the
/// clocks are, in order, the fields of each piece after the first `('` that
/// yields fields (one with `[(` and a comma in its pair), however many there
/// are.
pub proof fn law_every_entry_yields_its_clock(text: Seq<char>)
    ensures
        world_clock_fields(text) == split_pieces(text, entry_marker()).drop_first().filter_map(
            |e: Seq<char>| clock_fields(e),
        ),
{
    let f = |e: Seq<char>| clock_fields(e);
    lemma_fields_of_entries_filter_map(split_pieces(text, entry_marker()).drop_first(), f);
}

/// A text with one more entry after it yields one more clock, where that
/// entry has a coordinate pair, after the clocks of the text: no clock is
/// dropped, however many come before.
pub proof fn law_one_more_entry_one_more_clock(entries: Seq<Seq<char>>, entry: Seq<char>)
    ensures
        fields_of_entries(entries.push(entry)) == fields_of_entries(entries) + match clock_fields(
            entry,
        ) {
            Some(x) => seq![x],
            None => Seq::empty(),
        },
{
    let f = |e: Seq<char>| clock_fields(e);
    lemma_fields_of_entries_filter_map(entries.push(entry), f);
    lemma_fields_of_entries_filter_map(entries, f);
    assert(entries.push(entry).drop_last() =~= entries);
}

} // verus!
