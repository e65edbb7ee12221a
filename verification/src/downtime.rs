//! Downtime reconstruction: pairing the events that open and close a
//! maintenance stop, and measuring each stop.

use vstd::prelude::*;
use vstd::string::StringExecFns;
use crate::constants::{
    DOWNTIME_CORRECTION_SECS,
    DOWNTIME_END_CODE,
    DOWNTIME_START_CODE,
    EVENT_TYPE_SPECIAL,
};
use crate::event_data::{SqlDataPacket, StoredEvent};
use crate::sql::{is_answer, read_codes, sub_code_list, EventStore, Query, StoreError};
use crate::text::{push_char, push_signed_decimal, signed_decimal};
use crate::timestamps::{
    elapsed_seconds,
    format_ymd,
    local_today,
    parse_rfc3339,
    rfc3339_instant,
    whole_seconds_between,
    ymd_text,
    Today,
};

verus! {

/// One reconstructed stop: when it began, when it ended, and how many
/// seconds it lasted.
#[derive(Clone, Debug)]
pub struct DowntimeRecord {
    pub start: String,
    pub end: String,
    pub duration: i64,
}

/// The stops found by scanning on from position `from`, each as the
/// positions of its opening and closing event. `open` is the opening event
/// still waiting for its closing event, if any. An opening event is paired
/// with the first closing event after it; opening events met while one is
/// waiting are passed over; one that no closing event follows is dropped.
pub open spec fn downtime_pairs_from(codes: Seq<u32>, from: int, open: Option<int>) -> Seq<
    (int, int),
>
    decreases codes.len() - from,
{
    if from < 0 || from >= codes.len() {
        Seq::empty()
    } else {
        match open {
            Some(start) => if codes[from] == 42 {
                seq![(start, from)] + downtime_pairs_from(codes, from + 1, None)
            } else {
                downtime_pairs_from(codes, from + 1, open)
            },
            None => if codes[from] == 41 {
                downtime_pairs_from(codes, from + 1, Some(from))
            } else {
                downtime_pairs_from(codes, from + 1, None)
            },
        }
    }
}

/// The stops in a time-ordered sequence of sub-codes.
pub open spec fn downtime_pairs(codes: Seq<u32>) -> Seq<(int, int)> {
    downtime_pairs_from(codes, 0, None)
}

/// The seconds a stop lasted, from what was measured between its two
/// timestamps: the measured span plus the fixed correction, or zero where
/// nothing could be measured.
pub open spec fn corrected_seconds(measured: Option<int>) -> int {
    match measured {
        Some(secs) => secs + 60,
        None => 0,
    }
}

/// What is measured between two timestamps: the whole seconds from the first
/// to the second where both are valid RFC 3339, nothing otherwise.
pub open spec fn measured_seconds(start: Seq<char>, end: Seq<char>) -> Option<int> {
    match (rfc3339_instant(start), rfc3339_instant(end)) {
        (Some(a), Some(b)) => elapsed_seconds(a.0, a.1, b.0, b.1),
        _ => None,
    }
}

/// The sub-codes of a sequence of records.
pub open spec fn sub_codes(packets: Seq<SqlDataPacket>) -> Seq<u32> {
    packets.map_values(|p: SqlDataPacket| p.packet.plc_packet_code)
}

/// The stop that the events at positions `pair.0` and `pair.1` bound.
pub open spec fn record_matches(
    record: DowntimeRecord,
    packets: Seq<SqlDataPacket>,
    pair: (int, int),
) -> bool {
    &&& record.start@ == packets[pair.0].timestamp@
    &&& record.end@ == packets[pair.1].timestamp@
    &&& record.duration == corrected_seconds(
        measured_seconds(packets[pair.0].timestamp@, packets[pair.1].timestamp@),
    )
}

/// Pairs the opening and closing events of a time-ordered sequence of
/// sub-codes, and returns the positions of each pair.
pub fn pair_downtime_events(codes: &[u32]) -> (pairs: Vec<(usize, usize)>)
    ensures
        pairs@.len() == downtime_pairs(codes@).len(),
        forall|k: int|
            0 <= k < pairs@.len() ==> (#[trigger] pairs@[k]).0 as int == downtime_pairs(
                codes@,
            )[k].0 && pairs@[k].1 as int == downtime_pairs(codes@)[k].1,
        forall|k: int|
            0 <= k < pairs@.len() ==> (#[trigger] pairs@[k]).0 < pairs@[k].1 && pairs@[k].1
                < codes@.len(),
{
    let n: usize = codes.len();
    let mut pairs: Vec<(usize, usize)> = Vec::new();
    let mut open: Option<usize> = None;
    let mut i: usize = 0;
    while i < n
        invariant
            n == codes@.len(),
            i <= n,
            open matches Some(start) ==> start < i,
            downtime_pairs(codes@).len() == pairs@.len() + downtime_pairs_from(
                codes@,
                i as int,
                ghost_open(open),
            ).len(),
            forall|k: int|
                0 <= k < pairs@.len() ==> (#[trigger] pairs@[k]).0 as int == downtime_pairs(
                    codes@,
                )[k].0 && pairs@[k].1 as int == downtime_pairs(codes@)[k].1,
            forall|k: int|
                0 <= k < downtime_pairs_from(codes@, i as int, ghost_open(open)).len()
                    ==> downtime_pairs(codes@)[pairs@.len() + k] == #[trigger] downtime_pairs_from(
                    codes@,
                    i as int,
                    ghost_open(open),
                )[k],
            forall|k: int|
                0 <= k < pairs@.len() ==> (#[trigger] pairs@[k]).0 < pairs@[k].1 && pairs@[k].1
                    < n,
        decreases n - i,
    {
        let ghost rest = downtime_pairs_from(codes@, i as int, ghost_open(open));
        match open {
            Some(start) => {
                if codes[i] == DOWNTIME_END_CODE {
                    let ghost tail = downtime_pairs_from(codes@, i + 1, None);
                    assert(rest =~= seq![(start as int, i as int)] + tail);
                    assert(rest[0] == (start as int, i as int));
                    assert forall|k: int| 0 <= k < tail.len() implies downtime_pairs(
                        codes@,
                    )[pairs@.len() + 1 + k] == tail[k] by {
                        assert(rest[k + 1] == tail[k]);
                    }
                    pairs.push((start, i));
                    open = None;
                }
            },
            None => {
                if codes[i] == DOWNTIME_START_CODE {
                    open = Some(i);
                }
            },
        }
        i += 1;
    }
    pairs
}

/// The waiting opening event as a mathematical position.
pub open spec fn ghost_open(open: Option<usize>) -> Option<int> {
    match open {
        Some(start) => Some(start as int),
        None => None,
    }
}

/// The seconds a stop lasted, from the span measured between its two
/// timestamps: the span plus sixty seconds, or zero where none was measured.
pub fn corrected_duration(measured: Option<i64>) -> (secs: i64)
    requires
        measured matches Some(m) ==> m + 60 <= i64::MAX,
    ensures
        secs == corrected_seconds(
            match measured {
                Some(m) => Some(m as int),
                None => None,
            },
        ),
{
    match measured {
        Some(m) => m + DOWNTIME_CORRECTION_SECS,
        None => 0,
    }
}

/// The seconds between two RFC 3339 timestamps plus the fixed correction of
/// sixty seconds. Where either timestamp does not parse, the result is zero.
pub fn calculate_duration(start: &str, end: &str) -> (secs: i64)
    ensures
        secs == corrected_seconds(measured_seconds(start@, end@)),
{
    let measured: Option<i64> = match (parse_rfc3339(start), parse_rfc3339(end)) {
        (Some(a), Some(b)) => whole_seconds_between(a, b),
        _ => None,
    };
    corrected_duration(measured)
}

/// Reconstructs the stops recorded in a time-ordered sequence of events:
/// one record for each opening event that a closing event follows, in order,
/// carrying the two events' timestamps and the corrected duration.
pub fn process_downtime_packets(packets: Vec<SqlDataPacket>) -> (records: Vec<DowntimeRecord>)
    ensures
        records@.len() == downtime_pairs(sub_codes(packets@)).len(),
        forall|k: int|
            0 <= k < records@.len() ==> record_matches(
                #[trigger] records@[k],
                packets@,
                downtime_pairs(sub_codes(packets@))[k],
            ),
{
    let n: usize = packets.len();
    let mut codes: Vec<u32> = Vec::new();
    let mut c: usize = 0;
    while c < n
        invariant
            n == packets@.len(),
            c <= n,
            codes@ == sub_codes(packets@).subrange(0, c as int),
        decreases n - c,
    {
        codes.push(packets[c].packet.plc_packet_code);
        c += 1;
        assert(codes@ =~= sub_codes(packets@).subrange(0, c as int));
    }
    assert(codes@ =~= sub_codes(packets@));
    let pairs = pair_downtime_events(codes.as_slice());
    let mut records: Vec<DowntimeRecord> = Vec::new();
    let mut k: usize = 0;
    while k < pairs.len()
        invariant
            n == packets@.len(),
            codes@ == sub_codes(packets@),
            k <= pairs@.len(),
            pairs@.len() == downtime_pairs(codes@).len(),
            forall|q: int|
                0 <= q < pairs@.len() ==> (#[trigger] pairs@[q]).0 as int == downtime_pairs(
                    codes@,
                )[q].0 && pairs@[q].1 as int == downtime_pairs(codes@)[q].1,
            forall|q: int|
                0 <= q < pairs@.len() ==> (#[trigger] pairs@[q]).0 < pairs@[q].1 && pairs@[q].1
                    < n,
            records@.len() == k,
            forall|q: int|
                0 <= q < k ==> record_matches(
                    #[trigger] records@[q],
                    packets@,
                    downtime_pairs(codes@)[q],
                ),
        decreases pairs@.len() - k,
    {
        let (i, j) = pairs[k];
        let start: String = packets[i].timestamp.clone();
        let end: String = packets[j].timestamp.clone();
        let duration: i64 = calculate_duration(start.as_str(), end.as_str());
        records.push(DowntimeRecord { start, end, duration });
        k += 1;
    }
    records
}

/// The text of a span of seconds as hours, minutes and seconds.
pub open spec fn duration_text(seconds: int) -> Seq<char> {
    let magnitude = if seconds < 0 { -seconds } else { seconds };
    signed_decimal(with_sign_of(seconds, magnitude / 3600)) + seq!['h', ' '] + signed_decimal(
        with_sign_of(seconds, magnitude % 3600 / 60),
    ) + seq!['m', ' '] + signed_decimal(with_sign_of(seconds, magnitude % 60)) + seq!['s']
}

/// `part`, negated where `whole` is negative.
pub open spec fn with_sign_of(whole: int, part: int) -> int {
    if whole < 0 {
        -part
    } else {
        part
    }
}

/// Formats a span of seconds as `{hours}h {minutes}m {seconds}s`. For a
/// negative span each of the three parts is negative or zero.
pub fn format_seconds_to_duration(seconds: i64) -> (text: String)
    ensures
        text@ == duration_text(seconds as int),
{
    let negative: bool = seconds < 0;
    let magnitude: u64 = if negative {
        (-(seconds as i128)) as u64
    } else {
        seconds as u64
    };
    let hours: i64 = (magnitude / 3600) as i64;
    let minutes: i64 = (magnitude % 3600 / 60) as i64;
    let secs: i64 = (magnitude % 60) as i64;
    let mut text = String::new();
    push_signed_decimal(&mut text, if negative { -hours } else { hours });
    push_char(&mut text, 'h');
    push_char(&mut text, ' ');
    push_signed_decimal(&mut text, if negative { -minutes } else { minutes });
    push_char(&mut text, 'm');
    push_char(&mut text, ' ');
    push_signed_decimal(&mut text, if negative { -secs } else { secs });
    push_char(&mut text, 's');
    assert(text@ =~= duration_text(seconds as int));
    text
}

/// A span of calendar days to look for downtime in.
#[derive(Clone, Copy, Debug, PartialEq, Eq, Structural)]
pub enum DateRange {
    Today,
    Yesterday,
    /// From Monday of the current week on.
    ThisWeek,
    /// Monday to Sunday of the week before.
    LastWeek,
}

/// The text of a day number, where the day can be printed.
pub open spec fn day_text(day: int) -> Option<Seq<char>> {
    if i32::MIN <= day <= i32::MAX {
        ymd_text(day)
    } else {
        None
    }
}

/// Prints a day number as `YYYY-MM-DD`; a day that cannot be printed is
/// answered with `DateOutOfRange`.
pub fn print_day(day: i64) -> (text: Result<String, StoreError>)
    ensures
        match (day_text(day as int), text) {
            (Some(expected), Ok(t)) => t@ == expected,
            (None, Err(e)) => e == StoreError::DateOutOfRange,
            _ => false,
        },
{
    if day < i32::MIN as i64 || day > i32::MAX as i64 {
        return Err(StoreError::DateOutOfRange);
    }
    match format_ymd(day as i32) {
        Some(t) => Ok(t),
        None => Err(StoreError::DateOutOfRange),
    }
}

impl DateRange {
    /// The first day of the range, seen from `today`, as a day number.
    pub open spec fn first_day(self, today: Today) -> int {
        match self {
            DateRange::Today => today.day as int,
            DateRange::Yesterday => today.day - 1,
            DateRange::ThisWeek => today.day - today.days_from_monday,
            DateRange::LastWeek => today.day - today.days_from_monday - 7,
        }
    }

    /// The last day of the range, seen from `today`, as a day number; `None`
    /// where the range reaches to the present.
    pub open spec fn last_day(self, today: Today) -> Option<int> {
        match self {
            DateRange::Today => None,
            DateRange::Yesterday => Some(today.day - 1),
            DateRange::ThisWeek => None,
            DateRange::LastWeek => Some(today.day - today.days_from_monday - 1),
        }
    }

    /// The first day of the range, seen from `today`.
    pub fn start_day(self, today: Today) -> (day: i64)
        requires
            today.valid(),
        ensures
            day == self.first_day(today),
    {
        let base: i64 = today.day as i64;
        let weekday: i64 = today.days_from_monday as i64;
        match self {
            DateRange::Today => base,
            DateRange::Yesterday => base - 1,
            DateRange::ThisWeek => base - weekday,
            DateRange::LastWeek => base - weekday - 7,
        }
    }

    /// The last day of the range, seen from `today`; `None` where the range
    /// reaches to the present.
    pub fn end_day(self, today: Today) -> (day: Option<i64>)
        requires
            today.valid(),
        ensures
            match (day, self.last_day(today)) {
                (Some(d), Some(expected)) => d == expected,
                (None, None) => true,
                _ => false,
            },
    {
        let base: i64 = today.day as i64;
        let weekday: i64 = today.days_from_monday as i64;
        match self {
            DateRange::Today => None,
            DateRange::Yesterday => Some(base - 1),
            DateRange::ThisWeek => None,
            DateRange::LastWeek => Some(base - weekday - 1),
        }
    }

    /// The first date of the range, seen from `today`, as `YYYY-MM-DD`.
    pub fn start_date_on(self, today: Today) -> (text: Result<String, StoreError>)
        requires
            today.valid(),
        ensures
            match (day_text(self.first_day(today)), text) {
                (Some(expected), Ok(t)) => t@ == expected,
                (None, Err(e)) => e == StoreError::DateOutOfRange,
                _ => false,
            },
    {
        print_day(self.start_day(today))
    }

    /// The last date of the range, seen from `today`, as `YYYY-MM-DD`;
    /// `None` where the range reaches to the present.
    pub fn end_date_on(self, today: Today) -> (text: Result<Option<String>, StoreError>)
        requires
            today.valid(),
        ensures
            match (self.last_day(today), text) {
                (None, Ok(None)) => true,
                (Some(day), Ok(Some(t))) => day_text(day) == Some(t@),
                (Some(day), Err(e)) => day_text(day).is_none() && e == StoreError::DateOutOfRange,
                _ => false,
            },
    {
        match self.end_day(today) {
            None => Ok(None),
            Some(day) => match print_day(day) {
                Ok(t) => Ok(Some(t)),
                Err(e) => Err(e),
            },
        }
    }

    /// The first date of the range, seen from the current local day.
    /// Whatever the day, the answer is the text of the range's first day or,
    /// where that day cannot be printed, `DateOutOfRange`.
    pub fn start_date(self) -> (text: Result<String, StoreError>)
        ensures
            exists|today: Today|
                today.valid() && match (day_text(self.first_day(today)), text) {
                    (Some(expected), Ok(t)) => t@ == expected,
                    (None, Err(e)) => e == StoreError::DateOutOfRange,
                    _ => false,
                },
    {
        let today = local_today();
        self.start_date_on(today)
    }

    /// The last date of the range, seen from the current local day; `None`
    /// where the range reaches to the present.
    pub fn end_date(self) -> (text: Result<Option<String>, StoreError>)
        ensures
            exists|today: Today|
                today.valid() && match (self.last_day(today), text) {
                    (None, Ok(None)) => true,
                    (Some(day), Ok(Some(t))) => day_text(day) == Some(t@),
                    (Some(day), Err(e)) => day_text(day).is_none() && e
                        == StoreError::DateOutOfRange,
                    _ => false,
                },
    {
        let today = local_today();
        self.end_date_on(today)
    }
}

/// The list of sub-codes that downtime queries ask for names the opening
/// and the closing event.
pub proof fn lemma_downtime_codes()
    ensures
        sub_code_list("41,42"@) == Some(seq![41u32, 42u32]),
{
    reveal_strlit("41,42");
    let list = "41,42"@;
    let none = Seq::<u32>::empty();
    reveal_with_fuel(read_codes, 7);
    assert(list.len() == 5);
    assert(list[0] == '4' && list[1] == '1' && list[2] == ',' && list[3] == '4' && list[4] == '2');
    assert(read_codes(list, 5, seq![41u32], Some(42nat)) == Some(seq![41u32].push(42u32)));
    assert(read_codes(list, 4, seq![41u32], Some(4nat)) == Some(seq![41u32].push(42u32)));
    assert(read_codes(list, 3, seq![41u32], None) == Some(seq![41u32].push(42u32)));
    assert(none.push(41u32) =~= seq![41u32]);
    assert(read_codes(list, 2, none, Some(41nat)) == Some(seq![41u32].push(42u32)));
    assert(read_codes(list, 1, none, Some(4nat)) == Some(seq![41u32].push(42u32)));
    assert(read_codes(list, 0, none, None) == Some(seq![41u32].push(42u32)));
    assert(seq![41u32].push(42u32) =~= seq![41u32, 42u32]);
}

/// The query for downtime events between two dates: special events whose
/// sub-code opens or closes a stop.
pub open spec fn downtime_query(start: Seq<char>, end: Seq<char>) -> Query {
    Query { start, end, data_type: 1, codes: Some(seq![41u32, 42u32]) }
}

/// The line that describes the outcome of a query: the text of the query
/// where it found something, and a fixed remark where it found nothing or
/// failed.
pub open spec fn summary_text(outcome: Result<Vec<SqlDataPacket>, StoreError>) -> Seq<char> {
    match outcome {
        Ok(found) => if found@.len() > 0 {
            "Query: "@ + found@[0].query@
        } else {
            "Query: No results found"@
        },
        Err(_) => "Query: Failed to retrieve query"@,
    }
}

/// Describes the outcome of a query in one line.
pub fn query_summary(outcome: &Result<Vec<SqlDataPacket>, StoreError>) -> (line: String)
    ensures
        line@ == summary_text(*outcome),
{
    match outcome {
        Ok(found) => {
            if found.len() > 0 {
                let mut line = String::from_str("Query: ");
                line.append(found[0].query.as_str());
                line
            } else {
                String::from_str("Query: No results found")
            }
        },
        Err(_) => String::from_str("Query: Failed to retrieve query"),
    }
}

/// The dates between which a downtime query over `range` looks, seen from
/// `today`: its first date and its last date, the last one empty where the
/// range reaches to the present; `None` where a date of the range cannot be
/// printed.
pub open spec fn downtime_window(range: DateRange, today: Today) -> Option<(Seq<char>, Seq<char>)> {
    match day_text(range.first_day(today)) {
        Some(start) => match range.last_day(today) {
            None => Some((start, Seq::empty())),
            Some(last) => match day_text(last) {
                Some(end) => Some((start, end)),
                None => None,
            },
        },
        None => None,
    }
}

/// What to ask the event store for, to find the downtime of a range.
pub struct DowntimeRequest {
    /// First date, `YYYY-MM-DD`.
    pub start_date: String,
    /// Last date; empty where the range reaches to the present.
    pub end_date: String,
    pub data_type: u32,
    /// The sub-codes asked for, separated by commas.
    pub sub_codes: String,
}

/// Whether `request` asks for the downtime of `range`, seen from `today`:
/// special events that open or close a stop, between the dates of the range;
/// or is `DateOutOfRange` where a date of the range cannot be printed.
pub open spec fn is_request_for(
    request: Result<DowntimeRequest, StoreError>,
    range: DateRange,
    today: Today,
) -> bool {
    match (downtime_window(range, today), request) {
        (Some(window), Ok(asked)) => asked.start_date@ == window.0 && asked.end_date@ == window.1
            && asked.data_type == 1 && asked.sub_codes@ == "41,42"@,
        (None, Err(e)) => e == StoreError::DateOutOfRange,
        _ => false,
    }
}

/// The request for the downtime of a range, seen from `today`.
pub fn downtime_request_on(range: DateRange, today: Today) -> (request: Result<
    DowntimeRequest,
    StoreError,
>)
    requires
        today.valid(),
    ensures
        is_request_for(request, range, today),
{
    let start_date = match range.start_date_on(today) {
        Ok(start) => start,
        Err(e) => {
            return Err(e);
        },
    };
    let end_date = match range.end_date_on(today) {
        Ok(Some(end)) => end,
        Ok(None) => String::new(),
        Err(e) => {
            return Err(e);
        },
    };
    Ok(
        DowntimeRequest {
            start_date,
            end_date,
            data_type: EVENT_TYPE_SPECIAL,
            sub_codes: String::from_str("41,42"),
        },
    )
}

/// The request for the downtime of a range, seen from the current local day.
pub fn downtime_request(range: DateRange) -> (request: Result<DowntimeRequest, StoreError>)
    ensures
        exists|today: Today| today.valid() && #[trigger] is_request_for(request, range, today),
{
    let today = local_today();
    let request = downtime_request_on(range, today);
    assert(is_request_for(request, range, today));
    request
}

/// Whether `outcome` is the answer to a downtime query over `range`, seen from
/// `today`: the events the query selects from `events`, each carrying the text
/// of the query and the bytes of its frame, or `DateOutOfRange` where a date
/// of the range cannot be printed.
pub open spec fn retrieved(
    events: Seq<StoredEvent>,
    range: DateRange,
    today: Today,
    outcome: Result<Vec<SqlDataPacket>, StoreError>,
) -> bool {
    match (downtime_window(range, today), outcome) {
        (Some(window), Ok(found)) => is_answer(
            found@,
            events,
            downtime_query(window.0, window.1),
        ),
        (None, Err(e)) => e == StoreError::DateOutOfRange,
        _ => false,
    }
}

/// Retrieves the downtime events of a range, seen from `today`: the stored
/// special events that open or close a stop and whose date lies in the range,
/// in storage order, with a line that describes the query. Where a date of
/// the range cannot be printed the answer is `DateOutOfRange`.
pub fn downtime_retreive_on(store: &EventStore, range: DateRange, today: Today) -> (answer: (
    String,
    Result<Vec<SqlDataPacket>, StoreError>,
))
    requires
        today.valid(),
    ensures
        answer.0@ == summary_text(answer.1),
        retrieved(store@, range, today, answer.1),
{
    proof {
        lemma_downtime_codes();
    }
    let outcome: Result<Vec<SqlDataPacket>, StoreError> = match downtime_request_on(range, today) {
        Ok(asked) => Ok(
            store.query_packets(
                asked.start_date.as_str(),
                asked.end_date.as_str(),
                asked.data_type,
                asked.sub_codes.as_str(),
            ),
        ),
        Err(e) => Err(e),
    };
    let line = query_summary(&outcome);
    (line, outcome)
}

/// Retrieves the downtime events of a range, seen from the current local
/// day.
pub fn downtime_retreive(store: &EventStore, range: DateRange) -> (answer: (
    String,
    Result<Vec<SqlDataPacket>, StoreError>,
))
    ensures
        answer.0@ == summary_text(answer.1),
        exists|today: Today| today.valid() && #[trigger] retrieved(store@, range, today, answer.1),
{
    let today = local_today();
    let answer = downtime_retreive_on(store, range, today);
    assert(retrieved(store@, range, today, answer.1));
    answer
}

} // verus!
