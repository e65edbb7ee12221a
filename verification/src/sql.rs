//! The event store: which records a query selects, the text of the query
//! that a relational backend runs for it, and an ordered in-memory store
//! that keeps records and answers queries by those rules.

use vstd::prelude::*;
use vstd::string::StringExecFns;
use crate::event_data::{
    encode_event_data_packet,
    encode_frame,
    EventDataPacket,
    Frame,
    SqlDataPacket,
    StoredEvent,
};
use crate::text::{chars_of, decimal, digit_value, is_digit, push_char, push_decimal};
use crate::timestamps::local_now_rfc3339;

verus! {

/// Why the store refused a record or a query.
#[derive(Clone, Copy, Debug, PartialEq, Eq, Structural)]
pub enum StoreError {
    /// A record with the same origin, timestamp, type, sub-code and payload
    /// is already stored.
    ConstraintViolation,
    /// The backend could not be reached or could not complete the operation.
    Io,
    /// The date range asked for lies outside the calendar.
    DateOutOfRange,
}

/// What a query asks for.
pub struct Query {
    /// First calendar date selected, `YYYY-MM-DD`.
    pub start: Seq<char>,
    /// Last calendar date selected; empty where the query has no upper bound.
    pub end: Seq<char>,
    pub data_type: u32,
    /// The sub-codes selected; `None` where the list given was not valid.
    pub codes: Option<Seq<u32>>,
}

/// Reads a list of sub-codes from position `from` on. `done` holds the codes
/// already read and `current` the value of the digits of the code being read,
/// `None` while it has no digit yet. A valid list is one or more runs of
/// decimal digits, separated by single commas, each a value that fits 32 bits.
pub open spec fn read_codes(
    list: Seq<char>,
    from: int,
    done: Seq<u32>,
    current: Option<nat>,
) -> Option<Seq<u32>>
    decreases list.len() - from,
{
    if from < 0 || from >= list.len() {
        match current {
            Some(value) => Some(done.push(value as u32)),
            None => None,
        }
    } else if list[from] == ',' {
        match current {
            Some(value) => read_codes(list, from + 1, done.push(value as u32), None),
            None => None,
        }
    } else if is_digit(list[from]) {
        let value = match current {
            Some(v) => v * 10 + digit_value(list[from]),
            None => digit_value(list[from]),
        };
        if value > u32::MAX {
            None
        } else {
            read_codes(list, from + 1, done, Some(value as nat))
        }
    } else {
        None
    }
}

/// The sub-codes that a comma-separated list names, or `None` where the list
/// is empty or not valid.
pub open spec fn sub_code_list(list: Seq<char>) -> Option<Seq<u32>> {
    read_codes(list, 0, Seq::empty(), None)
}

/// Validates a comma-separated list of non-negative integers and returns the
/// sub-codes it names. An empty list, an empty item, any character other
/// than a digit or a comma, or a value beyond 32 bits makes the list invalid.
pub fn parse_sub_codes(list: &str) -> (codes: Option<Vec<u32>>)
    ensures
        match codes {
            Some(c) => sub_code_list(list@) == Some(c@),
            None => sub_code_list(list@).is_none(),
        },
{
    let chars = chars_of(list);
    let n: usize = chars.len();
    let mut done: Vec<u32> = Vec::new();
    let mut current: Option<u32> = None;
    let mut i: usize = 0;
    while i < n
        invariant
            n == chars@.len(),
            chars@ == list@,
            i <= n,
            sub_code_list(list@) == read_codes(
                list@,
                i as int,
                done@,
                match current {
                    Some(v) => Some(v as nat),
                    None => None,
                },
            ),
        decreases n - i,
    {
        let c: char = chars[i];
        if c == ',' {
            match current {
                Some(value) => {
                    done.push(value);
                    current = None;
                },
                None => {
                    return None;
                },
            }
        } else if '0' <= c && c <= '9' {
            let digit: u64 = (c as u32 - '0' as u32) as u64;
            let value: u64 = match current {
                Some(v) => v as u64 * 10 + digit,
                None => digit,
            };
            if value > u32::MAX as u64 {
                return None;
            }
            current = Some(value as u32);
        } else {
            return None;
        }
        i += 1;
    }
    match current {
        Some(value) => {
            done.push(value);
            Some(done)
        },
        None => None,
    }
}

/// The decimal numerals of `codes`, separated by commas.
pub open spec fn joined_numerals(codes: Seq<u32>) -> Seq<char>
    decreases codes.len(),
{
    if codes.len() == 0 {
        Seq::empty()
    } else if codes.len() == 1 {
        decimal(codes[0] as nat)
    } else {
        joined_numerals(codes.drop_last()) + seq![','] + decimal(codes.last() as nat)
    }
}

/// Appends the decimal numerals of `codes`, separated by commas.
pub fn push_joined_numerals(out: &mut String, codes: &[u32])
    ensures
        final(out)@ == old(out)@ + joined_numerals(codes@),
{
    let n: usize = codes.len();
    let mut i: usize = 0;
    assert(out@ =~= old(out)@ + joined_numerals(codes@.subrange(0, 0)));
    while i < n
        invariant
            n == codes@.len(),
            i <= n,
            out@ == old(out)@ + joined_numerals(codes@.subrange(0, i as int)),
        decreases n - i,
    {
        let ghost before = codes@.subrange(0, i as int);
        let ghost after = codes@.subrange(0, i + 1);
        assert(after.drop_last() =~= before);
        if i > 0 {
            push_char(out, ',');
        }
        push_decimal(out, codes[i] as u128);
        i += 1;
        assert(out@ =~= old(out)@ + joined_numerals(after));
    }
    assert(codes@.subrange(0, n as int) =~= codes@);
}

/// The membership test of a query: the valid codes in parentheses, or a
/// list holding only `NULL`, which no sub-code equals.
pub open spec fn in_clause(codes: Option<Seq<u32>>) -> Seq<char> {
    match codes {
        Some(c) => "IN ("@ + joined_numerals(c) + ")"@,
        None => "IN (NULL)"@,
    }
}

/// The text of the statement a relational backend runs for a query. The
/// dates are bound as parameters `?1` and `?2`; the type and the sub-codes,
/// which are numbers by construction, are written into the text.
pub open spec fn query_text(data_type: u32, codes: Option<Seq<u32>>, bounded: bool) -> Seq<char> {
    "SELECT origin, timestamp, data_type, plc_packet_code, data FROM event_data WHERE data_type = "@
        + decimal(data_type as nat) + " AND plc_packet_code "@ + in_clause(codes)
        + " AND substr(timestamp, 1, 10) >= ?1"@ + (if bounded {
        " AND substr(timestamp, 1, 10) <= ?2"@
    } else {
        Seq::empty()
    }) + " ORDER BY id"@
}

/// Builds the statement for a query over the given type and sub-code list;
/// `bounded` says whether the query has an upper date. A list that is not
/// valid never reaches the text: its place is taken by a test nothing passes.
pub fn build_query_sql(data_type: u32, sub_codes: &str, bounded: bool) -> (sql: String)
    ensures
        sql@ == query_text(data_type, sub_code_list(sub_codes@), bounded),
{
    let codes = parse_sub_codes(sub_codes);
    let mut sql = String::from_str(
        "SELECT origin, timestamp, data_type, plc_packet_code, data FROM event_data WHERE data_type = ",
    );
    push_decimal(&mut sql, data_type as u128);
    sql.append(" AND plc_packet_code ");
    match codes {
        Some(c) => {
            sql.append("IN (");
            push_joined_numerals(&mut sql, c.as_slice());
            sql.append(")");
        },
        None => {
            sql.append("IN (NULL)");
        },
    }
    sql.append(" AND substr(timestamp, 1, 10) >= ?1");
    if bounded {
        sql.append(" AND substr(timestamp, 1, 10) <= ?2");
    }
    sql.append(" ORDER BY id");
    assert(sql@ =~= query_text(data_type, sub_code_list(sub_codes@), bounded));
    sql
}

/// The statement that creates the table the queries read.
pub const SCHEMA_SQL: &'static str =
    "CREATE TABLE IF NOT EXISTS event_data (id INTEGER PRIMARY KEY AUTOINCREMENT, origin TEXT NOT NULL, timestamp TEXT NOT NULL, data_type INTEGER NOT NULL, plc_packet_code INTEGER NOT NULL, data TEXT NOT NULL, UNIQUE (origin, timestamp, data_type, plc_packet_code, data))";

/// The statement that inserts one row; its five parameters are the fields of
/// a [`StoredRow`] in order.
pub const INSERT_SQL: &'static str =
    "INSERT INTO event_data (origin, timestamp, data_type, plc_packet_code, data) VALUES (?1, ?2, ?3, ?4, ?5)";

/// One row of the table: a record as the backend keeps it, the payload as the
/// text of an array of numbers.
pub struct StoredRow {
    pub origin: String,
    pub timestamp: String,
    pub data_type: u32,
    pub plc_packet_code: u32,
    pub data: String,
}

/// The text a payload is stored as: its numerals, separated by commas, in
/// square brackets.
pub open spec fn payload_text(data: Seq<u32>) -> Seq<char> {
    seq!['['] + joined_numerals(data) + seq![']']
}

/// The payload that a stored text denotes, or `None` where the text is not an
/// array of 32-bit numbers.
pub uninterp spec fn json_payload(text: Seq<char>) -> Option<Seq<u32>>;

/// Serializes a payload with `serde_json::to_string`. For a sequence of
/// unsigned integers its compact formatter writes `[`, the decimal numerals
/// with a comma before each but the first, and `]`. It writes into a byte
/// vector, and on this path it takes only the steps that open and close a
/// sequence and write an integer, none of which can fail: a text always
/// comes back.
#[verifier::external_body]
pub(crate) fn payload_to_json(data: &[u32]) -> (text: Option<String>)
    ensures
        text.is_some(),
        text matches Some(t) ==> t@ == payload_text(data@),
{
    serde_json::to_string(data).ok()
}

/// The payload that was read, if any, as a sequence.
pub open spec fn payload_read(data: Option<Vec<u32>>) -> Option<Seq<u32>> {
    match data {
        Some(d) => Some(d@),
        None => None,
    }
}

/// Reads a payload back with `serde_json::from_str`. The contract names the
/// outcome: equal texts denote equal payloads. It states one fact of it: the
/// text that a payload is stored as is read back as that payload. The reader
/// takes an array as `[`, elements separated by `,`, and `]`, and an integer
/// as digits without a leading zero, which it accumulates exactly and hands
/// on where the number fits 32 bits; that is the text `payload_text` gives.
#[verifier::external_body]
pub(crate) fn payload_from_json(text: &str) -> (data: Option<Vec<u32>>)
    ensures
        payload_read(data) == json_payload(text@),
        forall|written: Seq<u32>|
            text@ == #[trigger] payload_text(written) ==> payload_read(data) == Some(written),
{
    serde_json::from_str::<Vec<u32>>(text).ok()
}

/// The row to insert for a packet, from the payload text that serialization
/// gave: the packet's fields under the given origin and timestamp, or an
/// input/output failure where serialization gave nothing.
pub fn row_from_payload_text(
    packet: &EventDataPacket,
    origin: &str,
    timestamp: &str,
    payload: Option<String>,
) -> (row: Result<StoredRow, StoreError>)
    ensures
        match (payload, row) {
            (Some(text), Ok(r)) => r.origin@ == origin@ && r.timestamp@ == timestamp@
                && r.data_type == packet.data_type && r.plc_packet_code == packet.plc_packet_code
                && r.data@ == text@,
            (None, Err(e)) => e == StoreError::Io,
            _ => false,
        },
{
    match payload {
        Some(text) => Ok(
            StoredRow {
                origin: String::from_str(origin),
                timestamp: String::from_str(timestamp),
                data_type: packet.data_type,
                plc_packet_code: packet.plc_packet_code,
                data: text,
            },
        ),
        None => Err(StoreError::Io),
    }
}

/// Whether `row` is the row of a frame stored under the given origin and
/// timestamp: those two texts, the frame's type and sub-code, and the
/// frame's payload as an array text.
pub open spec fn is_row_of(
    row: StoredRow,
    frame: Frame,
    origin: Seq<char>,
    timestamp: Seq<char>,
) -> bool {
    &&& row.origin@ == origin
    &&& row.timestamp@ == timestamp
    &&& row.data_type == frame.data_type
    &&& row.plc_packet_code == frame.sub_code
    &&& row.data@ == payload_text(frame.payload)
}

/// The row to insert for a packet stored under the given origin and
/// timestamp. A row always comes back, and its payload text is the packet's
/// payload in brackets.
pub fn insert_row_at(packet: &EventDataPacket, origin: &str, timestamp: &str) -> (row: Result<
    StoredRow,
    StoreError,
>)
    ensures
        row matches Ok(r) && is_row_of(r, packet.frame(), origin@, timestamp@),
{
    let payload = payload_to_json(packet.data.as_slice());
    row_from_payload_text(packet, origin, timestamp, payload)
}

/// The row to insert for a packet stored now under the given origin. A row
/// always comes back; whatever the time, it is the packet's row under the
/// timestamp it carries.
pub fn insert_row(packet: &EventDataPacket, origin: &str) -> (row: Result<StoredRow, StoreError>)
    ensures
        row matches Ok(r) && is_row_of(r, packet.frame(), origin@, r.timestamp@),
{
    let timestamp = local_now_rfc3339();
    insert_row_at(packet, origin, timestamp.as_str())
}

/// The record for a row, from the payload that reading its text gave: the
/// row's fields with that payload and the bytes of the frame they make,
/// marked with the text of the query that found it; nothing where the text
/// denoted no payload.
pub fn record_from_payload(row: &StoredRow, payload: Option<Vec<u32>>, query: &str) -> (record:
    Option<SqlDataPacket>)
    ensures
        match (payload, record) {
            (Some(data), Some(r)) => r.event() == (StoredEvent {
                origin: row.origin@,
                timestamp: row.timestamp@,
                frame: Frame {
                    data_type: row.data_type,
                    sub_code: row.plc_packet_code,
                    payload: data@,
                },
            }) && r.query@ == query@ && r.packet.raw@ == encode_frame(r.packet.frame()),
            (None, None) => true,
            _ => false,
        },
{
    match payload {
        Some(data) => {
            let raw = encode_event_data_packet(
                row.data_type,
                row.plc_packet_code,
                data.as_slice(),
            );
            Some(
                SqlDataPacket {
                    origin: row.origin.clone(),
                    timestamp: row.timestamp.clone(),
                    packet: EventDataPacket {
                        raw,
                        data_type: row.data_type,
                        plc_packet_code: row.plc_packet_code,
                        data,
                    },
                    query: String::from_str(query),
                },
            )
        },
        None => None,
    }
}

/// The record that a row read back from the backend stands for: the row's
/// fields with the payload its text denotes, or nothing where the text
/// denotes none. The row that was built for a frame under an origin and a
/// timestamp is read back as the event of that frame, origin and timestamp.
pub fn record_from_row(row: &StoredRow, query: &str) -> (record: Option<SqlDataPacket>)
    ensures
        forall|frame: Frame, origin: Seq<char>, timestamp: Seq<char>| #[trigger]
            is_row_of(*row, frame, origin, timestamp) ==> record.is_some() && record.unwrap().event()
                == (StoredEvent { origin, timestamp, frame }),
        match (json_payload(row.data@), record) {
            (Some(data), Some(r)) => r.event() == (StoredEvent {
                origin: row.origin@,
                timestamp: row.timestamp@,
                frame: Frame {
                    data_type: row.data_type,
                    sub_code: row.plc_packet_code,
                    payload: data,
                },
            }) && r.query@ == query@ && r.packet.raw@ == encode_frame(r.packet.frame()),
            (None, None) => true,
            _ => false,
        },
{
    let payload = payload_from_json(row.data.as_str());
    let record = record_from_payload(row, payload, query);
    assert forall|frame: Frame, origin: Seq<char>, timestamp: Seq<char>| #[trigger]
        is_row_of(*row, frame, origin, timestamp) implies record.is_some() && record.unwrap().event()
        == (StoredEvent { origin, timestamp, frame }) by {
        assert(row.data@ == payload_text(frame.payload));
        assert(payload_read(payload) == Some(frame.payload));
    }
    record
}

/// Whether `a` comes before `b`, or equals it, in the order of texts:
/// character by character, by code point, a prefix before what extends it.
pub open spec fn text_le(a: Seq<char>, b: Seq<char>) -> bool
    decreases a.len(),
{
    if a.len() == 0 {
        true
    } else if b.len() == 0 {
        false
    } else if a[0] != b[0] {
        a[0] < b[0]
    } else {
        text_le(a.drop_first(), b.drop_first())
    }
}

/// The calendar date a timestamp begins with: its first ten characters.
pub open spec fn event_date(timestamp: Seq<char>) -> Seq<char> {
    if timestamp.len() >= 10 {
        timestamp.subrange(0, 10)
    } else {
        timestamp
    }
}

/// Whether a query selects a stored event: the event has the query's type,
/// its sub-code is one of the valid list's, and its date is no earlier than
/// the start and, where the query has an end, no later than the end.
pub open spec fn selects(query: Query, event: StoredEvent) -> bool {
    &&& event.frame.data_type == query.data_type
    &&& query.codes matches Some(codes) && codes.contains(event.frame.sub_code)
    &&& text_le(query.start, event_date(event.timestamp))
    &&& (query.end.len() == 0 || text_le(event_date(event.timestamp), query.end))
}

/// The events a query selects, in the order in which they are stored.
pub open spec fn selected(events: Seq<StoredEvent>, query: Query) -> Seq<StoredEvent> {
    events.filter(|event: StoredEvent| selects(query, event))
}

/// Compares two texts in the order of texts.
pub fn text_at_most(a: &[char], b: &[char]) -> (le: bool)
    ensures
        le == text_le(a@, b@),
{
    let mut i: usize = 0;
    assert(a@.skip(0) =~= a@ && b@.skip(0) =~= b@);
    while i < a.len() && i < b.len()
        invariant
            i <= a@.len(),
            i <= b@.len(),
            text_le(a@, b@) == text_le(a@.skip(i as int), b@.skip(i as int)),
        decreases a@.len() - i,
    {
        let ghost ra = a@.skip(i as int);
        let ghost rb = b@.skip(i as int);
        assert(ra[0] == a@[i as int] && rb[0] == b@[i as int]);
        if a[i] != b[i] {
            return a[i] < b[i];
        }
        assert(ra.drop_first() =~= a@.skip(i + 1));
        assert(rb.drop_first() =~= b@.skip(i + 1));
        i += 1;
    }
    i == a.len()
}

/// The first ten characters of a timestamp.
fn date_of(timestamp: &[char]) -> (date: Vec<char>)
    ensures
        date@ == event_date(timestamp@),
{
    let n: usize = if timestamp.len() >= 10 { 10 } else { timestamp.len() };
    let mut date: Vec<char> = Vec::new();
    let mut i: usize = 0;
    while i < n
        invariant
            n <= timestamp@.len(),
            i <= n,
            date@ == timestamp@.subrange(0, i as int),
        decreases n - i,
    {
        date.push(timestamp[i]);
        i += 1;
        assert(date@ =~= timestamp@.subrange(0, i as int));
    }
    assert(date@ =~= event_date(timestamp@));
    date
}

/// Whether `code` is one of `codes`.
fn has_code(codes: &[u32], code: u32) -> (found: bool)
    ensures
        found == codes@.contains(code),
{
    let mut i: usize = 0;
    while i < codes.len()
        invariant
            i <= codes@.len(),
            forall|k: int| 0 <= k < i ==> codes@[k] != code,
        decreases codes@.len() - i,
    {
        if codes[i] == code {
            return true;
        }
        i += 1;
    }
    false
}

/// Whether two payloads hold the same words.
fn same_words(a: &[u32], b: &[u32]) -> (same: bool)
    ensures
        same == (a@ == b@),
{
    if a.len() != b.len() {
        return false;
    }
    let mut i: usize = 0;
    while i < a.len()
        invariant
            a@.len() == b@.len(),
            i <= a@.len(),
            forall|k: int| 0 <= k < i ==> a@[k] == b@[k],
        decreases a@.len() - i,
    {
        if a[i] != b[i] {
            return false;
        }
        i += 1;
    }
    assert(a@ =~= b@);
    true
}

/// What storing `event` does to a store that holds `before`: an event that
/// is not yet stored is appended and the answer is success; one that is
/// already stored is refused as a constraint violation and nothing changes.
pub open spec fn stored_as(
    before: Seq<StoredEvent>,
    after: Seq<StoredEvent>,
    outcome: Result<(), StoreError>,
    event: StoredEvent,
) -> bool {
    if before.contains(event) {
        outcome == Err::<(), StoreError>(StoreError::ConstraintViolation) && after == before
    } else {
        outcome.is_ok() && after == before.push(event)
    }
}

/// An ordered store of events in which no event occurs twice.
pub struct EventStore {
    rows: Vec<SqlDataPacket>,
}

impl View for EventStore {
    type V = Seq<StoredEvent>;

    closed spec fn view(&self) -> Seq<StoredEvent> {
        events_of(self.rows@)
    }
}

impl EventStore {
    /// No two stored events are equal: the event is the key of its record.
    pub open spec fn well_formed(&self) -> bool {
        forall|i: int, j: int| 0 <= i < j < self@.len() ==> self@[i] != self@[j]
    }

    /// An empty store.
    pub fn new() -> (store: EventStore)
        ensures
            store@ == Seq::<StoredEvent>::empty(),
            store.well_formed(),
    {
        let store = EventStore { rows: Vec::new() };
        assert(store@ =~= Seq::<StoredEvent>::empty());
        store
    }

    /// How many events are stored.
    pub fn len(&self) -> (n: usize)
        ensures
            n == self@.len(),
    {
        self.rows.len()
    }

    /// Whether the event made of these parts is already stored.
    fn holds(&self, origin: &String, timestamp: &String, packet: &EventDataPacket) -> (found: bool)
        ensures
            found == self@.contains(
                StoredEvent { origin: origin@, timestamp: timestamp@, frame: packet.frame() },
            ),
    {
        let ghost event = StoredEvent {
            origin: origin@,
            timestamp: timestamp@,
            frame: packet.frame(),
        };
        let mut i: usize = 0;
        while i < self.rows.len()
            invariant
                i <= self.rows@.len(),
                self@.len() == self.rows@.len(),
                event == (StoredEvent {
                    origin: origin@,
                    timestamp: timestamp@,
                    frame: packet.frame(),
                }),
                forall|k: int| 0 <= k < i ==> self@[k] != event,
            decreases self.rows@.len() - i,
        {
            let row = &self.rows[i];
            assert(self@[i as int] == row.event());
            if row.origin == *origin && row.timestamp == *timestamp && row.packet.data_type
                == packet.data_type && row.packet.plc_packet_code == packet.plc_packet_code
                && same_words(row.packet.data.as_slice(), packet.data.as_slice()) {
                assert(row.event().frame == event.frame);
                assert(row.event() == event);
                return true;
            }
            assert(row.event() != event) by {
                if row.event() == event {
                    assert(row.packet.frame().payload == packet.frame().payload);
                }
            }
            i += 1;
        }
        false
    }

    /// Stores one packet under the given origin and timestamp, behind all
    /// events already stored. An event that is already stored is refused as a
    /// constraint violation and the store is left as it was.
    pub fn store_packet_at(
        &mut self,
        packet: &EventDataPacket,
        origin: &str,
        timestamp: &str,
    ) -> (outcome: Result<(), StoreError>)
        requires
            old(self).well_formed(),
        ensures
            final(self).well_formed(),
            outcome.is_ok() == !old(self)@.contains(
                StoredEvent { origin: origin@, timestamp: timestamp@, frame: packet.frame() },
            ),
            outcome matches Ok(_) ==> final(self)@ == old(self)@.push(
                StoredEvent { origin: origin@, timestamp: timestamp@, frame: packet.frame() },
            ),
            outcome matches Err(e) ==> e == StoreError::ConstraintViolation && final(self)@ == old(
                self,
            )@,
    {
        let origin_text = String::from_str(origin);
        let timestamp_text = String::from_str(timestamp);
        if self.holds(&origin_text, &timestamp_text, packet) {
            return Err(StoreError::ConstraintViolation);
        }
        let row = SqlDataPacket {
            origin: origin_text,
            timestamp: timestamp_text,
            packet: packet.duplicate(),
            query: String::new(),
        };
        let ghost event = row.event();
        self.rows.push(row);
        assert(self@ =~= old(self)@.push(event));
        Ok(())
    }

    /// Stores one packet under the given origin, stamped with the current
    /// local time. Whatever the time, the packet is stamped with some
    /// timestamp, and the event so made is appended unless that very event is
    /// already stored, in which case it is refused and nothing changes.
    pub fn store_packet(&mut self, packet: &EventDataPacket, origin: &str) -> (outcome: Result<
        (),
        StoreError,
    >)
        requires
            old(self).well_formed(),
        ensures
            final(self).well_formed(),
            exists|timestamp: Seq<char>| #[trigger]
                stored_as(
                    old(self)@,
                    final(self)@,
                    outcome,
                    StoredEvent { origin: origin@, timestamp, frame: packet.frame() },
                ),
    {
        let timestamp = local_now_rfc3339();
        let outcome = self.store_packet_at(packet, origin, timestamp.as_str());
        assert(stored_as(
            old(self)@,
            self@,
            outcome,
            StoredEvent { origin: origin@, timestamp: timestamp@, frame: packet.frame() },
        ));
        outcome
    }

    /// Answers a query: the stored events of the given type whose sub-code is
    /// in the list and whose date lies in the range, in storage order, each
    /// carrying the text of the statement that selects it and the bytes of
    /// its frame. An empty `end_date` leaves the range open towards the
    /// future. A list of sub-codes that is empty or not valid selects nothing.
    pub fn query_packets(
        &self,
        start_date: &str,
        end_date: &str,
        data_type: u32,
        sub_codes: &str,
    ) -> (found: Vec<SqlDataPacket>)
        ensures
            is_answer(
                found@,
                self@,
                Query {
                    start: start_date@,
                    end: end_date@,
                    data_type,
                    codes: sub_code_list(sub_codes@),
                },
            ),
    {
        select_records(self.rows.as_slice(), start_date, end_date, data_type, sub_codes)
    }
}

/// The events that records hold.
pub open spec fn events_of(records: Seq<SqlDataPacket>) -> Seq<StoredEvent> {
    records.map_values(|record: SqlDataPacket| record.event())
}

/// Whether `found` answers `query` over `events`: it holds exactly the events
/// the query selects, in their order, and each record carries the text of
/// the statement for the query and, as its raw bytes, the encoding of its
/// frame.
pub open spec fn is_answer(found: Seq<SqlDataPacket>, events: Seq<StoredEvent>, query: Query) -> bool {
    &&& events_of(found) == selected(events, query)
    &&& forall|k: int|
        0 <= k < found.len() ==> (#[trigger] found[k]).query@ == query_text(
            query.data_type,
            query.codes,
            query.end.len() > 0,
        ) && found[k].packet.raw@ == encode_frame(found[k].packet.frame())
}

/// Selects from `records` those that a query asks for: the records of the
/// given type whose sub-code is in the list and whose date lies in the range,
/// in their order. Each record found carries the text of the statement that
/// selects it and the bytes its frame is sent as. An empty `end_date` leaves
/// the range open towards the future. A list of sub-codes that is empty or
/// not valid selects nothing. A backend that has run the statement hands its
/// rows through here, so that what it answers is held to the same rule.
pub fn select_records(
    records: &[SqlDataPacket],
    start_date: &str,
    end_date: &str,
    data_type: u32,
    sub_codes: &str,
) -> (found: Vec<SqlDataPacket>)
    ensures
        is_answer(
            found@,
            events_of(records@),
            Query {
                start: start_date@,
                end: end_date@,
                data_type,
                codes: sub_code_list(sub_codes@),
            },
        ),
{
    let ghost query = Query {
        start: start_date@,
        end: end_date@,
        data_type,
        codes: sub_code_list(sub_codes@),
    };
    let ghost all = events_of(records@);
    let ghost pred = |event: StoredEvent| selects(query, event);
    let start = chars_of(start_date);
    let end = chars_of(end_date);
    let bounded: bool = end.len() > 0;
    let codes = parse_sub_codes(sub_codes);
    let sql = build_query_sql(data_type, sub_codes, bounded);
    let mut found: Vec<SqlDataPacket> = Vec::new();
    let mut i: usize = 0;
    assert(all.subrange(0, 0).filter(pred) =~= Seq::<StoredEvent>::empty()) by {
        reveal(Seq::filter);
    }
    assert(events_of(found@) =~= Seq::<StoredEvent>::empty());
    while i < records.len()
        invariant
            i <= records@.len(),
            all == events_of(records@),
            start@ == start_date@,
            end@ == end_date@,
            bounded == (end_date@.len() > 0),
            query == (Query {
                start: start_date@,
                end: end_date@,
                data_type,
                codes: sub_code_list(sub_codes@),
            }),
            pred == (|event: StoredEvent| selects(query, event)),
            match codes {
                Some(c) => sub_code_list(sub_codes@) == Some(c@),
                None => sub_code_list(sub_codes@).is_none(),
            },
            sql@ == query_text(data_type, sub_code_list(sub_codes@), bounded),
            events_of(found@) == all.subrange(0, i as int).filter(pred),
            forall|k: int|
                0 <= k < found@.len() ==> (#[trigger] found@[k]).query@ == sql@
                    && found@[k].packet.raw@ == encode_frame(found@[k].packet.frame()),
        decreases records@.len() - i,
    {
        let row = &records[i];
        let ghost event = row.event();
        assert(all[i as int] == event);
        let stamp = chars_of(row.timestamp.as_str());
        let date = date_of(stamp.as_slice());
        let code_ok: bool = match &codes {
            Some(c) => has_code(c.as_slice(), row.packet.plc_packet_code),
            None => false,
        };
        let keep: bool = row.packet.data_type == data_type && code_ok && text_at_most(
            start.as_slice(),
            date.as_slice(),
        ) && (!bounded || text_at_most(date.as_slice(), end.as_slice()));
        assert(keep == pred(event));
        let ghost before = all.subrange(0, i as int);
        let ghost after = all.subrange(0, i + 1);
        assert(after.drop_last() =~= before);
        assert(after.last() == event);
        assert(after.filter(pred) == if pred(event) {
            before.filter(pred).push(event)
        } else {
            before.filter(pred)
        }) by {
            reveal(Seq::filter);
        }
        if keep {
            let data = row.packet.data.clone();
            assert(data@ =~= row.packet.data@);
            let copy = SqlDataPacket {
                origin: row.origin.clone(),
                timestamp: row.timestamp.clone(),
                packet: EventDataPacket {
                    raw: encode_event_data_packet(
                        row.packet.data_type,
                        row.packet.plc_packet_code,
                        data.as_slice(),
                    ),
                    data_type: row.packet.data_type,
                    plc_packet_code: row.packet.plc_packet_code,
                    data,
                },
                query: sql.clone(),
            };
            assert(copy.event() == event);
            let ghost shown = events_of(found@);
            found.push(copy);
            assert(events_of(found@) =~= shown.push(event));
        }
        i += 1;
    }
    assert(all.subrange(0, all.len() as int) =~= all);
    found
}

/// Stored events that a query selects come back behind what the query found
/// before, all of them and in the order in which they were stored. On a store
/// in which the query found nothing, `n` such events give exactly those `n`.
pub proof fn lemma_query_returns_stored(
    before: Seq<StoredEvent>,
    added: Seq<StoredEvent>,
    query: Query,
)
    requires
        forall|k: int| 0 <= k < added.len() ==> selects(query, #[trigger] added[k]),
    ensures
        selected(before + added, query) == selected(before, query) + added,
        selected(before, query).len() == 0 ==> selected(before + added, query) == added,
    decreases added.len(),
{
    let pred = |event: StoredEvent| selects(query, event);
    reveal(Seq::filter);
    if added.len() == 0 {
        assert(before + added =~= before);
        assert(selected(before, query) + added =~= selected(before, query));
    } else {
        let front = added.drop_last();
        lemma_query_returns_stored(before, front, query);
        assert((before + added).drop_last() =~= before + front);
        assert((before + added).last() == added.last());
        assert(pred(added.last()));
        assert(selected(before + added, query) =~= selected(before, query) + added);
    }
    if selected(before, query).len() == 0 {
        assert(selected(before, query) + added =~= added);
    }
}

/// A query without an end date selects every stored event of its type and
/// sub-codes whose date is no earlier than the start, however late it is.
pub proof fn lemma_open_end_selects_all_later(
    events: Seq<StoredEvent>,
    query: Query,
    k: int,
)
    requires
        query.end.len() == 0,
        0 <= k < events.len(),
        events[k].frame.data_type == query.data_type,
        query.codes matches Some(codes) && codes.contains(events[k].frame.sub_code),
        text_le(query.start, event_date(events[k].timestamp)),
    ensures
        selected(events, query).contains(events[k]),
{
    let pred = |event: StoredEvent| selects(query, event);
    assert(pred(events[k]));
    events.lemma_filter_contains(pred, k);
}

/// A query with an end date selects no event whose date lies beyond it, and
/// no query selects an event whose date lies before its start.
pub proof fn lemma_dates_outside_range_excluded(
    events: Seq<StoredEvent>,
    query: Query,
    event: StoredEvent,
)
    requires
        (query.end.len() > 0 && !text_le(event_date(event.timestamp), query.end)) || !text_le(
            query.start,
            event_date(event.timestamp),
        ),
    ensures
        !selected(events, query).contains(event),
{
    let pred = |e: StoredEvent| selects(query, e);
    if events.filter(pred).contains(event) {
        let i = choose|i: int| 0 <= i < events.filter(pred).len() && events.filter(pred)[i] == event;
        events.lemma_filter_pred(pred, i);
        assert(pred(event));
    }
}

/// A list of sub-codes that is empty or not valid selects nothing.
pub proof fn lemma_invalid_codes_select_nothing(events: Seq<StoredEvent>, query: Query)
    requires
        query.codes.is_none(),
    ensures
        selected(events, query) == Seq::<StoredEvent>::empty(),
{
    let pred = |e: StoredEvent| selects(query, e);
    if events.filter(pred).len() > 0 {
        events.lemma_filter_pred(pred, 0);
        assert(pred(events.filter(pred)[0]));
    }
    assert(selected(events, query) =~= Seq::<StoredEvent>::empty());
}

} // verus!
