use s7_event_monitor::downtime::calculate_duration;
use s7_event_monitor::event_data::{
    encode_event_data_packet, parse_event_data_packet, EventDataPacket, SqlDataPacket,
};
use s7_event_monitor::sql::{
    build_query_sql, insert_row, insert_row_at, parse_sub_codes, record_from_payload,
    record_from_row, row_from_payload_text, select_records, text_at_most, EventStore,
    StoreError, StoredRow, INSERT_SQL, SCHEMA_SQL,
};

fn packet(data_type: u32, code: u32, data: &[u32]) -> EventDataPacket {
    parse_event_data_packet(&encode_event_data_packet(data_type, code, data)).unwrap()
}

fn chars(text: &str) -> Vec<char> {
    text.chars().collect()
}

fn ids(found: &[SqlDataPacket]) -> Vec<u32> {
    found.iter().map(|row| row.packet.data[0]).collect()
}

#[test]
fn reads_a_list_of_sub_codes() {
    assert_eq!(parse_sub_codes("41,42"), Some(vec![41, 42]));
    assert_eq!(parse_sub_codes("7"), Some(vec![7]));
    assert_eq!(parse_sub_codes("0"), Some(vec![0]));
    assert_eq!(parse_sub_codes("1,1,1"), Some(vec![1, 1, 1]));
    assert_eq!(parse_sub_codes("007,0010"), Some(vec![7, 10]));
    assert_eq!(parse_sub_codes("4294967295"), Some(vec![u32::MAX]));
}

#[test]
fn refuses_lists_that_are_not_numbers_and_commas() {
    assert_eq!(parse_sub_codes(""), None);
    assert_eq!(parse_sub_codes(","), None);
    assert_eq!(parse_sub_codes("41,"), None);
    assert_eq!(parse_sub_codes(",41"), None);
    assert_eq!(parse_sub_codes("41,,42"), None);
    assert_eq!(parse_sub_codes("41, 42"), None);
    assert_eq!(parse_sub_codes(" 41"), None);
    assert_eq!(parse_sub_codes("-1"), None);
    assert_eq!(parse_sub_codes("+1"), None);
    assert_eq!(parse_sub_codes("4a"), None);
    assert_eq!(parse_sub_codes("41;42"), None);
    assert_eq!(parse_sub_codes("1) OR (1=1"), None);
    assert_eq!(parse_sub_codes("٤١"), None);
}

#[test]
fn refuses_sub_codes_beyond_32_bits() {
    assert_eq!(parse_sub_codes("4294967296"), None);
    assert_eq!(parse_sub_codes("1,99999999999999999999999999"), None);
}

#[test]
fn query_text_with_an_open_end() {
    assert_eq!(
        build_query_sql(1, "41,42", false),
        "SELECT origin, timestamp, data_type, plc_packet_code, data FROM event_data \
         WHERE data_type = 1 AND plc_packet_code IN (41,42) \
         AND substr(timestamp, 1, 10) >= ?1 ORDER BY id"
    );
}

#[test]
fn query_text_with_an_end() {
    assert_eq!(
        build_query_sql(4_294_967_295, "007", true),
        "SELECT origin, timestamp, data_type, plc_packet_code, data FROM event_data \
         WHERE data_type = 4294967295 AND plc_packet_code IN (7) \
         AND substr(timestamp, 1, 10) >= ?1 AND substr(timestamp, 1, 10) <= ?2 ORDER BY id"
    );
}

#[test]
fn invalid_list_never_reaches_the_query_text() {
    let expected = "SELECT origin, timestamp, data_type, plc_packet_code, data FROM event_data \
                    WHERE data_type = 0 AND plc_packet_code IN (NULL) \
                    AND substr(timestamp, 1, 10) >= ?1 ORDER BY id";
    assert_eq!(build_query_sql(0, "", false), expected);
    assert_eq!(build_query_sql(0, "1); DROP TABLE event_data; --", false), expected);
}

#[test]
fn statements_name_the_same_table_and_columns() {
    assert!(SCHEMA_SQL.contains("event_data"));
    for column in ["origin", "timestamp", "data_type", "plc_packet_code", "data"] {
        assert!(SCHEMA_SQL.contains(column));
        assert!(INSERT_SQL.contains(column));
    }
}

#[test]
fn texts_are_ordered_character_by_character() {
    assert!(text_at_most(&chars(""), &chars("")));
    assert!(text_at_most(&chars(""), &chars("a")));
    assert!(!text_at_most(&chars("a"), &chars("")));
    assert!(text_at_most(&chars("2024-01-01"), &chars("2024-01-01")));
    assert!(text_at_most(&chars("2024-01-01"), &chars("2024-01-02")));
    assert!(!text_at_most(&chars("2024-01-02"), &chars("2024-01-01")));
    assert!(text_at_most(&chars("2024-01"), &chars("2024-01-01")));
    assert!(!text_at_most(&chars("2024-01-01"), &chars("2024-01")));
    assert!(text_at_most(&chars("2023-12-31"), &chars("2024-01-01")));
    assert!(text_at_most(&chars("9"), &chars("é")));
}

#[test]
fn new_store_is_empty() {
    let store = EventStore::new();
    assert_eq!(store.len(), 0);
    assert!(store.query_packets("0000-00-00", "", 1, "41").is_empty());
}

#[test]
fn stored_packets_come_back_all_and_in_order() {
    let mut store = EventStore::new();
    for n in 0..25u32 {
        let stamp = format!("2024-01-01T10:00:{:02}+00:00", n);
        assert_eq!(store.store_packet_at(&packet(1, 41, &[n]), "press", &stamp), Ok(()));
    }
    assert_eq!(store.len(), 25);
    let found = store.query_packets("2024-01-01", "2024-01-01", 1, "41");
    assert_eq!(ids(&found), (0..25).collect::<Vec<u32>>());
    for (n, row) in found.iter().enumerate() {
        assert_eq!(row.origin, "press");
        assert_eq!(row.timestamp, format!("2024-01-01T10:00:{:02}+00:00", n));
        assert_eq!(row.packet.data_type, 1);
        assert_eq!(row.packet.plc_packet_code, 41);
        assert_eq!(row.packet.raw, encode_event_data_packet(1, 41, &[n as u32]));
    }
}

#[test]
fn end_date_bounds_the_query() {
    let mut store = EventStore::new();
    store.store_packet_at(&packet(1, 41, &[1]), "press", "2024-01-01T08:00:00+01:00").unwrap();
    store.store_packet_at(&packet(1, 41, &[2]), "press", "2024-01-05T08:00:00+01:00").unwrap();
    assert_eq!(ids(&store.query_packets("2024-01-01", "2024-01-02", 1, "41")), vec![1]);
    assert_eq!(ids(&store.query_packets("2024-01-01", "2024-01-05", 1, "41")), vec![1, 2]);
    assert_eq!(ids(&store.query_packets("2024-01-02", "2024-01-05", 1, "41")), vec![2]);
    assert_eq!(ids(&store.query_packets("2024-01-02", "2024-01-04", 1, "41")), Vec::<u32>::new());
}

#[test]
fn empty_end_date_reaches_into_the_future() {
    let mut store = EventStore::new();
    store.store_packet_at(&packet(1, 41, &[1]), "press", "2023-12-31T23:59:59+00:00").unwrap();
    store.store_packet_at(&packet(1, 41, &[2]), "press", "2024-01-01T00:00:00+00:00").unwrap();
    store.store_packet_at(&packet(1, 41, &[3]), "press", "2024-01-05T08:00:00+00:00").unwrap();
    store.store_packet_at(&packet(1, 41, &[4]), "press", "9999-12-31T23:59:59+00:00").unwrap();
    assert_eq!(ids(&store.query_packets("2024-01-01", "", 1, "41")), vec![2, 3, 4]);
    assert_eq!(ids(&store.query_packets("2024-01-01", "2024-01-05", 1, "41")), vec![2, 3]);
}

#[test]
fn query_selects_by_type_and_sub_code() {
    let mut store = EventStore::new();
    store.store_packet_at(&packet(1, 41, &[1]), "a", "2024-01-01T00:00:00+00:00").unwrap();
    store.store_packet_at(&packet(1, 42, &[2]), "b", "2024-01-01T00:00:01+00:00").unwrap();
    store.store_packet_at(&packet(50, 41, &[3]), "a", "2024-01-01T00:00:02+00:00").unwrap();
    store.store_packet_at(&packet(1, 43, &[4]), "a", "2024-01-01T00:00:03+00:00").unwrap();
    assert_eq!(ids(&store.query_packets("2024-01-01", "", 1, "41,42")), vec![1, 2]);
    assert_eq!(ids(&store.query_packets("2024-01-01", "", 1, "42,41")), vec![1, 2]);
    assert_eq!(ids(&store.query_packets("2024-01-01", "", 1, "43")), vec![4]);
    assert_eq!(ids(&store.query_packets("2024-01-01", "", 50, "41,42,43")), vec![3]);
    assert_eq!(ids(&store.query_packets("2024-01-01", "", 2, "41,42,43")), Vec::<u32>::new());
}

#[test]
fn invalid_or_empty_sub_codes_select_nothing() {
    let mut store = EventStore::new();
    store.store_packet_at(&packet(1, 41, &[1]), "press", "2024-01-01T00:00:00+00:00").unwrap();
    assert_eq!(store.query_packets("2024-01-01", "", 1, "41").len(), 1);
    assert!(store.query_packets("2024-01-01", "", 1, "").is_empty());
    assert!(store.query_packets("2024-01-01", "", 1, "41,").is_empty());
    assert!(store.query_packets("2024-01-01", "", 1, "forty-one").is_empty());
    assert!(store.query_packets("2024-01-01", "", 1, "41 OR 1=1").is_empty());
}

#[test]
fn found_records_carry_the_query_text() {
    let mut store = EventStore::new();
    store.store_packet_at(&packet(1, 41, &[1]), "press", "2024-01-01T00:00:00+00:00").unwrap();
    let open = store.query_packets("2024-01-01", "", 1, "41");
    assert_eq!(open[0].query, build_query_sql(1, "41", false));
    let bounded = store.query_packets("2024-01-01", "2024-01-01", 1, "41");
    assert_eq!(bounded[0].query, build_query_sql(1, "41", true));
}

#[test]
fn the_same_event_twice_violates_the_key() {
    let mut store = EventStore::new();
    let event = packet(1, 41, &[1, 2]);
    assert_eq!(store.store_packet_at(&event, "press", "2024-01-01T00:00:00+00:00"), Ok(()));
    assert_eq!(
        store.store_packet_at(&event, "press", "2024-01-01T00:00:00+00:00"),
        Err(StoreError::ConstraintViolation)
    );
    assert_eq!(store.len(), 1);
    assert_eq!(store.store_packet_at(&event, "lathe", "2024-01-01T00:00:00+00:00"), Ok(()));
    assert_eq!(store.store_packet_at(&event, "press", "2024-01-01T00:00:01+00:00"), Ok(()));
    assert_eq!(
        store.store_packet_at(&packet(1, 41, &[1, 3]), "press", "2024-01-01T00:00:00+00:00"),
        Ok(())
    );
    assert_eq!(
        store.store_packet_at(&packet(1, 42, &[1, 2]), "press", "2024-01-01T00:00:00+00:00"),
        Ok(())
    );
    assert_eq!(
        store.store_packet_at(&packet(2, 41, &[1, 2]), "press", "2024-01-01T00:00:00+00:00"),
        Ok(())
    );
    assert_eq!(store.len(), 6);
}

#[test]
fn storing_now_stamps_the_present() {
    let mut store = EventStore::new();
    assert_eq!(store.store_packet(&packet(50, 3, &[9]), "press"), Ok(()));
    let found = store.query_packets("2000-01-01", "", 50, "3");
    assert_eq!(found.len(), 1);
    assert_eq!(found[0].origin, "press");
    assert_eq!(found[0].packet.data, vec![9]);
    assert_eq!(calculate_duration(&found[0].timestamp, &found[0].timestamp), 60);
    assert!(store.query_packets("2000-01-01", "2000-12-31", 50, "3").is_empty());
}

#[test]
fn row_holds_the_payload_as_an_array_text() {
    let row = insert_row_at(&packet(50, 3, &[1, 22, 4_294_967_295]), "press", "2024-01-01T00:00:00Z")
        .unwrap();
    assert_eq!(row.origin, "press");
    assert_eq!(row.timestamp, "2024-01-01T00:00:00Z");
    assert_eq!(row.data_type, 50);
    assert_eq!(row.plc_packet_code, 3);
    assert_eq!(row.data, "[1,22,4294967295]");
}

#[test]
fn row_of_an_empty_payload() {
    let row = insert_row_at(&packet(50, 3, &[]), "press", "t").unwrap();
    assert_eq!(row.data, "[]");
    let one = insert_row_at(&packet(50, 3, &[0]), "press", "t").unwrap();
    assert_eq!(one.data, "[0]");
}

#[test]
fn row_for_now_is_stamped_with_a_valid_time() {
    let row = insert_row(&packet(50, 3, &[5]), "lathe").unwrap();
    assert_eq!(row.origin, "lathe");
    assert_eq!(row.data, "[5]");
    assert_eq!(calculate_duration(&row.timestamp, &row.timestamp), 60);
}

#[test]
fn row_without_payload_text_is_an_io_failure() {
    let built = row_from_payload_text(&packet(50, 3, &[5]), "lathe", "t", None);
    assert_eq!(built.err(), Some(StoreError::Io));
    let built =
        row_from_payload_text(&packet(50, 3, &[5]), "lathe", "t", Some(String::from("[5]")));
    assert_eq!(built.unwrap().data, "[5]");
}

fn row(data: &str) -> StoredRow {
    StoredRow {
        origin: String::from("press"),
        timestamp: String::from("2024-01-01T00:00:00Z"),
        data_type: 1,
        plc_packet_code: 41,
        data: String::from(data),
    }
}

#[test]
fn record_is_read_back_from_a_row() {
    let record = record_from_row(&row("[1, 2,3]"), "SELECT 1").unwrap();
    assert_eq!(record.origin, "press");
    assert_eq!(record.timestamp, "2024-01-01T00:00:00Z");
    assert_eq!(record.query, "SELECT 1");
    assert_eq!(record.packet.data_type, 1);
    assert_eq!(record.packet.plc_packet_code, 41);
    assert_eq!(record.packet.data, vec![1, 2, 3]);
    assert_eq!(record.packet.raw, encode_event_data_packet(1, 41, &[1, 2, 3]));
}

#[test]
fn row_with_a_broken_payload_gives_no_record() {
    assert!(record_from_row(&row(""), "q").is_none());
    assert!(record_from_row(&row("1,2"), "q").is_none());
    assert!(record_from_row(&row("[1,2"), "q").is_none());
    assert!(record_from_row(&row("[-1]"), "q").is_none());
    assert!(record_from_row(&row("[4294967296]"), "q").is_none());
    assert!(record_from_row(&row("[\"a\"]"), "q").is_none());
    assert!(record_from_row(&row("[]"), "q").is_some());
}

#[test]
fn record_from_a_payload() {
    assert!(record_from_payload(&row("ignored"), None, "q").is_none());
    let record = record_from_payload(&row("ignored"), Some(vec![8, 9]), "q").unwrap();
    assert_eq!(record.packet.data, vec![8, 9]);
    assert_eq!(record.packet.raw, encode_event_data_packet(1, 41, &[8, 9]));
    assert_eq!(record.query, "q");
}

#[test]
fn row_and_record_agree() {
    let sent = packet(1, 42, &[10, 20, 30]);
    let stored = insert_row_at(&sent, "press", "2024-01-01T00:00:00Z").unwrap();
    let record = record_from_row(&stored, "q").unwrap();
    assert_eq!(record.packet.data_type, sent.data_type);
    assert_eq!(record.packet.plc_packet_code, sent.plc_packet_code);
    assert_eq!(record.packet.data, sent.data);
    assert_eq!(record.packet.raw, sent.raw);
}

fn record_at(code: u32, n: u32, timestamp: &str) -> SqlDataPacket {
    SqlDataPacket {
        origin: String::from("press"),
        timestamp: String::from(timestamp),
        packet: packet(1, code, &[n]),
        query: String::from("as read"),
    }
}

#[test]
fn records_of_a_backend_are_held_to_the_same_rule() {
    let records = vec![
        record_at(41, 1, "2024-01-01T00:00:00+00:00"),
        record_at(43, 2, "2024-01-01T00:00:01+00:00"),
        record_at(42, 3, "2024-01-03T00:00:00+00:00"),
        record_at(41, 4, "2023-12-31T23:59:59+00:00"),
    ];
    let found = select_records(&records, "2024-01-01", "2024-01-02", 1, "41,42");
    assert_eq!(ids(&found), vec![1]);
    assert_eq!(found[0].query, build_query_sql(1, "41,42", true));
    let open = select_records(&records, "2024-01-01", "", 1, "41,42");
    assert_eq!(ids(&open), vec![1, 3]);
    assert_eq!(open[1].query, build_query_sql(1, "41,42", false));
    assert!(select_records(&records, "2024-01-01", "", 1, "41;42").is_empty());
    assert!(select_records(&[], "2024-01-01", "", 1, "41").is_empty());
}

#[test]
fn found_records_carry_the_bytes_of_their_frame() {
    let mut odd = record_at(41, 7, "2024-01-01T00:00:00+00:00");
    odd.packet.raw = vec![1, 2, 3];
    let found = select_records(&[odd], "2024-01-01", "", 1, "41");
    assert_eq!(found[0].packet.raw, encode_event_data_packet(1, 41, &[7]));

    let mut store = EventStore::new();
    let mut sent = packet(1, 41, &[5, 6]);
    sent.raw = Vec::new();
    store.store_packet_at(&sent, "press", "2024-01-01T00:00:00+00:00").unwrap();
    let found = store.query_packets("2024-01-01", "", 1, "41");
    assert_eq!(found[0].packet.raw, encode_event_data_packet(1, 41, &[5, 6]));
    assert_eq!(found[0].packet.data, vec![5, 6]);
}

#[test]
fn a_row_is_always_built() {
    for data in [vec![], vec![0], vec![u32::MAX; 200]] {
        let row = insert_row_at(&packet(9, 8, &data), "o", "t");
        assert!(row.is_ok());
        assert!(insert_row(&packet(9, 8, &data), "o").is_ok());
    }
}

#[test]
fn what_was_written_is_read_back() {
    let payloads: Vec<Vec<u32>> = vec![
        vec![],
        vec![0],
        vec![0, 0, 0],
        vec![10, 100, 1000, 4_294_967_295],
        (0..300).collect(),
    ];
    for payload in payloads {
        let sent = packet(50, 9, &payload);
        let row = insert_row_at(&sent, "press", "2024-01-01T00:00:00Z").unwrap();
        let record = record_from_row(&row, "q").expect("a written row is read back");
        assert_eq!(record.origin, "press");
        assert_eq!(record.timestamp, "2024-01-01T00:00:00Z");
        assert_eq!(record.packet.data_type, 50);
        assert_eq!(record.packet.plc_packet_code, 9);
        assert_eq!(record.packet.data, payload);
    }
}
