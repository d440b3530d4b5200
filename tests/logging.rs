use cameo_ocean::{
    add, append_str, build_record, capture_time, concat_host_port, date, date_hour_min, echo,
    entry_for, frame_record, hi, json_to_bytes, log_msgpack, prepare_log_entry, split_records,
    status_code, LocalTime, LogError, MemoryStore, PartitionKey,
};

fn at(year: i32, month: u32, day: u32, hour: u32, minute: u32, second: u32) -> LocalTime {
    LocalTime { year, month, day, hour, minute, second }
}

fn headers(pairs: &[(&str, &str)]) -> Vec<(String, String)> {
    pairs.iter().map(|(k, v)| (k.to_string(), v.to_string())).collect()
}

fn decode(record: &[u8]) -> serde_json::Value {
    rmp_serde::from_slice(record).unwrap()
}

#[test]
fn test_add() {
    assert_eq!(add(1, 2), 3);
}

#[test]
fn day_and_minute_keys_are_fixed_width() {
    let t = at(2022, 5, 1, 10, 15, 30);
    assert_eq!(date(&t).unwrap(), "2022-05-01");
    assert_eq!(date_hour_min(&t).unwrap(), "2022-05-01_10_15");
    let t = at(7, 12, 9, 0, 3, 0);
    assert_eq!(date(&t).unwrap(), "0007-12-09");
    assert_eq!(date_hour_min(&t).unwrap(), "0007-12-09_00_03");
}

#[test]
fn keys_of_unrenderable_times_are_none() {
    assert!(date(&at(10000, 1, 1, 0, 0, 0)).is_none());
    assert!(date_hour_min(&at(-1, 1, 1, 0, 0, 0)).is_none());
    assert!(date(&at(2022, 13, 1, 0, 0, 0)).is_none());
    assert!(PartitionKey::at(&at(2022, 1, 1, 24, 0, 0)).is_none());
}

#[test]
fn same_minute_same_key_later_minute_later_key() {
    let a = date_hour_min(&at(2022, 5, 1, 10, 15, 0)).unwrap();
    let b = date_hour_min(&at(2022, 5, 1, 10, 15, 59)).unwrap();
    let c = date_hour_min(&at(2022, 5, 1, 10, 16, 0)).unwrap();
    let d = date_hour_min(&at(2023, 1, 1, 0, 0, 0)).unwrap();
    assert_eq!(a, b);
    assert!(b < c);
    assert!(c < d);
    let key = PartitionKey::at(&at(2022, 5, 1, 10, 15, 0)).unwrap();
    assert!(key.minute.starts_with(&key.day));
}

#[test]
fn day_keys_equal_on_one_day_and_sort_by_day() {
    let a = date(&at(2022, 5, 1, 0, 0, 0)).unwrap();
    let b = date(&at(2022, 5, 1, 23, 59, 59)).unwrap();
    let c = date(&at(2022, 5, 2, 0, 0, 0)).unwrap();
    let d = date(&at(2022, 12, 1, 0, 0, 0)).unwrap();
    assert_eq!(a, b);
    assert!(b < c && c < d);
}

#[test]
fn partition_paths() {
    let key = PartitionKey::at(&at(2022, 5, 1, 10, 15, 30)).unwrap();
    assert_eq!(key.directory(), "./data/log_msgpack/2022-05-01/");
    assert_eq!(key.path(), "./data/log_msgpack/2022-05-01/2022-05-01_10_15.msgpack");
}

#[test]
fn header_line_uses_escaped_separator() {
    let mut s = String::from("x");
    append_str(&mut s, "X-Test", "1");
    assert_eq!(s, "xX-Test: 1\\n");
}

#[test]
fn record_text_layout() {
    let hs = headers(&[("host", "a"), ("X-Test", "1")]);
    assert_eq!(
        build_record(&hs, "{\"a\":1}"),
        "{\"headers\":\"host: a\\nX-Test: 1\\n\",\"body\":{\"a\":1}}"
    );
    assert_eq!(build_record(&Vec::new(), "[]"), "{\"headers\":\"\",\"body\":[]}");
}

#[test]
fn msgpack_encoding_of_a_record() {
    assert_eq!(json_to_bytes(&"{\"a\":1}".to_string()).unwrap(), vec![0x81, 0xa1, b'a', 0x01]);
    assert_eq!(json_to_bytes(&"{\"a\":".to_string()), Err(LogError::Encoding));
    let text = "{\"z\":[1,\"x\",null],\"a\":{\"b\":true}}".to_string();
    let first = json_to_bytes(&text).unwrap();
    assert_eq!(json_to_bytes(&text).unwrap(), first);
    assert_eq!(decode(&first), serde_json::from_str::<serde_json::Value>(&text).unwrap());
}

#[test]
fn error_statuses() {
    assert_eq!(status_code(LogError::Encoding), 400);
    assert_eq!(status_code(LogError::Io), 500);
    assert_eq!(status_code(LogError::Write), 500);
    assert_eq!(status_code(LogError::TimeOutOfRange), 500);
}

#[test]
fn frames_carry_a_big_endian_length() {
    assert_eq!(frame_record(&vec![7, 8, 9]).unwrap(), vec![0, 0, 0, 3, 7, 8, 9]);
    assert_eq!(frame_record(&Vec::new()).unwrap(), vec![0, 0, 0, 0]);
    let mut data = frame_record(&vec![1]).unwrap();
    data.extend(frame_record(&vec![2, 3]).unwrap());
    assert_eq!(split_records(&data).unwrap(), vec![vec![1], vec![2, 3]]);
    assert_eq!(split_records(&Vec::new()).unwrap(), Vec::<Vec<u8>>::new());
    assert!(split_records(&vec![0, 0, 0, 5, 1]).is_none());
    assert!(split_records(&vec![0, 0]).is_none());
}

#[test]
fn entry_for_rejects_unrenderable_time() {
    assert!(matches!(entry_for(&at(12000, 1, 1, 0, 0, 0), vec![1]), Err(LogError::TimeOutOfRange)));
    let e = entry_for(&at(2022, 5, 1, 10, 15, 30), vec![1, 2]).unwrap();
    assert_eq!(e.bytes, vec![0, 0, 0, 2, 1, 2]);
}

#[test]
fn example_request_at_known_time() {
    let hs = headers(&[("X-Test", "1")]);
    let e = prepare_log_entry(&hs, "{\"a\":1}", &at(2022, 5, 1, 10, 15, 30)).unwrap();
    assert_eq!(e.directory, "./data/log_msgpack/2022-05-01/");
    assert_eq!(e.path, "./data/log_msgpack/2022-05-01/2022-05-01_10_15.msgpack");
    let records = split_records(&e.bytes).unwrap();
    assert_eq!(records.len(), 1);
    let v = decode(&records[0]);
    assert!(v["headers"].as_str().unwrap().contains("X-Test: 1"));
    assert_eq!(v["body"], serde_json::from_str::<serde_json::Value>("{\"a\":1}").unwrap());
}

#[test]
fn logged_record_holds_body_and_one_line_per_header() {
    let hs = headers(&[("a", "1"), ("b", "two"), ("c", "3")]);
    let mut store = MemoryStore::new();
    let path = store.log_request(&hs, "[1,2,{\"k\":null}]", &at(2024, 2, 29, 23, 59, 1)).unwrap();
    assert_eq!(path, "./data/log_msgpack/2024-02-29/2024-02-29_23_59.msgpack");
    let records = split_records(&store.read(&path).unwrap()).unwrap();
    assert_eq!(records.len(), 1);
    let v = decode(&records[0]);
    let text = v["headers"].as_str().unwrap();
    assert_eq!(text.lines().count(), 3);
    assert!(text.contains("a: 1") && text.contains("b: two") && text.contains("c: 3"));
    assert_eq!(v["body"], serde_json::from_str::<serde_json::Value>("[1,2,{\"k\":null}]").unwrap());
}

#[test]
fn malformed_body_appends_nothing() {
    let mut store = MemoryStore::new();
    let hs = headers(&[("X-Test", "1")]);
    let t = at(2022, 5, 1, 10, 15, 30);
    let path = store.log_request(&hs, "{\"a\":1}", &t).unwrap();
    let before = store.read(&path).unwrap();
    assert_eq!(store.log_request(&hs, "{\"a\":", &t), Err(LogError::Encoding));
    assert_eq!(store.log_request(&hs, "", &t), Err(LogError::Encoding));
    assert_eq!(store.read(&path).unwrap(), before);
    let mut empty = MemoryStore::new();
    assert_eq!(empty.log_request(&hs, "{\"a\"", &t), Err(LogError::Encoding));
    assert!(empty.read(&path).is_none());
}

#[test]
fn requests_in_one_minute_share_a_file_and_stay_separable() {
    let mut store = MemoryStore::new();
    let n = 5;
    let mut path = String::new();
    for i in 0..n {
        let body = format!("{{\"n\":{}}}", i);
        path = store.log_request(&headers(&[("i", "x")]), &body, &at(2022, 5, 1, 10, 15, i)).unwrap();
    }
    let records = split_records(&store.read(&path).unwrap()).unwrap();
    assert_eq!(records.len(), n as usize);
    for (i, r) in records.iter().enumerate() {
        assert_eq!(decode(r)["body"]["n"], serde_json::Value::from(i as u64));
    }
}

#[test]
fn ensure_twice_keeps_contents() {
    let mut store = MemoryStore::new();
    let dir = "./data/log_msgpack/2022-05-01/".to_string();
    let path = "./data/log_msgpack/2022-05-01/2022-05-01_10_15.msgpack".to_string();
    store.ensure_directory(&dir);
    store.ensure_directory(&dir);
    store.ensure_file(&path);
    assert_eq!(store.append(&path, &vec![1, 2, 3]), Ok(path.clone()));
    store.ensure_file(&path);
    store.ensure_file(&path);
    assert_eq!(store.read(&path).unwrap(), vec![1, 2, 3]);
}

#[test]
fn append_to_missing_file_is_io_error() {
    let mut store = MemoryStore::new();
    assert_eq!(store.append(&"nope".to_string(), &vec![1]), Err(LogError::Io));
    assert!(store.read(&"nope".to_string()).is_none());
}

#[test]
fn echo_returns_input_unchanged() {
    assert_eq!(echo(Vec::new()), Vec::<u8>::new());
    assert_eq!(echo(b"hello, world".to_vec()), b"hello, world".to_vec());
    let binary = vec![0u8, 0xff, 0xfe, 0x80, 0x7f, b'\r', b'\n', 0xc3];
    assert_eq!(echo(binary.clone()), binary);
}

#[test]
fn greeting_and_bind_address() {
    assert_eq!(hi(), "hi rust");
    assert_eq!(concat_host_port("127.0.0.1", 8080), "127.0.0.1:8080");
    assert_eq!(concat_host_port("h", 0), "h:0");
}

#[test]
fn clock_reading_is_in_range() {
    let t = capture_time();
    assert!((1..=12).contains(&t.month) && (1..=31).contains(&t.day));
    assert!(t.hour < 24 && t.minute < 60 && t.second < 60);
}

#[test]
fn log_msgpack_places_record_under_current_day() {
    let e = log_msgpack(&headers(&[("X-Test", "1")]), "{\"a\":1}").unwrap();
    assert!(e.path.starts_with(&e.directory));
    assert!(e.path.ends_with(".msgpack"));
    assert_eq!(split_records(&e.bytes).unwrap().len(), 1);
    assert!(matches!(log_msgpack(&Vec::new(), "nope"), Err(LogError::Encoding)));
}
