use research_utility::bincode_log_file::{
    item_of, scan_len_and_tail, BincodeLogFile, Decoded, LogFault,
};

type TestItem = (u32, String);

fn encode(item: &TestItem) -> Vec<u8> {
    bincode::serialize(item).expect("failed to serialize item")
}

fn decode(bytes: &[u8]) -> Decoded<TestItem> {
    match bincode::deserialize::<TestItem>(bytes) {
        Ok(item) => Decoded::Value(item),
        Err(error) => match &*error {
            bincode::ErrorKind::Io(io) if io.kind() == std::io::ErrorKind::UnexpectedEof => {
                Decoded::UnexpectedEnd
            }
            _ => Decoded::Failed(error.to_string()),
        },
    }
}

fn open(bytes: &Vec<u8>, capacity: usize) -> BincodeLogFile {
    let scan = scan_len_and_tail(bytes);
    let cut = match scan.tail() {
        Some((offset, size)) => {
            let from = offset as usize;
            matches!(decode(&bytes[from..from + size as usize]), Decoded::UnexpectedEnd)
        }
        None => false,
    };
    BincodeLogFile::open_with_cache_capacity(&scan, cut, capacity)
}

fn append(log: &mut BincodeLogFile, bytes: &mut Vec<u8>, item: &TestItem) {
    log.append_in(bytes, &encode(item)).expect("append failed");
}

fn get(log: &mut BincodeLogFile, bytes: &Vec<u8>, index: usize) -> Option<TestItem> {
    match log.get_in(bytes, index).expect("get failed") {
        Some(payload) => item_of(0, decode(&payload)).expect("item failed"),
        None => None,
    }
}

#[test]
fn append_get_len_and_iter_work() {
    let mut bytes: Vec<u8> = Vec::new();
    let mut log = open(&bytes, 2);
    let items: Vec<TestItem> =
        vec![(1, "first".to_string()), (2, "second".to_string()), (3, "third".to_string())];
    for item in &items {
        append(&mut log, &mut bytes, item);
    }
    assert_eq!(log.len(), items.len());
    assert_eq!(get(&mut log, &bytes, 0), Some(items[0].clone()));
    assert_eq!(get(&mut log, &bytes, 2), Some(items[2].clone()));
    let iter_items: Vec<TestItem> = log
        .items_in(&bytes)
        .iter()
        .map(|payload| bincode::deserialize(payload).expect("iterator item failed"))
        .collect();
    assert_eq!(iter_items, items);
}

#[test]
fn get_out_of_bounds_returns_none() {
    let mut bytes: Vec<u8> = Vec::new();
    let mut log = open(&bytes, 1024);
    assert_eq!(get(&mut log, &bytes, 0), None);
    append(&mut log, &mut bytes, &(9, "item".to_string()));
    assert_eq!(get(&mut log, &bytes, 1), None);
}

#[test]
fn open_ignores_incomplete_trailing_payload() {
    let item: TestItem = (1, "ok".to_string());
    let mut bytes: Vec<u8> = Vec::new();
    let mut log = open(&bytes, 1024);
    append(&mut log, &mut bytes, &item);
    let partial_payload_len = 64_u64;
    bytes.extend_from_slice(&partial_payload_len.to_le_bytes());
    bytes.extend_from_slice(&[1_u8, 2, 3, 4]);

    let mut reopened = open(&bytes, 1024);
    assert_eq!(reopened.len(), 1);
    assert_eq!(get(&mut reopened, &bytes, 0), Some(item));
}

#[test]
fn open_ignores_incomplete_trailing_length_prefix() {
    let bytes = vec![7_u8, 8, 9];
    let log = open(&bytes, 1024);
    assert_eq!(log.len(), 0);
    assert!(log.is_empty());
}

#[test]
fn open_ignores_truncated_tail_record_with_matching_length_prefix() {
    let item: TestItem = (7, "abcdef".to_string());
    let payload = encode(&item);
    let truncated_len = payload.len() / 2;
    let mut bytes = (truncated_len as u64).to_le_bytes().to_vec();
    bytes.extend_from_slice(&payload[..truncated_len]);
    let log = open(&bytes, 1024);
    assert_eq!(log.len(), 0);
}

#[test]
fn get_treats_unexpected_eof_deserialize_as_missing_item() {
    let bad_item: TestItem = (11, "this payload is intentionally truncated".to_string());
    let good_item: TestItem = (12, "good".to_string());
    let bad_payload = encode(&bad_item);
    let bad_len = bad_payload.len() / 2;
    let good_payload = encode(&good_item);
    let mut bytes = (bad_len as u64).to_le_bytes().to_vec();
    bytes.extend_from_slice(&bad_payload[..bad_len]);
    bytes.extend_from_slice(&(good_payload.len() as u64).to_le_bytes());
    bytes.extend_from_slice(&good_payload);

    let mut log = open(&bytes, 1024);
    assert_eq!(log.len(), 2);
    assert_eq!(get(&mut log, &bytes, 0), None);
    assert_eq!(get(&mut log, &bytes, 1), Some(good_item));
}

#[test]
fn framed_bytes_are_prefix_and_payload() {
    let mut bytes: Vec<u8> = Vec::new();
    let mut log = open(&bytes, 4);
    log.append_in(&mut bytes, &vec![0xaa, 0xbb]).unwrap();
    log.append_in(&mut bytes, &vec![]).unwrap();
    assert_eq!(
        bytes,
        vec![2, 0, 0, 0, 0, 0, 0, 0, 0xaa, 0xbb, 0, 0, 0, 0, 0, 0, 0, 0]
    );
    assert_eq!(log.get_in(&bytes, 0).unwrap(), Some(vec![0xaa, 0xbb]));
    assert_eq!(log.get_in(&bytes, 1).unwrap(), Some(vec![]));
}

#[test]
fn small_cache_serves_every_index_in_any_order() {
    for capacity in [0_usize, 1, 2, 3, 50] {
        let mut bytes: Vec<u8> = Vec::new();
        let mut log = open(&bytes, capacity);
        for i in 0..40_u8 {
            let payload: Vec<u8> = vec![i; (i as usize * 7) % 11];
            log.append_in(&mut bytes, &payload).unwrap();
        }
        for step in 0..200_usize {
            let index = (step * 17) % 40;
            let expected: Vec<u8> = vec![index as u8; (index * 7) % 11];
            assert_eq!(log.get_in(&bytes, index).unwrap(), Some(expected));
        }
        assert_eq!(log.get_in(&bytes, 40).unwrap(), None);
    }
}

#[test]
fn append_refuses_a_file_that_changed() {
    let mut bytes: Vec<u8> = Vec::new();
    let mut log = open(&bytes, 4);
    log.append_in(&mut bytes, &vec![1, 2, 3]).unwrap();
    bytes.push(9);
    let before = bytes.clone();
    let fault = log.append_in(&mut bytes, &vec![4]).unwrap_err();
    assert_eq!(
        fault.text("/tmp/log.bin"),
        "File /tmp/log.bin changed unexpectedly (expected end 11, got 12)"
    );
    assert_eq!(bytes, before);
    assert_eq!(log.len(), 1);
}

#[test]
fn reload_sees_records_written_by_others() {
    let mut bytes: Vec<u8> = Vec::new();
    let mut writer = open(&bytes, 4);
    writer.append_in(&mut bytes, &vec![1]).unwrap();
    let mut reader = BincodeLogFile::open(&scan_len_and_tail(&bytes), false);
    assert_eq!(reader.get_in(&bytes, 0).unwrap(), Some(vec![1]));
    writer.append_in(&mut bytes, &vec![2, 2]).unwrap();
    writer.append_in(&mut bytes, &vec![3, 3, 3]).unwrap();
    assert_eq!(reader.get_in(&bytes, 2).unwrap(), None);
    let scan = scan_len_and_tail(&bytes);
    assert_eq!(reader.reload(&scan, false), 3);
    assert_eq!(reader.get_in(&bytes, 2).unwrap(), Some(vec![3, 3, 3]));
    assert_eq!(reader.get_in(&bytes, 1).unwrap(), Some(vec![2, 2]));
}

#[test]
fn reload_drops_what_is_behind_the_end() {
    let mut bytes: Vec<u8> = Vec::new();
    let mut log = open(&bytes, 2);
    for i in 0..5_u8 {
        log.append_in(&mut bytes, &vec![i]).unwrap();
    }
    bytes.truncate(9);
    let scan = scan_len_and_tail(&bytes);
    assert_eq!(log.reload(&scan, false), 1);
    assert_eq!(log.get_in(&bytes, 0).unwrap(), Some(vec![0]));
    assert_eq!(log.get_in(&bytes, 1).unwrap(), None);
    log.append_in(&mut bytes, &vec![7]).unwrap();
    assert_eq!(log.get_in(&bytes, 1).unwrap(), Some(vec![7]));
}

#[test]
fn searches_and_iterators_report_faults() {
    let mut bytes: Vec<u8> = Vec::new();
    let mut log = open(&bytes, 2);
    log.append_in(&mut bytes, &vec![1]).unwrap();
    log.append_in(&mut bytes, &vec![2]).unwrap();
    log.append_in(&mut bytes, &vec![3]).unwrap();
    log.append_in(&mut bytes, &vec![4]).unwrap();
    // The cache holds the offsets of the last two items.
    let mut search = log.begin_get(1).expect("item 1 is there");
    assert!(!search.is_finished());
    assert_eq!(search.offset(), 0);
    let fault = log.advance(&mut search, &vec![0xff; 8]).unwrap_err();
    assert_eq!(fault.text("f"), "Byte offset overflow in f");
    assert!(log.begin_get(4).is_none());

    let mut walk = log.iter();
    assert!(!walk.is_done());
    let fault = walk.take_prefix(Err("gone".to_string())).unwrap_err();
    assert_eq!(fault.text("f"), "Failed to read iterator length prefix in f: gone");
    assert!(walk.is_done());

    let mut walk = log.iter();
    assert_eq!(walk.take_prefix(Ok(vec![1, 0, 0, 0, 0, 0, 0, 0])).unwrap(), 1);
    let fault = walk.take_payload(1, Err("short".to_string())).unwrap_err();
    assert_eq!(fault.text("f"), "Failed to read iterator payload (1 bytes) in f: short");
    assert!(walk.is_done());
}

#[test]
fn decoding_outcomes_become_items() {
    assert_eq!(item_of(3, Decoded::Value(5)).unwrap(), Some(5));
    assert_eq!(item_of::<u8>(3, Decoded::UnexpectedEnd).unwrap(), None);
    let fault = item_of::<u8>(3, Decoded::Failed("bad tag".to_string())).unwrap_err();
    assert_eq!(
        fault.text("a.bin"),
        "Failed to bincode-deserialize item at offset 3 in a.bin: bad tag"
    );
}

#[test]
fn fault_texts() {
    let e = || "E".to_string();
    let cases: Vec<(LogFault, &str)> = vec![
        (LogFault::CreateParent(e()), "Failed to create parent directories for p: E"),
        (LogFault::Open(e()), "Failed to open bincode log file p: E"),
        (LogFault::Metadata(e()), "Failed to read metadata for p: E"),
        (LogFault::SeekStart(e()), "Failed to seek start of p: E"),
        (LogFault::PayloadTooLarge, "Payload length too large in p"),
        (
            LogFault::Skip { payload_len: 12, error: e() },
            "Failed to skip 12 payload bytes in p: E",
        ),
        (LogFault::ScanCount, "Item count overflow while scanning p"),
        (LogFault::Serialize(e()), "Failed to bincode-serialize value for p: E"),
        (LogFault::SeekEnd(e()), "Failed to seek end of p: E"),
        (LogFault::WritePrefix(e()), "Failed to write length prefix to p: E"),
        (LogFault::WritePayload(e()), "Failed to write payload to p: E"),
        (LogFault::AppendCount, "Item count overflow while appending to p"),
        (LogFault::AppendOffset, "Byte offset overflow while appending to p"),
        (LogFault::Flush(e()), "Failed to flush p: E"),
        (LogFault::Seek { offset: 10, error: e() }, "Failed to seek p to offset 10: E"),
        (
            LogFault::ReadPrefix { offset: 10, error: e() },
            "Failed to read length prefix at offset 10 in p: E",
        ),
        (
            LogFault::PayloadExceedsMemory { payload_len: 7, offset: 8 },
            "Payload length 7 at offset 8 exceeds usize in p",
        ),
        (
            LogFault::ReadPayload { payload_len: 7, offset: 8, error: e() },
            "Failed to read payload of 7 bytes at offset 8 in p: E",
        ),
        (LogFault::CloneHandle(e()), "Failed to clone file handle for p iterator: E"),
        (LogFault::SeekIterator(e()), "Failed to seek iterator start for p: E"),
        (
            LogFault::IteratorPayloadExceedsMemory(9),
            "Iterator payload length 9 exceeds usize in p",
        ),
        (LogFault::IteratorDeserialize(e()), "Failed to deserialize iterator item in p: E"),
    ];
    for (fault, expected) in cases {
        assert_eq!(fault.text("p"), expected);
    }
}

#[test]
fn the_capacity_of_the_cache_is_never_seen() {
    let run = |capacity: usize| {
        let mut bytes: Vec<u8> = Vec::new();
        let mut log = open(&bytes, capacity);
        let mut replies: Vec<String> = Vec::new();
        for round in 0..40_usize {
            let payload = vec![round as u8; round % 5];
            let done = log.append_in(&mut bytes, &payload).is_ok();
            replies.push(format!("{done} {}", log.len()));
            for index in [0, round / 2, round, round + 1, (round * 7) % 11] {
                replies.push(format!("{:?}", log.get_in(&bytes, index).unwrap()));
            }
            if round % 6 == 0 {
                let cut = round % 12 == 0;
                replies.push(format!("{}", log.reload(&scan_len_and_tail(&bytes), cut)));
                replies.push(format!("{}", log.append_in(&mut bytes, &vec![1]).is_ok()));
                replies.push(format!("{}", log.reload(&scan_len_and_tail(&bytes), false)));
            }
        }
        (bytes, replies)
    };
    let first = run(0);
    for capacity in [1, 2, 7, 1000] {
        assert_eq!(run(capacity), first);
    }
}
