use nodedb_core::control::calvin::{
    read_last_applied_epoch, CalvinApplied, NOT_YET_APPLIED_EPOCH,
};
use nodedb_core::wal::double_write::{DoubleWriteBuffer, DwbMode};
use nodedb_core::wal::error::WalError;
use nodedb_core::wal::mmap_reader::MmapWalReader;
use nodedb_core::wal::record::{
    RecordType, WalRecord, ENCRYPTED_FLAG, HEADER_SIZE, MAX_WAL_PAYLOAD_SIZE, REQUIRED_FLAG,
};
use nodedb_core::wal::recovery::recover;
use nodedb_core::wal::replay::{
    filter_segments_by_lsn, replay_segments_mmap, replay_segments_mmap_limit,
    replay_segments_parallel, replay_segments_sequential, Segment,
};
use nodedb_core::wal::writer::{open_dwb_for, resolve_dwb_mode, WalWriter, WalWriterConfig};

/// A log and its double-write ring, each as the bytes of a file.
struct Log {
    writer: WalWriter,
    file: Vec<u8>,
    ring: Vec<u8>,
}

fn buffered() -> WalWriterConfig {
    WalWriterConfig {
        use_direct_io: false,
        ..Default::default()
    }
}

impl Log {
    fn open(config: WalWriterConfig, file: Vec<u8>, ring: Vec<u8>) -> Log {
        let dwb = open_dwb_for(&config, &ring);
        let writer = WalWriter::open(config, &file, dwb).unwrap();
        Log { writer, file, ring }
    }

    fn new() -> Log {
        Log::open(buffered(), vec![], vec![])
    }

    fn append(&mut self, t: u32, vshard: u32, payload: &[u8]) -> Result<u64, WalError> {
        let pending = self.writer.append(t, 1, vshard, 0, payload)?;
        if let Some(w) = &pending.dwb_write {
            w.apply(&mut self.ring);
            self.writer.dwb_written(w);
        }
        if let Some(w) = &pending.flush {
            w.apply(&mut self.file);
            self.writer.buffer_flushed(w);
        }
        self.writer.commit_append(pending)
    }

    fn put(&mut self, payload: &[u8]) -> u64 {
        self.append(RecordType::Put.raw(), 0, payload).unwrap()
    }

    fn sync(&mut self) {
        if let Some(plan) = self.writer.sync() {
            if let Some(w) = &plan.dwb_flush {
                w.apply(&mut self.ring);
                self.writer.dwb_flushed(w);
            }
            plan.log_write.apply(&mut self.file);
            self.writer.buffer_flushed(&plan.log_write);
        }
    }
}

fn read(file: &[u8]) -> Vec<WalRecord> {
    MmapWalReader::open(file).records().unwrap()
}

#[test]
fn mmap_reader_basic() {
    let mut log = Log::new();
    log.put(b"hello");
    log.put(b"world");
    log.sync();

    let records = read(&log.file);
    assert_eq!(records.len(), 2);
    assert_eq!(records[0].payload, b"hello");
    assert_eq!(records[1].payload, b"world");
}

#[test]
fn mmap_reader_empty_file() {
    let records = read(&[]);
    assert!(records.is_empty());
    assert!(MmapWalReader::open(&[]).is_empty());
}

#[test]
fn mmap_reader_truncated_header() {
    // Write 10 bytes — not enough for a header.
    let records = read(&[0u8; 10]);
    assert!(records.is_empty());
}

#[test]
fn replay_mmap_from_lsn() {
    let mut log = Log::new();
    let lsn1 = log.put(b"a");
    let lsn2 = log.put(b"b");
    let lsn3 = log.put(b"c");
    log.sync();
    let segments = [Segment {
        first_lsn: 1,
        data: &log.file,
    }];

    // Replay from lsn2 — should get records b and c.
    let records = replay_segments_mmap(&segments, lsn2).unwrap();
    assert_eq!(records.len(), 2);
    assert_eq!(records[0].header.lsn, lsn2);
    assert_eq!(records[1].header.lsn, lsn3);

    // Replay from lsn1 — all 3.
    let all = replay_segments_mmap(&segments, lsn1).unwrap();
    assert_eq!(all.len(), 3);
}

#[test]
fn write_and_sync_single_record() {
    let mut log = Log::new();
    let lsn = log.put(b"hello");
    assert_eq!(lsn, 1);

    log.sync();
    assert!(log.writer.file_offset() > 0);
    assert_eq!(log.writer.file_offset(), (HEADER_SIZE + 5) as u64);
}

#[test]
fn lsn_increments() {
    let mut log = Log::new();
    let lsn1 = log.put(b"first");
    let lsn2 = log.put(b"second");
    let lsn3 = log.put(b"third");

    assert_eq!(lsn1, 1);
    assert_eq!(lsn2, 2);
    assert_eq!(lsn3, 3);
}

#[test]
fn sealed_writer_rejects_writes() {
    let mut log = Log::new();
    log.writer.seal();

    assert!(matches!(
        log.append(RecordType::Put.raw(), 0, b"rejected"),
        Err(WalError::Sealed)
    ));
}

#[test]
fn reopened_log_goes_on_where_it_ended() {
    let mut log = Log::new();
    log.put(b"one");
    log.put(b"two");
    log.sync();
    let mut log = Log::open(buffered(), log.file, log.ring);
    assert_eq!(log.writer.next_lsn(), 3);
    assert_eq!(log.put(b"three"), 3);
    log.sync();
    let records = read(&log.file);
    assert_eq!(records.len(), 3);
    assert_eq!(records[2].payload, b"three");
}

#[test]
fn log_can_start_at_a_given_number() {
    let w = WalWriter::open_with_start_lsn(buffered(), 500, None).unwrap();
    assert_eq!(w.next_lsn(), 500);
    assert_eq!(w.file_offset(), 0);
}

#[test]
fn torn_record_ends_the_log() {
    let mut log = Log::new();
    log.put(b"whole");
    log.put(b"torn apart");
    log.sync();
    let cut = log.file.len() - 3;
    let records = read(&log.file[..cut]);
    assert_eq!(records.len(), 1);
    let info = recover(&log.file[..cut]).unwrap();
    assert_eq!(info.last_lsn, 1);
    assert_eq!(info.end_offset, (HEADER_SIZE + 5) as u64);
    assert_eq!(info.next_lsn(), 2);
}

#[test]
fn damaged_record_ends_the_log_and_is_in_the_ring() {
    let mut log = Log::new();
    log.put(b"good");
    log.put(b"damaged");
    log.sync();
    let n = log.file.len();
    log.file[n - 1] ^= 0x55;
    assert_eq!(read(&log.file).len(), 1);
    let saved = DoubleWriteBuffer::recover_record(&log.ring, 2).unwrap();
    assert_eq!(saved.payload, b"damaged");
}

#[test]
fn records_of_unknown_types_are_skipped_unless_required() {
    let mut log = Log::new();
    log.append(1000, 0, b"optional").unwrap();
    log.put(b"known");
    log.sync();
    let records = read(&log.file);
    assert_eq!(records.len(), 1);
    assert_eq!(records[0].payload, b"known");

    let mut log = Log::new();
    log.append(1000 | REQUIRED_FLAG, 0, b"must be known").unwrap();
    log.sync();
    assert!(matches!(
        MmapWalReader::open(&log.file).records(),
        Err(WalError::UnknownRequiredRecordType { lsn: 1, .. })
    ));
}

#[test]
fn direct_io_pads_the_log_to_whole_blocks() {
    let mut log = Log::open(WalWriterConfig::default(), vec![], vec![]);
    log.put(b"padded");
    log.sync();
    assert_eq!(log.file.len() % 4096, 0);
    assert_eq!(read(&log.file).len(), 1);
}

#[test]
fn oversized_payload_is_refused() {
    let mut log = Log::new();
    let big = vec![0u8; MAX_WAL_PAYLOAD_SIZE + 1];
    assert!(matches!(
        log.append(RecordType::Put.raw(), 0, &big),
        Err(WalError::PayloadTooLarge { .. })
    ));
}

#[test]
fn full_buffer_is_written_out_first() {
    let config = WalWriterConfig {
        write_buffer_size: 4096,
        use_direct_io: false,
        dwb_mode: Some(DwbMode::Off),
        ..Default::default()
    };
    let mut log = Log::open(config, vec![], vec![]);
    for _ in 0..10 {
        log.put(&[7u8; 1000]);
    }
    assert!(log.writer.file_offset() > 0);
    log.sync();
    assert_eq!(read(&log.file).len(), 10);
    assert!(log.ring.is_empty());
}

#[test]
fn encryption_is_set_before_the_first_record() {
    let mut log = Log::new();
    log.writer.set_encryption_ring(9).unwrap();
    assert_eq!(log.writer.segment_preamble().unwrap().epoch, 9);

    let mut log = Log::new();
    log.put(b"plain");
    match log.writer.set_encryption_ring(9) {
        Err(WalError::EncryptionError { detail }) => assert_eq!(
            detail,
            "set_encryption_ring must be called before writing any records"
        ),
        other => panic!("expected an encryption error, got {other:?}"),
    }
}

#[test]
fn encrypted_records_are_marked() {
    let rec = WalRecord::new(RecordType::Put.raw() | ENCRYPTED_FLAG, 1, 1, 0, 0, vec![1]).unwrap();
    assert_eq!(rec.logical_record_type(), RecordType::Put.raw());
    rec.verify_checksum().unwrap();
    let mut bad = rec.clone();
    bad.payload[0] = 2;
    assert!(matches!(
        bad.verify_checksum(),
        Err(WalError::ChecksumMismatch { lsn: 1 })
    ));
}

#[test]
fn bad_alignment_is_refused() {
    let config = WalWriterConfig {
        alignment: 1000,
        ..buffered()
    };
    assert!(matches!(
        WalWriter::open_with_start_lsn(config, 1, None),
        Err(WalError::InvalidAlignment { alignment: 1000 })
    ));
}

#[test]
fn double_write_mode_follows_the_log() {
    assert_eq!(resolve_dwb_mode(&WalWriterConfig::default()), DwbMode::Direct);
    assert_eq!(resolve_dwb_mode(&buffered()), DwbMode::Buffered);
    let off = WalWriterConfig {
        dwb_mode: Some(DwbMode::Off),
        ..buffered()
    };
    assert!(open_dwb_for(&off, &[]).is_none());
}

fn segment_file(first: u64, n: u64) -> Vec<u8> {
    let mut writer = WalWriter::open_with_start_lsn(buffered(), first, None).unwrap();
    let mut file = vec![];
    for i in 0..n {
        let p = writer
            .append(RecordType::Put.raw(), 1, 0, 0, &[i as u8])
            .unwrap();
        writer.commit_append(p).unwrap();
    }
    let plan = writer.sync().unwrap();
    plan.log_write.apply(&mut file);
    file
}

#[test]
fn replay_runs_over_all_segments_in_order() {
    let files: Vec<Vec<u8>> = (0..5).map(|k| segment_file(1 + 3 * k, 3)).collect();
    let segments: Vec<Segment> = files
        .iter()
        .enumerate()
        .map(|(k, f)| Segment {
            first_lsn: 1 + 3 * k as u64,
            data: f,
        })
        .collect();
    let lsns = |rs: &Vec<WalRecord>| rs.iter().map(|r| r.header.lsn).collect::<Vec<u64>>();

    let all = replay_segments_mmap(&segments, 1).unwrap();
    assert_eq!(lsns(&all), (1..=15).collect::<Vec<u64>>());
    let late = replay_segments_mmap(&segments, 8).unwrap();
    assert_eq!(lsns(&late), (8..=15).collect::<Vec<u64>>());
    assert_eq!(
        lsns(&replay_segments_sequential(&segments, 8).unwrap()),
        lsns(&replay_segments_parallel(&segments, 8).unwrap())
    );
    assert_eq!(filter_segments_by_lsn(&segments, 8).len(), 3);
    assert_eq!(filter_segments_by_lsn(&segments, u64::MAX).len(), 1);

    let (some, more) = replay_segments_mmap_limit(&segments, 2, 4).unwrap();
    assert_eq!(lsns(&some), vec![2, 3, 4, 5]);
    assert!(more);
    let (rest, more) = replay_segments_mmap_limit(&segments, 14, 4).unwrap();
    assert_eq!(lsns(&rest), vec![14, 15]);
    assert!(!more);
    let (none, _) = replay_segments_mmap_limit(&segments, 1, 0).unwrap();
    assert!(none.is_empty());
}

#[test]
fn broken_segment_stops_the_replay() {
    let mut log = Log::new();
    log.append(1000 | REQUIRED_FLAG, 0, b"?").unwrap();
    log.sync();
    let good = segment_file(1, 2);
    let segments = [
        Segment {
            first_lsn: 1,
            data: &good,
        },
        Segment {
            first_lsn: 3,
            data: &log.file,
        },
    ];
    assert!(replay_segments_mmap(&segments, 1).is_err());
}

fn append_calvin_applied(log: &mut Log, vshard: u32, epoch: u64, position: u32) {
    let payload = CalvinApplied { epoch, position }.to_bytes();
    log.append(RecordType::CalvinApplied.raw(), vshard, &payload)
        .unwrap();
}

fn last_applied(log: &Log, vshard: u32) -> u64 {
    read_last_applied_epoch(&read(&log.file), vshard).expect("recovery scan should succeed")
}

#[test]
fn scheduler_restart_reads_last_applied_epoch_after_five_epochs() {
    let vshard_id = 3u32;
    let mut log = Log::new();
    for epoch in 1u64..=5 {
        append_calvin_applied(&mut log, vshard_id, epoch, 0);
    }
    log.sync();

    let log = Log::open(buffered(), log.file, log.ring);
    assert_eq!(
        last_applied(&log, vshard_id),
        5,
        "after five epochs, last_applied_epoch should be 5"
    );
}

#[test]
fn scheduler_restart_returns_max_epoch_not_last_written() {
    let vshard_id = 7u32;
    let mut log = Log::new();
    append_calvin_applied(&mut log, vshard_id, 3, 0);
    append_calvin_applied(&mut log, vshard_id, 1, 0);
    append_calvin_applied(&mut log, vshard_id, 5, 0);
    append_calvin_applied(&mut log, vshard_id, 2, 0);
    log.sync();

    let log = Log::open(buffered(), log.file, log.ring);
    assert_eq!(
        last_applied(&log, vshard_id),
        5,
        "scanner should return the max epoch (5), not the last written (2)"
    );
}

#[test]
fn scheduler_restart_greenfield_returns_sentinel() {
    let log = Log::new();
    let last_epoch = last_applied(&log, 1);
    assert_eq!(
        last_epoch, NOT_YET_APPLIED_EPOCH,
        "greenfield WAL should return the not-yet-applied sentinel ({NOT_YET_APPLIED_EPOCH})"
    );
    assert_eq!(NOT_YET_APPLIED_EPOCH, u64::MAX);
}

#[test]
fn scheduler_restart_vshard_isolation() {
    let mut log = Log::new();
    append_calvin_applied(&mut log, 1, 10, 0);
    append_calvin_applied(&mut log, 2, 99, 0);
    append_calvin_applied(&mut log, 1, 20, 0);
    log.sync();

    let log = Log::open(buffered(), log.file, log.ring);
    let e1 = last_applied(&log, 1);
    let e2 = last_applied(&log, 2);
    assert_eq!(e1, 20, "vshard 1 should see its own max epoch (20)");
    assert_eq!(e2, 99, "vshard 2 should see its own max epoch (99)");
}

#[test]
fn malformed_applied_epoch_is_reported() {
    let mut log = Log::new();
    log.append(RecordType::CalvinApplied.raw(), 1, b"short").unwrap();
    log.sync();
    assert!(read_last_applied_epoch(&read(&log.file), 1).is_err());
    assert_eq!(
        read_last_applied_epoch(&read(&log.file), 2).unwrap(),
        NOT_YET_APPLIED_EPOCH
    );
}

#[test]
fn record_cut_off_anywhere_hides_no_other() {
    let mut log = Log::new();
    log.put(b"one");
    log.put(b"two");
    log.sync();
    let end = log.file.len();
    log.put(b"the last one");
    log.sync();
    for cut in end..log.file.len() {
        let file = &log.file[..cut];
        let records = read(file);
        assert_eq!(records.len(), 2);
        assert_eq!(records[1].payload, b"two");
        assert_eq!(recover(file).unwrap().end_offset, end as u64);
    }
    assert_eq!(read(&log.file).len(), 3);
}

#[test]
fn records_behind_a_damaged_one_are_not_read() {
    let mut log = Log::new();
    log.put(b"good");
    log.sync();
    let at = log.file.len() + HEADER_SIZE;
    log.put(b"bad");
    log.put(b"behind");
    log.sync();
    log.file[at] ^= 1;
    let records = read(&log.file);
    assert_eq!(records.len(), 1);
    assert_eq!(records[0].payload, b"good");
}

#[test]
fn records_survive_flushes_and_reopening() {
    let config = WalWriterConfig {
        write_buffer_size: 128,
        alignment: 128,
        ..buffered()
    };
    let mut log = Log::open(config, vec![], vec![]);
    let mut wanted: Vec<Vec<u8>> = vec![];
    for round in 0..3u8 {
        for i in 0..5u8 {
            let payload = vec![round, i, 7];
            assert_eq!(log.put(&payload), wanted.len() as u64 + 1);
            wanted.push(payload);
        }
        log.sync();
        log = Log::open(config, log.file, log.ring);
    }
    let records = read(&log.file);
    assert_eq!(records.len(), 15);
    for (i, r) in records.iter().enumerate() {
        assert_eq!(r.header.lsn, i as u64 + 1);
        assert_eq!(r.payload, wanted[i]);
    }
}

#[test]
fn reopened_direct_log_starts_at_a_block() {
    let config = WalWriterConfig::default();
    let mut log = Log::open(config, vec![], vec![]);
    log.put(b"one");
    log.sync();
    assert_eq!(log.file.len(), 4096);

    let mut log = Log::open(config, log.file, log.ring);
    assert_eq!(log.writer.file_offset, 0);
    assert_eq!(log.writer.file_offset(), 4096);
    assert_eq!(log.put(b"two"), 2);
    log.put(&vec![3u8; 5000]);
    log.sync();
    assert_eq!(log.writer.file_offset(), 8192);
    let records = read(&log.file);
    assert_eq!(records.len(), 3);
    assert_eq!(records[0].payload, b"one");
    assert_eq!(records[1].payload, b"two");

    // The last block holds part of the third record.
    let mut log = Log::open(config, log.file, log.ring);
    assert_eq!(log.writer.file_offset, 4096);
    assert_eq!(log.writer.file_offset(), 8192);
    assert_eq!(log.put(b"four"), 4);
    log.sync();
    let records = read(&log.file);
    assert_eq!(records.len(), 4);
    assert_eq!(records[2].payload, vec![3u8; 5000]);
    assert_eq!(records[3].payload, b"four");
}

#[test]
fn padded_log_goes_on_through_the_page_cache() {
    let mut log = Log::open(WalWriterConfig::default(), vec![], vec![]);
    log.put(b"one");
    log.sync();
    let mut log = Log::open(buffered(), log.file, log.ring);
    assert_eq!(log.writer.file_offset(), (HEADER_SIZE + 3) as u64);
    assert_eq!(log.put(b"two"), 2);
    log.sync();
    let records = read(&log.file);
    assert_eq!(records.len(), 2);
    assert_eq!(records[1].payload, b"two");
}

#[test]
fn preamble_is_stepped_over() {
    let mut log = Log::new();
    log.writer.set_encryption_ring(9).unwrap();
    log.put(b"secret");
    log.sync();
    let info = recover(&log.file).unwrap();
    assert_eq!(info.last_lsn, 1);
    assert_eq!(info.end_offset, (16 + HEADER_SIZE + 6) as u64);

    let mut log = Log::open(buffered(), log.file, log.ring);
    assert_eq!(log.writer.file_offset(), info.end_offset);
    assert_eq!(log.put(b"more"), 2);
    log.sync();
    assert_eq!(&log.file[..4], b"WALP");
    assert_eq!(recover(&log.file).unwrap().last_lsn, 2);
    // Readers find the records behind it.
    let records = read(&log.file);
    assert_eq!(records.len(), 2);
    assert_eq!(records[0].payload, b"secret");
    let segments = [Segment {
        first_lsn: 1,
        data: &log.file,
    }];
    assert_eq!(replay_segments_mmap(&segments, 2).unwrap().len(), 1);
    assert_eq!(replay_segments_mmap_limit(&segments, 1, 1).unwrap().0.len(), 1);
    // A preamble alone is a log without records.
    assert_eq!(recover(&log.file[..16]).unwrap().end_offset, 16);
    assert_eq!(recover(&log.file[..16]).unwrap().last_lsn, 0);
}

#[test]
fn direct_log_reads_back_after_every_sync() {
    let config = WalWriterConfig {
        write_buffer_size: 4096,
        ..Default::default()
    };
    let mut log = Log::open(config, vec![], vec![]);
    let mut wanted: Vec<Vec<u8>> = vec![];
    for i in 0..40u8 {
        // Some records fill the buffer, others share a block.
        let n = if i % 7 == 3 { 4096 - HEADER_SIZE } else { 300 + i as usize };
        let payload = vec![i; n];
        log.put(&payload);
        wanted.push(payload);
        if i % 3 == 0 {
            log.sync();
            // There is nothing left to write.
            assert!(log.writer.sync().is_none());
            let got: Vec<Vec<u8>> = read(&log.file).into_iter().map(|r| r.payload).collect();
            assert_eq!(got, wanted);
            assert_eq!(log.file.len() % 4096, 0);
            assert_eq!(log.writer.file_offset(), log.file.len() as u64);
        }
    }
}
