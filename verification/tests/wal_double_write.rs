use nodedb_core::wal::align::{is_aligned, DEFAULT_ALIGNMENT};
use nodedb_core::wal::double_write::{
    slot_offset, slot_stride, DoubleWriteBuffer, DwbMode, DWB_CAPACITY, DWB_HEADER_STRIDE,
    DWB_SLOT_PAYLOAD_MAX, DWB_SLOT_STRIDE,
};
use nodedb_core::wal::error::WalError;
use nodedb_core::wal::record::{RecordType, WalRecord};

fn open_buffered(file: &[u8]) -> DoubleWriteBuffer {
    DoubleWriteBuffer::open(DwbMode::Buffered, file).unwrap()
}

fn record(lsn: u64, payload: Vec<u8>) -> WalRecord {
    WalRecord::new(RecordType::Put.raw(), lsn, 1, 0, 0, payload).unwrap()
}

fn write_deferred(dwb: &mut DoubleWriteBuffer, file: &mut Vec<u8>, rec: &WalRecord) {
    let w = dwb.write_record_deferred(rec).unwrap();
    w.apply(file);
    dwb.slot_written(&w);
}

fn flush(dwb: &mut DoubleWriteBuffer, file: &mut Vec<u8>) {
    if let Some(w) = dwb.flush() {
        w.apply(file);
        dwb.flushed(&w);
    }
}

fn write(dwb: &mut DoubleWriteBuffer, file: &mut Vec<u8>, rec: &WalRecord) {
    write_deferred(dwb, file, rec);
    flush(dwb, file);
}

#[test]
fn write_and_recover() {
    let mut file: Vec<u8> = vec![];
    let mut dwb = open_buffered(&file);

    let rec = record(42, b"hello double-write".to_vec());
    write(&mut dwb, &mut file, &rec);

    // Recover by LSN.
    let recovered = DoubleWriteBuffer::recover_record(&file, 42);
    assert!(recovered.is_some());
    let rec = recovered.unwrap();
    assert_eq!(rec.header.lsn, 42);
    assert_eq!(rec.payload, b"hello double-write");
}

#[test]
fn recover_nonexistent_returns_none() {
    let file: Vec<u8> = vec![];
    let _dwb = open_buffered(&file);
    let result = DoubleWriteBuffer::recover_record(&file, 999);
    assert!(result.is_none());
}

#[test]
fn survives_reopen() {
    let mut file: Vec<u8> = vec![];
    {
        let mut dwb = open_buffered(&file);
        let rec = record(7, b"durable".to_vec());
        write(&mut dwb, &mut file, &rec);
    }

    let dwb = open_buffered(&file);
    assert_eq!(dwb.count, 1);
    assert_eq!(dwb.write_pos, 1);
    let recovered = DoubleWriteBuffer::recover_record(&file, 7);
    assert!(recovered.is_some());
    assert_eq!(recovered.unwrap().payload, b"durable");
}

#[test]
fn batch_deferred_writes_and_flush() {
    let mut file: Vec<u8> = vec![];
    let mut dwb = open_buffered(&file);

    for lsn in 1..=5u64 {
        let rec = record(lsn, format!("batch-{lsn}").into_bytes());
        write_deferred(&mut dwb, &mut file, &rec);
    }

    assert!(dwb.dirty);
    flush(&mut dwb, &mut file);
    assert!(!dwb.dirty);

    for lsn in 1..=5u64 {
        let recovered = DoubleWriteBuffer::recover_record(&file, lsn);
        assert!(recovered.is_some(), "LSN {lsn} should be recoverable");
        assert_eq!(
            recovered.unwrap().payload,
            format!("batch-{lsn}").into_bytes()
        );
    }
}

#[test]
fn flush_is_idempotent() {
    let mut file: Vec<u8> = vec![];
    let mut dwb = open_buffered(&file);

    flush(&mut dwb, &mut file);
    assert!(!dwb.dirty);

    let rec = record(1, b"data".to_vec());
    write_deferred(&mut dwb, &mut file, &rec);
    flush(&mut dwb, &mut file);
    flush(&mut dwb, &mut file);
    assert!(!dwb.dirty);
    assert!(dwb.flush().is_none());
}

#[test]
fn slot_stride_is_o_direct_aligned() {
    // The DWB slot stride must be a multiple of the WAL alignment
    // (4 KiB) so the file can be opened with O_DIRECT alongside an
    // O_DIRECT WAL. With a non-aligned stride, every slot after the
    // first lands at an unaligned offset and the kernel rejects the
    // write with -EINVAL.
    assert!(
        is_aligned(DWB_SLOT_STRIDE, DEFAULT_ALIGNMENT),
        "DWB slot stride {DWB_SLOT_STRIDE} bytes is not a multiple of {DEFAULT_ALIGNMENT}"
    );
    assert!(is_aligned(DWB_HEADER_STRIDE, DEFAULT_ALIGNMENT));
    for i in 0..DWB_CAPACITY as u32 {
        assert!(is_aligned(slot_offset(i) as usize, DEFAULT_ALIGNMENT));
    }
    assert_eq!(slot_stride(), DWB_SLOT_STRIDE);
}

#[test]
fn recover_after_wraparound() {
    let mut file: Vec<u8> = vec![];
    let mut dwb = open_buffered(&file);

    let total = DWB_CAPACITY as u64 + 5;
    for lsn in 1..=total {
        let rec = record(lsn, format!("wrap-{lsn}").into_bytes());
        write_deferred(&mut dwb, &mut file, &rec);
    }
    flush(&mut dwb, &mut file);

    for lsn in (total - 4)..=total {
        let recovered = DoubleWriteBuffer::recover_record(&file, lsn);
        assert!(
            recovered.is_some(),
            "LSN {lsn} should be recoverable after wrap-around"
        );
        assert_eq!(
            recovered.unwrap().payload,
            format!("wrap-{lsn}").into_bytes()
        );
    }

    for lsn in 1..=5u64 {
        let recovered = DoubleWriteBuffer::recover_record(&file, lsn);
        assert!(
            recovered.is_none(),
            "LSN {lsn} should have been overwritten by wrap-around"
        );
    }
}

#[test]
fn bytes_written_counter_increments() {
    let mut file: Vec<u8> = vec![];
    let mut dwb = open_buffered(&file);
    let before = dwb.bytes_written;
    let rec = record(1, b"counted".to_vec());
    write(&mut dwb, &mut file, &rec);
    assert!(dwb.bytes_written > before);
}

#[test]
fn direct_mode_writes_whole_blocks() {
    let mut file: Vec<u8> = vec![];
    let mut dwb = DoubleWriteBuffer::open(DwbMode::Direct, &file).unwrap();
    let rec = record(3, b"block".to_vec());
    let w = dwb.write_record_deferred(&rec).unwrap();
    assert!(is_aligned(w.offset as usize, DEFAULT_ALIGNMENT));
    assert!(is_aligned(w.bytes.len(), DEFAULT_ALIGNMENT));
    w.apply(&mut file);
    dwb.slot_written(&w);
    let h = dwb.flush().unwrap();
    assert_eq!(h.offset, 0);
    assert_eq!(h.bytes.len(), DWB_HEADER_STRIDE);
    h.apply(&mut file);
    dwb.flushed(&h);
    assert_eq!(
        DoubleWriteBuffer::recover_record(&file, 3).unwrap().payload,
        b"block"
    );
}

#[test]
fn large_records_are_passed_over() {
    let file: Vec<u8> = vec![];
    let dwb = open_buffered(&file);
    let fits = record(1, vec![0xAA; DWB_SLOT_PAYLOAD_MAX]);
    assert!(dwb.write_record_deferred(&fits).is_some());
    let too_large = record(2, vec![0xAA; DWB_SLOT_PAYLOAD_MAX + 1]);
    assert!(dwb.write_record_deferred(&too_large).is_none());
}

#[test]
fn switched_off_ring_cannot_be_opened() {
    assert!(matches!(
        DoubleWriteBuffer::open(DwbMode::Off, &[]),
        Err(WalError::DwbOffNotOpenable)
    ));
}

#[test]
fn damaged_slot_is_not_recovered() {
    let mut file: Vec<u8> = vec![];
    let mut dwb = open_buffered(&file);
    let rec = record(5, b"precious".to_vec());
    write(&mut dwb, &mut file, &rec);
    let last = slot_offset(0) as usize + 4 + 46 + 3;
    file[last] ^= 0xFF;
    assert!(DoubleWriteBuffer::recover_record(&file, 5).is_none());
}

#[test]
fn records_are_found_without_the_header() {
    let mut file: Vec<u8> = vec![];
    let mut dwb = open_buffered(&file);
    for lsn in 1..=3 {
        write(&mut dwb, &mut file, &record(lsn, vec![lsn as u8]));
    }
    for b in file.iter_mut().take(DWB_HEADER_STRIDE) {
        *b = 0xFF;
    }
    for lsn in 1..=3 {
        let rec = DoubleWriteBuffer::recover_record(&file, lsn).unwrap();
        assert_eq!(rec.payload, vec![lsn as u8]);
    }
}

#[test]
fn ring_goes_on_in_the_other_mode() {
    let mut file: Vec<u8> = vec![];
    let mut dwb = open_buffered(&file);
    write(&mut dwb, &mut file, &record(1, b"buffered".to_vec()));
    write(&mut dwb, &mut file, &record(2, b"too".to_vec()));

    let mut again = DoubleWriteBuffer::open(DwbMode::Direct, &file).unwrap();
    assert_eq!((again.count, again.write_pos), (2, 2));
    write(&mut again, &mut file, &record(3, b"direct".to_vec()));
    assert_eq!((again.count, again.write_pos), (3, 3));
    assert_eq!(
        DoubleWriteBuffer::recover_record(&file, 1).unwrap().payload,
        b"buffered"
    );
    assert_eq!(
        DoubleWriteBuffer::recover_record(&file, 3).unwrap().payload,
        b"direct"
    );
}

#[test]
fn record_is_made_durable_at_once() {
    let mut file: Vec<u8> = vec![];
    let mut dwb = open_buffered(&file);
    let writes = dwb.write_record(&record(5, b"now".to_vec()));
    let slot = writes.slot.unwrap();
    let header = writes.header.unwrap();
    slot.apply(&mut file);
    dwb.slot_written(&slot);
    header.apply(&mut file);
    dwb.flushed(&header);
    assert!(!dwb.dirty);
    let again = open_buffered(&file);
    assert_eq!((again.count, again.write_pos), (1, 1));
    assert_eq!(DoubleWriteBuffer::recover_record(&file, 5).unwrap().payload, b"now");

    // What no slot takes leaves nothing to write.
    let writes = again.write_record(&record(6, vec![0; 65537]));
    assert!(writes.slot.is_none() && writes.header.is_none());
}
