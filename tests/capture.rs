use pktengine::capture::{count_frames, scan_capture, CaptureError};
use pktengine::scan::{summarize, ScanError};

fn record(ts: u32, payload: &[u8]) -> Vec<u8> {
    let mut r = Vec::new();
    r.extend_from_slice(&ts.to_be_bytes());
    r.extend_from_slice(&5u32.to_be_bytes());
    r.extend_from_slice(&(payload.len() as u32).to_be_bytes());
    r.extend_from_slice(&(payload.len() as u32 + 4).to_be_bytes());
    r.extend_from_slice(payload);
    r
}

fn capture(records: &[Vec<u8>]) -> Vec<u8> {
    let mut c = vec![0xd4u8; 24];
    for r in records {
        c.extend_from_slice(r);
    }
    c
}

#[test]
fn well_formed_records_give_one_frame_each() {
    let a = vec![1u8; 20];
    let b = vec![2u8; 60];
    let c = vec![3u8; 14];
    let data = capture(&[record(10, &a), record(11, &b), record(12, &c)]);
    let mut frames = scan_capture(&data, 9).unwrap();
    assert_eq!(frames.len(), 3);
    assert_eq!(frames[0].pkt_ptr(), 24);
    assert_eq!(frames[1].pkt_ptr(), 24 + 16 + 20);
    assert_eq!(frames[2].pkt_ptr(), 24 + 16 + 20 + 16 + 60);
    assert_eq!(frames[1].timestamp(), 11);
    assert_eq!(frames[2].file_ptr(), 9);
    assert_eq!(frames[1]._get_packet(false), b);
    assert_eq!(count_frames(&data, 9), Ok(3));
}

#[test]
fn empty_and_header_only_files() {
    assert_eq!(count_frames(&[], 0), Ok(0));
    assert_eq!(count_frames(&[0u8; 10], 0), Ok(0));
    assert_eq!(count_frames(&capture(&[]), 0), Ok(0));
}

#[test]
fn short_trailing_header_ends_cleanly() {
    let mut data = capture(&[record(1, &[0u8; 30])]);
    data.extend_from_slice(&[0u8; 15]);
    assert_eq!(count_frames(&data, 0), Ok(1));
}

#[test]
fn truncated_last_record_is_an_error() {
    let mut data = capture(&[record(1, &[0u8; 30]), record(2, &[0u8; 40])]);
    data.truncate(data.len() - 1);
    assert_eq!(
        scan_capture(&data, 0).unwrap_err(),
        CaptureError::TruncatedPayload { offset: 24 + 16 + 30 }
    );
    assert_eq!(
        count_frames(&data, 0),
        Err(CaptureError::TruncatedPayload { offset: 70 })
    );
}

#[test]
fn runt_record_is_an_error() {
    let data = capture(&[record(1, &[0u8; 30]), record(2, &[0u8; 13])]);
    assert_eq!(
        count_frames(&data, 0),
        Err(CaptureError::FrameTooShort { offset: 70 })
    );
}

#[test]
fn vlan_frame_from_capture() {
    let mut f = vec![0u8; 40];
    f[12] = 0x81;
    f[13] = 0x00;
    f[15] = 7;
    f[16] = 0x08;
    let data = capture(&[record(1, &f)]);
    let frames = scan_capture(&data, 0).unwrap();
    assert_eq!(frames[0].vlan_id(), 7);
    assert_eq!(frames[0].ether_type(), 0x0800);
}

#[test]
fn batch_total_is_sum_of_counts() {
    let outcomes = vec![Ok(3), Ok(0), Ok(5), Ok(2)];
    let s = summarize(&outcomes).unwrap();
    assert_eq!(s.total_frames, 10);
    assert_eq!(s.files_ok, 4);
    assert!(s.failed_files.is_empty());
    let reordered = vec![Ok(5), Ok(2), Ok(3), Ok(0)];
    assert_eq!(summarize(&reordered).unwrap().total_frames, 10);
}

#[test]
fn batch_failures_are_listed() {
    let outcomes = vec![
        Ok(4),
        Err(ScanError::Unreadable),
        Ok(6),
        Err(ScanError::Capture(CaptureError::TruncatedPayload { offset: 24 })),
    ];
    let s = summarize(&outcomes).unwrap();
    assert_eq!(s.total_frames, 10);
    assert_eq!(s.files_ok, 2);
    assert_eq!(s.failed_files, vec![1, 3]);
}

#[test]
fn batch_total_overflow_is_none() {
    let outcomes = vec![Ok(usize::MAX), Ok(1)];
    assert!(summarize(&outcomes).is_none());
    assert_eq!(summarize(&vec![]).unwrap().total_frames, 0);
}
