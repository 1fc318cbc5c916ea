use qfiletrans::transfer::{
    in_cache_dir, limit_sleep_ms, remove_request, remove_retry, upload_request, upload_retry, ReceiveAction,
    ReceiveProgress, TransferAction,
};
use qfiletrans::FileInfo;

#[test]
fn test_file_info() {
    let file_info = FileInfo::new(
        2 * 1024 * 1024,
        String::from("thies is a test/with path/filename is.txt"),
    );
    let result = file_info.to_vec();
    assert_eq!(result.len(), 1024);
    assert_eq!(FileInfo::from_bytes(&result[..1024]), file_info);
}

#[test]
fn header_layout() {
    let info = FileInfo::new(0x0102_0304_0506_0708, String::from("a/b"));
    let bytes = info.to_vec();
    assert_eq!(&bytes[..8], &[1, 2, 3, 4, 5, 6, 7, 8]);
    assert_eq!(&bytes[8..12], &[0, 0, 0, 3]);
    assert_eq!(&bytes[12..15], b"a/b");
    assert!(bytes[15..].iter().all(|&b| b == 0));
    assert_eq!(info.file_len(), 0x0102_0304_0506_0708);
    assert_eq!(info.file_name(), "a/b");
}

#[test]
fn header_with_longest_name() {
    let name = "x".repeat(1012);
    let info = FileInfo::new(1, name.clone());
    let bytes = info.to_vec();
    assert_eq!(bytes.len(), 1024);
    assert_eq!(FileInfo::from_bytes(&bytes), info);
}

#[test]
fn header_name_that_is_not_utf8_is_replaced() {
    let mut buf = vec![0u8; 14];
    buf[7] = 9;
    buf[11] = 2;
    buf[12] = b'o';
    buf[13] = 0xFF;
    let info = FileInfo::from_bytes(&buf);
    assert_eq!(info.file_len(), 9);
    assert_eq!(info.file_name(), "o\u{FFFD}");
}

#[test]
fn action_bytes() {
    assert_eq!(TransferAction::from_byte(1), TransferAction::Remove);
    assert_eq!(TransferAction::from_byte(0), TransferAction::Upload);
    assert_eq!(TransferAction::from_byte(7), TransferAction::Upload);
    assert_eq!(TransferAction::Upload.byte(), 0);
    assert_eq!(TransferAction::Remove.byte(), 1);
}

#[test]
fn upload_and_remove_requests() {
    let info = FileInfo::new(10, String::from("f"));
    let up = upload_request(&info);
    assert_eq!(up.len(), 1025);
    assert_eq!(&up[..1024], &info.to_vec()[..]);
    assert_eq!(up[1024], 0);
    let rm = remove_request(String::from("cache/s-1/remove"));
    assert_eq!(rm.len(), 1025);
    assert_eq!(rm[1024], 1);
    assert_eq!(
        FileInfo::from_bytes(&rm[..1024]),
        FileInfo::new(32, String::from("cache/s-1/remove"))
    );
}

#[test]
fn upload_retries_double_their_wait_until_the_tenth_attempt() {
    assert_eq!(upload_retry(0), Some((1, 2)));
    assert_eq!(upload_retry(1), Some((2, 4)));
    assert_eq!(upload_retry(8), Some((9, 512)));
    assert_eq!(upload_retry(9), None);
    assert_eq!(upload_retry(100), None);
}

#[test]
fn removal_retries_wait_thirty_seconds() {
    assert_eq!(remove_retry(1), Some((2, 30)));
    assert_eq!(remove_retry(9), Some((10, 30)));
    assert_eq!(remove_retry(10), None);
}

#[test]
fn receiver_buffers_then_flushes_then_finishes() {
    let mut p = ReceiveProgress::new(10, 13);
    assert_eq!(p.on_read(4), ReceiveAction::Buffered);
    assert_eq!(p.offset, 4);
    assert_eq!(p.on_read(6), ReceiveAction::Flush { len: 10 });
    assert_eq!(p.offset, 0);
    assert_eq!(p.on_read(3), ReceiveAction::Buffered);
    assert_eq!(p.on_read(0), ReceiveAction::Finish { len: 3, complete: true });
    assert_eq!(p.received, 13);
}

#[test]
fn receiver_reports_a_short_file() {
    let mut p = ReceiveProgress::new(10, 20);
    assert_eq!(p.on_read(5), ReceiveAction::Buffered);
    assert_eq!(p.on_read(0), ReceiveAction::Finish { len: 5, complete: false });
}

#[test]
fn limit_sleep_setting() {
    assert_eq!(limit_sleep_ms(None), 5);
    assert_eq!(limit_sleep_ms(Some("12")), 12);
    assert_eq!(limit_sleep_ms(Some("+7")), 7);
    assert_eq!(limit_sleep_ms(Some("0")), 0);
    assert_eq!(limit_sleep_ms(Some("x")), 5);
    assert_eq!(limit_sleep_ms(Some("")), 5);
    assert_eq!(limit_sleep_ms(Some("-1")), 5);
    assert_eq!(limit_sleep_ms(Some("18446744073709551616")), 5);
    assert_eq!(limit_sleep_ms(Some("18446744073709551615")), u64::MAX);
}

#[test]
fn cache_paths_are_recognised() {
    assert!(in_cache_dir("/mnt/cache/s-t01000-1/p.tar"));
    assert!(in_cache_dir("/cache/"));
    assert!(!in_cache_dir("/mnt/cache"));
    assert!(!in_cache_dir("/mnt/caches/x"));
    assert!(!in_cache_dir("cache/x"));
    assert!(!in_cache_dir(""));
}

#[test]
fn header_fits_checks_the_announced_name() {
    let info = FileInfo::new(5, String::from("abc"));
    let header = info.to_vec();
    assert!(FileInfo::header_fits(&header));
    assert!(FileInfo::header_fits(&header[..15]));
    assert!(!FileInfo::header_fits(&header[..14]));
    let mut bad = header.clone();
    bad[8..12].copy_from_slice(&2000u32.to_be_bytes());
    assert!(!FileInfo::header_fits(&bad));
}
