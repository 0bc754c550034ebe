use archivus::format::format_bytes;
use archivus::stats::DirectoryStats;

#[test]
fn test_format_bytes() {
    assert_eq!(format_bytes(0), "0 B");
    assert_eq!(format_bytes(512), "512 B");
    assert_eq!(format_bytes(1024), "1.00 KB");
    assert_eq!(format_bytes(1536), "1.50 KB");
    assert_eq!(format_bytes(1048576), "1.00 MB");
}

#[test]
fn test_format_bytes_units() {
    assert_eq!(format_bytes(1023), "1023 B");
    assert_eq!(format_bytes(1048575), "1024.00 KB");
    assert_eq!(format_bytes(1073741824), "1.00 GB");
    assert_eq!(format_bytes(1099511627776), "1.00 TB");
    assert_eq!(format_bytes(1649267441664), "1.50 TB");
}

#[test]
fn test_format_bytes_rounding() {
    // 1152 bytes is exactly 1.125 KB: the tie rounds to the even digit.
    assert_eq!(format_bytes(1152), "1.12 KB");
    // 1157 bytes is about 1.12988 KB: rounds up.
    assert_eq!(format_bytes(1157), "1.13 KB");
}

#[test]
fn test_formatted_size_methods() {
    let mut stats = DirectoryStats::default();
    stats.total_size = 1536;
    stats.largest_file_size = 512;
    assert_eq!(stats.formatted_size(), "1.50 KB");
    assert_eq!(stats.formatted_largest_file_size(), "512 B");
}
