use drive_scan::text::{
    console_line, dir_csv_line, file_csv_line, hundredths_string, size_string,
    size_string_display, u64_string,
};
use drive_scan::units::{gb_hundredths, kb_hundredths, mb_hundredths};

#[test]
fn decimal_rendering() {
    assert_eq!(u64_string(0), "0");
    assert_eq!(u64_string(7), "7");
    assert_eq!(u64_string(10), "10");
    assert_eq!(u64_string(1234567890), "1234567890");
    assert_eq!(u64_string(u64::MAX), "18446744073709551615");
}

#[test]
fn hundredths_rendering() {
    assert_eq!(hundredths_string(0), "0.00");
    assert_eq!(hundredths_string(1), "0.01");
    assert_eq!(hundredths_string(99), "0.99");
    assert_eq!(hundredths_string(100), "1.00");
    assert_eq!(hundredths_string(10050), "100.50");
}

#[test]
fn kb_conversion_formula() {
    // KB = bytes / 1024, displayed to 2 decimals (hundredths, rounded).
    assert_eq!(kb_hundredths(0), 0);
    assert_eq!(kb_hundredths(10), 1); // 10 / 1024 = 0.0098 -> 0.01
    assert_eq!(kb_hundredths(20), 2); // 20 / 1024 = 0.0195 -> 0.02
    assert_eq!(kb_hundredths(1024), 100); // exactly 1.00 KB
    assert_eq!(kb_hundredths(1536), 150); // exactly 1.50 KB
    assert_eq!(kb_hundredths(5), 0); // 0.0048 -> 0.00
    assert_eq!(kb_hundredths(6), 1); // 0.0058 -> 0.01
    assert_eq!(kb_hundredths(128), 13); // 0.125 rounds half away from zero
}

#[test]
fn mb_conversion_formula() {
    // MB = bytes / 1024^2.
    assert_eq!(mb_hundredths(1048576), 100);
    assert_eq!(mb_hundredths(524288), 50);
    assert_eq!(mb_hundredths(20), 0);
}

#[test]
fn gb_conversion_formula() {
    // GB = bytes / 1024^3.
    assert_eq!(gb_hundredths(1073741824), 100);
    assert_eq!(gb_hundredths(536870912), 50);
    assert_eq!(gb_hundredths(1048576), 0); // 0.0009765625 -> 0.00
}

#[test]
fn csv_size_columns() {
    assert_eq!(size_string(10), "10,0.01,0.00,0.00");
    assert_eq!(size_string(20), "20,0.02,0.00,0.00");
    assert_eq!(size_string(0), "0,0.00,0.00,0.00");
    assert_eq!(size_string(1073741824), "1073741824,1048576.00,1024.00,1.00");
}

#[test]
fn display_size_columns() {
    assert_eq!(size_string_display(10), "10 B, 0.01 KB, 0.00 MB, 0.00 GB");
    assert_eq!(
        size_string_display(1048576),
        "1048576 B, 1024.00 KB, 1.00 MB, 0.00 GB"
    );
}

#[test]
fn report_lines() {
    assert_eq!(file_csv_line("/r/a.txt", 10), "F,/r/a.txt,10,0.01,0.00,0.00\r\n");
    assert_eq!(dir_csv_line("/r", 30), "D,/r,30,0.03,0.00,0.00\r\n");
    assert_eq!(
        console_line("/r/a.txt", 10),
        "/r/a.txt 10 B, 0.01 KB, 0.00 MB, 0.00 GB\r\n"
    );
}
