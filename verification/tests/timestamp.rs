use shot2path::timestamp::{image_file_name, timestamp_string, LocalTime};

fn at(year: u16, month: u16, day: u16, hour: u16, minute: u16, second: u16, ms: u16) -> LocalTime {
    LocalTime { year, month, day, hour, minute, second, millisecond: ms }
}

#[test]
fn timestamp_fields_are_zero_padded() {
    assert_eq!(timestamp_string(at(2024, 3, 7, 9, 5, 2, 45)), "2024-03-07_090502_045");
}

#[test]
fn timestamp_matches_std_formatting() {
    let t = at(1999, 12, 31, 23, 59, 58, 999);
    let expected = format!(
        "{:04}-{:02}-{:02}_{:02}{:02}{:02}_{:03}",
        t.year, t.month, t.day, t.hour, t.minute, t.second, t.millisecond
    );
    assert_eq!(timestamp_string(t), expected);
}

#[test]
fn timestamp_wide_values_are_not_cut() {
    assert_eq!(timestamp_string(at(12345, 0, 0, 0, 0, 0, 0)), "12345-00-00_000000_000");
    assert_eq!(timestamp_string(at(7, 123, 1, 1, 1, 1, 1234)), "0007-123-01_010101_1234");
}

#[test]
fn image_file_name_has_png_extension() {
    assert_eq!(image_file_name(at(2025, 1, 2, 3, 4, 5, 6)), "2025-01-02_030405_006.png");
}

#[test]
fn later_screenshot_has_greater_name() {
    let times = [
        at(2024, 12, 31, 23, 59, 59, 999),
        at(2025, 1, 1, 0, 0, 0, 0),
        at(2025, 1, 1, 0, 0, 0, 1),
        at(2025, 1, 1, 0, 0, 1, 0),
        at(2025, 1, 1, 10, 0, 0, 0),
        at(2025, 2, 1, 9, 0, 0, 0),
    ];
    for i in 0..times.len() {
        for j in 0..times.len() {
            let (a, b) = (image_file_name(times[i]), image_file_name(times[j]));
            assert_eq!(a <= b, i <= j, "{} vs {}", a, b);
        }
    }
}
