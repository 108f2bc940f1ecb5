use shot2path::names::{chars_le, chars_of, copy_last_path, is_png_chars, recent_images};
use shot2path::timestamp::{image_file_name, LocalTime};

fn owned(names: &[&str]) -> Vec<String> {
    names.iter().map(|s| s.to_string()).collect()
}

#[test]
fn recent_images_keeps_png_newest_first() {
    let names = owned(&[
        "2024-01-01_000000_000.png",
        "notes.txt",
        "2025-06-01_120000_000.png",
        "2024-12-31_235959_999.png",
    ]);
    assert_eq!(
        recent_images(&names, 10),
        owned(&["2025-06-01_120000_000.png", "2024-12-31_235959_999.png", "2024-01-01_000000_000.png"])
    );
}

#[test]
fn recent_images_truncates_to_max() {
    let names = owned(&["a.png", "c.png", "b.png", "d.png"]);
    assert_eq!(recent_images(&names, 2), owned(&["d.png", "c.png"]));
    assert_eq!(recent_images(&names, 0), Vec::<String>::new());
}

#[test]
fn recent_images_reads_extension_like_path() {
    let names = owned(&[".png", "x.PNG", "x.png.bak", "archive.tar.png", "y.png", "png", "z.jpg"]);
    assert_eq!(recent_images(&names, 10), owned(&["y.png", "archive.tar.png"]));
    for n in [".png", "x.PNG", "x.png.bak", "archive.tar.png", "y.png", "png", "z.jpg"] {
        let by_path = std::path::Path::new(n).extension().and_then(|e| e.to_str()) == Some("png");
        assert_eq!(is_png_chars(&chars_of(n)), by_path, "{}", n);
    }
}

#[test]
fn recent_images_of_empty_listing() {
    assert!(recent_images(&Vec::new(), 5).is_empty());
}

#[test]
fn copy_last_path_picks_greatest_png() {
    let names = owned(&["b.png", "z.txt", "c.png", "a.png"]);
    assert_eq!(copy_last_path(&names), Some("c.png".to_string()));
}

#[test]
fn copy_last_path_without_screenshots() {
    assert_eq!(copy_last_path(&owned(&["readme.md", ".png"])), None);
}

#[test]
fn chars_le_is_string_order() {
    let words = ["", "a", "ab", "b", "Z", "é", "ä", "\u{1F600}"];
    for a in words {
        for b in words {
            assert_eq!(chars_le(&chars_of(a), &chars_of(b)), a <= b, "{:?} {:?}", a, b);
        }
    }
}

#[test]
fn copy_last_path_finds_latest_screenshot() {
    let t = |h: u16, ms: u16| LocalTime { year: 2025, month: 5, day: 4, hour: h, minute: 0, second: 0, millisecond: ms };
    let mut names = vec![
        image_file_name(t(9, 500)),
        image_file_name(t(23, 0)),
        "desktop.ini".to_string(),
        image_file_name(t(10, 1)),
    ];
    assert_eq!(copy_last_path(&names), Some(image_file_name(t(23, 0))));
    names.push(image_file_name(LocalTime { year: 2026, month: 1, day: 1, hour: 0, minute: 0, second: 0, millisecond: 0 }));
    assert_eq!(copy_last_path(&names), Some("2026-01-01_000000_000.png".to_string()));
}
