//! Names, colors, sizes and dates of files.
use rusplorer::file_utils::{
    age_band, band_colors, bytes_label, clock_bias, color_of_parts, cut_at_end, day_after_epoch,
    ext_color, first_cut_at_end,
    format_modified_time, is_archive, is_code_file, is_image_file, is_video_file,
    kilobytes_label, name_layout_job, next_cut, size_unit, stem_and_extension, stem_length,
    truncate_name, AgeBand, SizeUnit,
};
use rusplorer::types::Rgb;

#[test]
fn kinds_of_files_are_known_by_their_extensions() {
    assert!(is_code_file("main.RS"));
    assert!(!is_code_file("main.exe"));
    assert!(is_archive("a.tar.GZ"));
    assert!(!is_archive(".zip"));
    assert!(is_image_file("x.JPEG"));
    assert!(is_video_file("x.mkv"));
    assert!(!is_video_file("x.txt"));
    assert!(!is_image_file("png"));
    assert!(!is_video_file("mp4"));
    assert!(is_image_file(".png"));
}

#[test]
fn extensions_have_colors() {
    assert!(ext_color(".exe", true) == Some(Rgb { r: 100, g: 160, b: 255 }));
    assert!(ext_color(".exe", false) == Some(Rgb { r: 30, g: 80, b: 200 }));
    assert!(ext_color(".unheard", true).is_none());
    assert!(color_of_parts(".exe", true, true).is_none());
}

#[test]
fn a_name_is_its_parts() {
    let (stem, ext) = stem_and_extension("report.final.PDF");
    assert_eq!((stem.as_str(), ext.as_str()), ("report.final", ".PDF"));
    assert_eq!(format!("{}{}", stem, ext), "report.final.PDF");
    assert_eq!(stem_and_extension(".env"), (".env".to_string(), String::new()));
    let parts = name_layout_job("a.exe", false, false, true);
    assert_eq!((parts.stem.as_str(), parts.ext.as_str()), ("a", ".exe"));
    assert!(parts.color == Some(Rgb { r: 100, g: 160, b: 255 }));
    let folder = name_layout_job("dir.exe", true, false, true);
    assert_eq!((folder.stem.as_str(), folder.ext.as_str()), ("dir.exe", ""));
}

#[test]
fn a_long_name_is_cut_before_its_extension() {
    assert_eq!(truncate_name("holiday.jpg", 3), "hol\u{2026}.jpg");
    assert_eq!(stem_length("holiday.jpg"), 7);
    assert_eq!(next_cut(false, 3), Some(2));
    assert_eq!(next_cut(true, 3), None);
    assert_eq!(next_cut(false, 0), None);
    assert_eq!(first_cut_at_end("h\u{e9}llo"), 4);
    assert_eq!(first_cut_at_end(""), 0);
    assert_eq!(cut_at_end("h\u{e9}llo", 2), "h\u{e9}\u{2026}");
    assert_eq!(cut_at_end("", 0), "\u{2026}");
    let mut kept = stem_length("holiday.jpg");
    while let Some(n) = next_cut(kept <= 3, kept) {
        kept = n;
    }
    assert_eq!(truncate_name("holiday.jpg", kept), "hol\u{2026}.jpg");
}

#[test]
fn sizes_have_units() {
    assert!(size_unit(1023) == SizeUnit::B);
    assert!(size_unit(1024) == SizeUnit::Kb);
    assert!(size_unit(1 << 40) == SizeUnit::Tb);
    assert_eq!(bytes_label(17), "17 B");
    assert_eq!(kilobytes_label(2047), "1 KB");
}

#[test]
fn days_follow_the_calendar() {
    let d = day_after_epoch(0);
    assert_eq!((d.year, d.month, d.day), (1970, 1, 1));
    let d = day_after_epoch(11016);
    assert_eq!((d.year, d.month, d.day), (2000, 2, 29));
    let d = day_after_epoch(20501);
    assert_eq!((d.year, d.month, d.day), (2026, 2, 17));
    let e = day_after_epoch(20454);
    assert_eq!((e.year, e.month, e.day), (2026, 1, 1));
    assert_eq!(day_after_epoch(20453).year, 2025);
}

#[test]
fn times_are_shown_in_local_time() {
    let t: i128 = (20501 * 86400 + 14 * 3600 + 30 * 60 + 59) * 1_000_000_000;
    assert_eq!(format_modified_time(t, 0), "2026-02-17 14:30");
    assert_eq!(format_modified_time(t, -3600), "2026-02-17 15:30");
    assert_eq!(format_modified_time(-1, 0), "");
    assert_eq!(format_modified_time(5_000_000_000, 10), "");
    assert_eq!(clock_bias(-60, 0, -60, true), -7200);
    assert_eq!(clock_bias(-60, 0, -60, false), -3600);
}

#[test]
fn ages_have_bands_of_color() {
    let s: i128 = 1_000_000_000;
    assert!(age_band(5, 4) == AgeBand::Future);
    assert!(age_band(0, 300 * s) == AgeBand::Minutes);
    assert!(age_band(0, 301 * s) == AgeBand::Hour);
    assert!(age_band(0, 3601 * s) == AgeBand::Day);
    assert!(age_band(0, 86401 * s) == AgeBand::Week);
    assert!(age_band(0, 604800 * s) == AgeBand::Old);
    assert!(band_colors(AgeBand::Old).0 == (604800, Rgb { r: 255, g: 175, b: 100 }));
    assert!(band_colors(AgeBand::Hour).1 == band_colors(AgeBand::Day).0);
}
