use zenlang::hotreload::HotReloader;
use zenlang::repl::is_balanced;
use zenlang::stdlib::datetime::{days_to_date, format_timestamp};
use zenlang::stdlib::log::{level_from_lowercase, level_of_name, log_line, LEVEL_DEBUG, LEVEL_INFO, LEVEL_OFF, LEVEL_WARN};
use zenlang::stdlib::math::{rand_range_value, seed_state, xorshift_next, RangeError};
use zenlang::stdlib::uuid::uuid_from_words;

fn obs(items: &[(&str, Option<u128>)]) -> Vec<(String, Option<u128>)> {
    items.iter().map(|(p, t)| (p.to_string(), *t)).collect()
}

#[test]
fn reload_on_newer_time_only() {
    let mut r = HotReloader::new(&obs(&[("a.zen", Some(10))]), 0u32);
    assert!(!r.tick(&obs(&[("a.zen", Some(10))]), "let x = 1;"));
    assert!(r.tick(&obs(&[("a.zen", Some(11))]), "let x = 1;"));
    assert!(!r.tick(&obs(&[("a.zen", Some(11))]), "let x = 1;"));
    assert!(!r.tick(&obs(&[("a.zen", Some(5))]), "let x = 1;"));
    assert!(!r.tick(&obs(&[("a.zen", None)]), "let x = 1;"));
}

#[test]
fn first_seen_path_counts_as_change() {
    let mut r = HotReloader::new(&obs(&[("a.zen", None)]), ());
    assert!(r.tick(&obs(&[("a.zen", Some(1))]), "s"));
    assert!(!r.tick(&obs(&[("a.zen", Some(1))]), "s"));
}

#[test]
fn touched_file_with_same_text_reloads_nothing() {
    let mut r = HotReloader::new(&obs(&[("a.zen", Some(1))]), 7i32);
    r.mark_compiled("let x = 1;".to_string());
    assert!(!r.tick(&obs(&[("a.zen", Some(2))]), "let x = 1;"));
    assert!(r.tick(&obs(&[("a.zen", Some(3))]), "let x = 2;"));
    *r.vm_mut() += 1;
    assert_eq!(*r.vm(), 8);
}

#[test]
fn force_reload_ignores_times_and_skips_the_text_last_compiled() {
    let mut r = HotReloader::new(&obs(&[("a.zen", Some(1))]), ());
    assert!(r.force_reload("let x = 1;"));
    r.mark_compiled("let x = 1;".to_string());
    assert!(!r.force_reload("let x = 1;"));
    assert!(r.force_reload("let x = 2;"));
}

#[test]
fn balanced_brackets() {
    assert!(is_balanced(""));
    assert!(is_balanced("fn f() { [1, 2] }"));
    assert!(!is_balanced("fn f() {"));
    assert!(!is_balanced("}{"));
    assert!(!is_balanced("(]"));
    assert!(is_balanced("([)]"));
}

#[test]
fn calendar_dates() {
    assert_eq!(days_to_date(0), (1970, 1, 1));
    assert_eq!(days_to_date(59), (1970, 3, 1));
    assert_eq!(days_to_date(789), (1972, 2, 29));
    assert_eq!(days_to_date(10957), (2000, 1, 1));
    assert_eq!(days_to_date(11016), (2000, 2, 29));
    assert_eq!(days_to_date(19723), (2024, 1, 1));
    assert_eq!(days_to_date(47482), (2100, 1, 1));
    assert_eq!(days_to_date(47541), (2100, 3, 1));
}

#[test]
fn formatting_timestamps() {
    assert_eq!(format_timestamp(0, "%Y-%m-%d %H:%M:%S"), "1970-01-01 00:00:00");
    assert_eq!(format_timestamp(1_700_000_000, "%Y-%m-%dT%H:%M:%S"), "2023-11-14T22:13:20");
    assert_eq!(format_timestamp(86399, "%H:%M:%S %% %q %"), "23:59:59 % %q %");
    assert_eq!(format_timestamp(253_402_300_800, "%Y"), "10000");
}

#[test]
fn log_levels() {
    assert_eq!(level_of_name(Some("WARNING".to_string())), LEVEL_WARN);
    assert_eq!(level_of_name(Some("Debug".to_string())), LEVEL_DEBUG);
    assert_eq!(level_of_name(Some("off".to_string())), LEVEL_OFF);
    assert_eq!(level_of_name(Some("loud".to_string())), LEVEL_INFO);
    assert_eq!(level_of_name(None), LEVEL_INFO);
    assert_eq!(level_from_lowercase("warn"), LEVEL_WARN);
    assert_eq!(log_line(LEVEL_WARN, LEVEL_INFO, "disk low"), Some("[WARN] disk low".to_string()));
    assert_eq!(log_line(LEVEL_DEBUG, LEVEL_INFO, "noise"), None);
    assert_eq!(log_line(LEVEL_OFF, 0, "never"), None);
}

#[test]
fn random_numbers() {
    assert_eq!(xorshift_next(1), 1082269761);
    assert_eq!(seed_state(Some(4)), 5);
    assert_eq!(seed_state(None), 1);
    assert_eq!(rand_range_value(Some(10), Some(20), 25), Ok(15));
    assert_eq!(rand_range_value(Some(-3), Some(3), 7), Ok(-2));
    assert_eq!(rand_range_value(Some(5), Some(5), 1), Err(RangeError::Empty));
    assert_eq!(rand_range_value(None, Some(5), 1), Err(RangeError::NotIntegers));
}

#[test]
fn uuids() {
    let u = uuid_from_words(0, 0);
    assert_eq!(u, "00000000-0000-4000-8000-000000000000");
    let v = uuid_from_words(0x0123456789abcdef, u64::MAX);
    assert_eq!(v, "efcdab89-6745-4301-bfff-ffffffffffff");
    assert_eq!(v.len(), 36);
}

use zenlang::dap::{frame_message, header_line, HeaderLine};

#[test]
fn debug_adapter_headers() {
    assert_eq!(header_line("Content-Length: 42\r"), HeaderLine::ContentLength(Some(42)));
    assert_eq!(header_line("Content-Length:  +7 "), HeaderLine::ContentLength(Some(7)));
    assert_eq!(header_line("Content-Length: x"), HeaderLine::ContentLength(None));
    assert_eq!(header_line("Content-Length: 99999999999999999999999"), HeaderLine::ContentLength(None));
    assert_eq!(header_line("\r"), HeaderLine::End);
    assert_eq!(header_line(""), HeaderLine::End);
    assert_eq!(header_line("Content-Type: json"), HeaderLine::Other);
    assert_eq!(frame_message("{\"seq\":1}"), "Content-Length: 9\r\n\r\n{\"seq\":1}");
    assert_eq!(frame_message("é"), "Content-Length: 2\r\n\r\né");
}
