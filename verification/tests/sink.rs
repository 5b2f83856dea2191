use embeprom::bounded::BoundedString;
use embeprom::line::LineBuffer;
use embeprom::sink::put_all;
use embeprom::sink::write_i64;
use embeprom::sink::write_u64;
use embeprom::sink::ByteCount;
use embeprom::sink::FormatError;
use embeprom::sink::TextSink;
use embeprom::slots::bind;
use embeprom::slots::series_count_of;
use embeprom::slots::slot_index;
use embeprom::slots::write_labels_at;
use embeprom::slots::SeriesMap;
use embeprom::text::char_width;
use embeprom::text::str_eq;

#[test]
fn a_bounded_string_takes_what_fits() {
    let mut s = BoundedString::<5>::new();
    assert_eq!(s.write_str("ab"), Ok(()));
    assert_eq!(s.write_char('\u{20ac}'), Ok(()));
    assert_eq!(s.as_str(), "ab\u{20ac}");
    assert_eq!(s.write_char('c'), Err(FormatError));
    assert_eq!(s.write_str("cd"), Err(FormatError));
    assert_eq!(s.write_str(""), Ok(()));
    assert_eq!(s.as_str(), "ab\u{20ac}");
}

#[test]
fn a_byte_count_counts_bytes() {
    let mut n = ByteCount::new();
    n.write_str("ab\u{e9}").unwrap();
    n.write_char('\u{1f600}').unwrap();
    assert_eq!(n.get(), 8);
}

#[test]
fn a_string_takes_everything() {
    let mut s = String::new();
    write_u64(&mut s, 100).unwrap();
    s.write_char(' ').unwrap();
    write_i64(&mut s, -100).unwrap();
    assert_eq!(s, "100 -100");
}

#[test]
fn a_line_buffer_counts_on_after_it_overflowed() {
    let mut line = LineBuffer::<4>::new();
    line.put_str("abc");
    assert!(!line.is_overflowed());
    assert_eq!(line.as_str(), "abc");
    line.put_str("de");
    line.put_char('f');
    assert!(line.is_overflowed());
    assert_eq!(line.required(), 6);
    line.clear();
    line.put_u64(42);
    assert!(!line.is_overflowed());
    assert_eq!(line.required(), 2);
    assert_eq!(line.as_str(), "42");
}

#[test]
fn character_widths_are_those_of_utf8() {
    for c in ['a', '\u{7f}', '\u{80}', '\u{7ff}', '\u{800}', '\u{ffff}', '\u{10000}'] {
        assert_eq!(char_width(c), c.len_utf8());
    }
}

#[test]
fn strings_are_equal_by_their_characters() {
    assert!(str_eq("", ""));
    assert!(str_eq("\u{e9}x", "\u{e9}x"));
    assert!(!str_eq("x", "xy"));
    assert!(!str_eq("xa", "xb"));
}

fn seven() -> u32 {
    7
}

#[test]
fn slots_are_found_or_created_until_full() {
    static NAMES: [&str; 1] = ["k"];
    let mut map: SeriesMap<u32, 2, 8> = SeriesMap::new();
    assert_eq!(slot_index(&mut map, &NAMES, &["a"], seven), Some(0));
    assert_eq!(slot_index(&mut map, &NAMES, &["b"], seven), Some(1));
    assert_eq!(slot_index(&mut map, &NAMES, &["a"], seven), Some(0));
    assert_eq!(slot_index(&mut map, &NAMES, &["c"], seven), None);
    assert_eq!(slot_index(&mut map, &NAMES, &["too long"], seven), None);
    assert_eq!(series_count_of(&map), 2);
    *bind(&mut map, &NAMES, &["b"], seven).unwrap() += 1;
    assert_eq!(*map.metric(0), 7);
    assert_eq!(*map.metric(1), 8);
    assert!(bind(&mut map, &NAMES, &["c"], seven).is_none());
    let mut out = String::from("{");
    write_labels_at(&map, 1, &mut out);
    assert_eq!(out, "{k=\"b\"");
    assert_eq!(map.labels(0), "k=\"a\"");
}

#[test]
fn pieces_are_written_up_to_the_first_refusal() {
    let pieces = vec!["ab".to_string(), "cde".to_string(), "f".to_string()];
    let mut out = BoundedString::<4>::new();
    assert_eq!(put_all(&mut out, &pieces), Err(FormatError));
    assert_eq!(out.as_str(), "ab");
    let mut out = BoundedString::<6>::new();
    assert_eq!(put_all(&mut out, &pieces), Ok(()));
    assert_eq!(out.as_str(), "abcdef");
}
