use turbohex::decode::bits::decode_bits;
use turbohex::decode::builtin::{decode_selection, format_timestamp, FloatTexts};
use turbohex::decode::calendar::epoch_days_to_date;
use turbohex::decode::stats::byte_stats;
use turbohex::decode::types::{
    format_binary, format_hex, format_octal, plugin_error, plugin_field, range_color, read_u16,
    read_u32, read_u64, spaced_hex, DecodedValue, Endian,
};

fn floats() -> FloatTexts {
    FloatTexts {
        f32_value: "F32".to_string(),
        f64_value: "F64".to_string(),
        entropy: "ENT".to_string(),
        compress: "CMP".to_string(),
        sparsity: "SPA".to_string(),
    }
}

fn pairs(v: &[DecodedValue]) -> Vec<(String, String)> {
    v.iter().map(|e| (e.label.clone(), e.value.clone())).collect()
}

#[test]
fn hex_rendering_of_a_few_bytes() {
    assert_eq!(format_hex(&[0xde, 0xad, 0x01]), "DE AD 01");
}

#[test]
fn hex_rendering_stops_after_thirty_two_bytes() {
    let bytes = [0xabu8; 40];
    let s = format_hex(&bytes);
    assert_eq!(s, format!("{}AB...", "AB ".repeat(31)));
    let exactly = [0u8; 32];
    assert_eq!(format_hex(&exactly), format!("{}00", "00 ".repeat(31)));
    assert_eq!(format_binary(&[3u8; 8]), format!("{}00000011", "00000011 ".repeat(7)));
    assert!(!format_octal(&[1u8; 16]).ends_with("..."));
}

#[test]
fn binary_and_octal_renderings() {
    assert_eq!(format_binary(&[5, 0xff]), "00000101 11111111");
    assert_eq!(format_octal(&[8, 255]), "010 377");
    let s = format_binary(&[1u8; 9]);
    assert_eq!(s, format!("{}00000001...", "00000001 ".repeat(7)));
    let o = format_octal(&[7u8; 20]);
    assert_eq!(o, format!("{}007...", "007 ".repeat(15)));
}

#[test]
fn spaced_hex_has_no_cutoff() {
    let bytes = [0x0fu8; 40];
    let s = spaced_hex(&bytes);
    assert_eq!(s, format!("{}0F", "0F ".repeat(39)));
    assert_eq!(spaced_hex(&[]), "");
}

#[test]
fn integers_in_both_byte_orders() {
    assert_eq!(read_u16(&[0x34, 0x12], Endian::Little), 0x1234);
    assert_eq!(read_u16(&[0x34, 0x12], Endian::Big), 0x3412);
    assert_eq!(read_u32(&[1, 2, 3, 4, 9], Endian::Big), 0x0102_0304);
    assert_eq!(read_u64(&[1, 0, 0, 0, 0, 0, 0, 0x80], Endian::Little), 0x8000_0000_0000_0001);
}

#[test]
fn little_endian_reads_the_reversed_bytes_big_endian() {
    let b = [0x11u8, 0x22, 0x33, 0x44, 0x55, 0x66, 0x77, 0x88];
    let mut r = b;
    r.reverse();
    assert_eq!(read_u64(&b, Endian::Little), read_u64(&r, Endian::Big));
    assert_eq!(read_u32(&b[..4], Endian::Little), read_u32(&[0x44, 0x33, 0x22, 0x11], Endian::Big));
}

#[test]
fn endian_labels() {
    assert_eq!(Endian::Little.label(), "LE");
    assert_eq!(Endian::Big.label(), "BE");
}

#[test]
fn palette_colours() {
    assert_eq!(range_color(0), (100, 180, 240));
    assert_eq!(range_color(9), (240, 180, 160));
    assert_eq!(range_color(1), (240, 160, 80));
}

#[test]
fn decoded_value_constructors() {
    let v = DecodedValue::new("a".to_string(), "b".to_string());
    assert_eq!(v.range, None);
    assert_eq!(v.color_index, None);
    let v = v.with_range(2, 3);
    assert_eq!(v.range, Some((2, 3)));
    let f = plugin_field("f".to_string(), "x".to_string(), Some(1), Some(2));
    assert_eq!(f.range, Some((1, 2)));
    let g = plugin_field("g".to_string(), "y".to_string(), Some(1), None);
    assert_eq!(g.range, None);
    let e = plugin_error("dec", "boom");
    assert_eq!((e.label.as_str(), e.value.as_str()), ("dec", "error: boom"));
    assert_eq!(e.range, None);
}

#[test]
fn byte_statistics_count_values() {
    let st = byte_stats(&[0, 0, 1, 0x41]);
    assert_eq!(st.null_count, 2);
    assert_eq!(st.printable_count, 1);
    assert_eq!(st.unique_count, 3);
    assert_eq!(st.total, 4);
    assert_eq!(st.counts[0], 2);
    assert_eq!(st.counts[0x41], 1);
    assert_eq!(st.unique_display(), "3/256 distinct byte values");
    let empty = byte_stats(&[]);
    assert_eq!(empty.unique_count, 0);
    assert_eq!(empty.total, 0);
}

#[test]
fn timestamps_within_range() {
    assert_eq!(format_timestamp(0).as_deref(), Some("1970-01-01 00:00:00 UTC"));
    assert_eq!(format_timestamp(86_399).as_deref(), Some("1970-01-01 23:59:59 UTC"));
    assert_eq!(format_timestamp(1_700_000_000).as_deref(), Some("2023-11-14 22:13:20 UTC"));
    assert_eq!(format_timestamp(4_102_444_800).as_deref(), Some("2100-01-01 00:00:00 UTC"));
}

#[test]
fn timestamps_out_of_range() {
    assert_eq!(format_timestamp(-1), None);
    assert_eq!(format_timestamp(4_102_444_801), None);
    assert_eq!(format_timestamp(i64::MIN), None);
}

#[test]
fn calendar_dates_from_day_numbers() {
    assert_eq!(epoch_days_to_date(0), (1970, 1, 1));
    assert_eq!(epoch_days_to_date(19723), (2024, 1, 1));
    assert_eq!(epoch_days_to_date(19782), (2024, 2, 29));
    assert_eq!(epoch_days_to_date(-1), (1969, 12, 31));
    assert_eq!(epoch_days_to_date(47482), (2100, 1, 1));
}

#[test]
fn empty_selection_decodes_to_nothing() {
    assert!(decode_selection(&[], Endian::Little, &floats()).is_empty());
}

#[test]
fn one_byte_selection() {
    let v = decode_selection(&[0xff], Endian::Little, &floats());
    let want: Vec<(String, String)> = [
        ("Hex", "FF"),
        ("Binary", "11111111"),
        ("Octal", "377"),
        ("", ""),
        ("u8", "255"),
        ("i8", "-1"),
        ("", ""),
        ("ASCII", "\".\""),
        ("UTF-8", "\"\u{fffd}\""),
        ("", ""),
        ("Length", "1 bytes"),
    ]
    .iter()
    .map(|(a, b)| (a.to_string(), b.to_string()))
    .collect();
    assert_eq!(pairs(&v), want);
    assert!(v.iter().all(|e| e.range.is_none() && e.color_index.is_none()));
}

#[test]
fn four_byte_selection_big_endian() {
    let v = decode_selection(&[0x00, 0x00, 0x01, 0x00], Endian::Big, &floats());
    let p = pairs(&v);
    let want: Vec<(String, String)> = [
        ("Hex", "00 00 01 00"),
        ("Binary", "00000000 00000000 00000001 00000000"),
        ("Octal", "000 000 001 000"),
        ("", ""),
        ("u8", "0"),
        ("i8", "0"),
        ("u16 BE", "0"),
        ("i16 BE", "0"),
        ("u32 BE", "256"),
        ("i32 BE", "256"),
        ("f32 BE", "F32"),
        ("Timestamp", "1970-01-01 00:04:16 UTC"),
        ("", ""),
        ("ASCII", "\"....\""),
        ("UTF-8", "\"\u{0}\u{0}\u{1}\u{0}\""),
        ("", ""),
        ("Length", "4 bytes"),
        ("Entropy", "ENT"),
        ("Compress", "CMP"),
        ("Sparsity", "SPA"),
        ("Unique", "2/256 distinct byte values"),
    ]
    .iter()
    .map(|(a, b)| (a.to_string(), b.to_string()))
    .collect();
    assert_eq!(p, want);
}

#[test]
fn eight_byte_selection_reads_wide_values() {
    let bytes = [0xff, 0xff, 0xff, 0xff, 0xff, 0xff, 0xff, 0xff];
    let v = decode_selection(&bytes, Endian::Little, &floats());
    let p = pairs(&v);
    assert!(p.contains(&("u64 LE".to_string(), "18446744073709551615".to_string())));
    assert!(p.contains(&("i64 LE".to_string(), "-1".to_string())));
    assert!(p.contains(&("i32 LE".to_string(), "-1".to_string())));
    assert!(p.contains(&("i16 LE".to_string(), "-1".to_string())));
    assert!(p.contains(&("f64 LE".to_string(), "F64".to_string())));
    assert!(!p.iter().any(|(l, _)| l == "Timestamp" || l == "Timestamp32"));
    assert!(p.contains(&("ASCII".to_string(), "\"........\"".to_string())));
}

#[test]
fn eight_byte_selection_with_both_timestamps() {
    let bytes = [0x3c, 0, 0, 0, 0, 0, 0, 0];
    let v = decode_selection(&bytes, Endian::Little, &floats());
    let p = pairs(&v);
    assert!(p.contains(&("Timestamp".to_string(), "1970-01-01 00:01:00 UTC".to_string())));
    assert!(p.contains(&("Timestamp32".to_string(), "1970-01-01 00:01:00 UTC".to_string())));
    assert!(p.contains(&("ASCII".to_string(), "\"<.......\"".to_string())));
}

#[test]
fn string_renderings_show_the_first_sixty_four_bytes() {
    let bytes = vec![b'a'; 70];
    let v = decode_selection(&bytes, Endian::Little, &floats());
    let p = pairs(&v);
    let shown = format!("\"{}\"", "a".repeat(64));
    assert!(p.contains(&("ASCII".to_string(), shown.clone())));
    assert!(p.contains(&("UTF-8".to_string(), shown)));
    assert!(p.contains(&("Length".to_string(), "70 bytes".to_string())));
    assert!(p.contains(&("Unique".to_string(), "1/256 distinct byte values".to_string())));
}

#[test]
fn bits_big_endian() {
    let v = decode_bits(&[0b1010_0000], 0, 4, Endian::Big);
    let want: Vec<(String, String)> = [
        ("Bits", "1010"),
        ("Value (uint)", "10"),
        ("Value (int)", "-6"),
        ("", ""),
        ("Bit offset", "0"),
        ("Bit length", "4"),
    ]
    .iter()
    .map(|(a, b)| (a.to_string(), b.to_string()))
    .collect();
    assert_eq!(pairs(&v), want);
}

#[test]
fn bits_little_endian() {
    let v = decode_bits(&[0b1010_0000], 0, 4, Endian::Little);
    let p = pairs(&v);
    assert_eq!(p[1], ("Value (uint)".to_string(), "5".to_string()));
    assert_eq!(p[2], ("Value (int)".to_string(), "5".to_string()));
}

#[test]
fn bits_across_a_byte_boundary() {
    let v = decode_bits(&[0xff, 0x80], 4, 9, Endian::Big);
    let p = pairs(&v);
    assert_eq!(p[0], ("Bits".to_string(), "11111000 0".to_string()));
    assert_eq!(p[1], ("Value (uint)".to_string(), "496".to_string()));
    assert_eq!(p[2], ("Value (int)".to_string(), "-16".to_string()));
    assert_eq!(p[4], ("Bit offset".to_string(), "4".to_string()));
    assert_eq!(p[5], ("Bit length".to_string(), "9".to_string()));
}

#[test]
fn bits_of_nothing() {
    assert!(decode_bits(&[], 0, 4, Endian::Big).is_empty());
    assert!(decode_bits(&[1], 0, 0, Endian::Big).is_empty());
}

#[test]
fn sixty_four_bits_have_no_signed_value() {
    let v = decode_bits(&[0xff; 8], 0, 64, Endian::Big);
    let p = pairs(&v);
    assert_eq!(p[1], ("Value (uint)".to_string(), "18446744073709551615".to_string()));
    assert_eq!(p[2], ("".to_string(), "".to_string()));
}

#[test]
fn byte_order_changes_only_the_numeric_fields() {
    let bytes = [0x01u8, 0x02, 0x03, 0x04, 0x05, 0x06, 0x07, 0x08];
    let le = decode_selection(&bytes, Endian::Little, &floats());
    let be = decode_selection(&bytes, Endian::Big, &floats());
    let pairs = |v: &[turbohex::decode::types::DecodedValue]| -> Vec<(String, String)> {
        v.iter().map(|e| (e.label.clone(), e.value.clone())).collect()
    };
    let (le, be) = (pairs(&le), pairs(&be));
    assert_eq!(le[..6], be[..6]);
    assert_eq!(le[le.len() - 9..], be[be.len() - 9..]);
    assert_ne!(le, be);
    assert_eq!(le[4].0, "u8");
    assert_eq!(le[le.len() - 9 + 1].0, "ASCII");
}
