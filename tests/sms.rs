use at_webserver::dispatch::{fetch_sms, process_sms, raw_pdu_notice, SmsFetch};
use at_webserver::handlers::NotificationType;
use at_webserver::pdu::{
    bcd_swap, decode_7bit, decode_number, decode_timestamp, decode_timestamp_at, decode_ucs2, gsm_alphabet,
    hex_nibble, hex_to_bytes, read_incoming_sms, read_incoming_sms_at, PartialInfo, PduError, SmsTimestamp,
};
use at_webserver::sms_cache::PartialSmsCache;

const GSM7_PDU: &str = "07911326040000F0040B911346610089F60000208062917314080CC8F71D14969741F977FD07";
const UCS2_PDU: &str = "00040B911346610089F60008208062917314080A00480065006C006C006F";
const PART2: &str = "00440B911346610089F6000820806291731408100500034202020077006F0072006C0064";
const PART1: &str = "00440B911346610089F60008208062917314081205000342020100680065006C006C006F0020";
const REF16: &str = "00440B911346610089F60008208062917314080D06080412340301006100620063";

#[test]
fn gsm7_pdu_decodes() {
    let d = read_incoming_sms(GSM7_PDU).unwrap();
    assert_eq!(d.sender, "+31641600986");
    assert_eq!(d.content, "How are you?");
    assert_eq!(d.partial_info, None);
    assert_eq!(
        d.date,
        SmsTimestamp { year: 2002, month: 8, day: 26, hour: 19, minute: 37, second: 41 }
    );
}

#[test]
fn dcs_bit_three_selects_ucs2() {
    let pdu = UCS2_PDU.replacen("0008208062", "000C208062", 1);
    assert_eq!(read_incoming_sms(&pdu).unwrap().content, "Hello");
}

#[test]
fn ucs2_pdu_decodes() {
    let d = read_incoming_sms(UCS2_PDU).unwrap();
    assert_eq!(d.content, "Hello");
    assert_eq!(d.sender, "+31641600986");
}

#[test]
fn decoding_twice_gives_the_same_record() {
    for p in [GSM7_PDU, UCS2_PDU, PART1, REF16] {
        let a = read_incoming_sms(p).unwrap();
        let b = read_incoming_sms(p).unwrap();
        assert_eq!((a.sender, a.content, a.date, a.partial_info), (b.sender, b.content, b.date, b.partial_info));
    }
}

#[test]
fn concatenation_headers_are_read() {
    let d = read_incoming_sms(PART2).unwrap();
    assert_eq!(d.partial_info, Some(PartialInfo { reference: 0x42, parts_count: 2, part_number: 2 }));
    assert_eq!(d.content, "world");
    let d = read_incoming_sms(REF16).unwrap();
    assert_eq!(d.partial_info, Some(PartialInfo { reference: 0x1234, parts_count: 3, part_number: 1 }));
    assert_eq!(d.content, "abc");
}

#[test]
fn pdu_errors() {
    assert_eq!(read_incoming_sms("").unwrap_err(), PduError::Empty);
    assert_eq!(read_incoming_sms("  ").unwrap_err(), PduError::Empty);
    assert_eq!(read_incoming_sms("0").unwrap_err(), PduError::OddLength);
    assert_eq!(read_incoming_sms("zz").unwrap_err(), PduError::InvalidHex);
    assert_eq!(read_incoming_sms("07911326").unwrap_err(), PduError::TruncatedHeader);
    assert_eq!(read_incoming_sms(&GSM7_PDU[..40]).unwrap_err(), PduError::TruncatedHeader);
    assert_eq!(read_incoming_sms(&GSM7_PDU[..GSM7_PDU.len() - 2]).unwrap_err(), PduError::TruncatedUserData);
    assert_eq!(read_incoming_sms(&UCS2_PDU[..UCS2_PDU.len() - 4]).unwrap_err(), PduError::TruncatedUserData);
}

#[test]
fn hex_helpers() {
    assert_eq!(hex_nibble(b'7'), Some(7));
    assert_eq!(hex_nibble(b'c'), Some(12));
    assert_eq!(hex_nibble(b'F'), Some(15));
    assert_eq!(hex_nibble(b'g'), None);
    assert_eq!(hex_to_bytes("0a FF\n10").unwrap(), vec![0x0A, 0xFF, 0x10]);
    assert_eq!(hex_to_bytes("0 a").unwrap_err(), PduError::InvalidHex);
    assert_eq!(bcd_swap(0x91), 19);
    assert_eq!(bcd_swap(0x80), 8);
}

#[test]
fn number_decoding() {
    assert_eq!(decode_number(&[0x13, 0x46, 0x61, 0x00, 0x89, 0xF6], 11), "31641600986");
    assert_eq!(decode_number(&[0x21, 0x43], 3), "123");
}

#[test]
fn gsm7_decoding() {
    assert_eq!(decode_7bit(&[0xC8, 0xF7, 0x1D, 0x14, 0x96, 0x97, 0x41, 0xF9, 0x77, 0xFD, 0x07], 12), "How are you?");
    assert_eq!(decode_7bit(&[0xE8, 0x32, 0x9B, 0xFD, 0x06], 5), "hello");
    assert_eq!(decode_7bit(&[0x00], 1), "@");
    assert_eq!(gsm_alphabet().len(), 128);
    assert_eq!(gsm_alphabet()[0x1B], '?');
    assert_eq!(decode_7bit(&[0x1B], 1), "?");
}

#[test]
fn gsm7_keeps_default_alphabet_characters() {
    let table = gsm_alphabet();
    for (v, ch) in table.iter().enumerate() {
        let bytes = [v as u8];
        assert_eq!(decode_7bit(&bytes, 1), ch.to_string());
    }
}

#[test]
fn ucs2_decoding() {
    assert_eq!(decode_ucs2(&[0x00, 0x41, 0x4E, 0x2D]), "A\u{4e2d}");
    assert_eq!(decode_ucs2(&[0xD8, 0x3D, 0xDE, 0x00]), "\u{1F600}");
    assert_eq!(decode_ucs2(&[0xD8, 0x3D, 0x00, 0x41]), "?A");
    assert_eq!(decode_ucs2(&[0x00, 0x41, 0x42]), "A");
}

#[test]
fn ucs2_round_trip_keeps_code_points() {
    let text = "Grüße, 世界!";
    let bytes: Vec<u8> = text.encode_utf16().flat_map(|u| u.to_be_bytes()).collect();
    assert_eq!(decode_ucs2(&bytes), text);
}

#[test]
fn bad_timestamp_falls_back_to_now() {
    let t = decode_timestamp(&[0x20, 0x31, 0x62, 0x91, 0x73, 0x14, 0x08]);
    assert!(t.month >= 1 && t.month <= 12 && t.hour < 24);
    assert_ne!((t.year, t.month), (2002, 13));
    let t = decode_timestamp(&[0x42, 0x20, 0x92, 0x52, 0x54, 0x05, 0x00]);
    assert!(t.hour < 24);
    let t = decode_timestamp(&[0x42, 0x20]);
    assert!(t.day >= 1 && t.minute < 60);
    let t = decode_timestamp(&[0x42, 0x20, 0x92, 0x32, 0x54, 0x05, 0x00]);
    assert_eq!(t, SmsTimestamp { year: 2024, month: 2, day: 29, hour: 23, minute: 45, second: 50 });
}

#[test]
fn concatenated_sms_in_reverse_order() {
    let mut cache = PartialSmsCache::new();
    let second = read_incoming_sms(PART2).unwrap();
    let first = read_incoming_sms(PART1).unwrap();
    assert!(process_sms(&mut cache, second, 1000).is_none());
    assert_eq!(cache.len(), 1);
    let n = process_sms(&mut cache, first, 1001).unwrap();
    assert_eq!(n.kind, NotificationType::SMS);
    assert_eq!(n.sender, "+31641600986");
    assert_eq!(n.content, "hello world");
    assert_eq!(cache.len(), 0);
}

#[test]
fn concatenated_sms_in_order_gives_same_text() {
    let mut cache = PartialSmsCache::new();
    let info = |n| PartialInfo { reference: 7, parts_count: 3, part_number: n };
    assert_eq!(cache.insert_part("+1", info(1), "a", 0), None);
    assert_eq!(cache.insert_part("+1", info(2), "b", 1), None);
    assert_eq!(cache.insert_part("+1", info(3), "c", 2), Some("abc".to_string()));
    let mut other = PartialSmsCache::new();
    assert_eq!(other.insert_part("+1", info(3), "c", 0), None);
    assert_eq!(other.insert_part("+1", info(1), "a", 1), None);
    assert_eq!(other.insert_part("+1", info(2), "b", 2), Some("abc".to_string()));
}

#[test]
fn distinct_keys_do_not_mix_and_old_entries_expire() {
    let mut cache = PartialSmsCache::new();
    let info = |r, n| PartialInfo { reference: r, parts_count: 2, part_number: n };
    assert_eq!(cache.insert_part("+1", info(1, 1), "x", 0), None);
    assert_eq!(cache.insert_part("+2", info(1, 2), "y", 10), None);
    assert_eq!(cache.len(), 2);
    assert_eq!(cache.insert_part("+9", info(5, 1), "z", 3600), None);
    assert_eq!(cache.len(), 2);
    assert_eq!(cache.insert_part("+1", info(1, 2), "w", 3601), None);
    assert_eq!(cache.len(), 3);
}

#[test]
fn single_sms_is_raised_at_once() {
    let mut cache = PartialSmsCache::new();
    let d = read_incoming_sms(GSM7_PDU).unwrap();
    let n = process_sms(&mut cache, d, 5).unwrap();
    assert_eq!(n.content, "How are you?");
    assert_eq!(cache.len(), 0);
}

#[test]
fn cmgr_answer_is_searched_for_the_pdu() {
    let data = format!("+CMGR: 0,,28\r\n{}\r\nOK", UCS2_PDU);
    match fetch_sms(&data) {
        SmsFetch::Decoded(d) => assert_eq!(d.content, "Hello"),
        _ => panic!("not decoded"),
    }
    assert!(matches!(fetch_sms("+CMGR: 0,,28\r\nOK"), SmsFetch::NoPdu));
    match fetch_sms("+CMGR: 0\r\n07911326040000\r\nOK") {
        SmsFetch::Undecodable(p, e) => {
            assert_eq!(p, "07911326040000");
            assert_eq!(e, PduError::TruncatedHeader);
        }
        _ => panic!("expected failure"),
    }
    assert_eq!(raw_pdu_notice("ABCD").content, "Raw PDU: ABCD");
}

#[test]
fn fallback_date_is_the_given_clock() {
    let now = SmsTimestamp { year: 2030, month: 1, day: 2, hour: 3, minute: 4, second: 5 };
    assert_eq!(decode_timestamp_at(&[0x20, 0x31, 0x62, 0x91, 0x73, 0x14, 0x08], now), now);
    let bad = GSM7_PDU.replacen("20806291731408", "20316291731408", 1);
    let a = read_incoming_sms_at(&bad, now).unwrap();
    let b = read_incoming_sms_at(&bad, now).unwrap();
    assert_eq!(a.date, now);
    assert_eq!((a.sender, a.content, a.date), (b.sender, b.content, b.date));
    let good = read_incoming_sms_at(GSM7_PDU, now).unwrap();
    assert_eq!(good.date.year, 2002);
}

#[test]
fn surrogate_pairs_survive_ucs2() {
    let text = "a\u{1F600}b\u{10FFFF}";
    let bytes: Vec<u8> = text.encode_utf16().flat_map(|u| u.to_be_bytes()).collect();
    assert_eq!(decode_ucs2(&bytes), text);
}
