use qrcode_segments_optimizer::canonical::{canonical_email, canonical_url};
use qrcode_segments_optimizer::capacity::{get_num_data_codewords, get_num_raw_data_modules, table_get};
use qrcode_segments_optimizer::kanji::{is_kanji, make_kanji};
use qrcode_segments_optimizer::models::{Email, EmailHost, UrlParts};
use qrcode_segments_optimizer::optimizer::{
    compute_character_modes, get_total_bits, make_segments_optimally,
    make_segments_optimally_at_version, num_char_count_bits, split_into_segments,
};
use qrcode_segments_optimizer::segment::{make_segment, Segment, SegmentMode};
use qrcode_segments_optimizer::{
    make_segments_from_email, make_segments_from_str, make_segments_from_url, EccLevel,
    QrCodeError,
};
use url::Url;

fn parts(text: &str) -> UrlParts {
    let url = Url::parse(text).unwrap();
    UrlParts {
        serialization: url.as_str().to_string(),
        scheme: url.scheme().to_string(),
        has_authority: url.has_authority(),
        username: url.username().to_string(),
        password: url.password().map(|s| s.to_string()),
        domain: url.domain().map(|s| s.to_string()),
        host: url.host_str().map(|s| s.to_string()),
        port: url.port(),
        path: url.path().to_string(),
        query: url.query().map(|s| s.to_string()),
        fragment: url.fragment().map(|s| s.to_string()),
    }
}

fn email(local: &str, domain: EmailHost, whole: &str) -> Email {
    Email {
        local_part: local.to_string(),
        need_quoted: false,
        domain_part: domain,
        comment_before_local_part: None,
        comment_after_local_part: None,
        comment_before_domain_part: None,
        comment_after_domain_part: None,
        email_string: whole.to_string(),
    }
}

fn bits(b: &[u8]) -> Vec<bool> {
    b.iter().map(|&x| x == 1).collect()
}

#[test]
fn empty_text_gives_no_segments() {
    let segs = make_segments_from_str("", EccLevel::Low).unwrap();
    assert!(segs.is_empty());
    assert_eq!(get_total_bits(&segs, 1), Some(0));
    let segs = make_segments_optimally(&[], EccLevel::High, 1, 40).unwrap();
    assert!(segs.is_empty());
}

#[test]
fn digits_make_one_numeric_segment() {
    let segs = make_segments_from_str("01234567890123456789", EccLevel::Medium).unwrap();
    assert_eq!(segs.len(), 1);
    assert_eq!(segs[0].mode, SegmentMode::Numeric);
    assert_eq!(segs[0].num_chars, 20);
    assert_eq!(segs[0].data.len(), 10 * 6 + 7);
    let one = make_segments_from_str("7", EccLevel::Low).unwrap();
    assert_eq!(one.len(), 1);
    assert_eq!(one[0].mode, SegmentMode::Numeric);
    assert_eq!(one[0].data, bits(&[0, 1, 1, 1]));
}

#[test]
fn alphanumeric_text_avoids_byte_mode() {
    let text: Vec<char> = "HTTPS://QR.EXAMPLE/ABC-123 $%*+./:0987654321".chars().collect();
    for ver in [1u8, 9, 10, 26, 27, 40] {
        let modes = compute_character_modes(&text, ver);
        assert!(modes.iter().all(|m| *m != SegmentMode::Byte));
    }
    let segs = make_segments_from_str("A1B2C3D4E5F6G7H8I9J0", EccLevel::Low).unwrap();
    assert!(segs.iter().all(|s| s.mode != SegmentMode::Byte));
}

#[test]
fn url_scenario_beats_byte_mode() {
    let text = "https://magiclen.org/path/to/12345";
    let segs = make_segments_from_url(&parts(text), EccLevel::Low).unwrap();
    let naive = 4 + 8 + 8 * text.len();
    let used = get_total_bits(&segs, 1).unwrap();
    assert!(used < naive);
    assert!(segs.iter().any(|s| s.mode == SegmentMode::Alphanumeric));
}

#[test]
fn email_scenario_beats_byte_mode() {
    let text = "len@email.abcde.example.org";
    let e = email("len", EmailHost::Domain("email.abcde.example.org".to_string()), text);
    let segs = make_segments_from_email(&e, EccLevel::High).unwrap();
    let naive = 4 + 8 + 8 * text.len();
    let used = get_total_bits(&segs, 1).unwrap();
    assert!(used < naive);
}

#[test]
fn too_many_digits_are_data_too_long() {
    let fits: String = "9".repeat(7089);
    assert!(make_segments_from_str(&fits, EccLevel::Low).is_ok());
    let over: String = "9".repeat(7090);
    assert_eq!(make_segments_from_str(&over, EccLevel::Low).unwrap_err(), QrCodeError::DataTooLong);
    let chars: Vec<char> = "ABC".chars().collect();
    assert!(make_segments_optimally(&chars, EccLevel::Low, 5, 4).is_none());
}

#[test]
fn count_field_limit_is_checked() {
    let full = Segment { mode: SegmentMode::Numeric, num_chars: 1023, data: vec![false; 3410] };
    assert_eq!(get_total_bits(&[full], 1), Some(4 + 10 + 3410));
    let over = Segment { mode: SegmentMode::Numeric, num_chars: 1024, data: vec![false; 3414] };
    assert_eq!(get_total_bits(&[over.clone()], 9), None);
    assert_eq!(get_total_bits(&[over], 10), Some(4 + 12 + 3414));
    let bytes = Segment { mode: SegmentMode::Byte, num_chars: 256, data: vec![true; 2048] };
    assert_eq!(get_total_bits(&[bytes.clone()], 1), None);
    assert_eq!(get_total_bits(&[bytes], 10), Some(4 + 16 + 2048));
}

#[test]
fn capacity_formulas() {
    assert_eq!(get_num_raw_data_modules(1), 208);
    assert_eq!(get_num_raw_data_modules(2), 359);
    assert_eq!(get_num_raw_data_modules(7), 1568);
    assert_eq!(get_num_raw_data_modules(40), 29648);
    assert_eq!(get_num_data_codewords(1, EccLevel::Low), 19);
    assert_eq!(get_num_data_codewords(1, EccLevel::High), 9);
    assert_eq!(get_num_data_codewords(10, EccLevel::Quartile), 154);
    assert_eq!(get_num_data_codewords(40, EccLevel::High), 1276);
    let table = vec![vec![1i8; 41], vec![2i8; 41], vec![3i8; 41], vec![4i8; 41]];
    assert_eq!(table_get(&table, 7, EccLevel::Quartile), 3);
}

#[test]
fn count_field_widths() {
    assert_eq!(num_char_count_bits(SegmentMode::Numeric, 9), 10);
    assert_eq!(num_char_count_bits(SegmentMode::Numeric, 10), 12);
    assert_eq!(num_char_count_bits(SegmentMode::Numeric, 27), 14);
    assert_eq!(num_char_count_bits(SegmentMode::Alphanumeric, 26), 11);
    assert_eq!(num_char_count_bits(SegmentMode::Byte, 1), 8);
    assert_eq!(num_char_count_bits(SegmentMode::Byte, 40), 16);
    assert_eq!(num_char_count_bits(SegmentMode::Kanji, 40), 12);
}

#[test]
fn segment_packing() {
    let digits: Vec<char> = "12345".chars().collect();
    let s = make_segment(SegmentMode::Numeric, &digits);
    assert_eq!(s.num_chars, 5);
    assert_eq!(s.data, bits(&[0, 0, 0, 1, 1, 1, 1, 0, 1, 1, 0, 1, 0, 1, 1, 0, 1]));
    let alnum: Vec<char> = "AC-42".chars().collect();
    let s = make_segment(SegmentMode::Alphanumeric, &alnum);
    assert_eq!(s.num_chars, 5);
    assert_eq!(s.data.len(), 28);
    assert_eq!(&s.data[..11], &bits(&[0, 0, 1, 1, 1, 0, 0, 1, 1, 1, 0])[..]);
    let word: Vec<char> = "é".chars().collect();
    let run: Vec<char> = "1234".chars().collect();
    assert_eq!(make_segment(SegmentMode::Numeric, &run).data.len(), 14);
    let s = make_segment(SegmentMode::Byte, &word);
    assert_eq!(s.mode, SegmentMode::Byte);
    assert_eq!(s.num_chars, 2);
    assert_eq!(s.data, bits(&[1, 1, 0, 0, 0, 0, 1, 1, 1, 0, 1, 0, 1, 0, 0, 1]));
}

#[test]
fn modes_switch_where_cheaper() {
    let text: Vec<char> = "abc0123456789012".chars().collect();
    let modes = compute_character_modes(&text, 1);
    assert!(modes[..3].iter().all(|m| *m == SegmentMode::Byte));
    assert!(modes[3..].iter().all(|m| *m == SegmentMode::Numeric));
    let segs = make_segments_optimally_at_version(&text, 1);
    assert_eq!(segs.len(), 2);
    assert_eq!(segs[0].mode, SegmentMode::Byte);
    assert_eq!(segs[0].num_chars, 3);
    assert_eq!(segs[1].mode, SegmentMode::Numeric);
    assert_eq!(segs[1].num_chars, 13);
}

#[test]
fn split_follows_runs() {
    let text: Vec<char> = "ab12CD".chars().collect();
    let modes = [
        SegmentMode::Byte,
        SegmentMode::Byte,
        SegmentMode::Numeric,
        SegmentMode::Numeric,
        SegmentMode::Alphanumeric,
        SegmentMode::Alphanumeric,
    ];
    let segs = split_into_segments(&text, &modes);
    assert_eq!(segs.len(), 3);
    assert_eq!((segs[0].mode, segs[0].num_chars, segs[0].data.len()), (SegmentMode::Byte, 2, 16));
    assert_eq!((segs[1].mode, segs[1].num_chars, segs[1].data.len()), (SegmentMode::Numeric, 2, 7));
    assert_eq!((segs[2].mode, segs[2].num_chars, segs[2].data.len()), (SegmentMode::Alphanumeric, 2, 11));
    assert!(split_into_segments(&[], &[]).is_empty());
}

#[test]
fn url_canonical_text() {
    assert_eq!(canonical_url(&parts("https://magiclen.org/path/to/12345")), "HTTPS://MAGICLEN.ORG/path/to/12345");
    assert_eq!(
        canonical_url(&parts("http://user:pw@example.com:8080/a/b?q=x#frag")),
        "HTTP://user:pw@EXAMPLE.COM:8080/a/b?q=x#frag"
    );
    assert_eq!(canonical_url(&parts("http://127.0.0.1/x")), "HTTP://127.0.0.1/x");
    assert_eq!(canonical_url(&parts("ftp://:secret@Example.com/")), "FTP://:secret@EXAMPLE.COM/");
    assert_eq!(canonical_url(&parts("mailto:Len@Example.com")), "MAILTO:Len@Example.com");
}

#[test]
fn url_already_uppercase_is_unchanged() {
    let mut u = parts("https://magiclen.org/Path?Q=1");
    u.serialization = "HTTPS://MAGICLEN.ORG/Path?Q=1".to_string();
    u.scheme = "HTTPS".to_string();
    u.domain = Some("MAGICLEN.ORG".to_string());
    u.host = Some("MAGICLEN.ORG".to_string());
    assert_eq!(canonical_url(&u), "HTTPS://MAGICLEN.ORG/Path?Q=1");
    let mut v = parts("http://10.0.0.1:81/");
    v.serialization = "HTTP://10.0.0.1:81/".to_string();
    v.scheme = "HTTP".to_string();
    assert_eq!(canonical_url(&v), "HTTP://10.0.0.1:81/");
}

#[test]
fn url_canonicalizing_twice_changes_nothing() {
    let u = parts("ftp://anna@files.example.net:2121/Pub/File.txt?x=Y#Z");
    let once = canonical_url(&u);
    let mut again = u.clone();
    again.serialization = once.clone();
    again.scheme = u.scheme.to_uppercase();
    again.domain = u.domain.as_ref().map(|d| d.to_uppercase());
    again.host = u.host.as_ref().map(|d| d.to_uppercase());
    assert_eq!(canonical_url(&again), once);
    assert_eq!(parts(&once).serialization, u.serialization);
    assert_eq!(canonical_url(&parts(&once)), once);
}

#[test]
fn email_canonical_text() {
    let mut e = email("Len.Q", EmailHost::Domain("mail.example.org".to_string()), "x");
    e.need_quoted = true;
    e.comment_before_local_part = Some("a".to_string());
    e.comment_after_local_part = Some("b".to_string());
    e.comment_before_domain_part = Some("c".to_string());
    e.comment_after_domain_part = Some("d".to_string());
    assert_eq!(canonical_email(&e), "(a)\"Len.Q\"(b)@(c)MAIL.EXAMPLE.ORG(d)");
    let literal = email("len", EmailHost::Literal("127.0.0.1".to_string()), "len@[127.0.0.1]");
    assert_eq!(canonical_email(&literal), "len@[127.0.0.1]");
    let upper = email("len", EmailHost::Domain("EXAMPLE.ORG".to_string()), "len@EXAMPLE.ORG");
    assert_eq!(canonical_email(&upper), "len@EXAMPLE.ORG");
    let once = canonical_email(&email("len", EmailHost::Domain("a.b".to_string()), "len@a.b"));
    let again = email("len", EmailHost::Domain("A.B".to_string()), &once);
    assert_eq!(canonical_email(&again), once);
}

#[test]
fn kanji_table_lookup_and_packing() {
    let mut table = vec![-1i16; 0x100];
    table['A' as usize] = 0x0AAA;
    table['B' as usize] = 1;
    assert!(is_kanji(&table, 'A'));
    assert!(!is_kanji(&table, 'C'));
    assert!(!is_kanji(&table, '\u{4e00}'));
    let text: Vec<char> = "AB".chars().collect();
    let seg = make_kanji(&table, &text);
    assert_eq!(seg.mode, SegmentMode::Kanji);
    assert_eq!(seg.num_chars, 2);
    assert_eq!(
        seg.data,
        bits(&[0, 1, 0, 1, 0, 1, 0, 1, 0, 1, 0, 1, 0, 0, 0, 0, 0, 0, 0, 0, 0, 0, 0, 0, 0, 1])
    );
}
