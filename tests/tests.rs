use qrcode_generator::qrcodegen::QrSegmentMode;
use qrcode_generator::{QrCodeEcc, QrSegment};
use qrcode_segments_optimizer::models::{Email, EmailHost, UrlParts};
use qrcode_segments_optimizer::segment::{Segment, SegmentMode};
use qrcode_segments_optimizer::{
    make_segments_from_email, make_segments_from_str, make_segments_from_url, EccLevel,
    QrCodeError,
};
use url::Url;

fn url_parts(url: &Url) -> UrlParts {
    UrlParts {
        serialization: url.as_str().to_string(),
        scheme: url.scheme().to_string(),
        has_authority: url.has_authority(),
        username: url.username().to_string(),
        password: url.password().map(|s| s.to_string()),
        domain: url.domain().map(|s| s.to_string()),
        host: url.host_str().map(|s| s.to_string()),
        port: url.port(),
        path: url.path().to_string(),
        query: url.query().map(|s| s.to_string()),
        fragment: url.fragment().map(|s| s.to_string()),
    }
}

fn to_qr(segs: &[Segment]) -> Vec<QrSegment> {
    segs.iter()
        .map(|s| {
            let mode = match s.mode {
                SegmentMode::Numeric => QrSegmentMode::Numeric,
                SegmentMode::Alphanumeric => QrSegmentMode::Alphanumeric,
                SegmentMode::Byte => QrSegmentMode::Byte,
                SegmentMode::Kanji => QrSegmentMode::Kanji,
            };
            QrSegment::new(mode, s.num_chars, s.data.clone())
        })
        .collect()
}

#[test]
fn optimize_url() {
    let url = "https://magiclen.org/path/to/12345";
    let ecc = QrCodeEcc::Low;

    let naive_matrix = qrcode_generator::to_matrix(url, ecc).unwrap();

    let url = Url::parse(url).unwrap();

    let segs = make_segments_from_url(&url_parts(&url), EccLevel::Low).unwrap();
    let optimized_matrix = qrcode_generator::to_matrix_from_segments(&to_qr(&segs), ecc).unwrap();

    assert!(optimized_matrix.len() < naive_matrix.len());
}

#[test]
fn optimize_email() {
    let email = "len@email.abcde.example.org";
    let ecc = QrCodeEcc::High;

    let naive_matrix = qrcode_generator::to_matrix(email, ecc).unwrap();

    let email = Email {
        local_part: "len".to_string(),
        need_quoted: false,
        domain_part: EmailHost::Domain("email.abcde.example.org".to_string()),
        comment_before_local_part: None,
        comment_after_local_part: None,
        comment_before_domain_part: None,
        comment_after_domain_part: None,
        email_string: email.to_string(),
    };

    let segs = make_segments_from_email(&email, EccLevel::High).unwrap();
    let optimized_matrix = qrcode_generator::to_matrix_from_segments(&to_qr(&segs), ecc).unwrap();

    assert!(optimized_matrix.len() < naive_matrix.len());
}
