use annual_training::badge::{
    badge_from_rgb, badge_from_rgba, encode_badge_stream, encode_badge_streams, split_rgba, BadgeError,
};
use annual_training::certificate::{
    build_certificate, certificate_at, certificate_digest_hex, escape_pdf_text, rfc3339_at,
    verification_code,
};
use annual_training::pdf::{
    build_certificate_pdf, build_certificate_pdf_with_mask, certificate_content, certificate_pdf,
};
use sha2::{Digest, Sha256};
use std::io::Cursor;
use std::io::Read;
use std::io::Write as _;

struct OracleCert {
    cert_id: String,
    employee_name: String,
    issued_at_utc: String,
    score_percent_text: String,
    score: usize,
    total: usize,
    verification_code: String,
}

fn oracle_escape(input: &str) -> String {
    input
        .replace('\\', "\\\\")
        .replace('(', "\\(")
        .replace(')', "\\)")
}
fn oracle_pdf(cert: &OracleCert, badge_png: &[u8]) -> std::io::Result<Vec<u8>> {
    let content = format!(
        "q
1 1 1 rg
0 0 792 612 re
f
Q
\
q
1 1 1 rg
0 0 792 612 re
f
Q
\
q
1 1 1 rg
0 0 792 612 re
f
Q
\
q
1 1 1 rg
28 28 736 556 re
f
Q
\
q
0.73 0.82 0.96 rg
40 40 712 532 re
S
Q
\
q
0.65 0.76 0.95 rg
52 52 688 508 re
S
Q
\
q
0.84 0.91 1 rg
56 56 680 500 re
f
Q
\
q
0.75 0.86 0.99 rg
70 70 652 472 re
f
Q
\
q
0.82 0.90 0.99 rg
80 500 632 3 re
f
80 118 632 3 re
f
Q
\
q
0.79 0.87 0.98 rg
120 450 560 2 re
f
120 170 560 2 re
f
Q
\
q
0.20 0.35 0.66 RG
6 w
30 30 732 552 re
S
Q
\
q
0.27 0.46 0.80 RG
2 w
48 48 696 516 re
S
Q
\
q
0.76 0.65 0.37 RG
6 w
30 30 732 552 re
S
Q
\
q
0.86 0.77 0.50 RG
2 w
48 48 696 516 re
S
Q
\
q
170 0 0 170 545 85 cm
/Im1 Do
Q
\
BT
/F1 38 Tf
80 500 Td
(Completion Certificate) Tj
\
0 -44 Td
/F1 16 Tf
(Awarded for successful completion of Annual Software Development Training) Tj
\
0 -68 Td
/F1 20 Tf
(Presented to) Tj
\
0 -42 Td
/F1 28 Tf
({}) Tj
\
0 -54 Td
/F1 18 Tf
(Completed At \\(UTC\\): {}) Tj
\
0 -30 Td
(Certificate ID: {}) Tj
\
0 -30 Td
(Score: {}/{} \\({}%\\)) Tj
\
0 -30 Td
(Verification Code: {}) Tj
\
0 -52 Td
/F1 13 Tf
(Use certificate ID and verification code to confirm completion.) Tj
ET
",
        oracle_escape(&cert.employee_name),
        oracle_escape(&cert.issued_at_utc),
        oracle_escape(&cert.cert_id),
        cert.score,
        cert.total,
        cert.score_percent_text,
        oracle_escape(&cert.verification_code),
    );

    let (badge_width, badge_height, badge_stream) = oracle_badge_stream(badge_png)?;
    let mut pdf = Vec::new();
    pdf.extend_from_slice(
        b"%PDF-1.4
",
    );
    let mut offsets = vec![0_usize];

    offsets.push(pdf.len());
    pdf.extend_from_slice(
        b"1 0 obj
<< /Type /Catalog /Pages 2 0 R >>
endobj
",
    );
    offsets.push(pdf.len());
    pdf.extend_from_slice(
        b"2 0 obj
<< /Type /Pages /Kids [3 0 R] /Count 1 >>
endobj
",
    );
    offsets.push(pdf.len());
    pdf.extend_from_slice(b"3 0 obj
<< /Type /Page /Parent 2 0 R /MediaBox [0 0 792 612] /Resources << /Font << /F1 4 0 R >> /XObject << /Im1 6 0 R >> >> /Contents 5 0 R >>
endobj
");
    offsets.push(pdf.len());
    pdf.extend_from_slice(
        b"4 0 obj
<< /Type /Font /Subtype /Type1 /BaseFont /Helvetica >>
endobj
",
    );
    offsets.push(pdf.len());
    pdf.extend_from_slice(
        format!(
            "5 0 obj
<< /Length {} >>
stream
{}endstream
endobj
",
            content.len(),
            content
        )
        .as_bytes(),
    );
    offsets.push(pdf.len());
    pdf.extend_from_slice(
        format!(
            "6 0 obj
<< /Type /XObject /Subtype /Image /Width {} /Height {} /ColorSpace /DeviceRGB /BitsPerComponent 8 /Filter /FlateDecode /Length {} >>
stream
",
            badge_width,
            badge_height,
            badge_stream.len()
        )
        .as_bytes(),
    );
    pdf.extend_from_slice(&badge_stream);
    pdf.extend_from_slice(
        b"
endstream
endobj
",
    );

    let xref_start = pdf.len();
    pdf.extend_from_slice(
        b"xref
0 7
0000000000 65535 f 
",
    );
    for off in offsets.iter().skip(1) {
        pdf.extend_from_slice(
            format!(
                "{:010} 00000 n 
",
                off
            )
            .as_bytes(),
        );
    }
    pdf.extend_from_slice(
        b"trailer
<< /Size 7 /Root 1 0 R >>
",
    );
    pdf.extend_from_slice(
        format!(
            "startxref
{}
%%EOF
",
            xref_start
        )
        .as_bytes(),
    );
    Ok(pdf)
}

fn oracle_pdf_masked(cert: &OracleCert, badge_png: &[u8]) -> std::io::Result<Vec<u8>> {
    let content = format!(
        "q
1 1 1 rg
0 0 792 612 re
f
Q
\
q
1 1 1 rg
0 0 792 612 re
f
Q
\
q
1 1 1 rg
0 0 792 612 re
f
Q
\
q
1 1 1 rg
28 28 736 556 re
f
Q
\
q
0.73 0.82 0.96 rg
40 40 712 532 re
S
Q
\
q
0.65 0.76 0.95 rg
52 52 688 508 re
S
Q
\
q
0.84 0.91 1 rg
56 56 680 500 re
f
Q
\
q
0.75 0.86 0.99 rg
70 70 652 472 re
f
Q
\
q
0.82 0.90 0.99 rg
80 500 632 3 re
f
80 118 632 3 re
f
Q
\
q
0.79 0.87 0.98 rg
120 450 560 2 re
f
120 170 560 2 re
f
Q
\
q
0.20 0.35 0.66 RG
6 w
30 30 732 552 re
S
Q
\
q
0.27 0.46 0.80 RG
2 w
48 48 696 516 re
S
Q
\
q
0.76 0.65 0.37 RG
6 w
30 30 732 552 re
S
Q
\
q
0.86 0.77 0.50 RG
2 w
48 48 696 516 re
S
Q
\
q
170 0 0 170 545 85 cm
/Im1 Do
Q
\
BT
/F1 38 Tf
80 500 Td
(Completion Certificate) Tj
\
0 -44 Td
/F1 16 Tf
(Awarded for successful completion of Annual Software Development Training) Tj
\
0 -68 Td
/F1 20 Tf
(Presented to) Tj
\
0 -42 Td
/F1 28 Tf
({}) Tj
\
0 -54 Td
/F1 18 Tf
(Completed At \\(UTC\\): {}) Tj
\
0 -30 Td
(Certificate ID: {}) Tj
\
0 -30 Td
(Score: {}/{} \\({}%\\)) Tj
\
0 -30 Td
(Verification Code: {}) Tj
\
0 -52 Td
/F1 13 Tf
(Use certificate ID and verification code to confirm completion.) Tj
ET
",
        oracle_escape(&cert.employee_name),
        oracle_escape(&cert.issued_at_utc),
        oracle_escape(&cert.cert_id),
        cert.score,
        cert.total,
        cert.score_percent_text,
        oracle_escape(&cert.verification_code),
    );

    let (badge_width, badge_height, badge_stream, badge_alpha_stream) =
        oracle_badge_streams(badge_png)?;
    let mut pdf = Vec::new();
    pdf.extend_from_slice(
        b"%PDF-1.4
",
    );
    let mut offsets = vec![0_usize];

    offsets.push(pdf.len());
    pdf.extend_from_slice(
        b"1 0 obj
<< /Type /Catalog /Pages 2 0 R >>
endobj
",
    );
    offsets.push(pdf.len());
    pdf.extend_from_slice(
        b"2 0 obj
<< /Type /Pages /Kids [3 0 R] /Count 1 >>
endobj
",
    );
    offsets.push(pdf.len());
    pdf.extend_from_slice(b"3 0 obj
<< /Type /Page /Parent 2 0 R /MediaBox [0 0 792 612] /Resources << /Font << /F1 4 0 R >> /XObject << /Im1 6 0 R >> >> /Contents 5 0 R >>
endobj
");
    offsets.push(pdf.len());
    pdf.extend_from_slice(
        b"4 0 obj
<< /Type /Font /Subtype /Type1 /BaseFont /Helvetica >>
endobj
",
    );
    offsets.push(pdf.len());
    pdf.extend_from_slice(
        format!(
            "5 0 obj
<< /Length {} >>
stream
{}endstream
endobj
",
            content.len(),
            content
        )
        .as_bytes(),
    );
    offsets.push(pdf.len());
    pdf.extend_from_slice(
        format!(
            "6 0 obj
<< /Type /XObject /Subtype /Image /Width {} /Height {} /ColorSpace /DeviceRGB /BitsPerComponent 8 /SMask 7 0 R /Filter /FlateDecode /Length {} >>
stream
",
            badge_width,
            badge_height,
            badge_stream.len()
        )
        .as_bytes(),
    );
    pdf.extend_from_slice(&badge_stream);
    pdf.extend_from_slice(
        b"
endstream
endobj
",
    );

    offsets.push(pdf.len());
    pdf.extend_from_slice(
        format!(
            "7 0 obj
<< /Type /XObject /Subtype /Image /Width {} /Height {} /ColorSpace /DeviceGray /BitsPerComponent 8 /Filter /FlateDecode /Length {} >>
stream
",
            badge_width,
            badge_height,
            badge_alpha_stream.len()
        )
        .as_bytes(),
    );
    pdf.extend_from_slice(&badge_alpha_stream);
    pdf.extend_from_slice(
        b"
endstream
endobj
",
    );

    let xref_start = pdf.len();
    pdf.extend_from_slice(
        b"xref
0 8
0000000000 65535 f 
",
    );
    for off in offsets.iter().skip(1) {
        pdf.extend_from_slice(
            format!(
                "{:010} 00000 n 
",
                off
            )
            .as_bytes(),
        );
    }
    pdf.extend_from_slice(
        b"trailer
<< /Size 8 /Root 1 0 R >>
",
    );
    pdf.extend_from_slice(
        format!(
            "startxref
{}
%%EOF
",
            xref_start
        )
        .as_bytes(),
    );
    Ok(pdf)
}

fn oracle_badge_stream(png_bytes: &[u8]) -> std::io::Result<(u32, u32, Vec<u8>)> {
    let image = image::ImageReader::new(Cursor::new(png_bytes))
        .with_guessed_format()
        .map_err(|err| std::io::Error::other(format!("badge format error: {err}")))?
        .decode()
        .map_err(|err| std::io::Error::other(format!("badge decode error: {err}")))?
        .to_rgb8();
    let (width, height) = image.dimensions();
    let mut encoder = flate2::write::ZlibEncoder::new(Vec::new(), flate2::Compression::default());
    encoder
        .write_all(&image.into_raw())
        .map_err(|err| std::io::Error::other(format!("badge stream write error: {err}")))?;
    let compressed = encoder
        .finish()
        .map_err(|err| std::io::Error::other(format!("badge compression error: {err}")))?;
    Ok((width, height, compressed))
}

fn oracle_badge_streams(png_bytes: &[u8]) -> std::io::Result<(u32, u32, Vec<u8>, Vec<u8>)> {
    let image = image::ImageReader::new(Cursor::new(png_bytes))
        .with_guessed_format()
        .map_err(|err| std::io::Error::other(format!("badge format error: {err}")))?
        .decode()
        .map_err(|err| std::io::Error::other(format!("badge decode error: {err}")))?
        .to_rgba8();
    let (width, height) = image.dimensions();
    let (rgb, alpha): (Vec<u8>, Vec<u8>) =
        image
            .into_raw()
            .chunks_exact(4)
            .fold((Vec::new(), Vec::new()), |mut channels, pixel| {
                channels.0.extend_from_slice(&pixel[..3]);
                channels.1.push(pixel[3]);
                channels
            });
    let mut rgb_encoder =
        flate2::write::ZlibEncoder::new(Vec::new(), flate2::Compression::default());
    rgb_encoder
        .write_all(&rgb)
        .map_err(|err| std::io::Error::other(format!("badge stream write error: {err}")))?;
    let compressed_rgb = rgb_encoder
        .finish()
        .map_err(|err| std::io::Error::other(format!("badge compression error: {err}")))?;
    let mut alpha_encoder =
        flate2::write::ZlibEncoder::new(Vec::new(), flate2::Compression::default());
    alpha_encoder
        .write_all(&alpha)
        .map_err(|err| std::io::Error::other(format!("badge alpha stream write error: {err}")))?;
    let compressed_alpha = alpha_encoder
        .finish()
        .map_err(|err| std::io::Error::other(format!("badge alpha compression error: {err}")))?;
    Ok((width, height, compressed_rgb, compressed_alpha))
}

fn sample_png(width: u32, height: u32) -> Vec<u8> {
    let img = image::RgbaImage::from_fn(width, height, |x, y| {
        image::Rgba([(x * 40) as u8, (y * 90) as u8, 200, (128 + x) as u8])
    });
    let mut bytes = Vec::new();
    img.write_to(&mut Cursor::new(&mut bytes), image::ImageFormat::Png).unwrap();
    bytes
}

fn inflate(data: &[u8]) -> Vec<u8> {
    let mut out = Vec::new();
    flate2::read::ZlibDecoder::new(data).read_to_end(&mut out).unwrap();
    out
}

fn oracle_for(cert: &annual_training::certificate::Certificate, pct: &str) -> OracleCert {
    OracleCert {
        cert_id: cert.cert_id.clone(),
        employee_name: cert.employee_name.clone(),
        issued_at_utc: cert.issued_at_utc.clone(),
        score_percent_text: pct.to_string(),
        score: cert.score,
        total: cert.total,
        verification_code: cert.verification_code.clone(),
    }
}

#[test]
fn verification_code_is_stable_for_same_input() {
    let code = verification_code("abc", "Jane", 4, 5);
    assert_eq!(code, verification_code("abc", "Jane", 4, 5));
}

#[test]
fn verification_code_is_upper_hex_prefix_of_sha256() {
    let expected = format!("{:x}", Sha256::digest("verify:abc:Jane:4:5".as_bytes()))[..12].to_uppercase();
    let code = verification_code("abc", "Jane", 4, 5);
    assert_eq!(code, expected);
    assert_eq!(code.len(), 12);
    assert_ne!(code, verification_code("abc", "Jane", 5, 5));
}

#[test]
fn digest_is_lower_hex_sha256_of_message() {
    let expected = format!("{:x}", Sha256::digest("id-1:Zoë (QA):8:9".as_bytes()));
    let digest = certificate_digest_hex("id-1", "Zoë (QA)", 8, 9);
    assert_eq!(digest, expected);
    assert_eq!(digest.len(), 64);
}

#[test]
fn certificate_at_fills_every_field() {
    let cert = certificate_at("c-42", "Ana", 9, 9, "2024-01-02T03:04:05+00:00".to_string());
    assert_eq!(cert.cert_id, "c-42");
    assert_eq!(cert.employee_name, "Ana");
    assert_eq!(cert.issued_at_utc, "2024-01-02T03:04:05+00:00");
    assert_eq!((cert.score, cert.total), (9, 9));
    assert_eq!(cert.digest, format!("{:x}", Sha256::digest("c-42:Ana:9:9".as_bytes())));
    assert_eq!(cert.verification_code, verification_code("c-42", "Ana", 9, 9));
}

#[test]
fn build_certificate_stamps_the_current_time() {
    let cert = build_certificate("c-1", "Bo", 8, 9).unwrap();
    assert_eq!(cert.cert_id, "c-1");
    assert!(chrono::DateTime::parse_from_rfc3339(&cert.issued_at_utc).is_ok());
    assert_eq!(cert.digest, certificate_digest_hex("c-1", "Bo", 8, 9));
}

#[test]
fn escape_pdf_text_escapes_backslashes_and_parentheses() {
    assert_eq!(escape_pdf_text("a(b)c\\d"), "a\\(b\\)c\\\\d");
    assert_eq!(escape_pdf_text("plain — text"), "plain — text");
    assert_eq!(escape_pdf_text(""), "");
    for s in ["((", "\\(", "x)\\)", "Zoë (QA)"] {
        assert_eq!(escape_pdf_text(s), oracle_escape(s));
    }
}

#[test]
fn split_rgba_separates_colour_and_alpha() {
    let raw = [1u8, 2, 3, 4, 5, 6, 7, 8, 9, 10];
    let (rgb, alpha) = split_rgba(&raw);
    assert_eq!(rgb, vec![1, 2, 3, 5, 6, 7]);
    assert_eq!(alpha, vec![4, 8]);
}

#[test]
fn encode_badge_stream_matches_decoding_and_compression() {
    let png = sample_png(3, 2);
    let badge = encode_badge_stream(&png).unwrap();
    let (w, h, stream) = oracle_badge_stream(&png).unwrap();
    assert_eq!((badge.width, badge.height), (w, h));
    assert_eq!(badge.rgb_stream, stream);
    assert!(badge.alpha_stream.is_none());
    assert_eq!(inflate(&badge.rgb_stream).len(), 3 * 2 * 3);
}

#[test]
fn encode_badge_streams_keeps_transparency_apart() {
    let png = sample_png(3, 2);
    let badge = encode_badge_streams(&png).unwrap();
    let (w, h, rgb, alpha) = oracle_badge_streams(&png).unwrap();
    assert_eq!((badge.width, badge.height), (w, h));
    assert_eq!(badge.rgb_stream, rgb);
    assert_eq!(badge.alpha_stream.as_deref(), Some(alpha.as_slice()));
    assert_eq!(inflate(&alpha), vec![128, 129, 130, 128, 129, 130]);
}

#[test]
fn encode_badge_stream_rejects_non_images() {
    match encode_badge_stream(b"not an image at all") {
        Err(BadgeError::Decode(_)) | Err(BadgeError::Format(_)) => {}
        other => panic!("unexpected: {other:?}"),
    }
}

#[test]
fn certificate_content_matches_template() {
    let cert = certificate_at("id (1)", "Jo\\e", 8, 9, "2024-05-06T07:08:09+00:00".to_string());
    let content = certificate_content(&cert, "88.9");
    assert!(content.starts_with("q\n1 1 1 rg\n0 0 792 612 re\nf\nQ\nq\n"));
    assert!(content.contains("(Jo\\\\e) Tj"));
    assert!(content.contains("(Certificate ID: id \\(1\\)) Tj"));
    assert!(content.contains("(Score: 8/9 \\(88.9%\\)) Tj"));
    assert!(content.ends_with("(Use certificate ID and verification code to confirm completion.) Tj\nET\n"));
}

#[test]
fn build_certificate_pdf_matches_layout() {
    let png = sample_png(4, 3);
    let cert = certificate_at("7f3c", "Zoë (QA)", 8, 9, "2024-05-06T07:08:09+00:00".to_string());
    let pdf = build_certificate_pdf(&cert, "88.9", &png).unwrap();
    let expected = oracle_pdf(&oracle_for(&cert, "88.9"), &png).unwrap();
    assert_eq!(pdf, expected);
    assert!(pdf.starts_with(b"%PDF-1.4\n"));
    assert!(pdf.ends_with(b"%%EOF\n"));
}

#[test]
fn build_certificate_pdf_with_mask_matches_layout() {
    let png = sample_png(5, 2);
    let cert = certificate_at("c-9", "Al", 9, 9, "2024-05-06T07:08:09+00:00".to_string());
    let pdf = build_certificate_pdf_with_mask(&cert, "100.0", &png).unwrap();
    let expected = oracle_pdf_masked(&oracle_for(&cert, "100.0"), &png).unwrap();
    assert_eq!(pdf, expected);
}

#[test]
fn pdf_cross_references_point_at_objects() {
    let png = sample_png(2, 2);
    let cert = certificate_at("c-3", "Kim", 9, 9, "t".to_string());
    let pdf = build_certificate_pdf(&cert, "100.0", &png).unwrap();
    let text = String::from_utf8_lossy(&pdf).into_owned();
    let start_pos = text.rfind("startxref\n").unwrap() + "startxref\n".len();
    let xref_start: usize = text[start_pos..].lines().next().unwrap().parse().unwrap();
    assert!(pdf[xref_start..].starts_with(b"xref\n0 7\n"));
    let table = String::from_utf8(pdf[xref_start..].to_vec()).unwrap();
    for (k, line) in table.lines().skip(3).take(6).enumerate() {
        let offset: usize = line[..10].parse().unwrap();
        let header = format!("{} 0 obj\n", k + 1);
        assert!(pdf[offset..].starts_with(header.as_bytes()), "object {}", k + 1);
    }
}

#[test]
fn build_certificate_pdf_reports_bad_badge() {
    let cert = certificate_at("c-3", "Kim", 9, 9, "t".to_string());
    assert!(build_certificate_pdf(&cert, "100.0", b"").is_err());
}

#[test]
fn verification_code_is_twelve_upper_hex_digits() {
    let code = verification_code("x", "Ünïcode ✓", 0, 0);
    assert_eq!(code.len(), 12);
    assert!(code.chars().all(|c| matches!(c, '0'..='9' | 'A'..='F')));
    let digest = certificate_digest_hex("x", "Ünïcode ✓", 0, 0);
    assert_eq!(digest.len(), 64);
    assert!(digest.chars().all(|c| matches!(c, '0'..='9' | 'a'..='f')));
}

#[test]
fn escaped_text_length_and_parentheses() {
    let input = "a\\(b))\\\\c";
    let escaped = escape_pdf_text(input);
    let special = input.chars().filter(|c| matches!(c, '\\' | '(' | ')')).count();
    assert_eq!(escaped.chars().count(), input.chars().count() + special);
    let chars: Vec<char> = escaped.chars().collect();
    for (i, c) in chars.iter().enumerate() {
        if *c == '(' || *c == ')' {
            let run = chars[..i].iter().rev().take_while(|d| **d == '\\').count();
            assert_eq!(run % 2, 1, "position {i}");
        }
    }
}

#[test]
fn badge_from_decoded_pixels_compresses_them() {
    let rgb = [10u8, 20, 30, 40, 50, 60];
    let badge = badge_from_rgb(2, 1, &rgb);
    assert_eq!((badge.width, badge.height), (2, 1));
    assert_eq!(inflate(&badge.rgb_stream), rgb.to_vec());
    assert!(badge.alpha_stream.is_none());
    let rgba = [1u8, 2, 3, 4, 5, 6, 7, 8];
    let badge = badge_from_rgba(2, 1, &rgba);
    assert_eq!(inflate(&badge.rgb_stream), vec![1, 2, 3, 5, 6, 7]);
    assert_eq!(inflate(badge.alpha_stream.as_ref().unwrap()), vec![4, 8]);
}

#[test]
fn certificate_pdf_matches_build_from_png() {
    let png = sample_png(3, 3);
    let cert = certificate_at("c-5", "Lu", 9, 9, "t".to_string());
    let badge = encode_badge_stream(&png).unwrap();
    assert_eq!(certificate_pdf(&cert, "100.0", &badge), build_certificate_pdf(&cert, "100.0", &png).unwrap());
}

#[test]
fn rfc3339_at_formats_unix_timestamps() {
    assert_eq!(rfc3339_at(0, 0).as_deref(), Some("1970-01-01T00:00:00+00:00"));
    assert_eq!(rfc3339_at(1_700_000_000, 5).unwrap(), chrono::DateTime::from_timestamp(1_700_000_000, 5).unwrap().to_rfc3339());
    assert_eq!(rfc3339_at(u64::MAX, 0), None);
    assert_eq!(rfc3339_at(i64::MAX as u64, 0), None);
}
