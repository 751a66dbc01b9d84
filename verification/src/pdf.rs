//! The certificate PDF: its page content and the byte layout of the
//! document, with a cross-reference table whose entries are the byte offsets
//! of the objects.

use vstd::prelude::*;
use vstd::utf8::encode_utf8;
use crate::badge::{
    encode_badge_stream, encode_badge_streams, rgb_badge, rgba_badge, BadgeError, BadgeImage,
};
use crate::certificate::{
    escape_pdf_text, lemma_unescape_escaped, pdf_escaped, pdf_unescaped, Certificate,
};
use crate::text::{decimal, digit_char, push_decimal, push_zero_padded, zero_padded};

verus! {

// The page content: a fixed drawing and text lines, cut where the fields go.
pub const CONTENT_OPEN: &'static str = "q\n1 1 1 rg\n0 0 792 612 re\nf\nQ\nq\n1 1 1 rg\n0 0 792 612 re\nf\nQ\nq\n1 1 1 rg\n0 0 792 612 re\nf\nQ\nq\n1 1 1 rg\n28 28 736 556 re\nf\nQ\nq\n0.73 0.82 0.96 rg\n40 40 712 532 re\nS\nQ\nq\n0.65 0.76 0.95 rg\n52 52 688 508 re\nS\nQ\nq\n0.84 0.91 1 rg\n56 56 680 500 re\nf\nQ\nq\n0.75 0.86 0.99 rg\n70 70 652 472 re\nf\nQ\nq\n0.82 0.90 0.99 rg\n80 500 632 3 re\nf\n80 118 632 3 re\nf\nQ\nq\n0.79 0.87 0.98 rg\n120 450 560 2 re\nf\n120 170 560 2 re\nf\nQ\nq\n0.20 0.35 0.66 RG\n6 w\n30 30 732 552 re\nS\nQ\nq\n0.27 0.46 0.80 RG\n2 w\n48 48 696 516 re\nS\nQ\nq\n0.76 0.65 0.37 RG\n6 w\n30 30 732 552 re\nS\nQ\nq\n0.86 0.77 0.50 RG\n2 w\n48 48 696 516 re\nS\nQ\nq\n170 0 0 170 545 85 cm\n/Im1 Do\nQ\nBT\n/F1 38 Tf\n80 500 Td\n(Completion Certificate) Tj\n0 -44 Td\n/F1 16 Tf\n(Awarded for successful completion of Annual Software Development Training) Tj\n0 -68 Td\n/F1 20 Tf\n(Presented to) Tj\n0 -42 Td\n/F1 28 Tf\n(";
pub const CONTENT_ISSUED: &'static str = ") Tj\n0 -54 Td\n/F1 18 Tf\n(Completed At \\(UTC\\): ";
pub const CONTENT_CERT_ID: &'static str = ") Tj\n0 -30 Td\n(Certificate ID: ";
pub const CONTENT_SCORE: &'static str = ") Tj\n0 -30 Td\n(Score: ";
pub const CONTENT_OUT_OF: &'static str = "/";
pub const CONTENT_PERCENT: &'static str = " \\(";
pub const CONTENT_CODE: &'static str = "%\\)) Tj\n0 -30 Td\n(Verification Code: ";
pub const CONTENT_CLOSE: &'static str = ") Tj\n0 -52 Td\n/F1 13 Tf\n(Use certificate ID and verification code to confirm completion.) Tj\nET\n";

// The document: header, objects, cross-reference table and trailer, cut
// where numbers and streams go.
pub const PDF_HEADER: &'static str = "%PDF-1.4\n";
pub const OBJ_CATALOG: &'static str = "1 0 obj\n<< /Type /Catalog /Pages 2 0 R >>\nendobj\n";
pub const OBJ_PAGES: &'static str = "2 0 obj\n<< /Type /Pages /Kids [3 0 R] /Count 1 >>\nendobj\n";
pub const OBJ_PAGE: &'static str = "3 0 obj\n<< /Type /Page /Parent 2 0 R /MediaBox [0 0 792 612] /Resources << /Font << /F1 4 0 R >> /XObject << /Im1 6 0 R >> >> /Contents 5 0 R >>\nendobj\n";
pub const OBJ_FONT: &'static str = "4 0 obj\n<< /Type /Font /Subtype /Type1 /BaseFont /Helvetica >>\nendobj\n";
pub const CONTENT_OBJ_HEAD: &'static str = "5 0 obj\n<< /Length ";
pub const STREAM_OPEN: &'static str = " >>\nstream\n";
pub const CONTENT_OBJ_TAIL: &'static str = "endstream\nendobj\n";
pub const IMAGE_OBJ_HEAD: &'static str = "6 0 obj\n<< /Type /XObject /Subtype /Image /Width ";
pub const IMAGE_HEIGHT: &'static str = " /Height ";
pub const IMAGE_RGB: &'static str = " /ColorSpace /DeviceRGB /BitsPerComponent 8 /Filter /FlateDecode /Length ";
pub const IMAGE_RGB_MASKED: &'static str = " /ColorSpace /DeviceRGB /BitsPerComponent 8 /SMask 7 0 R /Filter /FlateDecode /Length ";
pub const MASK_OBJ_HEAD: &'static str = "7 0 obj\n<< /Type /XObject /Subtype /Image /Width ";
pub const MASK_GRAY: &'static str = " /ColorSpace /DeviceGray /BitsPerComponent 8 /Filter /FlateDecode /Length ";
pub const IMAGE_STREAM_CLOSE: &'static str = "\nendstream\nendobj\n";
pub const XREF_HEAD: &'static str = "xref\n0 ";
pub const XREF_FREE_ENTRY: &'static str = "\n0000000000 65535 f \n";
pub const XREF_ENTRY_TAIL: &'static str = " 00000 n \n";
pub const TRAILER_HEAD: &'static str = "trailer\n<< /Size ";
pub const TRAILER_TAIL: &'static str = " /Root 1 0 R >>\nstartxref\n";
pub const EOF_MARK: &'static str = "\n%%EOF\n";

/// The page content of a certificate: its fixed drawing, then the employee's
/// name, the issue time, the certificate id, the score, the percentage as
/// given, and the verification code. Text fields are escaped for PDF strings.
pub open spec fn certificate_content_text(
    employee_name: Seq<char>,
    issued_at_utc: Seq<char>,
    cert_id: Seq<char>,
    score: nat,
    total: nat,
    score_percent_text: Seq<char>,
    verification_code: Seq<char>,
) -> Seq<char> {
    CONTENT_OPEN@ + pdf_escaped(employee_name) + CONTENT_ISSUED@ + pdf_escaped(issued_at_utc)
        + CONTENT_CERT_ID@ + pdf_escaped(cert_id) + CONTENT_SCORE@ + decimal(score) + CONTENT_OUT_OF@
        + decimal(total) + CONTENT_PERCENT@ + score_percent_text + CONTENT_CODE@ + pdf_escaped(
        verification_code,
    ) + CONTENT_CLOSE@
}

/// The page content of `cert`, with the percentage written as given.
pub open spec fn content_of(cert: Certificate, score_percent_text: Seq<char>) -> Seq<char> {
    certificate_content_text(
        cert.employee_name@,
        cert.issued_at_utc@,
        cert.cert_id@,
        cert.score as nat,
        cert.total as nat,
        score_percent_text,
        cert.verification_code@,
    )
}

/// The content stream object: its length in bytes, then the content.
pub open spec fn content_object(content: Seq<u8>) -> Seq<u8> {
    encode_utf8(CONTENT_OBJ_HEAD@ + decimal(content.len()) + STREAM_OPEN@) + content + encode_utf8(
        CONTENT_OBJ_TAIL@,
    )
}

/// The badge image object; with `masked`, it names object 7 as its soft mask.
pub open spec fn image_object(width: nat, height: nat, stream: Seq<u8>, masked: bool) -> Seq<u8> {
    encode_utf8(
        IMAGE_OBJ_HEAD@ + decimal(width) + IMAGE_HEIGHT@ + decimal(height) + (if masked {
            IMAGE_RGB_MASKED@
        } else {
            IMAGE_RGB@
        }) + decimal(stream.len()) + STREAM_OPEN@,
    ) + stream + encode_utf8(IMAGE_STREAM_CLOSE@)
}

/// The soft-mask object that carries the badge's transparency.
pub open spec fn mask_object(width: nat, height: nat, stream: Seq<u8>) -> Seq<u8> {
    encode_utf8(
        MASK_OBJ_HEAD@ + decimal(width) + IMAGE_HEIGHT@ + decimal(height) + MASK_GRAY@ + decimal(
            stream.len(),
        ) + STREAM_OPEN@,
    ) + stream + encode_utf8(IMAGE_STREAM_CLOSE@)
}

/// The objects of the document, numbered from 1 in order: catalog, page tree,
/// page, font, content, badge image and, where there is one, its mask.
pub open spec fn pdf_objects(content: Seq<u8>, width: nat, height: nat, rgb: Seq<u8>, alpha: Option<Seq<u8>>) -> Seq<Seq<u8>> {
    seq![
        encode_utf8(OBJ_CATALOG@),
        encode_utf8(OBJ_PAGES@),
        encode_utf8(OBJ_PAGE@),
        encode_utf8(OBJ_FONT@),
        content_object(content),
        image_object(width, height, rgb, alpha is Some),
    ] + match alpha {
        Some(a) => seq![mask_object(width, height, a)],
        None => Seq::empty(),
    }
}

/// The byte sequences one after another.
pub open spec fn concat_all(parts: Seq<Seq<u8>>) -> Seq<u8>
    decreases parts.len(),
{
    if parts.len() == 0 {
        Seq::empty()
    } else {
        concat_all(parts.drop_last()) + parts.last()
    }
}

/// Where each object starts: the header, then the objects before it.
pub open spec fn object_offsets(objects: Seq<Seq<u8>>) -> Seq<nat> {
    Seq::new(
        objects.len(),
        |k: int| (encode_utf8(PDF_HEADER@).len() + concat_all(objects.take(k)).len()) as nat,
    )
}

/// One cross-reference line per offset: ten zero-padded digits, then ` 00000 n `.
pub open spec fn xref_lines(offsets: Seq<nat>) -> Seq<char>
    decreases offsets.len(),
{
    if offsets.len() == 0 {
        Seq::empty()
    } else {
        xref_lines(offsets.drop_last()) + zero_padded(decimal(offsets.last()), 10) + XREF_ENTRY_TAIL@
    }
}

/// The cross-reference table: the free entry 0, then one entry per object.
pub open spec fn xref_table(offsets: Seq<nat>) -> Seq<char> {
    XREF_HEAD@ + decimal(offsets.len() + 1) + XREF_FREE_ENTRY@ + xref_lines(offsets)
}

/// The header and the objects.
pub open spec fn pdf_body(objects: Seq<Seq<u8>>) -> Seq<u8> {
    encode_utf8(PDF_HEADER@) + concat_all(objects)
}

/// The trailer: the table size, the root, and where the table starts.
pub open spec fn pdf_trailer(object_count: nat, xref_start: nat) -> Seq<char> {
    TRAILER_HEAD@ + decimal(object_count + 1) + TRAILER_TAIL@ + decimal(xref_start) + EOF_MARK@
}

/// A whole document over the given objects.
pub open spec fn pdf_file(objects: Seq<Seq<u8>>) -> Seq<u8> {
    pdf_body(objects) + encode_utf8(xref_table(object_offsets(objects))) + encode_utf8(
        pdf_trailer(objects.len(), pdf_body(objects).len()),
    )
}

/// The certificate document for a content stream and a prepared badge.
pub open spec fn pdf_document(content: Seq<u8>, width: nat, height: nat, rgb: Seq<u8>, alpha: Option<Seq<u8>>) -> Seq<u8> {
    pdf_file(pdf_objects(content, width, height, rgb, alpha))
}

/// The view of an optional byte vector.
pub open spec fn opt_bytes(v: Option<Vec<u8>>) -> Option<Seq<u8>> {
    match v {
        Some(b) => Some(b@),
        None => None,
    }
}

/// Appends the UTF-8 bytes of `s` to `buf`.
fn push_text(buf: &mut Vec<u8>, s: &str)
    ensures
        final(buf)@ == old(buf)@ + encode_utf8(s@),
{
    let bytes = s.as_bytes();
    push_bytes(buf, bytes);
}

/// Appends `data` to `buf`.
fn push_bytes(buf: &mut Vec<u8>, data: &[u8])
    ensures
        final(buf)@ == old(buf)@ + data@,
{
    let ghost start = buf@;
    let n = data.len();
    for i in 0..n
        invariant
            n == data@.len(),
            buf@ == start + data@.take(i as int),
    {
        buf.push(data[i]);
        assert(data@.take(i + 1) =~= data@.take(i as int).push(data@[i as int]));
    }
    assert(data@.take(n as int) =~= data@);
}

/// The page content of a certificate.
pub fn certificate_content(cert: &Certificate, score_percent_text: &str) -> (content: String)
    ensures
        content@ == content_of(*cert, score_percent_text@),
{
    let mut c = String::new();
    c.append(CONTENT_OPEN);
    c.append(escape_pdf_text(cert.employee_name.as_str()).as_str());
    c.append(CONTENT_ISSUED);
    c.append(escape_pdf_text(cert.issued_at_utc.as_str()).as_str());
    c.append(CONTENT_CERT_ID);
    c.append(escape_pdf_text(cert.cert_id.as_str()).as_str());
    c.append(CONTENT_SCORE);
    push_decimal(&mut c, cert.score);
    c.append(CONTENT_OUT_OF);
    push_decimal(&mut c, cert.total);
    c.append(CONTENT_PERCENT);
    c.append(score_percent_text);
    c.append(CONTENT_CODE);
    c.append(escape_pdf_text(cert.verification_code.as_str()).as_str());
    c.append(CONTENT_CLOSE);
    assert(c@ =~= content_of(*cert, score_percent_text@));
    c
}

/// The content stream object for `content`.
fn build_content_object(content: &str) -> (obj: Vec<u8>)
    ensures
        obj@ == content_object(encode_utf8(content@)),
{
    let bytes = content.as_bytes();
    let mut head = String::new();
    head.append(CONTENT_OBJ_HEAD);
    push_decimal(&mut head, bytes.len());
    head.append(STREAM_OPEN);
    let mut obj: Vec<u8> = Vec::new();
    push_text(&mut obj, head.as_str());
    push_bytes(&mut obj, bytes);
    push_text(&mut obj, CONTENT_OBJ_TAIL);
    assert(head@ =~= CONTENT_OBJ_HEAD@ + decimal(encode_utf8(content@).len()) + STREAM_OPEN@);
    obj
}

/// An image object: the badge image, or with `mask` its soft mask.
fn build_image_object(width: u32, height: u32, stream: &[u8], mask: bool, masked: bool) -> (obj: Vec<u8>)
    ensures
        mask ==> obj@ == mask_object(width as nat, height as nat, stream@),
        !mask ==> obj@ == image_object(width as nat, height as nat, stream@, masked),
{
    let mut head = String::new();
    if mask {
        head.append(MASK_OBJ_HEAD);
    } else {
        head.append(IMAGE_OBJ_HEAD);
    }
    push_decimal(&mut head, width as usize);
    head.append(IMAGE_HEIGHT);
    push_decimal(&mut head, height as usize);
    if mask {
        head.append(MASK_GRAY);
    } else if masked {
        head.append(IMAGE_RGB_MASKED);
    } else {
        head.append(IMAGE_RGB);
    }
    push_decimal(&mut head, stream.len());
    head.append(STREAM_OPEN);
    let mut obj: Vec<u8> = Vec::new();
    push_text(&mut obj, head.as_str());
    push_bytes(&mut obj, stream);
    push_text(&mut obj, IMAGE_STREAM_CLOSE);
    if mask {
        assert(head@ =~= MASK_OBJ_HEAD@ + decimal(width as nat) + IMAGE_HEIGHT@ + decimal(height as nat)
            + MASK_GRAY@ + decimal(stream@.len()) + STREAM_OPEN@);
    } else {
        assert(head@ =~= IMAGE_OBJ_HEAD@ + decimal(width as nat) + IMAGE_HEIGHT@ + decimal(height as nat)
            + (if masked { IMAGE_RGB_MASKED@ } else { IMAGE_RGB@ }) + decimal(stream@.len()) + STREAM_OPEN@);
    }
    obj
}

/// Lays out a whole document over `objects`: header, objects, cross-reference
/// table with the offset of each object, trailer.
fn layout_objects(objects: &Vec<Vec<u8>>) -> (pdf: Vec<u8>)
    requires
        objects@.len() <= 7,
    ensures
        pdf@ == pdf_file(objects@.map_values(|o: Vec<u8>| o@)),
{
    let ghost objs = objects@.map_values(|o: Vec<u8>| o@);
    let mut pdf: Vec<u8> = Vec::new();
    push_text(&mut pdf, PDF_HEADER);
    let mut offsets: Vec<usize> = Vec::new();
    let n = objects.len();
    assert(objs.take(0) =~= Seq::<Seq<u8>>::empty());
    for k in 0..n
        invariant
            n == objects@.len(),
            objs == objects@.map_values(|o: Vec<u8>| o@),
            pdf@ == encode_utf8(PDF_HEADER@) + concat_all(objs.take(k as int)),
            offsets@.len() == k,
            forall|j: int| 0 <= j < k ==> #[trigger] offsets@[j] == object_offsets(objs)[j],
    {
        offsets.push(pdf.len());
        push_bytes(&mut pdf, objects[k].as_slice());
        assert(objs.take(k + 1).drop_last() =~= objs.take(k as int));
        assert(objs.take(k + 1).last() == objects@[k as int]@);
        assert(pdf@ =~= encode_utf8(PDF_HEADER@) + concat_all(objs.take(k + 1)));
    }
    assert(objs.take(n as int) =~= objs);
    let xref_start = pdf.len();
    let mut table = String::new();
    table.append(XREF_HEAD);
    push_decimal(&mut table, n + 1);
    table.append(XREF_FREE_ENTRY);
    let ghost offs = object_offsets(objs);
    let ghost table_start = table@;
    assert(offs.take(0) =~= Seq::<nat>::empty());
    for k in 0..n
        invariant
            n == offsets@.len(),
            offs.len() == n,
            forall|j: int| 0 <= j < n ==> #[trigger] offsets@[j] == offs[j],
            table@ == table_start + xref_lines(offs.take(k as int)),
    {
        push_zero_padded(&mut table, offsets[k], 10);
        table.append(XREF_ENTRY_TAIL);
        assert(offs.take(k + 1).drop_last() =~= offs.take(k as int));
        assert(offs.take(k + 1).last() == offsets@[k as int]);
        assert(table@ =~= table_start + xref_lines(offs.take(k + 1)));
    }
    assert(offs.take(n as int) =~= offs);
    assert(table@ =~= xref_table(offs));
    push_text(&mut pdf, table.as_str());
    let mut trailer = String::new();
    trailer.append(TRAILER_HEAD);
    push_decimal(&mut trailer, n + 1);
    trailer.append(TRAILER_TAIL);
    push_decimal(&mut trailer, xref_start);
    trailer.append(EOF_MARK);
    assert(trailer@ =~= pdf_trailer(n as nat, xref_start as nat));
    push_text(&mut pdf, trailer.as_str());
    pdf
}

/// Lays out the certificate document for a content stream and a prepared badge.
pub fn pdf_layout(content: &str, badge: &BadgeImage) -> (pdf: Vec<u8>)
    ensures
        pdf@ == pdf_document(
            encode_utf8(content@),
            badge.width as nat,
            badge.height as nat,
            badge.rgb_stream@,
            opt_bytes(badge.alpha_stream),
        ),
{
    let masked = badge.alpha_stream.is_some();
    let mut objects: Vec<Vec<u8>> = Vec::new();
    let mut o1: Vec<u8> = Vec::new();
    push_text(&mut o1, OBJ_CATALOG);
    objects.push(o1);
    let mut o2: Vec<u8> = Vec::new();
    push_text(&mut o2, OBJ_PAGES);
    objects.push(o2);
    let mut o3: Vec<u8> = Vec::new();
    push_text(&mut o3, OBJ_PAGE);
    objects.push(o3);
    let mut o4: Vec<u8> = Vec::new();
    push_text(&mut o4, OBJ_FONT);
    objects.push(o4);
    objects.push(build_content_object(content));
    objects.push(build_image_object(badge.width, badge.height, badge.rgb_stream.as_slice(), false, masked));
    match &badge.alpha_stream {
        Some(alpha) => {
            objects.push(build_image_object(badge.width, badge.height, alpha.as_slice(), true, true));
        },
        None => {},
    }
    let ghost expected = pdf_objects(
        encode_utf8(content@),
        badge.width as nat,
        badge.height as nat,
        badge.rgb_stream@,
        opt_bytes(badge.alpha_stream),
    );
    assert(objects@.map_values(|o: Vec<u8>| o@) =~= expected);
    layout_objects(&objects)
}

/// The certificate document for `cert` with a prepared badge.
pub open spec fn certificate_pdf_bytes(cert: Certificate, score_percent_text: Seq<char>, badge: BadgeImage) -> Seq<u8> {
    pdf_document(
        encode_utf8(content_of(cert, score_percent_text)),
        badge.width as nat,
        badge.height as nat,
        badge.rgb_stream@,
        opt_bytes(badge.alpha_stream),
    )
}

/// Lays out the certificate PDF for `cert` with a prepared badge: the page
/// content, with the percentage as given, and the badge's streams.
pub fn certificate_pdf(cert: &Certificate, score_percent_text: &str, badge: &BadgeImage) -> (pdf: Vec<u8>)
    ensures
        pdf@ == certificate_pdf_bytes(*cert, score_percent_text@, *badge),
{
    let content = certificate_content(cert, score_percent_text);
    pdf_layout(content.as_str(), badge)
}

/// Builds the certificate PDF with the badge decoded as RGB and compressed,
/// without transparency. Whether decoding succeeds is not determined by the
/// bytes alone (see `encode_badge_stream`); a document that comes back is the
/// certificate's with the badge of some RGB image, and only the two decoding
/// errors can come.
pub fn build_certificate_pdf(cert: &Certificate, score_percent_text: &str, badge_png: &[u8]) -> (r: Result<Vec<u8>, BadgeError>)
    ensures
        r matches Ok(pdf) ==> exists|badge: BadgeImage, w: u32, h: u32, px: Seq<u8>|
            #[trigger] rgb_badge(badge, w, h, px) && px.len() >= 3 * (w as int) * (h as int)
                && pdf@ == certificate_pdf_bytes(
                *cert,
                score_percent_text@,
                badge,
            ),
        r matches Err(e) ==> e is Format || e is Decode,
{
    let badge = match encode_badge_stream(badge_png) {
        Ok(badge) => badge,
        Err(err) => return Err(err),
    };
    Ok(certificate_pdf(cert, score_percent_text, &badge))
}

/// Builds the certificate PDF with a transparent badge: the badge decoded as
/// RGBA, its colour and alpha compressed apart, the alpha as a soft mask. As
/// for `build_certificate_pdf`, a document that comes back is the
/// certificate's with the badge of some RGBA image, and only the two decoding
/// errors can come.
pub fn build_certificate_pdf_with_mask(cert: &Certificate, score_percent_text: &str, badge_png: &[u8]) -> (r: Result<Vec<u8>, BadgeError>)
    ensures
        r matches Ok(pdf) ==> exists|badge: BadgeImage, w: u32, h: u32, px: Seq<u8>|
            #[trigger] rgba_badge(badge, w, h, px) && px.len() >= 4 * (w as int) * (h as int)
                && pdf@ == certificate_pdf_bytes(
                *cert,
                score_percent_text@,
                badge,
            ),
        r matches Err(e) ==> e is Format || e is Decode,
{
    let badge = match encode_badge_streams(badge_png) {
        Ok(badge) => badge,
        Err(err) => return Err(err),
    };
    Ok(certificate_pdf(cert, score_percent_text, &badge))
}

proof fn lemma_concat_split(parts: Seq<Seq<u8>>, m: int)
    requires
        0 <= m <= parts.len(),
    ensures
        concat_all(parts) == concat_all(parts.take(m)) + concat_all(parts.skip(m)),
    decreases parts.len(),
{
    if m == parts.len() {
        assert(parts.take(m) =~= parts);
        assert(parts.skip(m) =~= Seq::<Seq<u8>>::empty());
        assert(concat_all(parts.take(m)) + concat_all(parts.skip(m)) =~= concat_all(parts));
    } else {
        let p = parts.drop_last();
        lemma_concat_split(p, m);
        assert(p.take(m) =~= parts.take(m));
        assert(parts.skip(m).drop_last() =~= p.skip(m));
        assert(parts.skip(m).last() == parts.last());
        assert(concat_all(parts) =~= concat_all(parts.take(m)) + concat_all(parts.skip(m)));
    }
}

/// Each cross-reference entry is where its object starts: the bytes of the
/// document from the offset of object `k` on are that object.
pub proof fn lemma_xref_offsets_locate_objects(objects: Seq<Seq<u8>>, k: int)
    requires
        0 <= k < objects.len(),
    ensures
        pdf_file(objects).subrange(
            object_offsets(objects)[k] as int,
            object_offsets(objects)[k] + objects[k].len() as int,
        ) == objects[k],
{
    let h = encode_utf8(PDF_HEADER@);
    lemma_concat_split(objects, k);
    let rest = objects.skip(k);
    assert(rest.take(1) =~= seq![objects[k]]);
    lemma_concat_split(rest, 1);
    assert(concat_all(seq![objects[k]]) =~= objects[k]) by {
        let one = seq![objects[k]];
        assert(one.drop_last() =~= Seq::<Seq<u8>>::empty());
        assert(concat_all(one.drop_last()) == Seq::<u8>::empty());
        assert(one.last() == objects[k]);
        assert(concat_all(one) == concat_all(one.drop_last()) + one.last());
    }
    let before = concat_all(objects.take(k));
    let f = pdf_file(objects);
    assert(f =~= h + before + objects[k] + concat_all(rest.skip(1)) + encode_utf8(
        xref_table(object_offsets(objects)),
    ) + encode_utf8(pdf_trailer(objects.len(), pdf_body(objects).len())));
    assert(f.subrange(h.len() + before.len() as int, h.len() + before.len() + objects[k].len() as int) =~= objects[k]);
}

/// The `startxref` number is where the cross-reference table starts: the bytes
/// of the document from there on are the table, which opens with `xref`.
pub proof fn lemma_startxref_locates_table(objects: Seq<Seq<u8>>)
    ensures
        pdf_file(objects).subrange(
            pdf_body(objects).len() as int,
            pdf_body(objects).len() + encode_utf8(xref_table(object_offsets(objects))).len() as int,
        ) == encode_utf8(xref_table(object_offsets(objects))),
        xref_table(object_offsets(objects)).take(4) == seq!['x', 'r', 'e', 'f'],
{
    let b = pdf_body(objects);
    let t = encode_utf8(xref_table(object_offsets(objects)));
    let f = pdf_file(objects);
    assert(f.subrange(b.len() as int, b.len() + t.len() as int) =~= t);
    reveal_strlit("xref\n0 ");
    assert(xref_table(object_offsets(objects)).take(4) =~= seq!['x', 'r', 'e', 'f']);
}

/// The line that opens object `n`: its number, generation 0 and `obj`.
pub open spec fn object_header(n: nat) -> Seq<char> {
    decimal(n) + " 0 obj\n"@
}

proof fn lemma_starts_with_header(text: Seq<char>, n: nat, rest: Seq<u8>)
    requires
        text.len() >= object_header(n).len(),
        text.take(object_header(n).len() as int) == object_header(n),
    ensures
        (encode_utf8(text) + rest).take(encode_utf8(object_header(n)).len() as int) == encode_utf8(
            object_header(n),
        ),
{
    let h = object_header(n);
    let tail = text.skip(h.len() as int);
    assert(text =~= h + tail);
    crate::text::lemma_encode_utf8_append(h, tail);
    assert((encode_utf8(text) + rest).take(encode_utf8(h).len() as int) =~= encode_utf8(h));
}

/// Every object of the certificate document opens with its own number: the
/// object at position `k` starts with `k + 1 0 obj`.
pub proof fn lemma_objects_are_numbered(content: Seq<u8>, width: nat, height: nat, rgb: Seq<u8>, alpha: Option<Seq<u8>>, k: int)
    requires
        0 <= k < pdf_objects(content, width, height, rgb, alpha).len(),
    ensures
        pdf_objects(content, width, height, rgb, alpha)[k].take(
            encode_utf8(object_header((k + 1) as nat)).len() as int,
        ) == encode_utf8(object_header((k + 1) as nat)),
{
    reveal_strlit(" 0 obj\n");
    reveal_strlit("1 0 obj\n<< /Type /Catalog /Pages 2 0 R >>\nendobj\n");
    reveal_strlit("2 0 obj\n<< /Type /Pages /Kids [3 0 R] /Count 1 >>\nendobj\n");
    reveal_strlit("3 0 obj\n<< /Type /Page /Parent 2 0 R /MediaBox [0 0 792 612] /Resources << /Font << /F1 4 0 R >> /XObject << /Im1 6 0 R >> >> /Contents 5 0 R >>\nendobj\n");
    reveal_strlit("4 0 obj\n<< /Type /Font /Subtype /Type1 /BaseFont /Helvetica >>\nendobj\n");
    reveal_strlit("5 0 obj\n<< /Length ");
    reveal_strlit("6 0 obj\n<< /Type /XObject /Subtype /Image /Width ");
    reveal_strlit("7 0 obj\n<< /Type /XObject /Subtype /Image /Width ");
    let objs = pdf_objects(content, width, height, rgb, alpha);
    let n = (k + 1) as nat;
    let h = object_header(n);
    assert(decimal(n) =~= seq![digit_char(n)]) by {
        assert(n < 10);
    }
    assert(h.len() == 8);
    if k == 0 {
        assert(OBJ_CATALOG@.take(8) =~= h);
        lemma_starts_with_header(OBJ_CATALOG@, n, Seq::empty());
        assert(encode_utf8(OBJ_CATALOG@) + Seq::<u8>::empty() =~= objs[k]);
    } else if k == 1 {
        assert(OBJ_PAGES@.take(8) =~= h);
        lemma_starts_with_header(OBJ_PAGES@, n, Seq::empty());
        assert(encode_utf8(OBJ_PAGES@) + Seq::<u8>::empty() =~= objs[k]);
    } else if k == 2 {
        assert(OBJ_PAGE@.take(8) =~= h);
        lemma_starts_with_header(OBJ_PAGE@, n, Seq::empty());
        assert(encode_utf8(OBJ_PAGE@) + Seq::<u8>::empty() =~= objs[k]);
    } else if k == 3 {
        assert(OBJ_FONT@.take(8) =~= h);
        lemma_starts_with_header(OBJ_FONT@, n, Seq::empty());
        assert(encode_utf8(OBJ_FONT@) + Seq::<u8>::empty() =~= objs[k]);
    } else if k == 4 {
        let t = CONTENT_OBJ_HEAD@ + decimal(content.len()) + STREAM_OPEN@;
        assert(t.take(8) =~= h);
        lemma_starts_with_header(t, n, content + encode_utf8(CONTENT_OBJ_TAIL@));
        assert(encode_utf8(t) + (content + encode_utf8(CONTENT_OBJ_TAIL@)) =~= objs[k]);
    } else if k == 5 {
        let t = IMAGE_OBJ_HEAD@ + decimal(width) + IMAGE_HEIGHT@ + decimal(height) + (if alpha is Some {
            IMAGE_RGB_MASKED@
        } else {
            IMAGE_RGB@
        }) + decimal(rgb.len()) + STREAM_OPEN@;
        assert(t.take(8) =~= h);
        lemma_starts_with_header(t, n, rgb + encode_utf8(IMAGE_STREAM_CLOSE@));
        assert(encode_utf8(t) + (rgb + encode_utf8(IMAGE_STREAM_CLOSE@)) =~= objs[k]);
    } else {
        let a = alpha.unwrap();
        let t = MASK_OBJ_HEAD@ + decimal(width) + IMAGE_HEIGHT@ + decimal(height) + MASK_GRAY@ + decimal(
            a.len(),
        ) + STREAM_OPEN@;
        assert(t.take(8) =~= h);
        lemma_starts_with_header(t, n, a + encode_utf8(IMAGE_STREAM_CLOSE@));
        assert(encode_utf8(t) + (a + encode_utf8(IMAGE_STREAM_CLOSE@)) =~= objs[k]);
    }
}

/// Every field appears whole in the page content: between the fixed pieces of
/// the drawing stand texts that read back (unescaped) as exactly the
/// employee's name, the issue time, the certificate id and the verification
/// code, and the score and total in decimal, whatever their lengths.
pub proof fn lemma_content_shows_every_field(cert: Certificate, score_percent_text: Seq<char>)
    ensures
        exists|name: Seq<char>, issued: Seq<char>, id: Seq<char>, code: Seq<char>|
            #![trigger pdf_unescaped(name), pdf_unescaped(issued), pdf_unescaped(id), pdf_unescaped(code)]
            {
                &&& content_of(cert, score_percent_text) == CONTENT_OPEN@ + name + CONTENT_ISSUED@ + issued
                    + CONTENT_CERT_ID@ + id + CONTENT_SCORE@ + decimal(cert.score as nat) + CONTENT_OUT_OF@
                    + decimal(cert.total as nat) + CONTENT_PERCENT@ + score_percent_text + CONTENT_CODE@
                    + code + CONTENT_CLOSE@
                &&& pdf_unescaped(name) == cert.employee_name@
                &&& pdf_unescaped(issued) == cert.issued_at_utc@
                &&& pdf_unescaped(id) == cert.cert_id@
                &&& pdf_unescaped(code) == cert.verification_code@
            },
{
    let name = pdf_escaped(cert.employee_name@);
    let issued = pdf_escaped(cert.issued_at_utc@);
    let id = pdf_escaped(cert.cert_id@);
    let code = pdf_escaped(cert.verification_code@);
    lemma_unescape_escaped(cert.employee_name@);
    lemma_unescape_escaped(cert.issued_at_utc@);
    lemma_unescape_escaped(cert.cert_id@);
    lemma_unescape_escaped(cert.verification_code@);
    assert(content_of(cert, score_percent_text) == CONTENT_OPEN@ + name + CONTENT_ISSUED@ + issued
        + CONTENT_CERT_ID@ + id + CONTENT_SCORE@ + decimal(cert.score as nat) + CONTENT_OUT_OF@
        + decimal(cert.total as nat) + CONTENT_PERCENT@ + score_percent_text + CONTENT_CODE@ + code
        + CONTENT_CLOSE@);
}

} // verus!
