//! Completion certificates: the record issued for a passing attempt, its
//! digest and verification code, and the escaping of text placed in the PDF.

use sha2::Digest;
use vstd::slice::slice_subrange;
use vstd::utf8::encode_utf8;
use vstd::prelude::*;
use crate::text::{
    ascii_uppercase, decimal, hex_lower, hex_upper, is_lower_hex_digit, is_upper_hex_digit,
    lemma_hex_digits, lemma_hex_lower_prefix, lemma_uppercase_hex, push_char, push_decimal, push_hex,
};

verus! {

/// The SHA-256 digest of `data`.
pub uninterp spec fn sha256_of(data: Seq<u8>) -> Seq<u8>;

/// SHA-256 of `data`, 32 bytes.
///
/// Trusted: `sha2::Sha256::digest` (through the `Digest` trait of the `digest`
/// crate), which hashes the bytes it is given in one pass; the output of
/// SHA-256 is 32 bytes. The digest itself is given the name `sha256_of`.
#[verifier::external_body]
fn sha256(data: &[u8]) -> (digest: Vec<u8>)
    ensures
        digest@ == sha256_of(data@),
        digest@.len() == 32,
{
    sha2::Sha256::digest(data).to_vec()
}

#[verifier::external_type_specification]
#[verifier::external_body]
pub struct ExSystemTime(std::time::SystemTime);

/// The current reading of the system clock.
///
/// Trusted: `std::time::SystemTime::now`. The reading depends on the clock,
/// so nothing is stated of it.
#[verifier::external_body]
fn system_time_now() -> std::time::SystemTime {
    std::time::SystemTime::now()
}

/// The time from the Unix epoch to `time`, or `None` when `time` lies before
/// the epoch.
///
/// Trusted: `SystemTime::duration_since` with `std::time::UNIX_EPOCH`, whose
/// error (the time lies earlier) becomes `None`. Nothing is stated of the
/// duration: a `SystemTime` has no view.
#[verifier::external_body]
fn since_unix_epoch(time: &std::time::SystemTime) -> Option<core::time::Duration> {
    match time.duration_since(std::time::UNIX_EPOCH) {
        Ok(elapsed) => Some(elapsed),
        Err(_) => None,
    }
}

/// The whole seconds of a duration.
///
/// Trusted: `Duration::as_secs`. A `Duration` has no view, so nothing is
/// stated of the number.
#[verifier::external_body]
fn whole_seconds(duration: &core::time::Duration) -> u64 {
    duration.as_secs()
}

/// The nanoseconds of a duration past its whole seconds.
///
/// Trusted: `Duration::subsec_nanos`, which its documentation says is always
/// below one billion.
#[verifier::external_body]
fn subsecond_nanos(duration: &core::time::Duration) -> (nanos: u32)
    ensures
        nanos < 1_000_000_000,
{
    duration.subsec_nanos()
}

/// The RFC 3339 text of the UTC time `secs` seconds and `nanos` nanoseconds
/// after the Unix epoch, or `None` where that time has no such text.
pub uninterp spec fn rfc3339_text(secs: i64, nanos: u32) -> Option<Seq<char>>;

/// The RFC 3339 text of a UTC time given as a Unix timestamp.
///
/// Trusted: `chrono::DateTime::from_timestamp`, which gives `None` for an
/// out-of-range time or nanosecond, then `DateTime::<Utc>::to_rfc3339`, whose
/// writing into a `String` cannot fail. The text is given the name
/// `rfc3339_text`; neither call depends on anything but the timestamp.
#[verifier::external_body]
fn rfc3339_of_timestamp(secs: i64, nanos: u32) -> (r: Option<String>)
    ensures
        match r {
            Some(text) => rfc3339_text(secs, nanos) == Some(text@),
            None => rfc3339_text(secs, nanos) is None,
        },
{
    match chrono::DateTime::from_timestamp(secs, nanos) {
        Some(time) => Some(time.to_rfc3339()),
        None => None,
    }
}

/// The RFC 3339 text of the UTC time `secs` seconds and `nanos` nanoseconds
/// after the Unix epoch: `None` when the seconds exceed what a signed 64-bit
/// timestamp holds, and otherwise what the timestamp's text is.
pub fn rfc3339_at(secs: u64, nanos: u32) -> (r: Option<String>)
    ensures
        secs <= i64::MAX ==> match r {
            Some(text) => rfc3339_text(secs as i64, nanos) == Some(text@),
            None => rfc3339_text(secs as i64, nanos) is None,
        },
        secs > i64::MAX ==> r is None,
{
    if secs <= i64::MAX as u64 {
        rfc3339_of_timestamp(secs as i64, nanos)
    } else {
        None
    }
}

/// The current time in UTC as RFC 3339 text, or `None` when the clock reads
/// before the Unix epoch or past what a timestamp holds. The clock's reading,
/// in whole seconds and nanoseconds since the epoch, goes to `rfc3339_at`;
/// whatever it reads, a text that comes back is the RFC 3339 text of some
/// timestamp.
pub fn utc_now_rfc3339() -> (r: Option<String>)
    ensures
        r matches Some(text) ==> exists|secs: i64, nanos: u32| #[trigger] rfc3339_text(secs, nanos) == Some(text@),
{
    let now = system_time_now();
    match since_unix_epoch(&now) {
        Some(elapsed) => {
            let secs = whole_seconds(&elapsed);
            let nanos = subsecond_nanos(&elapsed);
            let r = rfc3339_at(secs, nanos);
            assert(r matches Some(text) ==> rfc3339_text(secs as i64, nanos) == Some(text@));
            r
        },
        None => None,
    }
}

/// The record of a passing attempt. Its percentage is not kept here: it is a
/// floating-point view of `score` and `total` that the serving layer adds.
#[derive(Debug)]
pub struct Certificate {
    pub cert_id: String,
    pub employee_name: String,
    pub issued_at_utc: String,
    pub score: usize,
    pub total: usize,
    pub digest: String,
    pub verification_code: String,
}

/// `cert_id:employee_name:score:total`, with the numbers in decimal.
pub open spec fn certificate_message(cert_id: Seq<char>, employee_name: Seq<char>, score: nat, total: nat) -> Seq<char> {
    cert_id + seq![':'] + employee_name + seq![':'] + decimal(score) + seq![':'] + decimal(total)
}

/// The digest recorded on a certificate: SHA-256 of the UTF-8 bytes of the
/// certificate message, in lower-case hexadecimal (64 digits).
pub open spec fn certificate_digest(cert_id: Seq<char>, employee_name: Seq<char>, score: nat, total: nat) -> Seq<char> {
    hex_lower(sha256_of(encode_utf8(certificate_message(cert_id, employee_name, score, total))))
}

/// `verify:` followed by the certificate message.
pub open spec fn verification_message(cert_id: Seq<char>, employee_name: Seq<char>, score: nat, total: nat) -> Seq<char> {
    seq!['v', 'e', 'r', 'i', 'f', 'y', ':'] + certificate_message(cert_id, employee_name, score, total)
}

/// The verification code: SHA-256 of the UTF-8 bytes of the verification
/// message; its first six bytes in upper-case hexadecimal (twelve digits).
pub open spec fn verification_code_of(cert_id: Seq<char>, employee_name: Seq<char>, score: nat, total: nat) -> Seq<char> {
    hex_upper(sha256_of(encode_utf8(verification_message(cert_id, employee_name, score, total))).take(6))
}

/// Appends the certificate message to `s`.
fn push_certificate_message(s: &mut String, cert_id: &str, employee_name: &str, score: usize, total: usize)
    ensures
        final(s)@ == old(s)@ + certificate_message(cert_id@, employee_name@, score as nat, total as nat),
{
    s.append(cert_id);
    push_char(s, ':');
    s.append(employee_name);
    push_char(s, ':');
    push_decimal(s, score);
    push_char(s, ':');
    push_decimal(s, total);
    assert(s@ =~= old(s)@ + certificate_message(cert_id@, employee_name@, score as nat, total as nat));
}

/// The lower-case hexadecimal SHA-256 digest recorded on a certificate.
pub fn certificate_digest_hex(cert_id: &str, employee_name: &str, score: usize, total: usize) -> (digest: String)
    ensures
        digest@ == certificate_digest(cert_id@, employee_name@, score as nat, total as nat),
        digest@.len() == 64,
        forall|i: int| 0 <= i < 64 ==> is_lower_hex_digit(#[trigger] digest@[i]),
{
    let mut message = String::new();
    push_certificate_message(&mut message, cert_id, employee_name, score, total);
    assert(message@ =~= certificate_message(cert_id@, employee_name@, score as nat, total as nat));
    let hash = sha256(message.as_str().as_bytes());
    let mut digest = String::new();
    push_hex(&mut digest, hash.as_slice(), false);
    proof {
        lemma_hex_lower_prefix(hash@, 0);
        lemma_hex_digits(hash@);
    }
    assert(digest@ =~= certificate_digest(cert_id@, employee_name@, score as nat, total as nat));
    digest
}

/// The verification code of a certificate: the first twelve hexadecimal digits,
/// in upper case, of SHA-256 over `verify:cert_id:employee_name:score:total`.
/// The same inputs always give the same code.
pub fn verification_code(cert_id: &str, employee_name: &str, score: usize, total: usize) -> (code: String)
    ensures
        code@ == verification_code_of(cert_id@, employee_name@, score as nat, total as nat),
        code@ == ascii_uppercase(
            hex_lower(sha256_of(encode_utf8(verification_message(cert_id@, employee_name@, score as nat, total as nat)))).take(12),
        ),
        code@.len() == 12,
        forall|i: int| 0 <= i < 12 ==> is_upper_hex_digit(#[trigger] code@[i]),
{
    let mut message = String::new();
    message.append("verify:");
    proof {
        reveal_strlit("verify:");
    }
    push_certificate_message(&mut message, cert_id, employee_name, score, total);
    assert(message@ =~= seq!['v', 'e', 'r', 'i', 'f', 'y', ':'] + certificate_message(
        cert_id@,
        employee_name@,
        score as nat,
        total as nat,
    ));
    let hash = sha256(message.as_str().as_bytes());
    let mut code = String::new();
    let head = slice_subrange(hash.as_slice(), 0, 6);
    push_hex(&mut code, head, true);
    assert(head@ =~= hash@.take(6));
    proof {
        lemma_hex_digits(head@);
        lemma_hex_lower_prefix(hash@, 6);
        lemma_uppercase_hex(hash@.take(6));
    }
    assert(code@ =~= verification_code_of(cert_id@, employee_name@, score as nat, total as nat));
    code
}

/// The verification code covers the whole record: it is the first twelve
/// hexadecimal digits, in upper case, of SHA-256 over the UTF-8 bytes of
/// `verify:`, the whole certificate id, `:`, the whole name, `:`, the score in
/// decimal, `:` and the total in decimal; and the digest is SHA-256 over the
/// same text without `verify:`, in lower-case hexadecimal.
pub proof fn lemma_codes_cover_whole_record(cert_id: Seq<char>, employee_name: Seq<char>, score: nat, total: nat)
    ensures
        verification_code_of(cert_id, employee_name, score, total) == hex_upper(
            sha256_of(
                encode_utf8(
                    seq!['v', 'e', 'r', 'i', 'f', 'y', ':'] + cert_id + seq![':'] + employee_name + seq![':']
                        + decimal(score) + seq![':'] + decimal(total),
                ),
            ).take(6),
        ),
        certificate_digest(cert_id, employee_name, score, total) == hex_lower(
            sha256_of(
                encode_utf8(
                    cert_id + seq![':'] + employee_name + seq![':'] + decimal(score) + seq![':'] + decimal(
                        total,
                    ),
                ),
            ),
        ),
{
    assert(verification_message(cert_id, employee_name, score, total) =~= seq![
        'v',
        'e',
        'r',
        'i',
        'f',
        'y',
        ':',
    ] + cert_id + seq![':'] + employee_name + seq![':'] + decimal(score) + seq![':'] + decimal(total));
    assert(certificate_message(cert_id, employee_name, score, total) =~= cert_id + seq![':'] + employee_name
        + seq![':'] + decimal(score) + seq![':'] + decimal(total));
}

/// The hashed text tells certificate ids apart: for the same name, score and
/// total, two ids whose verification texts (or digest texts) agree are the
/// same id.
pub proof fn lemma_messages_determine_id(a: Seq<char>, b: Seq<char>, employee_name: Seq<char>, score: nat, total: nat)
    ensures
        verification_message(a, employee_name, score, total) == verification_message(b, employee_name, score, total)
            ==> a == b,
        certificate_message(a, employee_name, score, total) == certificate_message(b, employee_name, score, total)
            ==> a == b,
{
    let tail = seq![':'] + employee_name + seq![':'] + decimal(score) + seq![':'] + decimal(total);
    assert(certificate_message(a, employee_name, score, total) =~= a + tail);
    assert(certificate_message(b, employee_name, score, total) =~= b + tail);
    if certificate_message(a, employee_name, score, total) == certificate_message(b, employee_name, score, total) {
        assert(a.len() == b.len());
        assert(a =~= (a + tail).take(a.len() as int));
        assert(b =~= (b + tail).take(b.len() as int));
    }
    if verification_message(a, employee_name, score, total) == verification_message(b, employee_name, score, total) {
        let v = seq!['v', 'e', 'r', 'i', 'f', 'y', ':'];
        assert(verification_message(a, employee_name, score, total) =~= v + (a + tail));
        assert(verification_message(b, employee_name, score, total) =~= v + (b + tail));
        assert((v + (a + tail)).skip(7) =~= a + tail);
        assert((v + (b + tail)).skip(7) =~= b + tail);
        assert(a.len() == b.len());
        assert(a =~= (a + tail).take(a.len() as int));
        assert(b =~= (b + tail).take(b.len() as int));
    }
}

/// The certificate for an attempt, issued at `issued_at_utc`.
pub fn certificate_at(cert_id: &str, employee_name: &str, score: usize, total: usize, issued_at_utc: String) -> (cert: Certificate)
    ensures
        cert.cert_id@ == cert_id@,
        cert.employee_name@ == employee_name@,
        cert.issued_at_utc == issued_at_utc,
        cert.score == score,
        cert.total == total,
        cert.digest@ == certificate_digest(cert_id@, employee_name@, score as nat, total as nat),
        cert.digest@.len() == 64,
        cert.verification_code@ == verification_code_of(cert_id@, employee_name@, score as nat, total as nat),
        cert.verification_code@.len() == 12,
{
    Certificate {
        cert_id: cert_id.to_owned(),
        employee_name: employee_name.to_owned(),
        issued_at_utc,
        score,
        total,
        digest: certificate_digest_hex(cert_id, employee_name, score, total),
        verification_code: verification_code(cert_id, employee_name, score, total),
    }
}

/// The certificate for an attempt, issued now; `None` when the clock cannot
/// be read as a UTC time. Every field but the issue time is determined by the
/// arguments.
pub fn build_certificate(cert_id: &str, employee_name: &str, score: usize, total: usize) -> (r: Option<Certificate>)
    ensures
        r matches Some(cert) ==> {
            &&& cert.cert_id@ == cert_id@
            &&& cert.employee_name@ == employee_name@
            &&& cert.score == score
            &&& cert.total == total
            &&& cert.digest@ == certificate_digest(cert_id@, employee_name@, score as nat, total as nat)
            &&& cert.digest@.len() == 64
            &&& cert.verification_code@ == verification_code_of(cert_id@, employee_name@, score as nat, total as nat)
            &&& cert.verification_code@.len() == 12
            &&& exists|secs: i64, nanos: u32| #[trigger] rfc3339_text(secs, nanos) == Some(cert.issued_at_utc@)
        },
{
    match utc_now_rfc3339() {
        Some(issued_at) => Some(certificate_at(cert_id, employee_name, score, total, issued_at)),
        None => None,
    }
}

/// What a character becomes in a PDF literal string: a backslash and the two
/// parentheses are preceded by a backslash, every other character stays.
pub open spec fn pdf_escape_char(c: char) -> Seq<char> {
    if c == '\\' || c == '(' || c == ')' {
        seq!['\\', c]
    } else {
        seq![c]
    }
}

/// `s` with each character escaped for a PDF literal string.
pub open spec fn pdf_escaped(s: Seq<char>) -> Seq<char>
    decreases s.len(),
{
    if s.len() == 0 {
        Seq::empty()
    } else {
        pdf_escape_char(s[0]) + pdf_escaped(s.drop_first())
    }
}

/// Reads a PDF literal string back: a backslash stands for the character after it.
pub open spec fn pdf_unescaped(s: Seq<char>) -> Seq<char>
    decreases s.len(),
{
    if s.len() == 0 {
        Seq::empty()
    } else if s[0] == '\\' && s.len() >= 2 {
        seq![s[1]] + pdf_unescaped(s.subrange(2, s.len() as int))
    } else {
        seq![s[0]] + pdf_unescaped(s.drop_first())
    }
}

proof fn lemma_pdf_escaped_push(s: Seq<char>, c: char)
    ensures
        pdf_escaped(s.push(c)) == pdf_escaped(s) + pdf_escape_char(c),
    decreases s.len(),
{
    if s.len() == 0 {
        assert(s.push(c).drop_first() =~= Seq::<char>::empty());
        assert(s.push(c)[0] == c);
        assert(pdf_escaped(Seq::<char>::empty()) == Seq::<char>::empty());
        assert(pdf_escaped(s.push(c)) == pdf_escape_char(c) + pdf_escaped(s.push(c).drop_first()));
        assert(pdf_escaped(s.push(c)) =~= pdf_escape_char(c));
        assert(pdf_escaped(s) =~= Seq::<char>::empty());
    } else {
        assert(s.push(c).drop_first() =~= s.drop_first().push(c));
        lemma_pdf_escaped_push(s.drop_first(), c);
        assert(pdf_escaped(s.push(c)) =~= pdf_escaped(s) + pdf_escape_char(c));
    }
}

/// Escapes text for a PDF literal string: backslashes are doubled and each
/// parenthesis is preceded by a backslash.
pub fn escape_pdf_text(input: &str) -> (escaped: String)
    ensures
        escaped@ == pdf_escaped(input@),
{
    let mut escaped = String::new();
    let ghost s = input@;
    for c in it: input.chars()
        invariant
            it.seq() == s,
            s == input@,
            escaped@ == pdf_escaped(s.take(it.index() as int)),
    {
        let ghost k = it.index();
        proof {
            assert(s.take(k + 1) =~= s.take(k as int).push(c));
            lemma_pdf_escaped_push(s.take(k as int), c);
        }
        if c == '\\' || c == '(' || c == ')' {
            push_char(&mut escaped, '\\');
        }
        push_char(&mut escaped, c);
        assert(escaped@ =~= pdf_escaped(s.take(k + 1)));
    }
    assert(s.take(s.len() as int) =~= s);
    escaped
}

/// Reading escaped text back gives the original text: escaping loses nothing.
pub proof fn lemma_unescape_escaped(s: Seq<char>)
    ensures
        pdf_unescaped(pdf_escaped(s)) == s,
    decreases s.len(),
{
    if s.len() > 0 {
        lemma_unescape_escaped(s.drop_first());
        let e = pdf_escaped(s);
        let c = s[0];
        let rest = pdf_escaped(s.drop_first());
        if c == '\\' || c == '(' || c == ')' {
            assert(e.subrange(2, e.len() as int) =~= rest);
        } else {
            assert(e.drop_first() =~= rest);
        }
        assert(pdf_unescaped(e) =~= s);
    }
}

/// Whether `c` is one of the characters that escaping precedes with a backslash.
pub open spec fn needs_pdf_escape(c: char) -> bool {
    c == '\\' || c == '(' || c == ')'
}

/// How many characters of `s` escaping precedes with a backslash.
pub open spec fn pdf_escape_count(s: Seq<char>) -> nat
    decreases s.len(),
{
    if s.len() == 0 {
        0
    } else {
        pdf_escape_count(s.drop_last()) + if needs_pdf_escape(s.last()) {
            1nat
        } else {
            0nat
        }
    }
}

/// The number of backslashes that stand right before position `i` of `s`.
pub open spec fn backslashes_before(s: Seq<char>, i: int) -> nat
    decreases i,
{
    if i <= 0 {
        0
    } else if s[i - 1] == '\\' {
        1 + backslashes_before(s, i - 1)
    } else {
        0
    }
}

proof fn lemma_backslashes_before_prefix(a: Seq<char>, b: Seq<char>, i: int)
    requires
        0 <= i <= a.len(),
    ensures
        backslashes_before(a + b, i) == backslashes_before(a, i),
    decreases i,
{
    if i > 0 {
        lemma_backslashes_before_prefix(a, b, i - 1);
        assert((a + b)[i - 1] == a[i - 1]);
    }
}

/// Escaping adds one backslash per backslash or parenthesis of the text.
pub proof fn lemma_escaped_length(s: Seq<char>)
    ensures
        pdf_escaped(s).len() == s.len() + pdf_escape_count(s),
    decreases s.len(),
{
    if s.len() > 0 {
        let p = s.drop_last();
        lemma_escaped_length(p);
        assert(p.push(s.last()) =~= s);
        lemma_pdf_escaped_push(p, s.last());
    }
}

/// In escaped text every parenthesis follows an odd run of backslashes, so a
/// reader sees none of them as a string delimiter; and the text ends in an
/// even run of backslashes.
pub proof fn lemma_escaped_parentheses(s: Seq<char>)
    ensures
        forall|i: int|
            0 <= i < pdf_escaped(s).len() && (pdf_escaped(s)[i] == '(' || pdf_escaped(s)[i] == ')')
                ==> #[trigger] backslashes_before(pdf_escaped(s), i) % 2 == 1,
        backslashes_before(pdf_escaped(s), pdf_escaped(s).len() as int) % 2 == 0,
    decreases s.len(),
{
    if s.len() == 0 {
        return;
    }
    let p = s.drop_last();
    let c = s.last();
    lemma_escaped_parentheses(p);
    assert(p.push(c) =~= s);
    lemma_pdf_escaped_push(p, c);
    let e = pdf_escaped(p);
    let u = pdf_escape_char(c);
    let r = pdf_escaped(s);
    assert(r == e + u);
    let n = e.len() as int;
    assert forall|i: int|
        0 <= i < r.len() && (r[i] == '(' || r[i] == ')') implies #[trigger] backslashes_before(r, i) % 2
        == 1 by {
        if i < n {
            lemma_backslashes_before_prefix(e, u, i);
            assert(r[i] == e[i]);
        } else {
            lemma_backslashes_before_prefix(e, u, n);
            assert(needs_pdf_escape(c));
            assert(i == n + 1);
            assert(r[n] == '\\');
            assert(backslashes_before(r, n + 1) == 1 + backslashes_before(r, n));
        }
    }
    lemma_backslashes_before_prefix(e, u, n);
    if c == '\\' {
        assert(r[n] == '\\' && r[n + 1] == '\\');
        assert(r.len() == n + 2);
        assert(backslashes_before(r, n + 1) == 1 + backslashes_before(r, n));
        assert(backslashes_before(r, n + 2) == 1 + backslashes_before(r, n + 1));
    } else {
        assert(r[r.len() - 1] == c);
    }
}

} // verus!
