# Annual training portal, verified core

A local web portal that shows annual training modules, gives a quiz, scores
it against an 80% threshold and issues a PDF completion certificate for a
passing attempt. The logic is written in Verus and proved against its
contracts; the server around it is ordinary Rust.

- `src/quiz.rs`: questions, reading answers from form fields, choosing
  questions by id, scoring and the passing rule.
- `src/strmap.rs`: a string-keyed map with distinct keys, viewed as a `Map`.
- `src/text.rs`: decimal and hexadecimal formatting, decimal parsing, splitting.
- `src/certificate.rs`: certificate records, their SHA-256 digest and
  verification code, PDF text escaping.
- `src/badge.rs`: decoding and compressing the badge image.
- `src/pdf.rs`: the certificate's page content and the PDF byte layout, with
  proofs that the cross-reference table locates every object.
- `src/pages.rs`: the landing page, the quiz form and the result page.
- `src/submission.rs`: scoring a submitted form and issuing certificates.
- `app/main.rs`: the axum server, file storage and the browser launch.
- `tests/`: scenarios, and comparisons of pages and PDFs with their templates.

Run the portal from `app/` with the library as a dependency; it listens on
`127.0.0.1:3000` and stores certificates under `./certificates/`, reading the
badge from `resources/badge.png`.
