use annual_training::pages::{
    render_home, render_quiz_page, render_result_page, seed_videos, ExamAttempt, ResultLookup, Video,
};
use annual_training::quiz::{parse_answers, seed_questions, select_questions_by_id, Question};
use annual_training::strmap::StrMap;
use annual_training::submission::{
    attempt_record, certificate_for, issue_certificate_at, certificate_file_name, result_location, score_submission,
    Issuance, QuizForm, SubmissionOutcome,
};
use annual_training::certificate::verification_code;
use annual_training::quiz::QuizEvaluation;

fn oracle_home(videos: &[Video]) -> String {
    let videos_html = videos
        .iter()
        .map(|v| {
            format!(
                r"<section class='card'>
<h3>{}</h3>
<p>{}</p>
<iframe width='560' height='315' src='{}' title='{}' allowfullscreen></iframe>
</section>",
                v.title, v.description, v.url, v.title
            )
        })
        .collect::<Vec<_>>()
        .join("\n");
    (format!(
        r"<!doctype html>
<html>
  <head>
    <meta charset='utf-8'>
    <title>Mandatory Software Development Annual Training</title>
    <style>
      body {{ font-family: Arial, sans-serif; max-width: 980px; margin: 2rem auto; background: #f2f4f8; }}
      .banner {{ background: #112f6f; color: white; padding: 1rem; border-radius: .5rem; }}
      .card {{ background: white; padding: 1rem; margin: 1rem 0; border-radius: .5rem; box-shadow: 0 1px 4px #00000022; }}
      .btn {{ display: inline-block; margin-top: 1rem; background: #0a6; color: white; text-decoration: none; padding: .7rem 1rem; border-radius: .4rem; }}
      iframe {{ width: 100%; min-height: 315px; border: 0; }}
    </style>
  </head>
  <body>
    <div class='banner'>
      <h1>Software Development Annual Training</h1>
      <p>Please complete all required media modules and proceed to the quiz. Passing score: 80%.</p>
    </div>
    {}
    <a class='btn' href='/quiz'>Proceed to Development Practices Quiz</a>
  </body>
</html>",
        videos_html
    ))
}

fn oracle_quiz_page(bank: &[Question]) -> String {
    let selected_questions = bank.to_vec();
    let selected_ids = selected_questions
        .iter()
        .map(|question| question.id)
        .collect::<Vec<_>>()
        .join(",");
    let question_markup = selected_questions
        .iter()
        .enumerate()
        .map(|(idx, q)| {
            let options = q
                .choices
                .iter()
                .enumerate()
                .map(|(choice_idx, choice)| {
                    format!(
                        "<label><input required type='radio' name='q{idx}' value='{choice_idx}'> {choice}</label><br>"
                    )
                })
                .collect::<String>();
            format!(
                "<fieldset><legend><strong>Q{}:</strong> {}</legend>{}</fieldset><br>",
                idx + 1,
                q.prompt,
                options
            )
        })
        .collect::<String>();
    let skip_button = if true {
        "<button type='submit' name='debug_skip' value='1' formnovalidate style='margin-left: .75rem;'>Skip (Debug)</button>"
    } else {
        ""
    };
    (format!(
        r"<!doctype html>
<html><head><meta charset='utf-8'><title>Quiz</title></head>
<body style='font-family: Arial, sans-serif; max-width: 850px; margin: 2rem auto;'>
<h1>Software Development Knowledge Check</h1>
<form method='post' action='/quiz'>
<label>Your full name: <input type='text' name='employee_name' required></label><br><br>
<input type='hidden' name='selected_question_ids' value='{}'>
{}
<button type='submit'>Submit Exam</button>
{}
</form>
</body></html>",
        selected_ids, question_markup, skip_button
    ))
}

fn oracle_result_page(result: ExamAttempt, pct_text: &str) -> String {
    let status = if result.passed { "PASS" } else { "FAIL" };
    let cert_msg = if let Some(cert_id) = result.cert_id {
        format!(
            "<p>Certificate issued. ID: <code>{cert_id}</code></p><p>Your completion certificate is ready as a PDF. It includes a verification code that can be used to validate training completion.</p><p><a href='/certificate/{cert_id}' download>Download completion certificate (.pdf)</a></p><script>setTimeout(function () {{  if (confirm('You passed! Download your completion certificate PDF now?')) {{    window.location.href = '/certificate/{cert_id}';  }}}}, 300);</script>"
        )
    } else {
        "<p>No certificate issued. Please retake the training and achieve at least 80%.</p>"
            .to_string()
    };
    (format!(
        "<h1>Exam Result: {status}</h1><p>Score: {}/{} ({}%)</p>{}<p><a href='/'>Back to development training portal</a></p>",
        result.score, result.total, pct_text, cert_msg
    ))
}

#[test]
fn seed_videos_lists_four_modules() {
    let videos = seed_videos();
    assert_eq!(videos.len(), 4);
    assert_eq!(videos[0].title, "Module 1: Threat Awareness Through Cultural Study");
    assert_eq!(videos[3].url, "https://www.youtube.com/embed/2aj-8lmB5q8");
}

#[test]
fn render_home_matches_template() {
    let videos = seed_videos();
    assert_eq!(render_home(&videos), oracle_home(&videos));
    assert_eq!(render_home(&videos[..1]), oracle_home(&videos[..1]));
    assert_eq!(render_home(&[]), oracle_home(&[]));
}

#[test]
fn render_quiz_page_matches_template() {
    let bank = seed_questions();
    let page = render_quiz_page(&bank);
    assert_eq!(page, oracle_quiz_page(&bank));
    assert!(page.contains("name='q8' value='3'"));
    assert!(page.contains("<strong>Q9:</strong>"));
    assert_eq!(render_quiz_page(&[]), oracle_quiz_page(&[]));
}

#[test]
fn quiz_page_ids_select_the_shown_questions() {
    let bank = seed_questions();
    let page = render_quiz_page(&bank);
    let marker = "name='selected_question_ids' value='";
    let start = page.find(marker).unwrap() + marker.len();
    let end = start + page[start..].find('\'').unwrap();
    let selected = select_questions_by_id(&bank, &page[start..end]);
    let ids: Vec<&str> = selected.iter().map(|q| q.id).collect();
    let bank_ids: Vec<&str> = bank.iter().map(|q| q.id).collect();
    assert_eq!(ids, bank_ids);
}

#[test]
fn quiz_page_choice_values_read_back() {
    let bank = seed_questions();
    let mut raw = StrMap::new();
    for (idx, q) in bank.iter().enumerate() {
        raw.insert(format!("q{idx}"), format!("{}", q.correct));
    }
    let parsed = parse_answers(&raw);
    for (idx, q) in bank.iter().enumerate() {
        assert_eq!(parsed.get(&format!("q{idx}")), Some(&q.correct));
    }
}

#[test]
fn render_result_page_matches_template() {
    let passed = ExamAttempt { score: 8, total: 9, passed: true, cert_id: Some("abc-123".to_string()) };
    let failed = ExamAttempt { score: 2, total: 9, passed: false, cert_id: None };
    assert_eq!(
        render_result_page(&ResultLookup::Found(passed.clone()), "88.9"),
        oracle_result_page(passed, "88.9")
    );
    assert_eq!(
        render_result_page(&ResultLookup::Found(failed.clone()), "22.2"),
        oracle_result_page(failed, "22.2")
    );
    assert_eq!(render_result_page(&ResultLookup::MissingTicket, ""), "<h1>Missing ticket.</h1>");
    assert_eq!(render_result_page(&ResultLookup::UnknownTicket, ""), "<h1>Unknown result ticket.</h1>");
}

fn form(ids: &str, skip: bool, answers: &[(&str, &str)]) -> QuizForm {
    let mut raw = StrMap::new();
    for (k, v) in answers {
        raw.insert(k.to_string(), v.to_string());
    }
    QuizForm {
        employee_name: "Pat".to_string(),
        selected_question_ids: ids.to_string(),
        debug_skip: if skip { Some("1".to_string()) } else { None },
        answers: raw,
    }
}

#[test]
fn submission_without_known_questions_is_retaken() {
    let bank = seed_questions();
    assert!(matches!(score_submission(&bank, &form("", false, &[])), SubmissionOutcome::RetakeQuiz));
    assert!(matches!(score_submission(&bank, &form("nope,", true, &[])), SubmissionOutcome::RetakeQuiz));
}

#[test]
fn skipped_submission_passes_as_debug() {
    let bank = seed_questions();
    match score_submission(&bank, &form("module-one-be-cautious,module-three-feet-wet", true, &[])) {
        SubmissionOutcome::Scored { evaluation, employee_name } => {
            assert_eq!((evaluation.score, evaluation.total, evaluation.passed), (2, 2, true));
            assert_eq!(employee_name, "debug");
        }
        SubmissionOutcome::RetakeQuiz => panic!("expected a score"),
    }
}

#[test]
fn answered_submission_is_scored_from_fields() {
    let bank = seed_questions();
    let ids = "module-one-be-cautious,module-three-feet-wet";
    match score_submission(&bank, &form(ids, false, &[("q0", "2"), ("q1", "3"), ("employee_name", "Pat")])) {
        SubmissionOutcome::Scored { evaluation, employee_name } => {
            assert_eq!((evaluation.score, evaluation.total, evaluation.passed), (1, 2, false));
            assert_eq!(employee_name, "Pat");
        }
        SubmissionOutcome::RetakeQuiz => panic!("expected a score"),
    }
}

#[test]
fn certificate_is_issued_exactly_when_passed() {
    let pass = QuizEvaluation { score: 8, total: 9, passed: true };
    let fail = QuizEvaluation { score: 7, total: 9, passed: false };
    let cert = match certificate_for(&pass, "Pat", "id-77") {
        Issuance::Issued(cert) => cert,
        other => panic!("unexpected: {other:?}"),
    };
    assert_eq!(cert.cert_id, "id-77");
    assert_eq!(cert.employee_name, "Pat");
    assert_eq!((cert.score, cert.total), (8, 9));
    assert_eq!(cert.verification_code, verification_code("id-77", "Pat", 8, 9));
    assert!(matches!(certificate_for(&fail, "Pat", "id-78"), Issuance::NotPassed));
}

#[test]
fn artifact_names_and_locations() {
    assert_eq!(certificate_file_name("abc", "pdf"), "certificate-abc.pdf");
    assert_eq!(certificate_file_name("abc", "json"), "certificate-abc.json");
    assert_eq!(result_location("t-1"), "/result?ticket=t-1");
}

#[test]
fn attempt_record_keeps_the_id_only_of_a_stored_certificate() {
    let pass = QuizEvaluation { score: 9, total: 9, passed: true };
    let issuance = certificate_for(&pass, "Pat", "id-9");
    let stored = attempt_record(&pass, &issuance, true);
    assert_eq!((stored.score, stored.total, stored.passed), (9, 9, true));
    assert_eq!(stored.cert_id.as_deref(), Some("id-9"));
    assert_eq!(attempt_record(&pass, &issuance, false).cert_id, None);
    let fail = QuizEvaluation { score: 1, total: 9, passed: false };
    let none = attempt_record(&fail, &certificate_for(&fail, "Pat", "id-10"), true);
    assert_eq!((none.score, none.passed, none.cert_id), (1, false, None));
}

#[test]
fn issue_certificate_at_uses_the_given_time() {
    let pass = QuizEvaluation { score: 8, total: 9, passed: true };
    let fail = QuizEvaluation { score: 2, total: 9, passed: false };
    match issue_certificate_at(&pass, "Pat", "id-1", Some("2024-01-01T00:00:00+00:00".to_string())) {
        Issuance::Issued(c) => {
            assert_eq!(c.issued_at_utc, "2024-01-01T00:00:00+00:00");
            assert_eq!(c.cert_id, "id-1");
        }
        other => panic!("unexpected: {other:?}"),
    }
    assert!(matches!(issue_certificate_at(&pass, "Pat", "id-1", None), Issuance::ClockUnavailable));
    assert!(matches!(issue_certificate_at(&fail, "Pat", "id-1", None), Issuance::NotPassed));
}
