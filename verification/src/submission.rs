//! Handling a submitted quiz: which questions it answers, how it is scored,
//! whether a certificate is issued, and the names under which the portal
//! keeps and serves what it issues.

use vstd::prelude::*;
use crate::certificate::{
    certificate_at, certificate_digest, rfc3339_text, utc_now_rfc3339, verification_code_of,
    Certificate,
};
use crate::pages::{ExamAttempt, ENABLE_DEBUG_SKIP};
use crate::quiz::{
    correct_answers, evaluate_quiz, lemma_all_correct_scores_all, parse_answers, parsed_answers,
    passes, quiz_score, select_by_ids, select_questions_by_id, QuizEvaluation, Question,
};
use crate::strmap::StrMap;
use crate::text::split_on;

verus! {

/// A submitted quiz form.
#[derive(Debug)]
pub struct QuizForm {
    pub employee_name: String,
    pub selected_question_ids: String,
    pub debug_skip: Option<String>,
    pub answers: StrMap<String>,
}

/// What a submission comes to.
#[derive(Debug)]
pub enum SubmissionOutcome {
    /// The form named no known question: the quiz is to be taken again.
    RetakeQuiz,
    /// The attempt was scored, for the named employee.
    Scored { evaluation: QuizEvaluation, employee_name: String },
}

/// Whether the form asks to skip the quiz: the skip button is enabled and was used.
pub open spec fn skip_requested(form: QuizForm) -> bool {
    ENABLE_DEBUG_SKIP && form.debug_skip is Some
}

/// The questions a form names, from the bank.
pub open spec fn submitted_questions(bank: Seq<Question>, form: QuizForm) -> Seq<Question> {
    select_by_ids(bank, split_on(form.selected_question_ids@, ','))
}

/// The name recorded for a skipped attempt.
pub const DEBUG_EMPLOYEE_NAME: &'static str = "debug";


/// Scores a submission against the bank. The questions are those the form
/// names; when it names none the quiz is to be retaken. A skipped attempt is
/// scored as all correct and recorded under the name `debug`; otherwise the
/// answers are read from the form's fields.
pub fn score_submission(question_bank: &[Question], form: &QuizForm) -> (outcome: SubmissionOutcome)
    ensures
        submitted_questions(question_bank@, *form).len() == 0 ==> outcome is RetakeQuiz,
        submitted_questions(question_bank@, *form).len() > 0 ==> {
            &&& outcome matches SubmissionOutcome::Scored { evaluation, employee_name }
            &&& evaluation.total == submitted_questions(question_bank@, *form).len()
            &&& evaluation.passed == passes(evaluation.score as nat, evaluation.total as nat)
            &&& skip_requested(*form) ==> {
                &&& evaluation.score == evaluation.total
                &&& evaluation.passed
                &&& employee_name@ == DEBUG_EMPLOYEE_NAME@
            }
            &&& !skip_requested(*form) ==> {
                &&& evaluation.score == quiz_score(
                    submitted_questions(question_bank@, *form),
                    parsed_answers(form.answers@),
                )
                &&& employee_name@ == form.employee_name@
            }
        },
{
    let skip = ENABLE_DEBUG_SKIP && form.debug_skip.is_some();
    let selected = select_questions_by_id(question_bank, form.selected_question_ids.as_str());
    if selected.len() == 0 {
        return SubmissionOutcome::RetakeQuiz;
    }
    let answers = if skip {
        correct_answers(selected.as_slice())
    } else {
        parse_answers(&form.answers)
    };
    let evaluation = evaluate_quiz(selected.as_slice(), &answers);
    proof {
        if skip {
            lemma_all_correct_scores_all(selected@, answers@);
        }
    }
    let employee_name = if skip {
        DEBUG_EMPLOYEE_NAME.to_owned()
    } else {
        form.employee_name.clone()
    };
    SubmissionOutcome::Scored { evaluation, employee_name }
}

/// What issuing a certificate for an attempt comes to.
#[derive(Debug)]
pub enum Issuance {
    /// The attempt did not pass: no certificate is due.
    NotPassed,
    /// The certificate issued for a passing attempt.
    Issued(Certificate),
    /// The attempt passed, but the clock could not be read as a UTC time.
    ClockUnavailable,
}

/// The certificate issued under `cert_id` at `issued_at_utc`: none for an
/// attempt that did not pass; for one that passed, the certificate stamped
/// with the given time, or `ClockUnavailable` when no time could be read.
pub fn issue_certificate_at(
    evaluation: &QuizEvaluation,
    employee_name: &str,
    cert_id: &str,
    issued_at_utc: Option<String>,
) -> (r: Issuance)
    ensures
        r is NotPassed <==> !evaluation.passed,
        evaluation.passed && issued_at_utc is None ==> r is ClockUnavailable,
        evaluation.passed && issued_at_utc is Some ==> {
            &&& r matches Issuance::Issued(c)
            &&& c.cert_id@ == cert_id@
            &&& c.employee_name@ == employee_name@
            &&& c.issued_at_utc == issued_at_utc.unwrap()
            &&& c.score == evaluation.score
            &&& c.total == evaluation.total
            &&& c.digest@ == certificate_digest(
                cert_id@,
                employee_name@,
                evaluation.score as nat,
                evaluation.total as nat,
            )
            &&& c.verification_code@ == verification_code_of(
                cert_id@,
                employee_name@,
                evaluation.score as nat,
                evaluation.total as nat,
            )
        },
{
    if !evaluation.passed {
        return Issuance::NotPassed;
    }
    match issued_at_utc {
        Some(time) => Issuance::Issued(
            certificate_at(cert_id, employee_name, evaluation.score, evaluation.total, time),
        ),
        None => Issuance::ClockUnavailable,
    }
}

/// Issues a certificate under `cert_id` exactly when the attempt passed,
/// stamped with the current time read from the clock (see
/// `issue_certificate_at`, which decides with the time read).
pub fn certificate_for(evaluation: &QuizEvaluation, employee_name: &str, cert_id: &str) -> (r: Issuance)
    ensures
        r is NotPassed <==> !evaluation.passed,
        r matches Issuance::Issued(c) ==> {
            &&& c.cert_id@ == cert_id@
            &&& c.employee_name@ == employee_name@
            &&& c.score == evaluation.score
            &&& c.total == evaluation.total
            &&& c.digest@ == certificate_digest(
                cert_id@,
                employee_name@,
                evaluation.score as nat,
                evaluation.total as nat,
            )
            &&& c.verification_code@ == verification_code_of(
                cert_id@,
                employee_name@,
                evaluation.score as nat,
                evaluation.total as nat,
            )
            &&& exists|secs: i64, nanos: u32| #[trigger] rfc3339_text(secs, nanos) == Some(c.issued_at_utc@)
        },
{
    if !evaluation.passed {
        return Issuance::NotPassed;
    }
    let issued_at = utc_now_rfc3339();
    issue_certificate_at(evaluation, employee_name, cert_id, issued_at)
}

/// The attempt to store for a scored submission: the evaluation's score,
/// total and verdict, and the id of its certificate when one was issued and
/// its files were written.
pub fn attempt_record(evaluation: &QuizEvaluation, issuance: &Issuance, files_written: bool) -> (attempt: ExamAttempt)
    ensures
        attempt.score == evaluation.score,
        attempt.total == evaluation.total,
        attempt.passed == evaluation.passed,
        match *issuance {
            Issuance::Issued(c) => attempt.cert_id == (if files_written {
                Some(c.cert_id)
            } else {
                None
            }),
            _ => attempt.cert_id is None,
        },
{
    let cert_id = match issuance {
        Issuance::Issued(c) => {
            if files_written {
                Some(c.cert_id.clone())
            } else {
                None
            }
        },
        _ => None,
    };
    ExamAttempt {
        score: evaluation.score,
        total: evaluation.total,
        passed: evaluation.passed,
        cert_id,
    }
}

/// `certificate-`, the id, a dot and the extension: the name under which a
/// certificate's artifact is stored and offered for download.
pub fn certificate_file_name(cert_id: &str, extension: &str) -> (name: String)
    ensures
        name@ == "certificate-"@ + cert_id@ + seq!['.'] + extension@,
{
    let mut name = String::new();
    name.append("certificate-");
    name.append(cert_id);
    crate::text::push_char(&mut name, '.');
    name.append(extension);
    assert(name@ =~= "certificate-"@ + cert_id@ + seq!['.'] + extension@);
    name
}

/// Where the result of the attempt stored under `ticket` is shown.
pub fn result_location(ticket: &str) -> (location: String)
    ensures
        location@ == "/result?ticket="@ + ticket@,
{
    let mut location = String::new();
    location.append("/result?ticket=");
    location.append(ticket);
    location
}

} // verus!
