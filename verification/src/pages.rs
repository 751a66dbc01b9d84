//! The pages the portal serves: the training modules, the quiz form and the
//! result of an attempt.

use vstd::prelude::*;
use crate::quiz::{choose_quiz_questions, question_ids, Question};
use crate::text::{decimal, join_with, push_char, push_decimal};

verus! {

/// Whether the quiz form offers a button that submits a perfect attempt
/// without answering (for local development).
pub const ENABLE_DEBUG_SKIP: bool = true;

// The pages' fixed text, cut where the values go.
pub const HOME_CARD_0: &'static str = "<section class='card'>\n<h3>";
pub const HOME_CARD_1: &'static str = "</h3>\n<p>";
pub const HOME_CARD_2: &'static str = "</p>\n<iframe width='560' height='315' src='";
pub const HOME_CARD_3: &'static str = "' title='";
pub const HOME_CARD_4: &'static str = "' allowfullscreen></iframe>\n</section>";
pub const HOME_HEAD: &'static str = "<!doctype html>\n<html>\n  <head>\n    <meta charset='utf-8'>\n    <title>Mandatory Software Development Annual Training</title>\n    <style>\n      body { font-family: Arial, sans-serif; max-width: 980px; margin: 2rem auto; background: #f2f4f8; }\n      .banner { background: #112f6f; color: white; padding: 1rem; border-radius: .5rem; }\n      .card { background: white; padding: 1rem; margin: 1rem 0; border-radius: .5rem; box-shadow: 0 1px 4px #00000022; }\n      .btn { display: inline-block; margin-top: 1rem; background: #0a6; color: white; text-decoration: none; padding: .7rem 1rem; border-radius: .4rem; }\n      iframe { width: 100%; min-height: 315px; border: 0; }\n    </style>\n  </head>\n  <body>\n    <div class='banner'>\n      <h1>Software Development Annual Training</h1>\n      <p>Please complete all required media modules and proceed to the quiz. Passing score: 80%.</p>\n    </div>\n    ";
pub const HOME_TAIL: &'static str = "\n    <a class='btn' href='/quiz'>Proceed to Development Practices Quiz</a>\n  </body>\n</html>";
pub const QUIZ_OPTION_0: &'static str = "<label><input required type='radio' name='q";
pub const QUIZ_OPTION_1: &'static str = "' value='";
pub const QUIZ_OPTION_2: &'static str = "'> ";
pub const QUIZ_OPTION_3: &'static str = "</label><br>";
pub const QUIZ_FIELDSET_0: &'static str = "<fieldset><legend><strong>Q";
pub const QUIZ_FIELDSET_1: &'static str = ":</strong> ";
pub const QUIZ_FIELDSET_2: &'static str = "</legend>";
pub const QUIZ_FIELDSET_3: &'static str = "</fieldset><br>";
pub const QUIZ_PAGE_0: &'static str = "<!doctype html>\n<html><head><meta charset='utf-8'><title>Quiz</title></head>\n<body style='font-family: Arial, sans-serif; max-width: 850px; margin: 2rem auto;'>\n<h1>Software Development Knowledge Check</h1>\n<form method='post' action='/quiz'>\n<label>Your full name: <input type='text' name='employee_name' required></label><br><br>\n<input type='hidden' name='selected_question_ids' value='";
pub const QUIZ_PAGE_1: &'static str = "'>\n";
pub const QUIZ_PAGE_2: &'static str = "\n<button type='submit'>Submit Exam</button>\n";
pub const QUIZ_PAGE_3: &'static str = "\n</form>\n</body></html>";
pub const SKIP_BUTTON: &'static str = "<button type='submit' name='debug_skip' value='1' formnovalidate style='margin-left: .75rem;'>Skip (Debug)</button>";
pub const RESULT_CERT_0: &'static str = "<p>Certificate issued. ID: <code>";
pub const RESULT_CERT_1: &'static str = "</code></p><p>Your completion certificate is ready as a PDF. It includes a verification code that can be used to validate training completion.</p><p><a href='/certificate/";
pub const RESULT_CERT_2: &'static str = "' download>Download completion certificate (.pdf)</a></p><script>setTimeout(function () {  if (confirm('You passed! Download your completion certificate PDF now?')) {    window.location.href = '/certificate/";
pub const RESULT_CERT_3: &'static str = "';  }}, 300);</script>";
pub const RESULT_NO_CERT: &'static str = "<p>No certificate issued. Please retake the training and achieve at least 80%.</p>";
pub const RESULT_PAGE_0: &'static str = "<h1>Exam Result: ";
pub const RESULT_PAGE_1: &'static str = "</h1><p>Score: ";
pub const RESULT_PAGE_2: &'static str = "/";
pub const RESULT_PAGE_3: &'static str = " (";
pub const RESULT_PAGE_4: &'static str = "%)</p>";
pub const RESULT_PAGE_5: &'static str = "<p><a href='/'>Back to development training portal</a></p>";
pub const RESULT_MISSING_TICKET: &'static str = "<h1>Missing ticket.</h1>";
pub const RESULT_UNKNOWN_TICKET: &'static str = "<h1>Unknown result ticket.</h1>";

/// A training module: a titled, described, embeddable video.
#[derive(Clone, Copy, Debug)]
pub struct Video {
    pub title: &'static str,
    pub url: &'static str,
    pub description: &'static str,
}

/// The seeded training modules, in order.
pub open spec fn seed_video_list() -> Seq<Video> {
    seq![
        Video {
            title: "Module 1: Threat Awareness Through Cultural Study",
            url: "https://www.youtube.com/embed/xt5ghXdq6Z0",
            description: "Mandatory viewing: 'Lemme Smang It' as interpreted through enterprise risk narratives.",
        },
        Video {
            title: "Module 2: Fundamentals of Maintainability and Supply Chain Risk Analysis",
            url: "https://www.youtube.com/embed/W7Hoz2ZHYZM",
            description: "Mandatory viewing: Prevent your code base from becoming the liquid slam monster by practicing good repository hygiene.",
        },
        Video {
            title: "Module 3: Social-Engineering Pattern Recognition",
            url: "https://www.youtube.com/embed/7cqOEr_yfak",
            description: "Required viewing: 'Look how dat boy mind me!' to practice identifying attention-grabbing social cues.",
        },
        Video {
            title: "Module 4: Learning When to Say No.",
            url: "https://www.youtube.com/embed/2aj-8lmB5q8",
            description: "New assignment module: Knowing when to say no is important, but sometimes you have to deal with consequences.",
        },
    
    ]
}

/// The seeded training modules, in order.
pub fn seed_videos() -> (videos: Vec<Video>)
    ensures
        videos@ == seed_video_list(),
{
    vec![
        Video {
            title: "Module 1: Threat Awareness Through Cultural Study",
            url: "https://www.youtube.com/embed/xt5ghXdq6Z0",
            description: "Mandatory viewing: 'Lemme Smang It' as interpreted through enterprise risk narratives.",
        },
        Video {
            title: "Module 2: Fundamentals of Maintainability and Supply Chain Risk Analysis",
            url: "https://www.youtube.com/embed/W7Hoz2ZHYZM",
            description: "Mandatory viewing: Prevent your code base from becoming the liquid slam monster by practicing good repository hygiene.",
        },
        Video {
            title: "Module 3: Social-Engineering Pattern Recognition",
            url: "https://www.youtube.com/embed/7cqOEr_yfak",
            description: "Required viewing: 'Look how dat boy mind me!' to practice identifying attention-grabbing social cues.",
        },
        Video {
            title: "Module 4: Learning When to Say No.",
            url: "https://www.youtube.com/embed/2aj-8lmB5q8",
            description: "New assignment module: Knowing when to say no is important, but sometimes you have to deal with consequences.",
        },
    
    ]
}

/// The card that shows one module on the landing page.
pub open spec fn video_card(v: Video) -> Seq<char> {
    HOME_CARD_0@ + v.title@ + HOME_CARD_1@ + v.description@ + HOME_CARD_2@ + v.url@ + HOME_CARD_3@
        + v.title@ + HOME_CARD_4@
}

/// The landing page: every module's card, one per line, between the fixed
/// head and the link to the quiz.
pub open spec fn home_page(videos: Seq<Video>) -> Seq<char> {
    HOME_HEAD@ + join_with(videos.map_values(|v: Video| video_card(v)), '\n') + HOME_TAIL@
}

/// Appends `v`'s card to `s`.
fn push_video_card(s: &mut String, v: &Video)
    ensures
        final(s)@ == old(s)@ + video_card(*v),
{
    s.append(HOME_CARD_0);
    s.append(v.title);
    s.append(HOME_CARD_1);
    s.append(v.description);
    s.append(HOME_CARD_2);
    s.append(v.url);
    s.append(HOME_CARD_3);
    s.append(v.title);
    s.append(HOME_CARD_4);
    assert(s@ =~= old(s)@ + video_card(*v));
}

/// Renders the landing page for `videos`.
pub fn render_home(videos: &[Video]) -> (page: String)
    ensures
        page@ == home_page(videos@),
{
    let ghost cards = videos@.map_values(|v: Video| video_card(v));
    let mut page = String::new();
    page.append(HOME_HEAD);
    let n = videos.len();
    assert(cards.take(0) =~= Seq::<Seq<char>>::empty());
    for i in 0..n
        invariant
            n == videos@.len(),
            cards == videos@.map_values(|v: Video| video_card(v)),
            page@ == HOME_HEAD@ + join_with(cards.take(i as int), '\n'),
    {
        let ghost before = page@;
        if i > 0 {
            push_char(&mut page, '\n');
        }
        push_video_card(&mut page, &videos[i]);
        assert(cards.take(i + 1).drop_last() =~= cards.take(i as int));
        assert(cards.take(i + 1).last() == video_card(videos@[i as int]));
        if i == 0 {
            assert(cards.take(1) =~= seq![video_card(videos@[0])]);
        }
        assert(page@ =~= HOME_HEAD@ + join_with(cards.take(i + 1), '\n'));
    }
    assert(cards.take(n as int) =~= cards);
    page.append(HOME_TAIL);
    page
}

/// The radio button for choice `choice_idx` of question `idx`: its field is
/// `q` and the question's position, its value the choice's position.
pub open spec fn option_line(idx: nat, choice_idx: nat, choice: Seq<char>) -> Seq<char> {
    QUIZ_OPTION_0@ + decimal(idx) + QUIZ_OPTION_1@ + decimal(choice_idx) + QUIZ_OPTION_2@ + choice
        + QUIZ_OPTION_3@
}

/// The radio buttons for the choices of question `idx`, in order.
pub open spec fn options_markup(idx: nat, choices: Seq<&'static str>) -> Seq<char>
    decreases choices.len(),
{
    if choices.len() == 0 {
        Seq::empty()
    } else {
        options_markup(idx, choices.drop_last()) + option_line(
            idx,
            (choices.len() - 1) as nat,
            choices.last()@,
        )
    }
}

/// The fieldset for question `q` at position `idx`, numbered from one.
pub open spec fn question_fieldset(q: Question, idx: nat) -> Seq<char> {
    QUIZ_FIELDSET_0@ + decimal(idx + 1) + QUIZ_FIELDSET_1@ + q.prompt@ + QUIZ_FIELDSET_2@
        + options_markup(idx, q.choices@) + QUIZ_FIELDSET_3@
}

/// The fieldsets of all questions, in order.
pub open spec fn questions_markup(questions: Seq<Question>) -> Seq<char>
    decreases questions.len(),
{
    if questions.len() == 0 {
        Seq::empty()
    } else {
        questions_markup(questions.drop_last()) + question_fieldset(
            questions.last(),
            (questions.len() - 1) as nat,
        )
    }
}

/// The skip button, where it is enabled.
pub open spec fn skip_button_markup() -> Seq<char> {
    if ENABLE_DEBUG_SKIP {
        SKIP_BUTTON@
    } else {
        Seq::empty()
    }
}

/// The quiz form: a hidden field with the ids of the questions joined by
/// commas, a fieldset per question, the submit button and the skip button.
pub open spec fn quiz_page_html(questions: Seq<Question>) -> Seq<char> {
    QUIZ_PAGE_0@ + join_with(question_ids(questions), ',') + QUIZ_PAGE_1@ + questions_markup(questions)
        + QUIZ_PAGE_2@ + skip_button_markup() + QUIZ_PAGE_3@
}

/// Appends the fieldset of question `q` at position `idx` to `s`.
fn push_question_fieldset(s: &mut String, q: &Question, idx: usize)
    requires
        idx < usize::MAX,
    ensures
        final(s)@ == old(s)@ + question_fieldset(*q, idx as nat),
{
    s.append(QUIZ_FIELDSET_0);
    push_decimal(s, idx + 1);
    s.append(QUIZ_FIELDSET_1);
    s.append(q.prompt);
    s.append(QUIZ_FIELDSET_2);
    let ghost head = s@;
    let ghost choices = q.choices@;
    assert(choices.take(0) =~= Seq::<&'static str>::empty());
    for c in 0..4usize
        invariant
            choices == q.choices@,
            choices.len() == 4,
            s@ == head + options_markup(idx as nat, choices.take(c as int)),
    {
        s.append(QUIZ_OPTION_0);
        push_decimal(s, idx);
        s.append(QUIZ_OPTION_1);
        push_decimal(s, c);
        s.append(QUIZ_OPTION_2);
        s.append(q.choices[c]);
        s.append(QUIZ_OPTION_3);
        assert(choices.take(c + 1).drop_last() =~= choices.take(c as int));
        assert(choices.take(c + 1).last() == choices[c as int]);
        assert(s@ =~= head + options_markup(idx as nat, choices.take(c + 1)));
    }
    assert(choices.take(4) =~= choices);
    s.append(QUIZ_FIELDSET_3);
    assert(s@ =~= old(s)@ + question_fieldset(*q, idx as nat));
}

/// Renders the quiz form over the whole question bank, in its stable order.
pub fn render_quiz_page(question_bank: &[Question]) -> (page: String)
    ensures
        page@ == quiz_page_html(question_bank@),
{
    let selected = choose_quiz_questions(question_bank);
    let ghost ids = question_ids(selected@);
    let n = selected.len();
    let mut page = String::new();
    page.append(QUIZ_PAGE_0);
    let ghost head = page@;
    assert(ids.take(0) =~= Seq::<Seq<char>>::empty());
    for i in 0..n
        invariant
            n == selected@.len(),
            ids == question_ids(selected@),
            page@ == head + join_with(ids.take(i as int), ','),
    {
        if i > 0 {
            push_char(&mut page, ',');
        }
        page.append(selected[i].id);
        assert(ids.take(i + 1).drop_last() =~= ids.take(i as int));
        assert(ids.take(i + 1).last() == selected@[i as int].id@);
        if i == 0 {
            assert(ids.take(1) =~= seq![selected@[0].id@]);
        }
        assert(page@ =~= head + join_with(ids.take(i + 1), ','));
    }
    assert(ids.take(n as int) =~= ids);
    page.append(QUIZ_PAGE_1);
    let ghost middle = page@;
    assert(selected@.take(0) =~= Seq::<Question>::empty());
    for i in 0..n
        invariant
            n == selected@.len(),
            n <= usize::MAX,
            page@ == middle + questions_markup(selected@.take(i as int)),
    {
        push_question_fieldset(&mut page, &selected[i], i);
        assert(selected@.take(i + 1).drop_last() =~= selected@.take(i as int));
        assert(selected@.take(i + 1).last() == selected@[i as int]);
        assert(page@ =~= middle + questions_markup(selected@.take(i + 1)));
    }
    assert(selected@.take(n as int) =~= selected@);
    page.append(QUIZ_PAGE_2);
    if ENABLE_DEBUG_SKIP {
        page.append(SKIP_BUTTON);
    }
    page.append(QUIZ_PAGE_3);
    assert(page@ =~= quiz_page_html(question_bank@));
    page
}

/// A stored attempt: its score, whether it passed, and the id of the
/// certificate issued for it, if one was.
#[derive(Clone, Debug)]
pub struct ExamAttempt {
    pub score: usize,
    pub total: usize,
    pub passed: bool,
    pub cert_id: Option<String>,
}

/// What a request for a result finds.
#[derive(Clone, Debug)]
pub enum ResultLookup {
    /// The request names no ticket.
    MissingTicket,
    /// The ticket names no stored attempt.
    UnknownTicket,
    /// The stored attempt.
    Found(ExamAttempt),
}

/// The certificate notice of a result page.
pub open spec fn certificate_notice(cert_id: Option<String>) -> Seq<char> {
    match cert_id {
        Some(id) => RESULT_CERT_0@ + id@ + RESULT_CERT_1@ + id@ + RESULT_CERT_2@ + id@ + RESULT_CERT_3@,
        None => RESULT_NO_CERT@,
    }
}

/// The result page: a notice for a missing or unknown ticket; otherwise PASS
/// or FAIL, the score out of the total with the percentage as given, and the
/// certificate notice.
pub open spec fn result_page_html(lookup: ResultLookup, percent_text: Seq<char>) -> Seq<char> {
    match lookup {
        ResultLookup::MissingTicket => RESULT_MISSING_TICKET@,
        ResultLookup::UnknownTicket => RESULT_UNKNOWN_TICKET@,
        ResultLookup::Found(a) => RESULT_PAGE_0@ + (if a.passed {
            "PASS"@
        } else {
            "FAIL"@
        }) + RESULT_PAGE_1@ + decimal(a.score as nat) + RESULT_PAGE_2@ + decimal(a.total as nat)
            + RESULT_PAGE_3@ + percent_text + RESULT_PAGE_4@ + certificate_notice(a.cert_id)
            + RESULT_PAGE_5@,
    }
}

/// Renders the result page for what a lookup found; `percent_text` is the
/// percentage to show, already formatted.
pub fn render_result_page(lookup: &ResultLookup, percent_text: &str) -> (page: String)
    ensures
        page@ == result_page_html(*lookup, percent_text@),
{
    match lookup {
        ResultLookup::MissingTicket => RESULT_MISSING_TICKET.to_owned(),
        ResultLookup::UnknownTicket => RESULT_UNKNOWN_TICKET.to_owned(),
        ResultLookup::Found(a) => {
            let mut page = String::new();
            page.append(RESULT_PAGE_0);
            if a.passed {
                page.append("PASS");
            } else {
                page.append("FAIL");
            }
            page.append(RESULT_PAGE_1);
            push_decimal(&mut page, a.score);
            page.append(RESULT_PAGE_2);
            push_decimal(&mut page, a.total);
            page.append(RESULT_PAGE_3);
            page.append(percent_text);
            page.append(RESULT_PAGE_4);
            match &a.cert_id {
                Some(id) => {
                    page.append(RESULT_CERT_0);
                    page.append(id.as_str());
                    page.append(RESULT_CERT_1);
                    page.append(id.as_str());
                    page.append(RESULT_CERT_2);
                    page.append(id.as_str());
                    page.append(RESULT_CERT_3);
                },
                None => {
                    page.append(RESULT_NO_CERT);
                },
            }
            page.append(RESULT_PAGE_5);
            assert(page@ =~= result_page_html(*lookup, percent_text@));
            page
        },
    }
}

/// The result page of an attempt that holds a certificate id shows that id
/// whole: as the code after "ID:", and in both links that fetch the
/// certificate, the download link and the script that offers it.
pub proof fn lemma_result_page_shows_certificate_id(
    attempt: ExamAttempt,
    percent_text: Seq<char>,
    id: String,
)
    requires
        attempt.cert_id == Some(id),
    ensures
        exists|p: Seq<char>, q: Seq<char>|
            result_page_html(ResultLookup::Found(attempt), percent_text) == p + "ID: <code>"@ + id@
                + "</code>"@ + q,
        exists|p: Seq<char>, q: Seq<char>|
            result_page_html(ResultLookup::Found(attempt), percent_text) == p
                + "<a href='/certificate/"@ + id@ + "' download>"@ + q,
        exists|p: Seq<char>, q: Seq<char>|
            result_page_html(ResultLookup::Found(attempt), percent_text) == p
                + "window.location.href = '/certificate/"@ + id@ + "';"@ + q,
{
    reveal_strlit("<p>Certificate issued. ID: <code>");
    reveal_strlit("</code></p><p>Your completion certificate is ready as a PDF. It includes a verification code that can be used to validate training completion.</p><p><a href='/certificate/");
    reveal_strlit("' download>Download completion certificate (.pdf)</a></p><script>setTimeout(function () {  if (confirm('You passed! Download your completion certificate PDF now?')) {    window.location.href = '/certificate/");
    reveal_strlit("';  }}, 300);</script>");
    reveal_strlit("ID: <code>");
    reveal_strlit("</code>");
    reveal_strlit("<a href='/certificate/");
    reveal_strlit("' download>");
    reveal_strlit("window.location.href = '/certificate/");
    reveal_strlit("';");
    let c0 = RESULT_CERT_0@;
    let c1 = RESULT_CERT_1@;
    let c2 = RESULT_CERT_2@;
    let c3 = RESULT_CERT_3@;
    let pre = RESULT_PAGE_0@ + (if attempt.passed {
        "PASS"@
    } else {
        "FAIL"@
    }) + RESULT_PAGE_1@ + decimal(attempt.score as nat) + RESULT_PAGE_2@ + decimal(
        attempt.total as nat,
    ) + RESULT_PAGE_3@ + percent_text + RESULT_PAGE_4@;
    let post = RESULT_PAGE_5@;
    let page = result_page_html(ResultLookup::Found(attempt), percent_text);
    assert(page == pre + c0 + id@ + c1 + id@ + c2 + id@ + c3 + post);

    let code_open = "ID: <code>"@;
    let code_close = "</code>"@;
    let link_open = "<a href='/certificate/"@;
    let link_close = "' download>"@;
    let script_open = "window.location.href = '/certificate/"@;
    let script_close = "';"@;

    let c0_head = c0.subrange(0, c0.len() - code_open.len());
    assert(c0 =~= c0_head + code_open);
    let c1_tail = c1.subrange(code_close.len() as int, c1.len() as int);
    assert(c1 =~= code_close + c1_tail);
    let c1_head = c1.subrange(0, c1.len() - link_open.len());
    assert(c1 =~= c1_head + link_open);
    let c2_tail = c2.subrange(link_close.len() as int, c2.len() as int);
    assert(c2 =~= link_close + c2_tail);
    let c2_head = c2.subrange(0, c2.len() - script_open.len());
    assert(c2 =~= c2_head + script_open);
    let c3_tail = c3.subrange(script_close.len() as int, c3.len() as int);
    assert(c3 =~= script_close + c3_tail);

    let p1 = pre + c0_head;
    let q1 = c1_tail + id@ + c2 + id@ + c3 + post;
    assert(page =~= p1 + code_open + id@ + code_close + q1);
    let p2 = pre + c0 + id@ + c1_head;
    let q2 = c2_tail + id@ + c3 + post;
    assert(page =~= p2 + link_open + id@ + link_close + q2);
    let p3 = pre + c0 + id@ + c1 + id@ + c2_head;
    let q3 = c3_tail + post;
    assert(page =~= p3 + script_open + id@ + script_close + q3);
}

} // verus!
