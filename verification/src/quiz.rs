//! The quiz: its questions, reading submitted answers, choosing questions by
//! id, and scoring against the passing threshold.

use vstd::prelude::*;
use crate::strmap::StrMap;
use crate::text::{
    chars_of, decimal, join_with, lemma_decimal_injective, lemma_parse_decimal, lemma_split_join,
    parse_usize, parse_usize_spec, push_char, push_decimal, split_on,
};

verus! {

/// The passing threshold, in percent of the questions answered correctly.
pub const PASS_THRESHOLD_PERCENT: u128 = 80;

/// A multiple-choice question with four choices and the index of the correct one.
#[derive(Clone, Copy, Debug)]
pub struct Question {
    pub id: &'static str,
    pub prompt: &'static str,
    pub choices: [&'static str; 4],
    pub correct: usize,
}

/// The outcome of scoring one attempt.
#[derive(Clone, Copy, Debug)]
pub struct QuizEvaluation {
    pub score: usize,
    pub total: usize,
    pub passed: bool,
}

/// The form field that carries the answer to the question at position `idx`:
/// `q` followed by the decimal form of `idx`.
pub open spec fn answer_key_spec(idx: nat) -> Seq<char> {
    seq!['q'] + decimal(idx)
}

/// Whether a form field's name marks it as an answer: it starts with `q`.
pub open spec fn is_answer_field(key: Seq<char>) -> bool {
    key.len() > 0 && key[0] == 'q'
}

/// The answers read from raw form fields: every field whose name starts with
/// `q` and whose value parses as a `usize`, with that number.
pub open spec fn parsed_answers(raw: Map<Seq<char>, String>) -> Map<Seq<char>, usize> {
    Map::new(
        |k: Seq<char>| raw.contains_key(k) && is_answer_field(k) && parse_usize_spec(raw[k]@) is Some,
        |k: Seq<char>| parse_usize_spec(raw[k]@).unwrap(),
    )
}

/// Whether the question at position `idx` is answered correctly.
pub open spec fn answered_correctly(q: Question, idx: nat, answers: Map<Seq<char>, usize>) -> bool {
    answers.contains_key(answer_key_spec(idx)) && answers[answer_key_spec(idx)] == q.correct
}

/// The number of questions answered correctly, each looked up under its position.
pub open spec fn quiz_score(questions: Seq<Question>, answers: Map<Seq<char>, usize>) -> nat
    decreases questions.len(),
{
    if questions.len() == 0 {
        0
    } else {
        quiz_score(questions.drop_last(), answers) + if answered_correctly(
            questions.last(),
            (questions.len() - 1) as nat,
            answers,
        ) {
            1nat
        } else {
            0nat
        }
    }
}

/// Whether `score` correct answers out of `total` pass: at least the threshold
/// percentage, with at least one question.
pub open spec fn passes(score: nat, total: nat) -> bool {
    total > 0 && score * 100 >= PASS_THRESHOLD_PERCENT * total
}

/// The first question of `bank` whose id is `id`.
pub open spec fn first_with_id(bank: Seq<Question>, id: Seq<char>) -> Option<Question>
    decreases bank.len(),
{
    if bank.len() == 0 {
        None
    } else if bank[0].id@ == id {
        Some(bank[0])
    } else {
        first_with_id(bank.drop_first(), id)
    }
}

/// For each id in order, the first question of `bank` that has it; ids that
/// match no question are skipped.
pub open spec fn select_by_ids(bank: Seq<Question>, ids: Seq<Seq<char>>) -> Seq<Question>
    decreases ids.len(),
{
    if ids.len() == 0 {
        Seq::empty()
    } else {
        let rest = select_by_ids(bank, ids.drop_last());
        match first_with_id(bank, ids.last()) {
            Some(q) => rest.push(q),
            None => rest,
        }
    }
}

/// The name of the form field that carries the answer to question `idx`.
pub fn answer_key(idx: usize) -> (key: String)
    ensures
        key@ == answer_key_spec(idx as nat),
{
    let mut key = String::new();
    push_char(&mut key, 'q');
    push_decimal(&mut key, idx);
    key
}

/// Whether `key` starts with `q`.
fn starts_with_q(key: &str) -> (b: bool)
    ensures
        b == is_answer_field(key@),
{
    let cs = chars_of(key);
    cs.len() > 0 && cs[0] == 'q'
}

/// Keeps the answer fields of a submitted form: each field whose name starts
/// with `q` and whose value is a number, with that number. Other fields, and
/// answers that are not numbers, are left out.
pub fn parse_answers(raw_answers: &StrMap<String>) -> (parsed: StrMap<usize>)
    ensures
        parsed@ == parsed_answers(raw_answers@),
{
    let mut parsed: StrMap<usize> = StrMap::new();
    let n = raw_answers.len();
    let ghost keys = raw_answers.key_seq();
    for i in 0..n
        invariant
            n == keys.len(),
            keys == raw_answers.key_seq(),
            keys.no_duplicates(),
            forall|k: int| 0 <= k < n ==> #[trigger] raw_answers@.contains_key(keys[k]),
            forall|k: Seq<char>| #[trigger] parsed@.contains_key(k) <==> (
                keys.take(i as int).contains(k) && parsed_answers(raw_answers@).contains_key(k)),
            forall|k: Seq<char>| #[trigger] parsed@.contains_key(k) ==> parsed@[k]
                == parsed_answers(raw_answers@)[k],
    {
        let (key, value) = raw_answers.entry(i);
        assert(keys.take(i + 1) =~= keys.take(i as int).push(key@));
        assert(!keys.take(i as int).contains(key@)) by {
            if keys.take(i as int).contains(key@) {
                let j = choose|j: int| 0 <= j < i && keys.take(i as int)[j] == key@;
                assert(keys[j] == keys[i as int]);
            }
        }
        assert(forall|k: Seq<char>| k != key@ ==> (keys.take(i + 1).contains(k) == keys.take(i as int).contains(k)));
        let val = if starts_with_q(key.as_str()) {
            parse_usize(value.as_str())
        } else {
            None
        };
        assert(parsed_answers(raw_answers@).contains_key(key@) == val.is_some());
        assert(val.is_some() ==> parsed_answers(raw_answers@)[key@] == val.unwrap());
        let ghost before = parsed@;
        match val {
            Some(v) => {
                parsed.insert(key.clone(), v);
            },
            None => {},
        }
        assert forall|k: Seq<char>| #[trigger] parsed@.contains_key(k) <==> (keys.take(
            i + 1,
        ).contains(k) && parsed_answers(raw_answers@).contains_key(k)) by {
            if k != key@ {
                assert(parsed@.contains_key(k) == before.contains_key(k));
                assert(keys.take(i + 1).contains(k) == keys.take(i as int).contains(k));
            } else {
                assert(keys.take(i + 1)[i as int] == key@);
                assert(!before.contains_key(key@));
            }
        }
    }
    assert(keys.take(n as int) =~= keys);
    assert(parsed@ =~= parsed_answers(raw_answers@));
    parsed
}

/// The whole question bank, in its stable order: every attempt is given every
/// question.
pub fn choose_quiz_questions(question_bank: &[Question]) -> (chosen: Vec<Question>)
    ensures
        chosen@ == question_bank@,
{
    let mut chosen: Vec<Question> = Vec::new();
    let n = question_bank.len();
    for i in 0..n
        invariant
            n == question_bank@.len(),
            chosen@ == question_bank@.take(i as int),
    {
        chosen.push(question_bank[i]);
        assert(chosen@ =~= question_bank@.take(i + 1));
    }
    assert(question_bank@.take(n as int) =~= question_bank@);
    chosen
}

/// The first question of `bank` with id `id`.
fn find_question(bank: &[Question], id: &String) -> (r: Option<Question>)
    ensures
        r == first_with_id(bank@, id@),
{
    let n = bank.len();
    let mut j: usize = 0;
    assert(bank@.skip(0) =~= bank@);
    while j < n
        invariant
            n == bank@.len(),
            j <= n,
            first_with_id(bank@, id@) == first_with_id(bank@.skip(j as int), id@),
        decreases n - j,
    {
        let q = bank[j];
        let qid = q.id.to_owned();
        assert(bank@.skip(j as int)[0] == q);
        if qid == *id {
            return Some(q);
        }
        assert(bank@.skip(j as int).drop_first() =~= bank@.skip(j + 1));
        j = j + 1;
    }
    assert(bank@.skip(j as int).len() == 0);
    None
}

/// The questions named by a comma-separated list of ids, in the order of the
/// list; an id that names no question of the bank is skipped.
pub fn select_questions_by_id(question_bank: &[Question], raw_ids: &str) -> (selected: Vec<
    Question,
>)
    ensures
        selected@ == select_by_ids(question_bank@, split_on(raw_ids@, ',')),
{
    let cs = chars_of(raw_ids);
    let n = cs.len();
    let mut selected: Vec<Question> = Vec::new();
    let mut piece = String::new();
    assert(cs@.take(0) =~= Seq::<char>::empty());
    for i in 0..n
        invariant
            n == cs@.len(),
            cs@ == raw_ids@,
            selected@ == select_by_ids(question_bank@, split_on(cs@.take(i as int), ',').drop_last()),
            piece@ == split_on(cs@.take(i as int), ',').last(),
            split_on(cs@.take(i as int), ',').len() > 0,
    {
        let c = cs[i];
        let ghost before = split_on(cs@.take(i as int), ',');
        assert(cs@.take(i + 1).drop_last() =~= cs@.take(i as int));
        assert(cs@.take(i + 1).last() == c);
        if c == ',' {
            match find_question(question_bank, &piece) {
                Some(q) => {
                    selected.push(q);
                },
                None => {},
            }
            piece = String::new();
            assert(split_on(cs@.take(i + 1), ',') == before.push(Seq::empty()));
            assert(split_on(cs@.take(i + 1), ',').drop_last() =~= before);
            assert(before =~= before.drop_last().push(before.last()));
        } else {
            push_char(&mut piece, c);
            let ghost after = split_on(cs@.take(i + 1), ',');
            assert(after == before.update(before.len() - 1, before.last().push(c)));
            assert(after.drop_last() =~= before.drop_last());
        }
    }
    assert(cs@.take(n as int) =~= cs@);
    let ghost all = split_on(cs@, ',');
    match find_question(question_bank, &piece) {
        Some(q) => {
            selected.push(q);
        },
        None => {},
    }
    assert(all =~= all.drop_last().push(all.last()));
    selected
}

/// Scores an attempt: a question counts as correct when the answer stored
/// under its field (`q` and its position) is its correct choice; a missing
/// answer counts as incorrect. The attempt passes when at least the threshold
/// percentage of at least one question is correct.
pub fn evaluate_quiz(questions: &[Question], answers: &StrMap<usize>) -> (evaluation: QuizEvaluation)
    ensures
        evaluation.score == quiz_score(questions@, answers@),
        evaluation.total == questions@.len(),
        evaluation.passed == passes(evaluation.score as nat, evaluation.total as nat),
        evaluation.score <= evaluation.total,
{
    let n = questions.len();
    let mut score: usize = 0;
    for i in 0..n
        invariant
            n == questions@.len(),
            score == quiz_score(questions@.take(i as int), answers@),
            score <= i,
    {
        let key = answer_key(i);
        let q = questions[i];
        assert(questions@.take(i + 1).drop_last() =~= questions@.take(i as int));
        assert(questions@.take(i + 1).last() == q);
        match answers.get(key.as_str()) {
            Some(a) => {
                if *a == q.correct {
                    score = score + 1;
                }
            },
            None => {},
        }
    }
    assert(questions@.take(n as int) =~= questions@);
    let passed = n > 0 && (score as u128) * 100 >= PASS_THRESHOLD_PERCENT * (n as u128);
    QuizEvaluation { score, total: n, passed }
}

/// The ids of `questions`, in order.
pub open spec fn question_ids(questions: Seq<Question>) -> Seq<Seq<char>> {
    questions.map_values(|q: Question| q.id@)
}

/// No two questions share an id, and no id holds a comma.
pub open spec fn ids_are_listable(questions: Seq<Question>) -> bool {
    &&& question_ids(questions).no_duplicates()
    &&& forall|i: int| 0 <= i < questions.len() ==> !(#[trigger] questions[i].id@).contains(',')
}

/// Answer fields for distinct positions have distinct names.
pub proof fn lemma_answer_keys_distinct(a: nat, b: nat)
    ensures
        answer_key_spec(a) == answer_key_spec(b) ==> a == b,
{
    if answer_key_spec(a) == answer_key_spec(b) {
        assert(decimal(a) =~= answer_key_spec(a).drop_first());
        assert(decimal(b) =~= answer_key_spec(b).drop_first());
        lemma_decimal_injective(a, b);
    }
}

/// A full set of answers: the correct choice of every question, each under
/// the field for its position.
pub fn correct_answers(questions: &[Question]) -> (answers: StrMap<usize>)
    ensures
        forall|i: int|
            0 <= i < questions@.len() ==> #[trigger] answers@.contains_key(answer_key_spec(i as nat))
                && answers@[answer_key_spec(i as nat)] == questions@[i].correct,
        forall|k: Seq<char>| #[trigger]
            answers@.contains_key(k) ==> exists|i: nat|
                i < questions@.len() && k == #[trigger] answer_key_spec(i),
{
    let mut answers: StrMap<usize> = StrMap::new();
    let n = questions.len();
    let mut i: usize = 0;
    while i < n
        invariant
            n == questions@.len(),
            i <= n,
            forall|j: int|
                0 <= j < i ==> #[trigger] answers@.contains_key(answer_key_spec(j as nat))
                    && answers@[answer_key_spec(j as nat)] == questions@[j].correct,
            forall|k: Seq<char>| #[trigger]
                answers@.contains_key(k) ==> exists|j: nat| j < i && k == #[trigger] answer_key_spec(j),
        decreases n - i,
    {
        let key = answer_key(i);
        let ghost before = answers@;
        answers.insert(key, questions[i].correct);
        proof {
            assert forall|k: Seq<char>| #[trigger] answers@.contains_key(k) implies exists|j: nat|
                j < i + 1 && k == #[trigger] answer_key_spec(j) by {
                if k == answer_key_spec(i as nat) {
                    assert((i as nat) < i + 1 && k == answer_key_spec(i as nat));
                } else {
                    assert(before.contains_key(k));
                }
            }
            assert forall|j: int|
                0 <= j < i + 1 implies #[trigger] answers@.contains_key(answer_key_spec(j as nat))
                && answers@[answer_key_spec(j as nat)] == questions@[j].correct by {
                if j < i {
                    lemma_answer_keys_distinct(j as nat, i as nat);
                    assert(before.contains_key(answer_key_spec(j as nat)));
                }
            }
        }
        i = i + 1;
    }
    answers
}

/// Answering every question with its correct choice scores every question.
pub proof fn lemma_all_correct_scores_all(questions: Seq<Question>, answers: Map<Seq<char>, usize>)
    requires
        forall|i: int|
            0 <= i < questions.len() ==> answered_correctly(#[trigger] questions[i], i as nat, answers),
    ensures
        quiz_score(questions, answers) == questions.len(),
        questions.len() > 0 ==> passes(quiz_score(questions, answers), questions.len()),
    decreases questions.len(),
{
    if questions.len() > 0 {
        let p = questions.drop_last();
        assert forall|i: int| 0 <= i < p.len() implies answered_correctly(#[trigger] p[i], i as nat, answers) by {
            assert(p[i] == questions[i]);
        }
        lemma_all_correct_scores_all(p, answers);
        assert(answered_correctly(questions[questions.len() - 1], (questions.len() - 1) as nat, answers));
    }
}

/// Raising the score on the same questions never turns a pass into a fail.
pub proof fn lemma_passing_is_monotone(score: nat, better: nat, total: nat)
    requires
        passes(score, total),
        score <= better,
    ensures
        passes(better, total),
{
}

proof fn lemma_score_agrees(qs: Seq<Question>, m1: Map<Seq<char>, usize>, m2: Map<Seq<char>, usize>, i: int)
    requires
        0 <= i,
        forall|j: int|
            #![trigger qs[j]]
            0 <= j < qs.len() && j != i ==> answered_correctly(qs[j], j as nat, m1) == answered_correctly(
                qs[j],
                j as nat,
                m2,
            ),
    ensures
        i < qs.len() ==> quiz_score(qs, m1) + (if answered_correctly(qs[i], i as nat, m2) {
            1int
        } else {
            0int
        }) == quiz_score(qs, m2) + (if answered_correctly(qs[i], i as nat, m1) {
            1int
        } else {
            0int
        }),
        i >= qs.len() ==> quiz_score(qs, m1) == quiz_score(qs, m2),
    decreases qs.len(),
{
    if qs.len() > 0 {
        let p = qs.drop_last();
        assert forall|j: int| #![trigger p[j]] 0 <= j < p.len() && j != i implies answered_correctly(
            p[j],
            j as nat,
            m1,
        ) == answered_correctly(p[j], j as nat, m2) by {
            assert(p[j] == qs[j]);
        }
        lemma_score_agrees(p, m1, m2, i);
        let last = (qs.len() - 1) as int;
        assert(qs.last() == qs[last]);
        if i < last {
            assert(p[i] == qs[i]);
        }
    }
}

/// A wrong answer counts for nothing: storing, under a question's field, a
/// choice other than its correct one gives the same score as leaving the
/// question unanswered, whether the choice is smaller or larger.
pub proof fn lemma_wrong_answer_scores_nothing(
    questions: Seq<Question>,
    answers: Map<Seq<char>, usize>,
    i: int,
    choice: usize,
)
    requires
        0 <= i < questions.len(),
        choice != questions[i].correct,
    ensures
        quiz_score(questions, answers.insert(seq!['q'] + decimal(i as nat), choice)) == quiz_score(
            questions,
            answers.remove(seq!['q'] + decimal(i as nat)),
        ),
{
    let k = seq!['q'] + decimal(i as nat);
    let m1 = answers.insert(k, choice);
    let m2 = answers.remove(k);
    assert forall|j: int|
        #![trigger questions[j]]
        0 <= j < questions.len() && j != i implies answered_correctly(questions[j], j as nat, m1)
        == answered_correctly(questions[j], j as nat, m2) by {
        lemma_answer_keys_distinct(j as nat, i as nat);
    }
    lemma_score_agrees(questions, m1, m2, i);
}

/// The right answer counts for exactly one: storing a question's correct
/// choice under its field scores one more than leaving it unanswered.
pub proof fn lemma_right_answer_scores_one(questions: Seq<Question>, answers: Map<Seq<char>, usize>, i: int)
    requires
        0 <= i < questions.len(),
    ensures
        quiz_score(questions, answers.insert(seq!['q'] + decimal(i as nat), questions[i].correct))
            == quiz_score(questions, answers.remove(seq!['q'] + decimal(i as nat))) + 1,
{
    let k = seq!['q'] + decimal(i as nat);
    let m1 = answers.insert(k, questions[i].correct);
    let m2 = answers.remove(k);
    assert forall|j: int|
        #![trigger questions[j]]
        0 <= j < questions.len() && j != i implies answered_correctly(questions[j], j as nat, m1)
        == answered_correctly(questions[j], j as nat, m2) by {
        lemma_answer_keys_distinct(j as nat, i as nat);
    }
    lemma_score_agrees(questions, m1, m2, i);
}

/// When no field `q<i>` holds the correct choice of question `i`, the score is zero.
pub proof fn lemma_wrong_answers_score_zero(questions: Seq<Question>, answers: Map<Seq<char>, usize>)
    requires
        forall|i: int|
            #![trigger questions[i]]
            0 <= i < questions.len() ==> !(answers.contains_key(seq!['q'] + decimal(i as nat))
                && answers[seq!['q'] + decimal(i as nat)] == questions[i].correct),
    ensures
        quiz_score(questions, answers) == 0,
    decreases questions.len(),
{
    if questions.len() > 0 {
        let p = questions.drop_last();
        assert forall|i: int| #![trigger p[i]] 0 <= i < p.len() implies !(answers.contains_key(
            seq!['q'] + decimal(i as nat),
        ) && answers[seq!['q'] + decimal(i as nat)] == p[i].correct) by {
            assert(p[i] == questions[i]);
        }
        lemma_wrong_answers_score_zero(p, answers);
        assert(questions.last() == questions[questions.len() - 1]);
    }
}

/// The score counts right answers and nothing else: it is the number of
/// positions `i` whose field `q<i>` holds exactly the correct choice of
/// question `i`.
pub proof fn lemma_score_counts_right_answers(questions: Seq<Question>, answers: Map<Seq<char>, usize>)
    ensures
        Set::new(
            |i: int|
                0 <= i < questions.len() && answers.contains_key(seq!['q'] + decimal(i as nat))
                    && answers[seq!['q'] + decimal(i as nat)] == questions[i].correct,
        ).finite(),
        quiz_score(questions, answers) == Set::new(
            |i: int|
                0 <= i < questions.len() && answers.contains_key(seq!['q'] + decimal(i as nat))
                    && answers[seq!['q'] + decimal(i as nat)] == questions[i].correct,
        ).len(),
    decreases questions.len(),
{
    let right = Set::new(
        |i: int|
            0 <= i < questions.len() && answers.contains_key(seq!['q'] + decimal(i as nat))
                && answers[seq!['q'] + decimal(i as nat)] == questions[i].correct,
    );
    if questions.len() == 0 {
        assert(right =~= Set::empty());
    } else {
        let p = questions.drop_last();
        let last = (questions.len() - 1) as int;
        let before = Set::new(
            |i: int|
                0 <= i < p.len() && answers.contains_key(seq!['q'] + decimal(i as nat))
                    && answers[seq!['q'] + decimal(i as nat)] == p[i].correct,
        );
        lemma_score_counts_right_answers(p, answers);
        assert(questions.last() == questions[last]);
        if answered_correctly(questions[last], last as nat, answers) {
            assert forall|i: int| right.contains(i) <==> before.insert(last).contains(i) by {
                if 0 <= i < p.len() {
                    assert(p[i] == questions[i]);
                }
            }
            assert(right =~= before.insert(last));
            assert(!before.contains(last));
        } else {
            assert forall|i: int| right.contains(i) <==> before.contains(i) by {
                if 0 <= i < p.len() {
                    assert(p[i] == questions[i]);
                }
            }
            assert(right =~= before);
        }
    }
}

/// The passing rule in numbers: at least one question, and at least 80 of
/// every 100 answered correctly.
pub proof fn lemma_pass_rule(score: nat, total: nat)
    ensures
        passes(score, total) <==> (total > 0 && 100 * score >= 80 * total),
        total > 0 && 5 * score >= 4 * total ==> passes(score, total),
        total > 0 && 5 * score < 4 * total ==> !passes(score, total),
{
}

/// With no answers at all, no question is answered correctly.
pub proof fn lemma_no_answers_scores_zero(questions: Seq<Question>)
    ensures
        quiz_score(questions, Map::empty()) == 0,
        !passes(quiz_score(questions, Map::empty()), questions.len()),
    decreases questions.len(),
{
    if questions.len() > 0 {
        lemma_no_answers_scores_zero(questions.drop_last());
    }
}

proof fn lemma_first_with_id(bank: Seq<Question>, i: int)
    requires
        0 <= i < bank.len(),
        question_ids(bank).no_duplicates(),
    ensures
        first_with_id(bank, bank[i].id@) == Some(bank[i]),
    decreases bank.len(),
{
    if i == 0 {
    } else {
        let rest = bank.drop_first();
        assert(question_ids(rest) =~= question_ids(bank).drop_first());
        assert(question_ids(bank)[0] != question_ids(bank)[i]);
        assert(rest[i - 1] == bank[i]);
        lemma_first_with_id(rest, i - 1);
    }
}

proof fn lemma_select_own_ids(bank: Seq<Question>, k: int)
    requires
        0 <= k <= bank.len(),
        question_ids(bank).no_duplicates(),
    ensures
        select_by_ids(bank, question_ids(bank).take(k)) == bank.take(k),
    decreases k,
{
    if k > 0 {
        lemma_select_own_ids(bank, k - 1);
        assert(question_ids(bank).take(k).drop_last() =~= question_ids(bank).take(k - 1));
        lemma_first_with_id(bank, k - 1);
        assert(bank.take(k) =~= bank.take(k - 1).push(bank[k - 1]));
    } else {
        assert(bank.take(0) =~= Seq::<Question>::empty());
    }
}

/// The ids of a list of questions, joined with commas, select exactly those
/// questions again, in the same order, from a bank that holds them with
/// distinct, comma-free ids.
pub proof fn lemma_select_listed_ids(bank: Seq<Question>)
    requires
        ids_are_listable(bank),
    ensures
        select_by_ids(bank, split_on(join_with(question_ids(bank), ','), ',')) == bank,
{
    if bank.len() > 0 {
        assert forall|i: int| 0 <= i < question_ids(bank).len() implies !(#[trigger] question_ids(
            bank,
        )[i]).contains(',') by {
            assert(question_ids(bank)[i] == bank[i].id@);
        }
        lemma_split_join(question_ids(bank), ',');
        lemma_select_own_ids(bank, bank.len() as int);
        assert(question_ids(bank).take(bank.len() as int) =~= question_ids(bank));
        assert(bank.take(bank.len() as int) =~= bank);
    } else {
        assert(join_with(question_ids(bank), ',') =~= Seq::<char>::empty());
        let ids = seq![Seq::<char>::empty()];
        assert(ids.drop_last() =~= Seq::<Seq<char>>::empty());
        assert(select_by_ids(bank, ids.drop_last()) == Seq::<Question>::empty());
        assert(first_with_id(bank, ids.last()) is None);
        assert(split_on(Seq::<char>::empty(), ',') == ids);
        assert(select_by_ids(bank, ids) =~= bank);
    }
}

/// A choice index written in decimal as the value of its answer field is read
/// back as that index.
pub proof fn lemma_written_choice_reads_back(raw: Map<Seq<char>, String>, idx: nat, choice: usize)
    requires
        raw.contains_key(answer_key_spec(idx)),
        raw[answer_key_spec(idx)]@ == decimal(choice as nat),
    ensures
        parsed_answers(raw).contains_key(answer_key_spec(idx)),
        parsed_answers(raw)[answer_key_spec(idx)] == choice,
{
    lemma_parse_decimal(choice as nat);
}

/// The seeded question bank, in its stable order.
pub open spec fn seed_question_bank() -> Seq<Question> {
    seq![
        Question {
            id: "module-one-lemme-smang-it-meaning",
            prompt: "In the context of software threat vectors, what does “lemme smang it” really mean?",
            choices: [
                "Please allow this unsigned executable to run with administrator privileges.",
                "Let me bypass input validation and inject something spicy into your backend.",
                "I found an exposed debug port and would like to introduce myself.",
                "This third-party dependency looks trustworthy because the README has badges.",
            ],
            correct: 1,
        },
        Question {
            id: "module-one-smash-bang-fusion",
            prompt: "In Git, how can “smash bang fusion” be correctly implemented safely when merging branches with conflicts?",
            choices: [
                "Run git merge, see conflict markers, delete the weird-looking lines, and commit whatever still compiles.",
                "Force-push main over everyone else’s work because true fusion requires dominance.",
                "Carefully review each conflict, understand both sides of the change, resolve the file intentionally, run the tests, then commit the merge.",
                "Accept all incoming changes because the other branch probably had more confidence.",
            ],
            correct: 2,
        },
        Question {
            id: "module-one-be-cautious",
            prompt: "What does “you should be cautious, but don’t be scary — Imma have you looking like a Wild Thornberry” mean when dealing with thread safety and lifetimes?",
            choices: [
                "Share references across threads freely; the borrow checker is just being dramatic.",
                "Use static mut for shared state because nothing says “cautious” like global chaos.",
                "Ensure shared data satisfies the right lifetime, Send, and Sync requirements, and use safe synchronization primitives like Arc<Mutex<T>> or Arc<RwLock<T>> when ownership crosses thread boundaries.",
                "Add lifetime annotations everywhere until the code looks like it was attacked by punctuation.",
            ],
            correct: 2,
        },
        Question {
            id: "module-two-liquid-slam-avoidance",
            prompt: "In software development, how do you avoid creating a “liquid slam monster” in your repository?",
            choices: [
                "Keep adding features directly into main until the codebase begins begging for deletion.",
                "Copy-paste the same logic into five places because consistency is a future problem.",
                "Maintain clear module boundaries, write tests, document intent, refactor deliberately, review changes carefully, and keep technical debt visible instead of letting it mutate in the basement.",
                "Rename every variable to x, thing, or final_final_real_v2 so nobody gets emotionally attached.",
            ],
            correct: 2,
        },
        Question {
            id: "module-two-liquid-slam-causes",
            prompt: "What common pitfall most often leads to unknown “liquid slam monsters” hiding in a repository?",
            choices: [
                "Time crunches that turn “we’ll clean it up later” into permanent architecture.",
                "Skipping tests because the demo worked once on somebody’s laptop.",
                "Copy-pasting code without understanding it, then building new features on top of it.",
                "All of the above.",
            ],
            correct: 3,
        },
        Question {
            id: "module-three-look-how-good-he-mind-me-meaning",
            prompt: "In software testing, what does “Look how good he mind me” really mean when you see code work one time during a manual demo?",
            choices: [
                "The code obeyed once, so it is obviously production-ready and should be merged immediately.",
                "The happy path worked, but that does not prove the code handles edge cases, invalid inputs, failures, or future regressions.",
                "Unit tests are unnecessary if the developer says, “It worked on my machine,” with enough confidence.",
                "The code has formed an emotional bond with the tester and will continue behaving out of loyalty.",
            ],
            correct: 1,
        },
        Question {
            id: "module-three-you-gon-get-wet",
            prompt: "In software development, what does “Don’t go in that damn water, I’m over here, don’t go, you gon get wet” really mean?",
            choices: [
                "Ignore warnings from senior engineers because the forbidden water probably has better architecture.",
                "Avoid known risky areas of the codebase unless you understand the impact, have tests in place, and know how to recover if things break.",
                "Jump straight into production changes because getting wet is how you learn.",
                "Disable CI checks so the repository stops yelling about puddles.",
            ],
            correct: 1,
        },
        Question {
            id: "module-three-feet-wet",
            prompt: "In software development, what does “He got his damn feet wet, now shit dog” mean after someone ignores the warning signs?",
            choices: [
                "A small “harmless” change touched risky code and now the team is discovering hidden side effects.",
                "The developer successfully hydrated the repository, which improves runtime moisture content.",
                "Production incidents are fine as long as the commit message says “minor cleanup.”",
                "The correct fix is to panic-revert everything without reading the logs.",
            ],
            correct: 0,
        },
        Question {
            id: "module-three-crank-the-vibe",
            prompt: "In software project management, what does “I ain’t not buying your shit” usually mean when a team is trying to deliver a project?",
            choices: [
                "Leadership expects the project to succeed but refuses to fund the tools, staffing, licenses, hardware, training, test equipment, or schedule needed to do it correctly.",
                "The team should simply increase velocity by believing harder.",
                "The correct engineering response is to remove testing, documentation, and code review so the budget feels respected.",
                "If the project fails, everyone should act surprised and schedule a lessons-learned meeting called “Unexpected Outcomes.”",
            ],
            correct: 0,
        },
    
    ]
}

/// The seeded question bank: nine questions, each with a stable id, a prompt,
/// four choices and the zero-based index of the correct choice.
pub fn seed_questions() -> (questions: Vec<Question>)
    ensures
        questions@ == seed_question_bank(),
{
    vec![
        Question {
            id: "module-one-lemme-smang-it-meaning",
            prompt: "In the context of software threat vectors, what does “lemme smang it” really mean?",
            choices: [
                "Please allow this unsigned executable to run with administrator privileges.",
                "Let me bypass input validation and inject something spicy into your backend.",
                "I found an exposed debug port and would like to introduce myself.",
                "This third-party dependency looks trustworthy because the README has badges.",
            ],
            correct: 1,
        },
        Question {
            id: "module-one-smash-bang-fusion",
            prompt: "In Git, how can “smash bang fusion” be correctly implemented safely when merging branches with conflicts?",
            choices: [
                "Run git merge, see conflict markers, delete the weird-looking lines, and commit whatever still compiles.",
                "Force-push main over everyone else’s work because true fusion requires dominance.",
                "Carefully review each conflict, understand both sides of the change, resolve the file intentionally, run the tests, then commit the merge.",
                "Accept all incoming changes because the other branch probably had more confidence.",
            ],
            correct: 2,
        },
        Question {
            id: "module-one-be-cautious",
            prompt: "What does “you should be cautious, but don’t be scary — Imma have you looking like a Wild Thornberry” mean when dealing with thread safety and lifetimes?",
            choices: [
                "Share references across threads freely; the borrow checker is just being dramatic.",
                "Use static mut for shared state because nothing says “cautious” like global chaos.",
                "Ensure shared data satisfies the right lifetime, Send, and Sync requirements, and use safe synchronization primitives like Arc<Mutex<T>> or Arc<RwLock<T>> when ownership crosses thread boundaries.",
                "Add lifetime annotations everywhere until the code looks like it was attacked by punctuation.",
            ],
            correct: 2,
        },
        Question {
            id: "module-two-liquid-slam-avoidance",
            prompt: "In software development, how do you avoid creating a “liquid slam monster” in your repository?",
            choices: [
                "Keep adding features directly into main until the codebase begins begging for deletion.",
                "Copy-paste the same logic into five places because consistency is a future problem.",
                "Maintain clear module boundaries, write tests, document intent, refactor deliberately, review changes carefully, and keep technical debt visible instead of letting it mutate in the basement.",
                "Rename every variable to x, thing, or final_final_real_v2 so nobody gets emotionally attached.",
            ],
            correct: 2,
        },
        Question {
            id: "module-two-liquid-slam-causes",
            prompt: "What common pitfall most often leads to unknown “liquid slam monsters” hiding in a repository?",
            choices: [
                "Time crunches that turn “we’ll clean it up later” into permanent architecture.",
                "Skipping tests because the demo worked once on somebody’s laptop.",
                "Copy-pasting code without understanding it, then building new features on top of it.",
                "All of the above.",
            ],
            correct: 3,
        },
        Question {
            id: "module-three-look-how-good-he-mind-me-meaning",
            prompt: "In software testing, what does “Look how good he mind me” really mean when you see code work one time during a manual demo?",
            choices: [
                "The code obeyed once, so it is obviously production-ready and should be merged immediately.",
                "The happy path worked, but that does not prove the code handles edge cases, invalid inputs, failures, or future regressions.",
                "Unit tests are unnecessary if the developer says, “It worked on my machine,” with enough confidence.",
                "The code has formed an emotional bond with the tester and will continue behaving out of loyalty.",
            ],
            correct: 1,
        },
        Question {
            id: "module-three-you-gon-get-wet",
            prompt: "In software development, what does “Don’t go in that damn water, I’m over here, don’t go, you gon get wet” really mean?",
            choices: [
                "Ignore warnings from senior engineers because the forbidden water probably has better architecture.",
                "Avoid known risky areas of the codebase unless you understand the impact, have tests in place, and know how to recover if things break.",
                "Jump straight into production changes because getting wet is how you learn.",
                "Disable CI checks so the repository stops yelling about puddles.",
            ],
            correct: 1,
        },
        Question {
            id: "module-three-feet-wet",
            prompt: "In software development, what does “He got his damn feet wet, now shit dog” mean after someone ignores the warning signs?",
            choices: [
                "A small “harmless” change touched risky code and now the team is discovering hidden side effects.",
                "The developer successfully hydrated the repository, which improves runtime moisture content.",
                "Production incidents are fine as long as the commit message says “minor cleanup.”",
                "The correct fix is to panic-revert everything without reading the logs.",
            ],
            correct: 0,
        },
        Question {
            id: "module-three-crank-the-vibe",
            prompt: "In software project management, what does “I ain’t not buying your shit” usually mean when a team is trying to deliver a project?",
            choices: [
                "Leadership expects the project to succeed but refuses to fund the tools, staffing, licenses, hardware, training, test equipment, or schedule needed to do it correctly.",
                "The team should simply increase velocity by believing harder.",
                "The correct engineering response is to remove testing, documentation, and code review so the budget feels respected.",
                "If the project fails, everyone should act surprised and schedule a lessons-learned meeting called “Unexpected Outcomes.”",
            ],
            correct: 0,
        },
    
    ]
}

/// The seeded questions have distinct, comma-free ids, and each correct index
/// names one of the four choices.
pub proof fn lemma_seed_questions_well_formed()
    ensures
        ids_are_listable(seed_question_bank()),
        forall|i: int| 0 <= i < seed_question_bank().len() ==> #[trigger] seed_question_bank()[i].correct < 4,
{
    reveal_strlit("module-one-lemme-smang-it-meaning");
    reveal_strlit("module-one-smash-bang-fusion");
    reveal_strlit("module-one-be-cautious");
    reveal_strlit("module-two-liquid-slam-avoidance");
    reveal_strlit("module-two-liquid-slam-causes");
    reveal_strlit("module-three-look-how-good-he-mind-me-meaning");
    reveal_strlit("module-three-you-gon-get-wet");
    reveal_strlit("module-three-feet-wet");
    reveal_strlit("module-three-crank-the-vibe");
    let b = seed_question_bank();
    let ids = question_ids(b);
    assert(ids.len() == 9);
    assert forall|i: int, j: int| 0 <= i < ids.len() && 0 <= j < ids.len() && i != j implies ids[i] != ids[j] by {
        assert(ids[i] == b[i].id@);
        assert(ids[j] == b[j].id@);
        if ids[i].len() == ids[j].len() {
            assert(ids[i][7] != ids[j][7]);
        }
    }
    assert forall|i: int| 0 <= i < b.len() implies !(#[trigger] b[i].id@).contains(',') by {
        if b[i].id@.contains(',') {
            let k = choose|k: int| 0 <= k < b[i].id@.len() && b[i].id@[k] == ',';
        }
    }
}

} // verus!
