use annual_training::quiz::{
    answer_key, choose_quiz_questions, correct_answers, evaluate_quiz, parse_answers,
    seed_questions, select_questions_by_id, Question,
};
use annual_training::strmap::StrMap;
use annual_training::text::parse_usize;

#[test]
fn evaluate_quiz_returns_pass_when_threshold_is_met() {
    let questions = seed_questions();
    let mut answers = StrMap::new();
    for (idx, question) in questions.iter().enumerate() {
        answers.insert(format!("q{idx}"), question.correct);
    }
    let evaluation = evaluate_quiz(&questions, &answers);
    assert!(evaluation.passed);
}

#[test]
fn evaluate_quiz_handles_missing_answers_as_incorrect() {
    let questions = seed_questions();
    let answers = StrMap::new();
    let evaluation = evaluate_quiz(&questions, &answers);
    assert_eq!(evaluation.score, 0);
}

#[test]
fn parse_answers_ignores_non_numeric_values() {
    let mut raw = StrMap::new();
    raw.insert("q0".to_string(), "2".to_string());
    raw.insert("employee_name".to_string(), "Alice".to_string());
    raw.insert("q1".to_string(), "not-a-number".to_string());
    let parsed = parse_answers(&raw);
    assert_eq!(parsed.get("q0"), Some(&2));
}

#[test]
fn parse_answers_keeps_only_numeric_q_fields() {
    let mut raw = StrMap::new();
    raw.insert("q0".to_string(), "2".to_string());
    raw.insert("q1".to_string(), "not-a-number".to_string());
    raw.insert("employee_name".to_string(), "3".to_string());
    raw.insert("qx".to_string(), "+4".to_string());
    raw.insert("selected_question_ids".to_string(), "a,b".to_string());
    let parsed = parse_answers(&raw);
    assert_eq!(parsed.len(), 2);
    assert_eq!(parsed.get("q0"), Some(&2));
    assert_eq!(parsed.get("q1"), None);
    assert_eq!(parsed.get("employee_name"), None);
    assert_eq!(parsed.get("qx"), Some(&4));
}

#[test]
fn parse_usize_follows_from_str() {
    let cases = [
        "0", "7", "+7", "-1", "", "+", " 1", "1 ", "007", "12a", "18446744073709551615",
        "18446744073709551616", "99999999999999999999999", "١",
    ];
    for case in cases {
        assert_eq!(parse_usize(case), case.parse::<usize>().ok(), "input {case:?}");
    }
}

#[test]
fn answer_key_is_q_and_position() {
    assert_eq!(answer_key(0), "q0");
    assert_eq!(answer_key(12), "q12");
    assert_eq!(answer_key(usize::MAX), format!("q{}", usize::MAX));
}

#[test]
fn str_map_reads_back_what_was_written() {
    let mut m = StrMap::new();
    m.insert("a".to_string(), 1usize);
    m.insert("b".to_string(), 2usize);
    assert_eq!(m.get("a"), Some(&1));
    m.insert("a".to_string(), 5usize);
    assert_eq!(m.get("a"), Some(&5));
    assert_eq!(m.get("b"), Some(&2));
    assert_eq!(m.get("c"), None);
    assert_eq!(m.len(), 2);
}

#[test]
fn seed_questions_have_four_choices_and_valid_answers() {
    let questions = seed_questions();
    assert_eq!(questions.len(), 9);
    let corrects: Vec<usize> = questions.iter().map(|q| q.correct).collect();
    assert_eq!(corrects, vec![1, 2, 2, 2, 3, 1, 1, 0, 0]);
    assert_eq!(questions[0].id, "module-one-lemme-smang-it-meaning");
    assert_eq!(questions[8].id, "module-three-crank-the-vibe");
    for q in &questions {
        assert!(q.correct < q.choices.len());
    }
}

#[test]
fn choose_quiz_questions_gives_whole_bank_in_order() {
    let bank = seed_questions();
    let chosen = choose_quiz_questions(&bank);
    let ids: Vec<&str> = chosen.iter().map(|q| q.id).collect();
    let bank_ids: Vec<&str> = bank.iter().map(|q| q.id).collect();
    assert_eq!(ids, bank_ids);
}

#[test]
fn select_questions_by_id_follows_list_order_and_skips_unknown() {
    let bank = seed_questions();
    let selected = select_questions_by_id(
        &bank,
        "module-three-feet-wet,unknown,,module-one-be-cautious,module-three-feet-wet",
    );
    let ids: Vec<&str> = selected.iter().map(|q| q.id).collect();
    assert_eq!(
        ids,
        vec!["module-three-feet-wet", "module-one-be-cautious", "module-three-feet-wet"]
    );
    assert!(select_questions_by_id(&bank, "").is_empty());
    assert!(select_questions_by_id(&bank, ",,").is_empty());
}

#[test]
fn listed_ids_select_the_listed_questions() {
    let bank = seed_questions();
    let listed: Vec<&str> = bank.iter().map(|q| q.id).collect();
    let selected = select_questions_by_id(&bank, &listed.join(","));
    let ids: Vec<&str> = selected.iter().map(|q| q.id).collect();
    assert_eq!(ids, listed);
}

fn three_questions() -> Vec<Question> {
    let bank = seed_questions();
    vec![bank[0], bank[1], bank[2]]
}

#[test]
fn evaluate_quiz_threshold_is_eighty_percent() {
    let bank = seed_questions();
    // Seven of nine correct: about 77.8%, a fail.
    let mut answers = StrMap::new();
    for (idx, q) in bank.iter().enumerate() {
        let answer = if idx < 7 { q.correct } else { (q.correct + 1) % 4 };
        answers.insert(format!("q{idx}"), answer);
    }
    let e = evaluate_quiz(&bank, &answers);
    assert_eq!((e.score, e.total, e.passed), (7, 9, false));
    // Eight of nine: about 88.9%, a pass.
    answers.insert("q7".to_string(), bank[7].correct);
    let e = evaluate_quiz(&bank, &answers);
    assert_eq!((e.score, e.total, e.passed), (8, 9, true));
    // Exactly 80%: four of five.
    let five = &bank[..5];
    let mut answers = StrMap::new();
    for (idx, q) in five.iter().enumerate() {
        let answer = if idx == 0 { 9 } else { q.correct };
        answers.insert(format!("q{idx}"), answer);
    }
    let e = evaluate_quiz(five, &answers);
    assert_eq!((e.score, e.total, e.passed), (4, 5, true));
}

#[test]
fn evaluate_quiz_with_no_questions_fails() {
    let e = evaluate_quiz(&[], &StrMap::new());
    assert_eq!((e.score, e.total, e.passed), (0, 0, false));
}

#[test]
fn evaluate_quiz_ignores_answers_under_other_names() {
    let qs = three_questions();
    let mut answers = StrMap::new();
    answers.insert("q00".to_string(), qs[0].correct);
    answers.insert("q+1".to_string(), qs[1].correct);
    answers.insert("q2".to_string(), qs[2].correct);
    let e = evaluate_quiz(&qs, &answers);
    assert_eq!(e.score, 1);
}

#[test]
fn correct_answers_score_every_question() {
    let qs = seed_questions();
    let answers = correct_answers(&qs);
    assert_eq!(answers.len(), qs.len());
    assert_eq!(answers.get("q4"), Some(&3));
    let e = evaluate_quiz(&qs, &answers);
    assert_eq!((e.score, e.total, e.passed), (9, 9, true));
}
