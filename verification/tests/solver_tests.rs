use wordle_solver::codec::FeedbackParseError;
use wordle_solver::codec::parse_response;
use wordle_solver::feedback::GuessResponse;
use wordle_solver::feedback::GuessResponseChar;
use wordle_solver::feedback::compute;
use wordle_solver::feedback::response_code;
use wordle_solver::game::GameResult;
use wordle_solver::game::KnownSolutionGuesser;
use wordle_solver::game::MAX_FEEDBACK_ATTEMPTS;
use wordle_solver::game::TurnOutcome;
use wordle_solver::game::apply_response;
use wordle_solver::game::feedback_from_lines;
use wordle_solver::game::solve_known;
use wordle_solver::select::best_guess;
use wordle_solver::select::pool_score;
use wordle_solver::word::Word;
use wordle_solver::word::parse_words;

fn word(s: &str) -> Word {
    let cs: Vec<char> = s.chars().collect();
    assert_eq!(cs.len(), 5);
    Word::new([cs[0], cs[1], cs[2], cs[3], cs[4]])
}

fn chars_of(s: &str) -> Vec<char> {
    s.chars().collect()
}

fn response_of(s: &str) -> GuessResponse {
    parse_response(&chars_of(s)).expect("test pattern must parse")
}

fn word_text(w: &Word) -> String {
    w.letters().iter().collect()
}

// The solved pattern comes exactly when the guess is the solution.
#[test]
fn compute_solved_iff_equal() {
    let solved = GuessResponse::solved();
    assert_eq!(compute(word("ABCDE"), word("ABCDE")), solved);
    assert_eq!(compute(word("ZZZZZ"), word("ZZZZZ")), solved);
    assert_ne!(compute(word("ABCDE"), word("ABCDF")), solved);
    assert_ne!(compute(word("ABCDE"), word("EDCBA")), solved);
    assert!(compute(word("QQQQQ"), word("QQQQQ")).is_solved());
    assert!(!compute(word("ABCDE"), word("FGHIJ")).is_solved());
}

#[test]
fn compute_per_position_rule() {
    // Guess ABCDE against EDCBA: C sits exactly, everything else occurs
    // elsewhere in the solution.
    let r = compute(word("ABCDE"), word("EDCBA"));
    assert_eq!(r, response_of("yygyy"));
    // Guess ABCDE against ZZZZZ: nothing occurs at all.
    let r = compute(word("ABCDE"), word("ZZZZZ"));
    assert_eq!(r, response_of("bbbbb"));
    // Repeated guess letters are marked included with no consumption.
    let r = compute(word("AABBB"), word("ABZZZ"));
    assert_eq!(r, response_of("gyyyy"));
}

// Partition correctness on a concrete pool: three distinct buckets.
#[test]
fn partition_three_buckets() {
    let guess = word("ABCDE");
    let pool = vec![word("ABCDE"), word("EDCBA"), word("ZZZZZ")];
    let r_self = compute(guess, word("ABCDE"));
    let r_rev = compute(guess, word("EDCBA"));
    let r_none = compute(guess, word("ZZZZZ"));
    assert_ne!(r_self, r_rev);
    assert_ne!(r_self, r_none);
    assert_ne!(r_rev, r_none);
    assert_ne!(response_code(&r_rev), response_code(&r_none));
    // The bucket for EDCBA's own pattern holds only EDCBA.
    match apply_response(guess, &pool, &r_rev) {
        TurnOutcome::Continue(v) => assert_eq!(v, vec![word("EDCBA")]),
        other => panic!("expected a narrowed pool, got {:?}", other),
    }
    // The bucket for the all-excluded pattern holds only ZZZZZ.
    match apply_response(guess, &pool, &r_none) {
        TurnOutcome::Continue(v) => assert_eq!(v, vec![word("ZZZZZ")]),
        other => panic!("expected a narrowed pool, got {:?}", other),
    }
    // The solved pattern wins outright.
    assert!(matches!(apply_response(guess, &pool, &r_self), TurnOutcome::Won));
}

#[test]
fn duplicate_pool_words_collapse() {
    let guess = word("ABCDE");
    let pool = vec![word("ZZZZZ"), word("ZZZZZ"), word("ZZZZZ")];
    let r = compute(guess, word("ZZZZZ"));
    match apply_response(guess, &pool, &r) {
        TurnOutcome::Continue(v) => assert_eq!(v, vec![word("ZZZZZ")]),
        other => panic!("expected a narrowed pool, got {:?}", other),
    }
}

// A pool of one word is its own best guess, with raw score 1 and a
// normalized expected-remaining score of exactly 1.0.
#[test]
fn select_singleton_pool() {
    let allowed = vec![word("AAAAA"), word("BBBBB"), word("CCCCC")];
    let pool = vec![word("BBBBB")];
    let (best, raw) = best_guess(&allowed, &pool);
    assert_eq!(best, word("BBBBB"));
    assert_eq!(raw, 1);
    assert_eq!(raw as f64 / pool.len() as f64, 1.0);
}

#[test]
fn select_minimizes_and_keeps_first() {
    let allowed = vec![word("ZZZZZ"), word("ABCDE"), word("EDCBA")];
    let pool = vec![word("ABCDE"), word("EDCBA"), word("ZZZZZ")];
    // ZZZZZ lumps ABCDE and EDCBA into one all-excluded bucket: 2*2 + 1.
    assert_eq!(pool_score(word("ZZZZZ"), &pool), 5);
    // ABCDE and EDCBA split the pool into three buckets of one: 1 + 1 + 1.
    assert_eq!(pool_score(word("ABCDE"), &pool), 3);
    assert_eq!(pool_score(word("EDCBA"), &pool), 3);
    // The earliest guess with the minimal score wins the tie.
    let (best, raw) = best_guess(&allowed, &pool);
    assert_eq!(best, word("ABCDE"));
    assert_eq!(raw, 3);
}

// Round trip: rendering to letters and parsing them back is the identity.
#[test]
fn render_parse_roundtrip() {
    for s in ["bbbbb", "ggggg", "yyyyy", "byygy", "gybgb"] {
        let p = response_of(s);
        let rendered: Vec<char> = p.letters().to_vec();
        assert_eq!(parse_response(&rendered), Ok(p));
    }
}

#[test]
fn parse_accepts_either_case() {
    assert_eq!(response_of("BYGyb"), response_of("bygyb"));
}

#[test]
fn parse_rejects_wrong_length() {
    assert_eq!(
        parse_response(&chars_of("byyg")),
        Err(FeedbackParseError::WrongLength { length: 4 })
    );
    assert_eq!(
        parse_response(&chars_of("byygyy")),
        Err(FeedbackParseError::WrongLength { length: 6 })
    );
    assert_eq!(
        parse_response(&chars_of("")),
        Err(FeedbackParseError::WrongLength { length: 0 })
    );
}

#[test]
fn parse_rejects_bad_letter_with_position() {
    assert_eq!(
        parse_response(&chars_of("byxgy")),
        Err(FeedbackParseError::BadChar { found: 'x', position: 3 })
    );
    // The first offending character is the one reported.
    assert_eq!(
        parse_response(&chars_of("q!!!!")),
        Err(FeedbackParseError::BadChar { found: 'q', position: 1 })
    );
    assert_eq!(
        parse_response(&chars_of("byyg?")),
        Err(FeedbackParseError::BadChar { found: '?', position: 5 })
    );
}

#[test]
fn outcome_display_symbols() {
    assert_eq!(GuessResponseChar::Excluded.unicode_char(), '⬛');
    assert_eq!(GuessResponseChar::Exact.unicode_char(), '🟩');
    assert_eq!(GuessResponseChar::Included.unicode_char(), '🟨');
    let s: String = response_of("bgygb").symbols().iter().collect();
    assert_eq!(s, "⬛🟩🟨🟩⬛");
}

// Scenario: a one-word corpus is solved on the first turn.
#[test]
fn solved_in_one_guess() {
    let corpus = vec![word("ABCDE")];
    let report = solve_known(&corpus, corpus.clone(), word("ABCDE"));
    assert_eq!(report.turns.len(), 1);
    assert_eq!(report.turns[0].guess, word("ABCDE"));
    assert!(report.turns[0].response.is_solved());
    match report.result {
        GameResult::Won(w) => assert_eq!(word_text(&w), "ABCDE"),
        GameResult::Failed => panic!("the game should have been won"),
    }
}

#[test]
fn solved_in_two_turns() {
    let corpus = vec![word("ABCDE"), word("FGHIJ")];
    let report = solve_known(&corpus, corpus.clone(), word("FGHIJ"));
    assert_eq!(report.turns.len(), 2);
    assert_eq!(report.turns[0].guess, word("ABCDE"));
    assert_eq!(report.turns[0].response, response_of("bbbbb"));
    assert_eq!(report.turns[0].remaining, 1);
    assert_eq!(report.turns[1].guess, word("FGHIJ"));
    assert!(report.turns[1].response.is_solved());
    assert_eq!(report.result, GameResult::Won(word("FGHIJ")));
}

#[test]
fn known_solution_guesser_is_truthful() {
    let oracle = KnownSolutionGuesser { solution: word("EDCBA") };
    assert_eq!(oracle.guess(word("ABCDE")), compute(word("ABCDE"), word("EDCBA")));
    assert!(oracle.guess(word("EDCBA")).is_solved());
}

// Scenario: a human answer matching no remaining candidate is a dead end.
#[test]
fn inconsistent_feedback_fails() {
    let guess = word("ABCDE");
    let pool = vec![word("ABCDE"), word("FGHIJ")];
    // Neither candidate would answer ABCDE with five included letters.
    let bogus = response_of("yyyyy");
    assert!(matches!(apply_response(guess, &pool, &bogus), TurnOutcome::Failed));
}

// Scenario: five consecutive malformed lines exhaust the oracle's attempts.
#[test]
fn malformed_lines_exhaust_attempts() {
    assert_eq!(MAX_FEEDBACK_ATTEMPTS, 5);
    let lines = vec![
        chars_of("abc"),
        chars_of("bbbbbb"),
        chars_of("bb?bb"),
        chars_of(""),
        chars_of("hello"),
    ];
    assert_eq!(feedback_from_lines(&lines), None);
    // Even a good sixth line comes too late.
    let mut too_late = lines.clone();
    too_late.push(chars_of("bgygb"));
    assert_eq!(feedback_from_lines(&too_late), None);
}

#[test]
fn first_readable_line_wins() {
    let lines = vec![chars_of("nope!"), chars_of("bgygb"), chars_of("ggggg")];
    assert_eq!(feedback_from_lines(&lines), Some(response_of("bgygb")));
    assert_eq!(feedback_from_lines(&vec![chars_of("GGGGG")]), Some(GuessResponse::solved()));
}

#[test]
fn parse_words_reads_records() {
    let text = chars_of("ABCDE\nFGHIJ\n");
    let ws = parse_words(&text).expect("well-formed corpus");
    assert_eq!(ws, vec![word("ABCDE"), word("FGHIJ")]);
}

#[test]
fn parse_words_ignores_trailing_partial_record() {
    let text = chars_of("ABCDE\nFGH");
    let ws = parse_words(&text).expect("well-formed corpus");
    assert_eq!(ws, vec![word("ABCDE")]);
}

#[test]
fn parse_words_rejects_missing_newline() {
    let text = chars_of("ABCDEFGHIJ\n");
    let e = parse_words(&text).expect_err("sixth character is not a newline");
    assert_eq!(e.position, 5);
    assert_eq!(e.found, 'F');
}

#[test]
fn parse_words_empty_text() {
    assert_eq!(parse_words(&chars_of("")), Ok(vec![]));
}

// The new pool after a turn is a subset of the old one and keeps the true
// solution when the answer was truthful.
#[test]
fn pool_shrinks_and_keeps_solution() {
    let pool = vec![word("ABCDE"), word("ABCDZ"), word("FGHIJ"), word("ZZZZZ")];
    let guess = word("ABCDE");
    let solution = word("ABCDZ");
    let truthful = compute(guess, solution);
    match apply_response(guess, &pool, &truthful) {
        TurnOutcome::Continue(v) => {
            assert!(v.contains(&solution));
            for w in &v {
                assert!(pool.contains(w));
            }
            assert!(v.len() < pool.len());
        },
        other => panic!("expected a narrowed pool, got {:?}", other),
    }
}

// A solution outside the corpus dead-ends once no candidate is consistent.
#[test]
fn unknown_solution_fails() {
    let corpus = vec![word("AAAAA"), word("BBBBB")];
    let report = solve_known(&corpus, corpus.clone(), word("CCCCC"));
    assert_eq!(report.result, GameResult::Failed);
    assert_eq!(report.turns.len(), 2);
    assert!(!report.turns[1].response.is_solved());
}

#[test]
fn self_play_finds_solution() {
    let corpus = vec![
        word("AAAAA"),
        word("AAAAB"),
        word("AAABB"),
        word("AABBB"),
        word("ABBBB"),
        word("CDEFG"),
    ];
    for target in &corpus {
        let report = solve_known(&corpus, corpus.clone(), *target);
        assert_eq!(report.result, GameResult::Won(*target));
        assert!(report.turns.last().unwrap().response.is_solved());
        // the pool never grows from one turn to the next
        for pair in report.turns.windows(2) {
            assert!(pair[1].pool_len <= pair[0].pool_len);
            assert_eq!(pair[1].pool_len, pair[0].remaining);
        }
    }
}
