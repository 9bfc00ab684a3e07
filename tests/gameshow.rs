use gameshow::game::Gameshow;
use gameshow::model::{Config, EventKind, GameError, Phase, Question, QuestionType};

fn config() -> Config {
    Config { initial_money: 500, initial_jokers: 3, normal_reward: 500, estimation_reward: 1000 }
}

fn question(question_type: QuestionType, correct_answer: usize) -> Question {
    Question {
        question_type,
        category: "Geography".to_string(),
        question: "Which one?".to_string(),
        answers: vec!["a".to_string(), "b".to_string(), "c".to_string(), "d".to_string()],
        correct_answer,
    }
}

fn game_with(questions: Vec<Question>, names: &[&str]) -> Gameshow {
    let mut g = Gameshow::new(config(), questions);
    for n in names {
        g.join(n).unwrap();
    }
    g
}

fn start_next(g: &mut Gameshow) {
    g.request_next_question().unwrap();
    assert!(g.advance());
}

fn money_of(g: &Gameshow, name: &str) -> i64 {
    g.players().iter().find(|p| p.name == name).unwrap().money
}

#[test]
fn join_trims_and_keeps_names_unique() {
    let mut g = Gameshow::new(config(), vec![]);
    assert_eq!(g.join("Ann ").unwrap(), "Ann");
    assert_eq!(g.join("Ann").unwrap(), "Ann");
    assert_eq!(g.join("  Ann\t").unwrap(), "Ann");
    assert_eq!(g.join("Bob").unwrap(), "Bob");
    assert_eq!(g.players().len(), 2);
    assert_eq!(g.players()[0].name, "Ann");
    assert_eq!(g.players()[0].money, 500);
    assert_eq!(g.players()[0].jokers, 3);
}

#[test]
fn join_refuses_blank_name() {
    let mut g = Gameshow::new(config(), vec![]);
    assert_eq!(g.join("   "), Err(GameError::InvalidInput));
    assert_eq!(g.join(""), Err(GameError::InvalidInput));
    assert!(g.players().is_empty());
}

#[test]
fn normal_question_rewards_right_answers() {
    let mut g = game_with(vec![question(QuestionType::NormalQuestion, 3)], &["A", "B"]);
    start_next(&mut g);
    assert_eq!(g.phase(), Phase::NormalAnswering(false));
    assert_eq!(g.current_question(), 1);
    g.submit_answer("A", 3).unwrap();
    assert_eq!(g.phase(), Phase::NormalAnswering(false));
    g.submit_answer("B", 1).unwrap();
    assert_eq!(g.phase(), Phase::NormalAnswering(true));
    let events = g.poll_and_advance();
    assert_eq!(events.len(), 2);
    match &events[1].kind {
        EventKind::ShowResults { correct_answer, before, after } => {
            assert_eq!(*correct_answer, 3);
            assert_eq!(before[0].money, 500);
            assert_eq!(after[0].money, 1000);
            assert_eq!(after[1].money, 500);
        }
        _ => panic!("expected results"),
    }
    assert_eq!(g.phase(), Phase::Results(false));
    assert_eq!(money_of(&g, "A"), 1000);
    assert_eq!(money_of(&g, "B"), 500);
}

#[test]
fn estimation_rewards_all_closest_players() {
    let mut g = game_with(vec![question(QuestionType::EstimationQuestion, 50)], &["A", "B", "C"]);
    start_next(&mut g);
    assert_eq!(g.phase(), Phase::EstimationAnswering(false));
    g.submit_answer("A", 48).unwrap();
    g.submit_answer("B", 52).unwrap();
    g.submit_answer("C", 10).unwrap();
    assert!(g.advance());
    assert_eq!(money_of(&g, "A"), 1500);
    assert_eq!(money_of(&g, "B"), 1500);
    assert_eq!(money_of(&g, "C"), 500);
}

#[test]
fn betting_wins_and_floors_to_one() {
    let mut g = game_with(vec![question(QuestionType::BettingQuestion, 2)], &["A", "B"]);
    start_next(&mut g);
    assert_eq!(g.phase(), Phase::BettingBetting(false));
    g.place_bet("A", 100).unwrap();
    g.place_bet("B", 500).unwrap();
    assert_eq!(g.phase(), Phase::BettingBetting(true));
    assert!(g.advance());
    assert_eq!(g.phase(), Phase::BettingAnswering(false));
    g.submit_answer("A", 2).unwrap();
    g.submit_answer("B", 1).unwrap();
    assert!(g.advance());
    assert_eq!(money_of(&g, "A"), 600);
    assert_eq!(money_of(&g, "B"), 1);
}

#[test]
fn betting_right_answer_at_zero_floors_to_one() {
    let mut g = game_with(vec![question(QuestionType::BettingQuestion, 2)], &["A", "B"]);
    assert_eq!(g.give_money("A", -500), Ok(0));
    start_next(&mut g);
    g.place_bet("B", 100).unwrap();
    g.force_betting_or_selecting_ready().unwrap();
    assert!(g.advance());
    g.submit_answer("A", 2).unwrap();
    g.submit_answer("B", 2).unwrap();
    assert!(g.advance());
    assert_eq!(money_of(&g, "A"), 1);
    assert_eq!(money_of(&g, "B"), 600);
}

#[test]
fn event_names_follow_their_kind() {
    let mut g = game_with(vec![question(QuestionType::BettingQuestion, 2)], &["A"]);
    start_next(&mut g);
    assert_eq!(g.events()[0].kind.name(), "BeginBettingQBetting");
}

#[test]
fn bet_is_checked() {
    let mut g = game_with(vec![question(QuestionType::BettingQuestion, 2)], &["A"]);
    start_next(&mut g);
    assert_eq!(g.place_bet("A", 0), Err(GameError::InvalidInput));
    assert_eq!(g.place_bet("A", 501), Err(GameError::InvalidInput));
    assert_eq!(g.place_bet("Z", 10), Err(GameError::NotFound));
    assert_eq!(g.players()[0].money_bet, 0);
    assert_eq!(g.place_bet("A", 500), Ok(()));
    assert_eq!(g.phase(), Phase::BettingBetting(true));
}

#[test]
fn versus_factors_compose_from_the_balance_before() {
    let mut g = game_with(vec![question(QuestionType::VersusQuestion, 1)], &["A", "B", "C"]);
    start_next(&mut g);
    assert_eq!(g.phase(), Phase::VersusSelecting(false));
    g.select_opponent("A", "B").unwrap();
    g.select_opponent("C", "B").unwrap();
    g.select_opponent("B", "A").unwrap();
    assert_eq!(g.phase(), Phase::VersusSelecting(true));
    assert!(g.advance());
    assert_eq!(g.phase(), Phase::VersusAnswering(false));
    g.submit_answer("A", 1).unwrap();
    g.submit_answer("B", 1).unwrap();
    g.submit_answer("C", 4).unwrap();
    assert!(g.advance());
    // B: halved by A (right) and doubled by C (wrong): unchanged.
    assert_eq!(money_of(&g, "B"), 500);
    // A: picked by B, who was right: halved.
    assert_eq!(money_of(&g, "A"), 250);
    assert_eq!(money_of(&g, "C"), 500);
}

#[test]
fn versus_halving_truncates_and_floors() {
    let mut g = game_with(vec![question(QuestionType::VersusQuestion, 1)], &["A", "B"]);
    g.give_money("B", -499).unwrap();
    start_next(&mut g);
    g.select_opponent("A", "B").unwrap();
    g.select_opponent("B", "A").unwrap();
    assert!(g.advance());
    g.submit_answer("A", 1).unwrap();
    g.submit_answer("B", 2).unwrap();
    assert!(g.advance());
    assert_eq!(money_of(&g, "B"), 1);
    assert_eq!(money_of(&g, "A"), 1000);
}

#[test]
fn select_opponent_is_checked() {
    let mut g = game_with(vec![question(QuestionType::VersusQuestion, 1)], &["A", "B"]);
    assert_eq!(g.select_opponent("A", "B"), Err(GameError::PhaseMismatch));
    start_next(&mut g);
    assert_eq!(g.select_opponent("A", "A"), Err(GameError::InvalidInput));
    assert_eq!(g.select_opponent("Z", "A"), Err(GameError::NotFound));
    assert_eq!(g.select_opponent("A", "Z"), Err(GameError::NotFound));
    assert_eq!(g.phase(), Phase::VersusSelecting(false));
}

#[test]
fn bet_out_of_phase_changes_nothing() {
    let mut g = game_with(vec![question(QuestionType::BettingQuestion, 2)], &["A", "B"]);
    start_next(&mut g);
    g.place_bet("A", 100).unwrap();
    g.force_betting_or_selecting_ready().unwrap();
    assert!(g.advance());
    assert_eq!(g.phase(), Phase::BettingAnswering(false));
    assert_eq!(g.place_bet("B", 200), Err(GameError::PhaseMismatch));
    assert_eq!(g.players()[0].money_bet, 100);
    assert_eq!(g.players()[1].money_bet, 0);
}

#[test]
fn advancing_twice_moves_once() {
    let mut g = game_with(vec![question(QuestionType::NormalQuestion, 1)], &["A"]);
    assert!(!g.advance());
    assert_eq!(g.events().len(), 0);
    g.request_next_question().unwrap();
    assert_eq!(g.poll_and_advance().len(), 1);
    assert_eq!(g.poll_and_advance().len(), 1);
    assert_eq!(g.phase(), Phase::NormalAnswering(false));
}

#[test]
fn event_ids_count_up_from_zero() {
    let mut g = game_with(
        vec![question(QuestionType::NormalQuestion, 1), question(QuestionType::BettingQuestion, 2)],
        &["A"],
    );
    start_next(&mut g);
    g.force_answering_ready().unwrap();
    g.advance();
    start_next(&mut g);
    g.force_betting_or_selecting_ready().unwrap();
    g.advance();
    g.force_answering_ready().unwrap();
    g.advance();
    start_next(&mut g);
    let events = g.events();
    assert_eq!(events.len(), 6);
    for (i, e) in events.iter().enumerate() {
        assert_eq!(e.id, i);
    }
    assert_eq!(events[5].kind.name(), "GameEnding");
    assert_eq!(g.phase(), Phase::GameEnding);
    assert!(!g.advance());
    assert_eq!(g.events().len(), 6);
}

#[test]
fn jump_to_question_checks_range_and_starts_that_question() {
    let mut g = game_with(
        vec![
            question(QuestionType::NormalQuestion, 1),
            question(QuestionType::EstimationQuestion, 7),
            question(QuestionType::VersusQuestion, 2),
        ],
        &["A"],
    );
    assert_eq!(g.jump_to_question(0), Err(GameError::InvalidInput));
    assert_eq!(g.jump_to_question(4), Err(GameError::InvalidInput));
    assert_eq!(g.jump_to_question(3), Ok(0));
    assert_eq!(g.phase(), Phase::Results(false));
    start_next(&mut g);
    assert_eq!(g.current_question(), 3);
    assert_eq!(g.phase(), Phase::VersusSelecting(false));
    match &g.events()[0].kind {
        EventKind::BeginVersusSelecting { question_number, .. } => assert_eq!(*question_number, 3),
        _ => panic!("expected the versus question"),
    }
    assert_eq!(g.jump_to_question(1), Err(GameError::PhaseMismatch));
}

#[test]
fn fifty_fifty_gives_two_wrong_options() {
    let mut g = game_with(vec![question(QuestionType::NormalQuestion, 3)], &["A"]);
    assert_eq!(g.request_fifty_fifty("A"), Err(GameError::PhaseMismatch));
    start_next(&mut g);
    for left in [2usize, 1, 0] {
        let v = g.request_fifty_fifty("A").unwrap();
        assert_eq!(v.len(), 2);
        assert_ne!(v[0], v[1]);
        for k in &v {
            assert!(*k >= 1 && *k <= 4 && *k != 3);
        }
        assert_eq!(g.players()[0].jokers, left);
    }
    assert_eq!(g.request_fifty_fifty("A"), Err(GameError::NoJokersLeft));
    assert_eq!(g.request_fifty_fifty("Z"), Err(GameError::NotFound));
}

#[test]
fn answers_are_checked() {
    let mut g = game_with(vec![question(QuestionType::NormalQuestion, 3)], &["A"]);
    assert_eq!(g.submit_answer("A", 1), Err(GameError::PhaseMismatch));
    start_next(&mut g);
    assert_eq!(g.submit_answer("A", 0), Err(GameError::InvalidInput));
    assert_eq!(g.submit_answer("Z", 1), Err(GameError::NotFound));
    assert_eq!(g.players()[0].answer, 0);
}

#[test]
fn moderator_overrides_follow_the_phase() {
    let mut g = game_with(vec![question(QuestionType::NormalQuestion, 3)], &["A"]);
    assert_eq!(g.force_answering_ready(), Err(GameError::PhaseMismatch));
    assert_eq!(g.force_betting_or_selecting_ready(), Err(GameError::PhaseMismatch));
    assert_eq!(g.request_next_question(), Ok(()));
    assert_eq!(g.request_next_question(), Ok(()));
    assert!(g.peek_ready());
    g.advance();
    assert_eq!(g.request_next_question(), Err(GameError::PhaseMismatch));
    assert_eq!(g.force_answering_ready(), Ok(()));
    assert_eq!(g.phase(), Phase::NormalAnswering(true));
    assert_eq!(g.force_answering_ready(), Err(GameError::PhaseMismatch));
}

#[test]
fn kick_give_money_and_set_jokers() {
    let mut g = game_with(vec![], &["A", "B"]);
    assert_eq!(g.give_money("A", 250), Ok(750));
    assert_eq!(g.give_money("A", -751), Err(GameError::InvalidInput));
    assert_eq!(g.give_money("A", i64::MAX), Err(GameError::InvalidInput));
    assert_eq!(g.give_money("Z", 1), Err(GameError::NotFound));
    assert_eq!(g.set_jokers("B", 7), Ok(7));
    assert_eq!(g.players()[1].jokers, 7);
    assert_eq!(g.set_jokers("Z", 1), Err(GameError::NotFound));
    assert_eq!(g.kick("A"), Ok(()));
    assert_eq!(g.kick("A"), Err(GameError::NotFound));
    assert_eq!(g.players().len(), 1);
    assert_eq!(g.players()[0].name, "B");
}

#[test]
fn reload_questions_starts_over() {
    let mut g = game_with(vec![question(QuestionType::NormalQuestion, 3)], &["A"]);
    start_next(&mut g);
    assert_eq!(g.reload_questions(vec![]), Err(GameError::PhaseMismatch));
    g.force_answering_ready().unwrap();
    g.advance();
    let fresh = vec![question(QuestionType::EstimationQuestion, 9), question(QuestionType::NormalQuestion, 1)];
    assert_eq!(g.reload_questions(fresh), Ok(2));
    assert_eq!(g.current_question(), 0);
    assert_eq!(g.questions().len(), 2);
    start_next(&mut g);
    assert_eq!(g.phase(), Phase::EstimationAnswering(false));
}

#[test]
fn game_ends_after_the_last_question() {
    let mut g = game_with(vec![], &["A"]);
    start_next(&mut g);
    assert_eq!(g.phase(), Phase::GameEnding);
    match &g.events()[0].kind {
        EventKind::GameEnding { players } => assert_eq!(players[0].name, "A"),
        _ => panic!("expected the end"),
    }
    assert_eq!(g.jump_to_question(1), Err(GameError::InvalidInput));
}
