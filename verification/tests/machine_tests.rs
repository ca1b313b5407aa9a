use arcade_program::dispatch::initialize;
use arcade_program::dispatch::process_instruction;
use arcade_program::dispatch::start_game;
use arcade_program::dispatch::submit_score;
use arcade_program::dispatch::update_cost;
use arcade_program::instructions::parse_instruction;
use arcade_program::instructions::Instruction;
use arcade_program::leaderboard::insert_score;
use arcade_program::registry::add_game;
use arcade_program::sessions::consume_session;
use arcade_program::sessions::start_session;
use arcade_program::types::ArcadeError;
use arcade_program::types::GameRegistry;
use arcade_program::types::GameState;

fn id(b: u8) -> Vec<u8> {
    vec![b; 32]
}

fn init_instruction(admin: u8, payment: u8, name: &[u8]) -> Vec<u8> {
    let mut v = vec![0u8];
    v.extend_from_slice(&id(admin));
    v.extend_from_slice(&id(payment));
    v.extend_from_slice(&(name.len() as u32).to_le_bytes());
    v.extend_from_slice(name);
    v
}

fn submit_instruction(score: u64, token: &[u8]) -> Vec<u8> {
    let mut v = vec![2u8];
    v.extend_from_slice(&score.to_le_bytes());
    v.extend_from_slice(token);
    v
}

#[test]
fn initialize_fills_defaults() {
    let g = initialize(id(1), id(2), b"Pong".to_vec());
    assert!(g.is_initialized);
    assert_eq!(g.cost_to_play, 0);
    assert_eq!(g.min_time_seconds, 60);
    assert_eq!(g.game_count, 0);
    assert_eq!(g.prize_pool, 0);
    assert_eq!(g.high_scores.len(), 20);
    for e in &g.high_scores {
        assert_eq!(e.score, 0);
        assert_eq!(e.player, vec![0u8; 32]);
    }
    assert!(g.active_sessions.is_empty());
    assert_eq!(g.game_name, b"Pong".to_vec());
}

#[test]
fn start_game_twice_gives_two_sessions() {
    let mut g = initialize(id(1), id(2), b"Pong".to_vec());
    let fee1 = start_game(&mut g, &id(7), &id(40), 1000).unwrap();
    let fee2 = start_game(&mut g, &id(7), &id(41), 1005).unwrap();
    assert_eq!(fee1, 0);
    assert_eq!(fee2, 0);
    assert_eq!(g.game_count, 2);
    assert_eq!(g.active_sessions.len(), 2);
    assert_eq!(g.active_sessions[0].player, id(7));
    assert_eq!(g.active_sessions[1].player, id(7));
    assert_ne!(g.active_sessions[0].token, g.active_sessions[1].token);
    assert_eq!(g.prize_pool, 0);
}

#[test]
fn start_game_collects_fee_into_prize_pool() {
    let mut g = initialize(id(1), id(2), b"Pong".to_vec());
    g.cost_to_play = 30;
    let fee = start_game(&mut g, &id(7), &id(40), 1000).unwrap();
    assert_eq!(fee, 30);
    assert_eq!(g.prize_pool, 30);
}

#[test]
fn start_game_requires_initialized() {
    let mut g = initialize(id(1), id(2), b"Pong".to_vec());
    g.is_initialized = false;
    assert_eq!(start_game(&mut g, &id(7), &id(40), 1000).err(), Some(ArcadeError::Uninitialized));
    assert_eq!(g.game_count, 0);
}

#[test]
fn start_game_overflow_on_play_count() {
    let mut g = initialize(id(1), id(2), b"Pong".to_vec());
    g.game_count = u64::MAX;
    assert_eq!(
        start_game(&mut g, &id(7), &id(40), 1000).err(),
        Some(ArcadeError::ArithmeticOverflow)
    );
    assert_eq!(g.game_count, u64::MAX);
}

#[test]
fn start_game_overflow_on_prize_pool() {
    let mut g = initialize(id(1), id(2), b"Pong".to_vec());
    g.cost_to_play = 2;
    g.prize_pool = u64::MAX - 1;
    assert_eq!(
        start_game(&mut g, &id(7), &id(40), 1000).err(),
        Some(ArcadeError::ArithmeticOverflow)
    );
}

#[test]
fn submit_score_unknown_token_fails_not_found() {
    let mut g = initialize(id(1), id(2), b"Pong".to_vec());
    start_game(&mut g, &id(7), &id(40), 1000).unwrap();
    let before_sessions = g.active_sessions.len();
    assert_eq!(
        submit_score(&mut g, &id(7), 50, &id(99), 2000).err(),
        Some(ArcadeError::SessionNotFound)
    );
    assert_eq!(g.active_sessions.len(), before_sessions);
    assert_eq!(g.game_count, 1);
}

#[test]
fn submit_score_time_gate_boundary() {
    // exactly at the boundary (elapsed == min_time_seconds) it succeeds
    let mut g = initialize(id(1), id(2), b"Pong".to_vec());
    start_game(&mut g, &id(7), &id(40), 1000).unwrap();
    assert!(submit_score(&mut g, &id(7), 50, &id(40), 1060).is_ok());
    assert_eq!(g.active_sessions.len(), 0);
    assert_eq!(g.high_scores[0].player, id(7));
    assert_eq!(g.high_scores[0].score, 50);
}

#[test]
fn submit_score_too_early_just_below_boundary() {
    let mut g = initialize(id(1), id(2), b"Pong".to_vec());
    start_game(&mut g, &id(7), &id(40), 1000).unwrap();
    assert_eq!(submit_score(&mut g, &id(7), 50, &id(40), 1059).err(), Some(ArcadeError::TooEarly));
    assert_eq!(g.active_sessions.len(), 1);
}

#[test]
fn submit_score_clock_regression() {
    let mut g = initialize(id(1), id(2), b"Pong".to_vec());
    start_game(&mut g, &id(7), &id(40), 1000).unwrap();
    assert_eq!(
        submit_score(&mut g, &id(7), 50, &id(40), 999).err(),
        Some(ArcadeError::ClockRegression)
    );
}

#[test]
fn session_consumed_exactly_once() {
    let mut g = initialize(id(1), id(2), b"Pong".to_vec());
    start_game(&mut g, &id(7), &id(40), 1000).unwrap();
    assert!(submit_score(&mut g, &id(7), 50, &id(40), 1070).is_ok());
    assert_eq!(
        submit_score(&mut g, &id(7), 60, &id(40), 1080).err(),
        Some(ArcadeError::SessionNotFound)
    );
}

#[test]
fn start_session_fresh_generates_32_byte_token() {
    let mut sessions = Vec::new();
    let t1 = arcade_program::sessions::start_session_fresh(&mut sessions, &id(7), 1000);
    let t2 = arcade_program::sessions::start_session_fresh(&mut sessions, &id(7), 1001);
    assert_eq!(t1.len(), 32);
    assert_eq!(t2.len(), 32);
    assert_eq!(sessions.len(), 2);
    assert_eq!(sessions[0].token, t1);
    assert_eq!(sessions[1].token, t2);
    // the recorded session is consumable under its returned token
    let st = consume_session(&mut sessions, &id(7), &t1, 5000, 60).unwrap();
    assert_eq!(st, 1000);
}

#[test]
fn consume_session_picks_first_match_and_preserves_order() {
    let mut sessions = Vec::new();
    start_session(&mut sessions, &id(7), &id(40), 1000);
    start_session(&mut sessions, &id(8), &id(41), 1100);
    start_session(&mut sessions, &id(7), &id(40), 1200);
    let st = consume_session(&mut sessions, &id(7), &id(40), 5000, 60).unwrap();
    assert_eq!(st, 1000);
    assert_eq!(sessions.len(), 2);
    assert_eq!(sessions[0].token, id(41));
    assert_eq!(sessions[1].start_time, 1200);
}

#[test]
fn insert_score_displaces_twentieth() {
    let mut g = initialize(id(1), id(2), b"Pong".to_vec());
    // fill the board with scores 100, 99, ..., 81
    for k in 0..20u8 {
        insert_score(&mut g.high_scores, &id(k), 100 - k as u64);
    }
    assert_eq!(g.high_scores[19].score, 81);
    insert_score(&mut g.high_scores, &id(42), 90);
    assert_eq!(g.high_scores.len(), 20);
    // 90 ranks below the pre-existing 90 (stable tie-break) and 81 fell off
    assert_eq!(g.high_scores[10].score, 90);
    assert_eq!(g.high_scores[10].player, id(10));
    assert_eq!(g.high_scores[11].score, 90);
    assert_eq!(g.high_scores[11].player, id(42));
    assert_eq!(g.high_scores[19].score, 82);
    for k in 0..19 {
        assert!(g.high_scores[k].score >= g.high_scores[k + 1].score);
    }
}

#[test]
fn equal_scores_earlier_ranks_higher() {
    let mut g = initialize(id(1), id(2), b"Pong".to_vec());
    insert_score(&mut g.high_scores, &id(50), 70);
    insert_score(&mut g.high_scores, &id(51), 70);
    assert_eq!(g.high_scores[0].player, id(50));
    assert_eq!(g.high_scores[1].player, id(51));
}

#[test]
fn update_cost_unauthorized_leaves_cost() {
    let mut g = initialize(id(1), id(2), b"Pong".to_vec());
    g.cost_to_play = 5;
    assert_eq!(update_cost(&mut g, &id(9), 77).err(), Some(ArcadeError::Unauthorized));
    assert_eq!(g.cost_to_play, 5);
    assert!(update_cost(&mut g, &id(1), 77).is_ok());
    assert_eq!(g.cost_to_play, 77);
}

#[test]
fn add_game_empty_registry_sets_authority() {
    let mut r = GameRegistry { games: Vec::new() };
    // the first append succeeds whoever requests it
    assert!(add_game(&mut r, &id(9), id(30), b"Pong".to_vec()).is_ok());
    assert_eq!(r.games.len(), 1);
    // from then on only the first entry's identity may append
    assert_eq!(
        add_game(&mut r, &id(9), id(31), b"Breakout".to_vec()).err(),
        Some(ArcadeError::Unauthorized)
    );
    assert_eq!(r.games.len(), 1);
    assert!(add_game(&mut r, &id(30), id(31), b"Breakout".to_vec()).is_ok());
    assert_eq!(r.games.len(), 2);
    // duplicate identities are accepted
    assert!(add_game(&mut r, &id(30), id(31), b"Breakout II".to_vec()).is_ok());
    assert_eq!(r.games.len(), 3);
}

#[test]
fn parse_rejects_bad_payloads() {
    assert_eq!(parse_instruction(&vec![]).err(), Some(ArcadeError::MalformedInstruction));
    assert_eq!(parse_instruction(&vec![5u8]).err(), Some(ArcadeError::MalformedInstruction));
    assert_eq!(parse_instruction(&vec![0u8; 68]).err(), Some(ArcadeError::MalformedInstruction));
    assert_eq!(parse_instruction(&vec![2u8; 40]).err(), Some(ArcadeError::MalformedInstruction));
    assert_eq!(parse_instruction(&vec![3u8; 8]).err(), Some(ArcadeError::MalformedInstruction));
    assert_eq!(parse_instruction(&vec![4u8; 36]).err(), Some(ArcadeError::MalformedInstruction));
    // a name length running past the payload end
    let mut v = init_instruction(1, 2, b"Pong");
    let n = v.len();
    v[65] = 200;
    v.truncate(n - 1);
    assert_eq!(parse_instruction(&v).err(), Some(ArcadeError::MalformedInstruction));
    // a non-UTF-8 name
    let w = init_instruction(1, 2, &[0xC0, 0xAF]);
    assert_eq!(parse_instruction(&w).err(), Some(ArcadeError::MalformedInstruction));
}

#[test]
fn parse_reads_fields() {
    match parse_instruction(&submit_instruction(50, &id(40))).unwrap() {
        Instruction::SubmitScore { score, token } => {
            assert_eq!(score, 50);
            assert_eq!(token, id(40));
        }
        _ => panic!("wrong instruction"),
    }
}

#[test]
fn example_scenario_full_lifecycle() {
    // Initialize(admin=A, payment=P, name="Pong")
    let state_buf: Vec<u8> = Vec::new();
    let registry_buf: Vec<u8> = Vec::new();
    let eff = process_instruction(
        &state_buf,
        &registry_buf,
        &id(1),
        &init_instruction(1, 2, b"Pong"),
        900,
        &id(40),
    )
    .unwrap();
    let state_buf = eff.new_state.unwrap();
    assert_eq!(eff.fee, 0);
    let g = GameState::unpack(&state_buf).unwrap();
    assert!(g.is_initialized);
    assert_eq!(g.admin, id(1));
    assert_eq!(g.cost_to_play, 0);
    assert_eq!(g.high_scores.len(), 20);
    assert!(g.high_scores.iter().all(|e| e.score == 0 && e.player == vec![0u8; 32]));

    // a second Initialize on the non-empty buffer is rejected
    assert_eq!(
        process_instruction(
            &state_buf,
            &registry_buf,
            &id(1),
            &init_instruction(1, 2, b"Pong"),
            900,
            &id(40),
        )
        .err(),
        Some(ArcadeError::AlreadyInitialized)
    );

    // StartGame(player=B, now=1000)
    let eff = process_instruction(&state_buf, &registry_buf, &id(7), &vec![1u8], 1000, &id(40))
        .unwrap();
    let state_buf = eff.new_state.unwrap();
    let g = GameState::unpack(&state_buf).unwrap();
    assert_eq!(g.game_count, 1);
    assert_eq!(g.active_sessions.len(), 1);
    assert_eq!(g.active_sessions[0].start_time, 1000);

    // SubmitScore(B, t1, score=50, now=1070): elapsed 70 >= 60 succeeds
    let eff = process_instruction(
        &state_buf,
        &registry_buf,
        &id(7),
        &submit_instruction(50, &id(40)),
        1070,
        &id(99),
    )
    .unwrap();
    let state_buf = eff.new_state.unwrap();
    let g = GameState::unpack(&state_buf).unwrap();
    assert_eq!(g.high_scores[0].player, id(7));
    assert_eq!(g.high_scores[0].score, 50);
    assert_eq!(g.high_scores.len(), 20);
    assert_eq!(g.active_sessions.len(), 0);

    // the same token again: the session is gone
    assert_eq!(
        process_instruction(
            &state_buf,
            &registry_buf,
            &id(7),
            &submit_instruction(60, &id(40)),
            1080,
            &id(99),
        )
        .err(),
        Some(ArcadeError::SessionNotFound)
    );
}

#[test]
fn process_add_game_on_registry_buffer() {
    let state_buf: Vec<u8> = Vec::new();
    let registry_buf = GameRegistry { games: Vec::new() }.pack().unwrap();
    let mut ins = vec![4u8];
    ins.extend_from_slice(&id(30));
    ins.extend_from_slice(&4u32.to_le_bytes());
    ins.extend_from_slice(b"Pong");
    let eff = process_instruction(&state_buf, &registry_buf, &id(9), &ins, 0, &id(40)).unwrap();
    assert!(eff.new_state.is_none());
    let registry_buf = eff.new_registry.unwrap();
    let r = GameRegistry::unpack(&registry_buf).unwrap();
    assert_eq!(r.games.len(), 1);
    assert_eq!(r.games[0].game_id, id(30));
    assert_eq!(r.games[0].game_name, b"Pong".to_vec());
    // the registry buffer was empty for every other opcode's target; a
    // StartGame against the empty state buffer is an encoding error
    assert_eq!(
        process_instruction(&state_buf, &registry_buf, &id(9), &vec![1u8], 0, &id(40)).err(),
        Some(ArcadeError::EncodingError)
    );
}
