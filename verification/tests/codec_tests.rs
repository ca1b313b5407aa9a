use arcade_program::types::ArcadeError;
use arcade_program::types::GameRegistry;
use arcade_program::types::GameState;
use arcade_program::types::RegistryEntry;
use arcade_program::types::ScoreEntry;
use arcade_program::types::Session;
use arcade_program::utf8::check_utf8;

fn id(b: u8) -> Vec<u8> {
    vec![b; 32]
}

fn sample_state() -> GameState {
    let mut high_scores = Vec::new();
    for k in 0..20u8 {
        high_scores.push(ScoreEntry {
            player: id(k),
            score: (200 - k as u64) * 5,
        });
    }
    GameState {
        admin: id(1),
        high_scores,
        game_count: 7,
        prize_pool: 4200,
        token_account: id(2),
        cost_to_play: 25,
        min_time_seconds: 60,
        active_sessions: vec![
            Session {
                player: id(3),
                token: id(9),
                start_time: 1000,
            },
            Session {
                player: id(4),
                token: id(8),
                start_time: 2000,
            },
        ],
        is_initialized: true,
        game_name: b"Pong".to_vec(),
    }
}

fn assert_states_equal(a: &GameState, b: &GameState) {
    assert_eq!(a.admin, b.admin);
    assert_eq!(a.high_scores.len(), b.high_scores.len());
    for k in 0..a.high_scores.len() {
        assert_eq!(a.high_scores[k].player, b.high_scores[k].player);
        assert_eq!(a.high_scores[k].score, b.high_scores[k].score);
    }
    assert_eq!(a.game_count, b.game_count);
    assert_eq!(a.prize_pool, b.prize_pool);
    assert_eq!(a.token_account, b.token_account);
    assert_eq!(a.cost_to_play, b.cost_to_play);
    assert_eq!(a.min_time_seconds, b.min_time_seconds);
    assert_eq!(a.active_sessions.len(), b.active_sessions.len());
    for k in 0..a.active_sessions.len() {
        assert_eq!(a.active_sessions[k].player, b.active_sessions[k].player);
        assert_eq!(a.active_sessions[k].token, b.active_sessions[k].token);
        assert_eq!(a.active_sessions[k].start_time, b.active_sessions[k].start_time);
    }
    assert_eq!(a.is_initialized, b.is_initialized);
    assert_eq!(a.game_name, b.game_name);
}

#[test]
fn state_round_trip() {
    let g = sample_state();
    let bytes = g.pack().unwrap();
    assert_eq!(bytes.len(), 3072);
    let g2 = GameState::unpack(&bytes).unwrap();
    assert_states_equal(&g, &g2);
}

#[test]
fn state_round_trip_no_sessions_empty_name() {
    let mut g = sample_state();
    g.active_sessions = Vec::new();
    g.game_name = Vec::new();
    g.is_initialized = false;
    let bytes = g.pack().unwrap();
    let g2 = GameState::unpack(&bytes).unwrap();
    assert_states_equal(&g, &g2);
}

#[test]
fn registry_round_trip() {
    let r = GameRegistry {
        games: vec![
            RegistryEntry {
                game_id: id(5),
                game_name: b"Pong".to_vec(),
            },
            RegistryEntry {
                game_id: id(6),
                game_name: b"Breakout".to_vec(),
            },
            RegistryEntry {
                game_id: id(6),
                game_name: String::from("Tetris \u{00e9}\u{6f22}").into_bytes(),
            },
        ],
    };
    let bytes = r.pack().unwrap();
    assert_eq!(bytes.len(), 4096);
    let r2 = GameRegistry::unpack(&bytes).unwrap();
    assert_eq!(r2.games.len(), 3);
    for k in 0..3 {
        assert_eq!(r.games[k].game_id, r2.games[k].game_id);
        assert_eq!(r.games[k].game_name, r2.games[k].game_name);
    }
}

#[test]
fn registry_round_trip_empty() {
    let r = GameRegistry { games: Vec::new() };
    let bytes = r.pack().unwrap();
    let r2 = GameRegistry::unpack(&bytes).unwrap();
    assert!(r2.games.is_empty());
}

#[test]
fn unpack_rejects_short_buffer() {
    assert_eq!(GameState::unpack(&vec![0u8; 900]).err(), Some(ArcadeError::EncodingError));
    assert_eq!(GameRegistry::unpack(&vec![0u8; 3]).err(), Some(ArcadeError::EncodingError));
}

#[test]
fn unpack_rejects_truncated_sessions_blob() {
    let g = sample_state();
    let bytes = g.pack().unwrap();
    // cut the buffer inside the sessions blob: 901 fixed bytes + 2 sessions
    // of 72 need 1045 content bytes; offer fewer
    let cut = bytes[..950].to_vec();
    assert!(GameState::unpack(&cut).is_err());
}

#[test]
fn unpack_rejects_truncated_name() {
    let g = sample_state();
    let bytes = g.pack().unwrap();
    // content is 901 + 144 + 4 = 1049 bytes; cut inside the name
    let cut = bytes[..1047].to_vec();
    assert_eq!(GameState::unpack(&cut).err(), Some(ArcadeError::EncodingError));
}

#[test]
fn unpack_rejects_sessions_len_not_multiple_of_72() {
    let g = sample_state();
    let mut bytes = g.pack().unwrap();
    bytes[892] = 71;
    bytes[893] = 0;
    bytes[894] = 0;
    bytes[895] = 0;
    assert_eq!(GameState::unpack(&bytes).err(), Some(ArcadeError::EncodingError));
}

#[test]
fn unpack_rejects_oversized_declared_name() {
    let mut g = sample_state();
    g.active_sessions = Vec::new();
    let mut bytes = g.pack().unwrap();
    // name length field sits at 897 for an empty sessions blob; declare a
    // name far past the buffer end
    bytes[897] = 0xFF;
    bytes[898] = 0xFF;
    bytes[899] = 0;
    bytes[900] = 0;
    assert_eq!(GameState::unpack(&bytes).err(), Some(ArcadeError::EncodingError));
}

#[test]
fn unpack_rejects_non_utf8_name() {
    let mut g = sample_state();
    g.active_sessions = Vec::new();
    g.game_name = b"ok".to_vec();
    let mut bytes = g.pack().unwrap();
    // the two name bytes sit at 901..903 for an empty sessions blob
    bytes[901] = 0xC0; // overlong-encoding lead byte: never valid UTF-8
    assert_eq!(GameState::unpack(&bytes).err(), Some(ArcadeError::EncodingError));
}

#[test]
fn registry_unpack_rejects_overdeclared_count() {
    let r = GameRegistry {
        games: vec![RegistryEntry {
            game_id: id(5),
            game_name: b"Pong".to_vec(),
        }],
    };
    let mut bytes = r.pack().unwrap();
    bytes[0] = 200; // claims 200 entries; they cannot fit the 4096 bytes
    assert_eq!(GameRegistry::unpack(&bytes).err(), Some(ArcadeError::EncodingError));
}

#[test]
fn pack_rejects_oversized_state() {
    let mut g = sample_state();
    // 31 sessions exceed what 3072 bytes can hold
    g.active_sessions = (0..31u8)
        .map(|k| Session {
            player: id(k),
            token: id(k),
            start_time: 0,
        })
        .collect();
    assert_eq!(g.pack().err(), Some(ArcadeError::RecordTooLarge));

    let mut h = sample_state();
    h.game_name = vec![b'a'; 3000];
    assert_eq!(h.pack().err(), Some(ArcadeError::RecordTooLarge));
}

#[test]
fn pack_rejects_oversized_registry() {
    let r = GameRegistry {
        games: vec![RegistryEntry {
            game_id: id(5),
            game_name: vec![b'x'; 4093],
        }],
    };
    assert_eq!(r.pack().err(), Some(ArcadeError::RecordTooLarge));
}

#[test]
fn check_utf8_agrees_with_std() {
    let cases: Vec<Vec<u8>> = vec![
        b"".to_vec(),
        b"hello".to_vec(),
        "caf\u{00e9} \u{6f22}\u{5b57} \u{1F3AE}".as_bytes().to_vec(),
        vec![0xC0, 0xAF],             // overlong
        vec![0xED, 0xA0, 0x80],       // surrogate
        vec![0xF4, 0x90, 0x80, 0x80], // above U+10FFFF
        vec![0xE2, 0x82],             // truncated sequence
        vec![0x80],                   // lone continuation
        vec![0xC2, 0xA9, 0x41],
        vec![0xF0, 0x9F, 0x98, 0x80],
        vec![0xFF],
        vec![0xC1, 0x80],
    ];
    for c in cases {
        assert_eq!(check_utf8(&c), std::str::from_utf8(&c).is_ok(), "case {:?}", c);
    }
}
