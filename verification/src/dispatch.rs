//! The instruction-driven state machine.
//!
//! Every handler computes its result from plain values; nothing is written
//! back on failure, so a failed instruction leaves the persisted records
//! byte-for-byte unchanged. The hosting runtime supplies the payer identity
//! (signer-verified), the clock reading, and a fresh session token, and
//! performs the fee transfer and the actual buffer writes; `process_instruction`
//! decides everything else and hands back the new buffer contents.
use vstd::prelude::*;

use crate::codec::dec_registry;
use crate::codec::dec_state;
use crate::codec::enc_registry;
use crate::codec::enc_state;
use crate::codec::registry_len;
use crate::codec::state_len;
use crate::instructions::parse_instruction;
use crate::instructions::parse_result;
use crate::instructions::Instruction;
use crate::instructions::InstructionV;
use crate::leaderboard::insert_score;
use crate::leaderboard::inserted;
use crate::leaderboard::lemma_inserted_props;
use crate::registry::add_game;
use crate::registry::step_add_game;
use crate::sessions::consume_result;
use crate::sessions::consume_session;
use crate::sessions::find_session;
use crate::sessions::lemma_find_session_props;
use crate::sessions::session_matches;
use crate::sessions::start_session;
use crate::types::id_eq;
use crate::types::initial_state;
use crate::types::inv_state;
use crate::types::sorted_desc;
use crate::types::wf_state;
use crate::types::ArcadeError;
use crate::types::GameRegistry;
use crate::types::GameRegistryV;
use crate::types::GameState;
use crate::types::GameStateV;
use crate::types::ScoreEntry;
use crate::types::ScoreEntryV;
use crate::types::SessionV;
use crate::utf8::valid_utf8;
use crate::DEFAULT_MIN_PLAY_SECONDS;
use crate::ID_LEN;
use crate::LEADERBOARD_SLOTS;
use crate::REGISTRY_CAPACITY;
use crate::STATE_CAPACITY;

verus! {

/// A fresh all-zero identity, used for the leaderboard placeholders.
fn zero_id() -> (r: Vec<u8>)
    ensures
        r@ == Seq::new(ID_LEN as nat, |i: int| 0u8),
{
    let mut v: Vec<u8> = Vec::new();
    let mut i: usize = 0;
    while i < ID_LEN
        invariant
            i <= ID_LEN,
            v@.len() == i,
            forall|p: int| 0 <= p < i ==> v@[p] == 0u8,
        decreases ID_LEN - i,
    {
        v.push(0u8);
        i = i + 1;
    }
    proof {
        assert(v@ =~= Seq::new(ID_LEN as nat, |i: int| 0u8));
    }
    v
}

/// Builds the record Initialize writes: the given admin, payment account
/// and name; zero counters and cost; the default play-time floor; no
/// sessions; 20 zero-score, zero-identity leaderboard slots; initialized.
pub fn initialize(admin: Vec<u8>, token_account: Vec<u8>, game_name: Vec<u8>) -> (g: GameState)
    requires
        admin@.len() == ID_LEN,
        token_account@.len() == ID_LEN,
        valid_utf8(game_name@),
    ensures
        g@ == initial_state(admin@, token_account@, game_name@),
        inv_state(g@),
{
    let ghost av: Seq<u8> = admin@;
    let ghost tv: Seq<u8> = token_account@;
    let ghost nv: Seq<u8> = game_name@;
    let mut high_scores: Vec<ScoreEntry> = Vec::new();
    let mut i: usize = 0;
    while i < LEADERBOARD_SLOTS
        invariant
            i <= LEADERBOARD_SLOTS,
            high_scores@.len() == i,
            forall|p: int|
                0 <= p < i ==> #[trigger] high_scores@[p]@ == (ScoreEntryV {
                    player: Seq::new(ID_LEN as nat, |q: int| 0u8),
                    score: 0u64,
                }),
        decreases LEADERBOARD_SLOTS - i,
    {
        let z: Vec<u8> = zero_id();
        high_scores.push(ScoreEntry { player: z, score: 0 });
        i = i + 1;
    }
    let g = GameState {
        admin,
        high_scores,
        game_count: 0,
        prize_pool: 0,
        token_account,
        cost_to_play: 0,
        min_time_seconds: DEFAULT_MIN_PLAY_SECONDS,
        active_sessions: Vec::new(),
        is_initialized: true,
        game_name,
    };
    proof {
        let want = initial_state(av, tv, nv);
        assert(g@.high_scores =~= want.high_scores);
        assert(g@.active_sessions =~= want.active_sessions);
        assert(g@ =~= want);
    }
    g
}

/// After Initialize the record holds exactly 20 leaderboard slots, all
/// zero-score and zero-identity; it is initialized; the entry cost is
/// zero; the play-time floor is the 60-second default; the counters are
/// zero and no session is open.
pub proof fn lemma_initialize_props(admin: Seq<u8>, token_account: Seq<u8>, name: Seq<u8>)
    requires
        admin.len() == ID_LEN,
        token_account.len() == ID_LEN,
        valid_utf8(name),
    ensures
        ({
            let g = initial_state(admin, token_account, name);
            &&& g.high_scores.len() == LEADERBOARD_SLOTS
            &&& forall|i: int|
                0 <= i < g.high_scores.len() ==> (#[trigger] g.high_scores[i]).score == 0
                    && g.high_scores[i].player == Seq::new(ID_LEN as nat, |q: int| 0u8)
            &&& g.is_initialized
            &&& g.cost_to_play == 0
            &&& g.min_time_seconds == DEFAULT_MIN_PLAY_SECONDS
            &&& g.game_count == 0
            &&& g.prize_pool == 0
            &&& g.active_sessions.len() == 0
            &&& inv_state(g)
        }),
{
}

/// What StartGame yields on a record: the successor record and the entry
/// fee the runtime must collect, or the reason the instruction is rejected.
/// The fee is added to the prize pool and a fresh session is appended; both
/// counters grow by checked arithmetic.
pub open spec fn step_start_game(
    g: GameStateV,
    player: Seq<u8>,
    token: Seq<u8>,
    now: u64,
) -> Result<(GameStateV, u64), ArcadeError> {
    if !g.is_initialized {
        Err(ArcadeError::Uninitialized)
    } else if g.prize_pool + g.cost_to_play > u64::MAX {
        Err(ArcadeError::ArithmeticOverflow)
    } else if g.game_count + 1 > u64::MAX {
        Err(ArcadeError::ArithmeticOverflow)
    } else {
        Ok(
            (
                GameStateV {
                    prize_pool: (g.prize_pool + g.cost_to_play) as u64,
                    game_count: (g.game_count + 1) as u64,
                    active_sessions: g.active_sessions.push(
                        SessionV { player: player, token: token, start_time: now },
                    ),
                    ..g
                },
                g.cost_to_play,
            ),
        )
    }
}

/// Applies StartGame to the record. On failure the record is unchanged.
/// The returned fee equals the record's entry cost; the caller collects it
/// before persisting the successor record.
pub fn start_game(state: &mut GameState, player: &Vec<u8>, token: &Vec<u8>, now: u64) -> (r: Result<
    u64,
    ArcadeError,
>)
    requires
        wf_state(old(state)@),
        player@.len() == ID_LEN,
        token@.len() == ID_LEN,
    ensures
        match r {
            Ok(fee) => {
                &&& step_start_game(old(state)@, player@, token@, now) == Ok::<_, ArcadeError>(
                    (final(state)@, fee),
                )
                &&& wf_state(final(state)@)
                &&& final(state)@.high_scores == old(state)@.high_scores
            },
            Err(e) => {
                &&& step_start_game(old(state)@, player@, token@, now) == Err::<
                    (GameStateV, u64),
                    _,
                >(e)
                &&& *final(state) == *old(state)
            },
        },
{
    if !state.is_initialized {
        return Err(ArcadeError::Uninitialized);
    }
    if state.cost_to_play > u64::MAX - state.prize_pool {
        return Err(ArcadeError::ArithmeticOverflow);
    }
    if state.game_count == u64::MAX {
        return Err(ArcadeError::ArithmeticOverflow);
    }
    let fee: u64 = state.cost_to_play;
    state.prize_pool = state.prize_pool + fee;
    start_session(&mut state.active_sessions, player, token, now);
    state.game_count = state.game_count + 1;
    proof {
        assert(state@ =~= step_start_game(old(state)@, player@, token@, now)->Ok_0.0);
    }
    Ok(fee)
}

/// What SubmitScore yields on a record: the session is consumed under the
/// time gate, and on success the score is placed on the leaderboard.
pub open spec fn step_submit_score(
    g: GameStateV,
    player: Seq<u8>,
    token: Seq<u8>,
    score: u64,
    now: u64,
) -> Result<GameStateV, ArcadeError> {
    if !g.is_initialized {
        Err(ArcadeError::Uninitialized)
    } else {
        match consume_result(g.active_sessions, player, token, now, g.min_time_seconds) {
            Err(e) => Err(e),
            Ok(res) => Ok(
                GameStateV {
                    active_sessions: res.0,
                    high_scores: inserted(g.high_scores, player, score),
                    ..g
                },
            ),
        }
    }
}

/// Applies SubmitScore to the record. On failure the record is unchanged;
/// on success exactly the matched session is removed and the score placed.
/// A sorted leaderboard stays sorted.
pub fn submit_score(
    state: &mut GameState,
    player: &Vec<u8>,
    score: u64,
    token: &Vec<u8>,
    now: u64,
) -> (r: Result<(), ArcadeError>)
    requires
        wf_state(old(state)@),
        player@.len() == ID_LEN,
        token@.len() == ID_LEN,
    ensures
        match r {
            Ok(_) => {
                &&& step_submit_score(old(state)@, player@, token@, score, now) == Ok::<
                    _,
                    ArcadeError,
                >(final(state)@)
                &&& wf_state(final(state)@)
                &&& (sorted_desc(old(state)@.high_scores) ==> sorted_desc(
                    final(state)@.high_scores,
                ))
            },
            Err(e) => {
                &&& step_submit_score(old(state)@, player@, token@, score, now) == Err::<
                    GameStateV,
                    _,
                >(e)
                &&& *final(state) == *old(state)
            },
        },
{
    if !state.is_initialized {
        return Err(ArcadeError::Uninitialized);
    }
    let min: u32 = state.min_time_seconds;
    match consume_session(&mut state.active_sessions, player, token, now, min) {
        Ok(_) => {},
        Err(e) => {
            return Err(e);
        },
    }
    let ghost mid: GameStateV = state@;
    insert_score(&mut state.high_scores, player, score);
    proof {
        let ss0 = old(state)@.active_sessions;
        let si = find_session(ss0, player@, token@);
        lemma_find_session_props(ss0, player@, token@);
        assert(state@.active_sessions == ss0.remove(si));
        assert forall|p: int| 0 <= p < state@.active_sessions.len() implies crate::types::wf_session(
            #[trigger] state@.active_sessions[p],
        ) by {
            if p < si {
                assert(ss0.remove(si)[p] == ss0[p]);
            } else {
                assert(ss0.remove(si)[p] == ss0[p + 1]);
            }
        }
        if sorted_desc(old(state)@.high_scores) {
            lemma_inserted_props(old(state)@.high_scores, player@, score);
        }
        crate::leaderboard::lemma_insert_pos_props(old(state)@.high_scores, score);
        assert(state@.high_scores.len() == LEADERBOARD_SLOTS);
        assert forall|p: int| 0 <= p < state@.high_scores.len() implies crate::types::wf_entry(
            #[trigger] state@.high_scores[p],
        ) by {
            let es = old(state)@.high_scores;
            let i = crate::leaderboard::insert_pos(es, score);
            let whole = es.take(i) + seq![ScoreEntryV { player: player@, score: score }] + es.skip(
                i,
            );
            assert(state@.high_scores[p] == whole[p]);
        }
        assert(state@ =~= step_submit_score(old(state)@, player@, token@, score, now)->Ok_0);
    }
    Ok(())
}

/// What UpdateCost yields on a record: only the admin may change the entry
/// cost.
pub open spec fn step_update_cost(g: GameStateV, requester: Seq<u8>, new_cost: u64) -> Result<
    GameStateV,
    ArcadeError,
> {
    if !g.is_initialized {
        Err(ArcadeError::Uninitialized)
    } else if requester != g.admin {
        Err(ArcadeError::Unauthorized)
    } else {
        Ok(GameStateV { cost_to_play: new_cost, ..g })
    }
}

/// Applies UpdateCost to the record. On failure — in particular
/// `Unauthorized` for any requester other than the admin — the record, and
/// so the entry cost, is unchanged.
pub fn update_cost(state: &mut GameState, requester: &Vec<u8>, new_cost: u64) -> (r: Result<
    (),
    ArcadeError,
>)
    requires
        wf_state(old(state)@),
    ensures
        match r {
            Ok(_) => {
                &&& step_update_cost(old(state)@, requester@, new_cost) == Ok::<_, ArcadeError>(
                    final(state)@,
                )
                &&& wf_state(final(state)@)
                &&& final(state)@.high_scores == old(state)@.high_scores
            },
            Err(e) => {
                &&& step_update_cost(old(state)@, requester@, new_cost) == Err::<GameStateV, _>(e)
                &&& *final(state) == *old(state)
            },
        },
{
    if !state.is_initialized {
        return Err(ArcadeError::Uninitialized);
    }
    if !id_eq(requester, &state.admin) {
        return Err(ArcadeError::Unauthorized);
    }
    state.cost_to_play = new_cost;
    proof {
        assert(state@ =~= step_update_cost(old(state)@, requester@, new_cost)->Ok_0);
    }
    Ok(())
}

/// What a successful instruction asks the runtime to do: replace a
/// record's buffer contents, and collect a fee before doing so.
pub struct ProcessEffects {
    pub new_state: Option<Vec<u8>>,
    pub new_registry: Option<Vec<u8>>,
    pub fee: u64,
}

/// Mathematical view of the requested effects.
#[verifier::ext_equal]
pub struct ProcessEffectsV {
    pub new_state: Option<Seq<u8>>,
    pub new_registry: Option<Seq<u8>>,
    pub fee: u64,
}

impl View for ProcessEffects {
    type V = ProcessEffectsV;

    open spec fn view(&self) -> ProcessEffectsV {
        ProcessEffectsV {
            new_state: match self.new_state {
                Some(b) => Some(b@),
                None => None,
            },
            new_registry: match self.new_registry {
                Some(b) => Some(b@),
                None => None,
            },
            fee: self.fee,
        }
    }
}

/// Content padded with zero bytes up to a record's fixed capacity.
pub open spec fn padded(content: Seq<u8>, cap: int) -> Seq<u8> {
    content + Seq::new((cap - content.len()) as nat, |i: int| 0u8)
}

/// A buffer of the capacity that starts with the content and carries zero
/// bytes after it is the padded content.
proof fn lemma_padded_from_parts(b: Seq<u8>, content: Seq<u8>, cap: int)
    requires
        0 <= content.len() <= cap,
        b.len() == cap,
        b.subrange(0, content.len() as int) == content,
        forall|j: int| content.len() <= j < cap ==> b[j] == 0u8,
    ensures
        b == padded(content, cap),
{
    assert forall|j: int| 0 <= j < cap implies b[j] == padded(content, cap)[j] by {
        if j < content.len() {
            assert(b.subrange(0, content.len() as int)[j] == b[j]);
        }
    }
    assert(b =~= padded(content, cap));
}

/// The whole state machine on one instruction: parse the payload, decode
/// the targeted record, apply the transition, re-encode. Every failure
/// leaves both records untouched (no effects are produced).
pub open spec fn step_process(
    state_buf: Seq<u8>,
    registry_buf: Seq<u8>,
    payer: Seq<u8>,
    instr: Seq<u8>,
    now: u64,
    token: Seq<u8>,
) -> Result<ProcessEffectsV, ArcadeError> {
    match parse_result(instr) {
        Err(e) => Err(e),
        Ok(ins) => match ins {
            InstructionV::Initialize { admin, token_account, name } => {
                if state_buf.len() > 0 {
                    Err(ArcadeError::AlreadyInitialized)
                } else {
                    let g = initial_state(admin, token_account, name);
                    if state_len(g) > STATE_CAPACITY {
                        Err(ArcadeError::RecordTooLarge)
                    } else {
                        Ok(
                            ProcessEffectsV {
                                new_state: Some(padded(enc_state(g), STATE_CAPACITY as int)),
                                new_registry: None,
                                fee: 0,
                            },
                        )
                    }
                }
            },
            InstructionV::StartGame => {
                match dec_state(state_buf) {
                    None => Err(ArcadeError::EncodingError),
                    Some(g) => match step_start_game(g, payer, token, now) {
                        Err(e) => Err(e),
                        Ok(res) => {
                            if state_len(res.0) > STATE_CAPACITY {
                                Err(ArcadeError::RecordTooLarge)
                            } else {
                                Ok(
                                    ProcessEffectsV {
                                        new_state: Some(
                                            padded(enc_state(res.0), STATE_CAPACITY as int),
                                        ),
                                        new_registry: None,
                                        fee: res.1,
                                    },
                                )
                            }
                        },
                    },
                }
            },
            InstructionV::SubmitScore { score, token: stoken } => {
                match dec_state(state_buf) {
                    None => Err(ArcadeError::EncodingError),
                    Some(g) => match step_submit_score(g, payer, stoken, score, now) {
                        Err(e) => Err(e),
                        Ok(g2) => {
                            if state_len(g2) > STATE_CAPACITY {
                                Err(ArcadeError::RecordTooLarge)
                            } else {
                                Ok(
                                    ProcessEffectsV {
                                        new_state: Some(
                                            padded(enc_state(g2), STATE_CAPACITY as int),
                                        ),
                                        new_registry: None,
                                        fee: 0,
                                    },
                                )
                            }
                        },
                    },
                }
            },
            InstructionV::UpdateCost { new_cost } => {
                match dec_state(state_buf) {
                    None => Err(ArcadeError::EncodingError),
                    Some(g) => match step_update_cost(g, payer, new_cost) {
                        Err(e) => Err(e),
                        Ok(g2) => {
                            if state_len(g2) > STATE_CAPACITY {
                                Err(ArcadeError::RecordTooLarge)
                            } else {
                                Ok(
                                    ProcessEffectsV {
                                        new_state: Some(
                                            padded(enc_state(g2), STATE_CAPACITY as int),
                                        ),
                                        new_registry: None,
                                        fee: 0,
                                    },
                                )
                            }
                        },
                    },
                }
            },
            InstructionV::AddGame { game_id, name } => {
                match dec_registry(registry_buf) {
                    None => Err(ArcadeError::EncodingError),
                    Some(r0) => match step_add_game(r0, payer, game_id, name) {
                        Err(e) => Err(e),
                        Ok(r2) => {
                            if registry_len(r2) > REGISTRY_CAPACITY {
                                Err(ArcadeError::RecordTooLarge)
                            } else {
                                Ok(
                                    ProcessEffectsV {
                                        new_state: None,
                                        new_registry: Some(
                                            padded(enc_registry(r2), REGISTRY_CAPACITY as int),
                                        ),
                                        fee: 0,
                                    },
                                )
                            }
                        },
                    },
                }
            },
        },
    }
}

/// Executes one instruction against the current buffer contents of the two
/// records. The payer is the signer-verified requesting identity; `now` is
/// the clock reading; `fresh_token` is the runtime-generated session token
/// used only by StartGame. Returns the effects to apply atomically — or the
/// error, in which case nothing is to be written.
#[verifier::rlimit(50)]
pub fn process_instruction(
    state_buf: &Vec<u8>,
    registry_buf: &Vec<u8>,
    payer: &Vec<u8>,
    instruction_data: &Vec<u8>,
    now: u64,
    fresh_token: &Vec<u8>,
) -> (r: Result<ProcessEffects, ArcadeError>)
    requires
        payer@.len() == ID_LEN,
        fresh_token@.len() == ID_LEN,
    ensures
        match r {
            Ok(eff) => step_process(state_buf@, registry_buf@, payer@, instruction_data@, now, fresh_token@)
                == Ok::<_, ArcadeError>(eff@),
            Err(e) => step_process(
                state_buf@,
                registry_buf@,
                payer@,
                instruction_data@,
                now,
                fresh_token@,
            ) == Err::<ProcessEffectsV, _>(e),
        },
{
    let ins: Instruction = match parse_instruction(instruction_data) {
        Ok(i) => i,
        Err(e) => {
            return Err(e);
        },
    };
    match ins {
        Instruction::Initialize { admin, token_account, name } => {
            if state_buf.len() > 0 {
                return Err(ArcadeError::AlreadyInitialized);
            }
            let g: GameState = initialize(admin, token_account, name);
            let bytes: Vec<u8> = match g.pack() {
                Ok(b) => b,
                Err(e) => {
                    return Err(e);
                },
            };
            proof {
                lemma_padded_from_parts(bytes@, enc_state(g@), STATE_CAPACITY as int);
            }
            Ok(ProcessEffects { new_state: Some(bytes), new_registry: None, fee: 0 })
        },
        Instruction::StartGame => {
            let mut g: GameState = match GameState::unpack(state_buf) {
                Ok(g) => g,
                Err(e) => {
                    return Err(e);
                },
            };
            let fee: u64 = match start_game(&mut g, payer, fresh_token, now) {
                Ok(f) => f,
                Err(e) => {
                    return Err(e);
                },
            };
            let bytes: Vec<u8> = match g.pack() {
                Ok(b) => b,
                Err(e) => {
                    return Err(e);
                },
            };
            proof {
                lemma_padded_from_parts(bytes@, enc_state(g@), STATE_CAPACITY as int);
            }
            Ok(ProcessEffects { new_state: Some(bytes), new_registry: None, fee })
        },
        Instruction::SubmitScore { score, token } => {
            let mut g: GameState = match GameState::unpack(state_buf) {
                Ok(g) => g,
                Err(e) => {
                    return Err(e);
                },
            };
            match submit_score(&mut g, payer, score, &token, now) {
                Ok(_) => {},
                Err(e) => {
                    return Err(e);
                },
            }
            let bytes: Vec<u8> = match g.pack() {
                Ok(b) => b,
                Err(e) => {
                    return Err(e);
                },
            };
            proof {
                lemma_padded_from_parts(bytes@, enc_state(g@), STATE_CAPACITY as int);
            }
            Ok(ProcessEffects { new_state: Some(bytes), new_registry: None, fee: 0 })
        },
        Instruction::UpdateCost { new_cost } => {
            let mut g: GameState = match GameState::unpack(state_buf) {
                Ok(g) => g,
                Err(e) => {
                    return Err(e);
                },
            };
            match update_cost(&mut g, payer, new_cost) {
                Ok(_) => {},
                Err(e) => {
                    return Err(e);
                },
            }
            let bytes: Vec<u8> = match g.pack() {
                Ok(b) => b,
                Err(e) => {
                    return Err(e);
                },
            };
            proof {
                lemma_padded_from_parts(bytes@, enc_state(g@), STATE_CAPACITY as int);
            }
            Ok(ProcessEffects { new_state: Some(bytes), new_registry: None, fee: 0 })
        },
        Instruction::AddGame { game_id, name } => {
            let mut reg: GameRegistry = match GameRegistry::unpack(registry_buf) {
                Ok(r0) => r0,
                Err(e) => {
                    return Err(e);
                },
            };
            match add_game(&mut reg, payer, game_id, name) {
                Ok(_) => {},
                Err(e) => {
                    return Err(e);
                },
            }
            let bytes: Vec<u8> = match reg.pack() {
                Ok(b) => b,
                Err(e) => {
                    return Err(e);
                },
            };
            proof {
                crate::codec::lemma_reg_entries_len_nonneg(reg@.games);
                assert(registry_len(reg@) <= REGISTRY_CAPACITY);
                lemma_padded_from_parts(bytes@, enc_registry(reg@), REGISTRY_CAPACITY as int);
            }
            Ok(ProcessEffects { new_state: None, new_registry: Some(bytes), fee: 0 })
        },
    }
}

// ---------------------------------------------------------------------
// Laws of the state machine
// ---------------------------------------------------------------------
/// Starting a game twice with entry cost zero succeeds twice, grows the
/// play count by exactly two, and creates two distinct sessions for the
/// same player — one per (distinct) token — while the prize pool stays put.
pub proof fn lemma_start_game_twice(
    g: GameStateV,
    player: Seq<u8>,
    t1: Seq<u8>,
    t2: Seq<u8>,
    now1: u64,
    now2: u64,
)
    requires
        g.is_initialized,
        g.cost_to_play == 0,
        g.game_count + 2 <= u64::MAX,
        t1 != t2,
    ensures
        ({
            let r1 = step_start_game(g, player, t1, now1);
            &&& r1 is Ok
            &&& {
                let g1 = r1->Ok_0.0;
                let r2 = step_start_game(g1, player, t2, now2);
                &&& r2 is Ok
                &&& {
                    let g2 = r2->Ok_0.0;
                    let n = g2.active_sessions.len() as int;
                    &&& g2.game_count == g.game_count + 2
                    &&& n == g.active_sessions.len() + 2
                    &&& g2.active_sessions[n - 2] == SessionV {
                        player: player,
                        token: t1,
                        start_time: now1,
                    }
                    &&& g2.active_sessions[n - 1] == SessionV {
                        player: player,
                        token: t2,
                        start_time: now2,
                    }
                    &&& g2.active_sessions[n - 2] != g2.active_sessions[n - 1]
                    &&& g2.prize_pool == g.prize_pool
                }
            }
        }),
{
}

/// SubmitScore with a (player, token) pair matching no active session
/// always fails `SessionNotFound`; the handler then leaves the record
/// unchanged.
pub proof fn lemma_submit_score_not_found(
    g: GameStateV,
    player: Seq<u8>,
    token: Seq<u8>,
    score: u64,
    now: u64,
)
    requires
        g.is_initialized,
        forall|i: int|
            0 <= i < g.active_sessions.len() ==> !session_matches(
                #[trigger] g.active_sessions[i],
                player,
                token,
            ),
    ensures
        step_submit_score(g, player, token, score, now) == Err::<GameStateV, ArcadeError>(
            ArcadeError::SessionNotFound,
        ),
{
    lemma_find_session_props(g.active_sessions, player, token);
}

/// The time gate: with a matching session, SubmitScore succeeds exactly
/// when the elapsed time has reached the minimum play time — at the exact
/// boundary it succeeds — and a regressed clock is rejected, never treated
/// as wraparound.
pub proof fn lemma_submit_score_time_gate(
    g: GameStateV,
    player: Seq<u8>,
    token: Seq<u8>,
    score: u64,
    now: u64,
)
    requires
        g.is_initialized,
        find_session(g.active_sessions, player, token) < g.active_sessions.len(),
    ensures
        ({
            let st = g.active_sessions[find_session(g.active_sessions, player, token)].start_time;
            &&& (step_submit_score(g, player, token, score, now) is Ok <==> now >= st && now - st
                >= g.min_time_seconds)
            &&& (now >= st && now - st == g.min_time_seconds ==> step_submit_score(
                g,
                player,
                token,
                score,
                now,
            ) is Ok)
            &&& (now < st ==> step_submit_score(g, player, token, score, now) == Err::<
                GameStateV,
                ArcadeError,
            >(ArcadeError::ClockRegression))
        }),
{
    lemma_find_session_props(g.active_sessions, player, token);
}

/// UpdateCost from any requester other than the admin fails `Unauthorized`;
/// the handler then leaves the record, and so the entry cost, unchanged.
pub proof fn lemma_update_cost_unauthorized(g: GameStateV, requester: Seq<u8>, new_cost: u64)
    requires
        g.is_initialized,
        requester != g.admin,
    ensures
        step_update_cost(g, requester, new_cost) == Err::<GameStateV, ArcadeError>(
            ArcadeError::Unauthorized,
        ),
{
}

/// AddGame on an empty registry succeeds for any requester, and the
/// identity of the entry it creates becomes the sole authority for every
/// later AddGame.
pub proof fn lemma_add_game_first_sets_authority(
    r: GameRegistryV,
    requester: Seq<u8>,
    game_id: Seq<u8>,
    name: Seq<u8>,
)
    requires
        r.games.len() == 0,
    ensures
        step_add_game(r, requester, game_id, name) is Ok,
        ({
            let reg = step_add_game(r, requester, game_id, name)->Ok_0;
            &&& reg.games.len() == 1
            &&& reg.games[0].game_id == game_id
            &&& forall|req2: Seq<u8>, id2: Seq<u8>, nm2: Seq<u8>|
                (#[trigger] step_add_game(reg, req2, id2, nm2)) is Ok <==> req2 == game_id
        }),
{
}

} // verus!

