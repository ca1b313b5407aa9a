//! The in-memory data model: the two persisted record types, their
//! mathematical views, and their well-formedness predicates.
use vstd::prelude::*;

use crate::utf8::valid_utf8;
use crate::DEFAULT_MIN_PLAY_SECONDS;
use crate::ID_LEN;
use crate::LEADERBOARD_SLOTS;

verus! {

/// The error taxonomy of the ledger. Every failing operation reports one of
/// these and leaves the record it was applied to unchanged.
#[derive(Clone, Copy, PartialEq, Eq, Structural, Debug)]
pub enum ArcadeError {
    /// Bad opcode, short payload, or invalid UTF-8 in a payload name.
    MalformedInstruction,
    /// Initialize was applied to a non-empty storage buffer.
    AlreadyInitialized,
    /// An instruction other than Initialize found `is_initialized` false.
    Uninitialized,
    /// The requester lacks the required authority.
    Unauthorized,
    /// No active session matches the given (player, token) pair.
    SessionNotFound,
    /// The clock reads earlier than the session's start time.
    ClockRegression,
    /// The session has not yet lasted the minimum play time.
    TooEarly,
    /// A checked counter or accumulator update would wrap.
    ArithmeticOverflow,
    /// A decode read would pass the buffer end, a length field is
    /// inconsistent, or name bytes are not UTF-8.
    EncodingError,
    /// An encode result would exceed the record's fixed capacity.
    RecordTooLarge,
}

/// One leaderboard slot: a player identity and a score.
pub struct ScoreEntry {
    pub player: Vec<u8>,
    pub score: u64,
}

/// Mathematical view of a leaderboard slot.
#[verifier::ext_equal]
pub struct ScoreEntryV {
    pub player: Seq<u8>,
    pub score: u64,
}

impl View for ScoreEntry {
    type V = ScoreEntryV;

    open spec fn view(&self) -> ScoreEntryV {
        ScoreEntryV { player: self.player@, score: self.score }
    }
}

impl DeepView for ScoreEntry {
    type V = ScoreEntryV;

    open spec fn deep_view(&self) -> ScoreEntryV {
        self@
    }
}

/// One in-progress play session: who plays, the ticket that identifies the
/// session, and when it started (unix seconds).
pub struct Session {
    pub player: Vec<u8>,
    pub token: Vec<u8>,
    pub start_time: u64,
}

/// Mathematical view of a session.
#[verifier::ext_equal]
pub struct SessionV {
    pub player: Seq<u8>,
    pub token: Seq<u8>,
    pub start_time: u64,
}

impl View for Session {
    type V = SessionV;

    open spec fn view(&self) -> SessionV {
        SessionV { player: self.player@, token: self.token@, start_time: self.start_time }
    }
}

impl DeepView for Session {
    type V = SessionV;

    open spec fn deep_view(&self) -> SessionV {
        self@
    }
}

/// The primary persisted record: configuration, leaderboard, counters and
/// the list of active sessions of one game.
pub struct GameState {
    pub admin: Vec<u8>,
    pub high_scores: Vec<ScoreEntry>,
    pub game_count: u64,
    pub prize_pool: u64,
    pub token_account: Vec<u8>,
    pub cost_to_play: u64,
    pub min_time_seconds: u32,
    pub active_sessions: Vec<Session>,
    pub is_initialized: bool,
    pub game_name: Vec<u8>,
}

/// Mathematical view of the game-state record.
#[verifier::ext_equal]
pub struct GameStateV {
    pub admin: Seq<u8>,
    pub high_scores: Seq<ScoreEntryV>,
    pub game_count: u64,
    pub prize_pool: u64,
    pub token_account: Seq<u8>,
    pub cost_to_play: u64,
    pub min_time_seconds: u32,
    pub active_sessions: Seq<SessionV>,
    pub is_initialized: bool,
    pub game_name: Seq<u8>,
}

impl View for GameState {
    type V = GameStateV;

    open spec fn view(&self) -> GameStateV {
        GameStateV {
            admin: self.admin@,
            high_scores: self.high_scores.deep_view(),
            game_count: self.game_count,
            prize_pool: self.prize_pool,
            token_account: self.token_account@,
            cost_to_play: self.cost_to_play,
            min_time_seconds: self.min_time_seconds,
            active_sessions: self.active_sessions.deep_view(),
            is_initialized: self.is_initialized,
            game_name: self.game_name@,
        }
    }
}

/// One registered game: its identity and its display name bytes.
pub struct RegistryEntry {
    pub game_id: Vec<u8>,
    pub game_name: Vec<u8>,
}

/// Mathematical view of a registry entry.
#[verifier::ext_equal]
pub struct RegistryEntryV {
    pub game_id: Seq<u8>,
    pub game_name: Seq<u8>,
}

impl View for RegistryEntry {
    type V = RegistryEntryV;

    open spec fn view(&self) -> RegistryEntryV {
        RegistryEntryV { game_id: self.game_id@, game_name: self.game_name@ }
    }
}

impl DeepView for RegistryEntry {
    type V = RegistryEntryV;

    open spec fn deep_view(&self) -> RegistryEntryV {
        self@
    }
}

/// The append-only registry of games.
pub struct GameRegistry {
    pub games: Vec<RegistryEntry>,
}

/// Mathematical view of the registry record.
#[verifier::ext_equal]
pub struct GameRegistryV {
    pub games: Seq<RegistryEntryV>,
}

impl View for GameRegistry {
    type V = GameRegistryV;

    open spec fn view(&self) -> GameRegistryV {
        GameRegistryV { games: self.games.deep_view() }
    }
}

/// An identity (or token) holds exactly 32 bytes.
pub open spec fn wf_id(b: Seq<u8>) -> bool {
    b.len() == ID_LEN
}

/// A leaderboard slot is well-formed.
pub open spec fn wf_entry(e: ScoreEntryV) -> bool {
    wf_id(e.player)
}

/// A session is well-formed.
pub open spec fn wf_session(s: SessionV) -> bool {
    wf_id(s.player) && wf_id(s.token)
}

/// A registry entry is well-formed: a 32-byte identity and UTF-8 name bytes.
pub open spec fn wf_reg_entry(e: RegistryEntryV) -> bool {
    wf_id(e.game_id) && valid_utf8(e.game_name)
}

/// The leaderboard is sorted by score, descending.
pub open spec fn sorted_desc(es: Seq<ScoreEntryV>) -> bool {
    forall|i: int, j: int| 0 <= i < j < es.len() ==> es[i].score >= es[j].score
}

/// Structural well-formedness of a game-state record: every identity holds
/// 32 bytes, the leaderboard carries exactly its 20 slots, and the name
/// bytes are valid UTF-8. This is what the codec preserves.
pub open spec fn wf_state(g: GameStateV) -> bool {
    &&& wf_id(g.admin)
    &&& wf_id(g.token_account)
    &&& g.high_scores.len() == LEADERBOARD_SLOTS
    &&& forall|i: int| 0 <= i < g.high_scores.len() ==> wf_entry(#[trigger] g.high_scores[i])
    &&& forall|i: int|
        0 <= i < g.active_sessions.len() ==> wf_session(#[trigger] g.active_sessions[i])
    &&& valid_utf8(g.game_name)
}

/// Full invariant of a live game-state record: well-formed, and the
/// leaderboard is sorted descending. Every handler preserves it.
pub open spec fn inv_state(g: GameStateV) -> bool {
    wf_state(g) && sorted_desc(g.high_scores)
}

/// Well-formedness of a registry record.
pub open spec fn wf_registry(r: GameRegistryV) -> bool {
    forall|i: int| 0 <= i < r.games.len() ==> wf_reg_entry(#[trigger] r.games[i])
}

/// Byte-for-byte equality of two byte vectors (identities, tokens).
pub fn id_eq(a: &Vec<u8>, b: &Vec<u8>) -> (r: bool)
    ensures
        r == (a@ == b@),
{
    if a.len() != b.len() {
        return false;
    }
    let n: usize = a.len();
    let mut i: usize = 0;
    while i < n
        invariant
            i <= n,
            n == a@.len(),
            a@.len() == b@.len(),
            forall|p: int| 0 <= p < i ==> a@[p] == b@[p],
        decreases n - i,
    {
        if a[i] != b[i] {
            return false;
        }
        i = i + 1;
    }
    proof {
        assert(a@ =~= b@);
    }
    true
}

/// The record a successful Initialize writes: the given admin, payment
/// account and name; zero counters and cost; the default play-time floor;
/// no sessions; a leaderboard of 20 zero-score, all-zero-identity slots;
/// and the initialized flag set.
pub open spec fn initial_state(
    admin: Seq<u8>,
    token_account: Seq<u8>,
    name: Seq<u8>,
) -> GameStateV {
    GameStateV {
        admin: admin,
        high_scores: Seq::new(
            LEADERBOARD_SLOTS as nat,
            |i: int| ScoreEntryV { player: Seq::new(ID_LEN as nat, |j: int| 0u8), score: 0u64 },
        ),
        game_count: 0,
        prize_pool: 0,
        token_account: token_account,
        cost_to_play: 0,
        min_time_seconds: DEFAULT_MIN_PLAY_SECONDS,
        active_sessions: Seq::empty(),
        is_initialized: true,
        game_name: name,
    }
}

} // verus!
