//! The fixed-capacity binary codec for the two persisted record types.
//!
//! The layout is positional and little-endian. A game-state record is
//! `admin(32) · 20×[player(32)+score(8)] · game_count(8) · prize_pool(8) ·
//! token_account(32) · cost_to_play(8) · min_time_seconds(4) ·
//! sessions_byte_len(4) · sessions(72 each) · is_initialized(1) ·
//! name_len(4) · name`, padded with zeroes to 3072 bytes. A registry record
//! is `entry_count(4) · repeated [game_id(32)+name_len(4)+name]`, padded to
//! 4096 bytes. Decoding validates every length field against the buffer end
//! and rejects non-UTF-8 name bytes; encoding rejects a record whose content
//! would not fit its capacity.
use vstd::prelude::*;

use vstd::bytes::lemma_auto_spec_u32_to_from_le_bytes;
use vstd::bytes::lemma_auto_spec_u64_to_from_le_bytes;
use vstd::bytes::spec_u32_from_le_bytes;
use vstd::bytes::spec_u32_to_le_bytes;
use vstd::bytes::spec_u64_from_le_bytes;
use vstd::bytes::spec_u64_to_le_bytes;
use vstd::bytes::u32_from_le_bytes;
use vstd::bytes::u32_to_le_bytes;
use vstd::bytes::u64_from_le_bytes;
use vstd::bytes::u64_to_le_bytes;
use vstd::slice::slice_subrange;
use vstd::slice::slice_to_vec;

use crate::types::ArcadeError;
use crate::types::GameRegistry;
use crate::types::GameRegistryV;
use crate::types::GameState;
use crate::types::GameStateV;
use crate::types::RegistryEntry;
use crate::types::RegistryEntryV;
use crate::types::ScoreEntry;
use crate::types::ScoreEntryV;
use crate::types::Session;
use crate::types::SessionV;
use crate::types::wf_entry;
use crate::types::wf_reg_entry;
use crate::types::wf_registry;
use crate::types::wf_session;
use crate::types::wf_state;
use crate::utf8::check_utf8;
use crate::utf8::valid_utf8;
use crate::REGISTRY_CAPACITY;
use crate::STATE_CAPACITY;

verus! {

// ---------------------------------------------------------------------
// Specification of the encoding
// ---------------------------------------------------------------------
/// Little-endian bytes of a `u32` length or count field.
pub open spec fn enc_u32(x: u32) -> Seq<u8> {
    spec_u32_to_le_bytes(x)
}

/// Little-endian bytes of a `u64` field.
pub open spec fn enc_u64(x: u64) -> Seq<u8> {
    spec_u64_to_le_bytes(x)
}

/// The byte a boolean flag encodes to.
pub open spec fn bool_byte(b: bool) -> u8 {
    if b {
        1u8
    } else {
        0u8
    }
}

/// One leaderboard slot: 40 bytes.
pub open spec fn enc_score_entry(e: ScoreEntryV) -> Seq<u8> {
    e.player + enc_u64(e.score)
}

/// The leaderboard slots, concatenated in order.
pub open spec fn enc_score_entries(es: Seq<ScoreEntryV>) -> Seq<u8>
    decreases es.len(),
{
    if es.len() == 0 {
        Seq::empty()
    } else {
        enc_score_entry(es[0]) + enc_score_entries(es.skip(1))
    }
}

/// One session: 72 bytes, no per-entry length prefix.
pub open spec fn enc_session(s: SessionV) -> Seq<u8> {
    s.player + s.token + enc_u64(s.start_time)
}

/// The active sessions, concatenated in order.
pub open spec fn enc_sessions(ss: Seq<SessionV>) -> Seq<u8>
    decreases ss.len(),
{
    if ss.len() == 0 {
        Seq::empty()
    } else {
        enc_session(ss[0]) + enc_sessions(ss.skip(1))
    }
}

/// Byte length of the encoded content of a game-state record (before
/// padding): a 901-byte skeleton, 72 bytes per session, and the name.
pub open spec fn state_len(g: GameStateV) -> int {
    901 + 72 * (g.active_sessions.len() as int) + (g.game_name.len() as int)
}

/// The encoded content of a game-state record, before padding.
pub open spec fn enc_state(g: GameStateV) -> Seq<u8> {
    g.admin + enc_score_entries(g.high_scores) + enc_u64(g.game_count) + enc_u64(g.prize_pool)
        + g.token_account + enc_u64(g.cost_to_play) + enc_u32(g.min_time_seconds) + enc_u32(
        (72 * g.active_sessions.len()) as u32,
    ) + enc_sessions(g.active_sessions) + seq![bool_byte(g.is_initialized)] + enc_u32(
        g.game_name.len() as u32,
    ) + g.game_name
}

// ---------------------------------------------------------------------
// Specification of the decoding
// ---------------------------------------------------------------------
/// The leaderboard slot whose 40 bytes start at `off`.
pub open spec fn dec_score_entry_at(b: Seq<u8>, off: int) -> ScoreEntryV {
    ScoreEntryV {
        player: b.subrange(off, off + 32),
        score: spec_u64_from_le_bytes(b.subrange(off + 32, off + 40)),
    }
}

/// The session whose 72 bytes start at `off`.
pub open spec fn dec_session_at(b: Seq<u8>, off: int) -> SessionV {
    SessionV {
        player: b.subrange(off, off + 32),
        token: b.subrange(off + 32, off + 64),
        start_time: spec_u64_from_le_bytes(b.subrange(off + 64, off + 72)),
    }
}

/// What decoding a game-state buffer yields: the record, or nothing where a
/// read would pass the buffer end, the sessions length is not a whole
/// number of 72-byte entries, or the name bytes are not UTF-8.
pub open spec fn dec_state(b: Seq<u8>) -> Option<GameStateV> {
    if b.len() < 901 {
        None
    } else {
        let sl: int = spec_u32_from_le_bytes(b.subrange(892, 896)) as int;
        if sl % 72 != 0 || 901 + sl > b.len() {
            None
        } else {
            let nl: int = spec_u32_from_le_bytes(b.subrange(897 + sl, 901 + sl)) as int;
            if 901 + sl + nl > b.len() {
                None
            } else if !valid_utf8(b.subrange(901 + sl, 901 + sl + nl)) {
                None
            } else {
                Some(
                    GameStateV {
                        admin: b.subrange(0, 32),
                        high_scores: Seq::new(20, |i: int| dec_score_entry_at(b, 32 + 40 * i)),
                        game_count: spec_u64_from_le_bytes(b.subrange(832, 840)),
                        prize_pool: spec_u64_from_le_bytes(b.subrange(840, 848)),
                        token_account: b.subrange(848, 880),
                        cost_to_play: spec_u64_from_le_bytes(b.subrange(880, 888)),
                        min_time_seconds: spec_u32_from_le_bytes(b.subrange(888, 892)),
                        active_sessions: Seq::new(
                            (sl / 72) as nat,
                            |i: int| dec_session_at(b, 896 + 72 * i),
                        ),
                        is_initialized: b[896 + sl] != 0,
                        game_name: b.subrange(901 + sl, 901 + sl + nl),
                    },
                )
            }
        }
    }
}

// ---------------------------------------------------------------------
// Lemmas about the encoding
// ---------------------------------------------------------------------
/// Appending a slot to the leaderboard appends its 40 bytes.
pub proof fn lemma_enc_score_entries_snoc(es: Seq<ScoreEntryV>, e: ScoreEntryV)
    ensures
        enc_score_entries(es.push(e)) == enc_score_entries(es) + enc_score_entry(e),
    decreases es.len(),
{
    let p = es.push(e);
    assert(enc_score_entries(p) == enc_score_entry(p[0]) + enc_score_entries(p.skip(1)));
    if es.len() == 0 {
        assert(p[0] == e);
        assert(p.skip(1) =~= Seq::<ScoreEntryV>::empty());
        assert(enc_score_entries(p.skip(1)) == Seq::<u8>::empty());
        assert(enc_score_entries(es) == Seq::<u8>::empty());
        assert(enc_score_entry(e) + Seq::<u8>::empty() =~= enc_score_entry(e));
        assert(Seq::<u8>::empty() + enc_score_entry(e) =~= enc_score_entry(e));
    } else {
        assert(p[0] == es[0]);
        assert(p.skip(1) =~= es.skip(1).push(e));
        lemma_enc_score_entries_snoc(es.skip(1), e);
        assert(enc_score_entry(es[0]) + (enc_score_entries(es.skip(1)) + enc_score_entry(e)) =~= (
        enc_score_entry(es[0]) + enc_score_entries(es.skip(1))) + enc_score_entry(e));
    }
}

/// Each well-formed slot contributes exactly 40 bytes.
pub proof fn lemma_enc_score_entries_len(es: Seq<ScoreEntryV>)
    requires
        forall|i: int| 0 <= i < es.len() ==> wf_entry(#[trigger] es[i]),
    ensures
        enc_score_entries(es).len() == 40 * es.len(),
    decreases es.len(),
{
    lemma_auto_spec_u64_to_from_le_bytes();
    if es.len() > 0 {
        assert(forall|i: int| 0 <= i < es.skip(1).len() ==> wf_entry(#[trigger] es.skip(1)[i]));
        lemma_enc_score_entries_len(es.skip(1));
    }
}

/// The 40-byte chunk at slot `i` is the encoding of slot `i`.
pub proof fn lemma_enc_score_entries_index(es: Seq<ScoreEntryV>, i: int)
    requires
        forall|j: int| 0 <= j < es.len() ==> wf_entry(#[trigger] es[j]),
        0 <= i < es.len(),
    ensures
        enc_score_entries(es).subrange(40 * i, 40 * i + 40) == enc_score_entry(es[i]),
    decreases i,
{
    lemma_auto_spec_u64_to_from_le_bytes();
    lemma_enc_score_entries_len(es);
    if i == 0 {
        assert(enc_score_entries(es).subrange(0, 40) =~= enc_score_entry(es[0]));
    } else {
        assert(forall|j: int| 0 <= j < es.skip(1).len() ==> wf_entry(#[trigger] es.skip(1)[j]));
        lemma_enc_score_entries_index(es.skip(1), i - 1);
        lemma_enc_score_entries_len(es.skip(1));
        assert(enc_score_entries(es).subrange(40 * i, 40 * i + 40) =~= enc_score_entries(
            es.skip(1),
        ).subrange(40 * (i - 1), 40 * (i - 1) + 40));
    }
}

/// Appending a session appends its 72 bytes.
pub proof fn lemma_enc_sessions_snoc(ss: Seq<SessionV>, s: SessionV)
    ensures
        enc_sessions(ss.push(s)) == enc_sessions(ss) + enc_session(s),
    decreases ss.len(),
{
    let p = ss.push(s);
    assert(enc_sessions(p) == enc_session(p[0]) + enc_sessions(p.skip(1)));
    if ss.len() == 0 {
        assert(p[0] == s);
        assert(p.skip(1) =~= Seq::<SessionV>::empty());
        assert(enc_sessions(p.skip(1)) == Seq::<u8>::empty());
        assert(enc_sessions(ss) == Seq::<u8>::empty());
        assert(enc_session(s) + Seq::<u8>::empty() =~= enc_session(s));
        assert(Seq::<u8>::empty() + enc_session(s) =~= enc_session(s));
    } else {
        assert(p[0] == ss[0]);
        assert(p.skip(1) =~= ss.skip(1).push(s));
        lemma_enc_sessions_snoc(ss.skip(1), s);
        assert(enc_session(ss[0]) + (enc_sessions(ss.skip(1)) + enc_session(s)) =~= (enc_session(
            ss[0],
        ) + enc_sessions(ss.skip(1))) + enc_session(s));
    }
}

/// Each well-formed session contributes exactly 72 bytes.
pub proof fn lemma_enc_sessions_len(ss: Seq<SessionV>)
    requires
        forall|i: int| 0 <= i < ss.len() ==> wf_session(#[trigger] ss[i]),
    ensures
        enc_sessions(ss).len() == 72 * ss.len(),
    decreases ss.len(),
{
    lemma_auto_spec_u64_to_from_le_bytes();
    if ss.len() > 0 {
        assert(forall|i: int| 0 <= i < ss.skip(1).len() ==> wf_session(#[trigger] ss.skip(1)[i]));
        lemma_enc_sessions_len(ss.skip(1));
    }
}

/// The 72-byte chunk at position `i` is the encoding of session `i`.
pub proof fn lemma_enc_sessions_index(ss: Seq<SessionV>, i: int)
    requires
        forall|j: int| 0 <= j < ss.len() ==> wf_session(#[trigger] ss[j]),
        0 <= i < ss.len(),
    ensures
        enc_sessions(ss).subrange(72 * i, 72 * i + 72) == enc_session(ss[i]),
    decreases i,
{
    lemma_auto_spec_u64_to_from_le_bytes();
    lemma_enc_sessions_len(ss);
    if i == 0 {
        assert(enc_sessions(ss).subrange(0, 72) =~= enc_session(ss[0]));
    } else {
        assert(forall|j: int| 0 <= j < ss.skip(1).len() ==> wf_session(#[trigger] ss.skip(1)[j]));
        lemma_enc_sessions_index(ss.skip(1), i - 1);
        lemma_enc_sessions_len(ss.skip(1));
        assert(enc_sessions(ss).subrange(72 * i, 72 * i + 72) =~= enc_sessions(ss.skip(1)).subrange(
            72 * (i - 1),
            72 * (i - 1) + 72,
        ));
    }
}

/// The encoded content of a well-formed record has length `state_len`.
pub proof fn lemma_enc_state_len(g: GameStateV)
    requires
        wf_state(g),
    ensures
        enc_state(g).len() == state_len(g),
{
    lemma_auto_spec_u64_to_from_le_bytes();
    lemma_auto_spec_u32_to_from_le_bytes();
    lemma_enc_score_entries_len(g.high_scores);
    lemma_enc_sessions_len(g.active_sessions);
}

// ---------------------------------------------------------------------
// Executable helpers
// ---------------------------------------------------------------------
/// Appends all bytes of `src` to `out`.
fn push_bytes(out: &mut Vec<u8>, src: &Vec<u8>)
    ensures
        final(out)@ == old(out)@ + src@,
{
    let n: usize = src.len();
    let mut i: usize = 0;
    proof {
        assert(old(out)@ + src@.take(0) =~= old(out)@);
    }
    while i < n
        invariant
            i <= n,
            n == src@.len(),
            out@ == old(out)@ + src@.take(i as int),
        decreases n - i,
    {
        let b: u8 = src[i];
        out.push(b);
        proof {
            assert(old(out)@ + src@.take(i + 1) =~= (old(out)@ + src@.take(i as int)).push(b));
        }
        i = i + 1;
    }
    proof {
        assert(src@.take(n as int) =~= src@);
    }
}

/// Reads the `u32` at byte offset `off`.
pub(crate) fn read_u32(src: &Vec<u8>, off: usize) -> (x: u32)
    requires
        off + 4 <= src@.len(),
    ensures
        x == spec_u32_from_le_bytes(src@.subrange(off as int, off + 4)),
{
    let l: usize = src.len();
    proof {
        assert(off + 4 <= l);
    }
    u32_from_le_bytes(slice_subrange(src.as_slice(), off, off + 4))
}

/// Reads the `u64` at byte offset `off`.
pub(crate) fn read_u64(src: &Vec<u8>, off: usize) -> (x: u64)
    requires
        off + 8 <= src@.len(),
    ensures
        x == spec_u64_from_le_bytes(src@.subrange(off as int, off + 8)),
{
    let l: usize = src.len();
    proof {
        assert(off + 8 <= l);
    }
    u64_from_le_bytes(slice_subrange(src.as_slice(), off, off + 8))
}

/// Copies `len` bytes starting at offset `off` out of the buffer.
pub(crate) fn read_bytes(src: &Vec<u8>, off: usize, len: usize) -> (r: Vec<u8>)
    requires
        off + len <= src@.len(),
    ensures
        r@ == src@.subrange(off as int, off + len),
{
    let l: usize = src.len();
    proof {
        assert(off + len <= l);
    }
    slice_to_vec(slice_subrange(src.as_slice(), off, off + len))
}

// ---------------------------------------------------------------------
// Executable codec for the game-state record
// ---------------------------------------------------------------------
impl GameState {
    /// Encodes the record into a fresh 3072-byte buffer: the content
    /// followed by zero padding. Fails with `RecordTooLarge`, and only
    /// then, when the content would exceed the capacity.
    pub fn pack(&self) -> (r: Result<Vec<u8>, ArcadeError>)
        requires
            wf_state(self@),
        ensures
            state_len(self@) <= STATE_CAPACITY ==> {
                &&& r is Ok
                &&& r->Ok_0@.len() == STATE_CAPACITY
                &&& r->Ok_0@.subrange(0, state_len(self@)) == enc_state(self@)
                &&& forall|j: int| state_len(self@) <= j < STATE_CAPACITY ==> r->Ok_0@[j] == 0u8
            },
            state_len(self@) > STATE_CAPACITY ==> r == Err::<Vec<u8>, ArcadeError>(
                ArcadeError::RecordTooLarge,
            ),
    {
        let k: usize = self.active_sessions.len();
        let n: usize = self.game_name.len();
        if k > 30 || n > STATE_CAPACITY {
            return Err(ArcadeError::RecordTooLarge);
        }
        let sess_bytes: usize = 72 * k;
        let total: usize = 901 + sess_bytes + n;
        if total > STATE_CAPACITY {
            return Err(ArcadeError::RecordTooLarge);
        }
        let mut out: Vec<u8> = Vec::new();
        push_bytes(&mut out, &self.admin);
        proof {
            assert(self@.high_scores.take(0) =~= Seq::<ScoreEntryV>::empty());
            assert(out@ =~= self@.admin + enc_score_entries(self@.high_scores.take(0)));
        }
        let mut i: usize = 0;
        while i < 20
            invariant
                i <= 20,
                wf_state(self@),
                out@ == self@.admin + enc_score_entries(self@.high_scores.take(i as int)),
            decreases 20 - i,
        {
            let e: &ScoreEntry = &self.high_scores[i];
            push_bytes(&mut out, &e.player);
            let sb: Vec<u8> = u64_to_le_bytes(e.score);
            push_bytes(&mut out, &sb);
            proof {
                let hs = self@.high_scores;
                lemma_enc_score_entries_snoc(hs.take(i as int), hs[i as int]);
                assert(hs.take(i as int).push(hs[i as int]) =~= hs.take(i + 1));
                assert(out@ =~= self@.admin + enc_score_entries(hs.take(i + 1)));
            }
            i = i + 1;
        }
        proof {
            assert(self@.high_scores.take(20) =~= self@.high_scores);
        }
        let gb: Vec<u8> = u64_to_le_bytes(self.game_count);
        push_bytes(&mut out, &gb);
        let pb: Vec<u8> = u64_to_le_bytes(self.prize_pool);
        push_bytes(&mut out, &pb);
        push_bytes(&mut out, &self.token_account);
        let cb: Vec<u8> = u64_to_le_bytes(self.cost_to_play);
        push_bytes(&mut out, &cb);
        let mb: Vec<u8> = u32_to_le_bytes(self.min_time_seconds);
        push_bytes(&mut out, &mb);
        let slb: Vec<u8> = u32_to_le_bytes(sess_bytes as u32);
        push_bytes(&mut out, &slb);
        proof {
            assert(sess_bytes as u32 == (72 * self@.active_sessions.len()) as u32);
            assert(self@.active_sessions.take(0) =~= Seq::<SessionV>::empty());
            assert(enc_sessions(self@.active_sessions.take(0)) =~= Seq::<u8>::empty());
            assert(out@ + enc_sessions(self@.active_sessions.take(0)) =~= out@);
        }
        let ghost mid: Seq<u8> = out@;
        let mut j: usize = 0;
        while j < k
            invariant
                j <= k,
                k == self@.active_sessions.len(),
                wf_state(self@),
                out@ == mid + enc_sessions(self@.active_sessions.take(j as int)),
            decreases k - j,
        {
            let s: &Session = &self.active_sessions[j];
            push_bytes(&mut out, &s.player);
            push_bytes(&mut out, &s.token);
            let tb: Vec<u8> = u64_to_le_bytes(s.start_time);
            push_bytes(&mut out, &tb);
            proof {
                let ss = self@.active_sessions;
                lemma_enc_sessions_snoc(ss.take(j as int), ss[j as int]);
                assert(ss.take(j as int).push(ss[j as int]) =~= ss.take(j + 1));
                assert(out@ =~= mid + enc_sessions(ss.take(j + 1)));
            }
            j = j + 1;
        }
        proof {
            assert(self@.active_sessions.take(k as int) =~= self@.active_sessions);
        }
        let ib: u8 = if self.is_initialized {
            1
        } else {
            0
        };
        out.push(ib);
        proof {
            assert(out@ =~= mid + enc_sessions(self@.active_sessions) + seq![
                bool_byte(self@.is_initialized),
            ]);
        }
        let nb: Vec<u8> = u32_to_le_bytes(n as u32);
        push_bytes(&mut out, &nb);
        push_bytes(&mut out, &self.game_name);
        proof {
            assert(n as u32 == self@.game_name.len() as u32);
            assert(out@ =~= enc_state(self@));
            lemma_enc_state_len(self@);
        }
        let ghost content: Seq<u8> = out@;
        while out.len() < STATE_CAPACITY
            invariant
                content == enc_state(self@),
                content.len() == state_len(self@),
                state_len(self@) <= out@.len() <= STATE_CAPACITY,
                out@.subrange(0, state_len(self@)) == content,
                forall|p: int| state_len(self@) <= p < out@.len() ==> out@[p] == 0u8,
            decreases STATE_CAPACITY - out@.len(),
        {
            out.push(0u8);
            proof {
                assert(out@.subrange(0, state_len(self@)) =~= content);
            }
        }
        Ok(out)
    }

    /// Decodes a game-state record from a buffer, validating every length
    /// field against the buffer end and the name bytes as UTF-8. Succeeds
    /// exactly when `dec_state` yields a record, and then yields that
    /// record, which is well-formed; otherwise fails with `EncodingError`.
    pub fn unpack(src: &Vec<u8>) -> (r: Result<GameState, ArcadeError>)
        ensures
            match r {
                Ok(g) => dec_state(src@) == Some(g@) && wf_state(g@),
                Err(e) => {
                    &&& dec_state(src@) is None
                    &&& e == ArcadeError::EncodingError
                },
            },
    {
        if src.len() < 901 {
            return Err(ArcadeError::EncodingError);
        }
        let sl32: u32 = read_u32(src, 892);
        let sl: usize = sl32 as usize;
        if sl % 72 != 0 || sl > src.len() - 901 {
            return Err(ArcadeError::EncodingError);
        }
        let k: usize = sl / 72;
        let nl32: u32 = read_u32(src, 897 + sl);
        let nl: usize = nl32 as usize;
        if nl > src.len() - 901 - sl {
            return Err(ArcadeError::EncodingError);
        }
        let game_name: Vec<u8> = read_bytes(src, 901 + sl, nl);
        if !check_utf8(&game_name) {
            return Err(ArcadeError::EncodingError);
        }
        let admin: Vec<u8> = read_bytes(src, 0, 32);
        let mut high_scores: Vec<ScoreEntry> = Vec::new();
        let mut i: usize = 0;
        while i < 20
            invariant
                i <= 20,
                src@.len() >= 901,
                high_scores@.len() == i,
                forall|p: int|
                    0 <= p < i ==> #[trigger] high_scores@[p]@ == dec_score_entry_at(
                        src@,
                        32 + 40 * p,
                    ),
            decreases 20 - i,
        {
            let player: Vec<u8> = read_bytes(src, 32 + 40 * i, 32);
            let score: u64 = read_u64(src, 64 + 40 * i);
            high_scores.push(ScoreEntry { player, score });
            i = i + 1;
        }
        proof {
            assert(high_scores.deep_view() =~= Seq::new(
                20,
                |p: int| dec_score_entry_at(src@, 32 + 40 * p),
            ));
        }
        let game_count: u64 = read_u64(src, 832);
        let prize_pool: u64 = read_u64(src, 840);
        let token_account: Vec<u8> = read_bytes(src, 848, 32);
        let cost_to_play: u64 = read_u64(src, 880);
        let min_time_seconds: u32 = read_u32(src, 888);
        let mut active_sessions: Vec<Session> = Vec::new();
        let l: usize = src.len();
        let mut j: usize = 0;
        while j < k
            invariant
                j <= k,
                sl == 72 * k,
                l == src@.len(),
                901 + sl <= l,
                active_sessions@.len() == j,
                forall|p: int|
                    0 <= p < j ==> #[trigger] active_sessions@[p]@ == dec_session_at(
                        src@,
                        896 + 72 * p,
                    ),
            decreases k - j,
        {
            let off: usize = 896 + 72 * j;
            let player: Vec<u8> = read_bytes(src, off, 32);
            let token: Vec<u8> = read_bytes(src, off + 32, 32);
            let start_time: u64 = read_u64(src, off + 64);
            active_sessions.push(Session { player, token, start_time });
            j = j + 1;
        }
        proof {
            assert(active_sessions.deep_view() =~= Seq::new(
                k as nat,
                |p: int| dec_session_at(src@, 896 + 72 * p),
            ));
        }
        let is_initialized: bool = src[896 + sl] != 0;
        let g = GameState {
            admin,
            high_scores,
            game_count,
            prize_pool,
            token_account,
            cost_to_play,
            min_time_seconds,
            active_sessions,
            is_initialized,
            game_name,
        };
        proof {
            assert(dec_state(src@) is Some);
            let d = dec_state(src@)->Some_0;
            assert(g@.high_scores =~= d.high_scores);
            assert(g@.active_sessions =~= d.active_sessions);
            assert(g@ =~= d);
            assert(dec_state(src@) == Some(g@));
            assert forall|p: int| 0 <= p < g@.high_scores.len() implies wf_entry(
                #[trigger] g@.high_scores[p],
            ) by {
                assert(g@.high_scores[p] == dec_score_entry_at(src@, 32 + 40 * p));
            }
            assert forall|p: int| 0 <= p < g@.active_sessions.len() implies wf_session(
                #[trigger] g@.active_sessions[p],
            ) by {
                assert(g@.active_sessions[p] == dec_session_at(src@, 896 + 72 * p));
            }
        }
        Ok(g)
    }
}

// ---------------------------------------------------------------------
// Round trip: decoding an encoded record gives the record back
// ---------------------------------------------------------------------
/// Decoding any buffer that begins with the encoded content of a
/// well-formed, capacity-respecting record yields exactly that record;
/// in particular, decode inverts encode.
pub proof fn lemma_state_round_trip(g: GameStateV, b: Seq<u8>)
    requires
        wf_state(g),
        state_len(g) <= STATE_CAPACITY,
        b.len() >= state_len(g),
        b.subrange(0, state_len(g)) == enc_state(g),
    ensures
        dec_state(b) == Some(g),
{
    lemma_auto_spec_u64_to_from_le_bytes();
    lemma_auto_spec_u32_to_from_le_bytes();
    lemma_enc_score_entries_len(g.high_scores);
    lemma_enc_sessions_len(g.active_sessions);
    lemma_enc_state_len(g);
    let k: int = g.active_sessions.len() as int;
    let n: int = g.game_name.len() as int;
    let e: Seq<u8> = enc_state(g);
    assert forall|p: int| 0 <= p < state_len(g) implies #[trigger] b[p] == e[p] by {
        assert(b.subrange(0, state_len(g))[p] == b[p]);
    }
    // the sessions byte-length field reads back as 72 * k
    assert(b.subrange(892, 896) =~= enc_u32((72 * g.active_sessions.len()) as u32));
    let sl: int = spec_u32_from_le_bytes(b.subrange(892, 896)) as int;
    assert(sl == 72 * k);
    assert(sl % 72 == 0) by (nonlinear_arith)
        requires sl == 72 * k, k >= 0,
    ;
    assert(sl / 72 == k) by (nonlinear_arith)
        requires sl == 72 * k, k >= 0,
    ;
    assert(901 + sl <= b.len());
    // the name length field reads back as the name length
    assert(b.subrange(897 + sl, 901 + sl) =~= enc_u32(g.game_name.len() as u32));
    let nl: int = spec_u32_from_le_bytes(b.subrange(897 + sl, 901 + sl)) as int;
    assert(nl == n);
    assert(901 + sl + nl <= b.len());
    assert(b.subrange(901 + sl, 901 + sl + nl) =~= g.game_name);
    assert(dec_state(b) is Some);
    let d = dec_state(b)->Some_0;
    // fixed-offset fields
    assert(b.subrange(0, 32) =~= g.admin);
    assert(b.subrange(832, 840) =~= enc_u64(g.game_count));
    assert(b.subrange(840, 848) =~= enc_u64(g.prize_pool));
    assert(b.subrange(848, 880) =~= g.token_account);
    assert(b.subrange(880, 888) =~= enc_u64(g.cost_to_play));
    assert(b.subrange(888, 892) =~= enc_u32(g.min_time_seconds));
    // the leaderboard slots
    assert(b.subrange(32, 832) =~= enc_score_entries(g.high_scores));
    assert forall|i: int| 0 <= i < 20 implies d.high_scores[i] == g.high_scores[i] by {
        lemma_enc_score_entries_index(g.high_scores, i);
        assert(b.subrange(32 + 40 * i, 32 + 40 * i + 40) =~= enc_score_entries(
            g.high_scores,
        ).subrange(40 * i, 40 * i + 40));
        assert(b.subrange(32 + 40 * i, 32 + 40 * i + 32) =~= enc_score_entry(
            g.high_scores[i],
        ).subrange(0, 32));
        assert(enc_score_entry(g.high_scores[i]).subrange(0, 32) =~= g.high_scores[i].player);
        assert forall|t: int| 0 <= t < 8 implies b.subrange(32 + 40 * i + 32, 32 + 40 * i + 40)[t]
            == enc_u64(g.high_scores[i].score)[t] by {
            assert(b.subrange(32 + 40 * i, 32 + 40 * i + 40)[32 + t] == enc_score_entry(
                g.high_scores[i],
            )[32 + t]);
            assert(b.subrange(32 + 40 * i, 32 + 40 * i + 40)[32 + t] == b[32 + 40 * i + 32 + t]);
            assert(b.subrange(32 + 40 * i + 32, 32 + 40 * i + 40)[t] == b[32 + 40 * i + 32 + t]);
        }
        assert(b.subrange(32 + 40 * i + 32, 32 + 40 * i + 40) =~= enc_u64(g.high_scores[i].score));
        assert(d.high_scores[i] =~= g.high_scores[i]);
    }
    assert(d.high_scores =~= g.high_scores);
    // the sessions
    assert(b.subrange(896, 896 + sl) =~= enc_sessions(g.active_sessions));
    assert forall|i: int| 0 <= i < k implies d.active_sessions[i] == g.active_sessions[i] by {
        lemma_enc_sessions_index(g.active_sessions, i);
        assert(b.subrange(896 + 72 * i, 896 + 72 * i + 72) =~= enc_sessions(
            g.active_sessions,
        ).subrange(72 * i, 72 * i + 72));
        let es: Seq<u8> = enc_session(g.active_sessions[i]);
        assert(b.subrange(896 + 72 * i, 896 + 72 * i + 32) =~= es.subrange(0, 32));
        assert(es.subrange(0, 32) =~= g.active_sessions[i].player);
        assert(b.subrange(896 + 72 * i + 32, 896 + 72 * i + 64) =~= es.subrange(32, 64));
        assert(es.subrange(32, 64) =~= g.active_sessions[i].token);
        assert forall|t: int| 0 <= t < 8 implies b.subrange(896 + 72 * i + 64, 896 + 72 * i + 72)[t]
            == enc_u64(g.active_sessions[i].start_time)[t] by {
            assert(b.subrange(896 + 72 * i, 896 + 72 * i + 72)[64 + t] == es[64 + t]);
            assert(b.subrange(896 + 72 * i, 896 + 72 * i + 72)[64 + t] == b[896 + 72 * i + 64 + t]);
            assert(b.subrange(896 + 72 * i + 64, 896 + 72 * i + 72)[t] == b[896 + 72 * i + 64 + t]);
        }
        assert(b.subrange(896 + 72 * i + 64, 896 + 72 * i + 72) =~= enc_u64(
            g.active_sessions[i].start_time,
        ));
        assert(d.active_sessions[i] =~= g.active_sessions[i]);
    }
    assert(d.active_sessions =~= g.active_sessions);
    // the initialized flag: encode writes 1 or 0, decode tests non-zero
    assert(b[896 + sl] == bool_byte(g.is_initialized));
    assert(d =~= g);
}

/// Decoding rejects every truncation of an encoded record: a buffer cut
/// anywhere before the record's content ends — in the fixed skeleton, the
/// sessions blob, or the name — yields nothing, and no read passes the
/// buffer end.
pub proof fn lemma_dec_state_rejects_truncation(g: GameStateV, b: Seq<u8>, n: int)
    requires
        wf_state(g),
        state_len(g) <= STATE_CAPACITY,
        b.len() >= state_len(g),
        b.subrange(0, state_len(g)) == enc_state(g),
        0 <= n < state_len(g),
    ensures
        dec_state(b.subrange(0, n)) is None,
{
    lemma_auto_spec_u32_to_from_le_bytes();
    lemma_enc_score_entries_len(g.high_scores);
    lemma_enc_sessions_len(g.active_sessions);
    lemma_enc_state_len(g);
    let t = b.subrange(0, n);
    let e: Seq<u8> = enc_state(g);
    let k: int = g.active_sessions.len() as int;
    assert forall|p: int| 0 <= p < n implies #[trigger] t[p] == e[p] by {
        assert(b.subrange(0, state_len(g))[p] == b[p]);
    }
    if n >= 901 {
        assert(t.subrange(892, 896) =~= enc_u32((72 * g.active_sessions.len()) as u32));
        let sl: int = spec_u32_from_le_bytes(t.subrange(892, 896)) as int;
        assert(sl == 72 * k);
        if 901 + sl <= n {
            assert(t.subrange(897 + sl, 901 + sl) =~= enc_u32(g.game_name.len() as u32));
            let nl: int = spec_u32_from_le_bytes(t.subrange(897 + sl, 901 + sl)) as int;
            assert(nl == g.game_name.len());
            assert(901 + sl + nl == state_len(g));
            assert(901 + sl + nl > t.len());
        }
    }
}

// ---------------------------------------------------------------------
// Specification of the registry encoding and decoding
// ---------------------------------------------------------------------
/// One registry entry: 36 bytes of identity and name length, then the name.
pub open spec fn enc_reg_entry(e: RegistryEntryV) -> Seq<u8> {
    e.game_id + enc_u32(e.game_name.len() as u32) + e.game_name
}

/// The registry entries, concatenated in order.
pub open spec fn enc_reg_entries(es: Seq<RegistryEntryV>) -> Seq<u8>
    decreases es.len(),
{
    if es.len() == 0 {
        Seq::empty()
    } else {
        enc_reg_entry(es[0]) + enc_reg_entries(es.skip(1))
    }
}

/// Byte length of the encoded registry entries.
pub open spec fn reg_entries_len(es: Seq<RegistryEntryV>) -> int
    decreases es.len(),
{
    if es.len() == 0 {
        0
    } else {
        36 + (es[0].game_name.len() as int) + reg_entries_len(es.skip(1))
    }
}

/// Byte length of the encoded content of a registry record.
pub open spec fn registry_len(r: GameRegistryV) -> int {
    4 + reg_entries_len(r.games)
}

/// The encoded content of a registry record, before padding.
pub open spec fn enc_registry(r: GameRegistryV) -> Seq<u8> {
    enc_u32(r.games.len() as u32) + enc_reg_entries(r.games)
}

/// What decoding `count` registry entries starting at `off` yields.
pub open spec fn dec_reg_entries(b: Seq<u8>, off: int, count: int) -> Option<Seq<RegistryEntryV>>
    decreases count,
{
    if count <= 0 {
        Some(Seq::empty())
    } else if off + 36 > b.len() {
        None
    } else {
        let nl: int = spec_u32_from_le_bytes(b.subrange(off + 32, off + 36)) as int;
        if off + 36 + nl > b.len() {
            None
        } else if !valid_utf8(b.subrange(off + 36, off + 36 + nl)) {
            None
        } else {
            let head = RegistryEntryV {
                game_id: b.subrange(off, off + 32),
                game_name: b.subrange(off + 36, off + 36 + nl),
            };
            match dec_reg_entries(b, off + 36 + nl, count - 1) {
                Some(rest) => Some(seq![head] + rest),
                None => None,
            }
        }
    }
}

/// What decoding a registry buffer yields.
pub open spec fn dec_registry(b: Seq<u8>) -> Option<GameRegistryV> {
    if b.len() < 4 {
        None
    } else {
        let c: int = spec_u32_from_le_bytes(b.subrange(0, 4)) as int;
        match dec_reg_entries(b, 4, c) {
            Some(es) => Some(GameRegistryV { games: es }),
            None => None,
        }
    }
}

// ---------------------------------------------------------------------
// Lemmas about the registry encoding
// ---------------------------------------------------------------------
/// Encoded registry entries never have negative length.
pub proof fn lemma_reg_entries_len_nonneg(es: Seq<RegistryEntryV>)
    ensures
        reg_entries_len(es) >= 0,
    decreases es.len(),
{
    if es.len() > 0 {
        lemma_reg_entries_len_nonneg(es.skip(1));
    }
}

/// Every entry takes at least 36 bytes.
pub proof fn lemma_reg_entries_len_lower(es: Seq<RegistryEntryV>)
    ensures
        reg_entries_len(es) >= 36 * es.len(),
    decreases es.len(),
{
    if es.len() > 0 {
        lemma_reg_entries_len_lower(es.skip(1));
    }
}

/// Each entry's own bytes are counted within the total.
pub proof fn lemma_reg_entries_len_elem(es: Seq<RegistryEntryV>, i: int)
    requires
        0 <= i < es.len(),
    ensures
        reg_entries_len(es) >= 36 + es[i].game_name.len(),
    decreases i,
{
    if i == 0 {
        lemma_reg_entries_len_nonneg(es.skip(1));
    } else {
        lemma_reg_entries_len_elem(es.skip(1), i - 1);
        assert(es.skip(1)[i - 1] == es[i]);
    }
}

/// Appending an entry appends its bytes.
pub proof fn lemma_enc_reg_entries_snoc(es: Seq<RegistryEntryV>, e: RegistryEntryV)
    ensures
        enc_reg_entries(es.push(e)) == enc_reg_entries(es) + enc_reg_entry(e),
        reg_entries_len(es.push(e)) == reg_entries_len(es) + 36 + e.game_name.len(),
    decreases es.len(),
{
    let p = es.push(e);
    assert(enc_reg_entries(p) == enc_reg_entry(p[0]) + enc_reg_entries(p.skip(1)));
    assert(reg_entries_len(p) == 36 + (p[0].game_name.len() as int) + reg_entries_len(p.skip(1)));
    if es.len() == 0 {
        assert(p[0] == e);
        assert(p.skip(1) =~= Seq::<RegistryEntryV>::empty());
        assert(enc_reg_entries(p.skip(1)) == Seq::<u8>::empty());
        assert(enc_reg_entries(es) == Seq::<u8>::empty());
        assert(enc_reg_entry(e) + Seq::<u8>::empty() =~= enc_reg_entry(e));
        assert(Seq::<u8>::empty() + enc_reg_entry(e) =~= enc_reg_entry(e));
    } else {
        assert(p[0] == es[0]);
        assert(p.skip(1) =~= es.skip(1).push(e));
        lemma_enc_reg_entries_snoc(es.skip(1), e);
        assert(enc_reg_entry(es[0]) + (enc_reg_entries(es.skip(1)) + enc_reg_entry(e)) =~= (
        enc_reg_entry(es[0]) + enc_reg_entries(es.skip(1))) + enc_reg_entry(e));
    }
}

/// The encoded entries take exactly `reg_entries_len` bytes.
pub proof fn lemma_enc_reg_entries_len(es: Seq<RegistryEntryV>)
    requires
        forall|i: int| 0 <= i < es.len() ==> wf_reg_entry(#[trigger] es[i]),
    ensures
        enc_reg_entries(es).len() == reg_entries_len(es),
    decreases es.len(),
{
    lemma_auto_spec_u32_to_from_le_bytes();
    if es.len() > 0 {
        assert(forall|i: int|
            0 <= i < es.skip(1).len() ==> wf_reg_entry(#[trigger] es.skip(1)[i]));
        lemma_enc_reg_entries_len(es.skip(1));
    }
}

/// Decoding `es.len()` entries from a buffer region that holds their
/// encoding gives the entries back.
proof fn lemma_reg_entries_round_trip(es: Seq<RegistryEntryV>, b: Seq<u8>, off: int)
    requires
        forall|i: int| 0 <= i < es.len() ==> wf_reg_entry(#[trigger] es[i]),
        forall|i: int| 0 <= i < es.len() ==> (#[trigger] es[i].game_name.len()) <= 0xffff_ffff,
        0 <= off,
        off + reg_entries_len(es) <= b.len(),
        b.subrange(off, off + reg_entries_len(es)) == enc_reg_entries(es),
    ensures
        dec_reg_entries(b, off, es.len() as int) == Some(es),
    decreases es.len(),
{
    lemma_auto_spec_u32_to_from_le_bytes();
    lemma_reg_entries_len_nonneg(es);
    lemma_enc_reg_entries_len(es);
    if es.len() == 0 {
    } else {
        let e0 = es[0];
        let n0: int = e0.game_name.len() as int;
        let tail = es.skip(1);
        let rl: int = reg_entries_len(es);
        lemma_reg_entries_len_nonneg(tail);
        assert(forall|i: int| 0 <= i < tail.len() ==> wf_reg_entry(#[trigger] tail[i]));
        assert(forall|i: int|
            0 <= i < tail.len() ==> (#[trigger] tail[i].game_name.len()) <= 0xffff_ffff);
        lemma_enc_reg_entries_len(tail);
        assert forall|p: int| 0 <= p < rl implies #[trigger] b[off + p] == enc_reg_entries(es)[p] by {
            assert(b.subrange(off, off + rl)[p] == b[off + p]);
        }
        assert forall|t: int| 0 <= t < 32 implies b.subrange(off, off + 32)[t] == e0.game_id[t] by {
            assert(b[off + t] == enc_reg_entries(es)[t]);
            assert(b.subrange(off, off + 32)[t] == b[off + t]);
        }
        assert(b.subrange(off, off + 32) =~= e0.game_id);
        assert forall|t: int|
            #![trigger b.subrange(off + 32, off + 36)[t]]
            0 <= t < 4 implies b.subrange(off + 32, off + 36)[t] == enc_u32(n0 as u32)[t] by {
            assert(b[off + 32 + t] == enc_reg_entries(es)[32 + t]);
            assert(b.subrange(off + 32, off + 36)[t] == b[off + 32 + t]);
        }
        assert(b.subrange(off + 32, off + 36) =~= enc_u32(n0 as u32));
        let nl: int = spec_u32_from_le_bytes(b.subrange(off + 32, off + 36)) as int;
        assert(nl == n0);
        assert forall|t: int| 0 <= t < n0 implies b.subrange(off + 36, off + 36 + n0)[t]
            == e0.game_name[t] by {
            assert(b[off + 36 + t] == enc_reg_entries(es)[36 + t]);
            assert(b.subrange(off + 36, off + 36 + n0)[t] == b[off + 36 + t]);
        }
        assert(b.subrange(off + 36, off + 36 + n0) =~= e0.game_name);
        let head = RegistryEntryV {
            game_id: b.subrange(off, off + 32),
            game_name: b.subrange(off + 36, off + 36 + nl),
        };
        assert(head =~= e0);
        let tl: int = reg_entries_len(tail);
        assert forall|t: int| 0 <= t < tl implies b.subrange(off + 36 + n0, off + 36 + n0 + tl)[t]
            == enc_reg_entries(tail)[t] by {
            assert(b[off + 36 + n0 + t] == enc_reg_entries(es)[36 + n0 + t]);
            assert(b.subrange(off + 36 + n0, off + 36 + n0 + tl)[t] == b[off + 36 + n0 + t]);
        }
        assert(b.subrange(off + 36 + n0, off + 36 + n0 + tl) =~= enc_reg_entries(tail));
        lemma_reg_entries_round_trip(tail, b, off + 36 + n0);
        assert(seq![e0] + tail =~= es);
    }
}

impl GameRegistry {
    /// Encodes the registry into a fresh 4096-byte buffer: the content
    /// followed by zero padding. Fails with `RecordTooLarge`, and only
    /// then, when the content would exceed the capacity.
    pub fn pack(&self) -> (r: Result<Vec<u8>, ArcadeError>)
        requires
            wf_registry(self@),
        ensures
            registry_len(self@) <= REGISTRY_CAPACITY ==> {
                &&& r is Ok
                &&& r->Ok_0@.len() == REGISTRY_CAPACITY
                &&& r->Ok_0@.subrange(0, registry_len(self@)) == enc_registry(self@)
                &&& forall|j: int| registry_len(self@) <= j < REGISTRY_CAPACITY ==> r->Ok_0@[j] == 0u8
            },
            registry_len(self@) > REGISTRY_CAPACITY ==> r == Err::<Vec<u8>, ArcadeError>(
                ArcadeError::RecordTooLarge,
            ),
    {
        let m: usize = self.games.len();
        if m > 113 {
            proof {
                lemma_reg_entries_len_lower(self@.games);
            }
            return Err(ArcadeError::RecordTooLarge);
        }
        // first pass: the content must fit the capacity
        let mut total: usize = 4;
        let mut i: usize = 0;
        proof {
            assert(self@.games.take(0) =~= Seq::<RegistryEntryV>::empty());
        }
        while i < m
            invariant
                i <= m,
                m == self@.games.len(),
                wf_registry(self@),
                total == 4 + reg_entries_len(self@.games.take(i as int)),
                total <= REGISTRY_CAPACITY,
            decreases m - i,
        {
            let nlen: usize = self.games[i].game_name.len();
            if nlen > REGISTRY_CAPACITY || total + 36 + nlen > REGISTRY_CAPACITY {
                proof {
                    let gs = self@.games;
                    assert(gs.skip(i as int)[0] == gs[i as int]);
                    assert(gs.skip(i as int).skip(1) =~= gs.skip(i as int + 1));
                    lemma_reg_entries_len_nonneg(gs.skip(i as int + 1));
                    lemma_reg_entries_split(gs, i as int);
                }
                return Err(ArcadeError::RecordTooLarge);
            }
            total = total + 36 + nlen;
            proof {
                let gs = self@.games;
                lemma_enc_reg_entries_snoc(gs.take(i as int), gs[i as int]);
                assert(gs.take(i as int).push(gs[i as int]) =~= gs.take(i + 1));
            }
            i = i + 1;
        }
        proof {
            assert(self@.games.take(m as int) =~= self@.games);
        }
        // second pass: write the bytes
        let mut out: Vec<u8> = Vec::new();
        let cb: Vec<u8> = u32_to_le_bytes(m as u32);
        push_bytes(&mut out, &cb);
        proof {
            assert(m as u32 == self@.games.len() as u32);
            assert(self@.games.take(0) =~= Seq::<RegistryEntryV>::empty());
            assert(enc_reg_entries(self@.games.take(0)) == Seq::<u8>::empty());
            assert(out@ + enc_reg_entries(self@.games.take(0)) =~= out@);
        }
        let ghost mid: Seq<u8> = out@;
        let mut i: usize = 0;
        while i < m
            invariant
                i <= m,
                m == self@.games.len(),
                wf_registry(self@),
                registry_len(self@) <= REGISTRY_CAPACITY,
                mid == enc_u32(self@.games.len() as u32),
                out@ == mid + enc_reg_entries(self@.games.take(i as int)),
            decreases m - i,
        {
            let e: &RegistryEntry = &self.games[i];
            push_bytes(&mut out, &e.game_id);
            proof {
                lemma_reg_entries_len_elem(self@.games, i as int);
                lemma_reg_entries_len_nonneg(self@.games);
            }
            let nl: usize = e.game_name.len();
            let nb: Vec<u8> = u32_to_le_bytes(nl as u32);
            push_bytes(&mut out, &nb);
            push_bytes(&mut out, &e.game_name);
            proof {
                let gs = self@.games;
                lemma_enc_reg_entries_snoc(gs.take(i as int), gs[i as int]);
                assert(gs.take(i as int).push(gs[i as int]) =~= gs.take(i + 1));
                assert(nl as u32 == gs[i as int].game_name.len() as u32);
                assert(out@ =~= mid + enc_reg_entries(gs.take(i + 1)));
            }
            i = i + 1;
        }
        proof {
            assert(self@.games.take(m as int) =~= self@.games);
            assert(out@ =~= enc_registry(self@));
            lemma_enc_reg_entries_len(self@.games);
        }
        let ghost content: Seq<u8> = out@;
        while out.len() < REGISTRY_CAPACITY
            invariant
                content == enc_registry(self@),
                content.len() == registry_len(self@),
                registry_len(self@) <= out@.len() <= REGISTRY_CAPACITY,
                out@.subrange(0, registry_len(self@)) == content,
                forall|p: int| registry_len(self@) <= p < out@.len() ==> out@[p] == 0u8,
            decreases REGISTRY_CAPACITY - out@.len(),
        {
            out.push(0u8);
            proof {
                assert(out@.subrange(0, registry_len(self@)) =~= content);
            }
        }
        Ok(out)
    }

    /// Decodes a registry record from a buffer, validating the entry count
    /// and every name length against the buffer end and each name as UTF-8.
    /// Succeeds exactly when `dec_registry` yields a registry, and then
    /// yields that registry, which is well-formed; otherwise fails with
    /// `EncodingError`.
    pub fn unpack(src: &Vec<u8>) -> (r: Result<GameRegistry, ArcadeError>)
        ensures
            match r {
                Ok(g) => dec_registry(src@) == Some(g@) && wf_registry(g@),
                Err(e) => {
                    &&& dec_registry(src@) is None
                    &&& e == ArcadeError::EncodingError
                },
            },
    {
        let l: usize = src.len();
        if l < 4 {
            return Err(ArcadeError::EncodingError);
        }
        let c32: u32 = read_u32(src, 0);
        let count: usize = c32 as usize;
        let mut games: Vec<RegistryEntry> = Vec::new();
        let mut off: usize = 4;
        let mut j: usize = 0;
        proof {
            assert(games.deep_view() =~= Seq::<RegistryEntryV>::empty());
            assert(Seq::<RegistryEntryV>::empty() + dec_reg_entries(
                src@,
                4,
                count as int,
            )->Some_0 =~= dec_reg_entries(src@, 4, count as int)->Some_0);
        }
        while j < count
            invariant
                j <= count,
                l == src@.len(),
                l >= 4,
                count as int == spec_u32_from_le_bytes(src@.subrange(0, 4)) as int,
                4 <= off <= l,
                games@.len() == j,
                forall|p: int| 0 <= p < j ==> wf_reg_entry(#[trigger] games@[p]@),
                dec_reg_entries(src@, 4, count as int) == match dec_reg_entries(
                    src@,
                    off as int,
                    count as int - j as int,
                ) {
                    Some(rest) => Some(games.deep_view() + rest),
                    None => None::<Seq<RegistryEntryV>>,
                },
            decreases count - j,
        {
            if l - off < 36 {
                proof {
                    assert(dec_reg_entries(src@, off as int, count as int - j as int) is None);
                    assert(dec_registry(src@) is None);
                }
                return Err(ArcadeError::EncodingError);
            }
            let game_id: Vec<u8> = read_bytes(src, off, 32);
            let nl32: u32 = read_u32(src, off + 32);
            let nl: usize = nl32 as usize;
            if nl > l - off - 36 {
                proof {
                    assert(dec_reg_entries(src@, off as int, count as int - j as int) is None);
                    assert(dec_registry(src@) is None);
                }
                return Err(ArcadeError::EncodingError);
            }
            let game_name: Vec<u8> = read_bytes(src, off + 36, nl);
            if !check_utf8(&game_name) {
                return Err(ArcadeError::EncodingError);
            }
            let ghost pre: Seq<RegistryEntryV> = games.deep_view();
            let ghost head: RegistryEntryV = RegistryEntryV {
                game_id: src@.subrange(off as int, off + 32),
                game_name: src@.subrange(off + 36, off + 36 + nl),
            };
            games.push(RegistryEntry { game_id, game_name });
            proof {
                assert(games.deep_view() =~= pre.push(head));
                let rest_opt = dec_reg_entries(src@, off + 36 + nl, count as int - j as int - 1);
                if rest_opt is Some {
                    assert(pre.push(head) + rest_opt->Some_0 =~= pre + (seq![head]
                        + rest_opt->Some_0));
                }
            }
            off = off + 36 + nl;
            j = j + 1;
        }
        proof {
            assert(games.deep_view() + Seq::<RegistryEntryV>::empty() =~= games.deep_view());
        }
        let g = GameRegistry { games };
        proof {
            assert(dec_registry(src@) == Some(g@));
        }
        Ok(g)
    }
}

/// The encoded entries split at any index.
pub proof fn lemma_reg_entries_split(es: Seq<RegistryEntryV>, i: int)
    requires
        0 <= i <= es.len(),
    ensures
        reg_entries_len(es) == reg_entries_len(es.take(i)) + reg_entries_len(es.skip(i)),
    decreases i,
{
    if i == 0 {
        assert(es.take(0) =~= Seq::<RegistryEntryV>::empty());
        assert(es.skip(0) =~= es);
    } else {
        lemma_reg_entries_split(es.skip(1), i - 1);
        assert(es.skip(1).take(i - 1) =~= es.take(i).skip(1));
        assert(es.skip(1).skip(i - 1) =~= es.skip(i));
        assert(es.take(i)[0] == es[0]);
        assert(reg_entries_len(es.take(i)) == 36 + (es[0].game_name.len() as int)
            + reg_entries_len(es.take(i).skip(1)));
    }
}

/// Decoding any buffer that begins with the encoded content of a
/// well-formed, capacity-respecting registry yields that registry back.
pub proof fn lemma_registry_round_trip(r: GameRegistryV, b: Seq<u8>)
    requires
        wf_registry(r),
        registry_len(r) <= REGISTRY_CAPACITY,
        b.len() >= registry_len(r),
        b.subrange(0, registry_len(r)) == enc_registry(r),
    ensures
        dec_registry(b) == Some(r),
{
    lemma_auto_spec_u32_to_from_le_bytes();
    lemma_reg_entries_len_nonneg(r.games);
    lemma_reg_entries_len_lower(r.games);
    lemma_enc_reg_entries_len(r.games);
    let rl: int = registry_len(r);
    assert forall|p: int| 0 <= p < rl implies #[trigger] b[p] == enc_registry(r)[p] by {
        assert(b.subrange(0, rl)[p] == b[p]);
    }
    assert(b.subrange(0, 4) =~= enc_u32(r.games.len() as u32));
    let c: int = spec_u32_from_le_bytes(b.subrange(0, 4)) as int;
    assert(c == r.games.len());
    assert forall|i: int|
        0 <= i < r.games.len() implies (#[trigger] r.games[i].game_name.len()) <= 0xffff_ffff by {
        lemma_reg_entries_len_elem(r.games, i);
    }
    let el: int = reg_entries_len(r.games);
    assert forall|t: int| 0 <= t < el implies b.subrange(4, 4 + el)[t] == enc_reg_entries(
        r.games,
    )[t] by {
        assert(b[4 + t] == enc_registry(r)[4 + t]);
        assert(b.subrange(4, 4 + el)[t] == b[4 + t]);
    }
    assert(b.subrange(4, 4 + el) =~= enc_reg_entries(r.games));
    lemma_reg_entries_round_trip(r.games, b, 4);
    assert(GameRegistryV { games: r.games } =~= r);
}

} // verus!
