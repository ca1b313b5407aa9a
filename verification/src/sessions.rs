//! The play-session ledger: starting a session and consuming one under the
//! anti-cheat time gate.
//!
//! Sessions are matched by an exact (player, token) pair with a linear
//! scan; the first match in sequence order wins, and a consumed session is
//! removed with the order of the remaining entries preserved. A player may
//! hold several sessions at once.
use vstd::prelude::*;

use vstd::slice::slice_to_vec;

use crate::types::ArcadeError;
use crate::types::Session;
use crate::types::SessionV;
use crate::types::id_eq;
use crate::ID_LEN;

verus! {

/// The session carries exactly this player and token.
pub open spec fn session_matches(s: SessionV, player: Seq<u8>, token: Seq<u8>) -> bool {
    s.player == player && s.token == token
}

/// Index of the first session matching (player, token), or the length of
/// the ledger if none matches.
pub open spec fn find_session(ss: Seq<SessionV>, player: Seq<u8>, token: Seq<u8>) -> int
    decreases ss.len(),
{
    if ss.len() == 0 {
        0
    } else if session_matches(ss[0], player, token) {
        0
    } else {
        1 + find_session(ss.skip(1), player, token)
    }
}

/// `find_session` is the first matching index.
pub proof fn lemma_find_session_props(ss: Seq<SessionV>, player: Seq<u8>, token: Seq<u8>)
    ensures
        0 <= find_session(ss, player, token) <= ss.len(),
        forall|p: int|
            0 <= p < find_session(ss, player, token) ==> !session_matches(
                #[trigger] ss[p],
                player,
                token,
            ),
        find_session(ss, player, token) < ss.len() ==> session_matches(
            ss[find_session(ss, player, token)],
            player,
            token,
        ),
    decreases ss.len(),
{
    if ss.len() > 0 && !session_matches(ss[0], player, token) {
        lemma_find_session_props(ss.skip(1), player, token);
        assert forall|p: int| 0 <= p < find_session(ss, player, token) implies !session_matches(
            #[trigger] ss[p],
            player,
            token,
        ) by {
            if p > 0 {
                assert(ss.skip(1)[p - 1] == ss[p]);
            }
        }
        if find_session(ss, player, token) < ss.len() {
            assert(ss.skip(1)[find_session(ss, player, token) - 1] == ss[find_session(
                ss,
                player,
                token,
            )]);
        }
    }
}

/// What consuming a session yields: the remaining ledger and the session's
/// start time, or the reason the submission is rejected.
pub open spec fn consume_result(
    ss: Seq<SessionV>,
    player: Seq<u8>,
    token: Seq<u8>,
    now: u64,
    min_secs: u32,
) -> Result<(Seq<SessionV>, u64), ArcadeError> {
    let i = find_session(ss, player, token);
    if i == ss.len() {
        Err(ArcadeError::SessionNotFound)
    } else {
        let st = ss[i].start_time;
        if now < st {
            Err(ArcadeError::ClockRegression)
        } else if now - st < min_secs {
            Err(ArcadeError::TooEarly)
        } else {
            Ok((ss.remove(i), st))
        }
    }
}

/// Appends a fresh session (player, token, now) to the ledger. No
/// uniqueness constraint is placed on the player: concurrent sessions for
/// one player are permitted.
pub fn start_session(sessions: &mut Vec<Session>, player: &Vec<u8>, token: &Vec<u8>, now: u64)
    requires
        player@.len() == ID_LEN,
        token@.len() == ID_LEN,
    ensures
        final(sessions).deep_view() == old(sessions).deep_view().push(
            SessionV { player: player@, token: token@, start_time: now },
        ),
{
    let p: Vec<u8> = slice_to_vec(player.as_slice());
    let t: Vec<u8> = slice_to_vec(token.as_slice());
    sessions.push(Session { player: p, token: t, start_time: now });
    proof {
        assert(sessions.deep_view() =~= old(sessions).deep_view().push(
            SessionV { player: player@, token: token@, start_time: now },
        ));
    }
}

/// Relies on solana_program::hash::Hash::new_unique for an
/// effectively-unique 32-byte session token. Only the length is promised:
/// nothing is assumed about which bytes come back, so no two outcomes are
/// taken to be equal or distinct.
#[verifier::external_body]
fn fresh_token() -> (r: Vec<u8>)
    ensures
        r@.len() == ID_LEN,
{
    solana_program::hash::Hash::new_unique().to_bytes().to_vec()
}

/// Starts a session with a freshly generated token and hands the token
/// back. This is the self-contained form; `process_instruction` instead
/// takes the token from its caller, so that the whole transition is a
/// function of its inputs.
pub fn start_session_fresh(sessions: &mut Vec<Session>, player: &Vec<u8>, now: u64) -> (t: Vec<u8>)
    requires
        player@.len() == ID_LEN,
    ensures
        t@.len() == ID_LEN,
        final(sessions).deep_view() == old(sessions).deep_view().push(
            SessionV { player: player@, token: t@, start_time: now },
        ),
{
    let t: Vec<u8> = fresh_token();
    start_session(sessions, player, &t, now);
    t
}

/// Finds the first session matching (player, token).
fn find_session_index(sessions: &Vec<Session>, player: &Vec<u8>, token: &Vec<u8>) -> (r: Option<
    usize,
>)
    ensures
        match r {
            Some(i) => i as int == find_session(sessions.deep_view(), player@, token@) && (
            i as int) < sessions@.len(),
            None => find_session(sessions.deep_view(), player@, token@) == sessions@.len() as int,
        },
{
    let ghost dv: Seq<SessionV> = sessions.deep_view();
    proof {
        lemma_find_session_props(dv, player@, token@);
    }
    let n: usize = sessions.len();
    let mut i: usize = 0;
    while i < n
        invariant
            i <= n,
            n == sessions@.len(),
            dv == sessions.deep_view(),
            forall|p: int| 0 <= p < i ==> !session_matches(#[trigger] dv[p], player@, token@),
        decreases n - i,
    {
        let s: &Session = &sessions[i];
        if id_eq(&s.player, player) && id_eq(&s.token, token) {
            proof {
                lemma_find_session_props(dv, player@, token@);
                assert(dv[i as int] == sessions@[i as int]@);
                assert(i as int == find_session(dv, player@, token@));
            }
            return Some(i);
        }
        proof {
            assert(dv[i as int] == sessions@[i as int]@);
        }
        i = i + 1;
    }
    None
}

/// Consumes the first session matching (player, token): fails
/// `SessionNotFound` if none matches, `ClockRegression` if the clock reads
/// earlier than the session's start, `TooEarly` if the session has lasted
/// less than the minimum play time; at or past the minimum it succeeds,
/// removes exactly that session (order of the rest preserved) and returns
/// its start time. On failure the ledger is unchanged.
pub fn consume_session(
    sessions: &mut Vec<Session>,
    player: &Vec<u8>,
    token: &Vec<u8>,
    now: u64,
    min_secs: u32,
) -> (r: Result<u64, ArcadeError>)
    ensures
        match r {
            Ok(st) => consume_result(old(sessions).deep_view(), player@, token@, now, min_secs)
                == Ok::<_, ArcadeError>((final(sessions).deep_view(), st)),
            Err(e) => {
                &&& consume_result(old(sessions).deep_view(), player@, token@, now, min_secs)
                    == Err::<(Seq<SessionV>, u64), _>(e)
                &&& *final(sessions) == *old(sessions)
            },
        },
{
    let idx: usize = match find_session_index(sessions, player, token) {
        Some(i) => i,
        None => {
            return Err(ArcadeError::SessionNotFound);
        },
    };
    let st: u64 = sessions[idx].start_time;
    proof {
        assert(sessions.deep_view()[idx as int] == sessions@[idx as int]@);
    }
    if now < st {
        return Err(ArcadeError::ClockRegression);
    }
    if now - st < min_secs as u64 {
        return Err(ArcadeError::TooEarly);
    }
    sessions.remove(idx);
    proof {
        assert(sessions.deep_view() =~= old(sessions).deep_view().remove(idx as int));
    }
    Ok(st)
}

} // verus!
