//! The 20-slot leaderboard: stable descending insertion with truncation.
//!
//! A new score is placed after every existing entry whose score is greater
//! than or equal to it (the stable tie-break: a newly arrived equal score
//! ranks below the ones already on the board), and the displaced last slot
//! falls off. The board always carries exactly its 20 slots; zero-score
//! placeholder slots take part like any other entry.
use vstd::prelude::*;

use vstd::slice::slice_to_vec;

use crate::types::sorted_desc;
use crate::types::ScoreEntry;
use crate::types::ScoreEntryV;
use crate::ID_LEN;
use crate::LEADERBOARD_SLOTS;

verus! {

/// The rank a new score lands on: the first index whose score is strictly
/// below it, or the length if there is none.
pub open spec fn insert_pos(es: Seq<ScoreEntryV>, score: u64) -> int
    decreases es.len(),
{
    if es.len() == 0 {
        0
    } else if es[0].score < score {
        0
    } else {
        1 + insert_pos(es.skip(1), score)
    }
}

/// The board after inserting a score and truncating back to the original
/// length: entries above the landing rank stay, the new entry takes the
/// rank, the rest shift down one, and the last entry falls off.
pub open spec fn inserted(es: Seq<ScoreEntryV>, player: Seq<u8>, score: u64) -> Seq<ScoreEntryV> {
    (es.take(insert_pos(es, score)) + seq![ScoreEntryV { player: player, score: score }] + es.skip(
        insert_pos(es, score),
    )).take(es.len() as int)
}

/// The landing rank is the first index with a strictly smaller score.
pub proof fn lemma_insert_pos_props(es: Seq<ScoreEntryV>, score: u64)
    ensures
        0 <= insert_pos(es, score) <= es.len(),
        forall|p: int| 0 <= p < insert_pos(es, score) ==> (#[trigger] es[p]).score >= score,
        insert_pos(es, score) < es.len() ==> es[insert_pos(es, score)].score < score,
    decreases es.len(),
{
    if es.len() > 0 && !(es[0].score < score) {
        lemma_insert_pos_props(es.skip(1), score);
        assert forall|p: int| 0 <= p < insert_pos(es, score) implies (#[trigger] es[p]).score
            >= score by {
            if p > 0 {
                assert(es.skip(1)[p - 1] == es[p]);
            }
        }
        if insert_pos(es, score) < es.len() {
            assert(es.skip(1)[insert_pos(es, score) - 1] == es[insert_pos(es, score)]);
        }
    }
}

/// Shape of the board after an insertion: same length, entries above the
/// landing rank unchanged, the new entry at the rank, the rest shifted down
/// one, so the previous last entry is displaced; and if the new score does
/// not make the board, the board is unchanged. Sortedness is kept.
pub proof fn lemma_inserted_props(es: Seq<ScoreEntryV>, player: Seq<u8>, score: u64)
    requires
        sorted_desc(es),
        es.len() >= 1,
    ensures
        inserted(es, player, score).len() == es.len(),
        sorted_desc(inserted(es, player, score)),
        insert_pos(es, score) == es.len() ==> inserted(es, player, score) == es,
        insert_pos(es, score) < es.len() ==> {
            let i = insert_pos(es, score);
            let r = inserted(es, player, score);
            &&& r[i] == ScoreEntryV { player: player, score: score }
            &&& forall|p: int| 0 <= p < i ==> r[p] == es[p]
            &&& forall|p: int| i < p < es.len() ==> r[p] == es[p - 1]
        },
{
    lemma_insert_pos_props(es, score);
    let i = insert_pos(es, score);
    let r = inserted(es, player, score);
    if i == es.len() {
        assert(r =~= es);
    } else {
        assert(r[i] == ScoreEntryV { player: player, score: score });
        assert(forall|p: int| 0 <= p < i ==> r[p] == es[p]);
        assert(forall|p: int| i < p < es.len() ==> r[p] == es[p - 1]);
        assert forall|p: int, q: int| 0 <= p < q < r.len() implies r[p].score >= r[q].score by {
            if p < i && q > i {
                assert(es[p].score >= score);
                assert(r[q] == es[q - 1]);
            } else if p == i && q > i {
                assert(r[q] == es[q - 1]);
                assert(es[q - 1].score <= es[i].score);
            }
        }
    }
}

/// A score strictly above the 20th slot's displaces that slot: the new
/// entry lands on the board, the previous last entry falls off, everything
/// else keeps its relative order, and the board stays sorted at 20 slots.
pub proof fn lemma_insert_displaces(es: Seq<ScoreEntryV>, player: Seq<u8>, score: u64)
    requires
        sorted_desc(es),
        es.len() == LEADERBOARD_SLOTS,
        score > es[es.len() - 1].score,
    ensures
        ({
            let r = inserted(es, player, score);
            let i = insert_pos(es, score);
            &&& r.len() == LEADERBOARD_SLOTS
            &&& sorted_desc(r)
            &&& 0 <= i < LEADERBOARD_SLOTS
            &&& r[i] == ScoreEntryV { player: player, score: score }
            &&& r == es.take(i) + seq![ScoreEntryV { player: player, score: score }] + es.subrange(
                i,
                es.len() - 1,
            )
        }),
{
    lemma_insert_pos_props(es, score);
    lemma_inserted_props(es, player, score);
    let r = inserted(es, player, score);
    let i = insert_pos(es, score);
    assert(i < es.len()) by {
        if i == es.len() {
            assert(es[es.len() - 1].score >= score);
        }
    }
    assert(r =~= es.take(i) + seq![ScoreEntryV { player: player, score: score }] + es.subrange(
        i,
        es.len() - 1,
    ));
}

/// Of two equal scores, the one placed earlier keeps the better rank: the
/// later insertion lands strictly below it, and neither moves the other.
pub proof fn lemma_equal_scores_stable(es: Seq<ScoreEntryV>, a: Seq<u8>, b: Seq<u8>, s: u64)
    requires
        sorted_desc(es),
        es.len() == LEADERBOARD_SLOTS,
        insert_pos(es, s) < LEADERBOARD_SLOTS,
    ensures
        ({
            let r1 = inserted(es, a, s);
            let i1 = insert_pos(es, s);
            let i2 = insert_pos(r1, s);
            &&& r1[i1] == ScoreEntryV { player: a, score: s }
            &&& i1 < i2
            &&& (i2 < LEADERBOARD_SLOTS ==> {
                let r2 = inserted(r1, b, s);
                &&& r2[i1] == ScoreEntryV { player: a, score: s }
                &&& r2[i2] == ScoreEntryV { player: b, score: s }
            })
        }),
{
    lemma_insert_pos_props(es, s);
    lemma_inserted_props(es, a, s);
    let r1 = inserted(es, a, s);
    let i1 = insert_pos(es, s);
    lemma_insert_pos_props(r1, s);
    lemma_inserted_props(r1, b, s);
    let i2 = insert_pos(r1, s);
    assert(i1 < i2) by {
        if i2 <= i1 {
            assert(r1[i2].score < s);
            if i2 < i1 {
                assert(r1[i2] == es[i2]);
                assert(es[i2].score >= s);
            }
        }
    }
}

/// Inserts a score into the board in rank order (stable: an equal score
/// ranks below those already present) and truncates back to 20 slots.
pub fn insert_score(scores: &mut Vec<ScoreEntry>, player: &Vec<u8>, score: u64)
    requires
        old(scores)@.len() == LEADERBOARD_SLOTS,
        player@.len() == ID_LEN,
    ensures
        final(scores).deep_view() == inserted(old(scores).deep_view(), player@, score),
        final(scores)@.len() == LEADERBOARD_SLOTS,
{
    let ghost dv: Seq<ScoreEntryV> = scores.deep_view();
    proof {
        lemma_insert_pos_props(dv, score);
    }
    let mut pos: usize = 0;
    while pos < LEADERBOARD_SLOTS && scores[pos].score >= score
        invariant
            pos <= LEADERBOARD_SLOTS,
            scores@.len() == LEADERBOARD_SLOTS,
            dv == scores.deep_view(),
            forall|p: int| 0 <= p < pos ==> (#[trigger] dv[p]).score >= score,
        decreases LEADERBOARD_SLOTS - pos,
    {
        pos = pos + 1;
    }
    proof {
        if pos < LEADERBOARD_SLOTS {
            assert(dv[pos as int] == scores@[pos as int]@);
        }
        assert(pos == insert_pos(dv, score));
    }
    if pos < LEADERBOARD_SLOTS {
        let pcopy: Vec<u8> = slice_to_vec(player.as_slice());
        scores.insert(pos, ScoreEntry { player: pcopy, score });
        scores.pop();
        proof {
            assert(scores.deep_view() =~= inserted(dv, player@, score));
        }
    } else {
        proof {
            assert(scores.deep_view() =~= inserted(dv, player@, score));
        }
    }
}

} // verus!
