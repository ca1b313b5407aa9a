//! The append-only game registry and its ownership gate.
//!
//! The identity stored in the registry's first entry acts as the implicit
//! controlling authority: once the registry is non-empty, only that
//! identity may append. The first-ever append always succeeds, whoever
//! requests it, and establishes the authority. Duplicate game identities
//! are accepted.
use vstd::prelude::*;

use crate::types::ArcadeError;
use crate::types::GameRegistry;
use crate::types::GameRegistryV;
use crate::types::RegistryEntry;
use crate::types::RegistryEntryV;
use crate::types::id_eq;
use crate::types::wf_registry;
use crate::utf8::valid_utf8;
use crate::ID_LEN;

verus! {

/// What appending a game yields: the grown registry, or `Unauthorized`
/// when the registry is non-empty and the requester is not the identity of
/// its first entry.
pub open spec fn step_add_game(
    r: GameRegistryV,
    requester: Seq<u8>,
    game_id: Seq<u8>,
    name: Seq<u8>,
) -> Result<GameRegistryV, ArcadeError> {
    if r.games.len() > 0 && r.games[0].game_id != requester {
        Err(ArcadeError::Unauthorized)
    } else {
        Ok(GameRegistryV { games: r.games.push(RegistryEntryV { game_id: game_id, game_name: name }) })
    }
}

/// Appends (game_id, name) to the registry under the ownership gate. On
/// failure the registry is unchanged.
pub fn add_game(
    registry: &mut GameRegistry,
    requester: &Vec<u8>,
    game_id: Vec<u8>,
    game_name: Vec<u8>,
) -> (r: Result<(), ArcadeError>)
    requires
        wf_registry(old(registry)@),
        game_id@.len() == ID_LEN,
        valid_utf8(game_name@),
    ensures
        match r {
            Ok(_) => step_add_game(old(registry)@, requester@, game_id@, game_name@) == Ok::<
                _,
                ArcadeError,
            >(final(registry)@) && wf_registry(final(registry)@),
            Err(e) => {
                &&& step_add_game(old(registry)@, requester@, game_id@, game_name@)
                    == Err::<GameRegistryV, _>(e)
                &&& *final(registry) == *old(registry)
            },
        },
{
    if registry.games.len() > 0 {
        let authorized: bool = id_eq(&registry.games[0].game_id, requester);
        proof {
            assert(registry@.games[0] == registry.games@[0]@);
        }
        if !authorized {
            return Err(ArcadeError::Unauthorized);
        }
    }
    let ghost gid: Seq<u8> = game_id@;
    let ghost gname: Seq<u8> = game_name@;
    registry.games.push(RegistryEntry { game_id, game_name });
    proof {
        assert(registry@.games =~= old(registry)@.games.push(
            RegistryEntryV { game_id: gid, game_name: gname },
        ));
    }
    Ok(())
}

} // verus!
