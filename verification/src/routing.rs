//! The dispatcher's routing rule: which registered participant receives an
//! event. The dispatcher itself (channels, the consumption loop) lives
//! outside the library and asks these functions for every decision.

use vstd::prelude::*;

use crate::event::Event;

verus! {

/// Whether the event is for the named participant: a targeted event reaches
/// exactly the player it names, a broadcast event reaches everyone.
pub open spec fn spec_should_deliver(event: Event, id: Seq<char>) -> bool {
    match event.spec_target() {
        Some(t) => t == id,
        None => true,
    }
}

/// Decides delivery of one event to one registered participant.
pub fn should_deliver(event: &Event, player_id: &String) -> (r: bool)
    ensures
        r == spec_should_deliver(*event, player_id@),
{
    match event.target_player() {
        Some(t) => t.eq(player_id),
        None => true,
    }
}

/// Round-start privacy: a `RoundStarted` event is delivered only to the
/// player it names — never to anyone else — and every other event variant
/// is broadcast, carrying no single player's private hand.
pub proof fn lemma_round_start_privacy(event: Event, id: Seq<char>)
    ensures
        (event matches Event::RoundStarted { player, .. } ==> (spec_should_deliver(event, id)
            <==> player.info.id@ == id)),
        (!(event matches Event::RoundStarted { .. }) ==> event.spec_target() is None
            && spec_should_deliver(event, id)),
{
}

} // verus!
