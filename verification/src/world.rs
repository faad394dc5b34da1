//! The game world the server starts with, the login hand-off to the game
//! thread, and the timing of game ticks.

use vstd::prelude::*;
use std::sync::Arc;

verus! {

/// `std::sync::RwLock`, held as it is: the login hand-off carries one.
#[verifier::external_type_specification]
#[verifier::external_body]
#[verifier::reject_recursive_types(T)]
pub struct ExRwLock<T: ?Sized>(std::sync::RwLock<T>);

broadcast use vstd::string::to_string_from_display_ensures_for_str;

/// A player known to the world.
pub struct Player {
    pub name: String,
}

/// The state of the game world that the game thread updates each tick.
pub struct World {
    pub name: String,
    pub players: Vec<Player>,
    pub should_shutdown: bool,
}

/// Builds the world the server starts with: one world named "World" that
/// holds a single player named "Player" and is not shutting down.
pub fn setup() -> (world: World)
    ensures
        world.name@ == "World"@,
        world.players@.len() == 1,
        world.players@[0].name@ == "Player"@,
        !world.should_shutdown,
{
    let world = World {
        name: "World".to_string(),
        players: vec![Player { name: "Player".to_string() }],
        should_shutdown: false,
    };
    world
}

/// A login that the network side hands over to the game thread.
pub struct LoginRequest {
    pub rw_lock_something: Arc<std::sync::RwLock<bool>>,
}

/// Length of one game tick in milliseconds.
pub const TICK_RATE_MS: u64 = 600;

/// How long the game thread sleeps after a tick that took `elapsed_ms`: the
/// rest of the tick, or nothing if the tick overran.
pub open spec fn spec_sleep_ms(elapsed_ms: u128) -> int {
    if elapsed_ms < TICK_RATE_MS { TICK_RATE_MS - elapsed_ms } else { 0 }
}

/// What the game thread does after a tick that took `elapsed_ms`: stop (`None`)
/// when the world is shutting down, else sleep for the rest of the tick.
pub fn next_tick(world: &World, elapsed_ms: u128) -> (r: Option<u64>)
    ensures
        world.should_shutdown ==> r is None,
        !world.should_shutdown ==> r == Some(spec_sleep_ms(elapsed_ms) as u64),
        r matches Some(ms) ==> ms <= TICK_RATE_MS && (elapsed_ms < TICK_RATE_MS ==> elapsed_ms + ms == TICK_RATE_MS)
            && (elapsed_ms >= TICK_RATE_MS ==> ms == 0),
{
    let sleep_ms: u64 = if elapsed_ms < TICK_RATE_MS as u128 { TICK_RATE_MS - elapsed_ms as u64 } else { 0 };
    if world.should_shutdown {
        return None;
    }
    Some(sleep_ms)
}

/// A tick sleeps for what is left of the tick: `TICK_RATE_MS - elapsed_ms` when
/// the tick took less than `TICK_RATE_MS`, and not at all when it took as long
/// or longer, so that a tick and its sleep never take longer than a tick
/// unless the tick itself did.
pub proof fn law_sleep_fills_the_tick(elapsed_ms: u128)
    ensures
        elapsed_ms < 600 ==> spec_sleep_ms(elapsed_ms) + elapsed_ms == 600,
        elapsed_ms >= 600 ==> spec_sleep_ms(elapsed_ms) == 0,
        0 <= spec_sleep_ms(elapsed_ms) <= 600,
{
}

} // verus!
