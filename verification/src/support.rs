//! Small driver-side state: the tab set, transient status messages, and
//! per-feature settings with their defaults.

use vstd::prelude::*;

verus! {

/// The application's tabs.
#[derive(Debug, Clone, Copy, PartialEq, Eq, Structural)]
pub enum Tab {
    Unpacker,
    ReplayParser,
    Settings,
    PlayerTracker,
}

impl Tab {
    /// The tab's title.
    pub fn title(&self) -> (r: &'static str)
        ensures
            *self is Unpacker ==> r@ == "Resource Unpacker"@,
            *self is Settings ==> r@ == "Settings"@,
            *self is ReplayParser ==> r@ == "Replay Inspector"@,
            *self is PlayerTracker ==> r@ == "Player Tracker"@,
    {
        match self {
            Tab::Unpacker => "Resource Unpacker",
            Tab::Settings => "Settings",
            Tab::ReplayParser => "Replay Inspector",
            Tab::PlayerTracker => "Player Tracker",
        }
    }
}

/// How long a status message stays up, in seconds.
pub const MESSAGE_TTL_SECS: u64 = 10;

/// A status message shown until its expiry instant passes.
pub struct TimedMessage {
    pub message: String,
    pub expiration: u64,
}

impl TimedMessage {
    /// A message posted at `now` (seconds), up for [`MESSAGE_TTL_SECS`].
    /// Instants near the top of the range saturate rather than wrap.
    pub fn new(message: String, now: u64) -> (r: TimedMessage)
        ensures
            r.message == message,
            r.expiration == if now <= u64::MAX - MESSAGE_TTL_SECS {
                (now + MESSAGE_TTL_SECS) as u64
            } else {
                u64::MAX
            },
    {
        let expiration = if now <= u64::MAX - MESSAGE_TTL_SECS {
            now + MESSAGE_TTL_SECS
        } else {
            u64::MAX
        };
        TimedMessage { message, expiration }
    }

    /// Whether the message has expired by `now`.
    pub fn is_expired(&self, now: u64) -> (r: bool)
        ensures
            r == (self.expiration < now),
    {
        self.expiration < now
    }
}

/// What the replay inspector shows.
pub struct ReplaySettings {
    pub show_game_chat: bool,
    pub show_entity_id: bool,
    pub show_observed_damage: bool,
}

impl Default for ReplaySettings {
    /// Chat and observed damage on, entity ids off.
    fn default() -> (r: Self)
        ensures
            r.show_game_chat,
            !r.show_entity_id,
            r.show_observed_damage,
    {
        ReplaySettings { show_game_chat: true, show_entity_id: false, show_observed_damage: true }
    }
}

/// The boolean a settings field falls back to when absent from a persisted
/// blob.
pub fn default_bool<const V: bool>() -> (r: bool)
    ensures
        r == V,
{
    V
}

} // verus!
