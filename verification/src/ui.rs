//! The state behind the interface: game speed, the debug switch, and the
//! messages shown to the player.

use crate::geometry::{clamp_i32, saturate};
use vstd::prelude::*;

verus! {

/// How fast game time runs.
#[derive(Clone, Copy, Debug, PartialEq, Eq, Structural)]
pub enum GameSpeed {
    Paused,
    Normal,
    Fast,
    VeryFast,
}

impl Default for GameSpeed {
    fn default() -> (r: Self)
        ensures
            r == GameSpeed::Normal,
    {
        GameSpeed::Normal
    }
}

impl GameSpeed {
    /// How many times faster than the clock game time runs.
    pub open spec fn factor(self) -> u32 {
        match self {
            GameSpeed::Paused => 0,
            GameSpeed::Normal => 1,
            GameSpeed::Fast => 2,
            GameSpeed::VeryFast => 4,
        }
    }

    /// The name shown to the player.
    pub open spec fn name(self) -> Seq<char> {
        match self {
            GameSpeed::Paused => "Paused"@,
            GameSpeed::Normal => "Normal"@,
            GameSpeed::Fast => "Fast"@,
            GameSpeed::VeryFast => "Very Fast"@,
        }
    }

    /// How many times faster than the clock game time runs.
    pub fn multiplier(&self) -> (m: u32)
        ensures
            m == self.factor(),
    {
        match self {
            GameSpeed::Paused => 0,
            GameSpeed::Normal => 1,
            GameSpeed::Fast => 2,
            GameSpeed::VeryFast => 4,
        }
    }

    /// The name shown to the player.
    pub fn label(&self) -> (s: &'static str)
        ensures
            s@ == self.name(),
    {
        match self {
            GameSpeed::Paused => "Paused",
            GameSpeed::Normal => "Normal",
            GameSpeed::Fast => "Fast",
            GameSpeed::VeryFast => "Very Fast",
        }
    }
}

/// The game clock's setting.
#[derive(Clone, Copy, Debug, PartialEq, Eq, Structural)]
pub struct GameTime {
    pub speed: GameSpeed,
}

impl Default for GameTime {
    fn default() -> (r: Self)
        ensures
            r.speed == GameSpeed::Normal,
    {
        GameTime { speed: GameSpeed::Normal }
    }
}

/// Whether the debug panel and overlays are shown.
#[derive(Clone, Copy, Debug, PartialEq, Eq, Structural)]
pub struct DebugVisible(pub bool);

impl Default for DebugVisible {
    fn default() -> (r: Self)
        ensures
            r.0 == false,
    {
        DebugVisible(false)
    }
}

/// The speed keys that went down this frame.
#[derive(Clone, Copy, Debug)]
pub struct SpeedKeys {
    /// Pause or resume.
    pub pause: bool,
    pub normal: bool,
    pub fast: bool,
    pub very_fast: bool,
    /// Show or hide the debug panel.
    pub debug: bool,
}

/// The speed after the keys: a speed key sets its speed, the fastest of
/// several winning; the pause key alone pauses, or resumes at normal speed.
pub open spec fn speed_after(speed: GameSpeed, keys: SpeedKeys) -> GameSpeed {
    if keys.very_fast {
        GameSpeed::VeryFast
    } else if keys.fast {
        GameSpeed::Fast
    } else if keys.normal {
        GameSpeed::Normal
    } else if keys.pause {
        if speed == GameSpeed::Paused {
            GameSpeed::Normal
        } else {
            GameSpeed::Paused
        }
    } else {
        speed
    }
}

/// Applies the speed keys and the debug key. Nothing happens while the
/// interface has the keyboard.
pub fn speed_controls(
    ui_wants_keyboard: bool,
    keys: SpeedKeys,
    game_time: &mut GameTime,
    debug_visible: &mut DebugVisible,
)
    ensures
        final(game_time).speed == (if ui_wants_keyboard {
            old(game_time).speed
        } else {
            speed_after(old(game_time).speed, keys)
        }),
        final(debug_visible).0 == (if !ui_wants_keyboard && keys.debug {
            !old(debug_visible).0
        } else {
            old(debug_visible).0
        }),
{
    if ui_wants_keyboard {
        return ;
    }
    if keys.pause {
        game_time.speed = match game_time.speed {
            GameSpeed::Paused => GameSpeed::Normal,
            _ => GameSpeed::Paused,
        };
    }
    if keys.normal {
        game_time.speed = GameSpeed::Normal;
    }
    if keys.fast {
        game_time.speed = GameSpeed::Fast;
    }
    if keys.very_fast {
        game_time.speed = GameSpeed::VeryFast;
    }
    if keys.debug {
        debug_visible.0 = !debug_visible.0;
    }
}

/// A message shown for a while.
pub struct Notification {
    pub message: String,
    /// Time left to show it, in milliseconds.
    pub timer: i32,
}

/// The messages on show, oldest first.
pub struct Notifications {
    pub messages: Vec<Notification>,
}

impl Default for Notifications {
    fn default() -> (r: Self)
        ensures
            r.messages@ == Seq::<Notification>::empty(),
    {
        Notifications { messages: Vec::new() }
    }
}

/// A message `dt` milliseconds later.
pub open spec fn aged(n: Notification, dt: int) -> Notification {
    Notification { message: n.message, timer: clamp_i32(n.timer - dt) }
}

/// The messages `dt` milliseconds later: each has aged, and those whose
/// time is up are gone.
pub open spec fn ticked(messages: Seq<Notification>, dt: int) -> Seq<Notification>
    decreases messages.len(),
{
    if messages.len() == 0 {
        Seq::empty()
    } else if aged(messages.last(), dt).timer > 0 {
        ticked(messages.drop_last(), dt).push(aged(messages.last(), dt))
    } else {
        ticked(messages.drop_last(), dt)
    }
}

impl Notifications {
    /// Shows `message` for `duration` milliseconds.
    pub fn push(&mut self, message: String, duration: i32)
        ensures
            final(self).messages@ == old(self).messages@.push(
                Notification { message, timer: duration },
            ),
    {
        self.messages.push(Notification { message, timer: duration });
    }
}

/// Ages the messages by `dt` milliseconds and drops those whose time is up.
pub fn tick_notifications(dt: i32, notifications: &mut Notifications)
    ensures
        final(notifications).messages@ == ticked(old(notifications).messages@, dt as int),
{
    let ghost before = notifications.messages@;
    let ghost mut done: int = 0;
    let mut i: usize = 0;
    assert(before.take(0) =~= Seq::<Notification>::empty());
    assert(notifications.messages@ =~= ticked(before.take(0), dt as int) + before.skip(0));
    while i < notifications.messages.len()
        invariant
            0 <= done <= before.len(),
            i == ticked(before.take(done), dt as int).len(),
            notifications.messages@ == ticked(before.take(done), dt as int) + before.skip(done),
        decreases before.len() - done,
    {
        let ghost kept = ticked(before.take(done), dt as int);
        assert(notifications.messages@[i as int] == before[done]);
        assert(before.take(done + 1).drop_last() =~= before.take(done));
        assert(before.take(done + 1).last() == before[done]);
        let left = saturate(notifications.messages[i].timer as i128 - dt as i128);
        if left > 0 {
            let n = &mut notifications.messages[i];
            n.timer = left;
            assert(notifications.messages@[i as int] == aged(before[done], dt as int));
            assert(notifications.messages@ =~= kept.push(aged(before[done], dt as int))
                + before.skip(done + 1));
            i += 1;
        } else {
            notifications.messages.remove(i);
            assert(notifications.messages@ =~= kept + before.skip(done + 1));
        }
        proof {
            done = done + 1;
        }
    }
    proof {
        assert(before.skip(done).len() == 0);
        assert(done == before.len());
        assert(before.take(done) =~= before);
        assert(notifications.messages@ =~= ticked(before, dt as int));
    }
}

} // verus!
