//! Navigation between screens, and the state of the menu screens.
use crate::game::GameEvent;
use vstd::prelude::*;

verus! {

/// A command to switch screens or exit the application.
#[derive(Debug, PartialEq)]
pub enum ScreenCommand {
    /// Navigate to the start (main menu) screen.
    Start,
    /// Navigate to the player screen to join a game.
    Play {
        /// Hostname or IP of the host server.
        hostname: String,
        /// Display name of the player.
        username: String,
    },
    /// Navigate to the host screen to create a new game.
    Host,
    /// Navigate to the settings screen.
    Settings,
    /// Close the application.
    ExitProgram,
}

/// Where a game screen goes after a game event: back to the start screen
/// when the player's health has run out, nowhere otherwise.
pub fn command_after(event: &GameEvent) -> (c: Option<ScreenCommand>)
    ensures
        c is Some <==> *event == (GameEvent::Damage { health: 0 }),
        c matches Some(cmd) ==> cmd is Start,
{
    match event {
        GameEvent::Damage { health } => {
            if *health == 0 {
                Some(ScreenCommand::Start)
            } else {
                None
            }
        },
        _ => None,
    }
}

/// The start screen displayed when the app launches.
///
/// Collects the player's `hostname` (for networking) and `username`, then provides
/// buttons to navigate to Play, Host, Settings, or Exit.
pub struct Start {
    hostname: String,
    username: String,
}

impl Start {
    pub closed spec fn hostname(&self) -> Seq<char> {
        self.hostname@
    }

    pub closed spec fn username(&self) -> Seq<char> {
        self.username@
    }

    /// Creates a new start screen with empty hostname and username.
    pub fn new() -> (s: Self)
        ensures
            s.hostname() == Seq::<char>::empty(),
            s.username() == Seq::<char>::empty(),
    {
        Start { hostname: String::new(), username: String::new() }
    }

    /// The two text fields, hostname and username, for editing.
    pub fn fields_mut(&mut self) -> (r: (&mut String, &mut String))
        ensures
            r.0@ == old(self).hostname(),
            r.1@ == old(self).username(),
            final(self).hostname() == final(r.0)@,
            final(self).username() == final(r.1)@,
    {
        (&mut self.hostname, &mut self.username)
    }

    /// The command of the Play button: play with the entered hostname and username.
    pub fn play_command(&self) -> (c: ScreenCommand)
        ensures
            c matches ScreenCommand::Play { hostname, username } && hostname@ == self.hostname()
                && username@ == self.username(),
    {
        ScreenCommand::Play { hostname: self.hostname.clone(), username: self.username.clone() }
    }
}

/// The settings screen (a placeholder).
pub struct Settings;

impl Settings {
    /// Creates the settings screen.
    pub fn new() -> (s: Self) {
        Settings {  }
    }
}

} // verus!
