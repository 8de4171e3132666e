use vstd::prelude::*;

verus! {

/// Marks the camera that follows the local player.
#[derive(PartialEq, Eq, Structural, Clone, Copy, Debug)]
pub struct MainCamera;

/// Marks the player that this client controls.
#[derive(PartialEq, Eq, Structural, Clone, Copy, Debug)]
pub struct ControlledPlayer;

/// A player, known by the id of its client.
#[derive(PartialEq, Eq, Structural, Clone, Copy, Debug)]
pub struct Player {
    pub id: u64,
}

/// The screens the game moves between.
#[derive(PartialEq, Eq, Structural, Clone, Copy, Debug, Hash)]
pub enum AppState {
    MainMenu,
    InGame,
    Paused,
}

/// The server's command-line settings: the address of the game server and
/// that of the login service.
pub struct Args {
    pub ip: String,
    pub auth_ip: String,
}

impl Args {
    /// The settings used when none are given: the game on port 42069 and
    /// the login service on port 8080 of every interface.
    pub fn default() -> (a: Self)
        ensures
            a.ip@ == "0.0.0.0:42069"@,
            a.auth_ip@ == "0.0.0.0:8080"@,
    {
        Args { ip: "0.0.0.0:42069".to_owned(), auth_ip: "0.0.0.0:8080".to_owned() }
    }
}

} // verus!
