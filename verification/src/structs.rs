//! The locations of the saved data, and the credentials of the Twitch API.
use vstd::prelude::*;

verus! {

/// Where the program keeps its files.
#[derive(Clone)]
pub struct Paths {
    pub save_path: String,
    pub fav_users_file: String,
    pub creds_file: String,
}

/// The client id and OAuth token that the Twitch API asks for.
#[derive(Clone)]
pub struct Creds {
    pub client_id: String,
    pub oauth: String,
}

} // verus!
