use vstd::prelude::*;

verus! {

/// Settings of the chat bot connection.
#[derive(Clone, Debug)]
pub struct BotConfig {
    pub url: String,
    pub listen_addr: String,
    pub qq_id: String,
    /// Groups that receive broadcasts.
    pub group_id: Vec<u64>,
    /// Users that may act for any callsign.
    pub admin_id: Vec<u64>,
}

/// Settings of the backend.
#[derive(Clone, Debug)]
pub struct BackendConfig {
    pub timeout: u64,
    pub concurrent_limit: u64,
    /// Groups where pass prediction commands are open.
    pub pass_predict_group_id: Option<Vec<u64>>,
}

/// Help and about texts of the bot.
#[derive(Clone, Debug)]
pub struct Doc {
    pub help: Vec<String>,
    pub about: Vec<String>,
}

/// Where the configuration file lies.
#[derive(Clone, Debug)]
pub struct FileConfigProvider {
    pub path: String,
}

impl FileConfigProvider {
    pub fn new(path: String) -> (r: Self)
        ensures
            r.path == path,
    {
        FileConfigProvider { path }
    }
}

} // verus!
