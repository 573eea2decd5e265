use vstd::prelude::*;

verus! {

/// The configuration surface: where to listen and what to announce.
#[derive(Clone, Debug)]
pub struct Config {
    pub endpoint: Endpoint,
    pub message: Message,
}

/// The listening endpoint; a missing port falls back at startup.
#[derive(Clone, Debug)]
pub struct Endpoint {
    pub ip: String,
    pub port: Option<u16>,
}

/// The announcement catalog: an announcement family id, a fallback text,
/// and one per-language override slot per language ordinal.
#[derive(Clone, Debug)]
pub struct Message {
    pub unique_id: u32,
    pub default_message: String,
    pub message: [String; 5],
}

/// The configuration written on first start when none exists yet.
pub fn default_config() -> (r: Config)
    ensures
        r.endpoint.ip@ == "127.0.0.1"@,
        r.endpoint.port == Some(22023u16),
        r.message.unique_id == 0,
        r.message.default_message@ == "Change this message in config.toml and restart!"@,
        r.message.message@.len() == 5,
        forall|i: int| 0 <= i < 5 ==> (#[trigger] r.message.message@[i])@ == ""@,
{
    Config {
        endpoint: Endpoint { ip: "127.0.0.1".to_owned(), port: Some(22023) },
        message: Message {
            unique_id: 0,
            default_message: "Change this message in config.toml and restart!".to_owned(),
            message: [
                "".to_owned(),
                "".to_owned(),
                "".to_owned(),
                "".to_owned(),
                "".to_owned(),
            ],
        },
    }
}

} // verus!
