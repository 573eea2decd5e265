pub mod announcements;
pub mod config;
pub mod dispatch;
pub mod errors;
pub mod hazel;
pub mod session;
pub mod varint;
pub mod wire;

pub use crate::announcements::{
    read_data, read_hello, write_data, write_hello, Data, FreeWeekendState, HelloMessage, Language,
};
pub use crate::config::{default_config, Config, Endpoint, Message};
pub use crate::dispatch::handle_datagram;
pub use crate::errors::DecodeError;
pub use crate::hazel::{read_packet, write_packet, HazelMessage};
pub use crate::session::{ClientSession, PeerAddr, SessionStore};
pub use crate::varint::{read_packed, write_packed};
