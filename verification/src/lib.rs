//! A small multiplayer word-guessing game library: the wire protocol with a
//! verified binary codec and delimiter framing, the authoritative session and
//! matchmaking state, the server's dispatch step, and the client's state
//! machine.
pub mod client_state;
pub mod codec;
pub mod framing;
pub mod protocol;
pub mod server_connection;
pub mod server_state;
pub mod validation;

pub use validation::is_valid_sock_path;
pub use validation::is_valid_word;
