//! What the library promises, told of inputs and results. Each law says in words of its
//! own ([`words`]) what a function must do, and not through that function.
pub mod audit;
pub mod codec;
pub mod config;
pub mod dial;
pub mod dns;
pub mod hop;
pub mod http;
pub mod ip;
pub mod listen;
pub mod matcher;
pub mod metrics;
pub mod pool;
pub mod resolver;
pub mod secrets;
pub mod settings;
pub mod strmap;
pub mod target;
pub mod text;
pub mod tls;
pub mod transforms;
pub mod tunnel;
pub mod words;
