//! The decisions of hematite, an egress proxy that denies by default.
//!
//! A request that leaves a sandbox is opened ([`target`], [`http`]), judged by an
//! ordered pipeline ([`pipeline`], [`transforms`], [`secrets`]), dialled under a
//! guard ([`dial`], [`state`], [`pool`]) and answered, and leaves one audit record
//! ([`audit`], [`metrics`]). Tunnels and terminated TLS come in through [`listen`],
//! [`tunnel`], [`tls`] and [`mint`]; names are answered by [`resolve`] and [`wire`];
//! the whole is set up by [`yaml`], [`settings`] and [`config`] and set up anew by
//! [`management`].
//!
//! Sockets, files, clocks and the environment are not touched here. Where a decision
//! needs one of them, a function says what to do next and takes what came of it.
pub mod audit;
pub mod codec;
pub mod config;
pub mod dial;
pub mod duration;
pub mod hop;
pub mod http;
pub mod ip;
pub mod laws;
pub mod listen;
pub mod management;
pub mod matcher;
pub mod metrics;
pub mod mint;
pub mod pipeline;
pub mod pool;
pub mod resolve;
pub mod resolver;
pub mod secret;
pub mod secrets;
pub mod settings;
pub mod state;
pub mod strmap;
pub mod summary;
pub mod target;
pub mod text;
pub mod tls;
pub mod transforms;
pub mod tunnel;
pub mod verdict;
pub mod wire;
pub mod yaml;
