pub mod config;
pub mod coordinator;
pub mod dispatcher;
pub mod envinj;
pub mod errors;
pub mod text;
pub mod timefmt;
pub mod trace;
