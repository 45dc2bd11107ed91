pub mod handler;
pub mod manifest;
pub mod pattern;
pub mod permissions;
