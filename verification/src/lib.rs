//! chezmage: chezmoi with age keys that are protected by GPG and never touch
//! the disk.
//!
//! The library holds the rules by which keys are discovered, loaded, combined
//! and delivered; reading files, running processes and talking to the system is
//! left to the program around it, which hands in what it found and carries out
//! what is decided.
//!
//! - [`cli`]: the choice between wrapper and shim mode.
//! - [`wrapper`]: whether decryption is needed, which identities are loaded and
//!   how their keys are combined.
//! - [`shim`]: how the key reaches the real `age`.
//! - [`config`]: the config directories and the identities of `chezmoi.toml`.
//! - [`scan`]: the encrypted files of the config directories, in path order.
//! - [`exec`]: home directory, tilde expansion, binaries on `PATH`.
//! - [`gpg`]: encrypted files and the output of gpg.
//! - [`secure`]: secret text.
//! - [`telemetry`]: setup, shutdown order and process metrics.
//! - [`path`]: paths by their text and by their components.
//! - [`text`]: strings by their characters.

pub mod cli;
pub mod config;
pub mod exec;
pub mod gpg;
pub mod path;
pub mod scan;
pub mod secure;
pub mod shim;
pub mod telemetry;
pub mod text;
pub mod wrapper;
