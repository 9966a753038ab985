//! A command-line client for the tracking of specs, tasks, asks and agent sessions.
//!
//! What agents do is reported by hooks: every event of a session is taken from standard input,
//! made small enough ([`body`]) and uploaded ([`upload`], [`api`]); of Codex sessions, the goal
//! and the course of a turn are read from the transcript ([`rollout`], [`goal`], [`turn`]). The
//! queries for what was uploaded, and the checks on what a command is given, are in [`hook`],
//! [`sessions`], [`checks`] and [`flags`].
//!
//! The library decides and computes. It takes what was read from the environment, from files and
//! from the network as plain values, and says in plain values what is to be written and sent.
//! Where a command gives up, the function that finds out returns the line to say.

pub mod api;
pub mod body;
pub mod checks;
pub mod codec;
pub mod complaint;
pub mod config;
pub mod dispatch;
pub mod flags;
pub mod goal;
pub mod help;
pub mod hook;
pub mod installer;
pub mod json;
pub mod number;
pub mod paths;
pub mod payload;
pub mod rollout;
pub mod sessions;
pub mod status;
pub mod text;
pub mod turn;
pub mod upload;
pub mod uri;

pub use crate::api::{api, print, try_api};
pub use crate::checks::{require_id, require_no_args, validate_body, validate_project, validate_title};
pub use crate::checks::{ASK_LIMIT_DEFAULT, ASK_LIMIT_MAX};
pub use crate::checks::{MAX_BODY_LEN, MAX_PROJECT_NAME_LEN, MAX_TITLE_LEN};
pub use crate::complaint::{die, die_usage};
pub use crate::config::{config_path, try_load_config, Config};
pub use crate::flags::{parse_set_flags, PatchFlags, SPEC_STATUSES, TASK_STATUSES};
pub use crate::hook::ENTRY;
pub use crate::installer::{run_installer, INSTALL_URL};
pub use crate::uri::encode_uri_component;
