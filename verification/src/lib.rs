//! Verified core of a sudo implementation: the sudoers grammar and policy
//! evaluation, command line parsing for `sudo`, `sudoedit` and `su`,
//! environment filtering, and the timestamp record format.

pub mod text;
pub mod sudoers;
pub mod wildcard_match;
pub mod time;
pub mod interface;
pub mod timestamp;
pub mod su_cli;
pub mod path_name;
pub mod sudo_cli;
pub mod help;
pub mod help_edit;
pub mod environment;
pub mod system;
pub mod audit;
pub mod tokens;
pub mod sudoedit_cli;
pub mod diagnostic;
pub mod users;
pub mod record_file;
pub mod list;
