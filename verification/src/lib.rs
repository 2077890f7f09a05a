//! A Twitch notifier's logic: the saved files, the command line, the Twitch
//! API's requests and answers, and what each refresh prints and says.
pub mod structs;
pub mod text;
pub mod numbers;
pub mod files;
pub mod clock;
pub mod cli;
pub mod json;
pub mod twitch;
pub mod report;
