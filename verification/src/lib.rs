//! Verified core logic of the onetcli terminal and database client.

pub mod canvas;
pub mod decorations;
pub mod er_graph;
pub mod er_model;
pub mod er_tab;
pub mod history;
pub mod history_prompt;
pub mod icon;
pub mod jsonrpc;
pub mod levels;
pub mod mfa;
pub mod osc;
pub mod seqs;
pub mod settings;
pub mod shell_setup;
pub mod ssh_session;
pub mod text;
pub mod update;
