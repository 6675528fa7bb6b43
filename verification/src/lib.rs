//! Verified core of a Discord statistics bot: ranking, text, day tables and event decisions.

pub mod cards;
pub mod days;
pub mod events;
pub mod legacy;
pub mod order;
mod seqs;
pub mod ranking;
pub mod text;
