//! What the Riot API gives, and how it is asked.

pub mod client;
pub mod dto;

pub use client::RiotClient;
