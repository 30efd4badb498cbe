//! Pairwise film ranking: vote bookkeeping, Bradley-Terry tallies, pair
//! candidates, leaderboard eligibility and the text formats the service reads
//! and writes.
pub mod text;
pub mod models;
pub mod csv;
pub mod server;
pub mod dates;
pub mod assoc;
pub mod bt;
pub mod tally;
pub mod persistence;
pub mod backups;
pub mod recovery;
pub mod validity;
pub mod handlers;
pub mod consistency;
pub mod views;
pub mod view_laws;
pub mod client;
