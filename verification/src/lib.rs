pub mod api;
pub mod cli;
pub mod clock;
pub mod conduct;
pub mod cookies;
pub mod courses;
pub mod engine;
pub mod filter;
pub mod html;
pub mod json;
pub mod laws;
pub mod live;
pub mod models;
pub mod monitor;
pub mod number;
pub mod order;
pub mod reading;
pub mod replies;
pub mod reports;
pub mod requests;
pub mod round;
pub mod runner;
pub mod stats;
pub mod storage;
pub mod text;
pub mod transport;
pub mod triangulation;
