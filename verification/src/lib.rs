//! A command line companion for Goodreads: reading progress, shelves and OAuth sign-in.
//!
//! The library holds the logic, each function with a contract that Verus proves:
//! reading shelves and books out of the API's XML, signing status updates, reading
//! OAuth headers and token responses, and the choices the command line makes.
pub mod actions;
pub mod api_client;
pub mod commands;
pub mod config;
pub mod models;
pub mod oauth;
pub mod text;

