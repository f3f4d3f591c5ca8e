//! Data models and decision logic of the school-cats platform: the records
//! exchanged between the backend and the web frontend, the rules that build
//! and check them, and the pure parts of the request handling on both sides.
#![allow(non_snake_case)]

pub mod text;
pub mod time;
pub mod upload;
pub mod user;
pub mod cats;
pub mod db;
pub mod forms;
pub mod handlers;
pub mod jwt;
pub mod places;
pub mod posts;
pub mod response;
pub mod session;
pub mod sql;

pub use response::{Empty, Hello, Response, PORT};
