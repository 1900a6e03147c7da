pub mod strmap;
pub mod room;
pub mod matrix;
pub mod clock;
pub mod events;
pub mod ui;
pub mod display;
pub mod connection;
pub mod api;
pub mod client;
