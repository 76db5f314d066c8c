//! Reading and driving a running Cogmind from outside its process.

pub mod args;
pub mod blit;
pub mod blit_job;
pub mod blocks;
pub mod bytes;
pub mod calls;
pub mod cell_map;
pub mod cells;
pub mod common;
pub mod complaints;
pub mod deliveries;
pub mod dump_job;
pub mod errands;
pub mod error;
pub mod ids;
pub mod landings;
pub mod layouts;
pub mod lexer;
pub mod listing;
pub mod lowest;
pub mod mailbox;
pub mod map_parts;
pub mod mcp;
pub mod memory;
pub mod mirrored;
pub mod offers;
pub mod outcomes;
pub mod plan;
pub mod presence;
pub mod process;
pub mod readings;
pub mod reports;
pub mod scan;
pub mod scoresheet;
pub mod screen;
pub mod search;
pub mod session;
pub mod state;
pub mod submit;
pub mod sweep;
pub mod tables;
pub mod text;
pub mod tools;
pub mod turns;
pub mod types;
pub mod views;
pub mod walk;
pub mod written;
