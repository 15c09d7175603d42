use vstd::prelude::*;

pub mod cbor;
pub mod hash;
pub mod ids;
pub mod wire;
pub mod text;
pub mod content;
pub mod crypto;
pub mod message;
pub mod actions;
pub mod admin;
pub mod admin_laws;
pub mod action_laws;
pub mod messages;
pub mod state;
pub mod convergence;
pub mod board;
pub mod threads;
pub mod roster;
pub mod keys;
pub mod commands;
pub mod reading;
pub mod invitation;
pub mod joining;
pub mod banning;
pub mod listing;
pub mod streaming;
pub mod member_list;
pub mod category_form;
pub mod secret_delta;
