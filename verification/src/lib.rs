//! The logic of a keyboard-driven terminal music player.
pub mod text;
pub mod number;
pub mod queue;
pub mod paths;
pub mod json;
pub mod language;
pub mod time;
pub mod screen;
pub mod search;
pub mod channel;
pub mod catalog;
pub mod sorting;
pub mod local;
pub mod playlist;
pub mod keys;
pub mod selection;
pub mod menu;
pub mod checklist;
pub mod picker;
pub mod queue_view;
pub mod controls;
pub mod sponsor;
pub mod youtube;
pub mod player;
pub mod download;
pub mod login;
pub mod library;
pub mod command;
pub mod launcher;
pub mod player_view;
