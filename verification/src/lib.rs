//! The turn engine of a dungeon crawler: the map with its blocking and
//! visibility flags, field of view, monster decisions, melee and damage,
//! inventory, and the run-state machine that sequences a tick.
//!
//! The engine owns the rules. What it cannot do itself it asks of its
//! caller: the dice and the sight lines come from `rltk`, and paths, levels,
//! keys, menus and files are handed in as plain values.

pub mod geometry;
pub mod tiles;
pub mod rect;
pub mod config;
pub mod components;
pub mod gamelog;
pub mod map;
pub mod world;
pub mod rng;
pub mod fov;
pub mod indexing;
pub mod visibility;
pub mod pathing;
pub mod ai;
pub mod visible_ai;
pub mod combat;
pub mod inventory;
pub mod triggers;
pub mod hunger;
pub mod systems;
pub mod pipeline;
pub mod spawner;
pub mod character;
pub mod monster;
pub mod items;
pub mod rooms;
pub mod levels;
pub mod persistence;
pub mod player;
pub mod menu;
pub mod gui;
pub mod state;
