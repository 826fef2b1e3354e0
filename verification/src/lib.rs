//! The rules of a third-person shooter whose levels are written in Lua: the
//! objects of a level and what can happen to them, the machines that move its
//! enemies, what its scripts ask for, and the files that it is played from.
//!
//! A number that only decides, by being more or less than another, is a
//! *measure*: an integer that is ordered as the floating-point number is that
//! it stands for (see [`measure`]). A number that is only handed on is of a
//! type `F` that nothing here computes with. What geometry has to be worked
//! out, the caller works out and hands in.
use vstd::prelude::*;

pub mod anim;
pub mod args;
pub mod body;
pub mod boot;
pub mod brain;
pub mod corpus;
pub mod crowd;
pub mod damage;
pub mod doganboy;
pub mod doors;
pub mod frames;
pub mod input;
pub mod install;
pub mod inventory;
pub mod keys;
pub mod level;
pub mod lua;
pub mod measure;
pub mod menu;
pub mod modes;
pub mod names;
pub mod order;
pub mod rand;
pub mod rewrites;
pub mod rooms;
pub mod save;
pub mod script;
pub mod sounds;
pub mod spawners;
pub mod stasis;
pub mod streaming;
pub mod sweep;
pub mod tables;
pub mod tally;
pub mod text;
pub mod tick;
pub mod timers;
pub mod twice;
pub mod walkers;
pub mod world;

verus! {

} // verus!
