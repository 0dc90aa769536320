//! Simulation core of a top-down arcade shooter: motion integration, a
//! pairwise charge force field, circle collision detection and the
//! event-driven resolution of damage and knockback, all over fixed-point
//! integer quantities.
use vstd::prelude::*;

pub mod boundary;
pub mod collision;
pub mod components;
pub mod damage;
pub mod enemy;
pub mod entity;
pub mod fixed;
pub mod game;
pub mod journal;
pub mod knockback;
pub mod motion;
pub mod persist;
pub mod physics;
pub mod player;
pub mod projectile;
pub mod store;
pub mod team;
pub mod tick;
pub mod xp;

verus! {

} // verus!
