//! Core of an entity-component-system runtime: the generational entity
//! allocator and the priority planner that schedules systems.
//!
//! The allocator issues `(index, generation)` tokens with a synchronous
//! path and an atomic path that merge deterministically at maintenance
//! points; the planner decides in which order systems acquire their
//! component borrows.

pub mod entities;
pub mod entity;
pub mod allocator;
pub mod bits;
pub mod cache;
pub mod error;
pub mod planner;
