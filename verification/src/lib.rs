//! A retained-mode UI layer whose widgets are rows in a component store.
//!
//! Two reactive subsystems run every frame against that store: a constraint
//! layout engine that derives each entity's rectangle from linear constraints,
//! and an interaction engine that derives edge-triggered pointer events from
//! the solved rectangles.

pub mod button;
pub mod components;
pub mod constraint;
pub mod drawing;
pub mod entity;
pub mod event;
pub mod geometry;
pub mod input;
pub mod label;
pub mod layout;
pub mod measure;
pub mod paths;
pub mod picture;
pub mod shrinkwrap;
pub mod solver;
pub mod storage;
pub mod ui;
pub mod variable;
pub mod world;
