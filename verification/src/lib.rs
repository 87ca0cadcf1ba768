//! Simulation core of a light-cycle arena game.
//!
//! Every player steers a point that moves at constant speed and paints an
//! opaque trail onto a shared pixel canvas. Running into any trail, or leaving
//! the arena, kills the player; the round ends when at most one is left.
//! Pickups appear on the field and grant effects that stack: more or less
//! speed, a thicker or thinner trail, free flight, inverted steering.
//!
//! # Numbers
//!
//! All quantities are integers, so that every rule of the game is stated
//! exactly and proved.
//!
//! - The arena spans `-1` to `1` on both axes. A world coordinate counts
//!   units of `1 / WORLD_ONE`, see [`mapper`].
//! - A heading is a vector of unit length in units of `1 / HEADING_ONE`, see
//!   [`heading`]. Turning rounds it, and it is proved that its length stays
//!   within a few units of `HEADING_ONE` for ever.
//! - Canvas coordinates count in units finer than a pixel, chosen so that the
//!   mapping from the world to the canvas is exact, see [`mapper`].
//! - Durations are whole microseconds, see [`timer`].
//!
//! # Modules
//!
//! - [`canvas`]: the pixel buffer.
//! - [`mapper`]: world points, canvas points and the mapping between them.
//! - [`raster`]: the trail rasteriser.
//! - [`heading`], [`kinetic`]: turning and moving.
//! - [`collision`]: the three probes that decide on a player's death.
//! - [`timer`], [`effects`]: timed effects and how they stack.
//! - [`player`]: a player and its tick.
//! - [`logic`]: the tick of all players.
//! - [`items`], [`collection`]: pickups, their spawner and their collection.
//! - [`round`]: a round, from its setup to its end.
//! - [`settings`], [`game`]: the settings and the phases of the game.
//! - [`input`]: what a tick consumes from the outside.
//! - [`random`]: the random source.
//! - [`fixed`]: integer helpers.
//!
//! # One tick of a round
//!
//! The effects of every player age. Then the players take their turns in the
//! order of their seats: a player turns, moves, is tested for collision
//! against the canvas as it is at that moment, and paints the segment it has
//! swept. Then the spawner may put a pickup on the field, the pickups within
//! reach of a living player are collected, and the round is over if at most
//! one of two or more players is alive.

pub mod canvas;
pub mod collection;
pub mod collision;
pub mod effects;
pub mod fixed;
pub mod game;
pub mod heading;
pub mod input;
pub mod items;
pub mod kinetic;
pub mod logic;
pub mod mapper;
pub mod player;
pub mod random;
pub mod raster;
pub mod round;
pub mod settings;
pub mod timer;
