//! Combat resolution and encounter-scaling engine.
//!
//! The library turns discrete contact-begin events and cast actions into
//! health changes, entity removal, score updates and transient hit feedback,
//! and scales the enemy population over time with a repeating wave timer.
//! Rendering, input capture and collision detection are external
//! collaborators: the engine only consumes already-detected contact events
//! and exposes health, score and feedback state for them to read.

mod bignat;
pub mod combat;
pub mod feedback;
pub mod health;
pub mod wave;
pub mod wave_scale;
pub mod world;

pub use feedback::HitFeedback;
pub use health::Health;
pub use world::ContactEvent;
pub use world::EnemyState;
pub use world::PlayerState;
pub use world::ProjectileState;
pub use world::WaveState;
pub use world::World;
