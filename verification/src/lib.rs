//! A small entity-component-system core: entity handles with generations,
//! typed component stores and event queues kept behind one registry each,
//! a world that ties them together, and an executor that runs systems in
//! the order in which they were added.

pub mod component;
pub mod entity;
pub mod erasure;
pub mod event;
pub mod system;
pub mod world;

pub use component::{Component, ComponentManager, ComponentStorage, HashMapComponentStorage};
pub use entity::{Entity, EntityManager, IdTable};
pub use event::{Event, EventManager, EventQueue, EventQueueTrait};
pub use system::{System, SystemExecutor};
pub use world::World;
