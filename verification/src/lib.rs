//! A registry of puzzle-solving modules, each known by its year and day,
//! with selector resolution, fixture checking and dispatch.

pub mod catalog;
pub mod cli;
pub mod decl;
pub mod descriptor;
pub mod dispatch;
pub mod error;
pub mod example;
pub mod fixture;
pub mod identity;
pub mod part;
pub mod selector;
pub mod text;
pub mod types;
pub mod verdict;

pub use cli::{Flag, UsageError};
pub use catalog::{Catalog, Entry, ModuleInfo};
pub use descriptor::{Answer, ModuleDescriptor, RunError};
pub use dispatch::{dispatch, DispatchError};
pub use error::{BuildError, Field, ResolveError};
pub use example::ExampleData;
pub use identity::DayData;
pub use part::Part;
pub use selector::{Resolution, Selector};
