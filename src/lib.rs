//! Input remapping engine: profiles, bindings and the per-device translation
//! state machine that turns raw input events into synthesized ones.

pub mod config;
pub mod dispatch;
pub mod emit;
pub mod event;
pub mod keycode;
pub mod laws;
pub mod profile;
pub mod session;
pub mod settings;
pub mod text;
pub mod translator;

pub use config::{parse_modifiers, Associations, Binding, Bindings, Client, Config, MappedModifiers, RawConfig};
pub use emit::{Action, RawEvent, Sink};
pub use event::{Axis, Event};
pub use profile::ProfileSet;
pub use session::{Environment, Server};
pub use settings::{Settings, StickFunction};
pub use translator::{Resolution, Translator};
