//! Git's text formats, verified: the configuration file store with its typed
//! lookups, and the magic-signature grammar of pathspecs.

pub mod boolean;
pub mod bytes;
pub mod color;
pub mod events;
pub mod file;
pub mod integer;
pub mod lookup;
pub mod parse;
pub mod path;
pub mod pathspec;
pub mod value;

pub use crate::boolean::Boolean;
pub use crate::color::Color;
pub use crate::file::File;
pub use crate::integer::Integer;
pub use crate::lookup::{Kind, Value};
pub use crate::path::Path;
pub use crate::pathspec::{MagicSignature, Pattern, SearchMode};
pub use crate::value::Bytes;
