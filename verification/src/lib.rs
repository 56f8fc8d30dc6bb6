//! A compact one-line textual encoding for type descriptor trees.
//!
//! A descriptor records a type's name, the crate and module that define it,
//! the versions of that crate and of the compiler, and the descriptors of its
//! generic parameters.  The encoding is produced by a serializer and read back
//! by a tokenizer and a recursive-descent parser; both directions are verified
//! against one spec-level model of the tree and of the grammar.

use vstd::prelude::*;

pub mod descriptor;
pub mod laws;
pub mod parse;
pub mod producer;
pub mod text;
pub mod typenameable;
pub mod token;
pub mod version;

verus! {

pub use crate::descriptor::TypeNameData;
pub use crate::parse::ParseError;
pub use crate::producer::{new_semver_version, resolve_type_info, AmbientInfo, TypeNameArguments};
pub use crate::token::{split_string, Token};
pub use crate::typenameable::{TypeName, TypeNameable, TypeQueryable};
pub use crate::version::{Version, VersionError};

} // verus!
