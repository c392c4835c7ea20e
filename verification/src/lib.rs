//! Type descriptors for functions and records exposed to Teal scripts, and
//! the generator that turns them into declaration text.
//!
//! A [`TealType`] describes one type and gives the name under which it is
//! written. An [`ExportedFunction`] describes a function and a
//! [`RecordDescriptor`] a record type; a [`TypeWalker`] gathers them and
//! writes the declarations of all of them, or the structured [`Document`]
//! that holds them. Records come before functions and both are ordered by
//! name, so that what is written does not depend on the order in which the
//! descriptions were handed over.

pub mod document;
pub mod documentation;
pub mod exported_function;
pub mod lex;
pub mod name_container;
pub mod name_part;
pub mod named_parameters;
pub mod record;
pub mod sorted;
pub mod teal_type;
pub mod text;
pub mod type_walker;

pub use document::Document;
pub use documentation::Documentation;
pub use exported_function::ExportedFunction;
pub use name_container::NameContainer;
pub use name_part::NamePart;
pub use record::{DuplicateMemberError, Field, RecordDescriptor};
pub use teal_type::TealType;
pub use text::DecodingError;
pub use type_walker::{AlreadyRendered, Descriptor, TypeWalker};
