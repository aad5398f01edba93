//! Writes variables into a run configuration of an XML workspace file.
//!
//! A workspace file holds, among the children of its root, a component
//! named `RunManager`; among the children of that, configurations, each
//! with a name; and in a configuration an `envs` container with one `env`
//! element for each variable:
//!
//! ```text
//! <project>
//!   <component name="RunManager">
//!     <configuration name="app">
//!       <envs>
//!         <env name="KEY" value="value" />
//!       </envs>
//!     </configuration>
//!   </component>
//! </project>
//! ```
//!
//! The library finds the configuration, creates the container where it is
//! missing, and gives each variable its `env` element: an existing one gets
//! the new value, a missing one is created. Nothing else in the document
//! changes.
//!
//! - [`tree`] and [`attributes`] hold the document;
//! - [`matcher`] decides which element is sought, and [`search`] says what
//!   "the first one" means;
//! - [`editor`] finds, creates and updates;
//! - [`xml`] reads the document from text and writes it back;
//! - [`injector`] runs the three steps on the contents of a file;
//! - [`selection`] picks the variables by the prefix of their names;
//! - [`laws`] states what holds of every edit, over the vocabulary of
//!   [`relations`], and [`lemmas`] holds the steps of the proofs.

pub mod attributes;
pub mod editor;
pub mod injector;
pub mod laws;
pub mod lemmas;
pub mod matcher;
pub mod relations;
pub mod search;
pub mod selection;
pub mod tree;
pub mod xml;
