//! The whole run on the contents of a workspace file: read, apply, write.

use crate::attributes::{pairs_model, PairModel};
use crate::editor::{apply, apply_model, Sought, StructureNotFound};
use crate::xml::{emitted, parse, parsed, serialize, ParseFailure, WriteFailure};
use vstd::prelude::*;

verus! {

/// Why a run gave no new contents.
#[derive(Clone, Debug, PartialEq, Eq)]
pub enum InjectError {
    /// The contents are not well-formed XML.
    Parse(ParseFailure),
    /// The run manager or the configuration is missing.
    Structure(StructureNotFound),
    /// The document could not be written as text.
    Write(WriteFailure),
}

/// How a run ends.
pub enum Outcome {
    /// The new contents of the file.
    Written(Seq<u8>),
    /// The contents are not well-formed XML.
    Malformed,
    /// The run manager or the configuration is missing.
    Missing(Sought),
    /// The document could not be written as text.
    Unwritable,
}

/// How the run on `text` ends: the text is read, the variables are applied
/// to the configuration, and the document is written with indentation. The
/// first step that fails ends the run.
pub open spec fn inject_model(text: Seq<u8>, configuration_name: Seq<char>, variables: Seq<PairModel>) -> Outcome {
    match parsed(text) {
        None => Outcome::Malformed,
        Some(document) => match apply_model(document, configuration_name, variables) {
            Err(sought) => Outcome::Missing(sought),
            Ok(after) => match emitted(after, true) {
                Some(written) => Outcome::Written(written),
                None => Outcome::Unwritable,
            },
        },
    }
}

/// Runs on the contents of a workspace file: returns the new contents, in
/// which the configuration called `configuration_name` holds the variables,
/// or the reason why there are none.
pub fn inject(text: &[u8], configuration_name: &str, variables: &Vec<(String, String)>) -> (r: Result<
    Vec<u8>,
    InjectError,
>)
    ensures
        match r {
            Ok(written) => inject_model(text@, configuration_name@, pairs_model(variables@)) == Outcome::Written(
                written@,
            ),
            Err(InjectError::Parse(_)) => inject_model(text@, configuration_name@, pairs_model(variables@))
                == Outcome::Malformed,
            Err(InjectError::Structure(e)) => inject_model(text@, configuration_name@, pairs_model(variables@))
                == Outcome::Missing(e@),
            Err(InjectError::Write(_)) => inject_model(text@, configuration_name@, pairs_model(variables@))
                == Outcome::Unwritable,
        },
{
    let mut document = match parse(text) {
        Ok(document) => document,
        Err(e) => {
            return Err(InjectError::Parse(e));
        },
    };
    match apply(&mut document, configuration_name, variables) {
        Ok(_) => {},
        Err(e) => {
            return Err(InjectError::Structure(e));
        },
    }
    match serialize(&document) {
        Ok(written) => Ok(written),
        Err(e) => Err(InjectError::Write(e)),
    }
}

} // verus!
