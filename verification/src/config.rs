//! The settings of one run.

use std::path::PathBuf;
use vstd::prelude::*;
use crate::table::whitelist_view;

verus! {

/// A path of the file system, as `std::path::PathBuf` holds it. Nothing is
/// known of what is inside; the settings only carry it.
#[verifier::external_type_specification]
#[verifier::external_body]
pub struct ExPathBuf(PathBuf);

/// Where the tree is read from unless the caller says otherwise.
pub const DEFAULT_TARGET_PATH: &'static str = "./surfaces.yaml";

/// Where the table is written to unless the caller says otherwise.
pub const DEFAULT_OUTPUT_PATH: &'static str = "./surfacetable.txt";

/// What stands between the pose names of a label unless the caller says
/// otherwise.
pub const DEFAULT_SEPARATOR: &'static str = "-";

/// What the settings are to the contracts.
pub struct ConfigView {
    pub input: PathBuf,
    pub output: PathBuf,
    pub force: bool,
    pub whitelist: Option<Seq<usize>>,
    pub separator: Seq<char>,
}

/// The settings of one run: where to read the tree, where to write the
/// table and whether to overwrite it unasked, which surface numbers to keep
/// and what to put between the pose names of a label.
#[derive(Debug)]
pub struct Config {
    input: PathBuf,
    output: PathBuf,
    force: bool,
    whitelist: Option<Vec<usize>>,
    separator: String,
}

/// The view of an optional list of surface numbers.
pub open spec fn optional_numbers(numbers: Option<Vec<usize>>) -> Option<Seq<usize>> {
    match numbers {
        Some(list) => Some(list@),
        None => None,
    }
}

impl View for Config {
    type V = ConfigView;

    closed spec fn view(&self) -> ConfigView {
        ConfigView {
            input: self.input,
            output: self.output,
            force: self.force,
            whitelist: optional_numbers(self.whitelist),
            separator: self.separator@,
        }
    }
}

impl Config {
    /// Settings with the given values.
    pub fn new(
        input: PathBuf,
        output: PathBuf,
        force: bool,
        whitelist: Option<Vec<usize>>,
        separator: String,
    ) -> (config: Config)
        ensures
            config@ == (ConfigView {
                input,
                output,
                force,
                whitelist: optional_numbers(whitelist),
                separator: separator@,
            }),
    {
        Config { input, output, force, whitelist, separator }
    }

    /// The path that the tree is read from.
    pub fn input(&self) -> (input: &PathBuf)
        ensures
            *input == self@.input,
    {
        &self.input
    }

    /// The path that the table is written to.
    pub fn output(&self) -> (output: &PathBuf)
        ensures
            *output == self@.output,
    {
        &self.output
    }

    /// Whether an existing table is overwritten without asking.
    pub fn force(&self) -> (force: &bool)
        ensures
            *force == self@.force,
    {
        &self.force
    }

    /// The surface numbers to keep, if the table is to be filtered.
    pub fn whitelist(&self) -> (whitelist: Option<&Vec<usize>>)
        ensures
            whitelist_view(whitelist) == self@.whitelist,
    {
        self.whitelist.as_ref()
    }

    /// What stands between the pose names of a label.
    pub fn separator(&self) -> (separator: &String)
        ensures
            separator@ == self@.separator,
    {
        &self.separator
    }
}

} // verus!
