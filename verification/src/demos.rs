//! The types of the embedded PL/SW demo programs.
use vstd::prelude::*;

verus! {

/// A macro file included with a demo.
#[derive(Clone, Copy, Debug, PartialEq)]
pub struct DemoMacro {
    pub name: &'static str,
    pub source: &'static str,
}

/// A demo program with a name, description, PL/SW source, and optional
/// macro files.
#[derive(Clone, Copy, Debug, PartialEq)]
pub struct Demo {
    pub name: &'static str,
    pub description: &'static str,
    pub source: &'static str,
    pub macros: &'static [DemoMacro],
}

} // verus!
