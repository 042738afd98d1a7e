//! The logic of a browser-based PL/SW development environment: the macro
//! preprocessor, the PL/EDIT template expander and formatter, the wizard and
//! mass-compile state machines, and the decisions of the compiler pipeline
//! that runs the PL/SW compiler on the COR24 emulator.
pub mod components;
pub mod demos;
pub mod display;
pub mod drafts;
pub mod pipeline;
pub mod preprocessor;
pub mod text;
