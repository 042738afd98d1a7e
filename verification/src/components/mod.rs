//! Editor-side logic: PL/EDIT, the wizard steps, the mass-compile queue and
//! macro files.
pub mod macro_editor;
pub mod mass_compile;
pub mod pl_edit;
pub mod wizard;
