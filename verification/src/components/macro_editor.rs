//! Macro (.msw) files of the editor and the edits made to the list of them.
use vstd::prelude::*;

use crate::text::{chars_of, decimal, dec_string, push_all, string_of};

verus! {

/// A single macro file with a name and source content.
#[derive(Clone, Debug, PartialEq)]
pub struct MacroFile {
    pub name: String,
    pub source: String,
    pub collapsed: bool,
}

impl MacroFile {
    pub fn new(name: String, source: String) -> (r: MacroFile)
        ensures
            r.name == name,
            r.source == source,
            !r.collapsed,
    {
        MacroFile { name, source, collapsed: false }
    }
}

/// The (name, source) pairs that the preprocessor and the compiler read.
pub fn editor_macro_sources(macros: &[MacroFile]) -> (r: Vec<(String, String)>)
    ensures
        r@.len() == macros@.len(),
        forall|i: int|
            0 <= i < r@.len() ==> (#[trigger] r@[i]).0@ == macros@[i].name@ && r@[i].1@
                == macros@[i].source@,
{
    let mut r: Vec<(String, String)> = Vec::new();
    let mut i: usize = 0;
    while i < macros.len()
        invariant
            i <= macros.len(),
            r@.len() == i,
            forall|k: int|
                0 <= k < i ==> (#[trigger] r@[k]).0@ == macros@[k].name@ && r@[k].1@
                    == macros@[k].source@,
        decreases macros.len() - i,
    {
        r.push((macros[i].name.clone(), macros[i].source.clone()));
        i = i + 1;
    }
    r
}

/// `MACRO<n>.msw`.
pub open spec fn numbered_name(n: nat) -> Seq<char> {
    "MACRO"@ + dec_string(n) + ".msw"@
}

/// Appends an empty file named after its position (`MACRO<n>.msw`).
pub fn add_macro_file(files: &mut Vec<MacroFile>)
    requires
        old(files)@.len() < u64::MAX,
    ensures
        final(files)@.len() == old(files)@.len() + 1,
        forall|i: int| 0 <= i < old(files)@.len() ==> final(files)@[i] == old(files)@[i],
        final(files)@.last().name@ == numbered_name(old(files)@.len() + 1),
        final(files)@.last().source@ == Seq::<char>::empty(),
        !final(files)@.last().collapsed,
{
    let n: u64 = files.len() as u64 + 1;
    let mut name = chars_of("MACRO");
    push_all(&mut name, &decimal(n));
    push_all(&mut name, &chars_of(".msw"));
    files.push(MacroFile::new(string_of(&name), String::new()));
}

/// Removes the file at `idx`, if there is one.
pub fn remove_macro_file(files: &mut Vec<MacroFile>, idx: usize)
    ensures
        idx < old(files)@.len() ==> final(files)@ == old(files)@.remove(idx as int),
        idx >= old(files)@.len() ==> final(files)@ == old(files)@,
{
    if idx < files.len() {
        files.remove(idx);
    }
}

/// Renames the file at `idx`, if there is one.
pub fn rename_macro_file(files: &mut Vec<MacroFile>, idx: usize, name: String)
    ensures
        final(files)@.len() == old(files)@.len(),
        forall|i: int|
            0 <= i < old(files)@.len() && i != idx ==> final(files)@[i] == old(files)@[i],
        idx < old(files)@.len() ==> final(files)@[idx as int].name == name && final(files)@[idx as int].source == old(files)@[idx as int].source && final(files)@[idx as int].collapsed
            == old(files)@[idx as int].collapsed,
{
    if idx < files.len() {
        let mut f = files.remove(idx);
        f.name = name;
        files.insert(idx, f);
    }
}

/// Replaces the source of the file at `idx`, if there is one.
pub fn set_macro_source(files: &mut Vec<MacroFile>, idx: usize, source: String)
    ensures
        final(files)@.len() == old(files)@.len(),
        forall|i: int|
            0 <= i < old(files)@.len() && i != idx ==> final(files)@[i] == old(files)@[i],
        idx < old(files)@.len() ==> final(files)@[idx as int].source == source && final(files)@[idx as int].name == old(files)@[idx as int].name && final(files)@[idx as int].collapsed
            == old(files)@[idx as int].collapsed,
{
    if idx < files.len() {
        let mut f = files.remove(idx);
        f.source = source;
        files.insert(idx, f);
    }
}

/// Folds or unfolds the file at `idx`, if there is one.
pub fn toggle_macro_collapsed(files: &mut Vec<MacroFile>, idx: usize)
    ensures
        final(files)@.len() == old(files)@.len(),
        forall|i: int|
            0 <= i < old(files)@.len() && i != idx ==> final(files)@[i] == old(files)@[i],
        idx < old(files)@.len() ==> final(files)@[idx as int].collapsed == !old(files)@[idx as int].collapsed && final(files)@[idx as int].name == old(files)@[idx as int].name
            && final(files)@[idx as int].source == old(files)@[idx as int].source,
{
    if idx < files.len() {
        let mut f = files.remove(idx);
        f.collapsed = !f.collapsed;
        files.insert(idx, f);
    }
}

} // verus!
