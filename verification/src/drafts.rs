//! Browser drafts of the demos: the edited source and macro files kept for
//! each demo, and what the editors show when a demo is picked.
use vstd::prelude::*;

use crate::components::macro_editor::MacroFile;
use crate::demos::{Demo, DemoMacro};
use crate::text::{chars_of, string_of};

verus! {

/// The (name, source, collapsed) views of editor files.
pub open spec fn file_views(files: Seq<MacroFile>) -> Seq<(Seq<char>, Seq<char>, bool)> {
    files.map_values(|f: MacroFile| (f.name@, f.source@, f.collapsed))
}

/// The editor files of a demo's bundled macros: same names and sources,
/// all unfolded.
pub open spec fn demo_file_views(m: Seq<DemoMacro>) -> Seq<(Seq<char>, Seq<char>, bool)> {
    m.map_values(|d: DemoMacro| (d.name@, d.source@, false))
}

fn text(s: &str) -> (r: String)
    ensures
        r@ == s@,
{
    string_of(&chars_of(s))
}

/// The editor files for a demo's bundled macro files.
pub fn demo_macro_files(demo: &Demo) -> (r: Vec<MacroFile>)
    ensures
        file_views(r@) == demo_file_views(demo.macros@),
{
    let mut r: Vec<MacroFile> = Vec::new();
    let mut i: usize = 0;
    while i < demo.macros.len()
        invariant
            i <= demo.macros@.len(),
            file_views(r@) == demo_file_views(demo.macros@.take(i as int)),
        decreases demo.macros@.len() - i,
    {
        let m = demo.macros[i];
        r.push(MacroFile::new(text(m.name), text(m.source)));
        i = i + 1;
        assert(demo_file_views(demo.macros@.take(i as int)) =~= demo_file_views(
            demo.macros@.take(i - 1),
        ).push((m.name@, m.source@, false)));
        assert(file_views(r@) =~= demo_file_views(demo.macros@.take(i as int)));
    }
    assert(demo.macros@.take(i as int) =~= demo.macros@);
    r
}

/// The source shown when demo `idx` is picked: its draft if it has one,
/// the bundled source otherwise.
pub fn demo_source_text(idx: usize, edited_sources: &[Option<String>], demos: &[Demo]) -> (r: String)
    requires
        idx < demos@.len(),
    ensures
        r@ == (if idx < edited_sources@.len() && edited_sources@[idx as int] is Some {
            edited_sources@[idx as int].unwrap()@
        } else {
            demos@[idx as int].source@
        }),
{
    if idx < edited_sources.len() {
        if let Some(s) = &edited_sources[idx] {
            return s.clone();
        }
    }
    text(demos[idx].source)
}

/// The macro files shown when demo `idx` is picked: its draft files if it
/// has them, the bundled files otherwise.
pub fn demo_macro_draft(idx: usize, edited_macros: &[Option<Vec<MacroFile>>], demos: &[Demo]) -> (r: Vec<
    MacroFile,
>)
    requires
        idx < demos@.len(),
    ensures
        file_views(r@) == (if idx < edited_macros@.len() && edited_macros@[idx as int] is Some {
            file_views(edited_macros@[idx as int].unwrap()@)
        } else {
            demo_file_views(demos@[idx as int].macros@)
        }),
{
    if idx < edited_macros.len() {
        if let Some(files) = &edited_macros[idx] {
            return clone_files(files);
        }
    }
    demo_macro_files(&demos[idx])
}

fn clone_files(files: &Vec<MacroFile>) -> (r: Vec<MacroFile>)
    ensures
        file_views(r@) == file_views(files@),
{
    let mut r: Vec<MacroFile> = Vec::new();
    let mut i: usize = 0;
    while i < files.len()
        invariant
            i <= files@.len(),
            file_views(r@) == file_views(files@.take(i as int)),
        decreases files@.len() - i,
    {
        let f = &files[i];
        r.push(MacroFile { name: f.name.clone(), source: f.source.clone(), collapsed: f.collapsed });
        i = i + 1;
        assert(file_views(files@.take(i as int)) =~= file_views(files@.take(i - 1)).push(
            (f.name@, f.source@, f.collapsed),
        ));
        assert(file_views(r@) =~= file_views(files@.take(i as int)));
    }
    assert(files@.take(i as int) =~= files@);
    r
}

/// Records `value` as the draft of demo `idx`; drafts of other demos stay,
/// and an index without a slot changes nothing.
pub fn store_draft<T>(drafts: &mut Vec<Option<T>>, idx: usize, value: T)
    ensures
        idx < old(drafts)@.len() ==> final(drafts)@ == old(drafts)@.update(idx as int, Some(value)),
        idx >= old(drafts)@.len() ==> final(drafts)@ == old(drafts)@,
{
    if idx < drafts.len() {
        drafts.set(idx, Some(value));
    }
}

} // verus!
