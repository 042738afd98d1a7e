use web_sw_cor24_plsw::components::macro_editor::{
    add_macro_file, editor_macro_sources, remove_macro_file, rename_macro_file, set_macro_source,
    toggle_macro_collapsed, MacroFile,
};
use web_sw_cor24_plsw::demos::{Demo, DemoMacro};
use web_sw_cor24_plsw::drafts::{demo_macro_draft, demo_macro_files, demo_source_text, store_draft};

#[test]
fn new_file_is_expanded() {
    let f = MacroFile::new("a.msw".to_string(), "X".to_string());
    assert_eq!(f.name, "a.msw");
    assert_eq!(f.source, "X");
    assert!(!f.collapsed);
}

#[test]
fn added_files_are_numbered_by_position() {
    let mut files = Vec::new();
    add_macro_file(&mut files);
    add_macro_file(&mut files);
    assert_eq!(files[0].name, "MACRO1.msw");
    assert_eq!(files[1].name, "MACRO2.msw");
    assert_eq!(files[1].source, "");
}

#[test]
fn edits_touch_only_their_file() {
    let mut files = vec![
        MacroFile::new("a.msw".to_string(), "A".to_string()),
        MacroFile::new("b.msw".to_string(), "B".to_string()),
    ];
    rename_macro_file(&mut files, 1, "c.msw".to_string());
    set_macro_source(&mut files, 0, "AA".to_string());
    toggle_macro_collapsed(&mut files, 1);
    assert_eq!(files[0], MacroFile { name: "a.msw".to_string(), source: "AA".to_string(), collapsed: false });
    assert_eq!(files[1], MacroFile { name: "c.msw".to_string(), source: "B".to_string(), collapsed: true });
    let before = files.clone();
    rename_macro_file(&mut files, 9, "z".to_string());
    set_macro_source(&mut files, 9, "z".to_string());
    toggle_macro_collapsed(&mut files, 9);
    remove_macro_file(&mut files, 9);
    assert_eq!(files, before);
    remove_macro_file(&mut files, 0);
    assert_eq!(files.len(), 1);
    assert_eq!(files[0].name, "c.msw");
}

#[test]
fn macro_sources_pair_names_with_text() {
    let files = vec![
        MacroFile::new("a.msw".to_string(), "A".to_string()),
        MacroFile::new("b.msw".to_string(), "B".to_string()),
    ];
    assert_eq!(
        editor_macro_sources(&files),
        vec![("a.msw".to_string(), "A".to_string()), ("b.msw".to_string(), "B".to_string())]
    );
}

const BUNDLED: &[DemoMacro] = &[DemoMacro { name: "system.msw", source: "MACRODEF X;\nEND;" }];

fn demos() -> Vec<Demo> {
    vec![
        Demo { name: "A", description: "a", source: "A: PROC;\nEND;", macros: &[] },
        Demo { name: "B", description: "b", source: "B: PROC;\nEND;", macros: BUNDLED },
    ]
}

#[test]
fn picking_a_demo_shows_its_draft_or_bundled_files() {
    let demos = demos();
    assert_eq!(demo_source_text(1, &[], &demos), "B: PROC;\nEND;");
    let mut sources = vec![None, None];
    store_draft(&mut sources, 1, "EDITED".to_string());
    store_draft(&mut sources, 5, "lost".to_string());
    assert_eq!(sources, vec![None, Some("EDITED".to_string())]);
    assert_eq!(demo_source_text(1, &sources, &demos), "EDITED");
    assert_eq!(demo_source_text(0, &sources, &demos), "A: PROC;\nEND;");

    let bundled = demo_macro_files(&demos[1]);
    assert_eq!(bundled, vec![MacroFile::new("system.msw".to_string(), "MACRODEF X;\nEND;".to_string())]);
    let mut macros: Vec<Option<Vec<MacroFile>>> = vec![None, None];
    assert_eq!(demo_macro_draft(1, &macros, &demos), bundled);
    let mine = vec![MacroFile::new("m.msw".to_string(), "M".to_string())];
    store_draft(&mut macros, 1, mine.clone());
    assert_eq!(demo_macro_draft(1, &macros, &demos), mine);
    assert!(demo_macro_draft(0, &macros, &demos).is_empty());
}
