use web_sw_cor24_plsw::components::pl_edit::{
    advance_session, editor_key, expand_source_at, expansion_templates_for, format_source, templates_for,
    update_session_after_input, EditorKey, PlEditLanguage, PlEditSession,
};

#[test]
fn expands_if_to_block_conditional() {
    let expansion = expand_source_at("    if", 6, 6, PlEditLanguage::Source).unwrap();

    assert_eq!(
        expansion.source,
        "    IF () THEN DO;\n        \n    END;\n    ELSE DO;\n        \n    END;"
    );
    assert_eq!(expansion.cursor, 8);
    assert_eq!(expansion.fields, vec![8, 27, 58]);
}

#[test]
fn expands_select_dispatch() {
    let expansion = expand_source_at("SEL", 3, 3, PlEditLanguage::Source).unwrap();

    assert_eq!(
        expansion.source,
        "SELECT;\n    WHEN () DO;\n        \n    END;\n    OTHERWISE DO;\n        \n    END;\nEND;"
    );
    assert_eq!(expansion.cursor, 18);
}

#[test]
fn expands_macrodef_with_gen_block() {
    let expansion = expand_source_at("MD", 2, 2, PlEditLanguage::Macro).unwrap();

    assert_eq!(
        expansion.source,
        "MACRODEF ;\n    REQUIRED (expr);\n    GEN DO;\n        '';\n    END;\nEND;"
    );
    assert_eq!(expansion.cursor, 9);
    assert_eq!(expansion.fields, vec![9, 24, 53]);
}

#[test]
fn expands_source_control_flow_inside_macro_file() {
    let expansion = expand_source_at("IF", 2, 2, PlEditLanguage::Macro).unwrap();

    assert_eq!(
        expansion.source,
        "IF () THEN DO;\n    \nEND;\nELSE DO;\n    \nEND;"
    );
    assert_eq!(expansion.cursor, 4);
}

#[test]
fn expansion_needs_a_known_trigger_on_a_char_boundary() {
    assert!(expand_source_at("XYZ", 3, 3, PlEditLanguage::Source).is_none());
    assert!(expand_source_at("é", 1, 1, PlEditLanguage::Source).is_none());
    assert!(expand_source_at("IF ", 3, 3, PlEditLanguage::Source).is_none());
    assert!(expand_source_at("IF", 2, 9, PlEditLanguage::Source).is_none());
    assert!(expand_source_at("MD", 2, 2, PlEditLanguage::Source).is_none());
}

#[test]
fn expansion_offsets_count_bytes() {
    let x = expand_source_at("é g", 4, 4, PlEditLanguage::Source).unwrap();
    assert_eq!(x.source, "é GOTO ;");
    assert_eq!(x.fields, vec![8]);
    assert_eq!(x.cursor, 8);
}

#[test]
fn template_without_fields_puts_cursor_at_end() {
    let x = expand_source_at("retv", 4, 4, PlEditLanguage::Source).unwrap();
    assert_eq!(x.source, "RETURN;");
    assert_eq!(x.fields, vec![7]);
}

#[test]
fn macro_editors_list_macro_templates_then_source_templates() {
    let all = expansion_templates_for(PlEditLanguage::Macro);
    assert_eq!(all.len(), 23);
    assert_eq!(all[0].trigger, "MD");
    assert_eq!(all[6].trigger, "IF");
    assert_eq!(templates_for(PlEditLanguage::Source).len(), 17);
    assert_eq!(templates_for(PlEditLanguage::Macro).len(), 6);
}

#[test]
fn sessions_advance_within_bounds() {
    let s = PlEditSession { fields: vec![1, 5, 9], active: 0 };
    let n = advance_session(&s, false).unwrap();
    assert_eq!(n.active, 1);
    assert!(advance_session(&s, true).is_none());
    let last = PlEditSession { fields: vec![1, 5, 9], active: 2 };
    assert!(advance_session(&last, false).is_none());
    assert_eq!(advance_session(&last, true).unwrap().active, 1);
    assert!(advance_session(&PlEditSession { fields: vec![], active: 0 }, false).is_none());
}

#[test]
fn session_fields_follow_typing() {
    let s = PlEditSession { fields: vec![4, 10, 20], active: 0 };
    let n = update_session_after_input(&s, "IF () THEN", "IF (ab) THEN", 6);
    assert_eq!(n.fields, vec![6, 12, 22]);
    assert_eq!(n.active, 0);
    let m = update_session_after_input(&n, "IF (ab) THEN", "IF (a) THEN", 5);
    assert_eq!(m.fields, vec![5, 11, 21]);
}

#[test]
fn formats_nested_control_flow() {
    let source =
        "MAIN: PROC;\nIF (2 > 1) THEN DO;\nCALL A();\nEND;\nELSE DO;\nCALL B();\nEND;\nEND;\n";

    assert_eq!(
        format_source(source),
        "MAIN: PROC;\n    IF (2 > 1) THEN DO;\n        CALL A();\n    END;\n    ELSE DO;\n        CALL B();\n    END;\nEND;\n"
    );
}

#[test]
fn formats_dcl_continuation() {
    let source = "DCL 1 POINT,\n3 X INT(24),\n5 Y CHAR(8);\n";

    assert_eq!(
        format_source(source),
        "DCL 1 POINT,\n    3 X INT(24),\n        5 Y(8) CHAR;\n"
    );
}

#[test]
fn formats_record_dcl_inside_proc_by_level() {
    let source = "MAIN: PROC;\nDCL 1 FOO,\n3 BAR INT(24),\n5 BAT CHAR(8);\nEND;\n";

    assert_eq!(
        format_source(source),
        "MAIN: PROC;\n    DCL 1 FOO,\n        3 BAR INT(24),\n            5 BAT(8) CHAR;\nEND;\n"
    );
}

#[test]
fn formats_macro_file_blocks() {
    let source = "ADD2: PROC(A INT(24), B INT(24)) RETURNS(INT(24));\nRETURN(A + B);\nEND;\nMACRODEF EMIT_NOP;\nREQUIRED COUNT(expr);\nGEN DO;\n'lc      r0,{COUNT}';\nEND;\nEND;\n";

    assert_eq!(
        format_source(source),
        "ADD2: PROC(A INT(24), B INT(24)) RETURNS(INT(24));\n    RETURN(A + B);\nEND;\nMACRODEF EMIT_NOP;\n    REQUIRED COUNT(expr);\n    GEN DO;\n        'lc      r0,{COUNT}';\n    END;\nEND;\n"
    );
}

#[test]
fn normalizes_spacing_before_indent_decisions() {
    let source = "MACRODEF   EMIT_NOP ;\nREQUIRED   COUNT( expr ) ;\nGEN   DO ;\n'lc      r0,{COUNT}';\nEND ;\nEND ;\n";

    assert_eq!(
        format_source(source),
        "MACRODEF EMIT_NOP;\n    REQUIRED COUNT(expr);\n    GEN DO;\n        'lc      r0,{COUNT}';\n    END;\nEND;\n"
    );
}

#[test]
fn normalizes_parameter_spacing_without_touching_strings() {
    let source = "ADD3:   PROC( A INT( 24 ) ,   B INT(24) , C INT(24) ) RETURNS( INT(24) ) ;\nRETURN( A + B + C ) ;\nCALL UART_PUTS( ADDR( APP_MSG ) ) ;\n'keep   generated   spaces';\nEND;\n";

    assert_eq!(
        format_source(source),
        "ADD3: PROC(A INT(24), B INT(24), C INT(24)) RETURNS(INT(24));\n    RETURN(A + B + C);\n    CALL UART_PUTS(ADDR(APP_MSG));\n    'keep   generated   spaces';\nEND;\n"
    );
}

#[test]
fn formatting_keeps_keyword_space_before_paren_and_blank_lines() {
    assert_eq!(
        format_source("DO WHILE (X);\n\nCALL F (1);\nEND;"),
        "DO WHILE (X);\n\n    CALL F(1);\nEND;"
    );
    assert_eq!(format_source("DCL MSG CHAR(20);\n"), "DCL MSG(20) CHAR;\n");
    assert_eq!(format_source("DCL +5 X CHAR(3);"), "DCL +5 X CHAR(3);");
}

#[test]
fn formatting_is_stable_on_formatted_text() {
    let once = format_source("MAIN: PROC;\nIF (A) THEN DO;\nCALL B( 1 ,2 );\nEND;\nEND;\n");
    assert_eq!(format_source(&once), once);
}

#[test]
fn editor_keys_advance_fields_or_expand() {
    assert_eq!(editor_key("Tab", false, false, true, false), EditorKey::Advance { backwards: false });
    assert_eq!(editor_key("Tab", false, true, true, true), EditorKey::Advance { backwards: true });
    assert_eq!(editor_key("Enter", false, false, true, true), EditorKey::Advance { backwards: false });
    assert_eq!(editor_key("Enter", true, false, true, true), EditorKey::Pass);
    assert_eq!(editor_key("Tab", false, false, false, true), EditorKey::Pass);
    assert_eq!(editor_key("F4", false, false, false, true), EditorKey::Expand);
    assert_eq!(editor_key(" ", true, false, false, true), EditorKey::Expand);
    assert_eq!(editor_key(" ", false, false, false, true), EditorKey::Pass);
    assert_eq!(editor_key("F4", false, false, false, false), EditorKey::Pass);
}

#[test]
fn macro_editors_expand_every_source_trigger_alike() {
    for t in templates_for(PlEditLanguage::Source) {
        let a = expand_source_at(t.trigger, t.trigger.len(), t.trigger.len(), PlEditLanguage::Source).unwrap();
        let b = expand_source_at(t.trigger, t.trigger.len(), t.trigger.len(), PlEditLanguage::Macro).unwrap();
        assert_eq!(a.source, b.source);
        assert_eq!(a.cursor, b.cursor);
        assert_eq!(a.fields, b.fields);
    }
}

#[test]
fn advancing_and_going_back_returns_to_the_same_field() {
    let s = PlEditSession { fields: vec![3, 9, 14], active: 1 };
    let fwd = advance_session(&s, false).unwrap();
    assert_eq!(fwd.active, 2);
    let back = advance_session(&fwd, true).unwrap();
    assert_eq!(back.active, 1);
    assert_eq!(back.fields, s.fields);
    assert!(advance_session(&fwd, false).is_none());
    let first = PlEditSession { fields: vec![3], active: 0 };
    assert!(advance_session(&first, true).is_none());
    assert!(advance_session(&PlEditSession { fields: vec![], active: 0 }, false).is_none());
}

#[test]
fn expansion_fields_lie_inside_the_new_text() {
    for lang in [PlEditLanguage::Source, PlEditLanguage::Macro] {
        for t in expansion_templates_for(lang) {
            let src = format!("  x = 1;\n  {}", t.trigger.to_lowercase());
            let at = src.len();
            let e = expand_source_at(&src, at, at, lang).unwrap();
            assert!(!e.fields.is_empty());
            assert_eq!(e.cursor, e.fields[0]);
            assert!(e.fields.iter().all(|f| (*f as usize) <= e.source.len()));
            assert!(e.fields.iter().all(|f| e.source.is_char_boundary(*f as usize)));
        }
    }
}

#[test]
fn formatting_keeps_one_line_per_line_and_only_changes_spacing() {
    let src = "MAIN:PROC;\n  CALL   FOO ( A ,B );\n\n   X = 'a  b' ;\nEND;";
    let out = format_source(src);
    assert_eq!(out.lines().count(), src.lines().count());
    let strip = |s: &str| s.chars().filter(|c| !c.is_whitespace()).collect::<String>();
    assert_eq!(strip(&out), strip(src));
    assert!(out.contains("'a  b'"));
    for (o, i) in out.lines().zip(src.lines()) {
        assert_eq!(o.trim_start().is_empty(), i.trim().is_empty());
    }
}

#[test]
fn formatting_keeps_text_inside_quotes() {
    let out = format_source("CALL  PUTS ( 'a , ( b ;  c' ) ;");
    assert_eq!(out, "CALL PUTS('a , ( b ;  c');");
}

#[test]
fn formatting_formatted_text_changes_nothing() {
    let samples = [
        "MAIN: PROC;\nIF (X > 1) THEN DO;\nCALL FOO ( A ,B );\nEND;\nELSE DO;\nY = 2 ;\nEND;\nEND;\n",
        "DCL 1 POINT,\n3 X INT(24),\n5 Y CHAR(8);\n",
        "DCL MSG CHAR( 16 ) ;\nX = 'a ,  ( b' ;\n\tcall  f(  a,(b) , c )\n",
        "MACRODEF FOO;\n  REQUIRED BAR(expr);\n  GEN DO;\n    'lc r0, {BAR}';\n  END;\nEND;",
        "SELECT;\nWHEN (1) DO;\nEND;\nOTHERWISE DO;\nEND;\nEND;\n   \n",
    ];
    for src in samples {
        let once = format_source(src);
        assert_eq!(format_source(&once), once);
    }
}
