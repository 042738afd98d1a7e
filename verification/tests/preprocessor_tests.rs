use web_sw_cor24_plsw::preprocessor::{
    expand_macro, parse_invocation, parse_macro_defs, preprocess, split_macro_args, MacroDef,
    NamedArgs, SourceLine,
};
use web_sw_cor24_plsw::text::{chars_of, string_of};

fn chars(s: &str) -> Vec<char> {
    s.chars().collect()
}

#[test]
fn test_parse_gen_macro_defs() {
    let source = r#"
MACRODEF UART_INIT;
  REQUIRED PORT(expr);
  GEN DO;
    "lc r0, {PORT}";
    "st r0, [0xFF0100]";
  END;
END;
"#;
    let defs = parse_macro_defs(source);
    assert_eq!(defs.len(), 1);
    assert_eq!(defs[0].name, "UART_INIT");
    assert_eq!(defs[0].params, vec!["PORT"]);
    assert_eq!(defs[0].body_lines.len(), 2);
    assert_eq!(defs[0].body_lines[0], "lc r0, {PORT}");
}

#[test]
fn test_parse_source_template_macro_def() {
    let source = r#"MACRODEF GETMAIN;
    REQUIRED SET(lvalue);
    REQUIRED LENGTH(expr);
    REQUIRED RC(lvalue);
    {SET} = _PLSW_GETMAIN({LENGTH});
    IF ({SET} = 0) THEN {RC} = 4;
    ELSE {RC} = 0;
END;
"#;
    let defs = parse_macro_defs(source);
    assert_eq!(defs.len(), 1);
    assert_eq!(defs[0].name, "GETMAIN");
    assert_eq!(defs[0].params, vec!["SET", "LENGTH", "RC"]);
    assert_eq!(
        defs[0].body_lines,
        vec![
            "{SET} = _PLSW_GETMAIN({LENGTH});",
            "IF ({SET} = 0) THEN {RC} = 4;",
            "ELSE {RC} = 0;",
        ],
    );
}

#[test]
fn test_expand_macro_named() {
    let def = MacroDef {
        name: "TEST".into(),
        params: vec!["X".into()],
        body_lines: vec!["lc r0, {X}".into()],
    };
    let mut named = NamedArgs::new();
    named.insert("X".into(), "42".into());
    let result = expand_macro(&def, &[], &named);
    assert_eq!(result, vec!["lc r0, 42"]);
}

#[test]
fn test_expand_macro_positional() {
    let def = MacroDef {
        name: "TEST".into(),
        params: vec!["CH".into()],
        body_lines: vec!["ld r0, {CH}".into()],
    };
    let result = expand_macro(&def, &["myvar".into()], &NamedArgs::new());
    assert_eq!(result, vec!["ld r0, myvar"]);
}

#[test]
fn test_preprocess_pli_invocation() {
    let source = "?GETMAIN LENGTH(12) SET(P) RC(RC);\n";
    let macros = vec![(
        "_plsw_storage.msw".into(),
        r#"MACRODEF GETMAIN;
    REQUIRED SET(lvalue);
    REQUIRED LENGTH(expr);
    REQUIRED RC(lvalue);
    {SET} = _PLSW_GETMAIN({LENGTH});
    IF ({SET} = 0) THEN {RC} = 4;
    ELSE {RC} = 0;
END;"#
            .into(),
    )];
    let result = preprocess(source, &macros);
    assert_eq!(result.expansions.len(), 1);
    assert_eq!(result.expansions[0].macro_name, "GETMAIN");
    assert_eq!(
        result.expansions[0].expanded_lines,
        vec![
            "P = _PLSW_GETMAIN(12);",
            "IF (P = 0) THEN RC = 4;",
            "ELSE RC = 0;",
        ],
    );
}

#[test]
fn test_preprocess_pli_gen_invocation() {
    let source = "?LED_SET VAL(0);\n";
    let macros = vec![(
        "system.msw".into(),
        r#"MACRODEF LED_SET;
    REQUIRED VAL(expr);
    GEN DO;
        'la r2,16711680';
        'lc r0,{VAL}';
        'sb r0,0(r2)';
    END;
END;"#
            .into(),
    )];
    let result = preprocess(source, &macros);
    assert_eq!(result.expansions.len(), 1);
    assert_eq!(
        result.expansions[0].expanded_lines,
        vec!["la r2,16711680", "lc r0,0", "sb r0,0(r2)"],
    );
}

#[test]
fn preprocess_output_replaces_invocation_with_comment_and_indented_lines() {
    let source = "A;\n  ?LED_SET VAL(7);\nB;";
    let macros = vec![(
        "system.msw".to_string(),
        "MACRODEF LED_SET;\n REQUIRED VAL(expr);\n GEN DO;\n 'lc r0,{VAL}';\n END;\nEND;".to_string(),
    )];
    let result = preprocess(source, &macros);
    assert_eq!(result.output, "A;\n/* ?LED_SET VAL(7); */\n  lc r0,7\nB;");
    assert_eq!(result.expansions[0].line_number, 1);
    assert_eq!(result.expansions[0].invocation, "  ?LED_SET VAL(7);");
    assert_eq!(
        result.source_lines,
        vec![
            SourceLine::Plain("A;".into()),
            SourceLine::Invocation { text: "  ?LED_SET VAL(7);".into(), expansion_idx: 0 },
            SourceLine::Plain("B;".into()),
        ]
    );
}

#[test]
fn preprocess_inlines_includes_case_insensitively() {
    let source = "%INCLUDE SYSTEM;\n%INCLUDE missing;\nX;\n";
    let macros = vec![("system.msw".to_string(), "L1\nL2\n".to_string())];
    let result = preprocess(source, &macros);
    assert_eq!(
        result.output,
        "/* --- system.msw --- */\nL1\nL2\n/* --- end system.msw --- */\n/* %INCLUDE missing; -- not found */\nX;"
    );
    assert_eq!(result.source_lines[0], SourceLine::Include("%INCLUDE SYSTEM;".into()));
}

#[test]
fn preprocess_passes_unknown_macros_through() {
    let result = preprocess("?NOPE X(1);", &[]);
    assert!(result.expansions.is_empty());
    assert_eq!(result.output, "?NOPE X(1);");
    assert_eq!(result.source_lines, vec![SourceLine::Plain("?NOPE X(1);".into())]);
}

#[test]
fn later_definition_of_a_name_wins() {
    let macros = vec![
        ("a.msw".to_string(), "MACRODEF M;\nGEN DO;\n'one';\nEND;\nEND;".to_string()),
        ("b.msw".to_string(), "MACRODEF M;\nGEN DO;\n'two';\nEND;\nEND;".to_string()),
    ];
    let result = preprocess("?M;", &macros);
    assert_eq!(result.expansions[0].expanded_lines, vec!["two"]);
}

#[test]
fn legacy_invocation_forms_parse() {
    let (name, pos, named) = parse_invocation(&chars("?UART_INIT(PORT=0xFF0100);")).unwrap();
    assert_eq!(name, "UART_INIT");
    assert!(pos.is_empty());
    assert_eq!(named.get(&chars("PORT")), Some(chars("0xFF0100")));

    let (name, pos, named) = parse_invocation(&chars("?PUTC(myvar)")).unwrap();
    assert_eq!(name, "PUTC");
    assert_eq!(pos, vec!["myvar"]);
    assert_eq!(named.get(&chars("myvar")), None);

    let (_, _, named) = parse_invocation(&chars("?FOO(BAR(0), BAZ(a b))")).unwrap();
    assert_eq!(named.get(&chars("BAR")), Some(chars("0")));
    assert_eq!(named.get(&chars("BAZ")), Some(chars("a b")));

    assert!(parse_invocation(&chars("?(x)")).is_none());
    assert!(parse_invocation(&chars("NOPE")).is_none());
}

#[test]
fn split_respects_parentheses_and_drops_empty_parts() {
    let parts = split_macro_args(&chars("A(1, 2),,B(3)"), ',');
    let parts: Vec<String> = parts.iter().map(|p| p.iter().collect()).collect();
    assert_eq!(parts, vec!["A(1, 2)", "B(3)"]);
}

#[test]
fn positional_then_named_override() {
    let def = MacroDef {
        name: "T".into(),
        params: vec!["A".into(), "B".into()],
        body_lines: vec!["{A}+{B}+{C}".into()],
    };
    let mut named = NamedArgs::new();
    named.insert("B".into(), "nb".into());
    let result = expand_macro(&def, &["pa".into(), "pb".into()], &named);
    assert_eq!(result, vec!["pa+nb+{C}"]);
}

#[test]
fn text_round_trip() {
    assert_eq!(string_of(&chars_of("héllo")), "héllo");
}

#[test]
fn display_lines_name_their_expansions() {
    let macros = vec![(
        "m.msw".to_string(),
        "MACRODEF PING;\n    REQUIRED N(expr);\n    CALL PING_({N});\nEND;\n".to_string(),
    )];
    let source = "A;\n?PING N(1);\n%INCLUDE m;\n?NOPE;\n?PING N(2);";
    let r = preprocess(source, &macros);
    let lines: Vec<&str> = source.lines().collect();
    assert_eq!(r.source_lines.len(), lines.len());
    assert_eq!(r.expansions.len(), 2);
    for (i, line) in r.source_lines.iter().enumerate() {
        match line {
            SourceLine::Plain(t) | SourceLine::Include(t) => assert_eq!(t, lines[i]),
            SourceLine::Invocation { text, expansion_idx } => {
                assert_eq!(text, lines[i]);
                let e = &r.expansions[*expansion_idx];
                assert_eq!(e.line_number, i);
                assert_eq!(e.invocation, lines[i]);
            }
        }
    }
    assert_eq!(r.expansions[1].expanded_lines, vec!["CALL PING_(2);".to_string()]);
    assert!(matches!(r.source_lines[3], SourceLine::Plain(_)));
    assert!(matches!(r.source_lines[2], SourceLine::Include(_)));
}
