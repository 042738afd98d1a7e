use web_sw_cor24_plsw::pipeline::{
    compiler_assembly_failed, compiler_input, extract_assembly, feed_next_byte, finish_compile,
    program_assembly_failed, CompilePhase, CompileResult, CompilerAction, CompilerRun,
    ProgramAction, ProgramRun, BOOT_LIMIT, COMPILE_LIMIT, RUN_LIMIT,
};

fn finished(action: CompilerAction) -> CompileResult {
    match action {
        CompilerAction::Finish(r) => r,
        CompilerAction::RunBatch { .. } => panic!("expected the run to finish"),
    }
}

#[test]
fn extracts_trimmed_assembly_between_markers() {
    let out = "boot\n--- generated assembly ---\n  la r0, 1\n  halt\n--- end assembly ---\nbye";
    assert_eq!(extract_assembly(out), Some("la r0, 1\n  halt".to_string()));
    assert_eq!(extract_assembly("--- generated assembly ---\n \n--- end assembly ---"), None);
    assert_eq!(extract_assembly("--- generated assembly ---\nhalt"), None);
    assert_eq!(extract_assembly("--- end assembly ---\n--- generated assembly ---"), None);
    assert_eq!(extract_assembly(""), None);
}

#[test]
fn compiler_input_frames_macros_and_source() {
    let macros = vec![
        ("a.msw".to_string(), "A;".to_string()),
        ("b.msw".to_string(), "B;\n".to_string()),
    ];
    assert_eq!(
        compiler_input("MAIN;", &macros),
        "c\n/* --- a.msw --- */\nA;\n/* --- b.msw --- */\nB;\nMAIN;\n\u{4}"
    );
    assert_eq!(compiler_input("X;\n", &[]), "c\nX;\n\u{4}");
}

#[test]
fn finished_compile_reports_assembly_or_error() {
    let ok = finish_compile(
        "--- generated assembly ---\nhalt\n--- end assembly ---\n".to_string(),
        42,
    );
    assert_eq!(ok.assembly.as_deref(), Some("halt"));
    assert_eq!(ok.error, None);
    assert!(ok.halted);
    assert_eq!(ok.instructions, 42);

    let failed = finish_compile("x\ncompilation failed\nERROR: y".to_string(), 1);
    assert_eq!(failed.error.as_deref(), Some("Compilation failed"));

    let err = finish_compile("line one\n  ERROR: unknown name FOO\nmore".to_string(), 1);
    assert_eq!(err.error.as_deref(), Some("  ERROR: unknown name FOO"));
    assert_eq!(err.assembly, None);

    let silent = finish_compile("nothing here".to_string(), 1);
    assert_eq!(silent.error, None);
    assert_eq!(silent.assembly, None);
}

#[test]
fn assembler_failures_are_reported() {
    let r = compiler_assembly_failed(&vec!["e1".to_string(), "e2".to_string()]);
    assert_eq!(r.error.as_deref(), Some("Compiler assembly failed:\ne1\ne2"));
    assert!(!r.halted);
    assert_eq!(r.instructions, 0);
    let r = program_assembly_failed(&vec!["bad".to_string()]);
    assert_eq!(r.error.as_deref(), Some("Assembly failed:\nbad"));
    assert_eq!(r.output, "");
}

#[test]
fn compile_run_boots_feeds_and_finishes() {
    let mut run = CompilerRun::new();
    assert_eq!(run.phase, CompilePhase::Boot);
    assert!(matches!(run.step(100, false, "PLSW "), CompilerAction::RunBatch { feed_input: false }));
    assert!(matches!(
        run.step(100, false, "Enter suite #"),
        CompilerAction::RunBatch { feed_input: true }
    ));
    assert_eq!(run.phase, CompilePhase::Compile);
    assert!(matches!(run.step(100, false, "working"), CompilerAction::RunBatch { feed_input: true }));
    let r = finished(run.step(
        50,
        true,
        "\n--- generated assembly ---\nhalt\n--- end assembly ---\n",
    ));
    assert_eq!(r.instructions, 350);
    assert!(r.halted);
    assert_eq!(r.assembly.as_deref(), Some("halt"));
    assert_eq!(r.error, None);
    assert!(r.compiler_output.starts_with("PLSW Enter suite #working"));
}

#[test]
fn compile_run_stops_on_halt_during_boot_and_limits() {
    let mut run = CompilerRun::new();
    let r = finished(run.step(10, true, "x"));
    assert_eq!(r.error.as_deref(), Some("Compiler halted during boot"));
    assert!(r.halted);

    let mut run = CompilerRun::new();
    let r = finished(run.step(BOOT_LIMIT, false, ""));
    assert_eq!(r.error.as_deref(), Some("Compiler boot exceeded instruction limit"));
    assert!(!r.halted);

    let mut run = CompilerRun::new();
    let _ = run.step(10, false, "Enter suite #");
    let r = finished(run.step(COMPILE_LIMIT, false, ""));
    assert_eq!(r.error.as_deref(), Some("Compilation exceeded instruction limit"));
    assert_eq!(r.assembly, None);
}

#[test]
fn program_run_halts_or_hits_the_limit() {
    let mut run = ProgramRun::new();
    assert!(matches!(run.step(5, false, "he"), ProgramAction::RunBatch));
    match run.step(5, true, "llo") {
        ProgramAction::Finish(r) => {
            assert_eq!(r.output, "hello");
            assert_eq!(r.instructions, 10);
            assert!(r.halted);
            assert_eq!(r.error, None);
        }
        ProgramAction::RunBatch => panic!("expected the run to finish"),
    }
    let mut run = ProgramRun::new();
    match run.step(RUN_LIMIT, false, "") {
        ProgramAction::Finish(r) => {
            assert_eq!(r.error.as_deref(), Some("Program exceeded instruction limit"));
            assert!(!r.halted);
        }
        ProgramAction::RunBatch => panic!("expected the run to stop"),
    }
}

#[test]
fn input_bytes_wait_for_the_receive_buffer() {
    assert!(feed_next_byte(0x00, 3));
    assert!(feed_next_byte(0x02, 1));
    assert!(!feed_next_byte(0x01, 3));
    assert!(!feed_next_byte(0x00, 0));
}
