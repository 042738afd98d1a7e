use web_sw_cor24_plsw::components::macro_editor::MacroFile;
use web_sw_cor24_plsw::components::mass_compile::{
    add_draft_row, apply_assembly, apply_compile_result, apply_run, begin_advance,
    can_submit_all_jobs, change_draft_demo, change_job_demo, compiler_input_log,
    default_macro_sources, draft_scratch_text, edit_draft_scratch, edit_job_scratch, hold_job,
    job_scratch_text, job_source, next_queue_action, remove_draft_row, resubmit_job,
    save_draft_scratch, save_job_scratch, start_job, submit_all_jobs, submit_draft_line,
    submit_drafts, AdvanceStep, DraftRow, JobLog, JobState, MassJob, QueueAction,
};
use web_sw_cor24_plsw::demos::{Demo, DemoMacro};
use web_sw_cor24_plsw::pipeline::{CompileResult, RunResult};

const LED_MACROS: &[DemoMacro] = &[DemoMacro { name: "system.msw", source: "MACRODEF X;\nEND;" }];

fn demo_list() -> Vec<Demo> {
    vec![
        Demo { name: "Hello", description: "", source: "HELLO: PROC;\nEND;\n", macros: &[] },
        Demo { name: "Leds", description: "", source: "?LED_SET VAL(1);", macros: LED_MACROS },
    ]
}

fn active_count(jobs: &[MassJob]) -> usize {
    jobs.iter().filter(|j| j.state.is_active()).count()
}

#[test]
fn job_state_labels_and_classes() {
    let all = [
        (JobState::Queued, "queued", "queued"),
        (JobState::Waiting, "waiting", "waiting"),
        (JobState::Compiling, "compiling", "active"),
        (JobState::Assembling, "assembling", "active"),
        (JobState::Running, "running", "active"),
        (JobState::Complete, "complete", "complete"),
        (JobState::Failed, "failed", "failed"),
    ];
    for (state, label, class) in all {
        assert_eq!(state.label(), label);
        assert_eq!(state.class(), class);
    }
    assert!(JobState::Running.is_active());
    assert!(!JobState::Queued.is_active());
    assert!(JobState::Failed.is_editable());
    assert!(!JobState::Compiling.is_editable());
    assert!(JobState::Complete.can_resubmit());
    assert!(!JobState::Waiting.can_resubmit());
    assert!(JobState::Waiting.is_pending());
}

#[test]
fn new_job_is_queued_with_empty_log() {
    let job = MassJob::new(3);
    assert_eq!(job.state, JobState::Queued);
    assert_eq!(job.demo_idx, 3);
    assert_eq!(job.log, JobLog::new());
    assert!(job.summary.is_empty());
    assert!(!job.has_unsaved_scratch());
}

#[test]
fn job_with_dirty_scratch_notes_unsaved_edit() {
    let job = MassJob::with_scratch(0, None, Some("X".to_string()), true);
    assert!(job.has_unsaved_scratch());
    assert_eq!(job.summary, "Unsaved scratch edit");
    let clean = MassJob::with_scratch(0, Some("X".to_string()), Some("X".to_string()), false);
    assert!(!clean.has_unsaved_scratch());
    assert_eq!(clean.summary, "");
}

#[test]
fn compiler_input_log_lists_files_then_source() {
    let macros = vec![("system.msw".to_string(), "MACRODEF X;\nEND;".to_string())];
    assert_eq!(
        compiler_input_log("MAIN: PROC;\nEND;", &macros),
        "FILE:system\nMACRODEF X;\nEND;\n<RS>\nSOURCE:\nMAIN: PROC;\nEND;\n<EOT>"
    );
    assert_eq!(compiler_input_log("X;\n", &[]), "X;\n<EOT>");
}

#[test]
fn job_source_prefers_browser_drafts() {
    let demos = demo_list();
    let (src, macros) = job_source(1, &[], &[], &demos);
    assert_eq!(src, "?LED_SET VAL(1);");
    assert_eq!(macros, vec![("system.msw".to_string(), "MACRODEF X;\nEND;".to_string())]);
    assert_eq!(default_macro_sources(&demos[1]), macros);

    let edited = vec![None, Some("EDITED;".to_string())];
    let files = vec![None, Some(vec![MacroFile::new("mine.msw".to_string(), "M;".to_string())])];
    let (src, macros) = job_source(1, &edited, &files, &demos);
    assert_eq!(src, "EDITED;");
    assert_eq!(macros, vec![("mine.msw".to_string(), "M;".to_string())]);
}

#[test]
fn queue_runs_one_job_at_a_time() {
    let rows = vec![DraftRow::new(), DraftRow::new()];
    let mut jobs = submit_drafts(&rows);
    assert_eq!(jobs.len(), 2);
    assert_eq!(next_queue_action(&jobs), QueueAction::Start { idx: 0 });
    start_job(&mut jobs, 0, "A;".to_string(), vec![]);
    assert_eq!(jobs[0].state, JobState::Compiling);
    assert_eq!(jobs[0].compile_source.as_deref(), Some("A;"));
    assert_eq!(jobs[0].log.compiler_input, "A;\n<EOT>");
    assert_eq!(jobs[0].summary, "Starting compiler");
    assert_eq!(active_count(&jobs), 1);
    assert_eq!(
        next_queue_action(&jobs),
        QueueAction::Advance { idx: 0, stage: JobState::Compiling }
    );
}

#[test]
fn a_failed_job_lets_the_batch_continue() {
    let mut jobs = vec![MassJob::new(0), MassJob::new(0)];
    start_job(&mut jobs, 0, "A;".to_string(), vec![]);
    let step = begin_advance(&mut jobs, 0, JobState::Compiling);
    assert!(matches!(step, AdvanceStep::Compile { ref source, .. } if source == "A;"));
    assert!(jobs[0].worker_started);
    let again = begin_advance(&mut jobs, 0, JobState::Compiling);
    assert!(matches!(again, AdvanceStep::Skip));

    apply_compile_result(
        &mut jobs,
        0,
        CompileResult {
            compiler_output: "ERROR: bad".to_string(),
            assembly: None,
            instructions: 12,
            halted: true,
            error: Some("ERROR: bad".to_string()),
        },
    );
    assert_eq!(jobs[0].state, JobState::Failed);
    assert_eq!(jobs[0].log.assembler_error, "ERROR: bad");
    assert_eq!(jobs[0].summary, "compile: 12 instructions");
    assert_eq!(next_queue_action(&jobs), QueueAction::Start { idx: 1 });
}

#[test]
fn compile_without_assembly_fails_the_job() {
    let mut jobs = vec![MassJob::new(0)];
    start_job(&mut jobs, 0, "A;".to_string(), vec![]);
    apply_compile_result(
        &mut jobs,
        0,
        CompileResult {
            compiler_output: "nothing".to_string(),
            assembly: None,
            instructions: 5,
            halted: true,
            error: None,
        },
    );
    assert_eq!(jobs[0].state, JobState::Failed);
    assert_eq!(jobs[0].log.assembler_error, "Compiler produced no assembly");
}

#[test]
fn job_goes_through_every_stage_to_complete() {
    let mut jobs = vec![MassJob::new(0)];
    start_job(&mut jobs, 0, "A;".to_string(), vec![]);
    apply_compile_result(
        &mut jobs,
        0,
        CompileResult {
            compiler_output: "ok".to_string(),
            assembly: Some("halt".to_string()),
            instructions: 100,
            halted: true,
            error: None,
        },
    );
    assert_eq!(jobs[0].state, JobState::Assembling);
    assert_eq!(jobs[0].log.assembly_source, "halt");
    let step = begin_advance(&mut jobs, 0, JobState::Assembling);
    assert!(matches!(step, AdvanceStep::Assemble { ref source } if source == "halt"));

    apply_assembly(&mut jobs, 0, Ok(("0000: 00".to_string(), 3)));
    assert_eq!(jobs[0].state, JobState::Running);
    assert_eq!(jobs[0].summary, "assembled 3 bytes");
    assert_eq!(jobs[0].log.assembler_listing, "0000: 00");
    let step = begin_advance(&mut jobs, 0, JobState::Running);
    assert!(matches!(step, AdvanceStep::Run { ref source } if source == "halt"));

    apply_run(
        &mut jobs,
        0,
        RunResult { output: "hi".to_string(), instructions: 7, halted: true, error: None },
    );
    assert_eq!(jobs[0].state, JobState::Complete);
    assert_eq!(jobs[0].log.run_output, "hi");
    assert_eq!(jobs[0].summary, "run: 7 instructions");
    assert_eq!(next_queue_action(&jobs), QueueAction::Stop);
}

#[test]
fn assembly_error_and_run_error_fail_the_job() {
    let mut jobs = vec![MassJob::new(0)];
    jobs[0].state = JobState::Assembling;
    apply_assembly(&mut jobs, 0, Err("bad opcode".to_string()));
    assert_eq!(jobs[0].state, JobState::Failed);
    assert_eq!(jobs[0].log.assembler_error, "bad opcode");

    let mut jobs = vec![MassJob::new(0)];
    jobs[0].state = JobState::Running;
    apply_run(
        &mut jobs,
        0,
        RunResult {
            output: String::new(),
            instructions: 10_000_000,
            halted: false,
            error: Some("Program exceeded instruction limit".to_string()),
        },
    );
    assert_eq!(jobs[0].state, JobState::Failed);
    assert_eq!(jobs[0].log.run_error, "Program exceeded instruction limit");
}

#[test]
fn missing_compile_input_fails_the_job() {
    let mut jobs = vec![MassJob::new(0)];
    jobs[0].state = JobState::Compiling;
    let step = begin_advance(&mut jobs, 0, JobState::Compiling);
    assert!(matches!(step, AdvanceStep::Failed));
    assert_eq!(jobs[0].state, JobState::Failed);
    assert_eq!(jobs[0].log.assembler_error, "Compiler input was not captured");
}

#[test]
fn stale_stage_is_skipped() {
    let mut jobs = vec![MassJob::new(0)];
    let before = jobs.clone();
    assert!(matches!(begin_advance(&mut jobs, 0, JobState::Running), AdvanceStep::Skip));
    assert!(matches!(begin_advance(&mut jobs, 5, JobState::Queued), AdvanceStep::Skip));
    assert_eq!(jobs, before);
}

#[test]
fn dirty_scratch_holds_the_queue_until_saved() {
    let mut jobs = vec![MassJob::new(0), MassJob::new(1)];
    edit_job_scratch(&mut jobs, 0, "EDIT;".to_string());
    assert_eq!(jobs[0].state, JobState::Queued);
    assert_eq!(jobs[0].summary, "Unsaved scratch edit");
    assert_eq!(next_queue_action(&jobs), QueueAction::Hold { idx: 0 });
    hold_job(&mut jobs, 0);
    assert_eq!(jobs[0].state, JobState::Waiting);
    assert_eq!(jobs[0].summary, "Waiting for scratch save");
    assert_eq!(next_queue_action(&jobs), QueueAction::Hold { idx: 0 });

    save_job_scratch(&mut jobs, 0);
    assert_eq!(jobs[0].state, JobState::Queued);
    assert_eq!(jobs[0].source_override.as_deref(), Some("EDIT;"));
    assert!(!jobs[0].scratch_dirty);
    assert_eq!(next_queue_action(&jobs), QueueAction::Start { idx: 0 });
    start_job(&mut jobs, 0, "DRAFT;".to_string(), vec![]);
    assert_eq!(jobs[0].compile_source.as_deref(), Some("EDIT;"));
}

#[test]
fn editing_a_later_job_keeps_it_queued_and_the_active_job_running() {
    let mut jobs = vec![MassJob::new(0), MassJob::new(1)];
    start_job(&mut jobs, 0, "A;".to_string(), vec![]);
    edit_job_scratch(&mut jobs, 1, "B;".to_string());
    assert_eq!(jobs[1].state, JobState::Queued);
    assert_eq!(jobs[0].state, JobState::Compiling);
    assert_eq!(
        next_queue_action(&jobs),
        QueueAction::Advance { idx: 0, stage: JobState::Compiling }
    );
    let before = jobs.clone();
    edit_job_scratch(&mut jobs, 0, "ignored".to_string());
    assert_eq!(jobs, before);
}

#[test]
fn resubmit_resets_only_that_line() {
    let mut jobs = vec![MassJob::new(0), MassJob::new(1)];
    jobs[0].state = JobState::Complete;
    jobs[0].log.run_output = "old".to_string();
    jobs[1].state = JobState::Failed;
    assert!(resubmit_job(&mut jobs, 0));
    assert_eq!(jobs[0].state, JobState::Queued);
    assert_eq!(jobs[0].log, JobLog::new());
    assert_eq!(jobs[1].state, JobState::Failed);
    assert!(!resubmit_job(&mut jobs, 0));
    assert!(!resubmit_job(&mut jobs, 7));
}

#[test]
fn finished_job_can_change_demo() {
    let mut jobs = vec![MassJob::new(0)];
    jobs[0].state = JobState::Complete;
    jobs[0].source_override = Some("X".to_string());
    change_job_demo(&mut jobs, 0, 1);
    assert_eq!(jobs[0].demo_idx, 1);
    assert_eq!(jobs[0].source_override, None);
    assert_eq!(jobs[0].summary, "Changed demo; submit line to run");
    let mut queued = vec![MassJob::new(0)];
    change_job_demo(&mut queued, 0, 1);
    assert_eq!(queued[0].demo_idx, 0);
}

#[test]
fn submit_all_requires_every_job_finished() {
    let mut jobs = vec![MassJob::new(0), MassJob::new(1)];
    assert!(!can_submit_all_jobs(&jobs));
    jobs[0].state = JobState::Complete;
    jobs[1].state = JobState::Failed;
    assert!(can_submit_all_jobs(&jobs));
    submit_all_jobs(&mut jobs);
    assert!(jobs.iter().all(|j| j.state == JobState::Queued));
    assert!(!can_submit_all_jobs(&Vec::new()));
}

#[test]
fn saving_a_finished_job_notes_rerun() {
    let mut jobs = vec![MassJob::new(0)];
    jobs[0].state = JobState::Failed;
    edit_job_scratch(&mut jobs, 0, "FIX;".to_string());
    save_job_scratch(&mut jobs, 0);
    assert_eq!(jobs[0].state, JobState::Failed);
    assert_eq!(jobs[0].summary, "Saved scratch edit; submit line to rerun");
    assert_eq!(job_scratch_text(&jobs[0], &"DEFAULT".to_string()), "FIX;");
    assert_eq!(job_scratch_text(&MassJob::new(0), &"DEFAULT".to_string()), "DEFAULT");
}

#[test]
fn draft_rows_edit_save_and_submit() {
    let mut rows = vec![DraftRow::new()];
    assert_eq!(add_draft_row(&mut rows), 1);
    change_draft_demo(&mut rows, 1, 1);
    assert_eq!(rows[1].demo_idx, 1);
    edit_draft_scratch(&mut rows, 1, "S;".to_string());
    assert!(rows[1].has_unsaved_scratch());
    assert_eq!(draft_scratch_text(&rows[1], &"D".to_string()), "S;");
    save_draft_scratch(&mut rows, 1);
    assert!(!rows[1].has_unsaved_scratch());
    assert_eq!(rows[1].source_override.as_deref(), Some("S;"));

    let mut jobs: Vec<MassJob> = Vec::new();
    let idx = submit_draft_line(&mut jobs, &rows[1]);
    assert_eq!(idx, 0);
    assert_eq!(jobs[0].demo_idx, 1);
    assert_eq!(jobs[0].source_override.as_deref(), Some("S;"));

    assert_eq!(remove_draft_row(&mut rows, 1), Some(0));
    assert_eq!(rows.len(), 1);
    assert_eq!(remove_draft_row(&mut rows, 0), None);
    assert_eq!(draft_scratch_text(&rows[0], &"D".to_string()), "D");
}

#[test]
fn a_submitted_row_keeps_its_unsaved_scratch_and_waits() {
    let mut rows = vec![DraftRow::new()];
    edit_draft_scratch(&mut rows, 0, "DIRTY;".to_string());
    let mut jobs: Vec<MassJob> = Vec::new();
    let idx = submit_draft_line(&mut jobs, &rows[0]);
    assert_eq!(jobs[idx].scratch_buffer.as_deref(), Some("DIRTY;"));
    assert!(jobs[idx].scratch_dirty);
    assert_eq!(jobs[idx].summary, "Unsaved scratch edit");
    assert_eq!(next_queue_action(&jobs), QueueAction::Hold { idx: 0 });
    let all = submit_drafts(&rows);
    assert_eq!(all[0].scratch_buffer.as_deref(), Some("DIRTY;"));
    assert_eq!(next_queue_action(&all), QueueAction::Hold { idx: 0 });
}

#[test]
fn resubmitting_keeps_scratch_and_notes_unsaved_edits() {
    let mut jobs = vec![MassJob::new(0), MassJob::new(1)];
    jobs[0].state = JobState::Failed;
    jobs[1].state = JobState::Complete;
    edit_job_scratch(&mut jobs, 0, "FIX;".to_string());
    jobs[0].compile_source = Some("OLD;".to_string());
    jobs[0].worker_started = true;
    submit_all_jobs(&mut jobs);
    assert_eq!(jobs[0].scratch_buffer.as_deref(), Some("FIX;"));
    assert!(jobs[0].scratch_dirty);
    assert_eq!(jobs[0].summary, "Unsaved scratch edit");
    assert_eq!(jobs[0].compile_source, None);
    assert!(!jobs[0].worker_started);
    assert_eq!(jobs[1].summary, "");
}
