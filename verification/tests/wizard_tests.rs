use web_sw_cor24_plsw::components::wizard::{
    advance_action, shows_action_button, step_click, step_display, WizardAdvance, WizardStep,
};

#[test]
fn steps_have_labels_tooltips_and_cells() {
    let expected = [
        (WizardStep::Source, "Source", "Edit PL/SW source (.plsw)", "Edit Macros", "cell-source"),
        (WizardStep::Macros, "Macros", "Edit macro files (.msw)", "Preprocess", "cell-macros"),
        (WizardStep::Preprocess, "Preprocess", "Expand macros and includes", "Compile", "cell-preprocess"),
        (WizardStep::Compile, "Compile", "Compile PL/SW to COR24 assembly", "Assemble", "cell-compile"),
        (WizardStep::Assemble, "Assemble", "Assemble to machine code", "Run", "cell-assemble"),
        (WizardStep::Run, "Run", "Execute and debug", "", "cell-run"),
    ];
    for (i, (step, label, tip, action, cell)) in expected.iter().enumerate() {
        assert_eq!(step.label(), *label);
        assert_eq!(step.tooltip(), *tip);
        assert_eq!(step.action_label(), *action);
        assert_eq!(step.cell_id(), *cell);
        assert_eq!(step.rank() as usize, i);
        assert_eq!(WizardStep::all()[i], *step);
    }
}

#[test]
fn next_walks_the_pipeline_in_order() {
    let mut step = WizardStep::Source;
    let mut seen = vec![step];
    while let Some(n) = step.next() {
        assert_eq!(n.rank(), step.rank() + 1);
        step = n;
        seen.push(step);
    }
    assert_eq!(seen, WizardStep::all().to_vec());
    assert_eq!(WizardStep::Run.next(), None);
}

#[test]
fn sidebar_marks_reached_steps() {
    let d = step_display(WizardStep::Macros, WizardStep::Compile, true);
    assert!(!d.active && d.completed && !d.disabled && d.check_mark);
    let d = step_display(WizardStep::Compile, WizardStep::Compile, true);
    assert!(d.active && d.completed && !d.check_mark);
    let d = step_display(WizardStep::Run, WizardStep::Compile, true);
    assert!(d.disabled && !d.completed);
    let d = step_display(WizardStep::Source, WizardStep::Source, false);
    assert!(d.active && !d.completed && !d.check_mark);
}

#[test]
fn action_button_hidden_without_source_and_at_run() {
    assert!(shows_action_button(WizardStep::Source, true));
    assert!(!shows_action_button(WizardStep::Source, false));
    assert!(!shows_action_button(WizardStep::Run, true));
}

#[test]
fn clicking_only_returns_to_reached_steps() {
    assert_eq!(step_click(WizardStep::Compile, WizardStep::Source), WizardStep::Source);
    assert_eq!(step_click(WizardStep::Compile, WizardStep::Run), WizardStep::Compile);
    assert_eq!(step_click(WizardStep::Compile, WizardStep::Compile), WizardStep::Compile);
}

#[test]
fn advance_runs_the_stage_of_each_step() {
    assert_eq!(advance_action(WizardStep::Source, false, false), WizardAdvance::MoveTo(WizardStep::Macros));
    assert_eq!(advance_action(WizardStep::Macros, false, false), WizardAdvance::Preprocess);
    assert_eq!(advance_action(WizardStep::Preprocess, false, false), WizardAdvance::Compile);
    assert_eq!(advance_action(WizardStep::Preprocess, true, false), WizardAdvance::MoveTo(WizardStep::Compile));
    assert_eq!(advance_action(WizardStep::Compile, false, true), WizardAdvance::ShowAssembly);
    assert_eq!(advance_action(WizardStep::Assemble, false, true), WizardAdvance::Run);
    assert_eq!(advance_action(WizardStep::Assemble, false, false), WizardAdvance::MoveTo(WizardStep::Run));
    assert_eq!(advance_action(WizardStep::Assemble, true, true), WizardAdvance::MoveTo(WizardStep::Run));
    assert_eq!(advance_action(WizardStep::Run, false, true), WizardAdvance::Stay);
}

fn shown(current: WizardStep, a: WizardAdvance) -> WizardStep {
    match a {
        WizardAdvance::Stay => current,
        WizardAdvance::Preprocess => WizardStep::Preprocess,
        WizardAdvance::Compile => WizardStep::Compile,
        WizardAdvance::ShowAssembly => WizardStep::Assemble,
        WizardAdvance::Run => WizardStep::Run,
        WizardAdvance::MoveTo(s) => s,
    }
}

#[test]
fn advance_moves_exactly_one_step() {
    for step in WizardStep::all() {
        for compiling in [false, true] {
            for has_asm in [false, true] {
                let to = shown(step, advance_action(step, compiling, has_asm));
                match step.next() {
                    Some(n) => assert_eq!(to, n),
                    None => assert_eq!(to, step),
                }
            }
        }
    }
}
