//! The wizard: the pipeline steps shown in the sidebar, in order, and the
//! moves between them.
use vstd::prelude::*;

verus! {

/// Pipeline steps for progressive disclosure.
#[derive(Clone, Copy, Debug, PartialEq, Eq, PartialOrd, Ord, Hash, Structural)]
pub enum WizardStep {
    Source,
    Macros,
    Preprocess,
    Compile,
    Assemble,
    Run,
}

/// The position of a step in the pipeline.
pub open spec fn rank(s: WizardStep) -> nat {
    match s {
        WizardStep::Source => 0,
        WizardStep::Macros => 1,
        WizardStep::Preprocess => 2,
        WizardStep::Compile => 3,
        WizardStep::Assemble => 4,
        WizardStep::Run => 5,
    }
}

pub open spec fn label_spec(s: WizardStep) -> Seq<char> {
    match s {
        WizardStep::Source => "Source"@,
        WizardStep::Macros => "Macros"@,
        WizardStep::Preprocess => "Preprocess"@,
        WizardStep::Compile => "Compile"@,
        WizardStep::Assemble => "Assemble"@,
        WizardStep::Run => "Run"@,
    }
}

pub open spec fn tooltip_spec(s: WizardStep) -> Seq<char> {
    match s {
        WizardStep::Source => "Edit PL/SW source (.plsw)"@,
        WizardStep::Macros => "Edit macro files (.msw)"@,
        WizardStep::Preprocess => "Expand macros and includes"@,
        WizardStep::Compile => "Compile PL/SW to COR24 assembly"@,
        WizardStep::Assemble => "Assemble to machine code"@,
        WizardStep::Run => "Execute and debug"@,
    }
}

pub open spec fn action_label_spec(s: WizardStep) -> Seq<char> {
    match s {
        WizardStep::Source => "Edit Macros"@,
        WizardStep::Macros => "Preprocess"@,
        WizardStep::Preprocess => "Compile"@,
        WizardStep::Compile => "Assemble"@,
        WizardStep::Assemble => "Run"@,
        WizardStep::Run => ""@,
    }
}

pub open spec fn cell_id_spec(s: WizardStep) -> Seq<char> {
    match s {
        WizardStep::Source => "cell-source"@,
        WizardStep::Macros => "cell-macros"@,
        WizardStep::Preprocess => "cell-preprocess"@,
        WizardStep::Compile => "cell-compile"@,
        WizardStep::Assemble => "cell-assemble"@,
        WizardStep::Run => "cell-run"@,
    }
}

impl WizardStep {
    pub fn label(&self) -> (r: &'static str)
        ensures
            r@ == label_spec(*self),
    {
        match self {
            WizardStep::Source => "Source",
            WizardStep::Macros => "Macros",
            WizardStep::Preprocess => "Preprocess",
            WizardStep::Compile => "Compile",
            WizardStep::Assemble => "Assemble",
            WizardStep::Run => "Run",
        }
    }

    pub fn tooltip(&self) -> (r: &'static str)
        ensures
            r@ == tooltip_spec(*self),
    {
        match self {
            WizardStep::Source => "Edit PL/SW source (.plsw)",
            WizardStep::Macros => "Edit macro files (.msw)",
            WizardStep::Preprocess => "Expand macros and includes",
            WizardStep::Compile => "Compile PL/SW to COR24 assembly",
            WizardStep::Assemble => "Assemble to machine code",
            WizardStep::Run => "Execute and debug",
        }
    }

    /// The label of the button that moves to the next step.
    pub fn action_label(&self) -> (r: &'static str)
        ensures
            r@ == action_label_spec(*self),
    {
        match self {
            WizardStep::Source => "Edit Macros",
            WizardStep::Macros => "Preprocess",
            WizardStep::Preprocess => "Compile",
            WizardStep::Compile => "Assemble",
            WizardStep::Assemble => "Run",
            WizardStep::Run => "",
        }
    }

    /// The step after this one; `None` after `Run`.
    pub fn next(&self) -> (r: Option<WizardStep>)
        ensures
            match r {
                Some(n) => rank(*self) < 5 && rank(n) == rank(*self) + 1,
                None => *self == WizardStep::Run,
            },
    {
        match self {
            WizardStep::Source => Some(WizardStep::Macros),
            WizardStep::Macros => Some(WizardStep::Preprocess),
            WizardStep::Preprocess => Some(WizardStep::Compile),
            WizardStep::Compile => Some(WizardStep::Assemble),
            WizardStep::Assemble => Some(WizardStep::Run),
            WizardStep::Run => None,
        }
    }

    /// The id of the notebook cell of the step.
    pub fn cell_id(&self) -> (r: &'static str)
        ensures
            r@ == cell_id_spec(*self),
    {
        match self {
            WizardStep::Source => "cell-source",
            WizardStep::Macros => "cell-macros",
            WizardStep::Preprocess => "cell-preprocess",
            WizardStep::Compile => "cell-compile",
            WizardStep::Assemble => "cell-assemble",
            WizardStep::Run => "cell-run",
        }
    }

    /// The position of the step in the pipeline.
    pub fn rank(&self) -> (r: u8)
        ensures
            r == rank(*self),
    {
        match self {
            WizardStep::Source => 0,
            WizardStep::Macros => 1,
            WizardStep::Preprocess => 2,
            WizardStep::Compile => 3,
            WizardStep::Assemble => 4,
            WizardStep::Run => 5,
        }
    }

    /// All steps in pipeline order.
    pub fn all() -> (r: [WizardStep; 6])
        ensures
            forall|i: int| 0 <= i < 6 ==> rank(#[trigger] r@[i]) == i,
    {
        [
            WizardStep::Source,
            WizardStep::Macros,
            WizardStep::Preprocess,
            WizardStep::Compile,
            WizardStep::Assemble,
            WizardStep::Run,
        ]
    }
}

/// How a step looks in the sidebar.
#[derive(Clone, Copy, Debug, PartialEq, Eq, Structural)]
pub struct StepDisplay {
    /// The current step.
    pub active: bool,
    /// Reached, once there is source.
    pub completed: bool,
    /// Not reached yet: it cannot be clicked.
    pub disabled: bool,
    /// A check mark for completed steps other than the current one, else a
    /// circle.
    pub check_mark: bool,
}

/// How `step` looks while the wizard is at `current`.
pub fn step_display(step: WizardStep, current: WizardStep, has_source: bool) -> (d: StepDisplay)
    ensures
        d.active == (step == current),
        d.completed == (has_source && rank(step) <= rank(current)),
        d.disabled == (rank(step) > rank(current)),
        d.check_mark == (d.completed && !d.active),
{
    let s = step.rank();
    let c = current.rank();
    let active = step == current;
    let completed = has_source && s <= c;
    StepDisplay { active, completed, disabled: s > c, check_mark: completed && !active }
}

/// The advance button shows once there is source, until the last step.
pub fn shows_action_button(current: WizardStep, has_source: bool) -> (r: bool)
    ensures
        r == (has_source && current != WizardStep::Run),
{
    has_source && current != WizardStep::Run
}

/// A click on a step in the sidebar: only steps already reached can be
/// returned to.
pub fn step_click(current: WizardStep, step: WizardStep) -> (r: WizardStep)
    ensures
        r == (if rank(step) <= rank(current) { step } else { current }),
{
    if step.rank() <= current.rank() {
        step
    } else {
        current
    }
}

/// What the advance button does.
#[derive(Clone, Copy, Debug, PartialEq, Eq, Structural)]
pub enum WizardAdvance {
    /// At the last step: nothing.
    Stay,
    /// Run the preprocessor and show its output.
    Preprocess,
    /// Start the compiler on the emulator.
    Compile,
    /// Show the generated assembly.
    ShowAssembly,
    /// Assemble and run the compiled program.
    Run,
    /// Just move on to this step.
    MoveTo(WizardStep),
}

/// The advance button at `current`: each step runs its stage; compiling
/// waits while another run is going, and running needs generated assembly.
pub open spec fn advance_spec(current: WizardStep, compiling: bool, has_assembly: bool) -> WizardAdvance {
    match current {
        WizardStep::Source => WizardAdvance::MoveTo(WizardStep::Macros),
        WizardStep::Macros => WizardAdvance::Preprocess,
        WizardStep::Preprocess => if compiling {
            WizardAdvance::MoveTo(WizardStep::Compile)
        } else {
            WizardAdvance::Compile
        },
        WizardStep::Compile => WizardAdvance::ShowAssembly,
        WizardStep::Assemble => if !compiling && has_assembly {
            WizardAdvance::Run
        } else {
            WizardAdvance::MoveTo(WizardStep::Run)
        },
        WizardStep::Run => WizardAdvance::Stay,
    }
}

pub fn advance_action(current: WizardStep, compiling: bool, has_assembly: bool) -> (a: WizardAdvance)
    ensures
        a == advance_spec(current, compiling, has_assembly),
{
    match current.next() {
        None => WizardAdvance::Stay,
        Some(next) => {
            if next == WizardStep::Preprocess {
                WizardAdvance::Preprocess
            } else if next == WizardStep::Compile && !compiling {
                WizardAdvance::Compile
            } else if next == WizardStep::Assemble {
                WizardAdvance::ShowAssembly
            } else if next == WizardStep::Run && !compiling && has_assembly {
                WizardAdvance::Run
            } else {
                WizardAdvance::MoveTo(next)
            }
        },
    }
}

/// The step the wizard shows after an advance.
pub open spec fn advanced_step(current: WizardStep, a: WizardAdvance) -> WizardStep {
    match a {
        WizardAdvance::Stay => current,
        WizardAdvance::Preprocess => WizardStep::Preprocess,
        WizardAdvance::Compile => WizardStep::Compile,
        WizardAdvance::ShowAssembly => WizardStep::Assemble,
        WizardAdvance::Run => WizardStep::Run,
        WizardAdvance::MoveTo(s) => s,
    }
}

/// The advance button moves exactly one step forward, never skipping one,
/// and stays at the last step.
pub proof fn law_advance_moves_one_step(current: WizardStep, compiling: bool, has_assembly: bool)
    ensures
        current != WizardStep::Run ==> rank(
            advanced_step(current, advance_spec(current, compiling, has_assembly)),
        ) == rank(current) + 1,
        current == WizardStep::Run ==> advanced_step(
            current,
            advance_spec(current, compiling, has_assembly),
        ) == current,
{
}

/// Clicking a step never moves the wizard forward.
pub proof fn law_click_never_moves_forward(current: WizardStep, step: WizardStep)
    ensures
        rank(if rank(step) <= rank(current) { step } else { current }) <= rank(current),
{
}

} // verus!
