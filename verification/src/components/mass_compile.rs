//! Mass Compile: a queue of demo compile jobs run one after another.
//!
//! Jobs go `queued` → `compiling` → `assembling` → `running` → `complete`,
//! or end `failed`; a queued job whose scratch source is dirty when its turn
//! comes waits (`waiting`) until the scratch is saved. This module holds the
//! queue's decisions and the edits of jobs and draft rows; the dialog runs
//! the compiler, the assembler and the program and reports back.
use vstd::prelude::*;

use crate::components::macro_editor::MacroFile;
use crate::demos::{Demo, DemoMacro};
use crate::pipeline::{CompileResult, RunResult, opt_view};
use crate::text::{seq_eq, chars_of, decimal, dec_string, ends_with_char, has_suffix, push_all, string_of, subrange, ends_with};

verus! {

#[derive(Clone, Copy, Debug, PartialEq, Eq, Structural)]
pub enum JobState {
    Queued,
    Waiting,
    Compiling,
    Assembling,
    Running,
    Complete,
    Failed,
}

/// Compiling, assembling or running.
pub open spec fn active(s: JobState) -> bool {
    s == JobState::Compiling || s == JobState::Assembling || s == JobState::Running
}

/// Not active: the scratch source of the job can be edited.
pub open spec fn editable(s: JobState) -> bool {
    s == JobState::Queued || s == JobState::Waiting || s == JobState::Complete || s
        == JobState::Failed
}

/// Finished: the job can be submitted again.
pub open spec fn finished(s: JobState) -> bool {
    s == JobState::Complete || s == JobState::Failed
}

/// Waiting for its turn.
pub open spec fn pending(s: JobState) -> bool {
    s == JobState::Queued || s == JobState::Waiting
}

pub open spec fn label_of(s: JobState) -> Seq<char> {
    match s {
        JobState::Queued => "queued"@,
        JobState::Waiting => "waiting"@,
        JobState::Compiling => "compiling"@,
        JobState::Assembling => "assembling"@,
        JobState::Running => "running"@,
        JobState::Complete => "complete"@,
        JobState::Failed => "failed"@,
    }
}

pub open spec fn class_of(s: JobState) -> Seq<char> {
    match s {
        JobState::Queued => "queued"@,
        JobState::Waiting => "waiting"@,
        JobState::Compiling | JobState::Assembling | JobState::Running => "active"@,
        JobState::Complete => "complete"@,
        JobState::Failed => "failed"@,
    }
}

impl JobState {
    pub fn label(self) -> (r: &'static str)
        ensures
            r@ == label_of(self),
    {
        match self {
            JobState::Queued => "queued",
            JobState::Waiting => "waiting",
            JobState::Compiling => "compiling",
            JobState::Assembling => "assembling",
            JobState::Running => "running",
            JobState::Complete => "complete",
            JobState::Failed => "failed",
        }
    }

    /// The CSS class of the state badge.
    pub fn class(self) -> (r: &'static str)
        ensures
            r@ == class_of(self),
    {
        match self {
            JobState::Queued => "queued",
            JobState::Waiting => "waiting",
            JobState::Compiling | JobState::Assembling | JobState::Running => "active",
            JobState::Complete => "complete",
            JobState::Failed => "failed",
        }
    }

    pub fn is_active(self) -> (r: bool)
        ensures
            r == active(self),
    {
        match self {
            JobState::Compiling | JobState::Assembling | JobState::Running => true,
            _ => false,
        }
    }

    pub fn is_editable(self) -> (r: bool)
        ensures
            r == editable(self),
    {
        match self {
            JobState::Queued | JobState::Waiting | JobState::Complete | JobState::Failed => true,
            _ => false,
        }
    }

    pub fn can_resubmit(self) -> (r: bool)
        ensures
            r == finished(self),
    {
        match self {
            JobState::Complete | JobState::Failed => true,
            _ => false,
        }
    }

    pub fn is_pending(self) -> (r: bool)
        ensures
            r == pending(self),
    {
        match self {
            JobState::Queued | JobState::Waiting => true,
            _ => false,
        }
    }
}

/// Everything a job has produced so far.
#[derive(Clone, Debug, PartialEq)]
pub struct JobLog {
    pub compiler_input: String,
    pub compiler_output: String,
    pub assembly_source: String,
    pub assembler_listing: String,
    pub assembler_error: String,
    pub run_output: String,
    pub run_error: String,
}

pub open spec fn empty_log(l: JobLog) -> bool {
    &&& l.compiler_input@ == Seq::<char>::empty()
    &&& l.compiler_output@ == Seq::<char>::empty()
    &&& l.assembly_source@ == Seq::<char>::empty()
    &&& l.assembler_listing@ == Seq::<char>::empty()
    &&& l.assembler_error@ == Seq::<char>::empty()
    &&& l.run_output@ == Seq::<char>::empty()
    &&& l.run_error@ == Seq::<char>::empty()
}

impl JobLog {
    pub fn new() -> (r: JobLog)
        ensures
            empty_log(r),
    {
        JobLog {
            compiler_input: String::new(),
            compiler_output: String::new(),
            assembly_source: String::new(),
            assembler_listing: String::new(),
            assembler_error: String::new(),
            run_output: String::new(),
            run_error: String::new(),
        }
    }
}

/// One submitted job.
#[derive(Clone, Debug, PartialEq)]
pub struct MassJob {
    pub demo_idx: usize,
    pub state: JobState,
    pub log: JobLog,
    pub summary: String,
    /// Saved scratch source; compiled in place of the demo draft.
    pub source_override: Option<String>,
    /// The scratch editor's text.
    pub scratch_buffer: Option<String>,
    pub scratch_dirty: bool,
    /// The source fixed when the job started compiling.
    pub compile_source: Option<String>,
    pub compile_macros: Option<Vec<(String, String)>>,
    pub worker_started: bool,
}

/// A row of the form before submission.
#[derive(Clone, Debug, PartialEq)]
pub struct DraftRow {
    pub demo_idx: usize,
    pub source_override: Option<String>,
    pub scratch_buffer: Option<String>,
    pub scratch_dirty: bool,
}

/// The scratch holds edits that are not saved: it is dirty, or differs
/// from the saved override.
pub open spec fn unsaved(dirty: bool, buffer: Option<String>, saved: Option<String>) -> bool {
    dirty || opt_view(buffer) != opt_view(saved)
}

pub open spec fn job_unsaved(j: MassJob) -> bool {
    unsaved(j.scratch_dirty, j.scratch_buffer, j.source_override)
}

fn same_text(a: &Option<String>, b: &Option<String>) -> (r: bool)
    ensures
        r == (opt_view(*a) == opt_view(*b)),
{
    match (a, b) {
        (Some(x), Some(y)) => seq_eq(&chars_of(x.as_str()), &chars_of(y.as_str())),
        (None, None) => true,
        _ => false,
    }
}

fn clone_opt(a: &Option<String>) -> (r: Option<String>)
    ensures
        opt_view(r) == opt_view(*a),
{
    match a {
        Some(x) => Some(x.clone()),
        None => None,
    }
}

fn text(s: &str) -> (r: String)
    ensures
        r@ == s@,
{
    string_of(&chars_of(s))
}

pub open spec fn unsaved_note() -> Seq<char> {
    "Unsaved scratch edit"@
}

pub open spec fn waiting_note() -> Seq<char> {
    "Waiting for scratch save"@
}

/// `job` is the queued job made for draft row `row`: the row's demo, saved
/// source, scratch text and dirty flag, a fresh log and no compile input,
/// noted as unsaved when the row's scratch is.
pub open spec fn drafted_job(row: DraftRow, job: MassJob) -> bool {
    &&& job.demo_idx == row.demo_idx
    &&& job.state == JobState::Queued
    &&& empty_log(job.log)
    &&& opt_view(job.source_override) == opt_view(row.source_override)
    &&& opt_view(job.scratch_buffer) == opt_view(row.scratch_buffer)
    &&& job.scratch_dirty == row.scratch_dirty
    &&& job.compile_source is None
    &&& job.compile_macros is None
    &&& !job.worker_started
    &&& job.summary@ == (if unsaved(row.scratch_dirty, row.scratch_buffer, row.source_override) {
        unsaved_note()
    } else {
        Seq::<char>::empty()
    })
}

/// `now` is `was` submitted again: queued with a fresh log and no compile
/// input, everything else kept, noted as unsaved when its scratch is.
pub open spec fn resubmitted(was: MassJob, now: MassJob) -> bool {
    &&& now == MassJob {
        state: JobState::Queued,
        log: now.log,
        summary: now.summary,
        compile_source: None,
        compile_macros: None,
        worker_started: false,
        ..was
    }
    &&& empty_log(now.log)
    &&& now.summary@ == (if job_unsaved(was) {
        unsaved_note()
    } else {
        Seq::<char>::empty()
    })
}

impl MassJob {
    pub fn new(demo_idx: usize) -> (r: MassJob)
        ensures
            r.demo_idx == demo_idx,
            r.state == JobState::Queued,
            empty_log(r.log),
            r.summary@ == Seq::<char>::empty(),
            r.source_override is None,
            r.scratch_buffer is None,
            !r.scratch_dirty,
            r.compile_source is None,
            r.compile_macros is None,
            !r.worker_started,
    {
        MassJob {
            demo_idx,
            state: JobState::Queued,
            log: JobLog::new(),
            summary: String::new(),
            source_override: None,
            scratch_buffer: None,
            scratch_dirty: false,
            compile_source: None,
            compile_macros: None,
            worker_started: false,
        }
    }

    /// A queued job with the given scratch; its summary notes unsaved edits.
    pub fn with_scratch(
        demo_idx: usize,
        source_override: Option<String>,
        scratch_buffer: Option<String>,
        scratch_dirty: bool,
    ) -> (r: MassJob)
        ensures
            r.demo_idx == demo_idx,
            r.state == JobState::Queued,
            empty_log(r.log),
            r.source_override == source_override,
            r.scratch_buffer == scratch_buffer,
            r.scratch_dirty == scratch_dirty,
            r.compile_source is None,
            r.compile_macros is None,
            !r.worker_started,
            r.summary@ == (if unsaved(scratch_dirty, scratch_buffer, source_override) {
                unsaved_note()
            } else {
                Seq::<char>::empty()
            }),
    {
        let mut job = MassJob::new(demo_idx);
        job.source_override = source_override;
        job.scratch_buffer = scratch_buffer;
        job.scratch_dirty = scratch_dirty;
        if job.has_unsaved_scratch() {
            job.summary = text("Unsaved scratch edit");
        }
        job
    }

    /// The job for a draft row.
    pub fn from_draft(row: &DraftRow) -> (r: MassJob)
        ensures
            drafted_job(*row, r),
    {
        Self::with_scratch(
            row.demo_idx,
            clone_opt(&row.source_override),
            clone_opt(&row.scratch_buffer),
            row.scratch_dirty,
        )
    }

    /// Back to `queued` with a fresh log; the scratch stays.
    pub fn reset_for_submit(&mut self)
        ensures
            resubmitted(*old(self), *final(self)),
    {
        self.state = JobState::Queued;
        self.log = JobLog::new();
        self.compile_source = None;
        self.compile_macros = None;
        self.worker_started = false;
        self.summary = if self.has_unsaved_scratch() {
            text("Unsaved scratch edit")
        } else {
            String::new()
        };
    }

    pub fn has_unsaved_scratch(&self) -> (r: bool)
        ensures
            r == job_unsaved(*self),
    {
        self.scratch_dirty || !same_text(&self.scratch_buffer, &self.source_override)
    }
}

impl DraftRow {
    pub fn new() -> (r: DraftRow)
        ensures
            r.demo_idx == 0,
            r.source_override is None,
            r.scratch_buffer is None,
            !r.scratch_dirty,
    {
        DraftRow { demo_idx: 0, source_override: None, scratch_buffer: None, scratch_dirty: false }
    }

    pub fn has_unsaved_scratch(&self) -> (r: bool)
        ensures
            r == unsaved(self.scratch_dirty, self.scratch_buffer, self.source_override),
    {
        self.scratch_dirty || !same_text(&self.scratch_buffer, &self.source_override)
    }
}

// ---------------------------------------------------------------------------
// Compiler input of a job
// ---------------------------------------------------------------------------

/// The (name, source) views of a list of macro sources.
pub open spec fn pair_texts(m: Seq<(String, String)>) -> Seq<(Seq<char>, Seq<char>)> {
    m.map_values(|p: (String, String)| (p.0@, p.1@))
}

/// The (name, source) views of a demo's macro files.
pub open spec fn demo_macro_texts(m: Seq<DemoMacro>) -> Seq<(Seq<char>, Seq<char>)> {
    m.map_values(|d: DemoMacro| (d.name@, d.source@))
}

/// `text` ending in a newline.
pub open spec fn newline_ended(text: Seq<char>) -> Seq<char> {
    if text.len() > 0 && text.last() == '\n' {
        text
    } else {
        text.push('\n')
    }
}

/// A file name without its `.msw` extension.
pub open spec fn without_msw(name: Seq<char>) -> Seq<char> {
    if ends_with(name, ".msw"@) {
        name.take(name.len() - 4)
    } else {
        name
    }
}

/// The logged compiler input of the first files: a `FILE:` block per macro
/// file, each closed by `<RS>`.
pub open spec fn file_blocks(files: Seq<(Seq<char>, Seq<char>)>) -> Seq<char>
    decreases files.len(),
{
    if files.len() == 0 {
        seq![]
    } else {
        file_blocks(files.drop_last()) + "FILE:"@ + without_msw(files.last().0) + "\n"@
            + newline_ended(files.last().1) + "<RS>\n"@
    }
}

/// The compiler input shown in a job log: the macro files as `FILE:`
/// blocks, then the source (after `SOURCE:` when there are macro files),
/// then `<EOT>`.
pub open spec fn input_log_spec(source: Seq<char>, files: Seq<(Seq<char>, Seq<char>)>) -> Seq<char> {
    let body = file_blocks(files) + (if files.len() == 0 { source } else { "SOURCE:\n"@ + source });
    newline_ended(body) + "<EOT>"@
}

pub fn compiler_input_log(source: &str, macro_sources: &[(String, String)]) -> (r: String)
    ensures
        r@ == input_log_spec(source@, pair_texts(macro_sources@)),
{
    let ghost files = pair_texts(macro_sources@);
    let mut input: Vec<char> = Vec::new();
    let mut i: usize = 0;
    assert(input@ =~= file_blocks(files.take(0)));
    while i < macro_sources.len()
        invariant
            i <= macro_sources.len(),
            files == pair_texts(macro_sources@),
            input@ == file_blocks(files.take(i as int)),
        decreases macro_sources.len() - i,
    {
        let name = chars_of(macro_sources[i].0.as_str());
        let ext = chars_of(".msw");
        proof {
            reveal_strlit(".msw");
        }
        let base = if has_suffix(&name, &ext) {
            subrange(&name, 0, name.len() - 4)
        } else {
            name
        };
        push_all(&mut input, &chars_of("FILE:"));
        push_all(&mut input, &base);
        input.push('\n');
        let m = chars_of(macro_sources[i].1.as_str());
        push_all(&mut input, &m);
        if !ends_with_char(&m, '\n') {
            input.push('\n');
        }
        push_all(&mut input, &chars_of("<RS>\n"));
        proof {
            reveal_strlit("\n");
        }
        i = i + 1;
        assert(files.take(i as int).drop_last() =~= files.take(i - 1));
        assert(input@ =~= file_blocks(files.take(i as int)));
    }
    assert(files.take(i as int) =~= files);
    if macro_sources.len() == 0 {
        push_all(&mut input, &chars_of(source));
    } else {
        push_all(&mut input, &chars_of("SOURCE:\n"));
        push_all(&mut input, &chars_of(source));
    }
    if !ends_with_char(&input, '\n') {
        input.push('\n');
    }
    push_all(&mut input, &chars_of("<EOT>"));
    assert(input@ =~= input_log_spec(source@, files));
    string_of(&input)
}

/// The macro sources bundled with a demo.
pub fn default_macro_sources(demo: &Demo) -> (r: Vec<(String, String)>)
    ensures
        pair_texts(r@) == demo_macro_texts(demo.macros@),
{
    let mut r: Vec<(String, String)> = Vec::new();
    let mut i: usize = 0;
    while i < demo.macros.len()
        invariant
            i <= demo.macros@.len(),
            pair_texts(r@) == demo_macro_texts(demo.macros@.take(i as int)),
        decreases demo.macros@.len() - i,
    {
        let m = demo.macros[i];
        r.push((text(m.name), text(m.source)));
        i = i + 1;
        assert(demo_macro_texts(demo.macros@.take(i as int)) =~= demo_macro_texts(
            demo.macros@.take(i - 1),
        ).push((m.name@, m.source@)));
        assert(pair_texts(r@) =~= demo_macro_texts(demo.macros@.take(i as int)));
    }
    assert(demo.macros@.take(i as int) =~= demo.macros@);
    r
}

pub open spec fn file_pair_texts(files: Seq<MacroFile>) -> Seq<(Seq<char>, Seq<char>)> {
    files.map_values(|f: MacroFile| (f.name@, f.source@))
}

/// The source a job compiles and its macro sources: the browser drafts of
/// the demo when there are any, the bundled demo otherwise.
pub open spec fn job_source_spec(
    idx: int,
    edited_sources: Seq<Option<String>>,
    edited_macros: Seq<Option<Vec<MacroFile>>>,
    demos: Seq<Demo>,
) -> (Seq<char>, Seq<(Seq<char>, Seq<char>)>) {
    let source = if idx < edited_sources.len() && edited_sources[idx] is Some {
        edited_sources[idx].unwrap()@
    } else {
        demos[idx].source@
    };
    let macros = if idx < edited_macros.len() && edited_macros[idx] is Some {
        file_pair_texts(edited_macros[idx].unwrap()@)
    } else {
        demo_macro_texts(demos[idx].macros@)
    };
    (source, macros)
}

pub fn job_source(
    job_demo_idx: usize,
    edited_sources: &[Option<String>],
    edited_macros: &[Option<Vec<MacroFile>>],
    demos: &[Demo],
) -> (r: (String, Vec<(String, String)>))
    requires
        job_demo_idx < demos@.len() || (job_demo_idx < edited_sources@.len()
            && edited_sources@[job_demo_idx as int] is Some && job_demo_idx < edited_macros@.len()
            && edited_macros@[job_demo_idx as int] is Some),
    ensures
        (r.0@, pair_texts(r.1@)) == job_source_spec(
            job_demo_idx as int,
            edited_sources@,
            edited_macros@,
            demos@,
        ),
{
    let source = if job_demo_idx < edited_sources.len() && edited_sources[job_demo_idx].is_some() {
        match &edited_sources[job_demo_idx] {
            Some(s) => s.clone(),
            None => String::new(),
        }
    } else {
        text(demos[job_demo_idx].source)
    };
    let macros = if job_demo_idx < edited_macros.len() && edited_macros[job_demo_idx].is_some() {
        match &edited_macros[job_demo_idx] {
            Some(files) => {
                let r = crate::components::macro_editor::editor_macro_sources(files.as_slice());
                assert(pair_texts(r@) =~= file_pair_texts(files@));
                r
            },
            None => Vec::new(),
        }
    } else {
        default_macro_sources(&demos[job_demo_idx])
    };
    (source, macros)
}

// ---------------------------------------------------------------------------
// The queue
// ---------------------------------------------------------------------------

/// No two jobs are active at once.
pub open spec fn at_most_one_active(jobs: Seq<MassJob>) -> bool {
    forall|i: int, j: int|
        0 <= i < jobs.len() && 0 <= j < jobs.len() && active(#[trigger] jobs[i].state) && active(
            #[trigger] jobs[j].state,
        ) ==> i == j
}

pub open spec fn none_active(jobs: Seq<MassJob>) -> bool {
    forall|i: int| 0 <= i < jobs.len() ==> !active(#[trigger] jobs[i].state)
}

/// Every job is complete or failed.
pub open spec fn all_finished(jobs: Seq<MassJob>) -> bool {
    forall|i: int| 0 <= i < jobs.len() ==> finished(#[trigger] jobs[i].state)
}

/// The first active job at or after `i`.
pub open spec fn first_active_from(jobs: Seq<MassJob>, i: int) -> Option<int>
    decreases jobs.len() - i,
{
    if i < 0 || i >= jobs.len() {
        None
    } else if active(jobs[i].state) {
        Some(i)
    } else {
        first_active_from(jobs, i + 1)
    }
}

/// The first queued or waiting job at or after `i`.
pub open spec fn first_pending_from(jobs: Seq<MassJob>, i: int) -> Option<int>
    decreases jobs.len() - i,
{
    if i < 0 || i >= jobs.len() {
        None
    } else if pending(jobs[i].state) {
        Some(i)
    } else {
        first_pending_from(jobs, i + 1)
    }
}

/// What the running queue does next.
#[derive(Clone, Copy, Debug, PartialEq, Eq, Structural)]
pub enum QueueAction {
    /// A job is active: advance it past `stage` after the stage delay.
    Advance { idx: usize, stage: JobState },
    /// The first pending job has unsaved scratch edits: it waits, and so does
    /// the queue.
    Hold { idx: usize },
    /// The first pending job starts compiling.
    Start { idx: usize },
    /// Nothing is active or pending: the batch is over.
    Stop,
}

pub open spec fn queue_action_spec(jobs: Seq<MassJob>) -> QueueAction {
    match first_active_from(jobs, 0) {
        Some(i) => QueueAction::Advance { idx: i as usize, stage: jobs[i].state },
        None => match first_pending_from(jobs, 0) {
            Some(i) => if job_unsaved(jobs[i]) {
                QueueAction::Hold { idx: i as usize }
            } else {
                QueueAction::Start { idx: i as usize }
            },
            None => QueueAction::Stop,
        },
    }
}

pub proof fn lemma_first_active(jobs: Seq<MassJob>, i: int)
    requires
        0 <= i <= jobs.len(),
    ensures
        first_active_from(jobs, i) matches Some(k) ==> i <= k < jobs.len() && active(jobs[k].state)
            && forall|m: int| i <= m < k ==> !active(#[trigger] jobs[m].state),
        first_active_from(jobs, i) is None ==> forall|m: int|
            i <= m < jobs.len() ==> !active(#[trigger] jobs[m].state),
    decreases jobs.len() - i,
{
    if i < jobs.len() && !active(jobs[i].state) {
        lemma_first_active(jobs, i + 1);
    }
}

pub proof fn lemma_first_pending(jobs: Seq<MassJob>, i: int)
    requires
        0 <= i <= jobs.len(),
    ensures
        first_pending_from(jobs, i) matches Some(k) ==> i <= k < jobs.len() && pending(
            jobs[k].state,
        ) && forall|m: int| i <= m < k ==> !pending(#[trigger] jobs[m].state),
        first_pending_from(jobs, i) is None ==> forall|m: int|
            i <= m < jobs.len() ==> !pending(#[trigger] jobs[m].state),
    decreases jobs.len() - i,
{
    if i < jobs.len() && !pending(jobs[i].state) {
        lemma_first_pending(jobs, i + 1);
    }
}

/// What the running queue does next: advance the active job if there is
/// one; otherwise start (or hold, if its scratch is unsaved) the first
/// queued or waiting job; otherwise stop.
pub fn next_queue_action(jobs: &Vec<MassJob>) -> (r: QueueAction)
    ensures
        r == queue_action_spec(jobs@),
{
    let mut i: usize = 0;
    while i < jobs.len()
        invariant
            i <= jobs.len(),
            first_active_from(jobs@, i as int) == first_active_from(jobs@, 0),
        decreases jobs.len() - i,
    {
        if jobs[i].state.is_active() {
            return QueueAction::Advance { idx: i, stage: jobs[i].state };
        }
        i = i + 1;
    }
    let mut k: usize = 0;
    while k < jobs.len()
        invariant
            k <= jobs.len(),
            first_active_from(jobs@, 0) is None,
            first_pending_from(jobs@, k as int) == first_pending_from(jobs@, 0),
        decreases jobs.len() - k,
    {
        if jobs[k].state.is_pending() {
            if jobs[k].has_unsaved_scratch() {
                return QueueAction::Hold { idx: k };
            }
            return QueueAction::Start { idx: k };
        }
        k = k + 1;
    }
    QueueAction::Stop
}

pub fn all_jobs_finished(jobs: &Vec<MassJob>) -> (r: bool)
    ensures
        r == all_finished(jobs@),
{
    let mut i: usize = 0;
    while i < jobs.len()
        invariant
            i <= jobs.len(),
            forall|m: int| 0 <= m < i ==> finished(#[trigger] jobs@[m].state),
        decreases jobs.len() - i,
    {
        if !jobs[i].state.can_resubmit() {
            return false;
        }
        i = i + 1;
    }
    true
}

/// `Submit All` is offered once there are jobs and all of them are finished.
pub fn can_submit_all_jobs(jobs: &Vec<MassJob>) -> (r: bool)
    ensures
        r == (jobs@.len() > 0 && all_finished(jobs@)),
{
    jobs.len() > 0 && all_jobs_finished(jobs)
}

/// Only the job at `idx` changed, and it did not become active.
pub open spec fn changes_only(old_jobs: Seq<MassJob>, new_jobs: Seq<MassJob>, idx: int) -> bool {
    &&& new_jobs.len() == old_jobs.len()
    &&& forall|i: int| 0 <= i < old_jobs.len() && i != idx ==> new_jobs[i] == old_jobs[i]
}

proof fn lemma_one_active_kept(old_jobs: Seq<MassJob>, new_jobs: Seq<MassJob>, idx: int)
    requires
        changes_only(old_jobs, new_jobs, idx),
        0 <= idx < old_jobs.len(),
        active(new_jobs[idx].state) ==> active(old_jobs[idx].state),
        at_most_one_active(old_jobs),
    ensures
        at_most_one_active(new_jobs),
{
    assert forall|i: int, j: int|
        0 <= i < new_jobs.len() && 0 <= j < new_jobs.len() && active(#[trigger] new_jobs[i].state)
            && active(#[trigger] new_jobs[j].state) implies i == j by {
        assert(active(old_jobs[i].state));
        assert(active(old_jobs[j].state));
    }
}

/// One change of the job list that keeps the queue's discipline: nothing
/// changes; or no job is active afterwards; or a job that is not active is
/// appended; or one job changes, and it becomes active only if it was
/// already or no job was.
pub open spec fn queue_step(a: Seq<MassJob>, b: Seq<MassJob>) -> bool {
    ||| b == a
    ||| none_active(b)
    ||| (b.len() == a.len() + 1 && b.take(a.len() as int) == a && !active(b.last().state))
    ||| exists|k: int|
        0 <= k < a.len() && #[trigger] changes_only(a, b, k) && (active(b[k].state) ==> active(
            a[k].state,
        ) || none_active(a))
}

proof fn lemma_step_one(a: Seq<MassJob>, b: Seq<MassJob>, k: int)
    requires
        0 <= k < a.len(),
        changes_only(a, b, k),
        active(b[k].state) ==> active(a[k].state) || none_active(a),
    ensures
        queue_step(a, b),
{
}

proof fn lemma_step_keeps_one_active(a: Seq<MassJob>, b: Seq<MassJob>)
    requires
        queue_step(a, b),
        at_most_one_active(a),
    ensures
        at_most_one_active(b),
{
    if b == a {
    } else if none_active(b) {
    } else if b.len() == a.len() + 1 && b.take(a.len() as int) == a && !active(b.last().state) {
        assert forall|i: int, j: int|
            0 <= i < b.len() && 0 <= j < b.len() && active(#[trigger] b[i].state) && active(
                #[trigger] b[j].state,
            ) implies i == j by {
            assert(i < a.len() && j < a.len());
            assert(b[i] == b.take(a.len() as int)[i] && b[j] == b.take(a.len() as int)[j]);
            assert(active(a[i].state) && active(a[j].state));
        }
    } else {
        let k = choose|k: int|
            0 <= k < a.len() && #[trigger] changes_only(a, b, k) && (active(b[k].state) ==> active(
                a[k].state,
            ) || none_active(a));
        assert forall|i: int, j: int|
            0 <= i < b.len() && 0 <= j < b.len() && active(#[trigger] b[i].state) && active(
                #[trigger] b[j].state,
            ) implies i == j by {
            if i != k {
                assert(b[i] == a[i]);
            }
            if j != k {
                assert(b[j] == a[j]);
            }
        }
    }
}

proof fn lemma_run_keeps_one_active(runs: Seq<Seq<MassJob>>, n: int)
    requires
        1 <= n <= runs.len(),
        at_most_one_active(runs[0]),
        forall|i: int| 1 <= i < runs.len() ==> queue_step(runs[i - 1], #[trigger] runs[i]),
    ensures
        forall|i: int| 0 <= i < n ==> at_most_one_active(#[trigger] runs[i]),
    decreases n,
{
    if n > 1 {
        lemma_run_keeps_one_active(runs, n - 1);
        assert(queue_step(runs[n - 2], runs[n - 1]));
        lemma_step_keeps_one_active(runs[n - 2], runs[n - 1]);
    }
}

/// Law: over any run of the queue, at every point at most one job is
/// active. A run starts from a list with no active job (none at all, or the
/// jobs of the submitted draft rows) and goes on by changes that each job
/// operation makes (`queue_step`); in such a run a job becomes active only
/// at a point where no job was.
pub proof fn law_one_active_over_any_run(runs: Seq<Seq<MassJob>>)
    requires
        runs.len() > 0,
        none_active(runs[0]),
        forall|i: int| 1 <= i < runs.len() ==> queue_step(runs[i - 1], #[trigger] runs[i]),
    ensures
        forall|i: int| 0 <= i < runs.len() ==> at_most_one_active(#[trigger] runs[i]),
{
    lemma_run_keeps_one_active(runs, runs.len() as int);
}

/// Puts the job back at `idx`.
fn put_job(jobs: &mut Vec<MassJob>, idx: usize, job: MassJob)
    requires
        idx <= old(jobs)@.len(),
    ensures
        final(jobs)@ == old(jobs)@.insert(idx as int, job),
{
    jobs.insert(idx, job);
}

/// The first pending job waits for its scratch to be saved.
pub fn hold_job(jobs: &mut Vec<MassJob>, idx: usize)
    requires
        idx < old(jobs)@.len(),
    ensures
        changes_only(old(jobs)@, final(jobs)@, idx as int),
        final(jobs)@[idx as int].state == JobState::Waiting,
        old(jobs)@[idx as int].state != JobState::Waiting ==> final(jobs)@[idx as int].summary@
            == waiting_note() && final(jobs)@[idx as int] == (MassJob {
            state: JobState::Waiting,
            summary: final(jobs)@[idx as int].summary,
            ..old(jobs)@[idx as int]
        }),
        old(jobs)@[idx as int].state == JobState::Waiting ==> final(jobs)@ == old(jobs)@,
        at_most_one_active(old(jobs)@) ==> at_most_one_active(final(jobs)@),
        queue_step(old(jobs)@, final(jobs)@),
{
    if jobs[idx].state != JobState::Waiting {
        let ghost before = jobs@;
        let mut job = jobs.remove(idx);
        job.state = JobState::Waiting;
        job.summary = text("Waiting for scratch save");
        put_job(jobs, idx, job);
        assert(jobs@ =~= before.update(idx as int, job));
        proof {
            if at_most_one_active(before) {
                lemma_one_active_kept(before, jobs@, idx as int);
            }
            lemma_step_one(before, jobs@, idx as int);
        }
    }
}

pub open spec fn starting_note() -> Seq<char> {
    "Starting compiler"@
}

/// The first pending job starts compiling: its source (the saved scratch,
/// or else the draft source given) and macro sources are fixed and logged.
pub fn start_job(jobs: &mut Vec<MassJob>, idx: usize, draft_source: String, macros: Vec<(String, String)>)
    requires
        idx < old(jobs)@.len(),
        none_active(old(jobs)@),
    ensures
        changes_only(old(jobs)@, final(jobs)@, idx as int),
        ({
            let job = final(jobs)@[idx as int];
            let source = match old(jobs)@[idx as int].source_override {
                Some(o) => o@,
                None => draft_source@,
            };
            &&& job.state == JobState::Compiling
            &&& opt_view(job.compile_source) == Some(source)
            &&& job.compile_macros matches Some(m) && pair_texts(m@) == pair_texts(macros@)
            &&& job.log.compiler_input@ == input_log_spec(source, pair_texts(macros@))
            &&& !job.worker_started
            &&& job.summary@ == starting_note()
            &&& job.demo_idx == old(jobs)@[idx as int].demo_idx
            &&& job.source_override == old(jobs)@[idx as int].source_override
            &&& job.scratch_buffer == old(jobs)@[idx as int].scratch_buffer
            &&& job.scratch_dirty == old(jobs)@[idx as int].scratch_dirty
            &&& job == (MassJob {
                state: JobState::Compiling,
                log: JobLog { compiler_input: job.log.compiler_input, ..old(jobs)@[idx as int].log },
                compile_source: job.compile_source,
                compile_macros: job.compile_macros,
                worker_started: false,
                summary: job.summary,
                ..old(jobs)@[idx as int]
            })
        }),
        at_most_one_active(final(jobs)@),
        queue_step(old(jobs)@, final(jobs)@),
{
    let ghost before = jobs@;
    let mut job = jobs.remove(idx);
    let source = match &job.source_override {
        Some(o) => o.clone(),
        None => draft_source,
    };
    job.state = JobState::Compiling;
    job.log.compiler_input = compiler_input_log(source.as_str(), macros.as_slice());
    job.compile_source = Some(source);
    job.compile_macros = Some(macros);
    job.worker_started = false;
    job.summary = text("Starting compiler");
    put_job(jobs, idx, job);
    assert(jobs@ =~= before.update(idx as int, job));
    assert forall|i: int, j: int|
        0 <= i < jobs@.len() && 0 <= j < jobs@.len() && active(#[trigger] jobs@[i].state) && active(
            #[trigger] jobs@[j].state,
        ) implies i == j by {
        if i != idx {
            assert(active(before[i].state));
        }
        if j != idx {
            assert(active(before[j].state));
        }
    }    proof {
        lemma_step_one(before, jobs@, idx as int);
    }
}

// ---------------------------------------------------------------------------
// Advancing the active job
// ---------------------------------------------------------------------------

/// What the dialog does for the active job.
pub enum AdvanceStep {
    /// Nothing: the job is gone, moved on, or its compile already runs.
    Skip,
    /// The job failed for want of captured input.
    Failed,
    /// Run the compiler on this input, then report with
    /// [`apply_compile_result`].
    Compile { source: String, macros: Vec<(String, String)> },
    /// Assemble this source, then report with [`apply_assembly`].
    Assemble { source: String },
    /// Run this source, then report with [`apply_run`].
    Run { source: String },
}

pub open spec fn no_input_error() -> Seq<char> {
    "Compiler input was not captured"@
}

pub open spec fn no_macro_input_error() -> Seq<char> {
    "Compiler macro input was not captured"@
}

/// Advances job `idx` past `stage`, if it is still at that stage: a
/// compiling job gets its compile started once (or fails if its input was
/// not captured); an assembling or running job hands its generated assembly
/// out.
pub fn begin_advance(jobs: &mut Vec<MassJob>, idx: usize, stage: JobState) -> (r: AdvanceStep)
    ensures
        (idx >= old(jobs)@.len() || old(jobs)@[idx as int].state != stage) ==> (r is Skip && final(jobs)@ == old(jobs)@),
        idx < old(jobs)@.len() && old(jobs)@[idx as int].state == stage ==> {
            let job = old(jobs)@[idx as int];
            let now = final(jobs)@[idx as int];
            &&& changes_only(old(jobs)@, final(jobs)@, idx as int)
            &&& match stage {
                JobState::Compiling => if job.worker_started {
                    r is Skip && final(jobs)@ == old(jobs)@
                } else if job.compile_source is None {
                    r is Failed && now.log.assembler_error@ == no_input_error() && now == (MassJob {
                        state: JobState::Failed,
                        log: JobLog { assembler_error: now.log.assembler_error, ..job.log },
                        ..job
                    })
                } else if job.compile_macros is None {
                    r is Failed && now.log.assembler_error@ == no_macro_input_error() && now == (MassJob {
                        state: JobState::Failed,
                        log: JobLog { assembler_error: now.log.assembler_error, ..job.log },
                        ..job
                    })
                } else {
                    &&& r matches AdvanceStep::Compile { source, macros }
                    &&& Some(source@) == opt_view(job.compile_source)
                    &&& pair_texts(macros@) == pair_texts(job.compile_macros.unwrap()@)
                    &&& now == (MassJob { worker_started: true, ..job })
                },
                JobState::Assembling => (r matches AdvanceStep::Assemble { source } && source@
                    == job.log.assembly_source@) && final(jobs)@ == old(jobs)@,
                JobState::Running => (r matches AdvanceStep::Run { source } && source@
                    == job.log.assembly_source@) && final(jobs)@ == old(jobs)@,
                _ => r is Skip && final(jobs)@ == old(jobs)@,
            }
        },
        at_most_one_active(old(jobs)@) ==> at_most_one_active(final(jobs)@),
        queue_step(old(jobs)@, final(jobs)@),
{
    if idx >= jobs.len() || jobs[idx].state != stage {
        return AdvanceStep::Skip;
    }
    match stage {
        JobState::Compiling => {
            if jobs[idx].worker_started {
                return AdvanceStep::Skip;
            }
            let ghost before = jobs@;
            let mut job = jobs.remove(idx);
            let r = match (&job.compile_source, &job.compile_macros) {
                (None, _) => {
                    job.state = JobState::Failed;
                    job.log.assembler_error = text("Compiler input was not captured");
                    AdvanceStep::Failed
                },
                (Some(_), None) => {
                    job.state = JobState::Failed;
                    job.log.assembler_error = text("Compiler macro input was not captured");
                    AdvanceStep::Failed
                },
                (Some(src), Some(m)) => {
                    let source = src.clone();
                    let macros = clone_pairs(m);
                    job.worker_started = true;
                    AdvanceStep::Compile { source, macros }
                },
            };
            put_job(jobs, idx, job);
            assert(jobs@ =~= before.update(idx as int, job));
            proof {
                if at_most_one_active(before) {
                    lemma_one_active_kept(before, jobs@, idx as int);
                }
                lemma_step_one(before, jobs@, idx as int);
            }
            r
        },
        JobState::Assembling => AdvanceStep::Assemble { source: jobs[idx].log.assembly_source.clone() },
        JobState::Running => AdvanceStep::Run { source: jobs[idx].log.assembly_source.clone() },
        _ => AdvanceStep::Skip,
    }
}

fn clone_pairs(m: &Vec<(String, String)>) -> (r: Vec<(String, String)>)
    ensures
        pair_texts(r@) == pair_texts(m@),
{
    let mut r: Vec<(String, String)> = Vec::new();
    let mut i: usize = 0;
    while i < m.len()
        invariant
            i <= m.len(),
            pair_texts(r@) == pair_texts(m@).take(i as int),
        decreases m.len() - i,
    {
        let ghost before = pair_texts(r@);
        let a = m[i].0.clone();
        let b = m[i].1.clone();
        r.push((a, b));
        assert(pair_texts(r@) =~= before.push((m@[i as int].0@, m@[i as int].1@)));
        i = i + 1;
        assert(pair_texts(m@).take(i as int) =~= pair_texts(m@).take(i - 1).push((m@[i - 1].0@, m@[i - 1].1@)));
        assert(pair_texts(r@) =~= pair_texts(m@).take(i as int));
    }
    assert(pair_texts(m@).take(i as int) =~= pair_texts(m@));
    r
}

pub open spec fn count_note(prefix: Seq<char>, n: nat, suffix: Seq<char>) -> Seq<char> {
    prefix + dec_string(n) + suffix
}

fn count_text(prefix: &str, n: u64, suffix: &str) -> (r: String)
    ensures
        r@ == count_note(prefix@, n as nat, suffix@),
{
    let mut v = chars_of(prefix);
    push_all(&mut v, &decimal(n));
    push_all(&mut v, &chars_of(suffix));
    string_of(&v)
}

pub open spec fn no_assembly_error() -> Seq<char> {
    "Compiler produced no assembly"@
}

/// Records a finished compile of job `idx`, if it is still compiling: the
/// job fails on a compiler error or when no assembly came out, and moves on
/// to assembling otherwise.
pub fn apply_compile_result(jobs: &mut Vec<MassJob>, idx: usize, result: CompileResult)
    ensures
        (idx >= old(jobs)@.len() || old(jobs)@[idx as int].state != JobState::Compiling) ==> final(jobs)@ == old(jobs)@,
        idx < old(jobs)@.len() && old(jobs)@[idx as int].state == JobState::Compiling ==> {
            let now = final(jobs)@[idx as int];
            &&& changes_only(old(jobs)@, final(jobs)@, idx as int)
            &&& now.summary@ == count_note("compile: "@, result.instructions as nat, " instructions"@)
            &&& now == (MassJob {
                state: now.state,
                summary: now.summary,
                log: JobLog {
                    compiler_output: result.compiler_output,
                    assembly_source: now.log.assembly_source,
                    assembler_error: now.log.assembler_error,
                    ..old(jobs)@[idx as int].log
                },
                ..old(jobs)@[idx as int]
            })
            &&& match (result.error, result.assembly) {
                (Some(e), _) => now.state == JobState::Failed && now.log.assembler_error == e
                    && now.log.assembly_source == old(jobs)@[idx as int].log.assembly_source,
                (None, Some(a)) => now.state == JobState::Assembling && now.log.assembly_source == a
                    && now.log.assembler_error == old(jobs)@[idx as int].log.assembler_error,
                (None, None) => now.state == JobState::Failed && now.log.assembler_error@
                    == no_assembly_error() && now.log.assembly_source == old(
                    jobs,
                )@[idx as int].log.assembly_source,
            }
        },
        at_most_one_active(old(jobs)@) ==> at_most_one_active(final(jobs)@),
        queue_step(old(jobs)@, final(jobs)@),
{
    if idx >= jobs.len() || jobs[idx].state != JobState::Compiling {
        return;
    }
    let ghost before = jobs@;
    let mut job = jobs.remove(idx);
    job.summary = count_text("compile: ", result.instructions, " instructions");
    job.log.compiler_output = result.compiler_output;
    match result.error {
        Some(error) => {
            job.log.assembler_error = error;
            job.state = JobState::Failed;
        },
        None => match result.assembly {
            Some(code) => {
                job.log.assembly_source = code;
                job.state = JobState::Assembling;
            },
            None => {
                job.log.assembler_error = text("Compiler produced no assembly");
                job.state = JobState::Failed;
            },
        },
    }
    put_job(jobs, idx, job);
    assert(jobs@ =~= before.update(idx as int, job));
    proof {
        if at_most_one_active(before) {
            lemma_one_active_kept(before, jobs@, idx as int);
        }
        lemma_step_one(before, jobs@, idx as int);
    }
}

/// Records the assembly of job `idx`, if it is still assembling: the
/// listing and byte count move it on to running; an error fails it.
pub fn apply_assembly(jobs: &mut Vec<MassJob>, idx: usize, outcome: Result<(String, u64), String>)
    ensures
        (idx >= old(jobs)@.len() || old(jobs)@[idx as int].state != JobState::Assembling) ==> final(jobs)@ == old(jobs)@,
        idx < old(jobs)@.len() && old(jobs)@[idx as int].state == JobState::Assembling ==> {
            let now = final(jobs)@[idx as int];
            &&& changes_only(old(jobs)@, final(jobs)@, idx as int)
            &&& now == (MassJob {
                state: now.state,
                summary: now.summary,
                log: JobLog {
                    assembler_listing: now.log.assembler_listing,
                    assembler_error: now.log.assembler_error,
                    ..old(jobs)@[idx as int].log
                },
                ..old(jobs)@[idx as int]
            })
            &&& match outcome {
                Ok(report) => now.state == JobState::Running && now.log.assembler_listing
                    == report.0 && now.summary@ == count_note(
                    "assembled "@,
                    report.1 as nat,
                    " bytes"@,
                ) && now.log.assembler_error == old(jobs)@[idx as int].log.assembler_error,
                Err(e) => now.state == JobState::Failed && now.log.assembler_error == e
                    && now.summary == old(jobs)@[idx as int].summary && now.log.assembler_listing
                    == old(jobs)@[idx as int].log.assembler_listing,
            }
        },
        at_most_one_active(old(jobs)@) ==> at_most_one_active(final(jobs)@),
        queue_step(old(jobs)@, final(jobs)@),
{
    if idx >= jobs.len() || jobs[idx].state != JobState::Assembling {
        return;
    }
    let ghost before = jobs@;
    let mut job = jobs.remove(idx);
    match outcome {
        Ok(report) => {
            job.log.assembler_listing = report.0;
            job.summary = count_text("assembled ", report.1, " bytes");
            job.state = JobState::Running;
        },
        Err(error) => {
            job.log.assembler_error = error;
            job.state = JobState::Failed;
        },
    }
    put_job(jobs, idx, job);
    assert(jobs@ =~= before.update(idx as int, job));
    proof {
        if at_most_one_active(before) {
            lemma_one_active_kept(before, jobs@, idx as int);
        }
        lemma_step_one(before, jobs@, idx as int);
    }
}

/// Records the run of job `idx`, if it is still running: complete without
/// an error, failed with one.
pub fn apply_run(jobs: &mut Vec<MassJob>, idx: usize, result: RunResult)
    ensures
        (idx >= old(jobs)@.len() || old(jobs)@[idx as int].state != JobState::Running) ==> final(jobs)@ == old(jobs)@,
        idx < old(jobs)@.len() && old(jobs)@[idx as int].state == JobState::Running ==> {
            let now = final(jobs)@[idx as int];
            &&& changes_only(old(jobs)@, final(jobs)@, idx as int)
            &&& now.summary@ == count_note("run: "@, result.instructions as nat, " instructions"@)
            &&& now == (MassJob {
                state: now.state,
                summary: now.summary,
                log: JobLog {
                    run_output: result.output,
                    run_error: now.log.run_error,
                    ..old(jobs)@[idx as int].log
                },
                ..old(jobs)@[idx as int]
            })
            &&& match result.error {
                Some(e) => now.state == JobState::Failed && now.log.run_error == e,
                None => now.state == JobState::Complete && now.log.run_error == old(
                    jobs,
                )@[idx as int].log.run_error,
            }
        },
        at_most_one_active(old(jobs)@) ==> at_most_one_active(final(jobs)@),
        queue_step(old(jobs)@, final(jobs)@),
{
    if idx >= jobs.len() || jobs[idx].state != JobState::Running {
        return;
    }
    let ghost before = jobs@;
    let mut job = jobs.remove(idx);
    job.log.run_output = result.output;
    job.summary = count_text("run: ", result.instructions, " instructions");
    match result.error {
        Some(error) => {
            job.log.run_error = error;
            job.state = JobState::Failed;
        },
        None => {
            job.state = JobState::Complete;
        },
    }
    put_job(jobs, idx, job);
    assert(jobs@ =~= before.update(idx as int, job));
    proof {
        if at_most_one_active(before) {
            lemma_one_active_kept(before, jobs@, idx as int);
        }
        lemma_step_one(before, jobs@, idx as int);
    }
}

// ---------------------------------------------------------------------------
// Editing submitted jobs
// ---------------------------------------------------------------------------

pub open spec fn saved_note() -> Seq<char> {
    "Saved scratch edit; submit line to rerun"@
}

pub open spec fn changed_demo_note() -> Seq<char> {
    "Changed demo; submit line to run"@
}

/// Text typed into the scratch editor of job `idx`. Only a job that is not
/// active takes it: the text becomes its unsaved scratch, and its state and
/// saved source stay as they are.
pub fn edit_job_scratch(jobs: &mut Vec<MassJob>, idx: usize, new_text: String)
    ensures
        (idx >= old(jobs)@.len() || !editable(old(jobs)@[idx as int].state)) ==> final(jobs)@ == old(jobs)@,
        idx < old(jobs)@.len() && editable(old(jobs)@[idx as int].state) ==> {
            let was = old(jobs)@[idx as int];
            let now = final(jobs)@[idx as int];
            &&& changes_only(old(jobs)@, final(jobs)@, idx as int)
            &&& now == (MassJob {
                scratch_buffer: Some(new_text),
                scratch_dirty: true,
                summary: now.summary,
                log: JobLog { compiler_input: now.log.compiler_input, ..was.log },
                ..was
            })
            &&& now.summary@ == (if was.state == JobState::Waiting {
                waiting_note()
            } else {
                unsaved_note()
            })
            &&& now.log.compiler_input@ == Seq::<char>::empty()
        },
        at_most_one_active(old(jobs)@) ==> at_most_one_active(final(jobs)@),
        queue_step(old(jobs)@, final(jobs)@),
{
    if idx >= jobs.len() || !jobs[idx].state.is_editable() {
        return;
    }
    let ghost before = jobs@;
    let mut job = jobs.remove(idx);
    job.scratch_buffer = Some(new_text);
    job.scratch_dirty = true;
    job.summary = if job.state == JobState::Waiting {
        text("Waiting for scratch save")
    } else {
        text("Unsaved scratch edit")
    };
    job.log.compiler_input = String::new();
    put_job(jobs, idx, job);
    assert(jobs@ =~= before.update(idx as int, job));
    proof {
        if at_most_one_active(before) {
            lemma_one_active_kept(before, jobs@, idx as int);
        }
        lemma_step_one(before, jobs@, idx as int);
    }
}

/// Saves the scratch of job `idx` (not while it is active): the scratch
/// text becomes the job's source. A waiting job goes back to `queued`.
pub fn save_job_scratch(jobs: &mut Vec<MassJob>, idx: usize)
    ensures
        (idx >= old(jobs)@.len() || !editable(old(jobs)@[idx as int].state) || old(jobs)@[idx as int].scratch_buffer is None) ==> final(jobs)@ == old(jobs)@,
        idx < old(jobs)@.len() && editable(old(jobs)@[idx as int].state) && old(jobs)@[idx as int].scratch_buffer is Some ==> {
            let was = old(jobs)@[idx as int];
            let now = final(jobs)@[idx as int];
            &&& changes_only(old(jobs)@, final(jobs)@, idx as int)
            &&& opt_view(now.source_override) == opt_view(was.scratch_buffer)
            &&& now == (MassJob {
                source_override: now.source_override,
                scratch_dirty: false,
                state: now.state,
                summary: now.summary,
                ..was
            })
            &&& now.state == (if was.state == JobState::Waiting {
                JobState::Queued
            } else {
                was.state
            })
            &&& (pending(was.state) ==> now.summary@ == Seq::<char>::empty())
            &&& (finished(was.state) ==> now.summary@ == saved_note())
        },
        at_most_one_active(old(jobs)@) ==> at_most_one_active(final(jobs)@),
        queue_step(old(jobs)@, final(jobs)@),
{
    if idx >= jobs.len() || !jobs[idx].state.is_editable() || jobs[idx].scratch_buffer.is_none() {
        return;
    }
    let ghost before = jobs@;
    let mut job = jobs.remove(idx);
    job.source_override = clone_opt(&job.scratch_buffer);
    job.scratch_dirty = false;
    if job.state == JobState::Waiting {
        job.state = JobState::Queued;
        job.summary = String::new();
    } else if job.state == JobState::Queued {
        job.summary = String::new();
    } else if job.state.can_resubmit() {
        job.summary = text("Saved scratch edit; submit line to rerun");
    }
    put_job(jobs, idx, job);
    assert(jobs@ =~= before.update(idx as int, job));
    proof {
        if at_most_one_active(before) {
            lemma_one_active_kept(before, jobs@, idx as int);
        }
        lemma_step_one(before, jobs@, idx as int);
    }
}

/// Submits finished job `idx` again: only that job goes back to `queued`.
/// Returns whether it did.
pub fn resubmit_job(jobs: &mut Vec<MassJob>, idx: usize) -> (r: bool)
    ensures
        r == (idx < old(jobs)@.len() && finished(old(jobs)@[idx as int].state)),
        !r ==> final(jobs)@ == old(jobs)@,
        r ==> changes_only(old(jobs)@, final(jobs)@, idx as int) && resubmitted(
            old(jobs)@[idx as int],
            final(jobs)@[idx as int],
        ),
        at_most_one_active(old(jobs)@) ==> at_most_one_active(final(jobs)@),
        queue_step(old(jobs)@, final(jobs)@),
{
    if idx >= jobs.len() || !jobs[idx].state.can_resubmit() {
        return false;
    }
    let ghost before = jobs@;
    let mut job = jobs.remove(idx);
    job.reset_for_submit();
    put_job(jobs, idx, job);
    assert(jobs@ =~= before.update(idx as int, job));
    proof {
        if at_most_one_active(before) {
            lemma_one_active_kept(before, jobs@, idx as int);
        }
        lemma_step_one(before, jobs@, idx as int);
    }
    true
}

/// Turns finished job `idx` into a fresh job for another demo.
pub fn change_job_demo(jobs: &mut Vec<MassJob>, idx: usize, demo_idx: usize)
    ensures
        (idx >= old(jobs)@.len() || !finished(old(jobs)@[idx as int].state)) ==> final(jobs)@ == old(jobs)@,
        idx < old(jobs)@.len() && finished(old(jobs)@[idx as int].state) ==> {
            let was = old(jobs)@[idx as int];
            let now = final(jobs)@[idx as int];
            &&& changes_only(old(jobs)@, final(jobs)@, idx as int)
            &&& now.demo_idx == demo_idx
            &&& now.state == was.state
            &&& now.source_override is None
            &&& now.scratch_buffer is None
            &&& !now.scratch_dirty
            &&& now.compile_source is None
            &&& now.compile_macros is None
            &&& !now.worker_started
            &&& empty_log(now.log)
            &&& now.summary@ == changed_demo_note()
        },
        at_most_one_active(old(jobs)@) ==> at_most_one_active(final(jobs)@),
        queue_step(old(jobs)@, final(jobs)@),
{
    if idx >= jobs.len() || !jobs[idx].state.can_resubmit() {
        return;
    }
    let ghost before = jobs@;
    let mut job = jobs.remove(idx);
    job.demo_idx = demo_idx;
    job.source_override = None;
    job.scratch_buffer = None;
    job.scratch_dirty = false;
    job.compile_source = None;
    job.compile_macros = None;
    job.worker_started = false;
    job.log = JobLog::new();
    job.summary = text("Changed demo; submit line to run");
    put_job(jobs, idx, job);
    assert(jobs@ =~= before.update(idx as int, job));
    proof {
        if at_most_one_active(before) {
            lemma_one_active_kept(before, jobs@, idx as int);
        }
        lemma_step_one(before, jobs@, idx as int);
    }
}

/// `Submit All`: every job goes back to `queued`.
pub fn submit_all_jobs(jobs: &mut Vec<MassJob>)
    ensures
        final(jobs)@.len() == old(jobs)@.len(),
        forall|i: int|
            0 <= i < final(jobs)@.len() ==> resubmitted(old(jobs)@[i], #[trigger] final(jobs)@[i]),
        none_active(final(jobs)@),
        queue_step(old(jobs)@, final(jobs)@),
{
    let ghost start = jobs@;
    let mut i: usize = 0;
    while i < jobs.len()
        invariant
            i <= jobs.len(),
            jobs@.len() == start.len(),
            forall|k: int| 0 <= k < i ==> resubmitted(start[k], #[trigger] jobs@[k]),
            forall|k: int| i <= k < jobs@.len() ==> #[trigger] jobs@[k] == start[k],
        decreases jobs.len() - i,
    {
        let ghost before = jobs@;
        let mut job = jobs.remove(i);
        job.reset_for_submit();
        put_job(jobs, i, job);
        assert(jobs@ =~= before.update(i as int, job));
        i = i + 1;
    }
}

/// The text shown in a job's scratch editor: the scratch, else the saved
/// source, else the source it compiled, else the demo draft.
pub fn job_scratch_text(job: &MassJob, default_source: &String) -> (r: String)
    ensures
        r@ == match job.scratch_buffer {
            Some(b) => b@,
            None => match job.source_override {
                Some(o) => o@,
                None => match job.compile_source {
                    Some(c) => c@,
                    None => default_source@,
                },
            },
        },
{
    match &job.scratch_buffer {
        Some(b) => b.clone(),
        None => match &job.source_override {
            Some(o) => o.clone(),
            None => match &job.compile_source {
                Some(c) => c.clone(),
                None => default_source.clone(),
            },
        },
    }
}

// ---------------------------------------------------------------------------
// Draft rows
// ---------------------------------------------------------------------------

/// Adds an empty row and returns the index to select (the new row).
pub fn add_draft_row(rows: &mut Vec<DraftRow>) -> (selected: usize)
    ensures
        final(rows)@.len() == old(rows)@.len() + 1,
        forall|i: int| 0 <= i < old(rows)@.len() ==> final(rows)@[i] == old(rows)@[i],
        final(rows)@.last().demo_idx == 0 && final(rows)@.last().source_override is None
            && final(rows)@.last().scratch_buffer is None && !final(rows)@.last().scratch_dirty,
        selected == old(rows)@.len(),
{
    rows.push(DraftRow::new());
    rows.len() - 1
}

/// Removes row `idx` unless it is the only row; returns the row to select
/// then (the one before, or the first).
pub fn remove_draft_row(rows: &mut Vec<DraftRow>, idx: usize) -> (selected: Option<usize>)
    ensures
        (old(rows)@.len() > 1 && idx < old(rows)@.len()) ==> final(rows)@ == old(rows)@.remove(
            idx as int,
        ) && selected == Some((if idx > 0 { idx - 1 } else { 0 }) as usize),
        !(old(rows)@.len() > 1 && idx < old(rows)@.len()) ==> final(rows)@ == old(rows)@
            && selected is None,
{
    if rows.len() > 1 && idx < rows.len() {
        rows.remove(idx);
        let prev: usize = if idx > 0 { idx - 1 } else { 0 };
        let last: usize = rows.len() - 1;
        Some(if prev < last { prev } else { last })
    } else {
        None
    }
}

/// Picks another demo for row `idx`, dropping its scratch.
pub fn change_draft_demo(rows: &mut Vec<DraftRow>, idx: usize, demo_idx: usize)
    ensures
        idx >= old(rows)@.len() ==> final(rows)@ == old(rows)@,
        idx < old(rows)@.len() ==> final(rows)@ == old(rows)@.update(
            idx as int,
            DraftRow { demo_idx, source_override: None, scratch_buffer: None, scratch_dirty: false },
        ),
{
    if idx < rows.len() {
        rows.remove(idx);
        rows.insert(
            idx,
            DraftRow { demo_idx, source_override: None, scratch_buffer: None, scratch_dirty: false },
        );
    }
}

/// Text typed into the scratch of row `idx`: unsaved until saved.
pub fn edit_draft_scratch(rows: &mut Vec<DraftRow>, idx: usize, new_text: String)
    ensures
        idx >= old(rows)@.len() ==> final(rows)@ == old(rows)@,
        idx < old(rows)@.len() ==> final(rows)@ == old(rows)@.update(
            idx as int,
            DraftRow {
                scratch_buffer: Some(new_text),
                scratch_dirty: true,
                ..old(rows)@[idx as int]
            },
        ),
{
    if idx < rows.len() {
        let mut row = rows.remove(idx);
        row.scratch_buffer = Some(new_text);
        row.scratch_dirty = true;
        rows.insert(idx, row);
    }
}

/// Saves the scratch of row `idx`: it becomes the row's source.
pub fn save_draft_scratch(rows: &mut Vec<DraftRow>, idx: usize)
    ensures
        (idx >= old(rows)@.len() || old(rows)@[idx as int].scratch_buffer is None) ==> final(rows)@
            == old(rows)@,
        idx < old(rows)@.len() && old(rows)@[idx as int].scratch_buffer is Some ==> {
            let was = old(rows)@[idx as int];
            let now = final(rows)@[idx as int];
            &&& final(rows)@.len() == old(rows)@.len()
            &&& forall|i: int| 0 <= i < old(rows)@.len() && i != idx ==> final(rows)@[i] == old(rows)@[i]
            &&& opt_view(now.source_override) == opt_view(was.scratch_buffer)
            &&& now.scratch_buffer == was.scratch_buffer
            &&& !now.scratch_dirty
            &&& now.demo_idx == was.demo_idx
            &&& !unsaved(now.scratch_dirty, now.scratch_buffer, now.source_override)
        },
{
    if idx < rows.len() && rows[idx].scratch_buffer.is_some() {
        let ghost before = rows@;
        let mut row = rows.remove(idx);
        row.source_override = clone_opt(&row.scratch_buffer);
        row.scratch_dirty = false;
        rows.insert(idx, row);
        assert(rows@ =~= before.update(idx as int, row));
    }
}

/// `Submit All` on the form: one queued job per row.
pub fn submit_drafts(rows: &Vec<DraftRow>) -> (jobs: Vec<MassJob>)
    ensures
        jobs@.len() == rows@.len(),
        forall|i: int| 0 <= i < jobs@.len() ==> drafted_job(rows@[i], #[trigger] jobs@[i]),
        none_active(jobs@),
{
    let mut jobs: Vec<MassJob> = Vec::new();
    let mut i: usize = 0;
    while i < rows.len()
        invariant
            i <= rows.len(),
            jobs@.len() == i,
            forall|k: int| 0 <= k < i ==> drafted_job(rows@[k], #[trigger] jobs@[k]),
        decreases rows.len() - i,
    {
        jobs.push(MassJob::from_draft(&rows[i]));
        i = i + 1;
    }
    jobs
}

/// A row's `Submit`: appends its job to the queue; returns the job's index.
pub fn submit_draft_line(jobs: &mut Vec<MassJob>, row: &DraftRow) -> (idx: usize)
    ensures
        final(jobs)@.len() == old(jobs)@.len() + 1,
        forall|i: int| 0 <= i < old(jobs)@.len() ==> final(jobs)@[i] == old(jobs)@[i],
        idx == old(jobs)@.len(),
        drafted_job(*row, final(jobs)@[idx as int]),
        at_most_one_active(old(jobs)@) ==> at_most_one_active(final(jobs)@),
        queue_step(old(jobs)@, final(jobs)@),
{
    let ghost before = jobs@;
    jobs.push(MassJob::from_draft(row));
    assert forall|i: int, j: int|
        at_most_one_active(before) && 0 <= i < jobs@.len() && 0 <= j < jobs@.len() && active(
            #[trigger] jobs@[i].state,
        ) && active(#[trigger] jobs@[j].state) implies i == j by {
        assert(i < before.len() && j < before.len());
        assert(active(before[i].state) && active(before[j].state));
    }
    assert(jobs@.take(before.len() as int) =~= before);
    jobs.len() - 1
}

/// The text shown in a row's scratch editor: the scratch, else the saved
/// source, else the demo draft.
pub fn draft_scratch_text(row: &DraftRow, default_source: &String) -> (r: String)
    ensures
        r@ == match row.scratch_buffer {
            Some(b) => b@,
            None => match row.source_override {
                Some(o) => o@,
                None => default_source@,
            },
        },
{
    match &row.scratch_buffer {
        Some(b) => b.clone(),
        None => match &row.source_override {
            Some(o) => o.clone(),
            None => default_source.clone(),
        },
    }
}

// ---------------------------------------------------------------------------
// Laws of the queue
// ---------------------------------------------------------------------------

/// Jobs run one at a time: the queue starts a job only when none is active,
/// so starting keeps at most one job active, and the job it starts is the
/// lowest-index one that is queued or waiting.
pub proof fn law_start_only_when_idle(jobs: Seq<MassJob>)
    requires
        jobs.len() <= usize::MAX,
    ensures
        queue_action_spec(jobs) is Start ==> none_active(jobs),
        queue_action_spec(jobs) matches QueueAction::Start { idx } ==> idx < jobs.len() && pending(
            jobs[idx as int].state,
        ) && forall|m: int| 0 <= m < idx ==> !pending(#[trigger] jobs[m].state),
        queue_action_spec(jobs) is Hold ==> none_active(jobs),
        queue_action_spec(jobs) matches QueueAction::Advance { idx, stage } ==> idx < jobs.len()
            && active(stage) && jobs[idx as int].state == stage,
{
    lemma_first_active(jobs, 0);
    lemma_first_pending(jobs, 0);
}

/// A failed job does not stop the batch: while nothing is active, a queued
/// or waiting job means the queue holds or starts one, never stops.
pub proof fn law_pending_job_keeps_queue_going(jobs: Seq<MassJob>, k: int)
    requires
        jobs.len() <= usize::MAX,
        0 <= k < jobs.len(),
        pending(jobs[k].state),
        none_active(jobs),
    ensures
        !(queue_action_spec(jobs) is Stop),
        queue_action_spec(jobs) matches QueueAction::Start { idx } ==> idx <= k,
        queue_action_spec(jobs) matches QueueAction::Hold { idx } ==> idx <= k,
{
    lemma_first_active(jobs, 0);
    lemma_first_pending(jobs, 0);
}

/// The queue holds at a job with unsaved scratch: once the job is marked
/// waiting, the queue's next action is to hold at the same job again, and
/// no later job starts.
pub proof fn law_hold_is_stable(jobs: Seq<MassJob>, held: Seq<MassJob>, idx: usize)
    requires
        jobs.len() <= usize::MAX,
        queue_action_spec(jobs) == (QueueAction::Hold { idx }),
        changes_only(jobs, held, idx as int),
        held[idx as int].state == JobState::Waiting,
        held[idx as int].scratch_dirty == jobs[idx as int].scratch_dirty,
        held[idx as int].scratch_buffer == jobs[idx as int].scratch_buffer,
        held[idx as int].source_override == jobs[idx as int].source_override,
    ensures
        queue_action_spec(held) == (QueueAction::Hold { idx }),
{
    lemma_first_active(jobs, 0);
    lemma_first_pending(jobs, 0);
    lemma_first_active(held, 0);
    lemma_first_pending(held, 0);
    let k = first_pending_from(jobs, 0).unwrap();
    assert(k == idx);
    if first_active_from(held, 0) is Some {
        let a = first_active_from(held, 0).unwrap();
        assert(a != idx);
        assert(held[a] == jobs[a]);
    }
    if first_pending_from(held, 0) is Some {
        let p = first_pending_from(held, 0).unwrap();
        if p < idx {
            assert(held[p] == jobs[p]);
        }
    }
}

/// Saving the scratch of the job the queue holds at releases the queue: the
/// job is queued again and starts next.
pub proof fn law_save_releases_hold(jobs: Seq<MassJob>, saved: Seq<MassJob>, idx: usize)
    requires
        jobs.len() <= usize::MAX,
        queue_action_spec(jobs) == (QueueAction::Hold { idx }),
        changes_only(jobs, saved, idx as int),
        pending(saved[idx as int].state),
        !job_unsaved(saved[idx as int]),
    ensures
        queue_action_spec(saved) == (QueueAction::Start { idx }),
{
    lemma_first_active(jobs, 0);
    lemma_first_pending(jobs, 0);
    lemma_first_active(saved, 0);
    lemma_first_pending(saved, 0);
    if first_active_from(saved, 0) is Some {
        let a = first_active_from(saved, 0).unwrap();
        assert(saved[a] == jobs[a]);
    }
    if first_pending_from(saved, 0) is Some {
        let p = first_pending_from(saved, 0).unwrap();
        if p < idx {
            assert(saved[p] == jobs[p]);
        }
    }
}

/// Editing another job while one runs does not pause the queue: a change
/// to a job other than the active one that leaves its state as it was keeps
/// the queue advancing the same active job at the same stage.
pub proof fn law_edit_keeps_active_job_running(jobs: Seq<MassJob>, edited: Seq<MassJob>, k: int)
    requires
        jobs.len() <= usize::MAX,
        queue_action_spec(jobs) is Advance,
        changes_only(jobs, edited, k),
        0 <= k < jobs.len(),
        edited[k].state == jobs[k].state,
    ensures
        queue_action_spec(edited) == queue_action_spec(jobs),
{
    lemma_first_active(jobs, 0);
    lemma_first_active(edited, 0);
    let a = first_active_from(jobs, 0).unwrap();
    assert(edited[a].state == jobs[a].state);
    if first_active_from(edited, 0) is Some {
        let b = first_active_from(edited, 0).unwrap();
        assert(edited[b].state == jobs[b].state);
    }
}

} // verus!
