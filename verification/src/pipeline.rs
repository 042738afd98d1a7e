//! PL/SW compiler pipeline running on the COR24 emulator.
//!
//! The PL/SW compiler is a C program cross-compiled to COR24 assembly. It
//! runs on the emulator: the driver sends `c` to enter compile mode, feeds
//! PL/SW source via UART and extracts the generated COR24 assembly, which is
//! then assembled and run on a fresh emulator.
//!
//! This module holds the decisions of both runs. The driver executes the
//! emulator batch by batch and hands each batch's outcome to
//! [`CompilerRun::step`] or [`ProgramRun::step`], which say whether to run
//! another batch (and whether to feed input first) or give the final result.
use vstd::prelude::*;

use crate::text::{chars_of, concat, contains_sub, copy, find_sub, find_sub_from, find_substring, has_substring, join, join_seq, lemma_find_sub_from, lines, lines_seq, occurs_at, push_all, string_of, strs, subrange, trim, trim_seq, vecs, vecs_of};

verus! {

/// Maximum instructions during boot (reaching the menu prompt).
pub const BOOT_LIMIT: u64 = 50_000_000;

/// Instructions per batch when feeding input.
pub const FEED_BATCH: u64 = 100_000;

/// Maximum total instructions for a compilation run.
pub const COMPILE_LIMIT: u64 = 200_000_000;

/// Maximum instructions for running the compiled program.
pub const RUN_LIMIT: u64 = 10_000_000;

/// UART status register; bit 0 set means the receiver is still busy.
pub const UART_STATUS_ADDR: u32 = 0xFF0101;

/// Result of running the compiler pipeline.
#[derive(Clone, Debug, PartialEq)]
pub struct CompileResult {
    /// Full compiler output (boot + compile messages).
    pub compiler_output: String,
    /// Generated COR24 assembly (.s) extracted from compiler output.
    pub assembly: Option<String>,
    /// Total instructions executed during compilation.
    pub instructions: u64,
    /// Whether the compiler halted cleanly.
    pub halted: bool,
    /// Error message if something went wrong.
    pub error: Option<String>,
}

/// Result of assembling and running the compiled program.
#[derive(Clone, Debug, PartialEq)]
pub struct RunResult {
    /// UART output from the running program.
    pub output: String,
    /// Total instructions executed.
    pub instructions: u64,
    /// Whether the program halted cleanly.
    pub halted: bool,
    /// Assembly errors if assembly failed.
    pub error: Option<String>,
}

pub open spec fn opt_view(o: Option<String>) -> Option<Seq<char>> {
    match o {
        Some(s) => Some(s@),
        None => None,
    }
}

pub struct CompileModel {
    pub compiler_output: Seq<char>,
    pub assembly: Option<Seq<char>>,
    pub instructions: u64,
    pub halted: bool,
    pub error: Option<Seq<char>>,
}

pub struct RunModel {
    pub output: Seq<char>,
    pub instructions: u64,
    pub halted: bool,
    pub error: Option<Seq<char>>,
}

impl View for CompileResult {
    type V = CompileModel;

    open spec fn view(&self) -> CompileModel {
        CompileModel {
            compiler_output: self.compiler_output@,
            assembly: opt_view(self.assembly),
            instructions: self.instructions,
            halted: self.halted,
            error: opt_view(self.error),
        }
    }
}

impl View for RunResult {
    type V = RunModel;

    open spec fn view(&self) -> RunModel {
        RunModel {
            output: self.output@,
            instructions: self.instructions,
            halted: self.halted,
            error: opt_view(self.error),
        }
    }
}

pub open spec fn compile_model(
    out: Seq<char>,
    assembly: Option<Seq<char>>,
    instructions: u64,
    halted: bool,
    error: Option<Seq<char>>,
) -> CompileModel {
    CompileModel { compiler_output: out, assembly, instructions, halted, error }
}

pub open spec fn run_model(out: Seq<char>, instructions: u64, halted: bool, error: Option<Seq<char>>) -> RunModel {
    RunModel { output: out, instructions, halted, error }
}

fn clone_string(s: &String) -> (r: String)
    ensures
        r@ == s@,
{
    s.clone()
}

// ---------------------------------------------------------------------------
// Extracting the generated assembly
// ---------------------------------------------------------------------------

/// The text between `--- generated assembly ---` and the first
/// `--- end assembly ---` after it, trimmed; `None` when a marker is missing
/// or the text is empty.
pub open spec fn assembly_of(output: Seq<char>) -> Option<Seq<char>> {
    match find_sub(output, "--- generated assembly ---"@) {
        None => None,
        Some(start) => {
            let after = start + "--- generated assembly ---"@.len();
            match find_sub(output.skip(after), "--- end assembly ---"@) {
                None => None,
                Some(end) => {
                    let code = trim_seq(output.subrange(after, after + end));
                    if code.len() == 0 {
                        None
                    } else {
                        Some(code)
                    }
                },
            }
        },
    }
}

/// Extract assembly source between `--- generated assembly ---` and
/// `--- end assembly ---` markers in compiler output.
pub fn extract_assembly(output: &str) -> (r: Option<String>)
    ensures
        opt_view(r) == assembly_of(output@),
{
    let out = chars_of(output);
    let start_marker = chars_of("--- generated assembly ---");
    let end_marker = chars_of("--- end assembly ---");
    let start = match find_substring(&out, &start_marker) {
        Some(s) => s,
        None => return None,
    };
    proof {
        lemma_find_sub_from(out@, start_marker@, 0);
        assert(find_sub_from(out@, start_marker@, 0) == start);
        assert(occurs_at(out@, start_marker@, start as int));
        assert(start + start_marker@.len() <= out@.len());
    }
    let out_len = out.len();
    assert(start + start_marker.len() <= out_len);
    let after_start = start + start_marker.len();
    let rest = subrange(&out, after_start, out.len());
    let end = match find_substring(&rest, &end_marker) {
        Some(e) => e,
        None => return None,
    };
    proof {
        lemma_find_sub_from(rest@, end_marker@, 0);
        assert(find_sub_from(rest@, end_marker@, 0) == end);
        assert(occurs_at(rest@, end_marker@, end as int));
    }
    let body = subrange(&out, after_start, after_start + end);
    let code = trim(&body);
    if code.len() == 0 {
        None
    } else {
        Some(string_of(&code))
    }
}

// ---------------------------------------------------------------------------
// Compiler input
// ---------------------------------------------------------------------------

/// `text` followed by a `'\n'` unless it already ends with one.
pub open spec fn with_newline(text: Seq<char>) -> Seq<char> {
    if text.len() > 0 && text.last() == '\n' {
        text
    } else {
        text.push('\n')
    }
}

/// The UART input of a compile run for the first `k` macro files.
pub open spec fn macro_input(files: Seq<(Seq<char>, Seq<char>)>) -> Seq<char>
    decreases files.len(),
{
    if files.len() == 0 {
        seq![]
    } else {
        macro_input(files.drop_last()) + "/* --- "@ + files.last().0 + " --- */\n"@ + with_newline(
            files.last().1,
        )
    }
}

/// The whole UART input of a compile run: `c`, each macro file behind a
/// banner comment, the source, and the EOT byte.
pub open spec fn compiler_input_spec(source: Seq<char>, files: Seq<(Seq<char>, Seq<char>)>) -> Seq<char> {
    "c\n"@ + macro_input(files) + with_newline(source) + seq!['\u{4}']
}

pub open spec fn file_pairs(m: Seq<(String, String)>) -> Seq<(Seq<char>, Seq<char>)> {
    m.map_values(|p: (String, String)| (p.0@, p.1@))
}

fn push_with_newline(buf: &mut Vec<char>, text: &Vec<char>)
    ensures
        final(buf)@ == old(buf)@ + with_newline(text@),
{
    push_all(buf, text);
    if !(text.len() > 0 && text[text.len() - 1] == '\n') {
        buf.push('\n');
    }
}

/// The bytes the compiler reads: `c\n`, each macro file behind a
/// `/* --- name --- */` banner, the main source, then EOT (0x04). Every part
/// ends with a newline.
pub fn compiler_input(source: &str, macro_sources: &[(String, String)]) -> (r: String)
    ensures
        r@ == compiler_input_spec(source@, file_pairs(macro_sources@)),
{
    let ghost files = file_pairs(macro_sources@);
    let mut buf = chars_of("c\n");
    let banner_open = chars_of("/* --- ");
    let banner_close = chars_of(" --- */\n");
    let mut i: usize = 0;
    let ghost head = buf@;
    while i < macro_sources.len()
        invariant
            i <= macro_sources.len(),
            files == file_pairs(macro_sources@),
            head == "c\n"@,
            banner_open@ == "/* --- "@,
            banner_close@ == " --- */\n"@,
            buf@ == head + macro_input(files.take(i as int)),
        decreases macro_sources.len() - i,
    {
        let name = chars_of(macro_sources[i].0.as_str());
        let text = chars_of(macro_sources[i].1.as_str());
        push_all(&mut buf, &banner_open);
        push_all(&mut buf, &name);
        push_all(&mut buf, &banner_close);
        push_with_newline(&mut buf, &text);
        i = i + 1;
        assert(files.take(i as int).drop_last() =~= files.take(i - 1));
        assert(buf@ =~= head + macro_input(files.take(i as int)));
    }
    assert(files.take(i as int) =~= files);
    let src = chars_of(source);
    push_with_newline(&mut buf, &src);
    buf.push('\u{4}');
    assert(buf@ =~= compiler_input_spec(source@, files));
    string_of(&buf)
}

// ---------------------------------------------------------------------------
// Outcome of a finished compile run
// ---------------------------------------------------------------------------

/// The first line that contains `ERROR:`, or `Unknown error`.
pub open spec fn first_error_line(lines: Seq<Seq<char>>) -> Seq<char>
    decreases lines.len(),
{
    if lines.len() == 0 {
        "Unknown error"@
    } else if contains_sub(lines[0], "ERROR:"@) {
        lines[0]
    } else {
        first_error_line(lines.drop_first())
    }
}

/// The error reported for a run that halted: none when assembly came out;
/// otherwise `Compilation failed` when the compiler said so, or the first
/// `ERROR:` line.
pub open spec fn compile_error_of(output: Seq<char>) -> Option<Seq<char>> {
    if assembly_of(output) is None && contains_sub(output, "compilation failed"@) {
        Some("Compilation failed"@)
    } else if assembly_of(output) is None && contains_sub(output, "ERROR:"@) {
        Some(first_error_line(lines_seq(output)))
    } else {
        None
    }
}

fn error_line(output: &Vec<char>) -> (r: Vec<char>)
    ensures
        r@ == first_error_line(lines_seq(output@)),
{
    let ls = lines(output);
    let marker = chars_of("ERROR:");
    let mut i: usize = 0;
    assert(vecs(ls@).skip(0) =~= vecs(ls@));
    while i < ls.len()
        invariant
            i <= ls.len(),
            vecs(ls@) =~= lines_seq(output@),
            marker@ == "ERROR:"@,
            first_error_line(vecs(ls@).skip(i as int)) == first_error_line(lines_seq(output@)),
        decreases ls.len() - i,
    {
        assert(vecs(ls@).skip(i as int)[0] == ls@[i as int]@);
        assert(vecs(ls@).skip(i as int).drop_first() =~= vecs(ls@).skip(i + 1));
        if has_substring(&ls[i], &marker) {
            return crate::text::copy(&ls[i]);
        }
        i = i + 1;
    }
    assert(vecs(ls@).skip(i as int) =~= Seq::<Seq<char>>::empty());
    chars_of("Unknown error")
}

/// The result of a compile run whose compiler halted: the extracted
/// assembly and the error, if any.
pub fn finish_compile(output: String, instructions: u64) -> (r: CompileResult)
    ensures
        r@ == compile_model(output@, assembly_of(output@), instructions, true, compile_error_of(output@)),
{
    let assembly = extract_assembly(output.as_str());
    let out = chars_of(output.as_str());
    let error = if assembly.is_none() && has_substring(&out, &chars_of("compilation failed")) {
        Some(string_of(&chars_of("Compilation failed")))
    } else if assembly.is_none() && has_substring(&out, &chars_of("ERROR:")) {
        Some(string_of(&error_line(&out)))
    } else {
        None
    };
    CompileResult { compiler_output: output, assembly, instructions, halted: true, error }
}

/// Law: a compile run that halted reports an error exactly when no assembly
/// came out and the compiler printed `compilation failed` or `ERROR:`; it
/// never reports both assembly and an error.
pub proof fn law_assembly_excludes_error(output: Seq<char>)
    ensures
        assembly_of(output) is Some ==> compile_error_of(output) is None,
        compile_error_of(output) is Some <==> (assembly_of(output) is None && (contains_sub(
            output,
            "compilation failed"@,
        ) || contains_sub(output, "ERROR:"@))),
{
}

/// The result when the compiler's own assembly source does not assemble.
pub fn compiler_assembly_failed(errors: &Vec<String>) -> (r: CompileResult)
    ensures
        r@ == compile_model(
            seq![],
            None,
            0,
            false,
            Some("Compiler assembly failed:\n"@ + join_seq(strs(errors@), "\n"@)),
        ),
{
    let e = vecs_of(errors);
    let joined = join(&e, &chars_of("\n"));
    let msg = concat(&chars_of("Compiler assembly failed:\n"), &joined);
    CompileResult {
        compiler_output: String::new(),
        assembly: None,
        instructions: 0,
        halted: false,
        error: Some(string_of(&msg)),
    }
}

/// The result when a compiled program does not assemble.
pub fn program_assembly_failed(errors: &Vec<String>) -> (r: RunResult)
    ensures
        r@ == run_model(seq![], 0, false, Some("Assembly failed:\n"@ + join_seq(strs(errors@), "\n"@))),
{
    let e = vecs_of(errors);
    let joined = join(&e, &chars_of("\n"));
    let msg = concat(&chars_of("Assembly failed:\n"), &joined);
    RunResult { output: String::new(), instructions: 0, halted: false, error: Some(string_of(&msg)) }
}

// ---------------------------------------------------------------------------
// Driving the compiler batch by batch
// ---------------------------------------------------------------------------

/// Whether the next queued input byte goes to the UART now: there is one,
/// and bit 0 of the UART status byte (receive buffer full) is clear.
pub fn feed_next_byte(status: u8, queued: usize) -> (r: bool)
    ensures
        r == (queued > 0 && status & 1u8 == 0u8),
{
    queued > 0 && status & 1u8 == 0u8
}

/// Where a compile run is.
#[derive(Clone, Copy, Debug, PartialEq, Eq)]
pub enum CompilePhase {
    /// Booting until the menu prompt appears.
    Boot,
    /// Feeding the source and waiting for the compiler to halt.
    Compile,
}

/// What the driver does next.
pub enum CompilerAction {
    /// Run one more batch of `FEED_BATCH` instructions, feeding pending
    /// input bytes first when `feed_input` is set.
    RunBatch { feed_input: bool },
    /// The run is over.
    Finish(CompileResult),
}

/// The state of a compile run between batches.
pub struct CompilerRun {
    pub phase: CompilePhase,
    /// Total instructions executed so far.
    pub instructions: u64,
    /// UART output collected so far.
    pub output: String,
}

pub open spec fn boot_prompt() -> Seq<char> {
    "Enter suite #"@
}

impl CompilerRun {
    /// A run that has just started booting.
    pub fn new() -> (r: CompilerRun)
        ensures
            r.phase == CompilePhase::Boot,
            r.instructions == 0,
            r.output@ == Seq::<char>::empty(),
    {
        CompilerRun { phase: CompilePhase::Boot, instructions: 0, output: String::new() }
    }

    /// Takes the outcome of one batch (instructions run, whether the CPU
    /// halted, the UART bytes it sent) and decides what comes next.
    pub fn step(&mut self, batch_instructions: u64, halted: bool, uart: &str) -> (action: CompilerAction)
        requires
            old(self).instructions + batch_instructions <= u64::MAX,
        ensures
            final(self).instructions == old(self).instructions + batch_instructions,
            final(self).output@ == old(self).output@ + uart@,
            ({
                let total = final(self).instructions;
                let out = final(self).output@;
                match old(self).phase {
                    CompilePhase::Boot => {
                        if halted {
                            action matches CompilerAction::Finish(r) && r@ == compile_model(
                                out,
                                None,
                                total,
                                true,
                                Some("Compiler halted during boot"@),
                            )
                        } else if contains_sub(out, boot_prompt()) {
                            action matches CompilerAction::RunBatch { feed_input } && feed_input
                                && final(self).phase == CompilePhase::Compile
                        } else if total >= BOOT_LIMIT {
                            action matches CompilerAction::Finish(r) && r@ == compile_model(
                                out,
                                None,
                                total,
                                false,
                                Some("Compiler boot exceeded instruction limit"@),
                            )
                        } else {
                            action matches CompilerAction::RunBatch { feed_input } && !feed_input
                                && final(self).phase == CompilePhase::Boot
                        }
                    },
                    CompilePhase::Compile => {
                        if halted {
                            action matches CompilerAction::Finish(r) && r@ == compile_model(
                                out,
                                assembly_of(out),
                                total,
                                true,
                                compile_error_of(out),
                            )
                        } else if total >= COMPILE_LIMIT {
                            action matches CompilerAction::Finish(r) && r@ == compile_model(
                                out,
                                None,
                                total,
                                false,
                                Some("Compilation exceeded instruction limit"@),
                            )
                        } else {
                            action matches CompilerAction::RunBatch { feed_input } && feed_input
                                && final(self).phase == CompilePhase::Compile
                        }
                    },
                }
            }),
    {
        self.instructions = self.instructions + batch_instructions;
        self.output.append(uart);
        let total = self.instructions;
        match self.phase {
            CompilePhase::Boot => {
                if halted {
                    return CompilerAction::Finish(
                        CompileResult {
                            compiler_output: clone_string(&self.output),
                            assembly: None,
                            instructions: total,
                            halted: true,
                            error: Some(string_of(&chars_of("Compiler halted during boot"))),
                        },
                    );
                }
                let out = chars_of(self.output.as_str());
                if has_substring(&out, &chars_of("Enter suite #")) {
                    self.phase = CompilePhase::Compile;
                    return CompilerAction::RunBatch { feed_input: true };
                }
                if total >= BOOT_LIMIT {
                    return CompilerAction::Finish(
                        CompileResult {
                            compiler_output: clone_string(&self.output),
                            assembly: None,
                            instructions: total,
                            halted: false,
                            error: Some(string_of(&chars_of("Compiler boot exceeded instruction limit"))),
                        },
                    );
                }
                CompilerAction::RunBatch { feed_input: false }
            },
            CompilePhase::Compile => {
                if halted {
                    return CompilerAction::Finish(finish_compile(clone_string(&self.output), total));
                }
                if total >= COMPILE_LIMIT {
                    return CompilerAction::Finish(
                        CompileResult {
                            compiler_output: clone_string(&self.output),
                            assembly: None,
                            instructions: total,
                            halted: false,
                            error: Some(string_of(&chars_of("Compilation exceeded instruction limit"))),
                        },
                    );
                }
                CompilerAction::RunBatch { feed_input: true }
            },
        }
    }
}

/// What the driver of a program run does next.
pub enum ProgramAction {
    /// Run one more batch of `FEED_BATCH` instructions.
    RunBatch,
    /// The run is over.
    Finish(RunResult),
}

/// The state of a program run between batches.
pub struct ProgramRun {
    /// Total instructions executed so far.
    pub instructions: u64,
    /// UART output collected so far.
    pub output: String,
}

impl ProgramRun {
    pub fn new() -> (r: ProgramRun)
        ensures
            r.instructions == 0,
            r.output@ == Seq::<char>::empty(),
    {
        ProgramRun { instructions: 0, output: String::new() }
    }

    /// Takes the outcome of one batch and decides what comes next: a halt
    /// ends the run cleanly, reaching `RUN_LIMIT` ends it with an error.
    pub fn step(&mut self, batch_instructions: u64, halted: bool, uart: &str) -> (action: ProgramAction)
        requires
            old(self).instructions + batch_instructions <= u64::MAX,
        ensures
            final(self).instructions == old(self).instructions + batch_instructions,
            final(self).output@ == old(self).output@ + uart@,
            halted ==> (action matches ProgramAction::Finish(r) && r@ == run_model(
                final(self).output@,
                final(self).instructions,
                true,
                None,
            )),
            !halted && final(self).instructions >= RUN_LIMIT ==> (action matches ProgramAction::Finish(r)
                && r@ == run_model(
                final(self).output@,
                final(self).instructions,
                false,
                Some("Program exceeded instruction limit"@),
            )),
            !halted && final(self).instructions < RUN_LIMIT ==> action is RunBatch,
    {
        self.instructions = self.instructions + batch_instructions;
        self.output.append(uart);
        if halted {
            return ProgramAction::Finish(
                RunResult {
                    output: clone_string(&self.output),
                    instructions: self.instructions,
                    halted: true,
                    error: None,
                },
            );
        }
        if self.instructions >= RUN_LIMIT {
            return ProgramAction::Finish(
                RunResult {
                    output: clone_string(&self.output),
                    instructions: self.instructions,
                    halted: false,
                    error: Some(string_of(&chars_of("Program exceeded instruction limit"))),
                },
            );
        }
        ProgramAction::RunBatch
    }
}

} // verus!
