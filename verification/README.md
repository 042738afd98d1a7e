# web-sw-cor24-plsw

The logic of a browser-based PL/SW development environment, verified with
Verus: the PL/SW macro preprocessor, the PL/EDIT template expander and
formatter, the wizard and mass-compile state machines, and the decisions of
the pipeline that runs the PL/SW compiler on the COR24 emulator.

## Layout

- `src/text.rs` — text primitives over `Seq<char>` (lines, trim, split,
  replace, substring search, decimal numbers, UTF-8 byte lengths), each with
  its specification.
- `src/preprocessor.rs` — MACRODEF parsing, `?MACRO` invocation parsing and
  expansion, `%INCLUDE` inlining; `preprocess` is specified by
  `preprocess_spec`.
- `src/components/pl_edit.rs` — trigger templates, expansion at the cursor,
  fill-field sessions, spacing normalization and the line-based formatter.
- `src/components/mass_compile.rs` — the job queue: one job active at a time,
  holds on unsaved scratch edits, per-stage transitions.
- `src/components/wizard.rs`, `src/components/macro_editor.rs`,
  `src/drafts.rs`, `src/display.rs` — wizard steps, macro file list edits,
  per-demo drafts, numbered listings and highlighting splits.
- `src/pipeline.rs` — compiler input framing, assembly extraction, and the
  batch-by-batch state machines (`CompilerRun`, `ProgramRun`) that decide what
  the emulator driver does next.
- `tests/` — scenario tests.
- `app/` — the Yew front end and the emulator driver; it calls the library for
  every decision.

Laws of the library are public proof functions whose names start with `law_`.
