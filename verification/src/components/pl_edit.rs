//! PL/EDIT: template expansion, fill-field sessions and source formatting.
//!
//! Offsets into source text (cursor positions, fill fields) are UTF-8 byte
//! offsets, as a `str` index counts them.
use vstd::prelude::*;

use crate::text::{all_digits, lemma_back_ws, lemma_skip_ws, trim_start_seq, back_ws, byte_len, char_index_of_byte, lemma_byte_len_concat, chars_of, concat, contains_char, contains_sub, copy, ends_with, find, find_char, find_ws_from, has_char, has_prefix, has_substring, has_suffix, is_alnum, is_ascii_alphanumeric, is_ascii_digit, is_digit, is_ident, is_ident_char, is_whitespace, is_ws, join, join_seq, lemma_byte_len_prefix, lemma_byte_len_push, lemma_find, lemma_lines_count, lemma_width, lines, lines_seq, lower_seq, parse_u32, parse_u32_seq, prefix_bytes, push_all, seq_eq, skip_ws, split_char, split_char_seq, starts_with, string_of, subrange, to_lower, to_upper, trim, trim_seq, upper, upper_seq, utf8_width, vecs};

verus! {

#[derive(Clone, Copy, Debug, PartialEq, Eq, Structural)]
pub enum PlEditLanguage {
    Source,
    Macro,
}

/// A template: the trigger word, a label for the help list, and the body,
/// where `$0`, `$1`, ... mark the fill fields.
#[derive(Clone, Copy, Debug)]
pub struct PlEditTemplate {
    pub trigger: &'static str,
    pub label: &'static str,
    pub body: &'static str,
}

/// The text after an expansion, the cursor and the fill-field offsets.
pub struct PlEditExpansion {
    pub source: String,
    pub cursor: u32,
    pub fields: Vec<u32>,
}

/// The fill fields of an expansion and the one being edited.
#[derive(Clone, Debug, PartialEq, Eq)]
pub struct PlEditSession {
    pub fields: Vec<u32>,
    pub active: usize,
}

pub type TemplateModel = (Seq<char>, Seq<char>, Seq<char>);

impl View for PlEditTemplate {
    type V = TemplateModel;

    open spec fn view(&self) -> TemplateModel {
        (self.trigger@, self.label@, self.body@)
    }
}

pub open spec fn template_views(v: Seq<PlEditTemplate>) -> Seq<TemplateModel> {
    v.map_values(|t: PlEditTemplate| t@)
}

/// The PL/SW source templates.
pub open spec fn source_templates() -> Seq<TemplateModel> {
    seq![
        ("IF"@, "IF/ELSE block"@, "IF ($0) THEN DO;\n    $1\nEND;\nELSE DO;\n    $2\nEND;"@),
        ("IFS"@, "Single-statement IF"@, "IF ($0) THEN\n    $1"@),
        ("DW"@, "DO WHILE block"@, "DO WHILE ($0);\n    $1\nEND;"@),
        ("DO"@, "Counted DO block"@, "DO $0 = $1 TO $2;\n    $3\nEND;"@),
        ("SEL"@, "SELECT/WHEN dispatch"@, "SELECT;\n    WHEN ($0) DO;\n        $1\n    END;\n    OTHERWISE DO;\n        $2\n    END;\nEND;"@),
        ("WHEN"@, "WHEN branch"@, "WHEN ($0) DO;\n    $1\nEND;"@),
        ("DCL"@, "Scalar DCL"@, "DCL $0 $1;"@),
        ("REC"@, "Level DCL record"@, "DCL 1 $0,\n    3 $1 INT(24),\n        5 $2 INT(24),\n        5 $3(8) CHAR;"@),
        ("BASED"@, "BASED record DCL"@, "DCL 1 $0 BASED,\n    3 $1 INT(24),\n        5 $2 PTR;"@),
        ("P"@, "PROC block"@, "$0: PROC;\n    $1\nEND;"@),
        ("PR"@, "PROC with return"@, "$0: PROC($1) RETURNS($2);\n    RETURN($3);\nEND;"@),
        ("NAK"@, "NAKED PROC"@, "$0: PROC OPTIONS(NAKED);\n    ASM DO;\n        '$1';\n    END;\nEND;"@),
        ("ASM"@, "ASM DO block"@, "ASM DO;\n    '$0';\n    $1\nEND;"@),
        ("CALL"@, "CALL statement"@, "CALL $0($1);"@),
        ("RET"@, "RETURN statement"@, "RETURN($0);"@),
        ("RETV"@, "Void RETURN"@, "RETURN;"@),
        ("G"@, "GOTO statement"@, "GOTO $0;"@),
    ]
}

/// The macro-file templates.
pub open spec fn macro_templates() -> Seq<TemplateModel> {
    seq![
        ("MD"@, "MACRODEF block"@, "MACRODEF $0;\n    REQUIRED $1(expr);\n    GEN DO;\n        '$2';\n    END;\nEND;"@),
        ("REQ"@, "Required parameter"@, "REQUIRED $0($1);"@),
        ("OPT"@, "Optional parameter"@, "OPTIONAL $0($1);"@),
        ("GEN"@, "GEN block"@, "GEN DO;\n    '$0';\n    $1\nEND;"@),
        ("INC"@, "%INCLUDE directive"@, "%INCLUDE '$0';"@),
        ("INV"@, "Macro invocation"@, "?$0($1($2));"@),
    ]
}

pub open spec fn templates_spec(language: PlEditLanguage) -> Seq<TemplateModel> {
    match language {
        PlEditLanguage::Source => source_templates(),
        PlEditLanguage::Macro => macro_templates(),
    }
}

/// The templates that expand in an editor: macro editors accept the macro
/// templates and all source templates.
pub open spec fn expansion_templates_spec(language: PlEditLanguage) -> Seq<TemplateModel> {
    match language {
        PlEditLanguage::Source => source_templates(),
        PlEditLanguage::Macro => macro_templates() + source_templates(),
    }
}

fn tpl(trigger: &'static str, label: &'static str, body: &'static str) -> (t: PlEditTemplate)
    ensures
        t@ == (trigger@, label@, body@),
{
    PlEditTemplate { trigger, label, body }
}

fn source_template_vec() -> (v: Vec<PlEditTemplate>)
    ensures
        template_views(v@) == source_templates(),
{
    let mut v: Vec<PlEditTemplate> = Vec::new();
    v.push(tpl("IF", "IF/ELSE block", "IF ($0) THEN DO;\n    $1\nEND;\nELSE DO;\n    $2\nEND;"));
    v.push(tpl("IFS", "Single-statement IF", "IF ($0) THEN\n    $1"));
    v.push(tpl("DW", "DO WHILE block", "DO WHILE ($0);\n    $1\nEND;"));
    v.push(tpl("DO", "Counted DO block", "DO $0 = $1 TO $2;\n    $3\nEND;"));
    v.push(tpl("SEL", "SELECT/WHEN dispatch", "SELECT;\n    WHEN ($0) DO;\n        $1\n    END;\n    OTHERWISE DO;\n        $2\n    END;\nEND;"));
    v.push(tpl("WHEN", "WHEN branch", "WHEN ($0) DO;\n    $1\nEND;"));
    v.push(tpl("DCL", "Scalar DCL", "DCL $0 $1;"));
    v.push(tpl("REC", "Level DCL record", "DCL 1 $0,\n    3 $1 INT(24),\n        5 $2 INT(24),\n        5 $3(8) CHAR;"));
    v.push(tpl("BASED", "BASED record DCL", "DCL 1 $0 BASED,\n    3 $1 INT(24),\n        5 $2 PTR;"));
    v.push(tpl("P", "PROC block", "$0: PROC;\n    $1\nEND;"));
    v.push(tpl("PR", "PROC with return", "$0: PROC($1) RETURNS($2);\n    RETURN($3);\nEND;"));
    v.push(tpl("NAK", "NAKED PROC", "$0: PROC OPTIONS(NAKED);\n    ASM DO;\n        '$1';\n    END;\nEND;"));
    v.push(tpl("ASM", "ASM DO block", "ASM DO;\n    '$0';\n    $1\nEND;"));
    v.push(tpl("CALL", "CALL statement", "CALL $0($1);"));
    v.push(tpl("RET", "RETURN statement", "RETURN($0);"));
    v.push(tpl("RETV", "Void RETURN", "RETURN;"));
    v.push(tpl("G", "GOTO statement", "GOTO $0;"));
    assert(template_views(v@) =~= source_templates());
    v
}

fn macro_template_vec() -> (v: Vec<PlEditTemplate>)
    ensures
        template_views(v@) == macro_templates(),
{
    let mut v: Vec<PlEditTemplate> = Vec::new();
    v.push(tpl("MD", "MACRODEF block", "MACRODEF $0;\n    REQUIRED $1(expr);\n    GEN DO;\n        '$2';\n    END;\nEND;"));
    v.push(tpl("REQ", "Required parameter", "REQUIRED $0($1);"));
    v.push(tpl("OPT", "Optional parameter", "OPTIONAL $0($1);"));
    v.push(tpl("GEN", "GEN block", "GEN DO;\n    '$0';\n    $1\nEND;"));
    v.push(tpl("INC", "%INCLUDE directive", "%INCLUDE '$0';"));
    v.push(tpl("INV", "Macro invocation", "?$0($1($2));"));
    assert(template_views(v@) =~= macro_templates());
    v
}

/// The templates listed for an editor.
pub fn templates_for(language: PlEditLanguage) -> (v: Vec<PlEditTemplate>)
    ensures
        template_views(v@) == templates_spec(language),
{
    match language {
        PlEditLanguage::Source => source_template_vec(),
        PlEditLanguage::Macro => macro_template_vec(),
    }
}

/// The templates that expand in an editor: macro editors take the macro
/// templates first, then all source templates.
pub fn expansion_templates_for(language: PlEditLanguage) -> (v: Vec<PlEditTemplate>)
    ensures
        template_views(v@) == expansion_templates_spec(language),
{
    match language {
        PlEditLanguage::Source => source_template_vec(),
        PlEditLanguage::Macro => {
            let mut v = macro_template_vec();
            let s = source_template_vec();
            let ghost m = template_views(v@);
            let mut i: usize = 0;
            while i < s.len()
                invariant
                    i <= s.len(),
                    template_views(s@) == source_templates(),
                    m == macro_templates(),
                    template_views(v@) == m + template_views(s@).take(i as int),
                decreases s.len() - i,
            {
                let ghost before = template_views(v@);
                let t = s[i];
                v.push(t);
                assert(template_views(v@) =~= before.push(t@));
                i = i + 1;
                assert(template_views(s@).take(i as int) =~= template_views(s@).take(i - 1).push(s@[i - 1]@));
                assert(template_views(v@) =~= m + template_views(s@).take(i as int));
            }
            assert(template_views(s@).take(i as int) =~= template_views(s@));
            v
        },
    }
}

// ---------------------------------------------------------------------------
// Fill-field sessions
// ---------------------------------------------------------------------------

/// What a key press in a PL/EDIT editor does.
#[derive(Clone, Copy, Debug, PartialEq, Eq, Structural)]
pub enum EditorKey {
    /// Move to the next fill field, or the previous one with `backwards`.
    Advance { backwards: bool },
    /// Expand the trigger before the cursor.
    Expand,
    /// Leave the key to the text area.
    Pass,
}

pub open spec fn editor_key_spec(
    key: Seq<char>,
    ctrl: bool,
    shift: bool,
    in_session: bool,
    pl_edit_on: bool,
) -> EditorKey {
    if in_session && (key == "Tab"@ || (key == "Enter"@ && !ctrl)) {
        EditorKey::Advance { backwards: shift }
    } else if pl_edit_on && (key == "F4"@ || (ctrl && key == " "@)) {
        EditorKey::Expand
    } else {
        EditorKey::Pass
    }
}

/// The action for a key press: while fill fields are active, `Tab` and
/// `Enter` (without Ctrl) move between them, backwards with Shift; with
/// PL/EDIT on, `F4` and `Ctrl+Space` expand.
pub fn editor_key(key: &str, ctrl: bool, shift: bool, in_session: bool, pl_edit_on: bool) -> (r: EditorKey)
    ensures
        r == editor_key_spec(key@, ctrl, shift, in_session, pl_edit_on),
{
    let k = chars_of(key);
    let is_tab = seq_eq(&k, &chars_of("Tab"));
    let is_enter = seq_eq(&k, &chars_of("Enter"));
    if in_session && (is_tab || (is_enter && !ctrl)) {
        return EditorKey::Advance { backwards: shift };
    }
    let is_f4 = seq_eq(&k, &chars_of("F4"));
    let is_space = seq_eq(&k, &chars_of(" "));
    if pl_edit_on && (is_f4 || (ctrl && is_space)) {
        EditorKey::Expand
    } else {
        EditorKey::Pass
    }
}

/// The index of the fill field after (or, with `backwards`, before) field
/// `active` of `count`; `None` at either end or when there are no fields.
pub open spec fn next_field(count: nat, active: int, backwards: bool) -> Option<int> {
    if count == 0 {
        None
    } else if backwards {
        if active == 0 {
            None
        } else {
            Some(active - 1)
        }
    } else if active >= count - 1 {
        None
    } else {
        Some(active + 1)
    }
}

/// The fill field after (or, with `backwards`, before) the active one;
/// `None` at either end or when there are no fields.
pub fn advance_session(session: &PlEditSession, backwards: bool) -> (r: Option<PlEditSession>)
    ensures
        match next_field(session.fields@.len(), session.active as int, backwards) {
            Some(k) => r matches Some(s) && s.fields@ == session.fields@ && s.active == k,
            None => r is None,
        },
{
    if session.fields.len() == 0 {
        return None;
    }
    let active = if backwards {
        if session.active == 0 {
            return None;
        }
        session.active - 1
    } else {
        if session.active >= session.fields.len() - 1 {
            return None;
        }
        session.active + 1
    };
    Some(PlEditSession { fields: session.fields.clone(), active })
}

/// Law: moving to the next fill field and back returns to the field one
/// started from, and so does moving back and then forward.
pub proof fn law_advance_then_back(count: nat, active: int)
    requires
        0 <= active < count,
    ensures
        next_field(count, active, false) matches Some(k) ==> next_field(count, k, true) == Some(
            active,
        ),
        next_field(count, active, true) matches Some(k) ==> next_field(count, k, false) == Some(
            active,
        ),
{
}

/// Moves the fill fields after an edit of the text: the active field goes
/// to the cursor; a field after the edit start shifts by the change in
/// length, never below 0. The edit starts `delta` bytes before the cursor
/// when the text grew, at the cursor otherwise.
pub open spec fn shifted_field(f: u32, idx: int, active: int, delta: int, cursor: usize) -> u32 {
    if idx == active {
        cursor as u32
    } else if f > edit_start_of(delta, cursor) {
        (if (f as isize) + delta < 0 { 0 } else { (f as isize) + delta }) as u32
    } else {
        f
    }
}

pub open spec fn edit_start_of(delta: int, cursor: usize) -> int {
    if delta > 0 {
        if cursor >= delta { cursor - delta } else { 0 }
    } else {
        cursor as int
    }
}

/// The session after the text changed from `old_source` to `new_source`
/// with the cursor at `cursor`.
pub fn update_session_after_input(
    session: &PlEditSession,
    old_source: &str,
    new_source: &str,
    cursor: usize,
) -> (r: PlEditSession)
    requires
        byte_len(old_source@) <= isize::MAX,
        byte_len(new_source@) <= isize::MAX,
        forall|i: int|
            0 <= i < session.fields@.len() && i != session.active && session.fields@[i]
                > edit_start_of(byte_len(new_source@) - byte_len(old_source@), cursor) ==> isize::MIN
                <= (session.fields@[i] as isize) + (byte_len(new_source@) - byte_len(old_source@))
                <= isize::MAX,
    ensures
        r.active == session.active,
        r.fields@.len() == session.fields@.len(),
        forall|i: int|
            0 <= i < r.fields@.len() ==> #[trigger] r.fields@[i] == shifted_field(
                session.fields@[i],
                i,
                session.active as int,
                byte_len(new_source@) - byte_len(old_source@),
                cursor,
            ),
{
    let delta: isize = new_source.len() as isize - old_source.len() as isize;
    let edit_start: usize = if delta > 0 {
        let d: usize = delta as usize;
        if cursor >= d { cursor - d } else { 0 }
    } else {
        cursor
    };
    let ghost dl = byte_len(new_source@) - byte_len(old_source@);
    assert(delta == dl);
    let mut fields: Vec<u32> = Vec::new();
    let mut idx: usize = 0;
    while idx < session.fields.len()
        invariant
            idx <= session.fields.len(),
            delta == dl,
            edit_start == edit_start_of(dl, cursor),
            fields@.len() == idx,
            forall|i: int|
                0 <= i < session.fields@.len() && i != session.active && session.fields@[i]
                    > edit_start_of(dl, cursor) ==> isize::MIN <= (session.fields@[i] as isize) + dl
                    <= isize::MAX,
            forall|i: int|
                0 <= i < idx ==> #[trigger] fields@[i] == shifted_field(
                    session.fields@[i],
                    i,
                    session.active as int,
                    dl,
                    cursor,
                ),
        decreases session.fields.len() - idx,
    {
        let f = session.fields[idx];
        let v: u32 = if idx == session.active {
            cursor as u32
        } else if f as usize > edit_start {
            let moved: isize = f as isize + delta;
            if moved < 0 { 0 } else { moved as u32 }
        } else {
            f
        };
        fields.push(v);
        idx = idx + 1;
    }
    PlEditSession { fields, active: session.active }
}

// ---------------------------------------------------------------------------
// Expanding a trigger
// ---------------------------------------------------------------------------

/// The character index where the prefix holds exactly `b` bytes, if any.
pub open spec fn char_at_byte(s: Seq<char>, b: int) -> Option<int> {
    if exists|k: int| 0 <= k <= s.len() && byte_len(s.take(k)) == b {
        Some(choose|k: int| 0 <= k <= s.len() && byte_len(s.take(k)) == b)
    } else {
        None
    }
}

proof fn lemma_char_at_byte(s: Seq<char>, b: int, k: int)
    requires
        0 <= k <= s.len(),
        byte_len(s.take(k)) == b,
    ensures
        char_at_byte(s, b) == Some(k),
{
    let c = choose|m: int| 0 <= m <= s.len() && byte_len(s.take(m)) == b;
    if c < k {
        lemma_byte_len_prefix(s, c, k);
    } else if k < c {
        lemma_byte_len_prefix(s, k, c);
    }
}

/// The index after the last non-identifier character before `j` (0 if none).
pub open spec fn ident_start(s: Seq<char>, j: int) -> int
    decreases j,
{
    if 0 < j <= s.len() && is_ident(s[j - 1]) {
        ident_start(s, j - 1)
    } else {
        j
    }
}

/// The index after the last `'\n'` before `j` (0 if none).
pub open spec fn line_start(s: Seq<char>, j: int) -> int
    decreases j,
{
    if 0 < j <= s.len() && s[j - 1] != '\n' {
        line_start(s, j - 1)
    } else {
        j
    }
}

/// The end of the run of spaces and tabs that starts at `i`, stopping at `j`.
pub open spec fn blank_end(s: Seq<char>, i: int, j: int) -> int
    decreases j - i,
{
    if 0 <= i < j && i < s.len() && (s[i] == ' ' || s[i] == '\t') {
        blank_end(s, i + 1, j)
    } else {
        i
    }
}

proof fn lemma_ident_start(s: Seq<char>, j: int)
    requires
        0 <= j <= s.len(),
    ensures
        0 <= ident_start(s, j) <= j,
    decreases j,
{
    if j > 0 && is_ident(s[j - 1]) {
        lemma_ident_start(s, j - 1);
    }
}

proof fn lemma_line_start(s: Seq<char>, j: int)
    requires
        0 <= j <= s.len(),
    ensures
        0 <= line_start(s, j) <= j,
    decreases j,
{
    if j > 0 && s[j - 1] != '\n' {
        lemma_line_start(s, j - 1);
    }
}

proof fn lemma_blank_end(s: Seq<char>, i: int, j: int)
    requires
        0 <= i <= j <= s.len(),
    ensures
        i <= blank_end(s, i, j) <= j,
    decreases j - i,
{
    if i < j && (s[i] == ' ' || s[i] == '\t') {
        lemma_blank_end(s, i + 1, j);
    }
}

/// The indentation of the line holding position `j`: the spaces and tabs at
/// the start of that line, up to `j`.
pub open spec fn indent_before(s: Seq<char>, j: int) -> Seq<char> {
    let ls = line_start(s, j);
    s.subrange(ls, blank_end(s, ls, j))
}

/// Renders a template body from index `i` on: `$` followed by a digit marks
/// a fill field (its byte offset in the output) and is dropped; every
/// newline is followed by `indent`.
pub open spec fn render_from(t: Seq<char>, indent: Seq<char>, i: int, out: Seq<char>, fields: Seq<nat>) -> (
    Seq<char>,
    Seq<nat>,
)
    decreases t.len() - i,
{
    if i < 0 || i >= t.len() {
        (out, if fields.len() == 0 { seq![byte_len(out)] } else { fields })
    } else if t[i] == '$' && i + 1 < t.len() && is_digit(t[i + 1]) {
        render_from(t, indent, i + 2, out, fields.push(byte_len(out)))
    } else if t[i] == '\n' {
        render_from(t, indent, i + 1, out.push(t[i]) + indent, fields)
    } else {
        render_from(t, indent, i + 1, out.push(t[i]), fields)
    }
}

/// The rendered body and its fill-field byte offsets (at least one: the end
/// of the body when the template marks none).
pub open spec fn render(t: Seq<char>, indent: Seq<char>) -> (Seq<char>, Seq<nat>) {
    render_from(t, indent, 0, seq![], seq![])
}

proof fn lemma_render_fields_inside(t: Seq<char>, indent: Seq<char>, i: int, out: Seq<char>, fields: Seq<nat>)
    requires
        forall|k: int| 0 <= k < fields.len() ==> #[trigger] fields[k] <= byte_len(out),
    ensures
        ({
            let (body, fs) = render_from(t, indent, i, out, fields);
            &&& fs.len() >= 1
            &&& forall|k: int| 0 <= k < fs.len() ==> #[trigger] fs[k] <= byte_len(body)
        }),
    decreases t.len() - i,
{
    if i < 0 || i >= t.len() {
    } else if t[i] == '$' && i + 1 < t.len() && is_digit(t[i + 1]) {
        let f2 = fields.push(byte_len(out));
        assert forall|k: int| 0 <= k < f2.len() implies #[trigger] f2[k] <= byte_len(out) by {
            if k < fields.len() {
                assert(f2[k] == fields[k]);
            }
        }
        lemma_render_fields_inside(t, indent, i + 2, out, f2);
    } else if t[i] == '\n' {
        lemma_byte_len_push(out, t[i]);
        lemma_byte_len_concat(out.push(t[i]), indent);
        lemma_render_fields_inside(t, indent, i + 1, out.push(t[i]) + indent, fields);
    } else {
        lemma_byte_len_push(out, t[i]);
        lemma_render_fields_inside(t, indent, i + 1, out.push(t[i]), fields);
    }
}

/// The first template with the given trigger.
pub open spec fn first_template(ts: Seq<TemplateModel>, trigger: Seq<char>) -> Option<TemplateModel>
    decreases ts.len(),
{
    if ts.len() == 0 {
        None
    } else if ts[0].0 == trigger {
        Some(ts[0])
    } else {
        first_template(ts.drop_first(), trigger)
    }
}

/// What expanding the trigger before byte offset `cursor` gives: the new
/// text (the trigger and the selection up to `selection_end` replaced by the
/// rendered body), the new cursor (the first fill field) and the fill-field
/// byte offsets. `None` when an offset is not a character boundary in the
/// text, the word before the cursor is empty, or no template has it as its
/// trigger.
pub open spec fn expansion_at(
    source: Seq<char>,
    cursor: int,
    selection_end: int,
    ts: Seq<TemplateModel>,
) -> Option<(Seq<char>, u32, Seq<u32>)> {
    match char_at_byte(source, cursor) {
        None => None,
        Some(k) => {
            let j = ident_start(source, k);
            let trigger = upper_seq(trim_seq(source.subrange(j, k)));
            if trigger.len() == 0 {
                None
            } else {
                match first_template(ts, trigger) {
                    None => None,
                    Some(t) => {
                        let (body, fields) = render(t.2, indent_before(source, j));
                        match char_at_byte(source, selection_end) {
                            None => None,
                            Some(e) => {
                                let start = byte_len(source.take(j));
                                let abs = fields.map_values(|f: nat| (start + f) as u32);
                                Some(
                                    (
                                        source.take(j) + body + source.skip(e),
                                        if abs.len() > 0 {
                                            abs[0]
                                        } else {
                                            (start + byte_len(body)) as u32
                                        },
                                        abs,
                                    ),
                                )
                            },
                        }
                    },
                }
            }
        },
    }
}

/// Law: an expansion replaces only the trigger word and the selection. The
/// new text begins with the source up to the start of the word before the
/// cursor (a run of identifier characters ending at the cursor) and ends
/// with the source from the end of the selection on; `cursor` and
/// `selection_end` are the byte offsets of those places.
pub proof fn law_expansion_keeps_surrounding_text(
    source: Seq<char>,
    cursor: int,
    selection_end: int,
    ts: Seq<TemplateModel>,
)
    requires
        expansion_at(source, cursor, selection_end, ts) is Some,
    ensures
        ({
            let x = expansion_at(source, cursor, selection_end, ts).unwrap();
            &&& exists|e: int|
                0 <= e <= source.len() && byte_len(#[trigger] source.take(e)) == selection_end
                    && x.0.len() >= source.len() - e && x.0.skip(x.0.len() - (source.len() - e))
                    == source.skip(e)
            &&& exists|j: int, k: int|
                #![trigger source.take(j), source.take(k)]
                0 <= j <= k <= source.len() && byte_len(source.take(k)) == cursor
                    && (forall|m: int| j <= m < k ==> is_ident(#[trigger] source[m])) && x.0.len() >= j
                    && x.0.take(j) == source.take(j)
        }),
{
    let k = char_at_byte(source, cursor).unwrap();
    let j = ident_start(source, k);
    lemma_ident_start(source, k);
    lemma_ident_start_run(source, k);
    let trigger = upper_seq(trim_seq(source.subrange(j, k)));
    let t = first_template(ts, trigger).unwrap();
    let (body, fields) = render(t.2, indent_before(source, j));
    let e = char_at_byte(source, selection_end).unwrap();
    let x = expansion_at(source, cursor, selection_end, ts).unwrap();
    assert(x.0 == source.take(j) + body + source.skip(e));
    assert(0 <= e <= source.len() && byte_len(source.take(e)) == selection_end);
    assert(x.0.skip(x.0.len() - (source.len() - e)) =~= source.skip(e));
    assert(x.0.take(j) =~= source.take(j));
}

proof fn lemma_ident_start_run(s: Seq<char>, k: int)
    requires
        0 <= k <= s.len(),
    ensures
        forall|m: int| ident_start(s, k) <= m < k ==> is_ident(#[trigger] s[m]),
    decreases k,
{
    if k > 0 && is_ident(s[k - 1]) {
        lemma_ident_start_run(s, k - 1);
    }
}

/// Law: an expansion puts its cursor and every fill field inside the new
/// text (at most its byte length), and marks at least one field, whenever
/// the new text's byte length fits the `u32` offsets.
pub proof fn law_expansion_fields_inside_text(
    source: Seq<char>,
    cursor: int,
    selection_end: int,
    ts: Seq<TemplateModel>,
)
    requires
        expansion_at(source, cursor, selection_end, ts) matches Some(x) && byte_len(x.0) <= u32::MAX,
    ensures
        expansion_at(source, cursor, selection_end, ts) matches Some(x) && {
            &&& x.2.len() >= 1
            &&& x.1 == x.2[0]
            &&& forall|k: int| 0 <= k < x.2.len() ==> #[trigger] x.2[k] <= byte_len(x.0)
        },
{
    let k = char_at_byte(source, cursor).unwrap();
    let j = ident_start(source, k);
    let trigger = upper_seq(trim_seq(source.subrange(j, k)));
    let t = first_template(ts, trigger).unwrap();
    let (body, fields) = render(t.2, indent_before(source, j));
    let e = char_at_byte(source, selection_end).unwrap();
    lemma_render_fields_inside(t.2, indent_before(source, j), 0, seq![], seq![]);
    let start = byte_len(source.take(j));
    let x = expansion_at(source, cursor, selection_end, ts).unwrap();
    lemma_byte_len_concat(source.take(j), body);
    lemma_byte_len_concat(source.take(j) + body, source.skip(e));
    assert(x.0 == source.take(j) + body + source.skip(e));
    let abs = fields.map_values(|f: nat| (start + f) as u32);
    assert(x.2 == abs);
    assert forall|i: int| 0 <= i < abs.len() implies #[trigger] abs[i] <= byte_len(x.0) by {
        assert(fields[i] <= byte_len(body));
        assert(start + fields[i] <= u32::MAX);
    }
}

/// Pushes `c`, keeping the byte count of `out`.
fn push_counted(out: &mut Vec<char>, bytes: &mut u128, c: char)
    requires
        *old(bytes) == byte_len(old(out)@),
        *old(bytes) <= 4 * old(out)@.len(),
    ensures
        final(out)@ == old(out)@.push(c),
        *final(bytes) == byte_len(final(out)@),
        *final(bytes) <= 4 * final(out)@.len(),
        *final(bytes) >= *old(bytes),
{
    proof {
        lemma_byte_len_push(old(out)@, c);
        lemma_width(c);
    }
    out.push(c);
    let n = out.len();
    assert(n == out@.len());
    *bytes = *bytes + utf8_width(c) as u128;
}

/// Renders a template body: `$<digit>` marks a fill field, and each line
/// after the first gets `indent` in front.
fn render_body(t: &Vec<char>, indent: &Vec<char>) -> (r: (Vec<char>, Vec<u128>, u128))
    ensures
        ({
            let (body, fields) = render(t@, indent@);
            &&& r.0@ == body
            &&& r.1@.len() == fields.len()
            &&& forall|m: int| 0 <= m < fields.len() ==> r.1@[m] == fields[m]
            &&& r.2 == byte_len(body)
            &&& forall|m: int| 0 <= m < fields.len() ==> fields[m] <= r.2
            &&& r.2 <= 4 * (usize::MAX as nat)
        }),
{
    let mut out: Vec<char> = Vec::new();
    let mut bytes: u128 = 0;
    let mut fields: Vec<u128> = Vec::new();
    let ghost gf: Seq<nat> = seq![];
    assert(vstd::utf8::encode_utf8(Seq::<char>::empty()) =~= Seq::<u8>::empty());
    let mut i: usize = 0;
    while i < t.len()
        invariant
            i <= t.len(),
            bytes == byte_len(out@),
            bytes <= 4 * out@.len(),
            fields@.len() == gf.len(),
            forall|m: int| 0 <= m < gf.len() ==> fields@[m] == gf[m] && gf[m] <= bytes,
            render_from(t@, indent@, i as int, out@, gf) == render(t@, indent@),
        decreases t.len() - i,
    {
        let ch = t[i];
        if ch == '$' && i + 1 < t.len() && is_ascii_digit(t[i + 1]) {
            fields.push(bytes);
            proof {
                gf = gf.push(byte_len(out@));
            }
            i = i + 2;
        } else {
            push_counted(&mut out, &mut bytes, ch);
            if ch == '\n' {
                let mut k: usize = 0;
                let ghost base = out@;
                while k < indent.len()
                    invariant
                        k <= indent.len(),
                        out@ == base + indent@.take(k as int),
                        bytes == byte_len(out@),
                        bytes <= 4 * out@.len(),
                        forall|m: int| 0 <= m < gf.len() ==> gf[m] <= bytes,
                    decreases indent.len() - k,
                {
                    push_counted(&mut out, &mut bytes, indent[k]);
                    k = k + 1;
                    assert(indent@.take(k as int) =~= indent@.take(k - 1).push(indent@[k - 1]));
                }
                assert(indent@.take(k as int) =~= indent@);
            }
            i = i + 1;
        }
    }
    if fields.len() == 0 {
        fields.push(bytes);
        proof {
            gf = gf.push(byte_len(out@));
        }
    }
    let n = out.len();
    assert(n == out@.len());
    (out, fields, bytes)
}

/// The start of the identifier that ends at character index `cursor`.
fn previous_token_start(source: &Vec<char>, cursor: usize) -> (j: usize)
    requires
        cursor <= source.len(),
    ensures
        j == ident_start(source@, cursor as int),
        j <= cursor,
{
    let mut j: usize = cursor;
    while j > 0 && is_ident_char(source[j - 1])
        invariant
            j <= cursor <= source.len(),
            ident_start(source@, j as int) == ident_start(source@, cursor as int),
        decreases j,
    {
        j = j - 1;
    }
    j
}

/// The spaces and tabs that start the line holding character index `start`.
fn line_indent_before(source: &Vec<char>, start: usize) -> (r: Vec<char>)
    requires
        start <= source.len(),
    ensures
        r@ == indent_before(source@, start as int),
{
    let mut ls: usize = start;
    while ls > 0 && source[ls - 1] != '\n'
        invariant
            ls <= start <= source.len(),
            line_start(source@, ls as int) == line_start(source@, start as int),
        decreases ls,
    {
        ls = ls - 1;
    }
    let mut be: usize = ls;
    while be < start && (source[be] == ' ' || source[be] == '\t')
        invariant
            ls <= be <= start <= source.len(),
            blank_end(source@, be as int, start as int) == blank_end(source@, ls as int, start as int),
        decreases start - be,
    {
        be = be + 1;
    }
    subrange(source, ls, be)
}

/// Expands the template trigger just before byte offset `cursor`, replacing
/// it (and any selection up to `selection_end`) with the rendered template.
pub fn expand_source_at(
    source: &str,
    cursor: usize,
    selection_end: usize,
    language: PlEditLanguage,
) -> (r: Option<PlEditExpansion>)
    requires
        byte_len(source@) <= usize::MAX,
    ensures
        match r {
            Some(x) => expansion_at(
                source@,
                cursor as int,
                selection_end as int,
                expansion_templates_spec(language),
            ) == Some((x.source@, x.cursor, x.fields@)),
            None => expansion_at(
                source@,
                cursor as int,
                selection_end as int,
                expansion_templates_spec(language),
            ) is None,
        },
{
    let src = chars_of(source);
    let ghost s = src@;
    let ghost ts = expansion_templates_spec(language);
    let k = match char_index_of_byte(&src, cursor) {
        Some(k) => k,
        None => {
            assert(!(exists|m: int| 0 <= m <= s.len() && byte_len(s.take(m)) == cursor));
            return None;
        },
    };
    proof {
        lemma_char_at_byte(s, cursor as int, k as int);
    }
    let j = previous_token_start(&src, k);
    let word = subrange(&src, j, k);
    let word_t = trim(&word);
    let trigger = to_upper(&word_t);
    if trigger.len() == 0 {
        return None;
    }
    let templates = expansion_templates_for(language);
    let mut t: usize = 0;
    let mut found: Option<usize> = None;
    assert(template_views(templates@).skip(0) =~= ts);
    while t < templates.len() && found.is_none()
        invariant
            t <= templates.len(),
            template_views(templates@) == ts,
            found.is_none() ==> first_template(template_views(templates@).skip(t as int), trigger@)
                == first_template(ts, trigger@),
            found matches Some(f) ==> f < templates.len() && first_template(ts, trigger@) == Some(
                templates@[f as int]@,
            ),
        decreases templates.len() - t + (if found.is_none() { 1int } else { 0int }),
    {
        let ghost tv = template_views(templates@).skip(t as int);
        assert(tv[0] == templates@[t as int]@);
        assert(tv.drop_first() =~= template_views(templates@).skip(t + 1));
        let trig = chars_of(templates[t].trigger);
        if seq_eq(&trig, &trigger) {
            found = Some(t);
        } else {
            t = t + 1;
        }
    }
    let f = match found {
        Some(f) => f,
        None => {
            assert(template_views(templates@).skip(t as int) =~= Seq::<TemplateModel>::empty());
            return None;
        },
    };
    let indent = line_indent_before(&src, j);
    let body_t = chars_of(templates[f].body);
    let (body, fields, body_bytes) = render_body(&body_t, &indent);
    let e = match char_index_of_byte(&src, selection_end) {
        Some(e) => e,
        None => {
            assert(!(exists|m: int| 0 <= m <= s.len() && byte_len(s.take(m)) == selection_end));
            return None;
        },
    };
    proof {
        lemma_char_at_byte(s, selection_end as int, e as int);
    }
    let start_b = prefix_bytes(&src, j);
    let head = subrange(&src, 0, j);
    let tail = subrange(&src, e, src.len());
    let mut next = concat(&head, &body);
    push_all(&mut next, &tail);
    let ghost gfields = render(body_t@, indent@).1;
    let mut abs: Vec<u32> = Vec::new();
    let mut q: usize = 0;
    while q < fields.len()
        invariant
            q <= fields.len(),
            fields@.len() == gfields.len(),
            forall|m: int| 0 <= m < gfields.len() ==> fields@[m] == gfields[m] && gfields[m] <= body_bytes,
            body_bytes <= 4 * (usize::MAX as nat),
            start_b <= 4 * (usize::MAX as nat),
            abs@ =~= gfields.take(q as int).map_values(|g: nat| (start_b + g) as u32),
        decreases fields.len() - q,
    {
        assert(fields@[q as int] == gfields[q as int] && gfields[q as int] <= body_bytes);
        let v: u128 = start_b + fields[q];
        abs.push(#[verifier::truncate] (v as u32));
        q = q + 1;
        assert(abs@ =~= gfields.take(q as int).map_values(|g: nat| (start_b + g) as u32));
    }
    assert(gfields.take(q as int) =~= gfields);
    let new_cursor: u32 = if abs.len() > 0 {
        abs[0]
    } else {
        #[verifier::truncate] ((start_b + body_bytes) as u32)
    };
    Some(PlEditExpansion { source: string_of(&next), cursor: new_cursor, fields: abs })
}

// ---------------------------------------------------------------------------
// Formatting: spacing
// ---------------------------------------------------------------------------

/// Collapses each run of whitespace outside single-quoted strings to one
/// space (none at the start), from index `i` on.
pub open spec fn collapse_from(s: Seq<char>, i: int, out: Seq<char>, in_string: bool, pending: bool) -> Seq<char>
    decreases s.len() - i,
{
    if i < 0 || i >= s.len() {
        out
    } else {
        let ch = s[i];
        let sep = if pending && out.len() > 0 { out.push(' ') } else { out };
        if ch == '\'' {
            collapse_from(s, i + 1, sep.push(ch), !in_string, false)
        } else if !in_string && is_ws(ch) {
            collapse_from(s, i + 1, out, in_string, true)
        } else {
            collapse_from(s, i + 1, sep.push(ch), in_string, false)
        }
    }
}

pub open spec fn collapse_spacing(s: Seq<char>) -> Seq<char> {
    collapse_from(s, 0, seq![], false, false)
}

fn collapse_spacing_outside_strings(line: &Vec<char>) -> (r: Vec<char>)
    ensures
        r@ == collapse_spacing(line@),
{
    let mut out: Vec<char> = Vec::new();
    let mut in_string = false;
    let mut pending = false;
    let mut i: usize = 0;
    while i < line.len()
        invariant
            i <= line.len(),
            collapse_from(line@, i as int, out@, in_string, pending) == collapse_spacing(line@),
        decreases line.len() - i,
    {
        let ch = line[i];
        if ch == '\'' {
            if pending && out.len() > 0 {
                out.push(' ');
            }
            pending = false;
            in_string = !in_string;
            out.push(ch);
        } else if !in_string && is_whitespace(ch) {
            pending = true;
        } else {
            if pending && out.len() > 0 {
                out.push(' ');
            }
            pending = false;
            out.push(ch);
        }
        i = i + 1;
    }
    out
}

/// The index of the first character other than `' '` at or after `i`.
pub open spec fn skip_spaces(s: Seq<char>, i: int) -> int
    decreases s.len() - i,
{
    if 0 <= i < s.len() && s[i] == ' ' {
        skip_spaces(s, i + 1)
    } else {
        i
    }
}

proof fn lemma_skip_spaces(s: Seq<char>, i: int)
    requires
        0 <= i <= s.len(),
    ensures
        i <= skip_spaces(s, i) <= s.len(),
    decreases s.len() - i,
{
    if i < s.len() && s[i] == ' ' {
        lemma_skip_spaces(s, i + 1);
    }
}

/// A word character for the keyword check before `(`.
pub open spec fn is_word(c: char) -> bool {
    is_alnum(c) || c == '_' || c == '?'
}

/// The start of the run of word characters that ends at `j`.
pub open spec fn word_start(s: Seq<char>, j: int) -> int
    decreases j,
{
    if 0 < j <= s.len() && is_word(s[j - 1]) {
        word_start(s, j - 1)
    } else {
        j
    }
}

/// Whether the space before a `(` goes: kept after `IF`, `WHILE`, `WHEN` and
/// `SELECT`, dropped after any other word.
pub open spec fn drops_space_before_paren(prefix: Seq<char>) -> bool {
    let w = upper_seq(prefix.skip(word_start(prefix, prefix.len() as int)));
    !(w == "IF"@ || w == "WHILE"@ || w == "WHEN"@ || w == "SELECT"@)
}

proof fn lemma_word_start(s: Seq<char>, j: int)
    requires
        0 <= j <= s.len(),
    ensures
        0 <= word_start(s, j) <= j,
    decreases j,
{
    if j > 0 && is_word(s[j - 1]) {
        lemma_word_start(s, j - 1);
    }
}

fn remove_space_before_paren(prefix: &Vec<char>) -> (r: bool)
    ensures
        r == drops_space_before_paren(prefix@),
{
    let mut j: usize = prefix.len();
    while j > 0 && (is_ascii_alphanumeric(prefix[j - 1]) || prefix[j - 1] == '_' || prefix[j - 1] == '?')
        invariant
            j <= prefix.len(),
            word_start(prefix@, j as int) == word_start(prefix@, prefix@.len() as int),
        decreases j,
    {
        j = j - 1;
    }
    let w = subrange(prefix, j, prefix.len());
    let word = to_upper(&w);
    assert(w@ =~= prefix@.skip(j as int));
    !(seq_eq(&word, &chars_of("IF")) || seq_eq(&word, &chars_of("WHILE")) || seq_eq(
        &word,
        &chars_of("WHEN"),
    ) || seq_eq(&word, &chars_of("SELECT")))
}

/// Spacing normalization from index `i` on: no space before `,` `;` `)`, nor
/// before `(` unless a keyword precedes it; no spaces after `(`; one space
/// after `,` unless `)` or `;` follows. Text in single quotes is kept.
pub open spec fn normalize_from(s: Seq<char>, i: int, in_string: bool, out: Seq<char>) -> Seq<char>
    decreases s.len() - i,
{
    if i < 0 || i >= s.len() {
        out
    } else {
        let ch = s[i];
        if ch == '\'' {
            normalize_from(s, i + 1, !in_string, out.push(ch))
        } else if !in_string && ch == ' ' && i + 1 < s.len() && (s[i + 1] == ',' || s[i + 1] == ';'
            || s[i + 1] == ')') {
            normalize_from(s, i + 1, in_string, out)
        } else if !in_string && ch == ' ' && i + 1 < s.len() && s[i + 1] == '('
            && drops_space_before_paren(out) {
            normalize_from(s, i + 1, in_string, out)
        } else if !in_string && ch == '(' {
            if i < skip_spaces(s, i + 1) <= s.len() {
                normalize_from(s, skip_spaces(s, i + 1), in_string, out.push(ch))
            } else {
                out
            }
        } else if !in_string && ch == ',' {
            let j = skip_spaces(s, i + 1);
            if i < j <= s.len() {
                normalize_from(
                    s,
                    j,
                    in_string,
                    if j < s.len() && !(s[j] == ')' || s[j] == ';') {
                        out.push(ch).push(' ')
                    } else {
                        out.push(ch)
                    },
                )
            } else {
                out
            }
        } else {
            normalize_from(s, i + 1, in_string, out.push(ch))
        }
    }
}

/// A code line with its spacing normalized.
pub open spec fn normalize_code(raw: Seq<char>) -> Seq<char> {
    let collapsed = collapse_spacing(trim_seq(raw));
    if collapsed.len() == 0 {
        collapsed
    } else {
        normalize_from(collapsed, 0, false, seq![])
    }
}

// ---------------------------------------------------------------------------
// Spacing normalization changes nothing but white space
// ---------------------------------------------------------------------------

/// The characters of `s` that satisfy `p`, in order.
pub open spec fn keep(s: Seq<char>, p: spec_fn(char) -> bool) -> Seq<char>
    decreases s.len(),
{
    if s.len() == 0 {
        seq![]
    } else if p(s.last()) {
        keep(s.drop_last(), p).push(s.last())
    } else {
        keep(s.drop_last(), p)
    }
}

pub open spec fn not_ws() -> spec_fn(char) -> bool {
    |c: char| !is_ws(c)
}

pub open spec fn not_space() -> spec_fn(char) -> bool {
    |c: char| c != ' '
}

proof fn lemma_keep_push(s: Seq<char>, c: char, p: spec_fn(char) -> bool)
    ensures
        keep(s.push(c), p) == if p(c) {
            keep(s, p).push(c)
        } else {
            keep(s, p)
        },
{
    assert(s.push(c).drop_last() =~= s);
}

proof fn lemma_keep_concat(a: Seq<char>, b: Seq<char>, p: spec_fn(char) -> bool)
    ensures
        keep(a + b, p) == keep(a, p) + keep(b, p),
    decreases b.len(),
{
    if b.len() == 0 {
        assert(a + b =~= a);
        assert(keep(a, p) + keep(b, p) =~= keep(a, p));
    } else {
        lemma_keep_concat(a, b.drop_last(), p);
        assert((a + b).drop_last() =~= a + b.drop_last());
        assert((a + b).last() == b.last());
        if p(b.last()) {
            assert(keep(a + b, p) =~= keep(a, p) + keep(b, p));
        }
    }
}

proof fn lemma_keep_none(s: Seq<char>, p: spec_fn(char) -> bool)
    requires
        forall|k: int| 0 <= k < s.len() ==> !p(#[trigger] s[k]),
    ensures
        keep(s, p) == Seq::<char>::empty(),
    decreases s.len(),
{
    if s.len() > 0 {
        lemma_keep_none(s.drop_last(), p);
    }
}

/// Keeping from `s.skip(i)` is keeping `s[i]` (or not), then the rest.
proof fn lemma_keep_skip(s: Seq<char>, i: int, p: spec_fn(char) -> bool)
    requires
        0 <= i < s.len(),
    ensures
        keep(s.skip(i), p) == keep(seq![s[i]], p) + keep(s.skip(i + 1), p),
        keep(seq![s[i]], p) == if p(s[i]) {
            seq![s[i]]
        } else {
            Seq::<char>::empty()
        },
{
    assert(s.skip(i) =~= seq![s[i]] + s.skip(i + 1));
    lemma_keep_concat(seq![s[i]], s.skip(i + 1), p);
    let one = seq![s[i]];
    assert(one.drop_last() =~= Seq::<char>::empty());
    assert(keep(Seq::<char>::empty(), p) =~= Seq::<char>::empty());
    assert(one.last() == s[i]);
    if p(s[i]) {
        assert(keep(one, p) == keep(one.drop_last(), p).push(s[i]));
        assert(keep(one, p) =~= seq![s[i]]);
    } else {
        assert(keep(one, p) == keep(one.drop_last(), p));
    }
}

proof fn lemma_keep_spaces_then_ws(s: Seq<char>)
    ensures
        keep(keep(s, not_space()), not_ws()) == keep(s, not_ws()),
    decreases s.len(),
{
    if s.len() > 0 {
        lemma_keep_spaces_then_ws(s.drop_last());
        let c = s.last();
        if c != ' ' {
            lemma_keep_push(keep(s.drop_last(), not_space()), c, not_ws());
        }
    }
}

proof fn lemma_skip_spaces_keep(s: Seq<char>, i: int)
    requires
        0 <= i <= s.len(),
    ensures
        keep(s.skip(i), not_space()) == keep(s.skip(skip_spaces(s, i)), not_space()),
    decreases s.len() - i,
{
    if i < s.len() && s[i] == ' ' {
        lemma_keep_skip(s, i, not_space());
        lemma_skip_spaces_keep(s, i + 1);
        assert(keep(seq![s[i]], not_space()) + keep(s.skip(i + 1), not_space()) =~= keep(
            s.skip(i + 1),
            not_space(),
        ));
    }
}

proof fn lemma_normalize_keeps_text(s: Seq<char>, i: int, in_string: bool, out: Seq<char>)
    requires
        0 <= i <= s.len(),
    ensures
        keep(normalize_from(s, i, in_string, out), not_space()) == keep(out, not_space()) + keep(
            s.skip(i),
            not_space(),
        ),
    decreases s.len() - i,
{
    let ns = not_space();
    if i >= s.len() {
        assert(s.skip(i) =~= Seq::<char>::empty());
        assert(keep(out, ns) + keep(s.skip(i), ns) =~= keep(out, ns));
    } else {
        let ch = s[i];
        lemma_keep_skip(s, i, ns);
        lemma_skip_spaces(s, i + 1);
        if ch == '\'' {
            lemma_normalize_keeps_text(s, i + 1, !in_string, out.push(ch));
            lemma_keep_push(out, ch, ns);
            assert(keep(out, ns).push(ch) + keep(s.skip(i + 1), ns) =~= keep(out, ns) + (seq![ch]
                + keep(s.skip(i + 1), ns)));
        } else if !in_string && ch == ' ' && i + 1 < s.len() && (s[i + 1] == ',' || s[i + 1] == ';'
            || s[i + 1] == ')') {
            lemma_normalize_keeps_text(s, i + 1, in_string, out);
            assert(keep(seq![ch], ns) + keep(s.skip(i + 1), ns) =~= keep(s.skip(i + 1), ns));
        } else if !in_string && ch == ' ' && i + 1 < s.len() && s[i + 1] == '('
            && drops_space_before_paren(out) {
            lemma_normalize_keeps_text(s, i + 1, in_string, out);
            assert(keep(seq![ch], ns) + keep(s.skip(i + 1), ns) =~= keep(s.skip(i + 1), ns));
        } else if !in_string && ch == '(' {
            let j = skip_spaces(s, i + 1);
            lemma_skip_spaces_keep(s, i + 1);
            lemma_normalize_keeps_text(s, j, in_string, out.push(ch));
            lemma_keep_push(out, ch, ns);
            assert(keep(out, ns).push(ch) + keep(s.skip(j), ns) =~= keep(out, ns) + (seq![ch]
                + keep(s.skip(i + 1), ns)));
        } else if !in_string && ch == ',' {
            let j = skip_spaces(s, i + 1);
            lemma_skip_spaces_keep(s, i + 1);
            let pushed = if j < s.len() && !(s[j] == ')' || s[j] == ';') {
                out.push(ch).push(' ')
            } else {
                out.push(ch)
            };
            lemma_normalize_keeps_text(s, j, in_string, pushed);
            lemma_keep_push(out, ch, ns);
            lemma_keep_push(out.push(ch), ' ', ns);
            assert(keep(pushed, ns) == keep(out, ns).push(ch));
            assert(keep(out, ns).push(ch) + keep(s.skip(j), ns) =~= keep(out, ns) + (seq![ch]
                + keep(s.skip(i + 1), ns)));
        } else {
            lemma_normalize_keeps_text(s, i + 1, in_string, out.push(ch));
            lemma_keep_push(out, ch, ns);
            if ch != ' ' {
                assert(keep(out, ns).push(ch) + keep(s.skip(i + 1), ns) =~= keep(out, ns) + (seq![ch]
                    + keep(s.skip(i + 1), ns)));
            } else {
                assert(keep(seq![ch], ns) + keep(s.skip(i + 1), ns) =~= keep(s.skip(i + 1), ns));
            }
        }
    }
}

proof fn lemma_collapse_keeps_text(s: Seq<char>, i: int, out: Seq<char>, in_string: bool, pending: bool)
    requires
        0 <= i <= s.len(),
    ensures
        keep(collapse_from(s, i, out, in_string, pending), not_ws()) == keep(out, not_ws()) + keep(
            s.skip(i),
            not_ws(),
        ),
    decreases s.len() - i,
{
    let nw = not_ws();
    if i >= s.len() {
        assert(s.skip(i) =~= Seq::<char>::empty());
        assert(keep(out, nw) + keep(s.skip(i), nw) =~= keep(out, nw));
    } else {
        let ch = s[i];
        lemma_keep_skip(s, i, nw);
        let sep = if pending && out.len() > 0 { out.push(' ') } else { out };
        lemma_keep_push(out, ' ', nw);
        assert(keep(sep, nw) == keep(out, nw));
        if ch == '\'' {
            lemma_collapse_keeps_text(s, i + 1, sep.push(ch), !in_string, false);
            lemma_keep_push(sep, ch, nw);
            assert(keep(out, nw).push(ch) + keep(s.skip(i + 1), nw) =~= keep(out, nw) + (seq![ch]
                + keep(s.skip(i + 1), nw)));
        } else if !in_string && is_ws(ch) {
            lemma_collapse_keeps_text(s, i + 1, out, in_string, true);
            assert(keep(seq![ch], nw) + keep(s.skip(i + 1), nw) =~= keep(s.skip(i + 1), nw));
        } else {
            lemma_collapse_keeps_text(s, i + 1, sep.push(ch), in_string, false);
            lemma_keep_push(sep, ch, nw);
            if !is_ws(ch) {
                assert(keep(out, nw).push(ch) + keep(s.skip(i + 1), nw) =~= keep(out, nw) + (seq![ch]
                    + keep(s.skip(i + 1), nw)));
            } else {
                assert(keep(seq![ch], nw) + keep(s.skip(i + 1), nw) =~= keep(s.skip(i + 1), nw));
            }
        }
    }
}

proof fn lemma_trim_keeps_text(s: Seq<char>)
    ensures
        keep(trim_seq(s), not_ws()) == keep(s, not_ws()),
{
    let nw = not_ws();
    lemma_skip_ws(s, 0);
    let a = skip_ws(s, 0);
    let t = trim_start_seq(s);
    assert(s =~= s.take(a) + t);
    lemma_keep_concat(s.take(a), t, nw);
    lemma_keep_none(s.take(a), nw);
    lemma_back_ws(t, t.len() as int);
    let b = back_ws(t, t.len() as int);
    assert(t =~= t.take(b) + t.skip(b));
    lemma_keep_concat(t.take(b), t.skip(b), nw);
    lemma_keep_none(t.skip(b), nw);
    assert(keep(s.take(a), nw) + keep(t, nw) =~= keep(t, nw));
    assert(keep(t.take(b), nw) + keep(t.skip(b), nw) =~= keep(t.take(b), nw));
}

/// Law: spacing normalization changes nothing but white space. The
/// characters of a line other than white space are all kept, in order.
pub proof fn law_normalization_changes_only_spacing(raw: Seq<char>)
    ensures
        keep(normalize_code(raw), not_ws()) == keep(raw, not_ws()),
{
    let t = trim_seq(raw);
    lemma_trim_keeps_text(raw);
    lemma_collapse_keeps_text(t, 0, seq![], false, false);
    assert(t.skip(0) =~= t);
    assert(keep(Seq::<char>::empty(), not_ws()) + keep(t, not_ws()) =~= keep(t, not_ws()));
    let c = collapse_spacing(t);
    if c.len() > 0 {
        lemma_normalize_keeps_text(c, 0, false, seq![]);
        assert(c.skip(0) =~= c);
        assert(keep(Seq::<char>::empty(), not_space()) + keep(c, not_space()) =~= keep(c, not_space()));
        lemma_keep_spaces_then_ws(normalize_from(c, 0, false, seq![]));
        lemma_keep_spaces_then_ws(c);
    }
}

// ---------------------------------------------------------------------------
// Spacing normalization keeps quoted text exactly
// ---------------------------------------------------------------------------

/// Whether `s` holds an odd number of single quotes.
pub open spec fn quote_parity(s: Seq<char>) -> bool
    decreases s.len(),
{
    if s.len() == 0 {
        false
    } else {
        (s[0] == '\'') != quote_parity(s.skip(1))
    }
}

/// The characters of `t` that stand inside single-quoted strings, in order,
/// when `t` starts inside a string exactly if `in_string`; the quotes
/// themselves are not counted.
pub open spec fn quoted_text(t: Seq<char>, in_string: bool) -> Seq<char>
    decreases t.len(),
{
    if t.len() == 0 {
        seq![]
    } else if t[0] == '\'' {
        quoted_text(t.skip(1), !in_string)
    } else if in_string {
        seq![t[0]] + quoted_text(t.skip(1), in_string)
    } else {
        quoted_text(t.skip(1), in_string)
    }
}

proof fn lemma_quotes_concat(a: Seq<char>, b: Seq<char>, st: bool)
    ensures
        quote_parity(a + b) == (quote_parity(a) != quote_parity(b)),
        quoted_text(a + b, st) == quoted_text(a, st) + quoted_text(b, st != quote_parity(a)),
    decreases a.len(),
{
    if a.len() == 0 {
        assert(a + b =~= b);
        assert(quoted_text(a, st) + quoted_text(b, st) =~= quoted_text(b, st));
    } else {
        assert((a + b)[0] == a[0]);
        assert((a + b).skip(1) =~= a.skip(1) + b);
        let st2 = if a[0] == '\'' { !st } else { st };
        lemma_quotes_concat(a.skip(1), b, st2);
        if a[0] != '\'' && st {
            assert(quoted_text(a + b, st) =~= quoted_text(a, st) + quoted_text(b, st != quote_parity(a)));
        }
    }
}

proof fn lemma_quotes_one(c: char, st: bool)
    ensures
        quote_parity(seq![c]) == (c == '\''),
        quoted_text(seq![c], st) == if c != '\'' && st {
            seq![c]
        } else {
            Seq::<char>::empty()
        },
{
    let one = seq![c];
    let e = Seq::<char>::empty();
    assert(one[0] == c);
    assert(one.skip(1) =~= e);
    assert(quote_parity(e) == false);
    assert(quoted_text(e, st) =~= e);
    assert(quoted_text(e, !st) =~= e);
    if c != '\'' && st {
        assert(quoted_text(one, st) =~= seq![c] + quoted_text(one.skip(1), st));
        assert(quoted_text(one, st) =~= seq![c]);
    }
}

/// Pushing `c` onto an output built so far.
proof fn lemma_quotes_push(out: Seq<char>, c: char)
    ensures
        quote_parity(out.push(c)) == (quote_parity(out) != (c == '\'')),
        quoted_text(out.push(c), false) == quoted_text(out, false) + (if c != '\'' && quote_parity(
            out,
        ) {
            seq![c]
        } else {
            Seq::<char>::empty()
        }),
{
    assert(out.push(c) =~= out + seq![c]);
    lemma_quotes_concat(out, seq![c], false);
    lemma_quotes_one(c, quote_parity(out));
}

/// Reading `s` from `i` is reading `s[i]`, then the rest.
proof fn lemma_quotes_skip(s: Seq<char>, i: int, st: bool)
    requires
        0 <= i < s.len(),
    ensures
        quoted_text(s.skip(i), st) == (if s[i] != '\'' && st {
            seq![s[i]]
        } else {
            Seq::<char>::empty()
        }) + quoted_text(s.skip(i + 1), st != (s[i] == '\'')),
{
    assert(s.skip(i) =~= seq![s[i]] + s.skip(i + 1));
    lemma_quotes_concat(seq![s[i]], s.skip(i + 1), st);
    lemma_quotes_one(s[i], st);
}

proof fn lemma_skip_spaces_quotes(s: Seq<char>, i: int)
    requires
        0 <= i <= s.len(),
    ensures
        quoted_text(s.skip(i), false) == quoted_text(s.skip(skip_spaces(s, i)), false),
    decreases s.len() - i,
{
    if i < s.len() && s[i] == ' ' {
        lemma_quotes_skip(s, i, false);
        lemma_skip_spaces_quotes(s, i + 1);
        assert(Seq::<char>::empty() + quoted_text(s.skip(i + 1), false) =~= quoted_text(
            s.skip(i + 1),
            false,
        ));
    }
}

proof fn lemma_normalize_keeps_quotes(s: Seq<char>, i: int, in_string: bool, out: Seq<char>)
    requires
        0 <= i <= s.len(),
        quote_parity(out) == in_string,
    ensures
        quoted_text(normalize_from(s, i, in_string, out), false) == quoted_text(out, false)
            + quoted_text(s.skip(i), in_string),
    decreases s.len() - i,
{
    let e = Seq::<char>::empty();
    if i >= s.len() {
        assert(s.skip(i) =~= e);
        assert(quoted_text(out, false) + quoted_text(s.skip(i), in_string) =~= quoted_text(out, false));
    } else {
        let ch = s[i];
        lemma_quotes_skip(s, i, in_string);
        lemma_skip_spaces(s, i + 1);
        lemma_quotes_push(out, ch);
        if ch == '\'' {
            lemma_normalize_keeps_quotes(s, i + 1, !in_string, out.push(ch));
            assert(quoted_text(out, false) + e =~= quoted_text(out, false));
            assert(e + quoted_text(s.skip(i + 1), !in_string) =~= quoted_text(s.skip(i + 1), !in_string));
        } else if !in_string && ch == ' ' && i + 1 < s.len() && (s[i + 1] == ',' || s[i + 1] == ';'
            || s[i + 1] == ')') {
            lemma_normalize_keeps_quotes(s, i + 1, in_string, out);
            assert(e + quoted_text(s.skip(i + 1), in_string) =~= quoted_text(s.skip(i + 1), in_string));
        } else if !in_string && ch == ' ' && i + 1 < s.len() && s[i + 1] == '('
            && drops_space_before_paren(out) {
            lemma_normalize_keeps_quotes(s, i + 1, in_string, out);
            assert(e + quoted_text(s.skip(i + 1), in_string) =~= quoted_text(s.skip(i + 1), in_string));
        } else if !in_string && ch == '(' {
            let j = skip_spaces(s, i + 1);
            lemma_skip_spaces_quotes(s, i + 1);
            lemma_normalize_keeps_quotes(s, j, in_string, out.push(ch));
            assert(quoted_text(out, false) + e =~= quoted_text(out, false));
            assert(e + quoted_text(s.skip(i + 1), false) =~= quoted_text(s.skip(i + 1), false));
        } else if !in_string && ch == ',' {
            let j = skip_spaces(s, i + 1);
            lemma_skip_spaces_quotes(s, i + 1);
            let pushed = if j < s.len() && !(s[j] == ')' || s[j] == ';') {
                out.push(ch).push(' ')
            } else {
                out.push(ch)
            };
            lemma_quotes_push(out.push(ch), ' ');
            assert(quoted_text(out, false) + e =~= quoted_text(out, false));
            assert(quoted_text(pushed, false) == quoted_text(out, false));
            assert(quote_parity(pushed) == in_string);
            lemma_normalize_keeps_quotes(s, j, in_string, pushed);
            assert(e + quoted_text(s.skip(i + 1), false) =~= quoted_text(s.skip(i + 1), false));
        } else {
            lemma_normalize_keeps_quotes(s, i + 1, in_string, out.push(ch));
            if in_string {
                assert((quoted_text(out, false) + seq![ch]) + quoted_text(s.skip(i + 1), in_string)
                    =~= quoted_text(out, false) + (seq![ch] + quoted_text(s.skip(i + 1), in_string)));
            } else {
                assert(quoted_text(out, false) + e =~= quoted_text(out, false));
                assert(e + quoted_text(s.skip(i + 1), in_string) =~= quoted_text(s.skip(i + 1), in_string));
            }
        }
    }
}

proof fn lemma_collapse_keeps_quotes(s: Seq<char>, i: int, out: Seq<char>, in_string: bool, pending: bool)
    requires
        0 <= i <= s.len(),
        quote_parity(out) == in_string,
        pending ==> !in_string,
    ensures
        quoted_text(collapse_from(s, i, out, in_string, pending), false) == quoted_text(out, false)
            + quoted_text(s.skip(i), in_string),
    decreases s.len() - i,
{
    let e = Seq::<char>::empty();
    if i >= s.len() {
        assert(s.skip(i) =~= e);
        assert(quoted_text(out, false) + quoted_text(s.skip(i), in_string) =~= quoted_text(out, false));
    } else {
        let ch = s[i];
        lemma_quotes_skip(s, i, in_string);
        let sep = if pending && out.len() > 0 { out.push(' ') } else { out };
        lemma_quotes_push(out, ' ');
        assert(quoted_text(out, false) + e =~= quoted_text(out, false));
        assert(quoted_text(sep, false) == quoted_text(out, false));
        assert(quote_parity(sep) == in_string);
        lemma_quotes_push(sep, ch);
        if ch == '\'' {
            lemma_collapse_keeps_quotes(s, i + 1, sep.push(ch), !in_string, false);
            assert(e + quoted_text(s.skip(i + 1), !in_string) =~= quoted_text(s.skip(i + 1), !in_string));
        } else if !in_string && is_ws(ch) {
            lemma_collapse_keeps_quotes(s, i + 1, out, in_string, true);
            assert(e + quoted_text(s.skip(i + 1), in_string) =~= quoted_text(s.skip(i + 1), in_string));
        } else {
            lemma_collapse_keeps_quotes(s, i + 1, sep.push(ch), in_string, false);
            if in_string {
                assert((quoted_text(out, false) + seq![ch]) + quoted_text(s.skip(i + 1), in_string)
                    =~= quoted_text(out, false) + (seq![ch] + quoted_text(s.skip(i + 1), in_string)));
            } else {
                assert(e + quoted_text(s.skip(i + 1), in_string) =~= quoted_text(s.skip(i + 1), in_string));
            }
        }
    }
}

/// Law: spacing normalization leaves the text inside single-quoted strings
/// exactly as it was: the characters inside quotes of the trimmed line, in
/// order, are those inside quotes of the normalized line.
pub proof fn law_normalization_keeps_quoted_text(raw: Seq<char>)
    ensures
        quoted_text(normalize_code(raw), false) == quoted_text(trim_seq(raw), false),
{
    let t = trim_seq(raw);
    let e = Seq::<char>::empty();
    assert(quote_parity(e) == false);
    lemma_collapse_keeps_quotes(t, 0, seq![], false, false);
    assert(t.skip(0) =~= t);
    assert(quoted_text(e, false) =~= e);
    assert(e + quoted_text(t, false) =~= quoted_text(t, false));
    let c = collapse_spacing(t);
    if c.len() > 0 {
        lemma_normalize_keeps_quotes(c, 0, false, seq![]);
        assert(c.skip(0) =~= c);
        assert(e + quoted_text(c, false) =~= quoted_text(c, false));
    }
}

fn skip_space_chars(s: &Vec<char>, i: usize) -> (j: usize)
    requires
        i <= s.len(),
    ensures
        j == skip_spaces(s@, i as int),
        i <= j <= s.len(),
{
    let mut j = i;
    while j < s.len() && s[j] == ' '
        invariant
            i <= j <= s.len(),
            skip_spaces(s@, j as int) == skip_spaces(s@, i as int),
        decreases s.len() - j,
    {
        j = j + 1;
    }
    j
}

fn normalize_code_line(raw: &Vec<char>) -> (r: Vec<char>)
    ensures
        r@ == normalize_code(raw@),
{
    let t = trim(raw);
    let chars = collapse_spacing_outside_strings(&t);
    if chars.len() == 0 {
        return chars;
    }
    let mut out: Vec<char> = Vec::new();
    let mut in_string = false;
    let mut i: usize = 0;
    while i < chars.len()
        invariant
            i <= chars.len(),
            normalize_from(chars@, i as int, in_string, out@) == normalize_code(raw@),
        decreases chars.len() - i,
    {
        let ch = chars[i];
        if ch == '\'' {
            in_string = !in_string;
            out.push(ch);
            i = i + 1;
            continue;
        }
        if !in_string && ch == ' ' && i + 1 < chars.len() {
            let next = chars[i + 1];
            if next == ',' || next == ';' || next == ')' {
                i = i + 1;
                continue;
            }
            if next == '(' && remove_space_before_paren(&out) {
                i = i + 1;
                continue;
            }
        }
        if !in_string && ch == '(' {
            out.push(ch);
            i = skip_space_chars(&chars, i + 1);
            continue;
        }
        if !in_string && ch == ',' {
            out.push(ch);
            i = skip_space_chars(&chars, i + 1);
            if i < chars.len() && !(chars[i] == ')' || chars[i] == ';') {
                out.push(' ');
            }
            continue;
        }
        out.push(ch);
        i = i + 1;
    }
    out
}

// ---------------------------------------------------------------------------
// Formatting: declarations
// ---------------------------------------------------------------------------

/// The parts of `DCL <name> CHAR(<n>)...` or `<level> <name> CHAR(<n>)...`
/// that the rewrite uses: the name and the type part, if the line has that
/// shape with a non-empty decimal dimension and nothing but `;` or `,` after
/// the closing parenthesis.
pub open spec fn char_dim_of(parts: Seq<Seq<char>>) -> Option<(Seq<char>, Seq<char>)> {
    if parts.len() < 3 {
        None
    } else if lower_seq(parts[0]) == "dcl"@ && parse_u32_seq(parts[1]) is Some {
        None
    } else if !(lower_seq(parts[0]) == "dcl"@ || parse_u32_seq(parts[0]) is Some) {
        None
    } else {
        let ty = parts[2];
        let up = upper_seq(ty);
        if !starts_with(up, "CHAR("@) {
            None
        } else {
            let dim_start = up.skip(5);
            match find(dim_start, ')') {
                None => None,
                Some(close) => {
                    let dim = dim_start.take(close);
                    let suffix = ty.skip(5 + close + 1);
                    if dim.len() == 0 || !all_digits(dim) {
                        None
                    } else if !(suffix == ""@ || suffix == ";"@ || suffix == ","@) {
                        None
                    } else if contains_char(parts[1], '(') {
                        None
                    } else {
                        Some((dim, suffix))
                    }
                },
            }
        }
    }
}

/// A declaration line with `NAME CHAR(n)` rewritten to `NAME(n) CHAR`; other
/// lines (and any line with a quote) unchanged.
pub open spec fn normalize_declaration(line: Seq<char>) -> Seq<char> {
    if contains_char(line, '\'') {
        line
    } else {
        let parts = split_char_seq(line, ' ');
        match char_dim_of(parts) {
            None => line,
            Some(ds) => join_seq(
                parts.update(1, parts[1] + "("@ + ds.0 + ")"@).update(2, "CHAR"@ + ds.1),
                " "@,
            ),
        }
    }
}

fn normalize_declaration_line(line: &Vec<char>) -> (r: Vec<char>)
    ensures
        r@ == normalize_declaration(line@),
{
    if has_char(line, '\'') {
        return copy(line);
    }
    let parts = split_char(line, ' ');
    let ghost ps = split_char_seq(line@, ' ');
    assert(vecs(parts@) == ps);
    if parts.len() < 3 {
        assert(char_dim_of(ps) is None);
        return copy(line);
    }
    assert(ps[0] == parts@[0]@ && ps[1] == parts@[1]@ && ps[2] == parts@[2]@);
    let dcl = chars_of("dcl");
    let first = to_lower(&parts[0]);
    let is_dcl = seq_eq(&first, &dcl);
    if is_dcl {
        if parse_u32(&parts[1]).is_some() {
            assert(char_dim_of(ps) is None);
            return copy(line);
        }
    } else if parse_u32(&parts[0]).is_none() {
        assert(char_dim_of(ps) is None);
        return copy(line);
    }
    let ty = &parts[2];
    let up = to_upper(ty);
    if !has_prefix(&up, &chars_of("CHAR(")) {
        assert(char_dim_of(ps) is None);
        return copy(line);
    }
    proof {
        reveal_strlit("CHAR(");
    }
    let dim_start = subrange(&up, 5, up.len());
    proof {
        lemma_find(dim_start@, ')');
    }
    let close = match find_char(&dim_start, ')') {
        Some(c) => c,
        None => {
            assert(char_dim_of(ps) is None);
            return copy(line);
        },
    };
    let dim = subrange(&dim_start, 0, close);
    assert(up@.len() == ty@.len());
    let suffix = subrange(ty, 5 + close + 1, ty.len());
    assert(suffix@ == ps[2].skip(5 + close + 1));
    assert(dim@ == up@.skip(5).take(close as int));
    if dim.len() == 0 || !all_digit_chars(&dim) {
        assert(char_dim_of(ps) is None);
        return copy(line);
    }
    if !(suffix.len() == 0 || seq_eq(&suffix, &chars_of(";")) || seq_eq(&suffix, &chars_of(","))) {
        proof {
            reveal_strlit("");
        }
        assert(char_dim_of(ps) is None);
        return copy(line);
    }
    proof {
        reveal_strlit("");
    }
    if has_char(&parts[1], '(') {
        assert(char_dim_of(ps) is None);
        return copy(line);
    }
    assert(ps.len() >= 3);
    assert(!(lower_seq(ps[0]) == "dcl"@ && parse_u32_seq(ps[1]) is Some));
    assert(lower_seq(ps[0]) == "dcl"@ || parse_u32_seq(ps[0]) is Some);
    assert(starts_with(upper_seq(ps[2]), "CHAR("@));
    assert(find(upper_seq(ps[2]).skip(5), ')') == Some(close as int));
    assert(suffix@ == ""@ || suffix@ == ";"@ || suffix@ == ","@);
    assert(!contains_char(ps[1], '('));
    assert(char_dim_of(ps) == Some((dim@, suffix@)));
    let mut name = copy(&parts[1]);
    name.push('(');
    push_all(&mut name, &dim);
    name.push(')');
    let mut char_ty = chars_of("CHAR");
    push_all(&mut char_ty, &suffix);
    let mut normalized: Vec<Vec<char>> = Vec::new();
    let mut k: usize = 0;
    let ghost target = ps.update(1, ps[1] + "("@ + dim@ + ")"@).update(2, "CHAR"@ + suffix@);
    proof {
        reveal_strlit("(");
        reveal_strlit(")");
    }
    assert(name@ =~= ps[1] + "("@ + dim@ + ")"@);
    while k < parts.len()
        invariant
            k <= parts.len(),
            parts@.len() >= 3,
            vecs(parts@) == ps,
            name@ == target[1],
            char_ty@ == target[2],
            target.len() == ps.len(),
            forall|m: int| 0 <= m < ps.len() && m != 1 && m != 2 ==> target[m] == ps[m],
            vecs(normalized@) == target.take(k as int),
        decreases parts.len() - k,
    {
        let ghost before = vecs(normalized@);
        if k == 1 {
            normalized.push(copy(&name));
        } else if k == 2 {
            normalized.push(copy(&char_ty));
        } else {
            normalized.push(copy(&parts[k]));
            assert(parts@[k as int]@ == ps[k as int]);
        }
        assert(vecs(normalized@) =~= before.push(target[k as int]));
        k = k + 1;
        assert(target.take(k as int) =~= target.take(k - 1).push(target[k - 1]));
    }
    assert(target.take(k as int) =~= target);
    join(&normalized, &chars_of(" "))
}

fn all_digit_chars(s: &Vec<char>) -> (r: bool)
    ensures
        r == all_digits(s@),
{
    let mut i: usize = 0;
    while i < s.len()
        invariant
            i <= s.len(),
            forall|k: int| 0 <= k < i ==> is_digit(s@[k]),
        decreases s.len() - i,
    {
        if !is_ascii_digit(s[i]) {
            return false;
        }
        i = i + 1;
    }
    true
}

/// The whitespace-separated token that starts at or after `i`, as a
/// (start, end) pair.
pub open spec fn token_from(s: Seq<char>, i: int) -> Option<(int, int)> {
    let a = skip_ws(s, i);
    if a >= s.len() {
        None
    } else {
        Some((a, find_ws_from(s, a)))
    }
}

fn next_token(s: &Vec<char>, i: usize) -> (r: Option<(usize, usize)>)
    requires
        i <= s.len(),
    ensures
        match r {
            Some(t) => token_from(s@, i as int) == Some((t.0 as int, t.1 as int)) && i <= t.0 < t.1
                <= s.len(),
            None => token_from(s@, i as int) is None,
        },
{
    let mut a = i;
    while a < s.len() && is_whitespace(s[a])
        invariant
            i <= a <= s.len(),
            skip_ws(s@, a as int) == skip_ws(s@, i as int),
        decreases s.len() - a,
    {
        a = a + 1;
    }
    if a >= s.len() {
        return None;
    }
    let mut b = a;
    while b < s.len() && !is_whitespace(s[b])
        invariant
            a <= b <= s.len(),
            a < s.len(),
            !is_ws(s@[a as int]),
            find_ws_from(s@, b as int) == find_ws_from(s@, a as int),
        decreases s.len() - b,
    {
        b = b + 1;
    }
    Some((a, b))
}

/// The level number that a line starts with.
pub open spec fn leading_level_of(line: Seq<char>) -> Option<u32> {
    match token_from(line, 0) {
        None => None,
        Some(t) => parse_u32_seq(line.subrange(t.0, t.1)),
    }
}

/// The level of a `DCL <level> ...` line.
pub open spec fn record_dcl_level(line: Seq<char>) -> Option<u32> {
    match token_from(line, 0) {
        None => None,
        Some(t) => if lower_seq(line.subrange(t.0, t.1)) != "dcl"@ {
            None
        } else {
            match token_from(line, t.1) {
                None => None,
                Some(u) => parse_u32_seq(line.subrange(u.0, u.1)),
            }
        },
    }
}

fn leading_level(line: &Vec<char>) -> (r: Option<u32>)
    ensures
        r == leading_level_of(line@),
{
    match next_token(line, 0) {
        None => None,
        Some(t) => parse_u32(&subrange(line, t.0, t.1)),
    }
}

fn record_dcl_start(line: &Vec<char>) -> (r: Option<u32>)
    ensures
        r == record_dcl_level(line@),
{
    match next_token(line, 0) {
        None => None,
        Some(t) => {
            let w = subrange(line, t.0, t.1);
            if !seq_eq(&to_lower(&w), &chars_of("dcl")) {
                return None;
            }
            match next_token(line, t.1) {
                None => None,
                Some(u) => parse_u32(&subrange(line, u.0, u.1)),
            }
        },
    }
}

/// Whether an (uppercased) line opens an indented block.
pub open spec fn opens_block_spec(u: Seq<char>) -> bool {
    ||| starts_with(u, "SELECT;"@)
    ||| starts_with(u, "MACRODEF "@)
    ||| starts_with(u, "GEN DO;"@)
    ||| starts_with(u, "ASM DO;"@)
    ||| (contains_sub(u, " PROC"@) && ends_with(u, ";"@))
    ||| starts_with(u, "PROC "@)
    ||| ends_with(u, " THEN DO;"@)
    ||| starts_with(u, "ELSE DO;"@)
    ||| starts_with(u, "DO WHILE "@)
    ||| (starts_with(u, "DO "@) && ends_with(u, ";"@))
    ||| (starts_with(u, "WHEN "@) && ends_with(u, " DO;"@))
    ||| starts_with(u, "OTHERWISE DO;"@)
}

fn opens_block(u: &Vec<char>) -> (r: bool)
    ensures
        r == opens_block_spec(u@),
{
    has_prefix(u, &chars_of("SELECT;")) || has_prefix(u, &chars_of("MACRODEF ")) || has_prefix(
        u,
        &chars_of("GEN DO;"),
    ) || has_prefix(u, &chars_of("ASM DO;")) || (has_substring(u, &chars_of(" PROC")) && has_suffix(
        u,
        &chars_of(";"),
    )) || has_prefix(u, &chars_of("PROC ")) || has_suffix(u, &chars_of(" THEN DO;")) || has_prefix(
        u,
        &chars_of("ELSE DO;"),
    ) || has_prefix(u, &chars_of("DO WHILE ")) || (has_prefix(u, &chars_of("DO ")) && has_suffix(
        u,
        &chars_of(";"),
    )) || (has_prefix(u, &chars_of("WHEN ")) && has_suffix(u, &chars_of(" DO;"))) || has_prefix(
        u,
        &chars_of("OTHERWISE DO;"),
    )
}

// ---------------------------------------------------------------------------
// Formatting: indentation
// ---------------------------------------------------------------------------

/// The formatter's state between lines: the lines written, the block depth,
/// the indentation for the continuation lines of a `DCL`, and the base
/// indentation and level of a multi-line `DCL` record.
pub struct FmtState {
    pub out: Seq<Seq<char>>,
    pub indent: nat,
    pub dcl: Option<nat>,
    pub record: Option<(nat, u32)>,
}

/// `n` levels of four spaces.
pub open spec fn spaces(n: nat) -> Seq<char> {
    Seq::new(4 * n, |k: int| ' ')
}

/// The indentation of a non-empty line, before `END` handling: inside a
/// record, the record's base plus half the level above the record's level;
/// otherwise the `DCL` continuation indentation or the block depth.
pub open spec fn line_indent(st: FmtState, line: Seq<char>) -> nat {
    let by_level = match st.record {
        Some(r) => match leading_level_of(line) {
            Some(level) => Some(r.0 + ((if level >= r.1 { level - r.1 } else { 0 }) / 2) as nat),
            None => None,
        },
        None => None,
    };
    match by_level {
        Some(x) => x,
        None => match st.dcl {
            Some(d) => d,
            None => st.indent,
        },
    }
}

/// Formats one more source line.
pub open spec fn fmt_step(st: FmtState, raw: Seq<char>) -> FmtState {
    let line = normalize_declaration(normalize_code(raw));
    if line.len() == 0 {
        FmtState { out: st.out.push(seq![]), ..st }
    } else {
        let upper = upper_seq(line);
        let is_end = starts_with(upper, "END"@);
        let indent = if is_end { if st.indent > 0 { (st.indent - 1) as nat } else { 0 } } else { st.indent };
        let li = if is_end { indent } else { line_indent(st, line) };
        let dcl = if is_end { None } else { st.dcl };
        let record = if is_end { None } else { st.record };
        let out = st.out.push(spaces(li) + line);
        if record_dcl_level(line) is Some && ends_with(line, ","@) {
            FmtState {
                out,
                indent,
                dcl: Some(indent + 1),
                record: Some((indent, record_dcl_level(line).unwrap())),
            }
        } else if starts_with(upper, "DCL "@) && ends_with(line, ","@) {
            FmtState { out, indent, dcl: Some(indent + 1), record }
        } else if dcl is Some {
            if ends_with(line, ";"@) {
                FmtState { out, indent, dcl: None, record: None }
            } else {
                FmtState { out, indent, dcl, record }
            }
        } else if opens_block_spec(upper) {
            FmtState { out, indent: indent + 1, dcl, record }
        } else {
            FmtState { out, indent, dcl, record }
        }
    }
}

/// The state after the first `k` lines.
pub open spec fn fmt_fold(lines: Seq<Seq<char>>, k: int) -> FmtState
    decreases k,
{
    if k <= 0 || k > lines.len() {
        FmtState { out: seq![], indent: 0, dcl: None, record: None }
    } else {
        fmt_step(fmt_fold(lines, k - 1), lines[k - 1])
    }
}

/// The formatted text: each line normalized and indented by block depth, the
/// lines joined with newlines, and a final newline kept.
pub open spec fn format_spec(source: Seq<char>) -> Seq<char> {
    let lines = lines_seq(source);
    let joined = join_seq(fmt_fold(lines, lines.len() as int).out, seq!['\n']);
    if source.len() > 0 && source.last() == '\n' {
        joined.push('\n')
    } else {
        joined
    }
}

/// `line` is `text` behind nothing but spaces.
pub open spec fn indented(line: Seq<char>, text: Seq<char>) -> bool {
    let pad = line.len() - text.len();
    &&& pad >= 0
    &&& line.skip(pad) == text
    &&& forall|k: int| 0 <= k < pad ==> #[trigger] line[k] == ' '
}

/// The text a source line is formatted to, before indentation.
pub open spec fn normalized_line(raw: Seq<char>) -> Seq<char> {
    normalize_declaration(normalize_code(raw))
}

#[verifier::spinoff_prover]
#[verifier::rlimit(40)]
proof fn lemma_fmt_fold_lines(lines: Seq<Seq<char>>, k: int)
    requires
        0 <= k <= lines.len(),
    ensures
        fmt_fold(lines, k).out.len() == k,
        forall|i: int| 0 <= i < k ==> indented(#[trigger] fmt_fold(lines, k).out[i], normalized_line(lines[i])),
    decreases k,
{
    if k > 0 {
        lemma_fmt_fold_lines(lines, k - 1);
        let prev = fmt_fold(lines, k - 1);
        let st = fmt_fold(lines, k);
        let line = normalized_line(lines[k - 1]);
        assert(st == fmt_step(prev, lines[k - 1]));
        assert(st.out.len() == k);
        assert forall|i: int| 0 <= i < k implies indented(#[trigger] st.out[i], normalized_line(lines[i])) by {
            if i < k - 1 {
                assert(st.out[i] == prev.out[i]);
            } else {
                let o = st.out[i];
                if line.len() == 0 {
                    assert(o =~= Seq::<char>::empty());
                    assert(o.skip(0) =~= line);
                } else {
                    let n = (o.len() - line.len()) as nat;
                    assert(o.skip(n as int) =~= line);
                    assert forall|m: int| 0 <= m < n implies #[trigger] o[m] == ' ' by {
                        assert(o =~= spaces((n / 4) as nat) + line);
                    }
                }
            }
        }
    }
}

/// Law: the lines that open a block. Outside a declaration, a formatted line
/// that (upper-cased) starts with `SELECT;`, `MACRODEF `, `GEN DO;`,
/// `ASM DO;`, `ELSE DO;`, `OTHERWISE DO;`, `DO WHILE ` or `PROC `, ends with
/// ` THEN DO;`, is a `WHEN ... DO;` or a counted `DO ...;`, or holds ` PROC`
/// and ends with `;`, is written at the current depth and makes every line
/// after it one level (four spaces) deeper, until its `END`.
pub proof fn law_block_openers_indent_what_follows(st: FmtState, raw: Seq<char>)
    requires
        st.dcl is None,
        st.record is None,
        ({
            let line = normalized_line(raw);
            let u = upper_seq(line);
            &&& line.len() > 0
            &&& !ends_with(line, ","@)
            &&& !starts_with(u, "END"@)
            &&& {
                ||| starts_with(u, "SELECT;"@)
                ||| starts_with(u, "MACRODEF "@)
                ||| starts_with(u, "GEN DO;"@)
                ||| starts_with(u, "ASM DO;"@)
                ||| starts_with(u, "ELSE DO;"@)
                ||| starts_with(u, "OTHERWISE DO;"@)
                ||| starts_with(u, "DO WHILE "@)
                ||| starts_with(u, "PROC "@)
                ||| ends_with(u, " THEN DO;"@)
                ||| (starts_with(u, "WHEN "@) && ends_with(u, " DO;"@))
                ||| (starts_with(u, "DO "@) && ends_with(u, ";"@))
                ||| (contains_sub(u, " PROC"@) && ends_with(u, ";"@))
            }
        }),
    ensures
        fmt_step(st, raw).indent == st.indent + 1,
        fmt_step(st, raw).out == st.out.push(spaces(st.indent) + normalized_line(raw)),
        fmt_step(st, raw).dcl is None,
{
}

/// Law: formatting is line based. The formatted text is one line per
/// source line, joined with newlines (and ending in one when the source
/// does), and each of those lines is the source line's normalized text
/// behind nothing but spaces.
pub proof fn law_format_is_line_based(source: Seq<char>)
    ensures
        ({
            let lines = lines_seq(source);
            let out = fmt_fold(lines, lines.len() as int).out;
            &&& out.len() == lines.len()
            &&& forall|i: int| 0 <= i < out.len() ==> indented(#[trigger] out[i], normalized_line(lines[i]))
            &&& format_spec(source) == if source.len() > 0 && source.last() == '\n' {
                join_seq(out, seq!['\n']).push('\n')
            } else {
                join_seq(out, seq!['\n'])
            }
        }),
{
    let lines = lines_seq(source);
    lemma_fmt_fold_lines(lines, lines.len() as int);
}

pub open spec fn opt_nat(o: Option<usize>) -> Option<nat> {
    match o {
        Some(x) => Some(x as nat),
        None => None,
    }
}

pub open spec fn opt_record(o: Option<(usize, u32)>) -> Option<(nat, u32)> {
    match o {
        Some(r) => Some((r.0 as nat, r.1)),
        None => None,
    }
}

/// Formats a whole PL/SW or macro source.
pub fn format_source(source: &str) -> (r: String)
    requires
        source@.len() <= isize::MAX,
    ensures
        r@ == format_spec(source@),
{
    let src = chars_of(source);
    let lines = lines(&src);
    let ghost ls = lines_seq(source@);
    assert(vecs(lines@) =~= ls);
    proof {
        lemma_lines_count(source@, 0);
    }
    let mut out: Vec<Vec<char>> = Vec::new();
    let mut indent: usize = 0;
    let mut dcl: Option<usize> = None;
    let mut record: Option<(usize, u32)> = None;
    let mut n: usize = 0;
    assert(vecs(out@) =~= seq![]);
    while n < lines.len()
        invariant
            n <= lines.len(),
            lines.len() <= isize::MAX,
            vecs(lines@) == ls,
            indent <= n,
            dcl matches Some(d) ==> d <= n + 1,
            record matches Some(r) ==> r.0 <= n,
            ({
                let st = fmt_fold(ls, n as int);
                &&& vecs(out@) == st.out
                &&& indent == st.indent
                &&& opt_nat(dcl) == st.dcl
                &&& opt_record(record) == st.record
            }),
        decreases lines.len() - n,
    {
        let ghost st = fmt_fold(ls, n as int);
        assert(ls[n as int] == lines@[n as int]@);
        assert(fmt_fold(ls, n + 1) == fmt_step(st, ls[n as int]));
        let code = normalize_code_line(&lines[n]);
        let line = normalize_declaration_line(&code);
        if line.len() == 0 {
            let ghost before = vecs(out@);
            out.push(Vec::new());
            assert(vecs(out@) =~= before.push(seq![]));
            n = n + 1;
            continue;
        }
        let upper = to_upper(&line);
        // Indentation from the record level, the DCL continuation, or depth.
        let mut line_ind: usize = indent;
        match dcl {
            Some(d) => {
                line_ind = d;
            },
            None => {},
        }
        match record {
            Some(r) => {
                match leading_level(&line) {
                    Some(level) => {
                        let diff: u32 = if level >= r.1 { level - r.1 } else { 0 };
                        let depth: u32 = diff / 2;
                        line_ind = r.0 + depth as usize;
                    },
                    None => {},
                }
            },
            None => {},
        }
        assert(line_ind == line_indent(st, line@));
        let is_end = has_prefix(&upper, &chars_of("END"));
        if is_end {
            if indent > 0 {
                indent = indent - 1;
            }
            line_ind = indent;
            dcl = None;
            record = None;
        }
        let mut text: Vec<char> = Vec::new();
        let mut k: usize = 0;
        while k < line_ind
            invariant
                k <= line_ind,
                text@ =~= spaces(k as nat),
            decreases line_ind - k,
        {
            text.push(' ');
            text.push(' ');
            text.push(' ');
            text.push(' ');
            k = k + 1;
        }
        push_all(&mut text, &line);
        let ghost before = vecs(out@);
        out.push(text);
        assert(vecs(out@) =~= before.push(spaces(line_ind as nat) + line@));
        let ends_comma = has_suffix(&line, &chars_of(","));
        let ends_semi = has_suffix(&line, &chars_of(";"));
        let rec_level = record_dcl_start(&line);
        if rec_level.is_some() && ends_comma {
            record = Some((indent, rec_level.unwrap()));
            dcl = Some(indent + 1);
        } else if has_prefix(&upper, &chars_of("DCL ")) && ends_comma {
            dcl = Some(indent + 1);
        } else if dcl.is_some() {
            if ends_semi {
                dcl = None;
                record = None;
            }
        } else if opens_block(&upper) {
            indent = indent + 1;
        }
        n = n + 1;
    }
    let nl = chars_of("\n");
    proof {
        reveal_strlit("\n");
    }
    assert(nl@ =~= seq!['\n']);
    let joined = join(&out, &nl);
    let mut result = joined;
    if src.len() > 0 && src[src.len() - 1] == '\n' {
        result.push('\n');
    }
    string_of(&result)
}


// ---------------------------------------------------------------------------
// Source triggers in macro editors
// ---------------------------------------------------------------------------

proof fn lemma_first_template_concat(a: Seq<TemplateModel>, b: Seq<TemplateModel>, trigger: Seq<char>)
    ensures
        first_template(a + b, trigger) == match first_template(a, trigger) {
            Some(t) => Some(t),
            None => first_template(b, trigger),
        },
    decreases a.len(),
{
    if a.len() == 0 {
        assert(a + b =~= b);
    } else {
        assert((a + b).drop_first() =~= a.drop_first() + b);
        lemma_first_template_concat(a.drop_first(), b, trigger);
    }
}

proof fn lemma_first_template_found(ts: Seq<TemplateModel>, trigger: Seq<char>)
    requires
        first_template(ts, trigger) is Some,
    ensures
        exists|i: int| 0 <= i < ts.len() && #[trigger] ts[i].0 == trigger,
    decreases ts.len(),
{
    if ts[0].0 != trigger {
        lemma_first_template_found(ts.drop_first(), trigger);
        let i = choose|i: int| 0 <= i < ts.len() - 1 && #[trigger] ts.drop_first()[i].0 == trigger;
        assert(ts[i + 1].0 == trigger);
    }
}

proof fn lemma_first_template_absent(ts: Seq<TemplateModel>, trigger: Seq<char>)
    requires
        forall|i: int| 0 <= i < ts.len() ==> #[trigger] ts[i].0 != trigger,
    ensures
        first_template(ts, trigger) is None,
    decreases ts.len(),
{
    if ts.len() > 0 {
        assert forall|i: int| 0 <= i < ts.len() - 1 implies #[trigger] ts.drop_first()[i].0
            != trigger by {
            assert(ts.drop_first()[i] == ts[i + 1]);
        }
        lemma_first_template_absent(ts.drop_first(), trigger);
    }
}

/// No macro-file trigger is also a source trigger.
proof fn lemma_macro_triggers_are_not_source_triggers(trigger: Seq<char>)
    requires
        first_template(macro_templates(), trigger) is Some,
    ensures
        first_template(source_templates(), trigger) is None,
{
    reveal_strlit("IF");
    reveal_strlit("IFS");
    reveal_strlit("DW");
    reveal_strlit("DO");
    reveal_strlit("SEL");
    reveal_strlit("WHEN");
    reveal_strlit("DCL");
    reveal_strlit("REC");
    reveal_strlit("BASED");
    reveal_strlit("P");
    reveal_strlit("PR");
    reveal_strlit("NAK");
    reveal_strlit("ASM");
    reveal_strlit("CALL");
    reveal_strlit("RET");
    reveal_strlit("RETV");
    reveal_strlit("G");
    reveal_strlit("MD");
    reveal_strlit("REQ");
    reveal_strlit("OPT");
    reveal_strlit("GEN");
    reveal_strlit("INC");
    reveal_strlit("INV");
    lemma_first_template_found(macro_templates(), trigger);
    let k = choose|i: int| 0 <= i < macro_templates().len() && #[trigger] macro_templates()[i].0
        == trigger;
    let m = macro_templates();
    let s = source_templates();
    assert forall|j: int| 0 <= j < s.len() implies #[trigger] s[j].0 != trigger by {
        assert(trigger.len() >= 2);
        assert(trigger[0] == m[k].0[0]);
        assert(trigger[1] == m[k].0[1]);
        if s[j].0 == trigger {
            assert(s[j].0.len() == trigger.len());
            assert(s[j].0[0] == trigger[0]);
            assert(s[j].0[1] == trigger[1]);
            if trigger.len() > 2 {
                assert(s[j].0[2] == trigger[2]);
                assert(trigger[2] == m[k].0[2]);
            }
        }
    }
    lemma_first_template_absent(s, trigger);
}

/// Law: a macro editor expands every source trigger to the same template as
/// a source editor does.
pub proof fn law_macro_editors_expand_source_triggers(trigger: Seq<char>)
    requires
        first_template(source_templates(), trigger) is Some,
    ensures
        first_template(expansion_templates_spec(PlEditLanguage::Macro), trigger) == first_template(
            source_templates(),
            trigger,
        ),
{
    lemma_first_template_concat(macro_templates(), source_templates(), trigger);
    if first_template(macro_templates(), trigger) is Some {
        lemma_macro_triggers_are_not_source_triggers(trigger);
    }
}

} // verus!
