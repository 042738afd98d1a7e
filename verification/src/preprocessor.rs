//! PL/SW macro preprocessor.
//!
//! Parses MACRODEF definitions from .msw files and expands `?MACRO(...)`
//! invocations in .plsw source code. Returns structured expansion data for
//! the UI to render with collapsible annotations.
use vstd::prelude::*;

use crate::text::{chars_of, lemma_lines_concat, lemma_trim_idempotent, concat, copy, ends_with, ends_with_char, find, find_char, find_whitespace, find_ws_from, has_prefix, has_suffix, is_ident, is_ident_char, join, join_seq, lemma_find, lines, lines_seq, lower_seq, push_all, replace, replace_seq, seq_eq, starts_with, starts_with_char, string_of, strings_of, strs, subrange, to_lower, trim, trim_end_char_seq, trim_end_matches, trim_seq, trim_start, trim_start_seq, vecs, vecs_of};

verus! {

// ---------------------------------------------------------------------------
// Macro definitions
// ---------------------------------------------------------------------------

/// A parsed macro definition from a .msw file. Bodies come in two flavors:
/// the legacy `GEN DO; '...'; END;` block of quoted assembly strings, and
/// the source-template body: direct PL/SW lines between the `REQUIRED`
/// clauses and the closing `END;`. Both are kept as `{PARAM}`-substituted
/// line templates.
#[derive(Clone, Debug)]
pub struct MacroDef {
    /// Macro name (e.g. "GETMAIN").
    pub name: String,
    /// Parameter names in order.
    pub params: Vec<String>,
    /// Body template lines (with `{PARAM}` placeholders).
    pub body_lines: Vec<String>,
}

/// The mathematical value of a [`MacroDef`].
pub struct MacroDefModel {
    pub name: Seq<char>,
    pub params: Seq<Seq<char>>,
    pub body: Seq<Seq<char>>,
}

impl View for MacroDef {
    type V = MacroDefModel;

    open spec fn view(&self) -> MacroDefModel {
        MacroDefModel { name: self.name@, params: strs(self.params@), body: strs(self.body_lines@) }
    }
}

/// The views of a list of definitions.
pub open spec fn def_views(v: Seq<MacroDef>) -> Seq<MacroDefModel> {
    v.map_values(|d: MacroDef| d@)
}

/// Strip one layer of matching outer quotes (single or double).
pub open spec fn strip_quotes_seq(s: Seq<char>) -> Seq<char> {
    if s.len() >= 2 && ((s[0] == '"' && s.last() == '"') || (s[0] == '\'' && s.last() == '\'')) {
        s.subrange(1, s.len() - 1)
    } else {
        s
    }
}

/// Strip one layer of matching outer quotes (single or double).
pub fn strip_quotes(s: &Vec<char>) -> (r: Vec<char>)
    ensures
        r@ == strip_quotes_seq(s@),
{
    if s.len() >= 2 {
        let first = s[0];
        let last = s[s.len() - 1];
        if (first == '"' && last == '"') || (first == '\'' && last == '\'') {
            return subrange(s, 1, s.len() - 1);
        }
    }
    copy(s)
}

/// A `REQUIRED`/`OPTIONAL` clause line.
pub open spec fn is_param_line(line: Seq<char>) -> bool {
    starts_with(line, "REQUIRED"@) || starts_with(line, "OPTIONAL"@)
}

/// The parameter that a `REQUIRED NAME(type);` or `OPTIONAL NAME(type);`
/// line declares: the text after the first whitespace, up to `(` (or without
/// its trailing `;`s), trimmed. `None` when the line holds no whitespace.
pub open spec fn param_of(line: Seq<char>) -> Option<Seq<char>> {
    let w = find_ws_from(line, 0);
    if w < line.len() {
        let param = trim_seq(line.skip(w + 1));
        match find(param, '(') {
            Some(p) => Some(trim_seq(param.take(p))),
            None => Some(trim_seq(trim_end_char_seq(param, ';'))),
        }
    } else {
        None
    }
}

/// A line inside a `GEN DO;` block: trailing `;`s dropped, then quotes.
pub open spec fn gen_line(line: Seq<char>) -> Seq<char> {
    strip_quotes_seq(trim_seq(trim_end_char_seq(line, ';')))
}

pub open spec fn def_model(
    name: Seq<char>,
    params: Seq<Seq<char>>,
    body: Seq<Seq<char>>,
) -> MacroDefModel {
    MacroDefModel { name, params, body }
}

/// Reads the body of a MACRODEF from line `i` on: returns the definition and
/// the index of the closing `END;` line (or the number of lines when there
/// is none). `in_gen` tells whether a `GEN DO;` block is open.
pub open spec fn scan_body(lines: Seq<Seq<char>>, i: int, in_gen: bool, d: MacroDefModel) -> (
    MacroDefModel,
    int,
)
    decreases lines.len() - i,
{
    if i < 0 || i >= lines.len() {
        (d, lines.len() as int)
    } else {
        let line = trim_seq(lines[i]);
        if line == "END;"@ {
            if in_gen {
                scan_body(lines, i + 1, false, d)
            } else {
                (d, i)
            }
        } else if is_param_line(line) && !in_gen && d.body.len() == 0 {
            let d2 = match param_of(line) {
                Some(p) => def_model(d.name, d.params.push(p), d.body),
                None => d,
            };
            scan_body(lines, i + 1, in_gen, d2)
        } else if line == "GEN DO;"@ {
            scan_body(lines, i + 1, true, d)
        } else if in_gen {
            scan_body(lines, i + 1, true, def_model(d.name, d.params, d.body.push(gen_line(line))))
        } else if line.len() > 0 {
            scan_body(lines, i + 1, false, def_model(d.name, d.params, d.body.push(line)))
        } else {
            scan_body(lines, i + 1, in_gen, d)
        }
    }
}

/// The name on a `MACRODEF <name>;` line.
pub open spec fn def_name(t: Seq<char>) -> Seq<char> {
    trim_seq(trim_end_char_seq(trim_seq(t.skip("MACRODEF"@.len() as int)), ';'))
}

/// The definitions that start at line `i` or later.
pub open spec fn defs_from(lines: Seq<Seq<char>>, i: int) -> Seq<MacroDefModel>
    decreases lines.len() - i,
{
    if i < 0 || i >= lines.len() {
        seq![]
    } else {
        let t = trim_seq(lines[i]);
        if starts_with(t, "MACRODEF"@) {
            let (d, j) = scan_body(lines, i + 1, false, def_model(def_name(t), seq![], seq![]));
            if i <= j < lines.len() {
                seq![d] + defs_from(lines, j + 1)
            } else {
                seq![d]
            }
        } else {
            defs_from(lines, i + 1)
        }
    }
}

/// All MACRODEF blocks of a macro file, in order.
pub open spec fn macro_defs_seq(source: Seq<char>) -> Seq<MacroDefModel> {
    defs_from(lines_seq(source), 0)
}

pub proof fn lemma_scan_body_end(lines: Seq<Seq<char>>, i: int, in_gen: bool, d: MacroDefModel)
    requires
        0 <= i,
    ensures
        i <= scan_body(lines, i, in_gen, d).1 <= lines.len() || (i > lines.len()
            && scan_body(lines, i, in_gen, d).1 == lines.len()),
    decreases lines.len() - i,
{
    if i < lines.len() {
        let line = trim_seq(lines[i]);
        if line == "END;"@ {
            if in_gen {
                lemma_scan_body_end(lines, i + 1, false, d);
            }
        } else if is_param_line(line) && !in_gen && d.body.len() == 0 {
            let d2 = match param_of(line) {
                Some(p) => def_model(d.name, d.params.push(p), d.body),
                None => d,
            };
            lemma_scan_body_end(lines, i + 1, in_gen, d2);
        } else if line == "GEN DO;"@ {
            lemma_scan_body_end(lines, i + 1, true, d);
        } else if in_gen {
            lemma_scan_body_end(
                lines,
                i + 1,
                true,
                def_model(d.name, d.params, d.body.push(gen_line(line))),
            );
        } else if line.len() > 0 {
            lemma_scan_body_end(
                lines,
                i + 1,
                false,
                def_model(d.name, d.params, d.body.push(line)),
            );
        } else {
            lemma_scan_body_end(lines, i + 1, in_gen, d);
        }
    }
}

/// A closed definition block: a `MACRODEF` line, body lines none of which
/// is `END;` or opens a `GEN DO;` block, and a closing `END;` line.
pub open spec fn closed_block(a: Seq<Seq<char>>) -> bool {
    &&& a.len() >= 2
    &&& starts_with(trim_seq(a[0]), "MACRODEF"@)
    &&& trim_seq(a.last()) == "END;"@
    &&& forall|i: int|
        0 < i < a.len() - 1 ==> trim_seq(#[trigger] a[i]) != "END;"@ && trim_seq(a[i])
            != "GEN DO;"@
}

proof fn lemma_scan_closed(a: Seq<Seq<char>>, b: Seq<Seq<char>>, i: int, d: MacroDefModel)
    requires
        closed_block(a),
        1 <= i <= a.len() - 1,
    ensures
        scan_body(a + b, i, false, d) == scan_body(a, i, false, d),
        scan_body(a, i, false, d).1 == a.len() - 1,
    decreases a.len() - i,
{
    let x = a + b;
    assert(x[i] == a[i]);
    let line = trim_seq(a[i]);
    if i < a.len() - 1 {
        if is_param_line(line) && d.body.len() == 0 {
            let d2 = match param_of(line) {
                Some(p) => def_model(d.name, d.params.push(p), d.body),
                None => d,
            };
            lemma_scan_closed(a, b, i + 1, d2);
        } else if line.len() > 0 {
            lemma_scan_closed(a, b, i + 1, def_model(d.name, d.params, d.body.push(line)));
        } else {
            lemma_scan_closed(a, b, i + 1, d);
        }
    }
}

proof fn lemma_scan_shift(p: Seq<Seq<char>>, q: Seq<Seq<char>>, i: int, g: bool, d: MacroDefModel)
    requires
        0 <= i,
    ensures
        scan_body(p + q, p.len() + i, g, d) == (scan_body(q, i, g, d).0, scan_body(q, i, g, d).1
            + p.len()),
    decreases q.len() - i,
{
    if i < q.len() {
        assert((p + q)[p.len() + i] == q[i]);
        let line = trim_seq(q[i]);
        if line == "END;"@ {
            if g {
                lemma_scan_shift(p, q, i + 1, false, d);
            }
        } else if is_param_line(line) && !g && d.body.len() == 0 {
            let d2 = match param_of(line) {
                Some(pp) => def_model(d.name, d.params.push(pp), d.body),
                None => d,
            };
            lemma_scan_shift(p, q, i + 1, g, d2);
        } else if line == "GEN DO;"@ {
            lemma_scan_shift(p, q, i + 1, true, d);
        } else if g {
            lemma_scan_shift(p, q, i + 1, true, def_model(d.name, d.params, d.body.push(gen_line(line))));
        } else if line.len() > 0 {
            lemma_scan_shift(p, q, i + 1, false, def_model(d.name, d.params, d.body.push(line)));
        } else {
            lemma_scan_shift(p, q, i + 1, g, d);
        }
    }
}

proof fn lemma_defs_shift(p: Seq<Seq<char>>, q: Seq<Seq<char>>, k: int)
    requires
        0 <= k,
    ensures
        defs_from(p + q, p.len() + k) == defs_from(q, k),
    decreases q.len() - k,
{
    if k < q.len() {
        assert((p + q)[p.len() + k] == q[k]);
        let t = trim_seq(q[k]);
        if starts_with(t, "MACRODEF"@) {
            let d0 = def_model(def_name(t), seq![], seq![]);
            lemma_scan_shift(p, q, k + 1, false, d0);
            lemma_scan_body_end(q, k + 1, false, d0);
            let j = scan_body(q, k + 1, false, d0).1;
            if k <= j < q.len() {
                lemma_defs_shift(p, q, j + 1);
            }
        } else {
            lemma_defs_shift(p, q, k + 1);
        }
    }
}

/// Law: definitions follow one another. Lines that begin with a closed
/// definition block give that block's one definition, named on its
/// `MACRODEF` line, followed by every definition of the lines after it.
pub proof fn law_definitions_follow_one_another(a: Seq<Seq<char>>, b: Seq<Seq<char>>)
    requires
        closed_block(a),
    ensures
        defs_from(a, 0).len() == 1,
        defs_from(a, 0)[0].name == def_name(trim_seq(a[0])),
        defs_from(a + b, 0) == defs_from(a, 0) + defs_from(b, 0),
{
    let t = trim_seq(a[0]);
    let d0 = def_model(def_name(t), seq![], seq![]);
    assert((a + b)[0] == a[0]);
    lemma_scan_closed(a, b, 1, d0);
    lemma_scan_name(a, 1, false, d0);
    lemma_defs_shift(a, b, 0);
    assert(defs_from(a, a.len() as int) == Seq::<MacroDefModel>::empty());
    assert(defs_from(a + b, 0) =~= defs_from(a, 0) + defs_from(b, 0));
}

/// Law: a macro file that starts with a closed definition block, ending in a
/// line break, parses to that block's one definition followed by every
/// definition in the rest of the file; so two closed blocks one after the
/// other give both definitions, in order.
pub proof fn law_macro_file_definitions_in_order(a: Seq<char>, b: Seq<char>)
    requires
        a.len() > 0,
        a.last() == '\n',
        closed_block(lines_seq(a)),
    ensures
        macro_defs_seq(a).len() == 1,
        macro_defs_seq(a)[0].name == def_name(trim_seq(lines_seq(a)[0])),
        macro_defs_seq(a + b) == macro_defs_seq(a) + macro_defs_seq(b),
{
    lemma_lines_concat(a, b);
    law_definitions_follow_one_another(lines_seq(a), lines_seq(b));
}

proof fn lemma_scan_name(lines: Seq<Seq<char>>, i: int, g: bool, d: MacroDefModel)
    ensures
        scan_body(lines, i, g, d).0.name == d.name,
    decreases lines.len() - i,
{
    if 0 <= i < lines.len() {
        let line = trim_seq(lines[i]);
        if line == "END;"@ {
            if g {
                lemma_scan_name(lines, i + 1, false, d);
            }
        } else if is_param_line(line) && !g && d.body.len() == 0 {
            let d2 = match param_of(line) {
                Some(pp) => def_model(d.name, d.params.push(pp), d.body),
                None => d,
            };
            lemma_scan_name(lines, i + 1, g, d2);
        } else if line == "GEN DO;"@ {
            lemma_scan_name(lines, i + 1, true, d);
        } else if g {
            lemma_scan_name(lines, i + 1, true, def_model(d.name, d.params, d.body.push(gen_line(line))));
        } else if line.len() > 0 {
            lemma_scan_name(lines, i + 1, false, def_model(d.name, d.params, d.body.push(line)));
        } else {
            lemma_scan_name(lines, i + 1, g, d);
        }
    }
}

/// The parameter declared by a `REQUIRED`/`OPTIONAL` line.
fn param_name(line: &Vec<char>) -> (r: Option<Vec<char>>)
    ensures
        match r {
            Some(p) => param_of(line@) == Some(p@),
            None => param_of(line@) is None,
        },
{
    let w = find_whitespace(line);
    if w < line.len() {
        let rest = subrange(line, w + 1, line.len());
        let param = trim(&rest);
        proof {
            lemma_find(param@, '(');
        }
        match find_char(&param, '(') {
            Some(p) => {
                let head = subrange(&param, 0, p);
                Some(trim(&head))
            },
            None => {
                let t = trim_end_matches(&param, ';');
                Some(trim(&t))
            },
        }
    } else {
        None
    }
}

/// Parse all MACRODEF blocks from macro file content. Bodies may be either:
///   * `GEN DO; 'asm string'; ... END;` (assembler-emitting macros such as
///     `?LED_SET`): quotes are stripped; everything inside the GEN block
///     becomes a body template line.
///   * Direct source-template lines after the REQUIRED/OPTIONAL clauses,
///     terminated by the closing `END;` (used by `?GETMAIN`/`?FREEMAIN`,
///     which expand to PL/SW source rather than assembly).
pub fn parse_macro_defs(source: &str) -> (defs: Vec<MacroDef>)
    ensures
        def_views(defs@) == macro_defs_seq(source@),
{
    let src = chars_of(source);
    let lines = lines(&src);
    let ghost ls = lines_seq(source@);
    assert(vecs(lines@) =~= ls);
    let kw_macrodef = chars_of("MACRODEF");
    let kw_end = chars_of("END;");
    let kw_required = chars_of("REQUIRED");
    let kw_optional = chars_of("OPTIONAL");
    let kw_gen = chars_of("GEN DO;");
    let mut defs: Vec<MacroDef> = Vec::new();
    let mut i: usize = 0;
    while i < lines.len()
        invariant
            i <= lines.len(),
            vecs(lines@) == ls,
            ls == lines_seq(source@),
            kw_macrodef@ == "MACRODEF"@,
            kw_end@ == "END;"@,
            kw_required@ == "REQUIRED"@,
            kw_optional@ == "OPTIONAL"@,
            kw_gen@ == "GEN DO;"@,
            def_views(defs@) + defs_from(ls, i as int) == defs_from(ls, 0),
        decreases lines.len() - i,
    {
        assert(ls[i as int] == lines@[i as int]@);
        let trimmed = trim(&lines[i]);
        if has_prefix(&trimmed, &kw_macrodef) {
            let after = subrange(&trimmed, kw_macrodef.len(), trimmed.len());
            let t1 = trim(&after);
            let t2 = trim_end_matches(&t1, ';');
            let name = trim(&t2);
            let mut params: Vec<Vec<char>> = Vec::new();
            let mut body: Vec<Vec<char>> = Vec::new();
            let mut in_gen = false;
            let ghost start = i;
            let ghost init = def_model(name@, seq![], seq![]);
            assert(vecs(params@) =~= seq![]);
            assert(vecs(body@) =~= seq![]);
            i = i + 1;
            let mut closed = false;
            while i < lines.len() && !closed
                invariant
                    start < i <= lines.len(),
                    vecs(lines@) == ls,
                    kw_end@ == "END;"@,
                    kw_required@ == "REQUIRED"@,
                    kw_optional@ == "OPTIONAL"@,
                    kw_gen@ == "GEN DO;"@,
                    !closed ==> scan_body(ls, i as int, in_gen, def_model(name@, vecs(params@), vecs(body@)))
                        == scan_body(ls, start + 1, false, init),
                    closed ==> i < lines.len() && scan_body(ls, start + 1, false, init) == (
                        def_model(name@, vecs(params@), vecs(body@)),
                        i as int,
                    ),
                decreases lines.len() - i + (if closed { 0int } else { 1int }),
            {
                assert(ls[i as int] == lines@[i as int]@);
                let line = trim(&lines[i]);
                if seq_eq(&line, &kw_end) {
                    if in_gen {
                        in_gen = false;
                        i = i + 1;
                    } else {
                        closed = true;
                    }
                    continue;
                }
                let is_param = has_prefix(&line, &kw_required) || has_prefix(&line, &kw_optional);
                if is_param && !in_gen && body.len() == 0 {
                    match param_name(&line) {
                        Some(p) => {
                            let ghost old_params = vecs(params@);
                            params.push(p);
                            assert(vecs(params@) =~= old_params.push(p@));
                        },
                        None => {},
                    }
                    i = i + 1;
                    continue;
                }
                if seq_eq(&line, &kw_gen) {
                    in_gen = true;
                    i = i + 1;
                    continue;
                }
                if in_gen {
                    let t = trim_end_matches(&line, ';');
                    let t = trim(&t);
                    let stripped = strip_quotes(&t);
                    let ghost old_body = vecs(body@);
                    body.push(stripped);
                    assert(vecs(body@) =~= old_body.push(gen_line(line@)));
                } else if line.len() > 0 {
                    let ghost old_body = vecs(body@);
                    body.push(line);
                    assert(vecs(body@) =~= old_body.push(trim_seq(ls[i as int])));
                }
                i = i + 1;
            }
            let ghost d = def_model(name@, vecs(params@), vecs(body@));
            proof {
                lemma_scan_body_end(ls, start + 1, false, init);
                assert(scan_body(ls, start + 1, false, init) == (d, i as int));
            }
            let def = MacroDef {
                name: string_of(&name),
                params: strings_of(&params),
                body_lines: strings_of(&body),
            };
            assert(def@ == d);
            let ghost prev = def_views(defs@);
            defs.push(def);
            assert(def_views(defs@) =~= prev.push(d));
            assert(def_views(defs@) + defs_from(ls, i + 1) =~= prev + defs_from(ls, start as int));
            if i < lines.len() {
                i = i + 1;
            }
        } else {
            i = i + 1;
        }
    }
    assert(def_views(defs@) =~= def_views(defs@) + defs_from(ls, i as int));
    defs
}

// ---------------------------------------------------------------------------
// Keyword arguments
// ---------------------------------------------------------------------------

/// The view of a list of (key, value) pairs.
pub open spec fn pair_views(e: Seq<(Vec<char>, Vec<char>)>) -> Seq<(Seq<char>, Seq<char>)> {
    e.map_values(|p: (Vec<char>, Vec<char>)| (p.0@, p.1@))
}

/// The map that inserting the pairs in order builds: a later pair for a key
/// replaces an earlier one.
pub open spec fn map_of(e: Seq<(Seq<char>, Seq<char>)>) -> Map<Seq<char>, Seq<char>>
    decreases e.len(),
{
    if e.len() == 0 {
        Map::empty()
    } else {
        map_of(e.drop_last()).insert(e.last().0, e.last().1)
    }
}

pub proof fn lemma_map_of_concat(a: Seq<(Seq<char>, Seq<char>)>, b: Seq<(Seq<char>, Seq<char>)>)
    ensures
        map_of(a + b) == map_of(a).union_prefer_right(map_of(b)),
    decreases b.len(),
{
    if b.len() == 0 {
        assert(a + b =~= a);
        assert(map_of(a).union_prefer_right(map_of(b)) =~= map_of(a));
    } else {
        lemma_map_of_concat(a, b.drop_last());
        assert((a + b).drop_last() =~= a + b.drop_last());
        assert(map_of(a + b) =~= map_of(a).union_prefer_right(map_of(b)));
    }
}

/// Named macro arguments: each key maps to the value inserted last for it.
pub struct NamedArgs {
    entries: Vec<(Vec<char>, Vec<char>)>,
}

impl View for NamedArgs {
    type V = Map<Seq<char>, Seq<char>>;

    closed spec fn view(&self) -> Map<Seq<char>, Seq<char>> {
        map_of(pair_views(self.entries@))
    }
}

impl NamedArgs {
    pub fn new() -> (r: NamedArgs)
        ensures
            r@ == Map::<Seq<char>, Seq<char>>::empty(),
    {
        let r = NamedArgs { entries: Vec::new() };
        assert(pair_views(r.entries@) =~= seq![]);
        r
    }

    /// Sets `key` to `val`, replacing any earlier value.
    pub fn insert(&mut self, key: String, val: String)
        ensures
            final(self)@ == old(self)@.insert(key@, val@),
    {
        let k = chars_of(key.as_str());
        let v = chars_of(val.as_str());
        self.insert_chars(k, v);
    }

    fn insert_chars(&mut self, key: Vec<char>, val: Vec<char>)
        ensures
            final(self)@ == old(self)@.insert(key@, val@),
    {
        let ghost old_pairs = pair_views(self.entries@);
        self.entries.push((key, val));
        assert(pair_views(self.entries@).drop_last() =~= old_pairs);
    }

    /// The value for `key`, if any.
    pub fn get(&self, key: &Vec<char>) -> (r: Option<Vec<char>>)
        ensures
            match r {
                Some(v) => self@.contains_key(key@) && self@[key@] == v@,
                None => !self@.contains_key(key@),
            },
    {
        let ghost e = pair_views(self.entries@);
        let mut j: usize = self.entries.len();
        assert(e.take(j as int) =~= e);
        while j > 0
            invariant
                j <= self.entries.len(),
                e == pair_views(self.entries@),
                map_of(e.take(j as int)).contains_key(key@) == map_of(e).contains_key(key@),
                map_of(e.take(j as int)).contains_key(key@) ==> map_of(e.take(j as int))[key@]
                    == map_of(e)[key@],
            decreases j,
        {
            assert(e.take(j as int).drop_last() =~= e.take(j - 1));
            assert(e.take(j as int).last() == e[j - 1]);
            if seq_eq(&self.entries[j - 1].0, key) {
                return Some(copy(&self.entries[j - 1].1));
            }
            j = j - 1;
        }
        None
    }

}

/// An argument of the form `KEY(value)`: the trimmed key, made of
/// identifier characters only, and the trimmed text between the first `(`
/// and the final `)`.
pub open spec fn keyword_arg(arg: Seq<char>) -> Option<(Seq<char>, Seq<char>)> {
    match find(arg, '(') {
        None => None,
        Some(open) => {
            if !(arg.len() > 0 && arg.last() == ')') {
                None
            } else {
                let key = trim_seq(arg.take(open));
                if key.len() == 0 || !(forall|k: int| 0 <= k < key.len() ==> is_ident(key[k])) {
                    None
                } else {
                    Some((key, trim_seq(arg.subrange(open + 1, arg.len() - 1))))
                }
            }
        },
    }
}

fn all_ident(s: &Vec<char>) -> (r: bool)
    ensures
        r == (forall|k: int| 0 <= k < s@.len() ==> is_ident(s@[k])),
{
    let mut i: usize = 0;
    while i < s.len()
        invariant
            i <= s.len(),
            forall|k: int| 0 <= k < i ==> is_ident(s@[k]),
        decreases s.len() - i,
    {
        if !is_ident_char(s[i]) {
            return false;
        }
        i = i + 1;
    }
    true
}

/// Parses an argument of the form `KEY(value)`.
pub fn parse_keyword_arg(arg: &Vec<char>) -> (r: Option<(Vec<char>, Vec<char>)>)
    ensures
        match r {
            Some(kv) => keyword_arg(arg@) == Some((kv.0@, kv.1@)),
            None => keyword_arg(arg@) is None,
        },
{
    proof {
        lemma_find(arg@, '(');
    }
    let open = match find_char(arg, '(') {
        Some(o) => o,
        None => return None,
    };
    if !ends_with_char(arg, ')') {
        return None;
    }
    let head = subrange(arg, 0, open);
    let key = trim(&head);
    if key.len() == 0 || !all_ident(&key) {
        return None;
    }
    assert(arg@[open as int] == '(' && arg@.last() == ')');
    assert(open + 1 <= arg.len() - 1);
    let inner = subrange(arg, open + 1, arg.len() - 1);
    let val = trim(&inner);
    Some((key, val))
}

// ---------------------------------------------------------------------------
// Splitting argument lists
// ---------------------------------------------------------------------------

/// The non-empty segment `s[start..end]` as a list of at most one item.
pub open spec fn seg(s: Seq<char>, start: int, end: int) -> Seq<Seq<char>> {
    if start < end {
        seq![s.subrange(start, end)]
    } else {
        seq![]
    }
}

/// The segments of `s` from index `i` on, split at each `delim` outside
/// parentheses; the current segment starts at `start` and `depth` counts the
/// open parentheses.
pub open spec fn split_from(s: Seq<char>, delim: char, i: int, start: int, depth: nat) -> Seq<
    Seq<char>,
>
    decreases s.len() - i,
{
    if i < 0 || i >= s.len() {
        seg(s, start, s.len() as int)
    } else {
        let c = s[i];
        if c == '(' {
            split_from(s, delim, i + 1, start, depth + 1)
        } else if c == ')' {
            split_from(s, delim, i + 1, start, if depth > 0 { (depth - 1) as nat } else { 0 })
        } else if c == delim && depth == 0 {
            seg(s, start, i) + split_from(s, delim, i + 1, i + 1, depth)
        } else {
            split_from(s, delim, i + 1, start, depth)
        }
    }
}

/// `args` split on the occurrences of `delim` outside parentheses, with
/// empty segments dropped.
pub open spec fn split_args(s: Seq<char>, delim: char) -> Seq<Seq<char>> {
    split_from(s, delim, 0, 0, 0)
}

/// Split `args` on top-level occurrences of `delim` (depth-aware on parens).
pub fn split_macro_args(args: &Vec<char>, delim: char) -> (parts: Vec<Vec<char>>)
    ensures
        vecs(parts@) == split_args(args@, delim),
{
    let mut parts: Vec<Vec<char>> = Vec::new();
    let mut start: usize = 0;
    let mut depth: usize = 0;
    let mut i: usize = 0;
    while i < args.len()
        invariant
            start <= i <= args.len(),
            depth <= i,
            vecs(parts@) + split_from(args@, delim, i as int, start as int, depth as nat)
                == split_args(args@, delim),
        decreases args.len() - i,
    {
        let ch = args[i];
        if ch == '(' {
            depth = depth + 1;
        } else if ch == ')' {
            if depth > 0 {
                depth = depth - 1;
            }
        } else if ch == delim && depth == 0 {
            let ghost old_parts = vecs(parts@);
            if start < i {
                parts.push(subrange(args, start, i));
                assert(vecs(parts@) =~= old_parts + seg(args@, start as int, i as int));
            } else {
                assert(vecs(parts@) =~= old_parts + seg(args@, start as int, i as int));
            }
            start = i + 1;
        }
        i = i + 1;
    }
    let ghost old_parts = vecs(parts@);
    if start < args.len() {
        parts.push(subrange(args, start, args.len()));
    }
    assert(vecs(parts@) =~= old_parts + seg(args@, start as int, args@.len() as int));
    parts
}

// ---------------------------------------------------------------------------
// Invocations
// ---------------------------------------------------------------------------

/// One past the end of the run of identifier characters starting at `i`.
pub open spec fn ident_end(s: Seq<char>, i: int) -> int
    decreases s.len() - i,
{
    if 0 <= i < s.len() && is_ident(s[i]) {
        ident_end(s, i + 1)
    } else {
        i
    }
}

pub proof fn lemma_ident_end(s: Seq<char>, i: int)
    requires
        0 <= i <= s.len(),
    ensures
        i <= ident_end(s, i) <= s.len(),
    decreases s.len() - i,
{
    if i < s.len() && is_ident(s[i]) {
        lemma_ident_end(s, i + 1);
    }
}

/// Arguments as parsed so far: positional values and named values.
pub type ArgsModel = (Seq<Seq<char>>, Map<Seq<char>, Seq<char>>);

/// Adds one comma-separated argument of the parenthesized form:
/// `KEY=value`, `KEY(value)` or a positional value.
pub open spec fn add_legacy_arg(acc: ArgsModel, part: Seq<char>) -> ArgsModel {
    let arg = trim_seq(part);
    match find(arg, '=') {
        Some(eq) => (acc.0, acc.1.insert(trim_seq(arg.take(eq)), trim_seq(arg.skip(eq + 1)))),
        None => match keyword_arg(arg) {
            Some(kv) => (acc.0, acc.1.insert(kv.0, kv.1)),
            None => (acc.0.push(arg), acc.1),
        },
    }
}

/// Adds one space-separated clause of the PL/I-flavored form: `KEY(value)`
/// or a bare positional token; empty clauses are skipped.
pub open spec fn add_clause(acc: ArgsModel, part: Seq<char>) -> ArgsModel {
    let clause = trim_seq(trim_end_char_seq(trim_seq(part), ';'));
    if clause.len() == 0 {
        acc
    } else {
        match keyword_arg(clause) {
            Some(kv) => (acc.0, acc.1.insert(kv.0, kv.1)),
            None => (acc.0.push(clause), acc.1),
        }
    }
}

pub open spec fn fold_legacy(parts: Seq<Seq<char>>, acc: ArgsModel) -> ArgsModel
    decreases parts.len(),
{
    if parts.len() == 0 {
        acc
    } else {
        add_legacy_arg(fold_legacy(parts.drop_last(), acc), parts.last())
    }
}

pub open spec fn fold_clauses(parts: Seq<Seq<char>>, acc: ArgsModel) -> ArgsModel
    decreases parts.len(),
{
    if parts.len() == 0 {
        acc
    } else {
        add_clause(fold_clauses(parts.drop_last(), acc), parts.last())
    }
}

pub open spec fn no_args() -> ArgsModel {
    (seq![], Map::empty())
}

/// What follows the name in the parenthesized form `?NAME(...)`: the text
/// after the first `(`, without one trailing `)`, trimmed.
pub open spec fn legacy_arg_text(after: Seq<char>, open: int) -> Seq<char> {
    let inner = after.skip(open + 1);
    if inner.len() > 0 && inner.last() == ')' {
        trim_seq(inner.drop_last())
    } else {
        trim_seq(inner)
    }
}

/// The arguments after the macro name.
pub open spec fn invocation_args(after: Seq<char>) -> ArgsModel {
    match find(after, '(') {
        Some(open) if trim_seq(after.take(open)).len() == 0 => {
            let text = legacy_arg_text(after, open);
            if text.len() == 0 {
                no_args()
            } else {
                fold_legacy(split_args(text, ','), no_args())
            }
        },
        _ => fold_clauses(split_args(after, ' '), no_args()),
    }
}

/// A macro invocation: `?NAME KEY(val) KEY(val);` (PL/I-flavored) or
/// `?NAME(val)` / `?NAME(KEY(val), KEY(val))` (parenthesized). The result is
/// the name, the positional arguments and the named arguments.
pub open spec fn invocation(text: Seq<char>) -> Option<(Seq<char>, Seq<Seq<char>>, Map<Seq<char>, Seq<char>>)> {
    let trimmed = trim_seq(trim_end_char_seq(trim_seq(text), ';'));
    if !(trimmed.len() > 0 && trimmed[0] == '?') {
        None
    } else {
        let rest = trimmed.drop_first();
        let n = ident_end(rest, 0);
        if n == 0 {
            None
        } else {
            let args = invocation_args(trim_start_seq(rest.skip(n)));
            Some((rest.take(n), args.0, args.1))
        }
    }
}

/// Every key of `m` is trimmed: no white space at either end.
pub open spec fn keys_trimmed(m: Map<Seq<char>, Seq<char>>) -> bool {
    forall|k: Seq<char>| #[trigger] m.contains_key(k) ==> trim_seq(k) == k
}

proof fn lemma_keyword_key_trimmed(arg: Seq<char>)
    ensures
        keyword_arg(arg) matches Some(kv) ==> trim_seq(kv.0) == kv.0,
{
    match find(arg, '(') {
        Some(open) => lemma_trim_idempotent(arg.take(open)),
        None => {},
    }
}

proof fn lemma_fold_legacy_keys(parts: Seq<Seq<char>>, acc: ArgsModel)
    requires
        keys_trimmed(acc.1),
    ensures
        keys_trimmed(fold_legacy(parts, acc).1),
    decreases parts.len(),
{
    if parts.len() > 0 {
        lemma_fold_legacy_keys(parts.drop_last(), acc);
        let prev = fold_legacy(parts.drop_last(), acc);
        let arg = trim_seq(parts.last());
        lemma_keyword_key_trimmed(arg);
        match find(arg, '=') {
            Some(eq) => lemma_trim_idempotent(arg.take(eq)),
            None => {},
        }
        let next = fold_legacy(parts, acc);
        assert forall|k: Seq<char>| #[trigger] next.1.contains_key(k) implies trim_seq(k) == k by {
            if prev.1.contains_key(k) {
            }
        }
    }
}

proof fn lemma_fold_clauses_keys(parts: Seq<Seq<char>>, acc: ArgsModel)
    requires
        keys_trimmed(acc.1),
    ensures
        keys_trimmed(fold_clauses(parts, acc).1),
    decreases parts.len(),
{
    if parts.len() > 0 {
        lemma_fold_clauses_keys(parts.drop_last(), acc);
        let prev = fold_clauses(parts.drop_last(), acc);
        let clause = trim_seq(trim_end_char_seq(trim_seq(parts.last()), ';'));
        lemma_keyword_key_trimmed(clause);
        let next = fold_clauses(parts, acc);
        assert forall|k: Seq<char>| #[trigger] next.1.contains_key(k) implies trim_seq(k) == k by {
            if prev.1.contains_key(k) {
            }
        }
    }
}

/// Law: the names of named arguments carry no surrounding white space, in
/// both invocation forms, so `KEY = v`, `KEY=v` and `KEY(v)` all name the
/// parameter `KEY`; the values are trimmed too.
pub proof fn law_named_argument_keys_are_trimmed(text: Seq<char>)
    ensures
        invocation(text) matches Some(inv) ==> keys_trimmed(inv.2),
{
    assert(keys_trimmed(Map::<Seq<char>, Seq<char>>::empty()));
    let trimmed = trim_seq(trim_end_char_seq(trim_seq(text), ';'));
    if trimmed.len() > 0 && trimmed[0] == '?' {
        let rest = trimmed.drop_first();
        let n = ident_end(rest, 0);
        let after = trim_start_seq(rest.skip(n));
        match find(after, '(') {
            Some(open) => {
                if trim_seq(after.take(open)).len() == 0 {
                    let t = legacy_arg_text(after, open);
                    lemma_fold_legacy_keys(split_args(t, ','), no_args());
                } else {
                    lemma_fold_clauses_keys(split_args(after, ' '), no_args());
                }
            },
            None => lemma_fold_clauses_keys(split_args(after, ' '), no_args()),
        }
    }
}

/// Adds the parts of a parenthesized argument list to `pos` and `named`.
fn add_legacy_args(parts: &Vec<Vec<char>>, pos: &mut Vec<Vec<char>>, named: &mut NamedArgs)
    ensures
        (vecs(final(pos)@), final(named)@) == fold_legacy(vecs(parts@), (vecs(old(pos)@), old(named)@)),
{
    let ghost start = (vecs(pos@), named@);
    let mut i: usize = 0;
    while i < parts.len()
        invariant
            i <= parts.len(),
            start == (vecs(old(pos)@), old(named)@),
            (vecs(pos@), named@) == fold_legacy(vecs(parts@).take(i as int), start),
        decreases parts.len() - i,
    {
        assert(vecs(parts@).take(i + 1).drop_last() =~= vecs(parts@).take(i as int));
        assert(vecs(parts@).take(i + 1).last() == parts@[i as int]@);
        let arg = trim(&parts[i]);
        proof {
            lemma_find(arg@, '=');
        }
        match find_char(&arg, '=') {
            Some(eq) => {
                let k0 = subrange(&arg, 0, eq);
                let v0 = subrange(&arg, eq + 1, arg.len());
                named.insert_chars(trim(&k0), trim(&v0));
            },
            None => {
                match parse_keyword_arg(&arg) {
                    Some(kv) => {
                        named.insert_chars(kv.0, kv.1);
                    },
                    None => {
                        let ghost old_pos = vecs(pos@);
                        pos.push(arg);
                        assert(vecs(pos@) =~= old_pos.push(trim_seq(parts@[i as int]@)));
                    },
                }
            },
        }
        i = i + 1;
    }
    assert(vecs(parts@).take(i as int) =~= vecs(parts@));
}

/// Adds the space-separated clauses to `pos` and `named`.
fn add_clauses(parts: &Vec<Vec<char>>, pos: &mut Vec<Vec<char>>, named: &mut NamedArgs)
    ensures
        (vecs(final(pos)@), final(named)@) == fold_clauses(vecs(parts@), (vecs(old(pos)@), old(named)@)),
{
    let ghost start = (vecs(pos@), named@);
    let mut i: usize = 0;
    while i < parts.len()
        invariant
            i <= parts.len(),
            start == (vecs(old(pos)@), old(named)@),
            (vecs(pos@), named@) == fold_clauses(vecs(parts@).take(i as int), start),
        decreases parts.len() - i,
    {
        assert(vecs(parts@).take(i + 1).drop_last() =~= vecs(parts@).take(i as int));
        assert(vecs(parts@).take(i + 1).last() == parts@[i as int]@);
        let t0 = trim(&parts[i]);
        let t1 = trim_end_matches(&t0, ';');
        let clause = trim(&t1);
        if clause.len() > 0 {
            match parse_keyword_arg(&clause) {
                Some(kv) => {
                    named.insert_chars(kv.0, kv.1);
                },
                None => {
                    let ghost old_pos = vecs(pos@);
                    pos.push(clause);
                    assert(vecs(pos@) =~= old_pos.push(clause@));
                },
            }
        }
        i = i + 1;
    }
    assert(vecs(parts@).take(i as int) =~= vecs(parts@));
}

/// Parses a macro invocation: `?NAME KEY(val) KEY(val);` or the older
/// parenthesized `?NAME(val)` / `?NAME(KEY(val), KEY(val))`. Returns the
/// name, the positional arguments and the named arguments.
pub fn parse_invocation(text: &Vec<char>) -> (r: Option<(String, Vec<String>, NamedArgs)>)
    ensures
        match r {
            Some(inv) => invocation(text@) == Some((inv.0@, strs(inv.1@), inv.2@)),
            None => invocation(text@) is None,
        },
{
    let t0 = trim(text);
    let t1 = trim_end_matches(&t0, ';');
    let trimmed = trim(&t1);
    if !starts_with_char(&trimmed, '?') {
        return None;
    }
    let rest = subrange(&trimmed, 1, trimmed.len());
    assert(rest@ =~= trimmed@.drop_first());
    let mut name_end: usize = 0;
    while name_end < rest.len() && is_ident_char(rest[name_end])
        invariant
            name_end <= rest.len(),
            ident_end(rest@, name_end as int) == ident_end(rest@, 0),
        decreases rest.len() - name_end,
    {
        name_end = name_end + 1;
    }
    if name_end == 0 {
        return None;
    }
    let name = subrange(&rest, 0, name_end);
    let tail = subrange(&rest, name_end, rest.len());
    let after = trim_start(&tail);
    let mut named = NamedArgs::new();
    let mut positional: Vec<Vec<char>> = Vec::new();
    assert(vecs(positional@) =~= seq![]);
    proof {
        lemma_find(after@, '(');
    }
    let found = find_char(&after, '(');
    let mut legacy = false;
    match found {
        Some(open) => {
            let head = subrange(&after, 0, open);
            let head_t = trim(&head);
            if head_t.len() == 0 {
                legacy = true;
                let inner = subrange(&after, open + 1, after.len());
                let text_args = if ends_with_char(&inner, ')') {
                    let cut = subrange(&inner, 0, inner.len() - 1);
                    assert(cut@ =~= inner@.drop_last());
                    trim(&cut)
                } else {
                    trim(&inner)
                };
                assert(inner@ =~= after@.skip(open + 1));
                assert(text_args@ == legacy_arg_text(after@, open as int));
                if text_args.len() > 0 {
                    let parts = split_macro_args(&text_args, ',');
                    add_legacy_args(&parts, &mut positional, &mut named);
                }
            }
        },
        None => {},
    }
    if !legacy {
        let parts = split_macro_args(&after, ' ');
        add_clauses(&parts, &mut positional, &mut named);
    }
    Some((string_of(&name), strings_of(&positional), named))
}

// ---------------------------------------------------------------------------
// Expansion
// ---------------------------------------------------------------------------

/// The positional arguments bound to the parameters, in declaration order.
pub open spec fn positional_pairs(params: Seq<Seq<char>>, positional: Seq<Seq<char>>) -> Seq<
    (Seq<char>, Seq<char>),
>
    decreases params.len(),
{
    if params.len() == 0 {
        seq![]
    } else {
        let i = params.len() - 1;
        let prev = positional_pairs(params.drop_last(), positional);
        if i < positional.len() {
            prev.push((params[i], positional[i]))
        } else {
            prev
        }
    }
}

/// The value of each parameter: positional arguments matched in declaration
/// order, then named arguments on top.
pub open spec fn resolve(
    params: Seq<Seq<char>>,
    positional: Seq<Seq<char>>,
    named: Map<Seq<char>, Seq<char>>,
) -> Map<Seq<char>, Seq<char>> {
    map_of(positional_pairs(params, positional)).union_prefer_right(named)
}

proof fn lemma_positional_binding(params: Seq<Seq<char>>, positional: Seq<Seq<char>>, i: int)
    requires
        0 <= i < params.len(),
        i < positional.len(),
        forall|j: int| 0 <= j < params.len() && j != i ==> params[j] != params[i],
    ensures
        map_of(positional_pairs(params, positional)).contains_key(params[i]),
        map_of(positional_pairs(params, positional))[params[i]] == positional[i],
    decreases params.len(),
{
    let last = params.len() - 1;
    let prev = positional_pairs(params.drop_last(), positional);
    if i < last {
        let dl = params.drop_last();
        assert forall|j: int| 0 <= j < dl.len() && j != i implies dl[j] != dl[i] by {
            assert(dl[j] == params[j] && dl[i] == params[i]);
        }
        lemma_positional_binding(dl, positional, i);
        assert(dl[i] == params[i]);
        if last < positional.len() {
            assert(prev.push((params[last], positional[last])).drop_last() =~= prev);
            assert(params[last] != params[i]);
        }
    } else {
        assert(prev.push((params[last], positional[last])).drop_last() =~= prev);
    }
}

/// Law: arguments bind to parameters. The `i`-th positional argument is the
/// value of the `i`-th declared parameter (when no other parameter has the
/// same name), unless a named argument gives that parameter a value; a
/// named argument is always the value of its parameter.
pub proof fn law_arguments_bind_to_parameters(
    params: Seq<Seq<char>>,
    positional: Seq<Seq<char>>,
    named: Map<Seq<char>, Seq<char>>,
)
    ensures
        forall|i: int|
            0 <= i < params.len() && i < positional.len() && !named.contains_key(params[i]) && (forall|
                j: int,
            | 0 <= j < params.len() && j != i ==> params[j] != params[i]) ==> resolve(
                params,
                positional,
                named,
            ).contains_key(#[trigger] params[i]) && resolve(params, positional, named)[params[i]]
                == positional[i],
        forall|k: Seq<char>|
            #[trigger] named.contains_key(k) ==> resolve(params, positional, named).contains_key(k)
                && resolve(params, positional, named)[k] == named[k],
{
    assert forall|i: int|
        0 <= i < params.len() && i < positional.len() && !named.contains_key(params[i]) && (forall|
            j: int,
        | 0 <= j < params.len() && j != i ==> params[j] != params[i]) implies resolve(
        params,
        positional,
        named,
    ).contains_key(#[trigger] params[i]) && resolve(params, positional, named)[params[i]]
        == positional[i] by {
        lemma_positional_binding(params, positional, i);
    }
}

/// `{NAME}`.
pub open spec fn placeholder(name: Seq<char>) -> Seq<char> {
    seq!['{'] + name + seq!['}']
}

/// A body line with the placeholders of the first `n` parameters replaced,
/// one parameter after another.
pub open spec fn subst_line(
    line: Seq<char>,
    params: Seq<Seq<char>>,
    values: Map<Seq<char>, Seq<char>>,
    n: int,
) -> Seq<char>
    decreases n,
{
    if n <= 0 || n > params.len() {
        line
    } else {
        let prev = subst_line(line, params, values, n - 1);
        let p = params[n - 1];
        if values.contains_key(p) {
            replace_seq(prev, placeholder(p), values[p])
        } else {
            prev
        }
    }
}

/// The expanded body of a definition.
pub open spec fn expansion(
    d: MacroDefModel,
    positional: Seq<Seq<char>>,
    named: Map<Seq<char>, Seq<char>>,
) -> Seq<Seq<char>> {
    let values = resolve(d.params, positional, named);
    d.body.map_values(|line: Seq<char>| subst_line(line, d.params, values, d.params.len() as int))
}

/// Expand a macro invocation given a definition, positional args, and named
/// args. Positional args are matched to params in declaration order; named
/// args override.
pub fn expand_macro(def: &MacroDef, positional: &[String], named: &NamedArgs) -> (r: Vec<String>)
    ensures
        strs(r@) == expansion(def@, strs(positional@), named@),
{
    let params = vecs_of(&def.params);
    let ghost ps = strs(def.params@);
    let ghost pos = strs(positional@);
    // Positional bindings first, then the named ones on top.
    let mut resolved = NamedArgs::new();
    let mut i: usize = 0;
    assert(map_of(pair_views(resolved.entries@)) =~= map_of(positional_pairs(ps.take(0), pos)));
    while i < params.len()
        invariant
            i <= params.len(),
            vecs(params@) == ps,
            ps.len() == params.len(),
            pos == strs(positional@),
            resolved@ == map_of(positional_pairs(ps.take(i as int), pos)),
        decreases params.len() - i,
    {
        assert(ps.take(i + 1).drop_last() =~= ps.take(i as int));
        assert(ps.take(i + 1)[i as int] == params@[i as int]@);
        if i < positional.len() {
            let v = chars_of(positional[i].as_str());
            assert(pos[i as int] == v@);
            assert(positional_pairs(ps.take(i + 1), pos) == positional_pairs(ps.take(i as int), pos).push(
                (params@[i as int]@, v@),
            ));
            let ghost prev = positional_pairs(ps.take(i as int), pos);
            assert(prev.push((params@[i as int]@, v@)).drop_last() =~= prev);
            resolved.insert_chars(copy(&params[i]), v);
        } else {
            assert(positional_pairs(ps.take(i + 1), pos) == positional_pairs(ps.take(i as int), pos));
        }
        i = i + 1;
    }
    assert(ps.take(i as int) =~= ps);
    let ghost pos_pairs = positional_pairs(ps, pos);
    let ghost named_pairs = pair_views(named.entries@);
    let ghost base = pair_views(resolved.entries@);
    let pairs = &named.entries;
    let mut k: usize = 0;
    while k < pairs.len()
        invariant
            k <= pairs.len(),
            named_pairs == pair_views(pairs@),
            map_of(named_pairs) == named@,
            map_of(base) == map_of(pos_pairs),
            pair_views(resolved.entries@) == base + named_pairs.take(k as int),
        decreases pairs.len() - k,
    {
        let ghost before = pair_views(resolved.entries@);
        resolved.entries.push((copy(&pairs[k].0), copy(&pairs[k].1)));
        assert(pair_views(resolved.entries@) =~= before.push(named_pairs[k as int]));
        k = k + 1;
        assert(named_pairs.take(k as int) =~= named_pairs.take(k - 1).push(named_pairs[k - 1]));
    }
    assert(named_pairs.take(k as int) =~= named_pairs);
    proof {
        lemma_map_of_concat(base, named_pairs);
    }
    let ghost values = resolve(ps, pos, named@);
    assert(resolved@ == values);
    // Substitute each body line.
    let body = vecs_of(&def.body_lines);
    let mut out: Vec<Vec<char>> = Vec::new();
    let mut b: usize = 0;
    while b < body.len()
        invariant
            b <= body.len(),
            vecs(params@) == ps,
            ps.len() == params.len(),
            resolved@ == values,
            vecs(body@) == strs(def.body_lines@),
            vecs(out@) == vecs(body@).take(b as int).map_values(
                |line: Seq<char>| subst_line(line, ps, values, ps.len() as int),
            ),
        decreases body.len() - b,
    {
        let mut line = copy(&body[b]);
        let mut j: usize = 0;
        while j < params.len()
            invariant
                j <= params.len(),
                b < body.len(),
                vecs(params@) == ps,
                ps.len() == params.len(),
                resolved@ == values,
                line@ == subst_line(body@[b as int]@, ps, values, j as int),
            decreases params.len() - j,
        {
            let p = &params[j];
            let mut ph: Vec<char> = Vec::new();
            ph.push('{');
            push_all(&mut ph, p);
            ph.push('}');
            assert(ph@ =~= placeholder(ps[j as int]));
            match resolved.get(p) {
                Some(v) => {
                    line = replace(&line, &ph, &v);
                },
                None => {},
            }
            j = j + 1;
        }
        let ghost old_out = vecs(out@);
        out.push(line);
        b = b + 1;
        assert(vecs(body@).take(b as int) =~= vecs(body@).take(b - 1).push(body@[b - 1]@));
        assert(vecs(out@) =~= old_out.push(line@));
        assert(vecs(out@) =~= vecs(body@).take(b as int).map_values(
            |line: Seq<char>| subst_line(line, ps, values, ps.len() as int),
        ));
    }
    assert(vecs(body@).take(b as int) =~= vecs(body@));
    strings_of(&out)
}

// ---------------------------------------------------------------------------
// Preprocessing a source file
// ---------------------------------------------------------------------------

/// A single macro expansion in the preprocessed output.
#[derive(Clone, Debug, PartialEq)]
pub struct MacroExpansion {
    /// Line number of the invocation in the source (0-based).
    pub line_number: usize,
    /// The invocation text as written (e.g. `?UART_INIT(PORT=0xFF0100);`).
    pub invocation: String,
    /// Name of the macro being invoked.
    pub macro_name: String,
    /// Expanded lines of the macro body.
    pub expanded_lines: Vec<String>,
}

/// Result of preprocessing a PL/SW source file.
#[derive(Clone, Debug, PartialEq)]
pub struct PreprocessResult {
    /// The preprocessed source with macro invocations replaced by comments.
    pub output: String,
    /// Individual macro expansions with their source locations.
    pub expansions: Vec<MacroExpansion>,
    /// Lines of the source as written (for display).
    pub source_lines: Vec<SourceLine>,
}

/// A line in the preprocessed view: plain source, a macro invocation or an
/// `%INCLUDE` directive.
#[derive(Clone, Debug, PartialEq)]
pub enum SourceLine {
    /// Plain source line (not a macro invocation).
    Plain(String),
    /// A macro invocation line with its expansion index.
    Invocation { text: String, expansion_idx: usize },
    /// An %INCLUDE directive.
    Include(String),
}

pub struct MacroExpansionModel {
    pub line_number: nat,
    pub invocation: Seq<char>,
    pub macro_name: Seq<char>,
    pub expanded_lines: Seq<Seq<char>>,
}

pub enum SourceLineModel {
    Plain(Seq<char>),
    Invocation { text: Seq<char>, expansion_idx: nat },
    Include(Seq<char>),
}

pub struct PreprocessModel {
    pub output: Seq<char>,
    pub expansions: Seq<MacroExpansionModel>,
    pub source_lines: Seq<SourceLineModel>,
}

impl View for MacroExpansion {
    type V = MacroExpansionModel;

    open spec fn view(&self) -> MacroExpansionModel {
        MacroExpansionModel {
            line_number: self.line_number as nat,
            invocation: self.invocation@,
            macro_name: self.macro_name@,
            expanded_lines: strs(self.expanded_lines@),
        }
    }
}

impl View for SourceLine {
    type V = SourceLineModel;

    open spec fn view(&self) -> SourceLineModel {
        match self {
            SourceLine::Plain(t) => SourceLineModel::Plain(t@),
            SourceLine::Invocation { text, expansion_idx } => SourceLineModel::Invocation {
                text: text@,
                expansion_idx: *expansion_idx as nat,
            },
            SourceLine::Include(t) => SourceLineModel::Include(t@),
        }
    }
}

pub open spec fn expansion_views(v: Seq<MacroExpansion>) -> Seq<MacroExpansionModel> {
    v.map_values(|e: MacroExpansion| e@)
}

pub open spec fn source_line_views(v: Seq<SourceLine>) -> Seq<SourceLineModel> {
    v.map_values(|l: SourceLine| l@)
}

impl View for PreprocessResult {
    type V = PreprocessModel;

    open spec fn view(&self) -> PreprocessModel {
        PreprocessModel {
            output: self.output@,
            expansions: expansion_views(self.expansions@),
            source_lines: source_line_views(self.source_lines@),
        }
    }
}

/// The (name, content) views of the macro files.
pub open spec fn file_views(m: Seq<(String, String)>) -> Seq<(Seq<char>, Seq<char>)> {
    m.map_values(|p: (String, String)| (p.0@, p.1@))
}

/// The include key of a macro file name: without a `.msw` suffix, in ASCII
/// lowercase.
pub open spec fn include_key(name: Seq<char>) -> Seq<char> {
    if ends_with(name, ".msw"@) {
        lower_seq(name.take(name.len() - ".msw"@.len()))
    } else {
        lower_seq(name)
    }
}

/// (include key, content) for each macro file.
pub open spec fn include_pairs(files: Seq<(Seq<char>, Seq<char>)>) -> Seq<(Seq<char>, Seq<char>)> {
    files.map_values(|p: (Seq<char>, Seq<char>)| (include_key(p.0), p.1))
}

/// The definitions of all macro files, file after file.
pub open spec fn all_defs(files: Seq<(Seq<char>, Seq<char>)>) -> Seq<MacroDefModel>
    decreases files.len(),
{
    if files.len() == 0 {
        seq![]
    } else {
        all_defs(files.drop_last()) + macro_defs_seq(files.last().1)
    }
}

/// Definitions by name; a later definition of a name replaces an earlier one.
pub open spec fn defs_by_name(defs: Seq<MacroDefModel>) -> Map<Seq<char>, MacroDefModel>
    decreases defs.len(),
{
    if defs.len() == 0 {
        Map::empty()
    } else {
        defs_by_name(defs.drop_last()).insert(defs.last().name, defs.last())
    }
}

pub open spec fn comment(body: Seq<char>) -> Seq<char> {
    "/* "@ + body + " */"@
}

/// The output lines that stand for an `%INCLUDE` of `key`.
pub open spec fn include_output(line: Seq<char>, key: Seq<char>, files: Map<Seq<char>, Seq<char>>) -> Seq<Seq<char>> {
    if files.contains_key(key) {
        seq![comment("--- "@ + key + ".msw ---"@)] + lines_seq(files[key]) + seq![
            comment("--- end "@ + key + ".msw ---"@),
        ]
    } else {
        seq![comment(line + " -- not found"@)]
    }
}

/// The include name on an `%INCLUDE` line.
pub open spec fn include_name(trimmed: Seq<char>) -> Seq<char> {
    lower_seq(trim_seq(trim_end_char_seq(trim_seq(trimmed.skip("%INCLUDE"@.len() as int)), ';')))
}

/// The output lines, expansions and display lines built so far.
pub struct PpState {
    pub out: Seq<Seq<char>>,
    pub expansions: Seq<MacroExpansionModel>,
    pub source_lines: Seq<SourceLineModel>,
}

pub open spec fn indent2(lines: Seq<Seq<char>>) -> Seq<Seq<char>> {
    lines.map_values(|l: Seq<char>| "  "@ + l)
}

/// Processes source line `n`.
pub open spec fn pp_step(
    st: PpState,
    n: nat,
    line: Seq<char>,
    files: Map<Seq<char>, Seq<char>>,
    defs: Map<Seq<char>, MacroDefModel>,
) -> PpState {
    let trimmed = trim_seq(line);
    if starts_with(trimmed, "%INCLUDE"@) {
        PpState {
            out: st.out + include_output(line, include_name(trimmed), files),
            expansions: st.expansions,
            source_lines: st.source_lines.push(SourceLineModel::Include(line)),
        }
    } else if trimmed.len() > 0 && trimmed[0] == '?' && invocation(trimmed) is Some
        && defs.contains_key(invocation(trimmed).unwrap().0) {
        let inv = invocation(trimmed).unwrap();
        let expanded = expansion(defs[inv.0], inv.1, inv.2);
        PpState {
            out: st.out + seq![comment(trimmed)] + indent2(expanded),
            expansions: st.expansions.push(
                MacroExpansionModel {
                    line_number: n,
                    invocation: line,
                    macro_name: inv.0,
                    expanded_lines: expanded,
                },
            ),
            source_lines: st.source_lines.push(
                SourceLineModel::Invocation { text: line, expansion_idx: st.expansions.len() },
            ),
        }
    } else {
        PpState {
            out: st.out.push(line),
            expansions: st.expansions,
            source_lines: st.source_lines.push(SourceLineModel::Plain(line)),
        }
    }
}

/// The state after the first `k` source lines.
pub open spec fn pp_fold(
    lines: Seq<Seq<char>>,
    k: int,
    files: Map<Seq<char>, Seq<char>>,
    defs: Map<Seq<char>, MacroDefModel>,
) -> PpState
    decreases k,
{
    if k <= 0 || k > lines.len() {
        PpState { out: seq![], expansions: seq![], source_lines: seq![] }
    } else {
        pp_step(pp_fold(lines, k - 1, files, defs), (k - 1) as nat, lines[k - 1], files, defs)
    }
}

/// The whole preprocessing result.
pub open spec fn preprocess_spec(source: Seq<char>, files: Seq<(Seq<char>, Seq<char>)>) -> PreprocessModel {
    let lines = lines_seq(source);
    let st = pp_fold(
        lines,
        lines.len() as int,
        map_of(include_pairs(files)),
        defs_by_name(all_defs(files)),
    );
    PreprocessModel {
        output: join_seq(st.out, seq!['\n']),
        expansions: st.expansions,
        source_lines: st.source_lines,
    }
}

/// The last definition named `name`.
fn find_def(defs: &Vec<MacroDef>, name: &Vec<char>) -> (r: Option<usize>)
    ensures
        match r {
            Some(k) => k < defs.len() && defs_by_name(def_views(defs@)).contains_key(name@)
                && defs_by_name(def_views(defs@))[name@] == defs@[k as int]@,
            None => !defs_by_name(def_views(defs@)).contains_key(name@),
        },
{
    let ghost e = def_views(defs@);
    let mut j: usize = defs.len();
    assert(e.take(j as int) =~= e);
    while j > 0
        invariant
            j <= defs.len(),
            e == def_views(defs@),
            defs_by_name(e.take(j as int)).contains_key(name@) == defs_by_name(e).contains_key(
                name@,
            ),
            defs_by_name(e.take(j as int)).contains_key(name@) ==> defs_by_name(e.take(j as int))[name@]
                == defs_by_name(e)[name@],
        decreases j,
    {
        assert(e.take(j as int).drop_last() =~= e.take(j - 1));
        assert(e.take(j as int).last() == defs@[j - 1]@);
        let dn = chars_of(defs[j - 1].name.as_str());
        if seq_eq(&dn, name) {
            return Some(j - 1);
        }
        j = j - 1;
    }
    None
}

/// The include key of a macro file name.
fn include_key_of(name: &String) -> (r: Vec<char>)
    ensures
        r@ == include_key(name@),
{
    let n = chars_of(name.as_str());
    let ext = chars_of(".msw");
    if has_suffix(&n, &ext) {
        let base = subrange(&n, 0, n.len() - ext.len());
        to_lower(&base)
    } else {
        to_lower(&n)
    }
}

/// Pushes `"/* " + body + " */"`.
fn comment_of(body: &Vec<char>) -> (r: Vec<char>)
    ensures
        r@ == comment(body@),
{
    let open = chars_of("/* ");
    let close = chars_of(" */");
    let mut r = concat(&open, body);
    push_all(&mut r, &close);
    r
}

/// Preprocess PL/SW source with the given macro files: inlines `%INCLUDE`
/// content and expands `?MACRO` invocations.
pub fn preprocess(source: &str, macro_sources: &[(String, String)]) -> (res: PreprocessResult)
    ensures
        res@ == preprocess_spec(source@, file_views(macro_sources@)),
{
    let ghost files = file_views(macro_sources@);
    // Include lookup: file name without .msw, in lowercase.
    let mut includes = NamedArgs::new();
    let mut f: usize = 0;
    while f < macro_sources.len()
        invariant
            f <= macro_sources.len(),
            files == file_views(macro_sources@),
            includes@ == map_of(include_pairs(files.take(f as int))),
        decreases macro_sources.len() - f,
    {
        let key = include_key_of(&macro_sources[f].0);
        let content = chars_of(macro_sources[f].1.as_str());
        let ghost prev = include_pairs(files.take(f as int));
        includes.insert_chars(key, content);
        f = f + 1;
        assert(include_pairs(files.take(f as int)) =~= prev.push(
            (include_key(macro_sources@[f - 1].0@), macro_sources@[f - 1].1@),
        ));
        assert(include_pairs(files.take(f as int)).drop_last() =~= prev);
    }
    assert(files.take(f as int) =~= files);
    // Every definition of every macro file, in order.
    let mut defs: Vec<MacroDef> = Vec::new();
    let mut g: usize = 0;
    assert(def_views(defs@) =~= all_defs(files.take(0)));
    while g < macro_sources.len()
        invariant
            g <= macro_sources.len(),
            files == file_views(macro_sources@),
            includes@ == map_of(include_pairs(files)),
            def_views(defs@) == all_defs(files.take(g as int)),
        decreases macro_sources.len() - g,
    {
        let parsed = parse_macro_defs(macro_sources[g].1.as_str());
        let ghost prev = def_views(defs@);
        let mut h: usize = 0;
        while h < parsed.len()
            invariant
                h <= parsed.len(),
                def_views(defs@) == prev + def_views(parsed@).take(h as int),
            decreases parsed.len() - h,
        {
            let ghost before = def_views(defs@);
            let d = parsed[h].clone_def();
            defs.push(d);
            assert(def_views(defs@) =~= before.push(parsed@[h as int]@));
            h = h + 1;
            assert(def_views(parsed@).take(h as int) =~= def_views(parsed@).take(h - 1).push(
                parsed@[h - 1]@,
            ));
            assert(def_views(defs@) =~= prev + def_views(parsed@).take(h as int));
        }
        assert(def_views(parsed@).take(h as int) =~= def_views(parsed@));
        g = g + 1;
        assert(files.take(g as int).drop_last() =~= files.take(g - 1));
        assert(files.take(g as int).last().1 == macro_sources@[g - 1].1@);
    }
    assert(files.take(g as int) =~= files);
    let ghost inc_map = map_of(include_pairs(files));
    let ghost def_map = defs_by_name(all_defs(files));
    let src = chars_of(source);
    let src_lines = lines(&src);
    let ghost ls = lines_seq(source@);
    assert(vecs(src_lines@) =~= ls);
    let kw_include = chars_of("%INCLUDE");
    let sep_open = chars_of("--- ");
    let sep_end_open = chars_of("--- end ");
    let sep_close = chars_of(".msw ---");
    let not_found = chars_of(" -- not found");
    let pad = chars_of("  ");
    let mut out: Vec<Vec<char>> = Vec::new();
    let mut expansions: Vec<MacroExpansion> = Vec::new();
    let mut source_lines: Vec<SourceLine> = Vec::new();
    let mut n: usize = 0;
    assert(vecs(out@) =~= seq![]);
    assert(expansion_views(expansions@) =~= seq![]);
    assert(source_line_views(source_lines@) =~= seq![]);
    while n < src_lines.len()
        invariant
            n <= src_lines.len(),
            vecs(src_lines@) == ls,
            includes@ == inc_map,
            def_views(defs@) == all_defs(files),
            def_map == defs_by_name(all_defs(files)),
            kw_include@ == "%INCLUDE"@,
            sep_open@ == "--- "@,
            sep_end_open@ == "--- end "@,
            sep_close@ == ".msw ---"@,
            not_found@ == " -- not found"@,
            pad@ == "  "@,
            ({
                let st = pp_fold(ls, n as int, inc_map, def_map);
                &&& vecs(out@) == st.out
                &&& expansion_views(expansions@) == st.expansions
                &&& source_line_views(source_lines@) == st.source_lines
            }),
        decreases src_lines.len() - n,
    {
        let ghost st = pp_fold(ls, n as int, inc_map, def_map);
        let ghost line_v = ls[n as int];
        assert(line_v == src_lines@[n as int]@);
        let ghost next = pp_step(st, n as nat, line_v, inc_map, def_map);
        assert(pp_fold(ls, n + 1, inc_map, def_map) == next);
        let line = &src_lines[n];
        let trimmed = trim(line);
        if has_prefix(&trimmed, &kw_include) {
            let a0 = subrange(&trimmed, kw_include.len(), trimmed.len());
            let a1 = trim(&a0);
            let a2 = trim_end_matches(&a1, ';');
            let a3 = trim(&a2);
            let key = to_lower(&a3);
            assert(key@ == include_name(trimmed@));
            let ghost old_out = vecs(out@);
            let ghost old_sl = source_line_views(source_lines@);
            source_lines.push(SourceLine::Include(string_of(line)));
            assert(source_line_views(source_lines@) =~= old_sl.push(SourceLineModel::Include(line_v)));
            match includes.get(&key) {
                Some(content) => {
                    let mut head = concat(&sep_open, &key);
                    push_all(&mut head, &sep_close);
                    out.push(comment_of(&head));
                    let inc_lines = lines(&content);
                    assert(vecs(out@) =~= old_out + seq![comment("--- "@ + key@ + ".msw ---"@)]
                        + vecs(inc_lines@).take(0));
                    let mut q: usize = 0;
                    while q < inc_lines.len()
                        invariant
                            q <= inc_lines.len(),
                            vecs(out@) == old_out + seq![comment("--- "@ + key@ + ".msw ---"@)]
                                + vecs(inc_lines@).take(q as int),
                        decreases inc_lines.len() - q,
                    {
                        let ghost before = vecs(out@);
                        out.push(copy(&inc_lines[q]));
                        assert(vecs(out@) =~= before.push(inc_lines@[q as int]@));
                        q = q + 1;
                        assert(vecs(inc_lines@).take(q as int) =~= vecs(inc_lines@).take(q - 1).push(
                            inc_lines@[q - 1]@,
                        ));
                        assert(vecs(out@) =~= old_out + seq![comment("--- "@ + key@ + ".msw ---"@)]
                            + vecs(inc_lines@).take(q as int));
                    }
                    let mut tail = concat(&sep_end_open, &key);
                    push_all(&mut tail, &sep_close);
                    let ghost before = vecs(out@);
                    out.push(comment_of(&tail));
                    assert(vecs(out@) =~= before.push(comment("--- end "@ + key@ + ".msw ---"@)));
                    assert(vecs(inc_lines@).take(q as int) =~= lines_seq(content@));
                    assert(vecs(out@) =~= old_out + include_output(line_v, key@, inc_map));
                },
                None => {
                    let body = concat(line, &not_found);
                    out.push(comment_of(&body));
                    assert(vecs(out@) =~= old_out + include_output(line_v, key@, inc_map));
                },
            }
        } else {
            let mut handled = false;
            if starts_with_char(&trimmed, '?') {
                match parse_invocation(&trimmed) {
                    Some(inv) => {
                        let name = chars_of(inv.0.as_str());
                        match find_def(&defs, &name) {
                            Some(k) => {
                                handled = true;
                                let expanded = expand_macro(&defs[k], inv.1.as_slice(), &inv.2);
                                let exp_idx = expansions.len();
                                let ghost old_out = vecs(out@);
                                let ghost old_ex = expansion_views(expansions@);
                                let ghost old_sl = source_line_views(source_lines@);
                                out.push(comment_of(&trimmed));
                                let exp_chars = vecs_of(&expanded);
                                assert(vecs(out@) =~= old_out + seq![comment(trimmed@)] + indent2(
                                    vecs(exp_chars@).take(0),
                                ));
                                let mut q: usize = 0;
                                while q < exp_chars.len()
                                    invariant
                                        q <= exp_chars.len(),
                                        pad@ == "  "@,
                                        vecs(out@) == old_out + seq![comment(trimmed@)] + indent2(
                                            vecs(exp_chars@).take(q as int),
                                        ),
                                    decreases exp_chars.len() - q,
                                {
                                    let ghost before = vecs(out@);
                                    out.push(concat(&pad, &exp_chars[q]));
                                    assert(vecs(out@) =~= before.push("  "@ + exp_chars@[q as int]@));
                                    q = q + 1;
                                    assert(vecs(exp_chars@).take(q as int) =~= vecs(exp_chars@).take(
                                        q - 1,
                                    ).push(exp_chars@[q - 1]@));
                                    assert(vecs(out@) =~= old_out + seq![comment(trimmed@)] + indent2(
                                        vecs(exp_chars@).take(q as int),
                                    ));
                                }
                                assert(vecs(exp_chars@).take(q as int) =~= vecs(exp_chars@));
                                expansions.push(
                                    MacroExpansion {
                                        line_number: n,
                                        invocation: string_of(line),
                                        macro_name: inv.0,
                                        expanded_lines: expanded,
                                    },
                                );
                                source_lines.push(
                                    SourceLine::Invocation {
                                        text: string_of(line),
                                        expansion_idx: exp_idx,
                                    },
                                );
                                assert(expansion_views(expansions@) =~= next.expansions);
                                assert(source_line_views(source_lines@) =~= next.source_lines);
                                assert(vecs(out@) =~= next.out);
                            },
                            None => {},
                        }
                    },
                    None => {},
                }
            }
            if !handled {
                let ghost old_sl = source_line_views(source_lines@);
                out.push(copy(line));
                source_lines.push(SourceLine::Plain(string_of(line)));
                assert(source_line_views(source_lines@) =~= old_sl.push(SourceLineModel::Plain(line_v)));
            }
        }
        n = n + 1;
    }
    let nl = chars_of("\n");
    proof {
        reveal_strlit("\n");
    }
    assert(nl@ =~= seq!['\n']);
    let joined = join(&out, &nl);
    PreprocessResult { output: string_of(&joined), expansions, source_lines }
}

impl MacroDef {
    /// A copy of the definition.
    pub fn clone_def(&self) -> (r: MacroDef)
        ensures
            r@ == self@,
    {
        MacroDef {
            name: self.name.clone(),
            params: clone_strings(&self.params),
            body_lines: clone_strings(&self.body_lines),
        }
    }
}

fn clone_strings(v: &Vec<String>) -> (r: Vec<String>)
    ensures
        strs(r@) == strs(v@),
{
    let c = vecs_of(v);
    strings_of(&c)
}


// ---------------------------------------------------------------------------
// How the display lines and the expansions refer to each other
// ---------------------------------------------------------------------------

/// The source text a display line stands for.
pub open spec fn line_text(l: SourceLineModel) -> Seq<char> {
    match l {
        SourceLineModel::Plain(t) => t,
        SourceLineModel::Invocation { text, .. } => text,
        SourceLineModel::Include(t) => t,
    }
}

/// The display lines stand one for one for `lines`; an invocation line
/// names the expansion made for it, and each expansion is named by exactly
/// the line it was made for.
pub open spec fn display_matches(
    lines: Seq<Seq<char>>,
    expansions: Seq<MacroExpansionModel>,
    display: Seq<SourceLineModel>,
) -> bool {
    &&& display.len() == lines.len()
    &&& expansions.len() <= display.len()
    &&& forall|i: int| 0 <= i < display.len() ==> #[trigger] line_text(display[i]) == lines[i]
    &&& forall|i: int|
        0 <= i < display.len() ==> (#[trigger] display[i] matches SourceLineModel::Invocation {
            expansion_idx,
            ..
        } ==> (expansion_idx < expansions.len() && expansions[expansion_idx as int].line_number
            == i && expansions[expansion_idx as int].invocation == lines[i]))
    &&& forall|j: int|
        0 <= j < expansions.len() ==> {
            let n = (#[trigger] expansions[j]).line_number as int;
            &&& n < display.len()
            &&& display[n] matches SourceLineModel::Invocation { expansion_idx, .. }
            &&& display[n]->expansion_idx == j
        }
}

proof fn lemma_pp_fold_display(
    lines: Seq<Seq<char>>,
    k: int,
    files: Map<Seq<char>, Seq<char>>,
    defs: Map<Seq<char>, MacroDefModel>,
)
    requires
        0 <= k <= lines.len(),
    ensures
        ({
            let st = pp_fold(lines, k, files, defs);
            display_matches(lines.take(k), st.expansions, st.source_lines)
        }),
    decreases k,
{
    if k > 0 {
        lemma_pp_fold_display(lines, k - 1, files, defs);
        let prev = pp_fold(lines, k - 1, files, defs);
        let st = pp_fold(lines, k, files, defs);
        assert(st == pp_step(prev, (k - 1) as nat, lines[k - 1], files, defs));
        let pre = lines.take(k - 1);
        let cur = lines.take(k);
        assert(cur =~= pre.push(lines[k - 1]));
        assert forall|i: int| 0 <= i < st.source_lines.len() implies #[trigger] line_text(
            st.source_lines[i],
        ) == cur[i] by {
            if i < k - 1 {
                assert(st.source_lines[i] == prev.source_lines[i]);
                assert(line_text(prev.source_lines[i]) == pre[i]);
            }
        }
        assert forall|i: int| 0 <= i < st.source_lines.len() implies (#[trigger] st.source_lines[i] matches SourceLineModel::Invocation {
            expansion_idx,
            ..
        } ==> (expansion_idx < st.expansions.len() && st.expansions[expansion_idx as int].line_number
            == i && st.expansions[expansion_idx as int].invocation == cur[i])) by {
            if i < k - 1 {
                assert(st.source_lines[i] == prev.source_lines[i]);
                match prev.source_lines[i] {
                    SourceLineModel::Invocation { expansion_idx, .. } => {
                        assert(st.expansions[expansion_idx as int]
                            == prev.expansions[expansion_idx as int]);
                    },
                    _ => {},
                }
            }
        }
        assert forall|j: int| 0 <= j < st.expansions.len() implies {
            let n = (#[trigger] st.expansions[j]).line_number as int;
            &&& n < st.source_lines.len()
            &&& st.source_lines[n] matches SourceLineModel::Invocation { expansion_idx, .. }
            &&& st.source_lines[n]->expansion_idx == j
        } by {
            if j < prev.expansions.len() {
                assert(st.expansions[j] == prev.expansions[j]);
                let n = prev.expansions[j].line_number as int;
                assert(st.source_lines[n] == prev.source_lines[n]);
            }
        }
    } else {
        assert(lines.take(0) =~= Seq::<Seq<char>>::empty());
    }
}

/// Law: the display lines of a preprocessing result stand one for one for
/// the lines of the source, each with that line's text; an invocation line
/// names the expansion made for it, whose line number is that line's and
/// whose invocation text is that line; and every expansion is named by the
/// line it was made for.
pub proof fn law_display_lines_match_source(source: Seq<char>, files: Seq<(Seq<char>, Seq<char>)>)
    ensures
        ({
            let r = preprocess_spec(source, files);
            display_matches(lines_seq(source), r.expansions, r.source_lines)
        }),
{
    let lines = lines_seq(source);
    lemma_pp_fold_display(
        lines,
        lines.len() as int,
        map_of(include_pairs(files)),
        defs_by_name(all_defs(files)),
    );
    assert(lines.take(lines.len() as int) =~= lines);
}

} // verus!
