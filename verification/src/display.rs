//! Text shaping for the source views: numbered listings and the split of a
//! line into the parts that are highlighted differently.
use vstd::prelude::*;

use crate::text::{
    chars_of, dec_string, decimal, find, find_char, has_prefix, join, join_seq, lemma_find, lines,
    lines_seq, push_all, starts_with, string_of, subrange, trim, trim_seq,
};

verus! {

// ---------------------------------------------------------------------------
// Numbered listings
// ---------------------------------------------------------------------------

/// `s` right-aligned in a field of `w` characters, padded with spaces.
pub open spec fn pad_left(s: Seq<char>, w: nat) -> Seq<char> {
    if s.len() >= w {
        s
    } else {
        Seq::new((w - s.len()) as nat, |_i: int| ' ') + s
    }
}

/// The width of the number column for `n` lines: the digits of `n`, at
/// least 3.
pub open spec fn number_width(n: nat) -> nat {
    let d = dec_string(n).len();
    if d > 3 {
        d
    } else {
        3
    }
}

/// Line `i` (0-based) of a listing whose number column is `w` wide.
pub open spec fn numbered_line(i: nat, line: Seq<char>, w: nat) -> Seq<char> {
    pad_left(dec_string(i + 1), w) + "  "@ + line
}

/// Every line of `source` behind its 1-based number, right-aligned in a
/// column as wide as the largest number (at least 3), and two spaces; the
/// lines joined with `'\n'`.
pub open spec fn number_lines_spec(source: Seq<char>) -> Seq<char> {
    let ls = lines_seq(source);
    let w = number_width(ls.len());
    join_seq(Seq::new(ls.len(), |i: int| numbered_line(i as nat, ls[i], w)), seq!['\n'])
}

fn padded(s: &Vec<char>, w: usize) -> (r: Vec<char>)
    ensures
        r@ == pad_left(s@, w as nat),
{
    let mut r: Vec<char> = Vec::new();
    if s.len() < w {
        let n = w - s.len();
        let mut i: usize = 0;
        while i < n
            invariant
                i <= n,
                r@ == Seq::new(i as nat, |_i: int| ' '),
            decreases n - i,
        {
            r.push(' ');
            i = i + 1;
            assert(r@ =~= Seq::new(i as nat, |_i: int| ' '));
        }
    }
    push_all(&mut r, s);
    proof {
        if s@.len() >= w {
            assert(r@ =~= s@);
        }
    }
    r
}

/// Adds line numbers to source text.
pub fn number_lines(source: &str) -> (r: String)
    ensures
        r@ == number_lines_spec(source@),
{
    let src = chars_of(source);
    let ls = lines(&src);
    let ghost spec_lines = lines_seq(src@);
    let count = decimal(ls.len() as u64);
    let w: usize = if count.len() > 3 {
        count.len()
    } else {
        3
    };
    let ghost w_spec = number_width(spec_lines.len());
    assert(w == w_spec);
    let sep = chars_of("  ");
    proof {
        reveal_strlit("  ");
    }
    let mut out: Vec<Vec<char>> = Vec::new();
    let mut i: usize = 0;
    while i < ls.len()
        invariant
            i <= ls.len(),
            ls@.len() == spec_lines.len(),
            forall|k: int| 0 <= k < ls@.len() ==> #[trigger] ls@[k]@ == spec_lines[k],
            sep@ == "  "@,
            w == w_spec,
            w_spec == number_width(spec_lines.len()),
            out@.len() == i,
            forall|k: int|
                0 <= k < i ==> #[trigger] out@[k]@ == numbered_line(k as nat, spec_lines[k], w_spec),
        decreases ls.len() - i,
    {
        assert(i + 1 <= u64::MAX);
        let num = decimal((i + 1) as u64);
        let mut line = padded(&num, w);
        push_all(&mut line, &sep);
        push_all(&mut line, &ls[i]);
        out.push(line);
        i = i + 1;
    }
    let nl = chars_of("\n");
    proof {
        reveal_strlit("\n");
    }
    assert(nl@ =~= seq!['\n']);
    let joined = join(&out, &nl);
    assert(out@.map_values(|v: Vec<char>| v@) =~= Seq::new(
        spec_lines.len(),
        |k: int| numbered_line(k as nat, spec_lines[k], w_spec),
    ));
    string_of(&joined)
}

// ---------------------------------------------------------------------------
// Highlighting
// ---------------------------------------------------------------------------

/// Whether a PL/SW line is shown as a comment: it starts with `/*` once
/// trimmed.
pub open spec fn comment_line_spec(line: Seq<char>) -> bool {
    starts_with(trim_seq(line), "/*"@)
}

/// Whether a PL/SW source line is shown as a comment.
pub fn is_comment_line(line: &str) -> (r: bool)
    ensures
        r == comment_line_spec(line@),
{
    let t = trim(&chars_of(line));
    let open = chars_of("/*");
    has_prefix(&t, &open)
}

/// How an assembly line of a `GEN` expansion is highlighted.
pub enum AsmLine {
    /// Nothing but white space: shown as it is.
    Blank,
    /// The trimmed line split at its first `;`: the code before it and the
    /// comment from the `;` on.
    Commented { code: String, comment: String },
    /// Code without a comment: the whole line is shown as code.
    Code,
}

pub enum AsmLineModel {
    Blank,
    Commented { code: Seq<char>, comment: Seq<char> },
    Code,
}

impl View for AsmLine {
    type V = AsmLineModel;

    open spec fn view(&self) -> AsmLineModel {
        match self {
            AsmLine::Blank => AsmLineModel::Blank,
            AsmLine::Commented { code, comment } => AsmLineModel::Commented {
                code: code@,
                comment: comment@,
            },
            AsmLine::Code => AsmLineModel::Code,
        }
    }
}

pub open spec fn asm_line_spec(line: Seq<char>) -> AsmLineModel {
    let t = trim_seq(line);
    if t.len() == 0 {
        AsmLineModel::Blank
    } else {
        match find(t, ';') {
            Some(k) => AsmLineModel::Commented { code: t.take(k), comment: t.skip(k) },
            None => AsmLineModel::Code,
        }
    }
}

/// Splits an assembly line for highlighting.
pub fn asm_line_parts(line: &str) -> (r: AsmLine)
    ensures
        r@ == asm_line_spec(line@),
{
    let t = trim(&chars_of(line));
    if t.len() == 0 {
        return AsmLine::Blank;
    }
    match find_char(&t, ';') {
        Some(k) => {
            proof {
                lemma_find(t@, ';');
            }
            let code = subrange(&t, 0, k);
            let comment = subrange(&t, k, t.len());
            assert(code@ =~= t@.take(k as int));
            assert(comment@ =~= t@.skip(k as int));
            AsmLine::Commented { code: string_of(&code), comment: string_of(&comment) }
        },
        None => AsmLine::Code,
    }
}

// ---------------------------------------------------------------------------
// Object listings
// ---------------------------------------------------------------------------

/// The upper-case hexadecimal digit for `d < 16`.
pub open spec fn hex_digit(d: nat) -> char {
    if d < 10 {
        (('0' as u32) + d) as char
    } else {
        (('A' as u32) + (d - 10)) as char
    }
}

/// The hexadecimal digits of `n`, upper case, no leading zeros.
pub open spec fn hex_digits(n: nat) -> Seq<char>
    decreases n,
{
    if n < 16 {
        seq![hex_digit(n)]
    } else {
        hex_digits(n / 16).push(hex_digit(n % 16))
    }
}

/// `n` in hexadecimal, padded with zeros to at least `w` digits (what
/// `{:0w$X}` writes).
pub open spec fn hex_padded(n: nat, w: nat) -> Seq<char> {
    let d = hex_digits(n);
    if d.len() >= w {
        d
    } else {
        Seq::new((w - d.len()) as nat, |_i: int| '0') + d
    }
}

/// Each byte of `bytes` behind a space, as two hexadecimal digits.
pub open spec fn row_bytes(bytes: Seq<u8>) -> Seq<char>
    decreases bytes.len(),
{
    if bytes.len() == 0 {
        seq![]
    } else {
        row_bytes(bytes.drop_last()) + " "@ + hex_padded(bytes.last() as nat, 2)
    }
}

/// Row `r` of a listing: the offset of its first byte in six hexadecimal
/// digits, a colon, its (up to) sixteen bytes, and a newline.
pub open spec fn listing_row(bytes: Seq<u8>, r: nat) -> Seq<char> {
    let start: int = (16 * r) as int;
    let end: int = if start + 16 <= bytes.len() { start + 16 } else { bytes.len() as int };
    hex_padded(start as nat, 6) + ":"@ + row_bytes(bytes.subrange(start, end)) + seq!['\n']
}

/// The first `k` rows of the listing.
pub open spec fn listing_rows(bytes: Seq<u8>, k: nat) -> Seq<char>
    decreases k,
{
    if k == 0 {
        seq![]
    } else {
        listing_rows(bytes, (k - 1) as nat) + listing_row(bytes, (k - 1) as nat)
    }
}

/// The object listing of `bytes`: one row per sixteen bytes (the last row
/// may be shorter).
pub open spec fn listing_spec(bytes: Seq<u8>) -> Seq<char> {
    listing_rows(bytes, ((bytes.len() + 15) / 16) as nat)
}

fn hex_digit_of(d: u64) -> (c: char)
    requires
        d < 16,
    ensures
        c == hex_digit(d as nat),
{
    if d < 10 {
        let b: u8 = 48u8 + d as u8;
        b as char
    } else {
        let b: u8 = 55u8 + d as u8;
        assert(('A' as u32) + (d - 10) == 55 + d);
        b as char
    }
}

fn hex_of(n: u64) -> (r: Vec<char>)
    ensures
        r@ == hex_digits(n as nat),
    decreases n,
{
    if n < 16 {
        let mut v: Vec<char> = Vec::new();
        v.push(hex_digit_of(n));
        assert(v@ =~= seq![hex_digit(n as nat)]);
        v
    } else {
        let mut v = hex_of(n / 16);
        v.push(hex_digit_of(n % 16));
        v
    }
}

fn hex_pad(n: u64, w: usize) -> (r: Vec<char>)
    ensures
        r@ == hex_padded(n as nat, w as nat),
{
    let d = hex_of(n);
    let mut r: Vec<char> = Vec::new();
    if d.len() < w {
        let k = w - d.len();
        let mut i: usize = 0;
        while i < k
            invariant
                i <= k,
                r@ == Seq::new(i as nat, |_i: int| '0'),
            decreases k - i,
        {
            r.push('0');
            i = i + 1;
            assert(r@ =~= Seq::new(i as nat, |_i: int| '0'));
        }
    }
    push_all(&mut r, &d);
    proof {
        if d@.len() >= w {
            assert(r@ =~= d@);
        }
    }
    r
}

/// The object listing of assembled bytes: per row of sixteen bytes, the
/// offset in six hexadecimal digits, a colon, each byte as ` XX`, a newline.
pub fn object_listing(bytes: &Vec<u8>) -> (r: String)
    ensures
        r@ == listing_spec(bytes@),
{
    let n = bytes.len();
    let rows: usize = n / 16 + if n % 16 == 0 { 0 } else { 1 };
    assert(rows == (n + 15) / 16) by (nonlinear_arith)
        requires
            rows == n / 16 + if n % 16 == 0 { 0int } else { 1int },
    ;
    let colon = chars_of(":");
    proof {
        reveal_strlit(":");
        reveal_strlit(" ");
    }
    let mut out: Vec<char> = Vec::new();
    let mut row: usize = 0;
    while row < rows
        invariant
            row <= rows,
            rows == (n + 15) / 16,
            n == bytes@.len(),
            colon@ == ":"@,
            out@ == listing_rows(bytes@, row as nat),
        decreases rows - row,
    {
        assert(16 * row < n) by (nonlinear_arith)
            requires
                row < rows,
                rows == (n + 15) / 16,
        ;
        let start: usize = 16 * row;
        let end: usize = if n - start >= 16 { start + 16 } else { n };
        let mut line = hex_pad(start as u64, 6);
        push_all(&mut line, &colon);
        let mut k: usize = start;
        while k < end
            invariant
                start <= k <= end <= n,
                n == bytes@.len(),
                line@ == hex_padded(start as nat, 6) + ":"@ + row_bytes(bytes@.subrange(start as int, k as int)),
            decreases end - k,
        {
            let ghost before = line@;
            line.push(' ');
            push_all(&mut line, &hex_pad(bytes[k] as u64, 2));
            k = k + 1;
            proof {
                reveal_strlit(" ");
            }
            let ghost sub = bytes@.subrange(start as int, k as int);
            assert(sub.drop_last() =~= bytes@.subrange(start as int, k - 1));
            assert(sub.last() == bytes@[k - 1]);
            assert(row_bytes(sub) == row_bytes(sub.drop_last()) + " "@ + hex_padded(sub.last() as nat, 2));
            assert(line@ =~= hex_padded(start as nat, 6) + ":"@ + row_bytes(bytes@.subrange(start as int, k as int)));
        }
        line.push('\n');
        push_all(&mut out, &line);
        row = row + 1;
        assert(out@ =~= listing_rows(bytes@, row as nat));
    }
    string_of(&out)
}

} // verus!
