//! Directive scanning: line-continuation normalization and recognition of
//! `[key = "value"]` directive lines.

use vstd::prelude::*;

verus! {

// ---------------------------------------------------------------------------
// Line-continuation normalization
// ---------------------------------------------------------------------------
// A backslash immediately followed by a line terminator (LF, CRLF or CR) is a
// continuation: both the backslash and the terminator are deleted, joining the
// next physical line to the current one. The text is scanned once, left to
// right, before any line splitting.

/// The normalized tail of `s` from position `i` on: every continuation
/// (backslash + LF, backslash + CRLF, backslash + CR) is deleted.
pub open spec fn norm_from(s: Seq<char>, i: int) -> Seq<char>
    decreases s.len() - i,
{
    if i < 0 || i >= s.len() {
        Seq::empty()
    } else if s[i] == '\\' && i + 1 < s.len() && s[i + 1] == '\n' {
        norm_from(s, i + 2)
    } else if s[i] == '\\' && i + 2 < s.len() && s[i + 1] == '\r' && s[i + 2] == '\n' {
        norm_from(s, i + 3)
    } else if s[i] == '\\' && i + 1 < s.len() && s[i + 1] == '\r' {
        norm_from(s, i + 2)
    } else {
        seq![s[i]] + norm_from(s, i + 1)
    }
}

/// The whole text with every line continuation deleted.
pub open spec fn normalize(s: Seq<char>) -> Seq<char> {
    norm_from(s, 0)
}

/// Relies on `String::push`: appends the given character to the end of the
/// string.
#[verifier::external_body]
pub(crate) fn push_char(s: &mut String, c: char)
    ensures
        final(s)@ == old(s)@.push(c),
{
    s.push(c);
}

/// Deletes every line continuation from `text`.
pub fn normalize_text(text: &str) -> (r: String)
    ensures
        r@ == normalize(text@),
{
    let n: usize = text.unicode_len();
    let mut out = String::new();
    let mut i: usize = 0;
    while i < n
        invariant
            i <= n,
            n == text@.len(),
            normalize(text@) == out@ + norm_from(text@, i as int),
        decreases n - i,
    {
        let c = text.get_char(i);
        let ghost prev = out@;
        if c == '\\' && i + 1 < n {
            let c1 = text.get_char(i + 1);
            if c1 == '\n' {
                i = i + 2;
            } else if c1 == '\r' {
                if i + 2 < n && text.get_char(i + 2) == '\n' {
                    i = i + 3;
                } else {
                    i = i + 2;
                }
            } else {
                push_char(&mut out, c);
                proof {
                    assert(prev + norm_from(text@, i as int) =~= out@ + norm_from(
                        text@,
                        i as int + 1,
                    ));
                }
                i = i + 1;
            }
        } else {
            push_char(&mut out, c);
            proof {
                assert(prev + norm_from(text@, i as int) =~= out@ + norm_from(
                    text@,
                    i as int + 1,
                ));
            }
            i = i + 1;
        }
    }
    proof {
        assert(out@ + norm_from(text@, i as int) =~= out@);
    }
    out
}

// ---------------------------------------------------------------------------
// Logical lines
// ---------------------------------------------------------------------------
// The normalized text is split on `'\n'`; a `'\r'` immediately before the
// `'\n'` belongs to the terminator and is not part of the line. A final line
// needs no terminator.

/// The position of the `'\n'` that ends the line starting at `i`, or the text
/// length if the last line is unterminated.
pub open spec fn line_end(s: Seq<char>, i: int) -> int
    decreases s.len() - i,
{
    if i < 0 || i >= s.len() {
        s.len() as int
    } else if s[i] == '\n' {
        i
    } else {
        line_end(s, i + 1)
    }
}

/// The logical line starting at position `i`: the characters up to its
/// terminator, with a `'\r'` that belongs to a CRLF terminator stripped.
pub open spec fn line_at(s: Seq<char>, i: int) -> Seq<char> {
    let j = line_end(s, i);
    if j < s.len() && i < j && s[j - 1] == '\r' {
        s.subrange(i, j - 1)
    } else {
        s.subrange(i, j)
    }
}

pub proof fn lemma_line_end_bounds(s: Seq<char>, i: int)
    requires
        0 <= i <= s.len(),
    ensures
        i <= line_end(s, i) <= s.len(),
        line_end(s, i) == s.len() || s[line_end(s, i)] == '\n',
    decreases s.len() - i,
{
    if i < s.len() && s[i] != '\n' {
        lemma_line_end_bounds(s, i + 1);
    }
}

// ---------------------------------------------------------------------------
// Directive recognition
// ---------------------------------------------------------------------------
// A directive line is `[key = "value"]`: a literal `[`, a key (a nonempty run
// of characters that are neither whitespace nor `=`), optional whitespace, a
// literal `=`, optional whitespace, a double-quoted value (a nonempty run of
// ASCII letters, digits and spaces), and a closing `]` that ends the line.

/// Whitespace that may surround the `=` of a directive.
pub open spec fn is_space(c: char) -> bool {
    c == ' ' || c == '\t' || c == '\r'
}

/// The characters a directive value may contain: ASCII letters, digits and
/// spaces.
pub open spec fn is_value_char(c: char) -> bool {
    ('0' <= c && c <= '9') || ('a' <= c && c <= 'z') || ('A' <= c && c <= 'Z') || c == ' '
}

/// The position right after the key run that starts at `j`.
pub open spec fn key_end(line: Seq<char>, j: int) -> int
    decreases line.len() - j,
{
    if j < 0 || j >= line.len() || line[j] == '=' || is_space(line[j]) {
        j
    } else {
        key_end(line, j + 1)
    }
}

/// The position right after the whitespace run that starts at `j`.
pub open spec fn space_end(line: Seq<char>, j: int) -> int
    decreases line.len() - j,
{
    if j < 0 || j >= line.len() || !is_space(line[j]) {
        j
    } else {
        space_end(line, j + 1)
    }
}

/// The position right after the value run that starts at `j`.
pub open spec fn value_end(line: Seq<char>, j: int) -> int
    decreases line.len() - j,
{
    if j < 0 || j >= line.len() || !is_value_char(line[j]) {
        j
    } else {
        value_end(line, j + 1)
    }
}

/// What scanning one logical line yields: lines that do not start with `[`
/// are skipped, well-formed directive lines carry a key and a value, and a
/// line that starts with `[` but does not match the grammar is invalid.
pub enum LineScan {
    Skipped,
    Directive(Seq<char>, Seq<char>),
    Invalid,
}

/// Scans one logical line.
pub open spec fn scan_line(line: Seq<char>) -> LineScan {
    if line.len() == 0 || line[0] != '[' {
        LineScan::Skipped
    } else {
        let ke = key_end(line, 1);
        let p = space_end(line, ke);
        if ke <= 1 {
            LineScan::Invalid
        } else if p >= line.len() || line[p] != '=' {
            LineScan::Invalid
        } else {
            let q = space_end(line, p + 1);
            if q >= line.len() || line[q] != '"' {
                LineScan::Invalid
            } else {
                let ve = value_end(line, q + 1);
                if ve <= q + 1 {
                    LineScan::Invalid
                } else if ve + 2 == line.len() && line[ve] == '"' && line[ve + 1] == ']' {
                    LineScan::Directive(line.subrange(1, ke), line.subrange(q + 1, ve))
                } else {
                    LineScan::Invalid
                }
            }
        }
    }
}

/// The message of the parse error raised for a line that starts with `[` but
/// does not match the directive grammar: it carries the offending line.
pub open spec fn invalid_line_message(line: Seq<char>) -> Seq<char> {
    "Invalid line:\n"@ + line
}

/// The executable counterpart of [`LineScan`], carrying owned strings.
pub enum ScannedLine {
    Skipped,
    Directive(String, String),
    Invalid,
}

fn space_char(c: char) -> (r: bool)
    ensures
        r == is_space(c),
{
    c == ' ' || c == '\t' || c == '\r'
}

fn scan_key_end(line: &str, start: usize) -> (r: usize)
    requires
        start <= line@.len(),
    ensures
        r == key_end(line@, start as int),
        start <= r <= line@.len(),
{
    let n: usize = line.unicode_len();
    let mut j: usize = start;
    while j < n
        invariant
            start <= j <= n,
            n == line@.len(),
            key_end(line@, start as int) == key_end(line@, j as int),
        ensures
            start <= j <= n,
            key_end(line@, start as int) == key_end(line@, j as int),
            j == n || line@[j as int] == '=' || is_space(line@[j as int]),
        decreases n - j,
    {
        let c = line.get_char(j);
        if c == '=' || space_char(c) {
            break ;
        }
        j = j + 1;
    }
    j
}

fn scan_space_end(line: &str, start: usize) -> (r: usize)
    requires
        start <= line@.len(),
    ensures
        r == space_end(line@, start as int),
        start <= r <= line@.len(),
{
    let n: usize = line.unicode_len();
    let mut j: usize = start;
    while j < n
        invariant
            start <= j <= n,
            n == line@.len(),
            space_end(line@, start as int) == space_end(line@, j as int),
        ensures
            start <= j <= n,
            space_end(line@, start as int) == space_end(line@, j as int),
            j == n || !is_space(line@[j as int]),
        decreases n - j,
    {
        let c = line.get_char(j);
        if !space_char(c) {
            break ;
        }
        j = j + 1;
    }
    j
}

fn scan_value_end(line: &str, start: usize) -> (r: usize)
    requires
        start <= line@.len(),
    ensures
        r == value_end(line@, start as int),
        start <= r <= line@.len(),
{
    let n: usize = line.unicode_len();
    let mut j: usize = start;
    while j < n
        invariant
            start <= j <= n,
            n == line@.len(),
            value_end(line@, start as int) == value_end(line@, j as int),
        ensures
            start <= j <= n,
            value_end(line@, start as int) == value_end(line@, j as int),
            j == n || !is_value_char(line@[j as int]),
        decreases n - j,
    {
        let c = line.get_char(j);
        let keep = ('0' <= c && c <= '9') || ('a' <= c && c <= 'z') || ('A' <= c && c <= 'Z')
            || c == ' ';
        if !keep {
            break ;
        }
        j = j + 1;
    }
    j
}

/// Copies the characters of `text` between `from` and `to` into a new string.
pub fn copy_range(text: &str, from: usize, to: usize) -> (r: String)
    requires
        from <= to <= text@.len(),
    ensures
        r@ == text@.subrange(from as int, to as int),
{
    let mut out = String::new();
    let mut k: usize = from;
    proof {
        assert(out@ =~= text@.subrange(from as int, from as int));
    }
    while k < to
        invariant
            from <= k <= to <= text@.len(),
            out@ == text@.subrange(from as int, k as int),
        decreases to - k,
    {
        let c = text.get_char(k);
        push_char(&mut out, c);
        proof {
            assert(out@ =~= text@.subrange(from as int, k as int + 1));
        }
        k = k + 1;
    }
    out
}

/// Scans one logical line, yielding owned copies of the key and the value of
/// a directive line.
pub fn scan_logical_line(line: &str) -> (r: ScannedLine)
    ensures
        match scan_line(line@) {
            LineScan::Skipped => r is Skipped,
            LineScan::Directive(k, v) => r matches ScannedLine::Directive(rk, rv) && rk@ == k
                && rv@ == v,
            LineScan::Invalid => r is Invalid,
        },
{
    let n: usize = line.unicode_len();
    if n == 0 || line.get_char(0) != '[' {
        return ScannedLine::Skipped;
    }
    let ke = scan_key_end(line, 1);
    let p = scan_space_end(line, ke);
    if ke <= 1 {
        return ScannedLine::Invalid;
    }
    if p == n || line.get_char(p) != '=' {
        return ScannedLine::Invalid;
    }
    let q = scan_space_end(line, p + 1);
    if q == n || line.get_char(q) != '"' {
        return ScannedLine::Invalid;
    }
    let ve = scan_value_end(line, q + 1);
    if ve <= q + 1 {
        return ScannedLine::Invalid;
    }
    if ve < n && line.get_char(ve) == '"' && ve + 1 < n && line.get_char(ve + 1) == ']' && ve + 2
        == n {
        let key = copy_range(line, 1, ke);
        let val = copy_range(line, q + 1, ve);
        ScannedLine::Directive(key, val)
    } else {
        ScannedLine::Invalid
    }
}

} // verus!
