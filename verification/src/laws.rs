//! Laws of the parser and the document model, stated and proved once for all
//! inputs.

use vstd::prelude::*;

use crate::dom::apply_directive;
use crate::dom::empty_doc;
use crate::dom::find_key;
use crate::dom::parse_result;
use crate::dom::scan_from;
use crate::dom::upsert;
use crate::dom::DocView;
use crate::scan::lemma_line_end_bounds;
use crate::scan::line_at;
use crate::scan::line_end;
use crate::scan::norm_from;
use crate::scan::normalize;
use crate::scan::scan_line;
use crate::scan::LineScan;

verus! {

// ---------------------------------------------------------------------------
// The last directive for a key wins
// ---------------------------------------------------------------------------

proof fn lemma_find_key_range(m: Seq<(Seq<char>, Seq<char>)>, k: Seq<char>, j: int)
    requires
        0 <= j <= m.len(),
    ensures
        find_key(m, k, j) == -1 || (j <= find_key(m, k, j) < m.len() && m[find_key(m, k, j)].0
            == k),
        find_key(m, k, j) == -1 ==> forall|i: int| j <= i < m.len() ==> (#[trigger] m[i]).0 != k,
    decreases m.len() - j,
{
    if j < m.len() && m[j].0 != k {
        lemma_find_key_range(m, k, j + 1);
    }
}

proof fn lemma_find_key_update(m: Seq<(Seq<char>, Seq<char>)>, k: Seq<char>, v: Seq<char>, j: int)
    requires
        0 <= j <= find_key(m, k, j),
    ensures
        find_key(m.update(find_key(m, k, j), (k, v)), k, j) == find_key(m, k, j),
    decreases m.len() - j,
{
    lemma_find_key_range(m, k, j);
    let i = find_key(m, k, j);
    if j < i {
        lemma_find_key_update(m, k, v, j + 1);
    }
}

proof fn lemma_find_key_push(m: Seq<(Seq<char>, Seq<char>)>, k: Seq<char>, v: Seq<char>, j: int)
    requires
        0 <= j <= m.len(),
        find_key(m, k, j) == -1,
    ensures
        find_key(m.push((k, v)), k, j) == m.len(),
    decreases m.len() - j,
{
    if j < m.len() {
        lemma_find_key_push(m, k, v, j + 1);
    }
}

/// Upserting a key twice leaves only the second value, at the position the
/// first upsert chose.
proof fn lemma_upsert_twice(
    m: Seq<(Seq<char>, Seq<char>)>,
    k: Seq<char>,
    v1: Seq<char>,
    v2: Seq<char>,
)
    ensures
        upsert(upsert(m, k, v1), k, v2) == upsert(m, k, v2),
{
    lemma_find_key_range(m, k, 0);
    let i = find_key(m, k, 0);
    if i == -1 {
        lemma_find_key_push(m, k, v1, 0);
        assert(upsert(upsert(m, k, v1), k, v2) =~= upsert(m, k, v2));
    } else {
        lemma_find_key_update(m, k, v1, 0);
        assert(upsert(upsert(m, k, v1), k, v2) =~= upsert(m, k, v2));
    }
}

/// Of two directives with the same key, the second wins: applying both leaves
/// the document that applying only the second would leave.
pub proof fn lemma_directive_last_wins(d: DocView, k: Seq<char>, v1: Seq<char>, v2: Seq<char>)
    ensures
        apply_directive(apply_directive(d, k, v1), k, v2) == apply_directive(d, k, v2),
{
    if k != "style"@ && k != "script"@ && k != "title"@ {
        lemma_upsert_twice(d.metadata, k, v1, v2);
    }
    assert(apply_directive(apply_directive(d, k, v1), k, v2) =~= apply_directive(d, k, v2));
}

// ---------------------------------------------------------------------------
// Well-formedness of every parsed document
// ---------------------------------------------------------------------------

/// What holds of every document the parser can produce: the metadata carries
/// no reserved key (those go to the dedicated fields), each key occurs at
/// most once, and no directive makes a body element.
pub open spec fn doc_wf(d: DocView) -> bool {
    &&& forall|i: int|
        0 <= i < d.metadata.len() ==> (#[trigger] d.metadata[i]).0 != "style"@ && d.metadata[i].0
            != "script"@ && d.metadata[i].0 != "title"@
    &&& forall|i: int, j: int|
        0 <= i < j < d.metadata.len() ==> (#[trigger] d.metadata[i]).0 != (
        #[trigger] d.metadata[j]).0
    &&& d.nodes.len() == 0
}

proof fn lemma_apply_directive_wf(d: DocView, k: Seq<char>, v: Seq<char>)
    requires
        doc_wf(d),
    ensures
        doc_wf(apply_directive(d, k, v)),
{
    if k != "style"@ && k != "script"@ && k != "title"@ {
        let m = d.metadata;
        lemma_find_key_range(m, k, 0);
        let i = find_key(m, k, 0);
        if i == -1 {
            assert(doc_wf(apply_directive(d, k, v)));
        } else {
            let m2 = m.update(i, (k, v));
            assert(forall|x: int| 0 <= x < m.len() ==> (#[trigger] m2[x]).0 == m[x].0);
            assert(doc_wf(apply_directive(d, k, v)));
        }
    }
}

proof fn lemma_scan_from_wf(s: Seq<char>, i: int, d: DocView)
    requires
        0 <= i,
        doc_wf(d),
    ensures
        scan_from(s, i, d) matches Result::Ok(d2) ==> doc_wf(d2),
    decreases s.len() - i,
{
    if i < s.len() {
        lemma_line_end_bounds(s, i);
        let j = line_end(s, i);
        let next = if j + 1 <= s.len() {
            j + 1
        } else {
            s.len() as int
        };
        match scan_line(line_at(s, i)) {
            LineScan::Skipped => {
                lemma_scan_from_wf(s, next, d);
            },
            LineScan::Directive(k, v) => {
                lemma_apply_directive_wf(d, k, v);
                lemma_scan_from_wf(s, next, apply_directive(d, k, v));
            },
            LineScan::Invalid => {},
        }
    }
}

/// Every document the parser hands to the serializer is well-formed: no
/// reserved key and no duplicate key in the metadata, no body element.
pub proof fn lemma_parse_wf(input: Seq<char>)
    ensures
        parse_result(input) matches Result::Ok(d) ==> doc_wf(d),
{
    assert(doc_wf(empty_doc()));
    lemma_scan_from_wf(normalize(input), 0, empty_doc());
}

// ---------------------------------------------------------------------------
// Inputs without directive lines parse to the default document
// ---------------------------------------------------------------------------

/// Whether position `i` starts a logical line of `s`.
pub open spec fn starts_line(s: Seq<char>, i: int) -> bool {
    i == 0 || s[i - 1] == '\n'
}

proof fn lemma_scan_from_all_skipped(s: Seq<char>, i: int, d: DocView)
    requires
        0 <= i <= s.len(),
        i == s.len() || starts_line(s, i),
        forall|x: int| 0 <= x < s.len() && #[trigger] s[x] == '[' ==> !starts_line(s, x),
    ensures
        scan_from(s, i, d) == Result::<DocView, Seq<char>>::Ok(d),
    decreases s.len() - i,
{
    if i < s.len() {
        lemma_line_end_bounds(s, i);
        let j = line_end(s, i);
        let next = if j + 1 <= s.len() {
            j + 1
        } else {
            s.len() as int
        };
        let line = line_at(s, i);
        assert(s[i] != '[');
        if line.len() > 0 {
            assert(line[0] == s[i]);
        }
        assert(scan_line(line) is Skipped);
        lemma_scan_from_all_skipped(s, next, d);
    }
}

/// An input in which no logical line starts with `[` parses to the default
/// document: placeholder title, no stylesheet, no script, no metadata.
pub proof fn lemma_no_directives_default(input: Seq<char>)
    requires
        forall|x: int|
            0 <= x < normalize(input).len() && #[trigger] normalize(input)[x] == '[' ==> !starts_line(
                normalize(input),
                x,
            ),
    ensures
        parse_result(input) == Result::<DocView, Seq<char>>::Ok(empty_doc()),
{
    lemma_scan_from_all_skipped(normalize(input), 0, empty_doc());
}

// ---------------------------------------------------------------------------
// A continuation joins two physical lines into one logical line
// ---------------------------------------------------------------------------

proof fn lemma_norm_suffix(x: Seq<char>, y: Seq<char>, j: int)
    requires
        0 <= j <= y.len(),
    ensures
        norm_from(x + y, x.len() + j) == norm_from(y, j),
    decreases y.len() - j,
{
    let s = x + y;
    if j < y.len() {
        let i = x.len() + j;
        if s[i] == '\\' && i + 1 < s.len() && s[i + 1] == '\n' {
            lemma_norm_suffix(x, y, j + 2);
        } else if s[i] == '\\' && i + 2 < s.len() && s[i + 1] == '\r' && s[i + 2] == '\n' {
            lemma_norm_suffix(x, y, j + 3);
        } else if s[i] == '\\' && i + 1 < s.len() && s[i + 1] == '\r' {
            lemma_norm_suffix(x, y, j + 2);
        } else {
            lemma_norm_suffix(x, y, j + 1);
        }
    }
}

proof fn lemma_continuation_aux(a: Seq<char>, b: Seq<char>, i: int)
    requires
        0 <= i <= a.len(),
        a.len() > 0 ==> a[a.len() - 1] != '\\',
        a.len() > 1 ==> !(a[a.len() - 2] == '\\' && a[a.len() - 1] == '\r'),
    ensures
        norm_from(a + seq!['\\', '\n'] + b, i) == norm_from(a + b, i),
    decreases a.len() - i,
{
    let c = seq!['\\', '\n'];
    let s1 = a + c + b;
    let s2 = a + b;
    if i == a.len() {
        assert(s1[i] == '\\' && s1[i + 1] == '\n');
        assert(norm_from(s1, i) == norm_from(s1, i + 2));
        assert(a + c + b =~= (a + c) + b);
        lemma_norm_suffix(a + c, b, 0);
        lemma_norm_suffix(a, b, 0);
    } else {
        if s1[i] == '\\' {
            assert(i < a.len() - 1);
            if a[i + 1] == '\n' {
                lemma_continuation_aux(a, b, i + 2);
            } else if a[i + 1] == '\r' {
                assert(i + 2 != a.len());
                if i + 2 < a.len() && a[i + 2] == '\n' {
                    lemma_continuation_aux(a, b, i + 3);
                } else {
                    lemma_continuation_aux(a, b, i + 2);
                }
            } else {
                lemma_continuation_aux(a, b, i + 1);
            }
        } else {
            lemma_continuation_aux(a, b, i + 1);
        }
    }
}

/// A backslash followed by a line break joins the next physical line to the
/// current one: deleting the pair before parsing leaves the same normalized
/// text as if the two lines had been written as one. The text before the
/// continuation may not itself end in a dangling backslash (alone or before a
/// carriage return), which would pair with what follows instead.
pub proof fn lemma_continuation_joins(a: Seq<char>, b: Seq<char>)
    requires
        a.len() > 0 ==> a[a.len() - 1] != '\\',
        a.len() > 1 ==> !(a[a.len() - 2] == '\\' && a[a.len() - 1] == '\r'),
    ensures
        normalize(a + seq!['\\', '\n'] + b) == normalize(a + b),
{
    lemma_continuation_aux(a, b, 0);
}

} // verus!
