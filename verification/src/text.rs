//! Post-processing of raw OCR output.
//!
//! Name fields are single-line by card-design convention, so only the first
//! line of the raw text is kept.  Description fields span several lines, so
//! newlines are joined into spaces and the edges are trimmed.

use vstd::prelude::*;
use vstd::string::StringExecFns;
use vstd::string::StrSliceExecFns;

verus! {

/// Unicode whitespace (the White_Space set), the characters trimmed from a
/// description's edges.
pub open spec fn is_space(c: char) -> bool {
    ||| c == ' ' || c == '\t' || c == '\n' || c == '\r' || c == '\x0b' || c == '\x0c'
    ||| c == '\u{85}' || c == '\u{a0}' || c == '\u{1680}'
    ||| '\u{2000}' <= c && c <= '\u{200a}'
    ||| c == '\u{2028}' || c == '\u{2029}' || c == '\u{202f}' || c == '\u{205f}' || c == '\u{3000}'
}

/// Every newline replaced by a single space.
pub open spec fn nl_to_space(s: Seq<char>) -> Seq<char> {
    s.map_values(
        |c: char|
            if c == '\n' {
                ' '
            } else {
                c
            },
    )
}

/// `r` is the first line of `raw`: the longest newline-free prefix, which is
/// all of `raw` when no newline occurs.
pub open spec fn first_line_of(raw: Seq<char>, r: Seq<char>) -> bool {
    &&& r.len() <= raw.len()
    &&& r == raw.take(r.len() as int)
    &&& forall|j: int| 0 <= j < r.len() ==> r[j] != '\n'
    &&& r.len() < raw.len() ==> raw[r.len() as int] == '\n'
}

/// `r` is `raw` with newlines joined into spaces and whitespace trimmed from
/// both edges: the trimmed range is `[a, b)`.
pub open spec fn cleaned_description_range(raw: Seq<char>, r: Seq<char>, a: int, b: int) -> bool {
    &&& 0 <= a <= b <= raw.len()
    &&& r == nl_to_space(raw.subrange(a, b))
    &&& forall|j: int| 0 <= j < a ==> is_space(raw[j])
    &&& forall|j: int| b <= j < raw.len() ==> is_space(raw[j])
    &&& a < b ==> !is_space(raw[a]) && !is_space(raw[b - 1])
}

/// `r` is `raw` with newlines joined into spaces and whitespace trimmed from
/// both edges.
pub open spec fn cleaned_description(raw: Seq<char>, r: Seq<char>) -> bool {
    exists|a: int, b: int| cleaned_description_range(raw, r, a, b)
}

/// The first-line specification admits one result per raw text: the name
/// role's cleanup is a function of the OCR answer.
pub proof fn lemma_first_line_unique(raw: Seq<char>, r1: Seq<char>, r2: Seq<char>)
    requires
        first_line_of(raw, r1),
        first_line_of(raw, r2),
    ensures
        r1 == r2,
{
    if r1.len() < r2.len() {
        assert(raw[r1.len() as int] == '\n');
        assert(r2[r1.len() as int] != '\n');
        assert(r2[r1.len() as int] == raw[r1.len() as int]);
        assert(false);
    }
    if r2.len() < r1.len() {
        assert(raw[r2.len() as int] == '\n');
        assert(r1[r2.len() as int] != '\n');
        assert(r1[r2.len() as int] == raw[r2.len() as int]);
        assert(false);
    }
    assert(r1 =~= r2);
}

/// The description specification admits one result per raw text: the
/// description role's cleanup is a function of the OCR answer.
pub proof fn lemma_cleaned_description_unique(raw: Seq<char>, r1: Seq<char>, r2: Seq<char>)
    requires
        cleaned_description(raw, r1),
        cleaned_description(raw, r2),
    ensures
        r1 == r2,
{
    let (a1, b1) = choose|a: int, b: int| cleaned_description_range(raw, r1, a, b);
    let (a2, b2) = choose|a: int, b: int| cleaned_description_range(raw, r2, a, b);
    if a1 == b1 && a2 == b2 {
        assert(r1 =~= r2);
    } else if a1 == b1 {
        assert(is_space(raw[a2]));
        assert(false);
    } else if a2 == b2 {
        assert(is_space(raw[a1]));
        assert(false);
    } else {
        if a1 < a2 {
            assert(is_space(raw[a1]));
            assert(false);
        }
        if a2 < a1 {
            assert(is_space(raw[a2]));
            assert(false);
        }
        if b1 < b2 {
            assert(is_space(raw[b2 - 1]));
            assert(false);
        }
        if b2 < b1 {
            assert(is_space(raw[b1 - 1]));
            assert(false);
        }
    }
}

/// Whether `c` is trimmed as whitespace.
fn is_space_char(c: char) -> (r: bool)
    ensures
        r == is_space(c),
{
    c == ' ' || c == '\t' || c == '\n' || c == '\r' || c == '\x0b' || c == '\x0c'
        || c == '\u{85}' || c == '\u{a0}' || c == '\u{1680}' || ('\u{2000}' <= c && c
        <= '\u{200a}') || c == '\u{2028}' || c == '\u{2029}' || c == '\u{202f}' || c == '\u{205f}'
        || c == '\u{3000}'
}

/// The index of the first newline of `raw`, or its length when no newline
/// occurs.
fn find_newline(raw: &str) -> (i: usize)
    ensures
        i <= raw@.len(),
        forall|j: int| 0 <= j < i ==> raw@[j] != '\n',
        i < raw@.len() ==> raw@[i as int] == '\n',
{
    let n = raw.unicode_len();
    let mut i: usize = 0;
    loop
        invariant_except_break
            n == raw@.len(),
            i <= n,
            forall|j: int| 0 <= j < i ==> raw@[j] != '\n',
        ensures
            i <= n,
            forall|j: int| 0 <= j < i ==> raw@[j] != '\n',
            i < n ==> raw@[i as int] == '\n',
        decreases n - i,
    {
        if i >= n {
            break ;
        }
        if raw.get_char(i) == '\n' {
            break ;
        }
        i = i + 1;
    }
    i
}

/// Keeps only the first line of the raw OCR text of a name field; trailing
/// garbage lines the engine may emit are discarded.
pub fn clean_name(raw: &str) -> (r: String)
    ensures
        first_line_of(raw@, r@),
{
    let i = find_newline(raw);
    let first = raw.substring_char(0, i);
    proof {
        assert(first@ =~= raw@.take(i as int));
    }
    first.to_owned()
}

/// Joins the raw OCR text of a description field into one line: every
/// newline becomes a single space, and Unicode whitespace is trimmed from
/// both edges.
pub fn clean_description(raw: &str) -> (r: String)
    ensures
        cleaned_description(raw@, r@),
{
    let n = raw.unicode_len();
    let mut a: usize = 0;
    loop
        invariant_except_break
            n == raw@.len(),
            a <= n,
            forall|j: int| 0 <= j < a ==> is_space(raw@[j]),
        ensures
            a <= n,
            forall|j: int| 0 <= j < a ==> is_space(raw@[j]),
            a < n ==> !is_space(raw@[a as int]),
        decreases n - a,
    {
        if a >= n {
            break ;
        }
        if !is_space_char(raw.get_char(a)) {
            break ;
        }
        a = a + 1;
    }
    let mut b: usize = n;
    loop
        invariant_except_break
            n == raw@.len(),
            a <= b <= n,
            a < n ==> !is_space(raw@[a as int]),
            forall|j: int| b <= j < n ==> is_space(raw@[j]),
        ensures
            a <= b <= n,
            forall|j: int| b <= j < n ==> is_space(raw@[j]),
            a < b ==> !is_space(raw@[b - 1]),
        decreases b,
    {
        if b <= a {
            break ;
        }
        if !is_space_char(raw.get_char(b - 1)) {
            break ;
        }
        b = b - 1;
    }
    let mut out = String::new();
    let mut seg: usize = a;
    let mut i: usize = a;
    while i < b
        invariant
            n == raw@.len(),
            a <= seg <= i <= b <= n,
            forall|j: int| seg <= j < i ==> raw@[j] != '\n',
            out@ == nl_to_space(raw@.subrange(a as int, seg as int)),
        decreases b - i,
    {
        if raw.get_char(i) == '\n' {
            out.append(raw.substring_char(seg, i));
            out.append(" ");
            proof {
                reveal_strlit(" ");
                assert(out@ =~= nl_to_space(raw@.subrange(a as int, (i + 1) as int))) by {
                    let s1 = raw@.subrange(a as int, seg as int);
                    let s2 = raw@.subrange(seg as int, i as int);
                    assert(nl_to_space(s1) + s2 + " "@ =~= nl_to_space(
                        raw@.subrange(a as int, (i + 1) as int),
                    ));
                }
            }
            seg = i + 1;
        }
        i = i + 1;
    }
    out.append(raw.substring_char(seg, b));
    proof {
        assert(out@ =~= nl_to_space(raw@.subrange(a as int, b as int))) by {
            let s1 = raw@.subrange(a as int, seg as int);
            let s2 = raw@.subrange(seg as int, b as int);
            assert(nl_to_space(s1) + s2 =~= nl_to_space(raw@.subrange(a as int, b as int)));
        }
        assert(cleaned_description_range(raw@, out@, a as int, b as int));
    }
    out
}

} // verus!
