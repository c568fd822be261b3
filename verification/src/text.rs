//! Small verified text utilities shared by the registry and the
//! interpreter.

use vstd::prelude::*;

verus! {

/// Character-wise string equality, proved equivalent to equality of the
/// views.
pub fn str_eq(a: &str, b: &str) -> (r: bool)
    ensures
        r == (a@ == b@),
{
    let alen = a.unicode_len();
    let blen = b.unicode_len();
    if alen != blen {
        return false;
    }
    let mut i: usize = 0;
    while i < alen
        invariant
            0 <= i <= alen,
            alen == a@.len(),
            alen == b@.len(),
            forall|j: int| 0 <= j < i ==> a@[j] == b@[j],
        decreases alen - i,
    {
        if a.get_char(i) != b.get_char(i) {
            return false;
        }
        i += 1;
    }
    proof {
        assert(a@ =~= b@);
    }
    true
}

// ---------------------------------------------------------------------------
// Whitespace
// ---------------------------------------------------------------------------

/// The Unicode whitespace characters, as `char::is_whitespace` knows them.
pub open spec fn spec_is_ws(c: char) -> bool {
    ||| c == ' '
    ||| c == '\t'
    ||| c == '\n'
    ||| c == '\r'
    ||| c == '\u{b}'
    ||| c == '\u{c}'
    ||| c == '\u{85}'
    ||| c == '\u{a0}'
    ||| c == '\u{1680}'
    ||| ('\u{2000}' <= c && c <= '\u{200a}')
    ||| c == '\u{2028}'
    ||| c == '\u{2029}'
    ||| c == '\u{202f}'
    ||| c == '\u{205f}'
    ||| c == '\u{3000}'
}

/// Tests a character for Unicode whitespace.
pub fn is_ws(c: char) -> (b: bool)
    ensures
        b == spec_is_ws(c),
{
    c == ' ' || c == '\t' || c == '\n' || c == '\r' || c == '\u{b}' || c == '\u{c}'
        || c == '\u{85}' || c == '\u{a0}' || c == '\u{1680}'
        || ('\u{2000}' <= c && c <= '\u{200a}') || c == '\u{2028}' || c == '\u{2029}'
        || c == '\u{202f}' || c == '\u{205f}' || c == '\u{3000}'
}

// ---------------------------------------------------------------------------
// Splitting into lines
// ---------------------------------------------------------------------------

/// Index of the first newline in `s`, or `s.len()` if there is none.
pub open spec fn find_nl(s: Seq<char>) -> int
    decreases s.len(),
{
    if s.len() == 0 {
        0
    } else if s[0] == '\n' {
        0
    } else {
        1 + find_nl(s.skip(1))
    }
}

proof fn lemma_find_nl_bounds(s: Seq<char>)
    ensures
        0 <= find_nl(s) <= s.len(),
    decreases s.len(),
{
    if s.len() > 0 && s[0] != '\n' {
        lemma_find_nl_bounds(s.skip(1));
    }
}

/// `find_nl` is pinned down by a witness position.
proof fn lemma_find_nl_at(s: Seq<char>, q: int)
    requires
        0 <= q <= s.len(),
        q < s.len() ==> s[q] == '\n',
        forall|k: int| 0 <= k < q ==> s[k] != '\n',
    ensures
        find_nl(s) == q,
    decreases s.len(),
{
    if s.len() == 0 {
    } else if s[0] == '\n' {
        assert(q == 0);
    } else {
        assert(q >= 1);
        assert(q - 1 < s.skip(1).len() ==> s.skip(1)[q - 1] == '\n');
        assert(forall|k: int| 0 <= k < q - 1 ==> #[trigger] s.skip(1)[k] != '\n');
        lemma_find_nl_at(s.skip(1), q - 1);
    }
}

/// A line piece with one carriage return stripped from its end, as
/// `str::lines` strips it before a newline.
pub open spec fn strip_cr(t: Seq<char>) -> Seq<char> {
    if t.len() > 0 && t.last() == '\r' {
        t.drop_last()
    } else {
        t
    }
}

/// The lines of a text, split at newlines; a carriage return directly
/// before a newline is not part of the line, and a final newline ends the
/// last line rather than opening an empty one.
pub open spec fn spec_lines(s: Seq<char>) -> Seq<Seq<char>>
    decreases s.len(),
    via spec_lines_decreases
{
    if s.len() == 0 {
        Seq::empty()
    } else {
        let p = find_nl(s);
        if p == s.len() {
            seq![s]
        } else {
            seq![strip_cr(s.take(p))] + spec_lines(s.skip(p + 1))
        }
    }
}

#[via_fn]
proof fn spec_lines_decreases(s: Seq<char>) {
    lemma_find_nl_bounds(s);
}

/// Index of the first newline at or after `from`, or the length if none.
fn scan_nl(s: &str, from: usize, len: usize) -> (p: usize)
    requires
        len == s@.len(),
        from <= len,
    ensures
        from <= p <= len,
        p < len ==> s@[p as int] == '\n',
        forall|k: int| from <= k < p ==> s@[k] != '\n',
{
    let mut p: usize = from;
    while p < len
        invariant
            from <= p <= len,
            len == s@.len(),
            forall|k: int| from <= k < p ==> s@[k] != '\n',
        decreases len - p,
    {
        if s.get_char(p) == '\n' {
            return p;
        }
        p += 1;
    }
    p
}

/// Splits a text into its lines.
pub fn split_lines(s: &str) -> (r: Vec<String>)
    ensures
        r@.len() == spec_lines(s@).len(),
        forall|i: int| 0 <= i < r@.len() ==> (#[trigger] r@[i])@ == spec_lines(s@)[i],
{
    let len = s.unicode_len();
    let mut r: Vec<String> = Vec::new();
    let mut pos: usize = 0;
    proof {
        assert(s@.skip(0) =~= s@);
        assert(r@.map_values(|t: String| t@) =~= Seq::<Seq<char>>::empty());
    }
    while pos < len
        invariant
            0 <= pos <= len,
            len == s@.len(),
            spec_lines(s@) =~= r@.map_values(|t: String| t@) + spec_lines(s@.skip(pos as int)),
            r@.map_values(|t: String| t@).len() == r@.len(),
        decreases len - pos,
    {
        let ghost pre = r@.map_values(|t: String| t@);
        let ghost tail = s@.skip(pos as int);
        let p = scan_nl(s, pos, len);
        proof {
            assert(forall|k: int| 0 <= k < p - pos ==> #[trigger] tail[k] != '\n');
            assert(p - pos < tail.len() ==> tail[p - pos] == '\n');
            lemma_find_nl_at(tail, p - pos);
        }
        if p == len {
            // Final line, no newline: taken whole.
            let piece = String::from_str(s.substring_char(pos, len));
            r.push(piece);
            proof {
                assert(tail.take(tail.len() as int) =~= tail);
                assert(tail =~= s@.subrange(pos as int, len as int));
                assert(r@.map_values(|t: String| t@) =~= pre.push(tail));
                assert(spec_lines(tail) =~= seq![tail]);
                assert(spec_lines(s@.skip(len as int)) =~= Seq::<Seq<char>>::empty());
            }
            pos = len;
        } else {
            // Piece up to the newline, with one trailing '\r' stripped.
            let mut end = p;
            if end > pos && s.get_char(end - 1) == '\r' {
                end -= 1;
            }
            let piece = String::from_str(s.substring_char(pos, end));
            r.push(piece);
            proof {
                assert(tail.take(p - pos) =~= s@.subrange(pos as int, p as int));
                assert(strip_cr(tail.take(p - pos)) =~= s@.subrange(pos as int, end as int));
                assert(r@.map_values(|t: String| t@) =~= pre.push(
                    strip_cr(tail.take(p - pos)),
                ));
                assert(tail.skip(p - pos + 1) =~= s@.skip(p + 1 as int));
            }
            pos = p + 1;
        }
    }
    proof {
        assert(spec_lines(s@.skip(pos as int)) =~= Seq::<Seq<char>>::empty());
        assert(r@.map_values(|t: String| t@) =~= spec_lines(s@));
        assert forall|i: int| 0 <= i < r@.len() implies (#[trigger] r@[i])@ == spec_lines(
            s@,
        )[i] by {
            assert(r@.map_values(|t: String| t@)[i] == r@[i]@);
        }
    }
    r
}

// ---------------------------------------------------------------------------
// Trimming
// ---------------------------------------------------------------------------

/// Count of leading whitespace characters.
pub open spec fn start_trim(s: Seq<char>) -> int
    decreases s.len(),
{
    if s.len() > 0 && spec_is_ws(s[0]) {
        1 + start_trim(s.skip(1))
    } else {
        0
    }
}

/// Position just past the last non-whitespace character.
pub open spec fn end_trim(s: Seq<char>) -> int
    decreases s.len(),
{
    if s.len() > 0 && spec_is_ws(s.last()) {
        end_trim(s.drop_last())
    } else {
        s.len() as int
    }
}

/// The text with leading and trailing whitespace removed, as `str::trim`.
pub open spec fn spec_trim(s: Seq<char>) -> Seq<char> {
    let head = s.take(end_trim(s));
    head.skip(start_trim(head))
}

proof fn lemma_start_trim_at(s: Seq<char>, a: int)
    requires
        0 <= a <= s.len(),
        a < s.len() ==> !spec_is_ws(s[a]),
        forall|k: int| 0 <= k < a ==> spec_is_ws(#[trigger] s[k]),
    ensures
        start_trim(s) == a,
    decreases s.len(),
{
    if s.len() > 0 && spec_is_ws(s[0]) {
        assert(a >= 1);
        assert(a - 1 < s.skip(1).len() ==> !spec_is_ws(s.skip(1)[a - 1]));
        assert(forall|k: int| 0 <= k < a - 1 ==> spec_is_ws(#[trigger] s.skip(1)[k]));
        lemma_start_trim_at(s.skip(1), a - 1);
    } else {
        assert(a == 0);
    }
}

proof fn lemma_end_trim_at(s: Seq<char>, b: int)
    requires
        0 <= b <= s.len(),
        b > 0 ==> !spec_is_ws(s[b - 1]),
        forall|k: int| b <= k < s.len() ==> spec_is_ws(#[trigger] s[k]),
    ensures
        end_trim(s) == b,
    decreases s.len(),
{
    if s.len() > 0 && spec_is_ws(s.last()) {
        assert(b < s.len());
        assert(forall|k: int|
            b <= k < s.drop_last().len() ==> spec_is_ws(#[trigger] s.drop_last()[k]));
        lemma_end_trim_at(s.drop_last(), b);
    } else {
        assert(b == s.len());
    }
}

/// Position just past the last non-whitespace character before `len`.
fn scan_trim_end(s: &str, len: usize) -> (b: usize)
    requires
        len == s@.len(),
    ensures
        0 <= b <= len,
        b > 0 ==> !spec_is_ws(s@[b - 1]),
        forall|k: int| b <= k < len ==> spec_is_ws(#[trigger] s@[k]),
{
    let mut b: usize = len;
    while b > 0
        invariant
            0 <= b <= len,
            len == s@.len(),
            forall|k: int| b <= k < len ==> spec_is_ws(#[trigger] s@[k]),
        decreases b,
    {
        if !is_ws(s.get_char(b - 1)) {
            return b;
        }
        b -= 1;
    }
    b
}

/// Removes leading and trailing whitespace.
pub fn trim(s: &str) -> (r: &str)
    ensures
        r@ == spec_trim(s@),
{
    let len = s.unicode_len();
    let b = scan_trim_end(s, len);
    proof {
        lemma_end_trim_at(s@, b as int);
    }
    if b == 0 {
        let r = s.substring_char(0, 0);
        proof {
            let head = s@.take(0);
            assert(head.len() == 0);
            lemma_start_trim_at(head, 0);
            assert(r@ =~= head.skip(0));
        }
        return r;
    }
    let a = scan_non_ws(s, 0, b);
    proof {
        assert(!spec_is_ws(s@[b - 1]));
        assert(a < b);
    }
    let r = s.substring_char(a, b);
    proof {
        let head = s@.take(b as int);
        assert(forall|k: int| 0 <= k < a ==> spec_is_ws(#[trigger] head[k]));
        assert(!spec_is_ws(head[a as int]));
        lemma_start_trim_at(head, a as int);
        assert(head.skip(a as int) =~= s@.subrange(a as int, b as int));
    }
    r
}

// ---------------------------------------------------------------------------
// Tokens
// ---------------------------------------------------------------------------

/// Index of the first whitespace character in `s`, or `s.len()` if none.
pub open spec fn find_ws(s: Seq<char>) -> int
    decreases s.len(),
{
    if s.len() == 0 {
        0
    } else if spec_is_ws(s[0]) {
        0
    } else {
        1 + find_ws(s.skip(1))
    }
}

proof fn lemma_find_ws_bounds(s: Seq<char>)
    ensures
        0 <= find_ws(s) <= s.len(),
    decreases s.len(),
{
    if s.len() > 0 && !spec_is_ws(s[0]) {
        lemma_find_ws_bounds(s.skip(1));
    }
}

proof fn lemma_find_ws_at(s: Seq<char>, q: int)
    requires
        0 <= q <= s.len(),
        q < s.len() ==> spec_is_ws(s[q]),
        forall|k: int| 0 <= k < q ==> !spec_is_ws(#[trigger] s[k]),
    ensures
        find_ws(s) == q,
    decreases s.len(),
{
    if s.len() == 0 {
    } else if spec_is_ws(s[0]) {
        assert(q == 0);
    } else {
        assert(q >= 1);
        assert(q - 1 < s.skip(1).len() ==> spec_is_ws(s.skip(1)[q - 1]));
        assert(forall|k: int| 0 <= k < q - 1 ==> !spec_is_ws(#[trigger] s.skip(1)[k]));
        lemma_find_ws_at(s.skip(1), q - 1);
    }
}

/// The whitespace-separated tokens of a text, as `str::split_whitespace`.
pub open spec fn spec_tokens(s: Seq<char>) -> Seq<Seq<char>>
    decreases s.len(),
    via spec_tokens_decreases
{
    if s.len() == 0 {
        Seq::empty()
    } else if spec_is_ws(s[0]) {
        spec_tokens(s.skip(1))
    } else {
        let e = find_ws(s);
        seq![s.take(e)] + spec_tokens(s.skip(e))
    }
}

#[via_fn]
proof fn spec_tokens_decreases(s: Seq<char>) {
    lemma_find_ws_bounds(s);
    if s.len() > 0 && !spec_is_ws(s[0]) {
        lemma_find_ws_bounds(s.skip(1));
        assert(find_ws(s) >= 1);
    }
}

/// Index of the first non-whitespace character in `[from, to)`, or `to` if
/// none.
fn scan_non_ws(s: &str, from: usize, to: usize) -> (p: usize)
    requires
        to <= s@.len(),
        from <= to,
    ensures
        from <= p <= to,
        p < to ==> !spec_is_ws(s@[p as int]),
        forall|k: int| from <= k < p ==> spec_is_ws(#[trigger] s@[k]),
{
    let mut p: usize = from;
    while p < to
        invariant
            from <= p <= to,
            to <= s@.len(),
            forall|k: int| from <= k < p ==> spec_is_ws(#[trigger] s@[k]),
        decreases to - p,
    {
        if !is_ws(s.get_char(p)) {
            return p;
        }
        p += 1;
    }
    p
}

/// Index of the first whitespace character at or after `from`, or the
/// length if none.
fn scan_ws(s: &str, from: usize, len: usize) -> (p: usize)
    requires
        len == s@.len(),
        from <= len,
    ensures
        from <= p <= len,
        p < len ==> spec_is_ws(s@[p as int]),
        forall|k: int| from <= k < p ==> !spec_is_ws(#[trigger] s@[k]),
{
    let mut p: usize = from;
    while p < len
        invariant
            from <= p <= len,
            len == s@.len(),
            forall|k: int| from <= k < p ==> !spec_is_ws(#[trigger] s@[k]),
        decreases len - p,
    {
        if is_ws(s.get_char(p)) {
            return p;
        }
        p += 1;
    }
    p
}

/// Whitespace at the head of the text does not change its tokens.
proof fn lemma_tokens_skip_ws(s: Seq<char>, from: int, to: int)
    requires
        0 <= from <= to <= s.len(),
        forall|k: int| from <= k < to ==> spec_is_ws(#[trigger] s[k]),
    ensures
        spec_tokens(s.skip(from)) == spec_tokens(s.skip(to)),
    decreases to - from,
{
    if from < to {
        assert(s.skip(from)[0] == s[from]);
        assert(s.skip(from).skip(1) =~= s.skip(from + 1));
        lemma_tokens_skip_ws(s, from + 1, to);
    }
}

/// Splits a text into its whitespace-separated tokens.
pub fn tokenize(s: &str) -> (r: Vec<String>)
    ensures
        r@.len() == spec_tokens(s@).len(),
        forall|i: int| 0 <= i < r@.len() ==> (#[trigger] r@[i])@ == spec_tokens(s@)[i],
{
    let len = s.unicode_len();
    let mut r: Vec<String> = Vec::new();
    let mut pos: usize = 0;
    proof {
        assert(s@.skip(0) =~= s@);
        assert(r@.map_values(|t: String| t@) =~= Seq::<Seq<char>>::empty());
    }
    while pos < len
        invariant
            0 <= pos <= len,
            len == s@.len(),
            spec_tokens(s@) =~= r@.map_values(|t: String| t@) + spec_tokens(s@.skip(pos as int)),
            r@.map_values(|t: String| t@).len() == r@.len(),
        decreases len - pos,
    {
        let ghost pre = r@.map_values(|t: String| t@);
        let start = scan_non_ws(s, pos, len);
        proof {
            lemma_tokens_skip_ws(s@, pos as int, start as int);
        }
        if start == len {
            proof {
                assert(s@.skip(len as int).len() == 0);
            }
            pos = len;
        } else {
            let stop = scan_ws(s, start, len);
            let ghost tail = s@.skip(start as int);
            proof {
                assert(forall|k: int| 0 <= k < stop - start ==> !spec_is_ws(#[trigger] tail[k]));
                assert(stop - start < tail.len() ==> spec_is_ws(tail[stop - start]));
                lemma_find_ws_at(tail, stop - start);
                assert(!spec_is_ws(tail[0]));
            }
            let piece = String::from_str(s.substring_char(start, stop));
            r.push(piece);
            proof {
                assert(tail.take(stop - start) =~= s@.subrange(start as int, stop as int));
                assert(tail.skip(stop - start) =~= s@.skip(stop as int));
                assert(r@.map_values(|t: String| t@) =~= pre.push(tail.take(stop - start)));
                assert(spec_tokens(tail) =~= seq![tail.take(stop - start)] + spec_tokens(
                    s@.skip(stop as int),
                ));
            }
            pos = stop;
        }
    }
    proof {
        assert(spec_tokens(s@.skip(pos as int)) =~= Seq::<Seq<char>>::empty());
        assert(r@.map_values(|t: String| t@) =~= spec_tokens(s@));
        assert forall|i: int| 0 <= i < r@.len() implies (#[trigger] r@[i])@ == spec_tokens(
            s@,
        )[i] by {
            assert(r@.map_values(|t: String| t@)[i] == r@[i]@);
        }
    }
    r
}

/// The tokens rejoined with single spaces, as the interpreter echoes an
/// unknown command.
pub open spec fn spec_join(ts: Seq<Seq<char>>) -> Seq<char>
    decreases ts.len(),
{
    if ts.len() == 0 {
        Seq::empty()
    } else if ts.len() == 1 {
        ts[0]
    } else {
        spec_join(ts.drop_last()) + seq![' '] + ts.last()
    }
}

/// Joins tokens with single spaces.
pub fn join_tokens(ts: &Vec<String>) -> (r: String)
    ensures
        r@ == spec_join(ts@.map_values(|t: String| t@)),
{
    proof {
        reveal_strlit(" ");
    }
    let ghost views = ts@.map_values(|t: String| t@);
    let mut r = String::new();
    let mut i: usize = 0;
    while i < ts.len()
        invariant
            0 <= i <= ts@.len(),
            views == ts@.map_values(|t: String| t@),
            views.len() == ts@.len(),
            r@ == spec_join(views.take(i as int)),
            " "@ == seq![' '],
        decreases ts@.len() - i,
    {
        if i > 0 {
            r.append(" ");
        }
        r.append(ts[i].as_str());
        proof {
            let taken = views.take(i + 1 as int);
            assert(taken.drop_last() =~= views.take(i as int));
            assert(taken.last() == views[i as int]);
            if i == 0 {
                assert(r@ =~= views[0]);
            }
        }
        i += 1;
    }
    proof {
        assert(views.take(ts@.len() as int) =~= views);
    }
    r
}

} // verus!

