//! Character-level text operations with exact specifications: searching,
//! splitting, joining, decimal rendering and decimal parsing.

use vstd::prelude::*;

verus! {

broadcast use vstd::string::group_string_axioms;

// ---------------------------------------------------------------------------
// Specifications
// ---------------------------------------------------------------------------

/// `p` occurs in `s` at position `k`.
pub open spec fn occurs_at(s: Seq<char>, p: Seq<char>, k: int) -> bool {
    0 <= k && k + p.len() <= s.len() && s.subrange(k, k + p.len()) == p
}

/// The index of the leftmost occurrence of `p` in `s` at or after `i`.
pub open spec fn find_from(s: Seq<char>, p: Seq<char>, i: int) -> Option<int>
    decreases s.len() + 1 - i,
{
    if i < 0 || i + p.len() > s.len() {
        None
    } else if s.subrange(i, i + p.len()) == p {
        Some(i)
    } else {
        find_from(s, p, i + 1)
    }
}

/// `s` holds `p` somewhere (as `str::contains` with a string pattern).
pub open spec fn contains(s: Seq<char>, p: Seq<char>) -> bool {
    find_from(s, p, 0) is Some
}

/// The pieces of `s.subrange(start, s.len())` between the non-overlapping
/// leftmost occurrences of the non-empty separator `p` (as `str::split`).
pub open spec fn split_from(s: Seq<char>, p: Seq<char>, start: int) -> Seq<Seq<char>>
    decreases s.len() - start,
{
    if p.len() == 0 || start < 0 || start > s.len() {
        Seq::empty()
    } else {
        match find_from(s, p, start) {
            None => seq![s.subrange(start, s.len() as int)],
            Some(j) => if start <= j && j + p.len() <= s.len() {
                seq![s.subrange(start, j)] + split_from(s, p, j + p.len())
            } else {
                Seq::empty()
            },
        }
    }
}

/// `str::split(s, p)` for a non-empty separator `p`.
pub open spec fn split(s: Seq<char>, p: Seq<char>) -> Seq<Seq<char>> {
    split_from(s, p, 0)
}

/// The `k`-th piece of `split(s, p)`, when there is one.
pub open spec fn piece(s: Seq<char>, p: Seq<char>, k: int) -> Seq<char> {
    split(s, p)[k]
}

/// `pieces.join(sep)`.
pub open spec fn join(pieces: Seq<Seq<char>>, sep: Seq<char>) -> Seq<char>
    decreases pieces.len(),
{
    if pieces.len() == 0 {
        Seq::empty()
    } else if pieces.len() == 1 {
        pieces[0]
    } else {
        join(pieces.drop_last(), sep) + sep + pieces.last()
    }
}

/// The decimal digit character for `d < 10`.
pub open spec fn digit_char(d: int) -> char {
    if d == 0 {
        '0'
    } else if d == 1 {
        '1'
    } else if d == 2 {
        '2'
    } else if d == 3 {
        '3'
    } else if d == 4 {
        '4'
    } else if d == 5 {
        '5'
    } else if d == 6 {
        '6'
    } else if d == 7 {
        '7'
    } else if d == 8 {
        '8'
    } else {
        '9'
    }
}

/// The decimal representation of `n`, as `to_string` renders an unsigned integer.
pub open spec fn decimal(n: nat) -> Seq<char>
    decreases n,
{
    if n < 10 {
        seq![digit_char(n as int)]
    } else {
        decimal(n / 10).push(digit_char((n % 10) as int))
    }
}

/// The decimal representation of a signed integer, as `to_string` renders it.
pub open spec fn signed_decimal(n: int) -> Seq<char> {
    if n < 0 {
        seq!['-'] + decimal((-n) as nat)
    } else {
        decimal(n as nat)
    }
}

/// `c` is an ASCII decimal digit.
pub open spec fn is_digit(c: char) -> bool {
    48 <= (c as u32) <= 57
}

/// The value of the ASCII digit `c`.
pub open spec fn digit_value(c: char) -> int {
    (c as u32) - 48
}

/// Every character of `s` is an ASCII decimal digit.
pub open spec fn all_digits(s: Seq<char>) -> bool {
    forall|i: int| 0 <= i < s.len() ==> is_digit(#[trigger] s[i])
}

/// The number written by the digit string `s` (most significant digit first).
pub open spec fn digits_value(s: Seq<char>) -> int
    decreases s.len(),
{
    if s.len() == 0 {
        0
    } else {
        digits_value(s.drop_last()) * 10 + digit_value(s.last())
    }
}

/// What `str::parse::<i32>` gives: an optional sign (`+` or `-`) followed by
/// at least one ASCII digit, with the value in the range of `i32`.
pub open spec fn parse_i32(s: Seq<char>) -> Option<i32> {
    if s.len() == 0 {
        None
    } else {
        let neg = s[0] == '-';
        let digits = if s[0] == '-' || s[0] == '+' { s.drop_first() } else { s };
        if digits.len() == 0 || !all_digits(digits) {
            None
        } else {
            let v = if neg { -digits_value(digits) } else { digits_value(digits) };
            if i32::MIN <= v <= i32::MAX {
                Some(v as i32)
            } else {
                None
            }
        }
    }
}

/// The views of a vector of character vectors.
pub open spec fn views(v: Seq<Vec<char>>) -> Seq<Seq<char>> {
    v.map_values(|x: Vec<char>| x@)
}

// ---------------------------------------------------------------------------
// Lemmas
// ---------------------------------------------------------------------------

/// A found occurrence lies at or after the start, really matches, and no
/// earlier position from the start matches.
pub proof fn lemma_find_from(s: Seq<char>, p: Seq<char>, i: int)
    ensures
        find_from(s, p, i) matches Some(j) ==> {
            &&& 0 <= i <= j
            &&& j + p.len() <= s.len()
            &&& occurs_at(s, p, j)
            &&& forall|k: int| i <= k < j ==> !#[trigger] occurs_at(s, p, k)
        },
        find_from(s, p, i) is None && 0 <= i ==> forall|k: int|
            i <= k ==> !#[trigger] occurs_at(s, p, k),
    decreases s.len() + 1 - i,
{
    if i < 0 || i + p.len() > s.len() {
    } else if s.subrange(i, i + p.len()) == p {
    } else {
        lemma_find_from(s, p, i + 1);
    }
}

/// Splitting with a non-empty separator always gives at least one piece.
pub proof fn lemma_split_nonempty(s: Seq<char>, p: Seq<char>)
    requires
        p.len() > 0,
    ensures
        split(s, p).len() >= 1,
{
    lemma_find_from(s, p, 0);
}

/// `p` occurs in `s` at some position.
pub proof fn lemma_occurs_contains(s: Seq<char>, p: Seq<char>, k: int)
    requires
        occurs_at(s, p, k),
    ensures
        contains(s, p),
{
    lemma_find_from(s, p, 0);
}

/// A text contains `p` exactly when `p` occurs in it somewhere.
pub proof fn lemma_contains_witness(s: Seq<char>, p: Seq<char>)
    ensures
        contains(s, p) ==> occurs_at(s, p, find_from(s, p, 0)->0),
        !contains(s, p) ==> forall|k: int| !#[trigger] occurs_at(s, p, k),
{
    lemma_find_from(s, p, 0);
}

/// The search for the leftmost occurrence finds `j` when `p` occurs at `j`
/// and nowhere between `i` and `j`.
pub proof fn lemma_find_first(s: Seq<char>, p: Seq<char>, i: int, j: int)
    requires
        0 <= i <= j,
        occurs_at(s, p, j),
        forall|k: int| i <= k < j ==> !#[trigger] occurs_at(s, p, k),
    ensures
        find_from(s, p, i) == Some(j),
    decreases j - i,
{
    if i < j {
        assert(!occurs_at(s, p, i));
        lemma_find_first(s, p, i + 1, j);
    }
}

/// Searching in `x + y` from a position inside `y` is searching in `y`.
pub proof fn lemma_find_shift(x: Seq<char>, y: Seq<char>, p: Seq<char>, i: int)
    requires
        0 <= i,
    ensures
        find_from(x + y, p, x.len() + i) == match find_from(y, p, i) {
            Some(j) => Some(j + x.len()),
            None => None,
        },
    decreases y.len() + 1 - i,
{
    let s = x + y;
    if i + p.len() > y.len() {
    } else {
        assert(s.subrange(x.len() + i, x.len() + i + p.len()) =~= y.subrange(i, i + p.len()));
        if y.subrange(i, i + p.len()) == p {
        } else {
            lemma_find_shift(x, y, p, i + 1);
            assert(x.len() + i + 1 == x.len() + (i + 1));
        }
    }
}

/// Splitting `x + y` from a position inside `y` is splitting `y`.
pub proof fn lemma_split_shift(x: Seq<char>, y: Seq<char>, p: Seq<char>, i: int)
    requires
        0 <= i <= y.len(),
        p.len() > 0,
    ensures
        split_from(x + y, p, x.len() + i) == split_from(y, p, i),
    decreases y.len() - i,
{
    let s = x + y;
    lemma_find_shift(x, y, p, i);
    lemma_find_from(y, p, i);
    match find_from(y, p, i) {
        None => {
            assert(s.subrange(x.len() + i, s.len() as int) =~= y.subrange(i, y.len() as int));
        },
        Some(j) => {
            assert(s.subrange(x.len() + i, x.len() + j) =~= y.subrange(i, j));
            lemma_split_shift(x, y, p, j + p.len());
            assert(x.len() + j + p.len() == x.len() + (j + p.len()));
        },
    }
}

/// A text without a carriage return holds no CRLF.
pub proof fn lemma_no_cr_no_crlf(s: Seq<char>)
    requires
        forall|i: int| 0 <= i < s.len() ==> s[i] != '\r',
    ensures
        !contains(s, "\r\n"@),
{
    reveal_strlit("\r\n");
    lemma_find_from(s, "\r\n"@, 0);
    if contains(s, "\r\n"@) {
        let j = find_from(s, "\r\n"@, 0)->0;
        assert(s.subrange(j, j + 2)[0] == s[j]);
    }
}

/// Text without a carriage return followed by text without CRLF holds no
/// CRLF.
pub proof fn lemma_concat_no_crlf(x: Seq<char>, y: Seq<char>)
    requires
        forall|i: int| 0 <= i < x.len() ==> x[i] != '\r',
        !contains(y, "\r\n"@),
    ensures
        !contains(x + y, "\r\n"@),
{
    reveal_strlit("\r\n");
    let p = "\r\n"@;
    let s = x + y;
    lemma_find_from(s, p, 0);
    lemma_contains_witness(y, p);
    if contains(s, p) {
        let j = find_from(s, p, 0)->0;
        assert(s.subrange(j, j + 2)[0] == s[j]);
        if j < x.len() {
            assert(s[j] == x[j]);
        } else {
            assert(y.subrange(j - x.len(), j - x.len() + 2) =~= s.subrange(j, j + 2));
            assert(occurs_at(y, p, j - x.len()));
        }
    }
}

/// A part of a text without `q` is without `q`.
pub proof fn lemma_subrange_lacks(s: Seq<char>, q: Seq<char>, a: int, b: int)
    requires
        0 <= a <= b <= s.len(),
        !contains(s, q),
    ensures
        !contains(s.subrange(a, b), q),
{
    let t = s.subrange(a, b);
    lemma_contains_witness(s, q);
    lemma_find_from(t, q, 0);
    if contains(t, q) {
        let j = find_from(t, q, 0)->0;
        assert(s.subrange(a + j, a + j + q.len()) =~= t.subrange(j, j + q.len()));
        assert(occurs_at(s, q, a + j));
    }
}

/// Every piece of a split is a part of the text.
pub proof fn lemma_pieces_are_parts(s: Seq<char>, p: Seq<char>, i: int)
    requires
        p.len() > 0,
    ensures
        forall|k: int|
            0 <= k < split_from(s, p, i).len() ==> exists|a: int, b: int|
                0 <= a <= b <= s.len() && #[trigger] split_from(s, p, i)[k] == s.subrange(a, b),
    decreases s.len() - i,
{
    if i < 0 || i > s.len() {
    } else {
        lemma_find_from(s, p, i);
        match find_from(s, p, i) {
            None => {
                assert forall|k: int|
                    0 <= k < split_from(s, p, i).len() implies exists|a: int, b: int|
                    0 <= a <= b <= s.len() && #[trigger] split_from(s, p, i)[k] == s.subrange(
                        a,
                        b,
                    ) by {
                    assert(split_from(s, p, i)[k] == s.subrange(i, s.len() as int));
                }
            },
            Some(j) => {
                lemma_pieces_are_parts(s, p, j + p.len());
                let rest = split_from(s, p, j + p.len());
                assert forall|k: int|
                    0 <= k < split_from(s, p, i).len() implies exists|a: int, b: int|
                    0 <= a <= b <= s.len() && #[trigger] split_from(s, p, i)[k] == s.subrange(
                        a,
                        b,
                    ) by {
                    if k == 0 {
                        assert(split_from(s, p, i)[k] == s.subrange(i, j));
                    } else {
                        assert(split_from(s, p, i)[k] == rest[k - 1]);
                    }
                }
            },
        }
    }
}

/// No piece of a split holds the separator.
pub proof fn lemma_pieces_lack_separator(s: Seq<char>, p: Seq<char>, i: int)
    requires
        p.len() > 0,
    ensures
        forall|k: int|
            0 <= k < split_from(s, p, i).len() ==> !contains(#[trigger] split_from(s, p, i)[k], p),
    decreases s.len() - i,
{
    if i < 0 || i > s.len() {
    } else {
        lemma_find_from(s, p, i);
        match find_from(s, p, i) {
            None => {
                let t = s.subrange(i, s.len() as int);
                lemma_find_from(t, p, 0);
                if contains(t, p) {
                    let m = find_from(t, p, 0)->0;
                    assert(s.subrange(i + m, i + m + p.len()) =~= t.subrange(m, m + p.len()));
                    assert(occurs_at(s, p, i + m));
                }
                assert(split_from(s, p, i) == seq![t]);
            },
            Some(j) => {
                lemma_pieces_lack_separator(s, p, j + p.len());
                let t = s.subrange(i, j);
                lemma_find_from(t, p, 0);
                if contains(t, p) {
                    let m = find_from(t, p, 0)->0;
                    assert(s.subrange(i + m, i + m + p.len()) =~= t.subrange(m, m + p.len()));
                    assert(occurs_at(s, p, i + m));
                }
                let rest = split_from(s, p, j + p.len());
                assert forall|k: int|
                    0 <= k < split_from(s, p, i).len() implies !contains(
                    #[trigger] split_from(s, p, i)[k],
                    p,
                ) by {
                    if k == 0 {
                        assert(split_from(s, p, i)[k] == t);
                    } else {
                        assert(split_from(s, p, i)[k] == rest[k - 1]);
                    }
                }
            },
        }
    }
}

/// A text without CRLF, followed by CRLF and more text, splits at CRLF into
/// that text and the pieces of the rest.
pub proof fn lemma_split_crlf_head(a: Seq<char>, rest: Seq<char>)
    requires
        !contains(a, "\r\n"@),
    ensures
        split(a + "\r\n"@ + rest, "\r\n"@) == seq![a] + split(rest, "\r\n"@),
{
    reveal_strlit("\r\n");
    let p = "\r\n"@;
    let head = a + p;
    let s = head + rest;
    assert(a + p + rest == s);
    lemma_contains_witness(a, p);
    assert(s.subrange(a.len() as int, a.len() + 2int) =~= p);
    assert forall|k: int| 0 <= k < a.len() implies !#[trigger] occurs_at(s, p, k) by {
        if k + 2 <= a.len() {
            assert(s.subrange(k, k + 2) =~= a.subrange(k, k + 2));
            assert(!occurs_at(a, p, k));
        } else {
            assert(s.subrange(k, k + 2)[1] == s[k + 1]);
            assert(s[k + 1] == '\r');
        }
    }
    lemma_find_first(s, p, 0, a.len() as int);
    assert(s.subrange(0, a.len() as int) =~= a);
    lemma_split_shift(head, rest, p, 0);
    assert(head.len() + 0 == a.len() + p.len());
}

/// Joining a first piece and at least one more puts the separator after the
/// first piece.
pub proof fn lemma_join_head(x: Seq<char>, tail: Seq<Seq<char>>, sep: Seq<char>)
    requires
        tail.len() >= 1,
    ensures
        join(seq![x] + tail, sep) == x + sep + join(tail, sep),
    decreases tail.len(),
{
    let all = seq![x] + tail;
    assert(join(all, sep) == join(all.drop_last(), sep) + sep + all.last());
    if tail.len() == 1 {
        assert(all.drop_last() =~= seq![x]);
        assert(join(seq![x], sep) == x);
        assert(join(tail, sep) == tail[0]);
        assert(all.last() == tail[0]);
    } else {
        lemma_join_head(x, tail.drop_last(), sep);
        assert(all.drop_last() =~= seq![x] + tail.drop_last());
        assert(all.last() == tail.last());
        assert(join(tail, sep) == join(tail.drop_last(), sep) + sep + tail.last());
        assert(x + sep + join(tail.drop_last(), sep) + sep + tail.last() =~= x + sep + (join(
            tail.drop_last(),
            sep,
        ) + sep + tail.last()));
    }
}

/// The decimal representation of `n` is a non-empty digit string that
/// reads back as `n`.
pub proof fn lemma_decimal_reads_back(n: nat)
    ensures
        decimal(n).len() >= 1,
        all_digits(decimal(n)),
        digits_value(decimal(n)) == n,
    decreases n,
{
    if n < 10 {
        let d = decimal(n);
        assert(d.drop_last() =~= Seq::<char>::empty());
        assert(digit_value(digit_char(n as int)) == n);
        assert(digits_value(d) == digits_value(d.drop_last()) * 10 + digit_value(d.last()));
    } else {
        lemma_decimal_reads_back(n / 10);
        let d = decimal(n);
        assert(d.drop_last() =~= decimal(n / 10));
        assert(digit_value(digit_char((n % 10) as int)) == n % 10);
        assert(all_digits(d)) by {
            assert forall|i: int| 0 <= i < d.len() implies is_digit(#[trigger] d[i]) by {
                if i < d.len() - 1 {
                    assert(d[i] == decimal(n / 10)[i]);
                }
            }
        }
        assert(digits_value(d) == digits_value(d.drop_last()) * 10 + digit_value(d.last()));
        assert(d.last() == digit_char((n % 10) as int));
        assert((n / 10) * 10 + n % 10 == n) by (nonlinear_arith);
    }
}

/// Parsing the text of a 32-bit integer gives the integer back.
pub proof fn lemma_parse_i32_of_text(n: i32)
    ensures
        parse_i32(signed_decimal(n as int)) == Some(n),
{
    let t = signed_decimal(n as int);
    if n < 0 {
        let m = (-n) as nat;
        lemma_decimal_reads_back(m);
        assert(t.drop_first() =~= decimal(m));
    } else {
        lemma_decimal_reads_back(n as nat);
        assert(is_digit(t[0]));
    }
}

/// `x` holds no carriage return and no line feed.
pub open spec fn no_line_break(x: Seq<char>) -> bool {
    forall|i: int| 0 <= i < x.len() ==> #[trigger] x[i] != '\r' && x[i] != '\n'
}

/// `x` is a non-empty text without line breaks.
pub open spec fn one_line(x: Seq<char>) -> bool {
    x.len() > 0 && no_line_break(x)
}

/// Two texts without line breaks make one without line breaks.
pub proof fn lemma_no_line_break_concat(x: Seq<char>, y: Seq<char>)
    requires
        no_line_break(x),
        no_line_break(y),
    ensures
        no_line_break(x + y),
{
    assert forall|i: int| 0 <= i < (x + y).len() implies #[trigger] (x + y)[i] != '\r' && (x
        + y)[i] != '\n' by {
        if i >= x.len() {
            assert((x + y)[i] == y[i - x.len()]);
        }
    }
}

/// The decimal digits of a number make no line break.
pub proof fn lemma_decimal_one_line(n: nat)
    ensures
        one_line(decimal(n)),
{
    lemma_decimal_reads_back(n);
    assert forall|i: int| 0 <= i < decimal(n).len() implies #[trigger] decimal(n)[i] != '\r'
        && decimal(n)[i] != '\n' by {
        assert(is_digit(decimal(n)[i]));
    }
}

/// Where `p` is absent at every position, `s` does not contain `p`.
pub proof fn lemma_absent_everywhere(s: Seq<char>, p: Seq<char>)
    requires
        forall|k: int| !#[trigger] occurs_at(s, p, k),
    ensures
        !contains(s, p),
{
    lemma_find_from(s, p, 0);
}

/// The CRLF-joined text of one or more single lines is non-empty, ends in
/// neither CR nor LF, and holds no blank line (`"\r\n\r\n"`).
pub proof fn lemma_join_lines_no_blank(ls: Seq<Seq<char>>)
    requires
        ls.len() >= 1,
        forall|i: int| 0 <= i < ls.len() ==> one_line(#[trigger] ls[i]),
    ensures
        join(ls, "\r\n"@).len() > 0,
        join(ls, "\r\n"@).last() != '\r',
        join(ls, "\r\n"@).last() != '\n',
        !contains(join(ls, "\r\n"@), "\r\n\r\n"@),
    decreases ls.len(),
{
    reveal_strlit("\r\n");
    reveal_strlit("\r\n\r\n");
    let p4 = "\r\n\r\n"@;
    let j = join(ls, "\r\n"@);
    if ls.len() == 1 {
        assert(one_line(ls[0]));
        assert forall|k: int| !#[trigger] occurs_at(j, p4, k) by {
            if occurs_at(j, p4, k) {
                assert(j.subrange(k, k + 4)[0] == j[k]);
            }
        }
        lemma_absent_everywhere(j, p4);
    } else {
        let front = ls.drop_last();
        let l = ls.last();
        assert(one_line(ls[ls.len() - 1]));
        assert forall|i: int| 0 <= i < front.len() implies one_line(#[trigger] front[i]) by {
            assert(front[i] == ls[i]);
        }
        lemma_join_lines_no_blank(front);
        let f = join(front, "\r\n"@);
        assert(j == f + "\r\n"@ + l);
        lemma_contains_witness(f, p4);
        assert forall|k: int| !#[trigger] occurs_at(j, p4, k) by {
            if occurs_at(j, p4, k) {
                let w = j.subrange(k, k + 4);
                assert(w[0] == j[k] && w[1] == j[k + 1] && w[2] == j[k + 2] && w[3] == j[k + 3]);
                if k + 4 <= f.len() {
                    assert(f.subrange(k, k + 4) =~= w);
                    assert(occurs_at(f, p4, k));
                } else if k == f.len() - 1 {
                    assert(j[k] == f.last());
                } else if k == f.len() - 2 {
                    assert(j[k + 1] == f.last());
                } else if k == f.len() - 3 {
                    assert(j[k + 2] == f.last());
                } else if k == f.len() {
                    assert(j[k + 2] == l[0]);
                } else if k == f.len() + 1 {
                    assert(j[k] == '\n');
                } else {
                    assert(j[k] == l[k - f.len() - 2]);
                }
            }
        }
        lemma_absent_everywhere(j, p4);
        assert(j.last() == l.last());
    }
}

/// After the CRLF-joined text of one or more single lines, a blank line
/// starts the first `"\r\n\r\n"`.
pub proof fn lemma_blank_line_after(ls: Seq<Seq<char>>, rest: Seq<char>)
    requires
        ls.len() >= 1,
        forall|i: int| 0 <= i < ls.len() ==> one_line(#[trigger] ls[i]),
    ensures
        find_from(join(ls, "\r\n"@) + "\r\n\r\n"@ + rest, "\r\n\r\n"@, 0) == Some(
            join(ls, "\r\n"@).len() as int,
        ),
{
    reveal_strlit("\r\n\r\n");
    let p4 = "\r\n\r\n"@;
    let j = join(ls, "\r\n"@);
    lemma_join_lines_no_blank(ls);
    lemma_contains_witness(j, p4);
    let s = j + p4 + rest;
    assert(s.subrange(j.len() as int, j.len() + 4int) =~= p4);
    assert forall|k: int| 0 <= k < j.len() implies !#[trigger] occurs_at(s, p4, k) by {
        if occurs_at(s, p4, k) {
            let w = s.subrange(k, k + 4);
            assert(w[0] == s[k] && w[1] == s[k + 1] && w[2] == s[k + 2] && w[3] == s[k + 3]);
            if k + 4 <= j.len() {
                assert(j.subrange(k, k + 4) =~= w);
                assert(occurs_at(j, p4, k));
            } else if k == j.len() - 1 {
                assert(s[k] == j.last());
            } else if k == j.len() - 2 {
                assert(s[k + 1] == j.last());
            } else {
                assert(s[k + 2] == j.last());
            }
        }
    }
    lemma_find_first(s, p4, 0, j.len() as int);
}

/// `x` does not hold the character `c`.
pub open spec fn lacks_char(x: Seq<char>, c: char) -> bool {
    forall|i: int| 0 <= i < x.len() ==> #[trigger] x[i] != c
}

/// A text without the separator's first character is not split.
pub proof fn lemma_split_whole(a: Seq<char>, p: Seq<char>)
    requires
        p.len() > 0,
        lacks_char(a, p[0]),
    ensures
        split(a, p) == seq![a],
{
    assert forall|k: int| !#[trigger] occurs_at(a, p, k) by {
        if occurs_at(a, p, k) {
            assert(a.subrange(k, k + p.len())[0] == a[k]);
        }
    }
    lemma_absent_everywhere(a, p);
    assert(a.subrange(0, a.len() as int) =~= a);
}

/// A text without the separator's first character, followed by the
/// separator and more text, splits into that text and the pieces of the rest.
pub proof fn lemma_split_head(a: Seq<char>, p: Seq<char>, rest: Seq<char>)
    requires
        p.len() > 0,
        lacks_char(a, p[0]),
    ensures
        split(a + p + rest, p) == seq![a] + split(rest, p),
{
    let head = a + p;
    let s = head + rest;
    assert(a + p + rest == s);
    assert(s.subrange(a.len() as int, (a.len() + p.len()) as int) =~= p);
    assert forall|k: int| 0 <= k < a.len() implies !#[trigger] occurs_at(s, p, k) by {
        if occurs_at(s, p, k) {
            assert(s.subrange(k, k + p.len())[0] == s[k]);
            assert(s[k] == a[k]);
        }
    }
    lemma_find_first(s, p, 0, a.len() as int);
    assert(s.subrange(0, a.len() as int) =~= a);
    lemma_split_shift(head, rest, p, 0);
    assert(head.len() + 0 == a.len() + p.len());
}

/// The first piece of a split begins with any prefix of the text that
/// lacks the separator's first character.
pub proof fn lemma_first_piece_prefix(s: Seq<char>, p: Seq<char>, n: int)
    requires
        p.len() > 0,
        0 <= n <= s.len(),
        lacks_char(s.subrange(0, n), p[0]),
    ensures
        split(s, p)[0].len() >= n,
        split(s, p)[0].subrange(0, n) == s.subrange(0, n),
{
    lemma_find_from(s, p, 0);
    match find_from(s, p, 0) {
        Some(j) => {
            if j < n {
                assert(s.subrange(j, j + p.len())[0] == s[j]);
                assert(s.subrange(0, n)[j] == s[j]);
            }
            assert(split(s, p)[0] == s.subrange(0, j));
            assert(s.subrange(0, j).subrange(0, n) =~= s.subrange(0, n));
        },
        None => {
            assert(split(s, p)[0] == s.subrange(0, s.len() as int));
            assert(s.subrange(0, s.len() as int).subrange(0, n) =~= s.subrange(0, n));
        },
    }
}

/// A text occurs in any text made of something, it, and something more.
pub proof fn lemma_occurs_middle(x: Seq<char>, y: Seq<char>, z: Seq<char>)
    ensures
        occurs_at(x + y + z, y, x.len() as int),
        contains(x + y + z, y),
{
    assert((x + y + z).subrange(x.len() as int, (x.len() + y.len()) as int) =~= y);
    lemma_occurs_contains(x + y + z, y, x.len() as int);
}

/// A digit string holds none of the given characters, none of which is a digit.
pub proof fn lemma_digits_lack(x: Seq<char>, c: char)
    requires
        all_digits(x),
        !is_digit(c),
    ensures
        lacks_char(x, c),
{
    assert forall|i: int| 0 <= i < x.len() implies #[trigger] x[i] != c by {
        assert(is_digit(x[i]));
    }
}

// ---------------------------------------------------------------------------
// Executable operations
// ---------------------------------------------------------------------------

/// Appends one character to a string.
///
/// Calls `String::push`, whose documentation says that it appends the given
/// `char` to the end of the string; the contract says exactly that of the view.
#[verifier::external_body]
pub(crate) fn push_char(s: &mut String, c: char)
    ensures
        final(s)@ == old(s)@.push(c),
{
    s.push(c);
}

/// The characters of a string, in order.
pub fn chars_of(s: &str) -> (r: Vec<char>)
    ensures
        r@ == s@,
{
    let mut r: Vec<char> = Vec::new();
    for c in it: s.chars()
        invariant
            it.seq() == s@,
            r@ == it.seq().take(it.index() as int),
    {
        r.push(c);
    }
    r
}

/// Appends the characters `s[from..to]` to `out`.
pub fn push_chars(out: &mut String, s: &Vec<char>, from: usize, to: usize)
    requires
        from <= to <= s.len(),
    ensures
        final(out)@ == old(out)@ + s@.subrange(from as int, to as int),
{
    let mut i = from;
    while i < to
        invariant
            from <= i <= to <= s.len(),
            out@ == old(out)@ + s@.subrange(from as int, i as int),
        decreases to - i,
    {
        push_char(out, s[i]);
        i = i + 1;
        assert(s@.subrange(from as int, i as int) == s@.subrange(from as int, i - 1).push(
            s@[i - 1],
        ));
    }
}

/// The string made of `s[from..to]`.
pub fn string_of(s: &Vec<char>, from: usize, to: usize) -> (r: String)
    requires
        from <= to <= s.len(),
    ensures
        r@ == s@.subrange(from as int, to as int),
{
    let mut r = String::new();
    push_chars(&mut r, s, from, to);
    r
}

/// The vector `s[from..to]`.
pub fn sub_chars(s: &Vec<char>, from: usize, to: usize) -> (r: Vec<char>)
    requires
        from <= to <= s.len(),
    ensures
        r@ == s@.subrange(from as int, to as int),
{
    let mut r: Vec<char> = Vec::new();
    let mut i = from;
    while i < to
        invariant
            from <= i <= to <= s.len(),
            r@ == s@.subrange(from as int, i as int),
        decreases to - i,
    {
        r.push(s[i]);
        i = i + 1;
    }
    r
}

/// Whether two character vectors are equal.
pub fn chars_eq(a: &Vec<char>, b: &Vec<char>) -> (r: bool)
    ensures
        r == (a@ == b@),
{
    if a.len() != b.len() {
        return false;
    }
    let mut i: usize = 0;
    while i < a.len()
        invariant
            a.len() == b.len(),
            i <= a.len(),
            forall|k: int| 0 <= k < i ==> a@[k] == b@[k],
        decreases a.len() - i,
    {
        if a[i] != b[i] {
            return false;
        }
        i = i + 1;
    }
    assert(a@ =~= b@);
    true
}

/// Whether `p` occurs in `s` at position `i`.
fn matches_at(s: &Vec<char>, p: &Vec<char>, i: usize) -> (r: bool)
    requires
        i <= s.len(),
        p.len() <= s.len() - i,
    ensures
        r == (s@.subrange(i as int, i + p.len()) == p@),
{
    let mut k: usize = 0;
    while k < p.len()
        invariant
            i <= s.len(),
            p.len() <= s.len() - i,
            k <= p.len(),
            forall|m: int| 0 <= m < k ==> s@[i + m] == p@[m],
        decreases p.len() - k,
    {
        if s[i + k] != p[k] {
            assert(s@.subrange(i as int, i + p.len())[k as int] != p@[k as int]);
            return false;
        }
        k = k + 1;
    }
    assert(s@.subrange(i as int, i + p.len()) =~= p@);
    true
}

/// The leftmost occurrence of `p` in `s` at or after `start`.
pub fn find_chars(s: &Vec<char>, p: &Vec<char>, start: usize) -> (r: Option<usize>)
    requires
        start <= s.len(),
    ensures
        match r {
            Some(j) => find_from(s@, p@, start as int) == Some(j as int),
            None => find_from(s@, p@, start as int) is None,
        },
{
    let mut i = start;
    while p.len() <= s.len() - i
        invariant
            start <= i <= s.len(),
            find_from(s@, p@, start as int) == find_from(s@, p@, i as int),
        decreases s.len() + 1 - i,
    {
        if matches_at(s, p, i) {
            return Some(i);
        }
        if i == s.len() {
            assert(find_from(s@, p@, i + 1) is None);
            return None;
        }
        i = i + 1;
    }
    None
}

/// Whether `p` occurs in `s`.
pub fn contains_chars(s: &Vec<char>, p: &Vec<char>) -> (r: bool)
    ensures
        r == contains(s@, p@),
{
    find_chars(s, p, 0).is_some()
}

/// The pieces of `s` between the occurrences of the non-empty separator `p`.
pub fn split_chars(s: &Vec<char>, p: &Vec<char>) -> (r: Vec<Vec<char>>)
    requires
        p.len() > 0,
    ensures
        views(r@) == split(s@, p@),
{
    let mut r: Vec<Vec<char>> = Vec::new();
    let mut pos: usize = 0;
    loop
        invariant
            p.len() > 0,
            pos <= s.len(),
            views(r@) + split_from(s@, p@, pos as int) == split(s@, p@),
        decreases s.len() - pos,
    {
        let found = find_chars(s, p, pos);
        proof {
            lemma_find_from(s@, p@, pos as int);
        }
        match found {
            None => {
                let last = sub_chars(s, pos, s.len());
                let ghost before = r@;
                r.push(last);
                assert(views(r@) == views(before).push(last@));
                assert(views(r@) =~= views(before) + split_from(s@, p@, pos as int));
                return r;
            },
            Some(j) => {
                let part = sub_chars(s, pos, j);
                let ghost before = r@;
                r.push(part);
                assert(views(r@) == views(before).push(part@));
                assert(split_from(s@, p@, pos as int) == seq![part@] + split_from(
                    s@,
                    p@,
                    j + p.len(),
                ));
                assert(views(r@) + split_from(s@, p@, j + p.len()) =~= views(before)
                    + split_from(s@, p@, pos as int));
                pos = j + p.len();
            },
        }
    }
}

/// The character for the decimal digit `d`.
pub fn digit_to_char(d: u64) -> (c: char)
    requires
        d < 10,
    ensures
        c == digit_char(d as int),
{
    if d == 0 {
        '0'
    } else if d == 1 {
        '1'
    } else if d == 2 {
        '2'
    } else if d == 3 {
        '3'
    } else if d == 4 {
        '4'
    } else if d == 5 {
        '5'
    } else if d == 6 {
        '6'
    } else if d == 7 {
        '7'
    } else if d == 8 {
        '8'
    } else {
        '9'
    }
}

/// Appends the decimal representation of `n` to `out`.
pub fn push_decimal(out: &mut String, n: u64)
    ensures
        final(out)@ == old(out)@ + decimal(n as nat),
    decreases n,
{
    if n >= 10 {
        push_decimal(out, n / 10);
    }
    push_char(out, digit_to_char(n % 10));
    proof {
        if n >= 10 {
            assert(decimal(n as nat) == decimal((n / 10) as nat).push(digit_char((n % 10) as int)));
        }
    }
}

/// Appends the decimal representation of the signed `n` to `out`.
pub fn push_signed_decimal(out: &mut String, n: i32)
    ensures
        final(out)@ == old(out)@ + signed_decimal(n as int),
{
    if n < 0 {
        push_char(out, '-');
        let m: i64 = n as i64;
        let abs: u64 = (-m) as u64;
        push_decimal(out, abs);
    } else {
        push_decimal(out, n as u64);
    }
}


/// The views of a vector of strings.
pub open spec fn string_views(v: Seq<String>) -> Seq<Seq<char>> {
    v.map_values(|x: String| x@)
}

/// Joins the strings of `lines`, putting `sep` between neighbours.
pub fn join_strings(lines: &Vec<String>, sep: &str) -> (r: String)
    ensures
        r@ == join(string_views(lines@), sep@),
{
    let mut r = String::new();
    let mut i: usize = 0;
    while i < lines.len()
        invariant
            i <= lines.len(),
            r@ == join(string_views(lines@).take(i as int), sep@),
        decreases lines.len() - i,
    {
        let ghost before = string_views(lines@).take(i as int);
        if i > 0 {
            r.append(sep);
        }
        r.append(lines[i].as_str());
        proof {
            let after = string_views(lines@).take(i + 1);
            assert(after.drop_last() =~= before);
            assert(after.last() == lines@[i as int]@);
            if i == 0 {
                assert(before =~= Seq::<Seq<char>>::empty());
                assert(after.len() == 1);
            }
        }
        i = i + 1;
    }
    assert(string_views(lines@).take(lines.len() as int) =~= string_views(lines@));
    r
}

/// The digits of a digit string give a non-negative number.
pub proof fn lemma_digits_value_nonneg(s: Seq<char>)
    requires
        all_digits(s),
    ensures
        digits_value(s) >= 0,
    decreases s.len(),
{
    if s.len() > 0 {
        assert(all_digits(s.drop_last()) && is_digit(s[s.len() - 1]));
        lemma_digits_value_nonneg(s.drop_last());
    }
}

/// The largest value kept while reading digits; anything above it is out of
/// the range of `i32` whatever its sign.
const DIGITS_CAP: u64 = 2147483649;

/// `str::parse::<i32>` on a character vector.
pub fn parse_i32_chars(s: &Vec<char>) -> (r: Option<i32>)
    ensures
        r == parse_i32(s@),
{
    if s.len() == 0 {
        return None;
    }
    let neg = s[0] == '-';
    let start: usize = if s[0] == '-' || s[0] == '+' { 1 } else { 0 };
    let ghost digits = if s@[0] == '-' || s@[0] == '+' { s@.drop_first() } else { s@ };
    assert(digits =~= s@.subrange(start as int, s.len() as int));
    if start == s.len() {
        return None;
    }
    let mut acc: u64 = 0;
    let mut i: usize = start;
    while i < s.len()
        invariant
            start <= i <= s.len(),
            digits == s@.subrange(start as int, s.len() as int),
            digits == if s@[0] == '-' || s@[0] == '+' { s@.drop_first() } else { s@ },
            all_digits(s@.subrange(start as int, i as int)),
            acc <= DIGITS_CAP,
            acc == if digits_value(s@.subrange(start as int, i as int)) < DIGITS_CAP {
                digits_value(s@.subrange(start as int, i as int))
            } else {
                DIGITS_CAP as int
            },
        decreases s.len() - i,
    {
        let ghost prefix = s@.subrange(start as int, i as int);
        let ghost longer = s@.subrange(start as int, i + 1);
        let c = s[i];
        let code = c as u32;
        if !(48 <= code && code <= 57) {
            proof {
                assert(digits[i - start] == c);
                assert(!is_digit(digits[i - start]));
                assert(!all_digits(digits));
            }
            return None;
        }
        let d: u64 = (code - 48) as u64;
        proof {
            assert(longer.drop_last() =~= prefix);
            assert(longer.last() == c);
            assert(all_digits(longer));
            lemma_digits_value_nonneg(prefix);
        }
        let next = acc * 10 + d;
        acc = if next > DIGITS_CAP { DIGITS_CAP } else { next };
        i = i + 1;
    }
    assert(s@.subrange(start as int, s.len() as int) == digits);
    proof {
        lemma_digits_value_nonneg(digits);
    }
    if neg {
        if acc <= 2147483648 {
            let v: i64 = 0i64 - (acc as i64);
            Some(v as i32)
        } else {
            None
        }
    } else {
        if acc <= 2147483647 {
            Some(acc as i32)
        } else {
            None
        }
    }
}

} // verus!
