//! The layout of an RTSP request's text: CRLF-separated lines, a request
//! line of space-separated words, and `Name: value` header lines.

use vstd::prelude::*;

use crate::text::{
    chars_of, lemma_split_nonempty, parse_i32, split, split_chars, views,
};

verus! {

broadcast use vstd::string::group_string_axioms;

/// The lines of a raw request.
pub open spec fn lines_of(raw: Seq<char>) -> Seq<Seq<char>> {
    split(raw, "\r\n"@)
}

/// The words of the request line (the first line).
pub open spec fn request_line_words(raw: Seq<char>) -> Seq<Seq<char>> {
    split(lines_of(raw)[0], " "@)
}

/// The header name of a line: the text before the first `": "`.
pub open spec fn header_key(line: Seq<char>) -> Seq<char> {
    split(line, ": "@)[0]
}

/// The header value of a line: the text between the first and the second `": "`.
pub open spec fn header_value(line: Seq<char>) -> Seq<char> {
    split(line, ": "@)[1]
}

/// The value of the last line among `lines` whose header name is `key`.
pub open spec fn last_header(lines: Seq<Seq<char>>, key: Seq<char>) -> Option<Seq<char>>
    decreases lines.len(),
{
    if lines.len() == 0 {
        None
    } else if header_key(lines.last()) == key {
        Some(header_value(lines.last()))
    } else {
        last_header(lines.drop_last(), key)
    }
}

/// A line whose header name is `CSeq`, `Transport` or `Session` has a value,
/// and a `CSeq` value is a number in the range of `i32`.
pub open spec fn numbered_line_readable(line: Seq<char>) -> bool {
    let key = header_key(line);
    (key == "CSeq"@ || key == "Transport"@ || key == "Session"@) ==> {
        &&& split(line, ": "@).len() >= 2
        &&& key == "CSeq"@ ==> parse_i32(header_value(line)) is Some
    }
}

/// The value found for a header comes from one of the lines, whose header
/// name is that header.
pub proof fn lemma_last_header_from_line(lines: Seq<Seq<char>>, key: Seq<char>)
    ensures
        last_header(lines, key) matches Some(v) ==> exists|k: int|
            0 <= k < lines.len() && header_key(#[trigger] lines[k]) == key && v == header_value(
                lines[k],
            ),
    decreases lines.len(),
{
    if lines.len() > 0 {
        if header_key(lines.last()) == key {
            assert(lines[lines.len() - 1] == lines.last());
        } else {
            lemma_last_header_from_line(lines.drop_last(), key);
            if let Some(v) = last_header(lines, key) {
                let k = choose|k: int|
                    0 <= k < lines.drop_last().len() && header_key(
                        #[trigger] lines.drop_last()[k],
                    ) == key && v == header_value(lines.drop_last()[k]);
                assert(lines[k] == lines.drop_last()[k]);
            }
        }
    }
}

/// The header names that the readers look for are distinct.
pub proof fn lemma_header_names_distinct()
    ensures
        "CSeq"@ != "Transport"@,
        "CSeq"@ != "Session"@,
        "Transport"@ != "Session"@,
{
    reveal_strlit("CSeq");
    reveal_strlit("Transport");
    reveal_strlit("Session");
    assert("CSeq"@.len() != "Transport"@.len());
    assert("CSeq"@.len() != "Session"@.len());
    assert("Transport"@.len() != "Session"@.len());
}

/// Splits a line at `": "` into its header name and, when there is one, its
/// header value.
pub fn split_header(line: &Vec<char>) -> (r: (Vec<char>, Option<Vec<char>>))
    ensures
        r.0@ == header_key(line@),
        r.1 is Some <==> split(line@, ": "@).len() >= 2,
        r.1 matches Some(v) ==> v@ == header_value(line@),
{
    let colon = chars_of(": ");
    proof {
        reveal_strlit(": ");
    }
    let mut parts = split_chars(line, &colon);
    proof {
        lemma_split_nonempty(line@, colon@);
    }
    let ghost all = views(parts@);
    if parts.len() >= 2 {
        let value = parts.remove(1);
        let key = parts.remove(0);
        assert(value@ == all[1]);
        (key, Some(value))
    } else {
        let key = parts.remove(0);
        (key, None)
    }
}

} // verus!
