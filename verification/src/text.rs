//! Pieces of declaration text: joined lists, comment blocks and decoded names.

use std::string::FromUtf8Error;
use vstd::prelude::*;
use vstd::utf8::{decode_utf8, encode_utf8, valid_utf8};

verus! {

/// The texts that a list of strings holds.
pub open spec fn texts(items: Seq<String>) -> Seq<Seq<char>> {
    Seq::new(items.len(), |i: int| items[i]@)
}

/// The items written one after the other with `sep` between each two.
pub open spec fn join_text(items: Seq<Seq<char>>, sep: Seq<char>) -> Seq<char>
    decreases items.len(),
{
    if items.len() == 0 {
        Seq::empty()
    } else if items.len() == 1 {
        items[0]
    } else {
        join_text(items.drop_last(), sep) + sep + items.last()
    }
}

/// Writes the items one after the other with `sep` between each two.
pub fn join(items: &Vec<String>, sep: &str) -> (r: String)
    ensures
        r@ == join_text(texts(items@), sep@),
{
    let mut out = String::new();
    let mut i: usize = 0;
    while i < items.len()
        invariant
            i <= items.len(),
            out@ == join_text(texts(items@).take(i as int), sep@),
        decreases items.len() - i,
    {
        let ghost before = texts(items@).take(i as int);
        let ghost after = texts(items@).take(i + 1);
        if i > 0 {
            out.append(sep);
        }
        out.append(items[i].as_str());
        proof {
            assert(after.drop_last() =~= before);
            assert(after.last() == items@[i as int]@);
            if i == 0 {
                assert(out@ =~= items@[0]@);
            }
        }
        i += 1;
    }
    proof {
        assert(texts(items@).take(items.len() as int) =~= texts(items@));
    }
    out
}

/// The position of the first line feed of `text` at or after `from`, or the
/// length of `text` where there is none.
pub open spec fn line_end(text: Seq<char>, from: int) -> int
    decreases text.len() - from,
{
    if from < 0 || from >= text.len() {
        text.len() as int
    } else if text[from] == '\n' {
        from
    } else {
        line_end(text, from + 1)
    }
}

/// The line that runs from `start` up to the line feed at `end`, without the
/// carriage return that may stand before that line feed.
pub open spec fn line_text(text: Seq<char>, start: int, end: int) -> Seq<char> {
    if end < text.len() && start < end && text[end - 1] == '\r' {
        text.subrange(start, end - 1)
    } else {
        text.subrange(start, end)
    }
}

/// Every line of `text` from position `start` on, each written as a comment:
/// two hyphens, the line, a line feed. A line ends at a line feed or at a
/// carriage return followed by one; a line ending at the end of the text
/// opens no further line.
pub open spec fn comment_from(text: Seq<char>, start: int) -> Seq<char>
    decreases text.len() - start,
{
    if start < 0 || start >= text.len() {
        Seq::empty()
    } else {
        let end = line_end(text, start);
        let rest = if start <= end < text.len() {
            comment_from(text, end + 1)
        } else {
            Seq::empty()
        };
        "--"@ + line_text(text, start, end) + "\n"@ + rest
    }
}

/// `text` as a block of comment lines.
pub open spec fn comment_block(text: Seq<char>) -> Seq<char> {
    comment_from(text, 0)
}

proof fn lemma_line_end(text: Seq<char>, from: int, end: int)
    requires
        0 <= from <= end <= text.len(),
        forall|j: int| from <= j < end ==> text[j] != '\n',
        end < text.len() ==> text[end] == '\n',
    ensures
        line_end(text, from) == end,
    decreases end - from,
{
    if from < end {
        lemma_line_end(text, from + 1, end);
    }
}

/// The characters of `s`, one by one.
pub fn chars_of(s: &str) -> (v: Vec<char>)
    ensures
        v@ == s@,
{
    let mut v: Vec<char> = Vec::new();
    for c in it: s.chars()
        invariant
            it.seq() == s@,
            v@ == s@.take(it.index()),
    {
        v.push(c);
        assert(s@.take(it.index() + 1) =~= s@.take(it.index()).push(s@[it.index()]));
    }
    assert(s@.take(s@.len() as int) =~= s@);
    v
}

/// Writes `text` as a block of comment lines.
pub fn comment_lines(text: &str) -> (r: String)
    ensures
        r@ == comment_block(text@),
{
    let chars = chars_of(text);
    let n = chars.len();
    let mut out = String::new();
    let mut start: usize = 0;
    while start < n
        invariant
            chars@ == text@,
            n == chars.len(),
            start <= n,
            out@ + comment_from(text@, start as int) == comment_block(text@),
        decreases n - start,
    {
        let mut end: usize = start;
        while end < n && chars[end] != '\n'
            invariant
                chars@ == text@,
                n == chars.len(),
                start <= end <= n,
                forall|j: int| start <= j < end ==> text@[j] != '\n',
            decreases n - end,
        {
            end += 1;
        }
        proof {
            lemma_line_end(text@, start as int, end as int);
        }
        let stop = if end < n && start < end && chars[end - 1] == '\r' {
            end - 1
        } else {
            end
        };
        let ghost before = out@;
        out.append("--");
        out.append(text.substring_char(start, stop));
        out.append("\n");
        let next = if end < n {
            end + 1
        } else {
            n
        };
        proof {
            let rest = comment_from(text@, next as int);
            assert(out@ + rest =~= before + ("--"@ + line_text(text@, start as int, end as int)
                + "\n"@ + rest));
        }
        start = next;
    }
    proof {
        assert(out@ + Seq::<char>::empty() =~= out@);
    }
    out
}

/// A name that is not valid UTF-8 and so cannot be written as text.
#[derive(Debug, PartialEq, Eq)]
pub struct DecodingError {
    /// The bytes of the name.
    pub name: Vec<u8>,
}

/// The error of `String::from_utf8`, carried through and never looked into.
#[verifier::external_type_specification]
#[verifier::external_body]
pub struct ExFromUtf8Error(FromUtf8Error);

/// `String::from_utf8` succeeds on the byte strings that are valid UTF-8 and
/// on no others, and the string it gives then has exactly those bytes.
pub assume_specification[ String::from_utf8 ](vec: Vec<u8>) -> (r: Result<String, FromUtf8Error>)
    ensures
        r is Ok <==> valid_utf8(vec@),
        r matches Ok(s) ==> encode_utf8(s@) == vec@,
;

/// What a raw name reads as: its text where it is valid UTF-8, and the name
/// itself as the error where it is not.
pub open spec fn decoded(name: Seq<u8>) -> Result<Seq<char>, Seq<u8>> {
    if valid_utf8(name) {
        Ok(decode_utf8(name))
    } else {
        Err(name)
    }
}

/// `r` is the outcome `want`: the same text, or the error of the same name.
pub open spec fn is_outcome(
    r: Result<String, DecodingError>,
    want: Result<Seq<char>, Seq<u8>>,
) -> bool {
    match r {
        Ok(s) => want == Ok::<Seq<char>, Seq<u8>>(s@),
        Err(e) => want == Err::<Seq<char>, Seq<u8>>(e.name@),
    }
}

/// Two pieces of text one after the other. Where one of them failed, the
/// failure; where both did, the first.
pub open spec fn chain(
    a: Result<Seq<char>, Seq<u8>>,
    b: Result<Seq<char>, Seq<u8>>,
) -> Result<Seq<char>, Seq<u8>> {
    match a {
        Err(e) => Err(e),
        Ok(x) => match b {
            Err(e) => Err(e),
            Ok(y) => Ok(x + y),
        },
    }
}

/// The items written one after the other, a line feed after each. Where one
/// of them failed, the first failure.
pub open spec fn lines_of(items: Seq<Result<Seq<char>, Seq<u8>>>) -> Result<Seq<char>, Seq<u8>>
    decreases items.len(),
{
    if items.len() == 0 {
        Ok(Seq::empty())
    } else {
        chain(lines_of(items.drop_last()), chain(items.last(), Ok("\n"@)))
    }
}

/// Where the items before position `at` are written as `head` and the item
/// at `at` is written as `line`, the items up to and with it are written as
/// `head`, `line` and a line feed.
pub proof fn lemma_lines_of_step(
    items: Seq<Result<Seq<char>, Seq<u8>>>,
    at: int,
    head: Seq<char>,
    line: Seq<char>,
)
    requires
        0 <= at < items.len(),
        lines_of(items.take(at)) == Ok::<Seq<char>, Seq<u8>>(head),
        items[at] == Ok::<Seq<char>, Seq<u8>>(line),
    ensures
        lines_of(items.take(at + 1)) == Ok::<Seq<char>, Seq<u8>>(head + line + "\n"@),
{
    assert(items.take(at + 1).drop_last() =~= items.take(at));
    assert(items.take(at + 1).last() == items[at]);
    assert(head + (line + "\n"@) =~= head + line + "\n"@);
}

/// Where the items before position `at` are written and the item at `at`
/// failed, that failure is the outcome of the whole.
pub proof fn lemma_lines_of_error(items: Seq<Result<Seq<char>, Seq<u8>>>, at: int)
    requires
        0 <= at < items.len(),
        lines_of(items.take(at)) is Ok,
        items[at] is Err,
    ensures
        lines_of(items) == Err::<Seq<char>, Seq<u8>>(items[at]->Err_0),
    decreases items.len(),
{
    if at == items.len() - 1 {
        assert(items.take(at) =~= items.drop_last());
    } else {
        assert(items.drop_last().take(at) =~= items.take(at));
        lemma_lines_of_error(items.drop_last(), at);
    }
}

/// Reads a raw name as text.
pub fn decode_name(name: &Vec<u8>) -> (r: Result<String, DecodingError>)
    ensures
        is_outcome(r, decoded(name@)),
{
    match String::from_utf8(name.clone()) {
        Ok(s) => {
            proof {
                vstd::utf8::encode_utf8_decode_utf8(s@);
            }
            Ok(s)
        },
        Err(_) => Err(DecodingError { name: name.clone() }),
    }
}

/// The UTF-8 bytes of `text`.
pub fn encode_text(text: &str) -> (r: Vec<u8>)
    ensures
        r@ == encode_utf8(text@),
{
    text.as_bytes_vec()
}

} // verus!
