use vstd::prelude::*;

use crate::cli::commands::package::publish::decimal;
use crate::compile_time::builtin::texts;

verus! {

/// Writes a number in decimal, through the `Display` implementation of `usize` in std, which
/// writes the digits of the number without leading zeros.
#[verifier::external_body]
pub(crate) fn decimal_text(n: usize) -> (res: String)
    ensures
        res@ == decimal(n as nat),
{
    n.to_string()
}

/// A line without the carriage return at its end, if it has one.
pub open spec fn without_carriage_return(line: Seq<char>) -> Seq<char> {
    if line.len() > 0 && line.last() == '\r' {
        line.drop_last()
    } else {
        line
    }
}

/// The lines of `rest`, the first of which continues `current`: each ends at a newline, which
/// it does not hold, nor a carriage return just before it; a last line that no newline ends is
/// kept as it is, unless it is empty.
pub open spec fn lines_from(rest: Seq<char>, current: Seq<char>) -> Seq<Seq<char>>
    decreases rest.len(),
{
    if rest.len() == 0 {
        if current.len() == 0 {
            Seq::empty()
        } else {
            seq![current]
        }
    } else if rest[0] == '\n' {
        seq![without_carriage_return(current)] + lines_from(rest.drop_first(), Seq::empty())
    } else {
        lines_from(rest.drop_first(), current.push(rest[0]))
    }
}

/// The lines of a text, as `str::lines` splits it.
pub open spec fn text_lines(text: Seq<char>) -> Seq<Seq<char>> {
    lines_from(text, Seq::empty())
}

/// Splits a text into its lines.
pub fn split_lines(text: &str) -> (res: Vec<String>)
    ensures
        texts(res@) == text_lines(text@),
{
    let n = text.unicode_len();
    let mut lines: Vec<String> = Vec::new();
    let mut start: usize = 0;
    let mut i: usize = 0;
    proof {
        assert(text@.skip(0) =~= text@);
        assert(text@.subrange(0, 0) =~= Seq::<char>::empty());
        assert(texts(lines@) =~= Seq::<Seq<char>>::empty());
        assert(texts(lines@) + text_lines(text@) =~= text_lines(text@));
    }
    while i < n
        invariant
            n == text@.len(),
            start <= i <= n,
            text_lines(text@) == texts(lines@) + lines_from(text@.skip(i as int), text@.subrange(start as int, i as int)),
        decreases n - i,
    {
        let c = text.get_char(i);
        let ghost rest = text@.skip(i as int);
        proof {
            assert(rest[0] == c);
            assert(rest.drop_first() =~= text@.skip(i + 1));
        }
        if c == '\n' {
            let end = if i > start && text.get_char(i - 1) == '\r' {
                i - 1
            } else {
                i
            };
            let line = text.substring_char(start, end).to_owned();
            proof {
                assert(line@ =~= without_carriage_return(text@.subrange(start as int, i as int)));
            }
            let ghost before = lines@;
            lines.push(line);
            proof {
                assert(texts(lines@) =~= texts(before).push(line@));
                assert(text@.subrange(i + 1, i + 1) =~= Seq::<char>::empty());
                assert(texts(lines@) + lines_from(text@.skip(i + 1), text@.subrange(i + 1, i + 1)) =~= texts(before)
                    + lines_from(rest, text@.subrange(start as int, i as int)));
            }
            start = i + 1;
        } else {
            proof {
                assert(text@.subrange(start as int, i as int).push(c) =~= text@.subrange(start as int, i + 1));
            }
        }
        i = i + 1;
    }
    if start < n {
        let line = text.substring_char(start, n).to_owned();
        let ghost before = lines@;
        lines.push(line);
        proof {
            assert(texts(lines@) =~= texts(before).push(line@));
            assert(text@.skip(n as int).len() == 0);
        }
    } else {
        proof {
            assert(text@.skip(n as int).len() == 0);
            assert(texts(lines@) + Seq::<Seq<char>>::empty() =~= texts(lines@));
        }
    }
    lines
}

/// Whether two strings hold the same characters.
pub fn same_text(a: &str, b: &str) -> (res: bool)
    ensures
        res == (a@ == b@),
{
    let n = a.unicode_len();
    if n != b.unicode_len() {
        return false;
    }
    let mut i: usize = 0;
    while i < n
        invariant
            i <= n,
            n == a@.len(),
            n == b@.len(),
            forall|k: int| 0 <= k < i ==> a@[k] == b@[k],
        decreases n - i,
    {
        if a.get_char(i) != b.get_char(i) {
            return false;
        }
        i = i + 1;
    }
    assert(a@ =~= b@);
    true
}

/// The UTF-8 encoding of two texts one after the other is the encoding of each, one after the other.
pub proof fn lemma_encode_concat(x: Seq<char>, y: Seq<char>)
    ensures
        vstd::utf8::encode_utf8(x + y) == vstd::utf8::encode_utf8(x) + vstd::utf8::encode_utf8(y),
    decreases x.len(),
{
    if x.len() > 0 {
        lemma_encode_concat(x.drop_first(), y);
        assert((x + y).drop_first() =~= x.drop_first() + y);
        assert((x + y)[0] == x[0]);
        assert(vstd::utf8::encode_utf8(x + y) =~= vstd::utf8::encode_scalar(x[0] as u32) + vstd::utf8::encode_utf8(
            x.drop_first() + y,
        ));
    } else {
        assert(x + y =~= y);
    }
}

} // verus!
