//! Functions on strings, each with the text it computes: the parts of the
//! request grammar, and what the routing table and the wire format need.

use crate::text::{
    decimal, digit, fields, is_whitespace, leading, lemma_leading, lemma_leading_run,
    lemma_trailing, lines, non_whitespace, other_than, split_once, strip_prefix, trailing,
    trimmed, whitespace, without_carriage_return, words,
};
use vstd::prelude::*;
use vstd::string::StringExecFns;
use vstd::string::StringSliceAdditionalSpecFns;

verus! {

/// The lower-case form of `s`: what `str::to_lowercase` returns for a string
/// of these characters. It follows the Unicode character database, so
/// nothing is stated of it here but that it depends on the characters alone.
pub uninterp spec fn lowercase(s: Seq<char>) -> Seq<char>;

/// `str::to_lowercase` of std. Trusted: the result is `lowercase` of the
/// characters of `s`, the same for the same characters whatever the machine
/// or its locale.
pub assume_specification[ str::to_lowercase ](s: &str) -> (lower: String)
    ensures
        lower@ == lowercase(s@),
;

/// The characters of `s`.
pub fn chars_of(s: &str) -> (chars: Vec<char>)
    ensures
        chars@ == s@,
{
    broadcast use vstd::string::group_string_axioms;

    let mut chars: Vec<char> = Vec::new();
    for c in it: s.chars()
        invariant
            it.seq() == s@,
            chars@ == it.seq().take(it.index()),
    {
        chars.push(c);
    }
    chars
}

/// Whether two strings hold the same characters.
pub fn str_eq(a: &str, b: &str) -> (same: bool)
    ensures
        same == (a@ == b@),
{
    let x = a.as_bytes();
    let y = b.as_bytes();
    if x.len() != y.len() {
        return false;
    }
    let mut i: usize = 0;
    while i < x.len()
        invariant
            i <= x@.len(),
            x@.len() == y@.len(),
            x@ == a.spec_bytes(),
            y@ == b.spec_bytes(),
            forall|j: int| 0 <= j < i ==> x@[j] == y@[j],
        decreases x@.len() - i,
    {
        if x[i] != y[i] {
            return false;
        }
        i += 1;
    }
    proof {
        assert(x@ =~= y@);
        vstd::utf8::encode_utf8_decode_utf8(a@);
        vstd::utf8::encode_utf8_decode_utf8(b@);
    }
    true
}

/// Whether `c` is white space.
pub fn char_is_whitespace(c: char) -> (yes: bool)
    ensures
        yes == is_whitespace(c),
{
    let u: u32 = c as u32;
    (0x09 <= u && u <= 0x0D) || u == 0x20 || u == 0x85 || u == 0xA0 || u == 0x1680 || (0x2000 <= u
        && u <= 0x200A) || u == 0x2028 || u == 0x2029 || u == 0x202F || u == 0x205F || u == 0x3000
}

/// The first index at or after `from` whose character is not white space.
fn skip_whitespace(chars: &Vec<char>, from: usize) -> (to: usize)
    requires
        from <= chars@.len(),
    ensures
        from <= to <= chars@.len(),
        to - from == leading(chars@.skip(from as int), whitespace()),
        to < chars@.len() ==> !is_whitespace(chars@[to as int]),
{
    let mut to: usize = from;
    while to < chars.len() && char_is_whitespace(chars[to])
        invariant
            from <= to <= chars@.len(),
            forall|j: int| from <= j < to ==> is_whitespace(chars@[j]),
        decreases chars@.len() - to,
    {
        to += 1;
    }
    proof {
        lemma_leading(chars@.skip(from as int), whitespace(), to - from);
    }
    to
}

/// The first index at or after `from` whose character is white space.
fn skip_word(chars: &Vec<char>, from: usize) -> (to: usize)
    requires
        from <= chars@.len(),
    ensures
        from <= to <= chars@.len(),
        to - from == leading(chars@.skip(from as int), non_whitespace()),
        from < chars@.len() && !is_whitespace(chars@[from as int]) ==> from < to,
{
    let mut to: usize = from;
    while to < chars.len() && !char_is_whitespace(chars[to])
        invariant
            from <= to <= chars@.len(),
            forall|j: int| from <= j < to ==> !is_whitespace(chars@[j]),
        decreases chars@.len() - to,
    {
        to += 1;
    }
    proof {
        lemma_leading(chars@.skip(from as int), non_whitespace(), to - from);
    }
    to
}

/// The index of the first `c` at or after `from`, or the length of `chars`
/// where there is none.
fn find(chars: &Vec<char>, from: usize, c: char) -> (to: usize)
    requires
        from <= chars@.len(),
    ensures
        from <= to <= chars@.len(),
        to - from == leading(chars@.skip(from as int), other_than(c)),
        to < chars@.len() ==> chars@[to as int] == c,
{
    let mut to: usize = from;
    while to < chars.len() && chars[to] != c
        invariant
            from <= to <= chars@.len(),
            forall|j: int| from <= j < to ==> chars@[j] != c,
        decreases chars@.len() - to,
    {
        to += 1;
    }
    proof {
        lemma_leading(chars@.skip(from as int), other_than(c), to - from);
    }
    to
}

/// `trimmed(s)` is the part of `s` from `lo` to `hi` where white space, and
/// nothing else, lies before `lo` and behind `hi`.
proof fn lemma_trimmed(s: Seq<char>, lo: int, hi: int)
    requires
        0 <= lo <= hi <= s.len(),
        lo == leading(s, whitespace()),
        forall|j: int| hi <= j < s.len() ==> is_whitespace(#[trigger] s[j]),
        lo < hi ==> !is_whitespace(s[hi - 1]),
    ensures
        trimmed(s) == s.subrange(lo, hi),
{
    let rest = s.skip(lo);
    lemma_leading_run(s, whitespace());
    if lo == hi && lo < s.len() {
        assert(!is_whitespace(s[lo]));
    }
    assert forall|i: int| rest.len() - (s.len() - hi) <= i < rest.len() implies whitespace()(
        #[trigger] rest[i],
    ) by {
        assert(rest[i] == s[lo + i]);
    }
    if s.len() - hi < rest.len() {
        assert(rest[rest.len() - (s.len() - hi) - 1] == s[hi - 1]);
    }
    lemma_trailing(rest, whitespace(), s.len() - hi);
    assert(rest.take(rest.len() - trailing(rest, whitespace())) =~= s.subrange(lo, hi));
}

/// `s` without the white space at its two ends.
pub fn trim(s: &str) -> (t: &str)
    ensures
        t@ == trimmed(s@),
{
    let chars = chars_of(s);
    proof {
        assert(s@.skip(0) =~= s@);
    }
    let lo = skip_whitespace(&chars, 0);
    let mut hi: usize = chars.len();
    while hi > lo && char_is_whitespace(chars[hi - 1])
        invariant
            lo <= hi <= chars@.len(),
            forall|j: int| hi <= j < chars@.len() ==> is_whitespace(#[trigger] chars@[j]),
        decreases hi,
    {
        hi -= 1;
    }
    proof {
        lemma_trimmed(s@, lo as int, hi as int);
    }
    s.substring_char(lo, hi)
}

/// White space at the front of `s` holds no word.
proof fn lemma_words_skip_whitespace(s: Seq<char>)
    ensures
        words(s) == words(s.skip(leading(s, whitespace()) as int)),
    decreases s.len(),
{
    if s.len() > 0 && is_whitespace(s[0]) {
        let rest = s.drop_first();
        lemma_words_skip_whitespace(rest);
        lemma_leading_run(rest, whitespace());
        assert(s.skip(leading(s, whitespace()) as int) =~= rest.skip(
            leading(rest, whitespace()) as int,
        ));
    } else {
        assert(s.skip(0) =~= s);
    }
}

/// The maximal runs of characters of `s` that are not white space, in order.
pub fn split_whitespace(s: &str) -> (found: Vec<&str>)
    ensures
        found@.len() == words(s@).len(),
        forall|i: int| 0 <= i < found@.len() ==> (#[trigger] found@[i])@ == words(s@)[i],
{
    let chars = chars_of(s);
    let mut found: Vec<&str> = Vec::new();
    let ghost mut done: Seq<Seq<char>> = Seq::empty();
    let mut pos: usize = 0;
    proof {
        assert(s@.skip(0) =~= s@);
    }
    loop
        invariant
            pos <= chars@.len(),
            chars@ == s@,
            words(s@) == done + words(s@.skip(pos as int)),
            found@.len() == done.len(),
            forall|i: int| 0 <= i < found@.len() ==> (#[trigger] found@[i])@ == done[i],
        ensures
            words(s@) == done,
            found@.len() == done.len(),
            forall|i: int| 0 <= i < found@.len() ==> (#[trigger] found@[i])@ == done[i],
        decreases chars@.len() - pos,
    {
        let start = skip_whitespace(&chars, pos);
        let ghost rest = s@.skip(start as int);
        proof {
            lemma_words_skip_whitespace(s@.skip(pos as int));
            assert(s@.skip(pos as int).skip(start - pos) =~= rest);
        }
        if start == chars.len() {
            proof {
                assert(done + words(rest) =~= done);
            }
            break;
        }
        let end = skip_word(&chars, start);
        let word = s.substring_char(start, end);
        proof {
            assert(rest[0] == s@[start as int]);
            assert(rest.take(end - start) =~= word@);
            assert(rest.skip(end - start) =~= s@.skip(end as int));
            assert(done + (seq![word@] + words(s@.skip(end as int))) =~= done.push(word@) + words(
                s@.skip(end as int),
            ));
            done = done.push(word@);
        }
        found.push(word);
        pos = end;
    }
    found
}

/// The lines of `s`, without their line endings.
pub fn lines_of(s: &str) -> (found: Vec<&str>)
    ensures
        found@.len() == lines(s@).len(),
        forall|i: int| 0 <= i < found@.len() ==> (#[trigger] found@[i])@ == lines(s@)[i],
{
    let chars = chars_of(s);
    let mut found: Vec<&str> = Vec::new();
    let ghost mut done: Seq<Seq<char>> = Seq::empty();
    let mut pos: usize = 0;
    proof {
        assert(s@.skip(0) =~= s@);
    }
    while pos < chars.len()
        invariant
            pos <= chars@.len(),
            chars@ == s@,
            lines(s@) == done + lines(s@.skip(pos as int)),
            found@.len() == done.len(),
            forall|i: int| 0 <= i < found@.len() ==> (#[trigger] found@[i])@ == done[i],
        decreases chars@.len() - pos,
    {
        let ghost rest = s@.skip(pos as int);
        let end = find(&chars, pos, '\n');
        if end == chars.len() {
            let line = s.substring_char(pos, end);
            proof {
                assert(line@ =~= rest);
                assert(s@.skip(end as int) =~= Seq::<char>::empty());
                assert(done + seq![rest] =~= done.push(line@) + lines(s@.skip(end as int)));
                done = done.push(line@);
            }
            found.push(line);
            pos = end;
        } else {
            let stop = if end > pos && chars[end - 1] == '\r' {
                end - 1
            } else {
                end
            };
            let line = s.substring_char(pos, stop);
            proof {
                let whole = rest.take(end - pos);
                assert(whole =~= s@.subrange(pos as int, end as int));
                assert(without_carriage_return(whole) =~= line@);
                assert(rest.skip(end - pos + 1) =~= s@.skip(end + 1));
                assert(done + (seq![line@] + lines(s@.skip(end + 1))) =~= done.push(line@) + lines(
                    s@.skip(end + 1),
                ));
                done = done.push(line@);
            }
            found.push(line);
            pos = end + 1;
        }
    }
    proof {
        assert(done + lines(s@.skip(pos as int)) =~= done);
    }
    found
}

/// `s` cut in two at its first `c`; `None` where `s` holds no `c`.
pub fn split_at_first(s: &str, c: char) -> (parts: Option<(&str, &str)>)
    ensures
        match parts {
            Some((before, after)) => split_once(s@, c) == Some((before@, after@)),
            None => split_once(s@, c) is None,
        },
{
    let chars = chars_of(s);
    proof {
        assert(s@.skip(0) =~= s@);
    }
    let at = find(&chars, 0, c);
    if at == chars.len() {
        None
    } else {
        let before = s.substring_char(0, at);
        let after = s.substring_char(at + 1, chars.len());
        proof {
            assert(before@ =~= s@.take(at as int));
            assert(after@ =~= s@.skip(at + 1));
        }
        Some((before, after))
    }
}

/// What is left of `s` behind `prefix`; `None` where `s` does not start with
/// `prefix`.
pub fn remainder_after<'a>(s: &'a str, prefix: &str) -> (rest: Option<&'a str>)
    ensures
        match rest {
            Some(r) => strip_prefix(s@, prefix@) == Some(r@),
            None => strip_prefix(s@, prefix@) is None,
        },
{
    let chars = chars_of(s);
    let head = chars_of(prefix);
    if head.len() > chars.len() {
        return None;
    }
    let mut i: usize = 0;
    while i < head.len()
        invariant
            i <= head@.len() <= chars@.len(),
            chars@ == s@,
            head@ == prefix@,
            forall|j: int| 0 <= j < i ==> chars@[j] == head@[j],
        decreases head@.len() - i,
    {
        if chars[i] != head[i] {
            return None;
        }
        i += 1;
    }
    let rest = s.substring_char(head.len(), chars.len());
    proof {
        assert(prefix@ =~= s@.subrange(0, prefix@.len() as int));
        assert(rest@ =~= s@.skip(prefix@.len() as int));
    }
    Some(rest)
}

/// The parts of `s` between its occurrences of `c`, in order.
pub fn split(s: &str, c: char) -> (found: Vec<&str>)
    ensures
        found@.len() == fields(s@, c).len(),
        forall|i: int| 0 <= i < found@.len() ==> (#[trigger] found@[i])@ == fields(s@, c)[i],
{
    let chars = chars_of(s);
    let mut found: Vec<&str> = Vec::new();
    let ghost mut done: Seq<Seq<char>> = Seq::empty();
    let mut pos: usize = 0;
    proof {
        assert(s@.skip(0) =~= s@);
    }
    loop
        invariant_except_break
            pos <= chars@.len(),
            fields(s@, c) == done + fields(s@.skip(pos as int), c),
        invariant
            chars@ == s@,
            found@.len() == done.len(),
            forall|i: int| 0 <= i < found@.len() ==> (#[trigger] found@[i])@ == done[i],
        ensures
            fields(s@, c) == done,
            found@.len() == done.len(),
            forall|i: int| 0 <= i < found@.len() ==> (#[trigger] found@[i])@ == done[i],
        decreases chars@.len() - pos,
    {
        let ghost rest = s@.skip(pos as int);
        let end = find(&chars, pos, c);
        let part = s.substring_char(pos, end);
        proof {
            assert(rest.take(end - pos) =~= part@);
        }
        found.push(part);
        if end == chars.len() {
            proof {
                assert(part@ =~= rest);
                assert(done + seq![rest] =~= done.push(part@));
                done = done.push(part@);
            }
            break;
        }
        proof {
            assert(rest.skip(end - pos + 1) =~= s@.skip(end + 1));
            assert(done + (seq![part@] + fields(s@.skip(end + 1), c)) =~= done.push(part@) + fields(
                s@.skip(end + 1),
                c,
            ));
            done = done.push(part@);
        }
        pos = end + 1;
    }
    found
}

/// The string of the one digit `d`.
fn digit_str(d: usize) -> (s: &'static str)
    requires
        d < 10,
    ensures
        s@ == seq![digit(d as nat)],
{
    proof {
        reveal_strlit("0");
        reveal_strlit("1");
        reveal_strlit("2");
        reveal_strlit("3");
        reveal_strlit("4");
        reveal_strlit("5");
        reveal_strlit("6");
        reveal_strlit("7");
        reveal_strlit("8");
        reveal_strlit("9");
    }
    let s = match d {
        0 => "0",
        1 => "1",
        2 => "2",
        3 => "3",
        4 => "4",
        5 => "5",
        6 => "6",
        7 => "7",
        8 => "8",
        _ => "9",
    };
    assert(s@ =~= seq![digit(d as nat)]);
    s
}

/// Appends `n` in decimal digits to `out`.
pub fn push_decimal(out: &mut String, n: usize)
    ensures
        final(out)@ == old(out)@ + decimal(n as nat),
    decreases n,
{
    if n >= 10 {
        push_decimal(out, n / 10);
    }
    out.append(digit_str(n % 10));
    assert(out@ =~= old(out)@ + decimal(n as nat));
}

} // verus!
