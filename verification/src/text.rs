//! Text as sequences of characters: white space, words, lines and numbers,
//! as the request grammar, the routing table and the wire format speak of
//! them.

use vstd::prelude::*;

verus! {

/// How many elements at the front of `s` satisfy `p`.
pub open spec fn leading<A>(s: Seq<A>, p: spec_fn(A) -> bool) -> nat
    decreases s.len(),
{
    if s.len() > 0 && p(s[0]) {
        1 + leading(s.drop_first(), p)
    } else {
        0
    }
}

/// How many elements at the back of `s` satisfy `p`.
pub open spec fn trailing<A>(s: Seq<A>, p: spec_fn(A) -> bool) -> nat
    decreases s.len(),
{
    if s.len() > 0 && p(s.last()) {
        1 + trailing(s.drop_last(), p)
    } else {
        0
    }
}

/// `leading(s, p)` is the one `n` such that the first `n` elements satisfy
/// `p` and the element after them, if there is one, does not.
pub proof fn lemma_leading<A>(s: Seq<A>, p: spec_fn(A) -> bool, n: int)
    requires
        0 <= n <= s.len(),
        forall|i: int| 0 <= i < n ==> p(#[trigger] s[i]),
        n < s.len() ==> !p(s[n]),
    ensures
        leading(s, p) == n,
    decreases s.len(),
{
    if n > 0 {
        let rest = s.drop_first();
        assert forall|i: int| 0 <= i < n - 1 implies p(#[trigger] rest[i]) by {
            assert(rest[i] == s[i + 1]);
        }
        lemma_leading(rest, p, n - 1);
    }
}

/// What `leading` counts: a run of elements that satisfy `p`, ended by the
/// end of the sequence or by an element that does not.
pub proof fn lemma_leading_run<A>(s: Seq<A>, p: spec_fn(A) -> bool)
    ensures
        leading(s, p) <= s.len(),
        forall|i: int| 0 <= i < leading(s, p) ==> p(#[trigger] s[i]),
        leading(s, p) < s.len() ==> !p(s[leading(s, p) as int]),
    decreases s.len(),
{
    if s.len() > 0 && p(s[0]) {
        let rest = s.drop_first();
        lemma_leading_run(rest, p);
        assert forall|i: int| 0 <= i < leading(s, p) implies p(#[trigger] s[i]) by {
            if i > 0 {
                assert(s[i] == rest[i - 1]);
            }
        }
    }
}

/// `trailing(s, p)` is the one `n` such that the last `n` elements satisfy
/// `p` and the element before them, if there is one, does not.
pub proof fn lemma_trailing<A>(s: Seq<A>, p: spec_fn(A) -> bool, n: int)
    requires
        0 <= n <= s.len(),
        forall|i: int| s.len() - n <= i < s.len() ==> p(#[trigger] s[i]),
        n < s.len() ==> !p(s[s.len() - n - 1]),
    ensures
        trailing(s, p) == n,
    decreases s.len(),
{
    if n > 0 {
        let rest = s.drop_last();
        assert forall|i: int| rest.len() - (n - 1) <= i < rest.len() implies p(
            #[trigger] rest[i],
        ) by {
            assert(rest[i] == s[i]);
        }
        lemma_trailing(rest, p, n - 1);
    }
}

/// Whether `c` is white space: a character with the Unicode property
/// `White_Space`.
pub open spec fn is_whitespace(c: char) -> bool {
    let u = c as u32;
    ||| 0x09 <= u <= 0x0D
    ||| u == 0x20
    ||| u == 0x85
    ||| u == 0xA0
    ||| u == 0x1680
    ||| 0x2000 <= u <= 0x200A
    ||| u == 0x2028
    ||| u == 0x2029
    ||| u == 0x202F
    ||| u == 0x205F
    ||| u == 0x3000
}

/// The predicate "is white space".
pub open spec fn whitespace() -> spec_fn(char) -> bool {
    |c: char| is_whitespace(c)
}

/// The predicate "is not white space".
pub open spec fn non_whitespace() -> spec_fn(char) -> bool {
    |c: char| !is_whitespace(c)
}

/// The predicate "is another character than `c`".
pub open spec fn other_than(c: char) -> spec_fn(char) -> bool {
    |x: char| x != c
}

/// `s` without the white space at its two ends.
pub open spec fn trimmed(s: Seq<char>) -> Seq<char> {
    let t = s.skip(leading(s, whitespace()) as int);
    t.take(t.len() - trailing(t, whitespace()))
}

/// The maximal runs of characters of `s` that are not white space, in order.
pub open spec fn words(s: Seq<char>) -> Seq<Seq<char>>
    decreases s.len(),
{
    if s.len() == 0 {
        Seq::empty()
    } else if is_whitespace(s[0]) {
        words(s.drop_first())
    } else {
        let n = leading(s, non_whitespace());
        proof {
            lemma_leading_run(s, non_whitespace());
        }
        seq![s.take(n as int)] + words(s.skip(n as int))
    }
}

/// Each word holds a character, and none that is white space.
pub proof fn lemma_words(s: Seq<char>)
    ensures
        forall|i: int|
            0 <= i < words(s).len() ==> {
                &&& (#[trigger] words(s)[i]).len() > 0
                &&& forall|j: int|
                    0 <= j < words(s)[i].len() ==> !is_whitespace(#[trigger] words(s)[i][j])
            },
    decreases s.len(),
{
    if s.len() == 0 {
        assert(words(s).len() == 0);
    } else if is_whitespace(s[0]) {
        lemma_words(s.drop_first());
        assert(words(s) == words(s.drop_first()));
    } else {
        let n = leading(s, non_whitespace()) as int;
        lemma_leading_run(s, non_whitespace());
        assert(non_whitespace()(s[0]));
        assert(n > 0);
        lemma_words(s.skip(n));
        let first = s.take(n);
        let later = words(s.skip(n));
        assert(words(s) == seq![first] + later);
        assert forall|i: int| 0 <= i < words(s).len() implies {
            &&& (#[trigger] words(s)[i]).len() > 0
            &&& forall|j: int|
                0 <= j < words(s)[i].len() ==> !is_whitespace(#[trigger] words(s)[i][j])
        } by {
            if i == 0 {
                assert(words(s)[0] == first);
                assert forall|j: int| 0 <= j < first.len() implies !is_whitespace(
                    #[trigger] first[j],
                ) by {
                    assert(non_whitespace()(s[j]));
                }
            } else {
                assert(words(s)[i] == later[i - 1]);
            }
        }
    }
}

/// `line` without the carriage return at its end, if it has one.
pub open spec fn without_carriage_return(line: Seq<char>) -> Seq<char> {
    if line.len() > 0 && line.last() == '\r' {
        line.drop_last()
    } else {
        line
    }
}

/// The lines of `s`. A line ends at a line feed, or at a carriage return
/// directly followed by a line feed, neither of which belongs to the line;
/// the last line may also end with `s`. A carriage return elsewhere is part
/// of its line.
pub open spec fn lines(s: Seq<char>) -> Seq<Seq<char>>
    decreases s.len(),
{
    if s.len() == 0 {
        Seq::empty()
    } else {
        let n = leading(s, other_than('\n'));
        if n >= s.len() {
            seq![s]
        } else {
            seq![without_carriage_return(s.take(n as int))] + lines(s.skip(n + 1 as int))
        }
    }
}

/// Lines are read one after the other: behind a text that is empty or ends
/// with a line feed, what follows is read as it is read alone.
pub proof fn lemma_lines_concat(front: Seq<char>, back: Seq<char>)
    requires
        front.len() > 0 ==> front.last() == '\n',
    ensures
        lines(front + back) == lines(front) + lines(back),
    decreases front.len(),
{
    let whole = front + back;
    if front.len() == 0 {
        assert(whole =~= back);
        assert(lines(front) + lines(back) =~= lines(back));
    } else {
        let n = leading(front, other_than('\n')) as int;
        lemma_leading_run(front, other_than('\n'));
        if n == front.len() {
            assert(other_than('\n')(front[front.len() - 1]));
        }
        assert forall|i: int| 0 <= i < n implies other_than('\n')(#[trigger] whole[i]) by {
            assert(whole[i] == front[i]);
        }
        assert(whole[n] == front[n]);
        lemma_leading(whole, other_than('\n'), n);
        let rest = front.skip(n + 1);
        assert(whole.take(n) =~= front.take(n));
        assert(whole.skip(n + 1) =~= rest + back);
        if rest.len() > 0 {
            assert(rest.last() == front.last());
        }
        lemma_lines_concat(rest, back);
        assert(lines(whole) =~= lines(front) + lines(back));
    }
}

/// A line that ends with a carriage return and a line feed, and holds no
/// other line feed, is read as itself.
pub proof fn lemma_lines_of_line(line: Seq<char>)
    requires
        forall|i: int| 0 <= i < line.len() ==> #[trigger] line[i] != '\n',
    ensures
        lines(line + seq!['\r', '\n']) == seq![line],
{
    let whole = line + seq!['\r', '\n'];
    let n = line.len() as int + 1;
    assert forall|i: int| 0 <= i < n implies other_than('\n')(#[trigger] whole[i]) by {
        if i < line.len() {
            assert(whole[i] == line[i]);
        }
    }
    assert(whole[n] == '\n');
    lemma_leading(whole, other_than('\n'), n);
    let first = whole.take(n);
    assert(first.last() == '\r');
    assert(first.drop_last() =~= line);
    assert(whole.skip(n + 1) =~= Seq::<char>::empty());
    assert(lines(whole.skip(n + 1)) =~= Seq::<Seq<char>>::empty());
    assert(lines(whole) =~= seq![line]);
}

/// `s` cut in two at its first `c`, which belongs to neither part; `None`
/// where `s` holds no `c`.
pub open spec fn split_once(s: Seq<char>, c: char) -> Option<(Seq<char>, Seq<char>)> {
    let n = leading(s, other_than(c));
    if n >= s.len() {
        None
    } else {
        Some((s.take(n as int), s.skip(n + 1 as int)))
    }
}

/// What is left of `s` behind `prefix`; `None` where `s` does not start with
/// `prefix`.
pub open spec fn strip_prefix(s: Seq<char>, prefix: Seq<char>) -> Option<Seq<char>> {
    if prefix.is_prefix_of(s) {
        Some(s.skip(prefix.len() as int))
    } else {
        None
    }
}

/// The parts of `s` between its occurrences of `c`, in order: one more than
/// there are occurrences.
pub open spec fn fields(s: Seq<char>, c: char) -> Seq<Seq<char>>
    decreases s.len(),
{
    let n = leading(s, other_than(c));
    if n >= s.len() {
        seq![s]
    } else {
        seq![s.take(n as int)] + fields(s.skip(n + 1 as int), c)
    }
}

/// The character that stands for the digit `d`.
pub open spec fn digit(d: nat) -> char {
    seq!['0', '1', '2', '3', '4', '5', '6', '7', '8', '9'][d as int]
}

/// The digit that `c` stands for.
pub open spec fn digit_value(c: char) -> nat {
    (c as u32 - '0' as u32) as nat
}

/// `n` written in decimal digits.
pub open spec fn decimal(n: nat) -> Seq<char>
    decreases n,
{
    if n < 10 {
        seq![digit(n)]
    } else {
        decimal(n / 10).push(digit(n % 10))
    }
}

/// The number that the decimal digits `s` stand for.
pub open spec fn decimal_value(s: Seq<char>) -> nat
    decreases s.len(),
{
    if s.len() == 0 {
        0
    } else {
        decimal_value(s.drop_last()) * 10 + digit_value(s.last())
    }
}

/// The digits of a number stand for that number.
pub proof fn lemma_decimal_value(n: nat)
    ensures
        decimal_value(decimal(n)) == n,
    decreases n,
{
    let digits = decimal(n);
    if n < 10 {
        assert(digits.drop_last() =~= Seq::<char>::empty());
        assert(digits.last() == digit(n));
        assert(decimal_value(digits.drop_last()) == 0);
    } else {
        lemma_decimal_value(n / 10);
        assert(digits.drop_last() =~= decimal(n / 10));
        assert(digits.last() == digit(n % 10));
    }
    assert(forall|d: nat| d < 10 ==> digit_value(#[trigger] digit(d)) == d);
}

/// The decimal digits of a number hold no line feed.
pub proof fn lemma_decimal_is_one_line(n: nat)
    ensures
        forall|i: int| 0 <= i < decimal(n).len() ==> #[trigger] decimal(n)[i] != '\n',
    decreases n,
{
    assert(forall|d: nat| d < 10 ==> #[trigger] digit(d) != '\n');
    if n >= 10 {
        lemma_decimal_is_one_line(n / 10);
        assert forall|i: int| 0 <= i < decimal(n).len() implies #[trigger] decimal(n)[i]
            != '\n' by {
            if i < decimal(n).len() - 1 {
                assert(decimal(n)[i] == decimal(n / 10)[i]);
            }
        }
    }
}

} // verus!
