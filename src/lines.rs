//! The mathematical model of line splitting: where the first line of a byte
//! sequence ends, what it holds, and how many bytes it takes with its terminator.
use vstd::prelude::*;

verus! {

/// Line feed.
pub const LF: u8 = 10;

/// Carriage return.
pub const CR: u8 = 13;

/// A byte that ends a line, alone or (for `\r`) as the start of `\r\n`.
pub open spec fn is_break(b: u8) -> bool {
    b == LF || b == CR
}

/// The number of bytes before the first line break, or the whole length if there is none.
pub open spec fn line_len(s: Seq<u8>) -> nat
    decreases s.len(),
{
    if s.len() == 0 || is_break(s[0]) {
        0
    } else {
        1 + line_len(s.drop_first())
    }
}

/// The length of the terminator of the first line: 0 at the end of the data,
/// 2 for `\r\n`, 1 for a bare `\n` or `\r`.
pub open spec fn terminator_len(s: Seq<u8>) -> nat {
    let k = line_len(s) as int;
    if k >= s.len() {
        0
    } else if s[k] == CR && k + 1 < s.len() && s[k + 1] == LF {
        2
    } else {
        1
    }
}

/// The bytes that reading the first line takes: its payload and its terminator.
pub open spec fn line_end(s: Seq<u8>) -> nat {
    line_len(s) + terminator_len(s)
}

/// The payload of the first line, terminator excluded.
pub open spec fn next_line(s: Seq<u8>) -> Seq<u8> {
    s.take(line_len(s) as int)
}

/// The payloads of all the lines of `s`, in order: what reading `s` line by
/// line to its end yields.
pub open spec fn lines(s: Seq<u8>) -> Seq<Seq<u8>>
    decreases s.len(),
    via lines_decreases
{
    if s.len() == 0 {
        Seq::empty()
    } else {
        seq![next_line(s)] + lines(s.skip(line_end(s) as int))
    }
}

#[via_fn]
proof fn lines_decreases(s: Seq<u8>) {
    lemma_line_len(s);
}

/// The first line ends at a `\r` that a `\n` follows.
pub open spec fn ends_in_crlf(s: Seq<u8>) -> bool {
    terminator_len(s) == 2
}

/// The line-break-free sequences.
pub open spec fn no_break(s: Seq<u8>) -> bool {
    forall|j: int| 0 <= j < s.len() ==> !is_break(#[trigger] s[j])
}

/// `line_len` is the position of the first break.
pub proof fn lemma_line_len(s: Seq<u8>)
    ensures
        line_len(s) <= s.len(),
        no_break(s.take(line_len(s) as int)),
        line_len(s) < s.len() ==> is_break(s[line_len(s) as int]),
        line_end(s) <= s.len(),
        s.len() > 0 ==> line_end(s) > 0,
    decreases s.len(),
{
    if s.len() > 0 && !is_break(s[0]) {
        let t = s.drop_first();
        lemma_line_len(t);
        assert forall|j: int| 0 <= j < line_len(s) implies !is_break(
            #[trigger] s.take(line_len(s) as int)[j],
        ) by {
            if j > 0 {
                assert(s[j] == t.take(line_len(t) as int)[j - 1]);
            }
        }
        if line_len(s) < s.len() {
            assert(s[line_len(s) as int] == t[line_len(t) as int]);
        }
    }
}

/// Any position that only non-breaks precede, and that is a break or the end,
/// is `line_len`.
pub proof fn lemma_line_len_at(s: Seq<u8>, k: int)
    requires
        0 <= k <= s.len(),
        no_break(s.take(k)),
        k < s.len() ==> is_break(s[k]),
    ensures
        line_len(s) == k,
{
    lemma_line_len(s);
    if line_len(s) < k {
        assert(s.take(k)[line_len(s) as int] == s[line_len(s) as int]);
    } else if line_len(s) > k {
        assert(s.take(line_len(s) as int)[k] == s[k]);
    }
}

/// A break-free prefix lies within the first line.
pub proof fn lemma_line_len_lower(s: Seq<u8>, m: int)
    requires
        0 <= m <= s.len(),
        no_break(s.take(m)),
    ensures
        m <= line_len(s),
{
    lemma_line_len(s);
    if line_len(s) < m {
        assert(s.take(m)[line_len(s) as int] == s[line_len(s) as int]);
    }
}

/// A line that `\n` ends is read as the bytes before it, taking one byte
/// more, and the lines after it are those of what follows.
pub proof fn lemma_lf_line(p: Seq<u8>, rest: Seq<u8>)
    requires
        no_break(p),
    ensures
        next_line(p + seq![LF] + rest) == p,
        line_end(p + seq![LF] + rest) == p.len() + 1,
        lines(p + seq![LF] + rest) == seq![p] + lines(rest),
{
    let s = p + seq![LF] + rest;
    assert(s.take(p.len() as int) =~= p);
    lemma_line_len_at(s, p.len() as int);
    assert(s.skip(p.len() + 1 as int) =~= rest);
}

/// A line that `\r\n` ends is read as the bytes before it, taking two bytes
/// more: the pair is one terminator.
pub proof fn lemma_crlf_line(p: Seq<u8>, rest: Seq<u8>)
    requires
        no_break(p),
    ensures
        next_line(p + seq![CR, LF] + rest) == p,
        line_end(p + seq![CR, LF] + rest) == p.len() + 2,
        lines(p + seq![CR, LF] + rest) == seq![p] + lines(rest),
{
    let s = p + seq![CR, LF] + rest;
    assert(s.take(p.len() as int) =~= p);
    lemma_line_len_at(s, p.len() as int);
    assert(s[p.len() + 1 as int] == LF);
    assert(s.skip(p.len() + 2 as int) =~= rest);
}

/// A line that a bare `\r` ends (one that no `\n` follows) is read as one
/// that `\n` ends.
pub proof fn lemma_cr_line(p: Seq<u8>, rest: Seq<u8>)
    requires
        no_break(p),
        rest.len() == 0 || rest[0] != LF,
    ensures
        next_line(p + seq![CR] + rest) == next_line(p + seq![LF] + rest),
        line_end(p + seq![CR] + rest) == line_end(p + seq![LF] + rest),
        lines(p + seq![CR] + rest) == lines(p + seq![LF] + rest),
        line_end(p + seq![CR] + rest) == p.len() + 1,
{
    let s = p + seq![CR] + rest;
    assert(s.take(p.len() as int) =~= p);
    lemma_line_len_at(s, p.len() as int);
    if p.len() + 1 < s.len() {
        assert(s[p.len() + 1 as int] == rest[0]);
    }
    assert(s.skip(p.len() + 1 as int) =~= rest);
    lemma_lf_line(p, rest);
}

/// `a` is empty or ends a line of its own when `b` follows it: its last byte
/// is a break, and not a `\r` that the first byte of `b` would pair with.
pub open spec fn ends_before(a: Seq<u8>, b: Seq<u8>) -> bool {
    a.len() == 0 || (is_break(a.last()) && !(a.last() == CR && b.len() > 0 && b[0] == LF))
}

/// Lines are read independently, each by its own terminator: the lines of
/// `a + b`, where `a` ends a line, are those of `a` and then those of `b`.
pub proof fn lemma_lines_concat(a: Seq<u8>, b: Seq<u8>)
    requires
        ends_before(a, b),
    ensures
        lines(a + b) == lines(a) + lines(b),
    decreases a.len(),
{
    let s = a + b;
    if a.len() == 0 {
        assert(s =~= b);
        assert(lines(a) + lines(b) =~= lines(b));
    } else {
        lemma_line_len(a);
        let k = line_len(a) as int;
        if k == a.len() {
            assert(a.take(k)[k - 1] == a.last());
        }
        assert(k < a.len());
        assert(s.take(k) =~= a.take(k));
        assert(s[k] == a[k]);
        lemma_line_len_at(s, k);
        if k + 1 < a.len() {
            assert(s[k + 1] == a[k + 1]);
        } else if b.len() > 0 {
            assert(s[k + 1] == b[0]);
        }
        let e = line_end(a) as int;
        assert(line_end(s) == e);
        assert(next_line(s) =~= next_line(a));
        let a2 = a.skip(e);
        assert(s.skip(e) =~= a2 + b);
        if a2.len() > 0 {
            assert(a2.last() == a.last());
        }
        lemma_lines_concat(a2, b);
        assert(lines(s) =~= lines(a) + lines(b));
    }
}

/// Data that no terminator ends is still read as a last line; then the
/// stream is at its end: nothing more is taken and no line is added.
pub proof fn lemma_unterminated_tail(a: Seq<u8>, p: Seq<u8>)
    requires
        a.len() == 0 || is_break(a.last()),
        no_break(p),
        p.len() > 0,
    ensures
        next_line(p) == p,
        line_end(p) == p.len(),
        lines(p) == seq![p],
        lines(a + p) == lines(a).push(p),
        line_end(Seq::<u8>::empty()) == 0,
        next_line(Seq::<u8>::empty()) == Seq::<u8>::empty(),
        lines(Seq::<u8>::empty()) == Seq::<Seq<u8>>::empty(),
{
    lemma_line_len_at(p, p.len() as int);
    assert(p.take(p.len() as int) =~= p);
    assert(p.skip(p.len() as int) =~= Seq::<u8>::empty());
    assert(lines(p.skip(p.len() as int)) =~= Seq::<Seq<u8>>::empty());
    assert(lines(p) =~= seq![p] + Seq::<Seq<u8>>::empty());
    assert(!is_break(p[0]));
    lemma_lines_concat(a, p);
    assert(lines(a) + seq![p] =~= lines(a).push(p));
    assert(Seq::<u8>::empty().take(0) =~= Seq::<u8>::empty());
}

} // verus!
