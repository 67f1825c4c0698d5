//! Reading one line at a time from a byte source, where a line ends at `\n`,
//! `\r` or `\r\n`.
use vstd::prelude::*;
use crate::lines::{
    is_break, line_end, line_len, lines, next_line, no_break, ends_in_crlf, lemma_line_len,
    lemma_line_len_at, lemma_line_len_lower, CR, LF,
};
use crate::source::{ByteSource, FillError};

verus! {

/// Relies on memchr::memchr: the index of the first occurrence of `needle`
/// in `haystack`, or `None` when it does not occur.
pub assume_specification[ memchr::memchr ](needle: u8, haystack: &[u8]) -> (r: Option<usize>)
    ensures
        match r {
            Some(i) => {
                &&& i < haystack@.len()
                &&& haystack@[i as int] == needle
                &&& forall|j: int| 0 <= j < i ==> haystack@[j] != needle
            },
            None => forall|j: int| 0 <= j < haystack@.len() ==> haystack@[j] != needle,
        },
;

/// Scans one window: appends the bytes of the line that it holds to `buf` and
/// returns whether the line ended in it and how many of its bytes to consume.
/// A `\r` that ends a window of more than one byte is left unconsumed, so that
/// the next window shows whether a `\n` follows it.
fn scan_window(available: &[u8], buf: &mut Vec<u8>) -> (r: (bool, usize))
    ensures
        ({
            let w = available@;
            let k = line_len(w) as int;
            let (done, used) = r;
            &&& final(buf)@ == old(buf)@ + w.take(k)
            &&& k == w.len() ==> !done && used == w.len()
            &&& k < w.len() && w[k] == LF ==> done && used == k + 1
            &&& k + 1 < w.len() && w[k] == CR ==> done && used == line_end(w)
            &&& k + 1 == w.len() && w[k] == CR && w.len() == 1 ==> done && used == 1
            &&& k + 1 == w.len() && w[k] == CR && w.len() > 1 ==> !done && used == k
        }),
{
    let ghost w = available@;
    proof {
        lemma_line_len(w);
    }
    let len = available.len();
    let nl_idx = memchr::memchr(LF, available);
    let cr_idx = memchr::memchr(CR, available);
    let (done, used, keep) = match (nl_idx, cr_idx) {
        (Some(nl), Some(cr)) if nl < cr => {
            proof { lemma_line_len_at(w, nl as int); }
            (true, nl + 1, nl)
        },
        (Some(nl), None) => {
            proof { lemma_line_len_at(w, nl as int); }
            (true, nl + 1, nl)
        },
        (Some(nl), Some(cr)) if cr + 1 == nl => {
            proof { lemma_line_len_at(w, cr as int); }
            (true, nl + 1, cr)
        },
        (Some(_), Some(cr)) => {
            proof { lemma_line_len_at(w, cr as int); }
            (true, cr + 1, cr)
        },
        (None, Some(cr)) => {
            proof { lemma_line_len_at(w, cr as int); }
            if len == 1 {
                (true, 1, 0)
            } else if len - 1 == cr {
                (false, cr, cr)
            } else {
                (true, cr + 1, cr)
            }
        },
        (None, None) => {
            proof { lemma_line_len_at(w, w.len() as int); }
            (false, len, len)
        },
    };
    buf.extend_from_slice(&available[0..keep]);
    proof {
        assert(final(buf)@ =~= old(buf)@ + w.take(keep as int));
    }
    (done, used)
}

/// What a scan of the stream `s` may consume: its first line with the line's
/// terminator, or, on a source where a window of one byte need not be the
/// last, a line ended by `\r\n` whose `\n` is left for the next scan.
pub open spec fn scan_takes(s: Seq<u8>, n: nat, lone_byte_is_last: bool) -> bool {
    n == line_end(s) || (!lone_byte_is_last && ends_in_crlf(s) && n == line_len(s) + 1)
}

/// Reads the next line of `r` into `buf`, without its terminator (`\n`, `\r`
/// or `\r\n`), and returns the number of bytes taken from `r`, terminator
/// included: 0 only at the end of the stream. An interrupted fill is retried;
/// a failed one is returned, with `buf` left holding its old contents and a
/// prefix of the line. On a source whose fills never fail the read succeeds.
pub fn read_line_u8<R: ByteSource>(r: &mut R, buf: &mut Vec<u8>) -> (res: Result<usize, R::Error>)
    requires
        line_end(old(r).rest()) <= usize::MAX,
    ensures
        final(r).lone_byte_is_last() == old(r).lone_byte_is_last(),
        final(r).never_fails() == old(r).never_fails(),
        old(r).never_fails() ==> res is Ok,
        res is Err ==> exists|k: int|
            0 <= k <= line_len(old(r).rest()) && final(buf)@ == old(buf)@
                + #[trigger] old(r).rest().take(k),
        res matches Ok(n) ==> {
            let s = old(r).rest();
            &&& (n == 0 <==> s.len() == 0)
            &&& final(buf)@ == old(buf)@ + next_line(s)
            &&& final(r).rest() == s.skip(n as int)
            &&& scan_takes(s, n as nat, old(r).lone_byte_is_last())
        },
{
    let ghost s0 = r.rest();
    let ghost buf0 = buf@;
    let ghost lone = r.lone_byte_is_last();
    let mut read: usize = 0;
    proof {
        lemma_line_len(s0);
        assert(s0.take(0) =~= Seq::<u8>::empty());
        assert(buf@ =~= buf0 + s0.take(0));
    }
    loop
        invariant
            s0 == old(r).rest(),
            buf0 == old(buf)@,
            lone == old(r).lone_byte_is_last(),
            line_end(s0) <= usize::MAX,
            line_len(s0) <= s0.len(),
            read <= line_len(s0),
            r.rest() == s0.skip(read as int),
            r.lone_byte_is_last() == lone,
            r.never_fails() == old(r).never_fails(),
            no_break(s0.take(read as int)),
            buf@ == buf0 + s0.take(read as int),
        decreases r.rest().len(), r.interrupt_fuel(),
    {
        let ghost mut w: Seq<u8> = Seq::empty();
        let (done, used) = match r.fill_buf() {
            Ok(available) => {
                proof {
                    w = available@;
                }
                scan_window(available, buf)
            },
            Err(FillError::Interrupted) => continue,
            Err(FillError::Failed(e)) => {
                proof {
                    assert(buf@ == buf0 + s0.take(read as int));
                }
                return Err(e);
            },
        };
        proof {
            let k = line_len(w) as int;
            let kk = read + k;
            lemma_line_len(w);
            assert(w.take(k) =~= s0.subrange(read as int, kk));
            assert(s0.take(read as int) + w.take(k) =~= s0.take(kk));
            assert(no_break(s0.take(kk))) by {
                assert forall|j: int| 0 <= j < kk implies !is_break(#[trigger] s0.take(kk)[j]) by {
                    if j < read {
                        assert(s0.take(kk)[j] == s0.take(read as int)[j]);
                    } else {
                        assert(s0.take(kk)[j] == w.take(k)[j - read]);
                    }
                }
            }
            if k < w.len() {
                assert(s0[kk] == w[k]);
                lemma_line_len_at(s0, kk);
                if k + 1 < w.len() {
                    assert(s0[kk + 1] == w[k + 1]);
                }
            } else if w.len() == 0 {
                lemma_line_len_at(s0, kk);
            } else {
                lemma_line_len_lower(s0, kk);
            }
        }
        r.consume(used);
        read = read + used;
        proof {
            assert(r.rest() =~= s0.skip(read as int));
        }
        if done || used == 0 {
            return Ok(read);
        }
    }
}

/// Line reading on any byte source.
pub trait BufReadExt: ByteSource + Sized {
    /// Reads the next line into `buf`, as `read_line_u8` does.
    fn read_line_u8(&mut self, buf: &mut Vec<u8>) -> (res: Result<usize, Self::Error>)
        requires
            line_end(old(self).rest()) <= usize::MAX,
        ensures
            final(self).lone_byte_is_last() == old(self).lone_byte_is_last(),
            final(self).never_fails() == old(self).never_fails(),
            old(self).never_fails() ==> res is Ok,
            res is Err ==> exists|k: int|
                0 <= k <= line_len(old(self).rest()) && final(buf)@ == old(buf)@
                    + #[trigger] old(self).rest().take(k),
            res matches Ok(n) ==> {
                let s = old(self).rest();
                &&& (n == 0 <==> s.len() == 0)
                &&& final(buf)@ == old(buf)@ + next_line(s)
                &&& final(self).rest() == s.skip(n as int)
                &&& scan_takes(s, n as nat, old(self).lone_byte_is_last())
            },
    ;

    /// The lines of this source, read one at a time.
    fn lines_u8(self) -> (r: LinesIter<Self>)
        ensures
            r.source() == self,
            !r.is_done(),
    ;
}

impl<R: ByteSource> BufReadExt for R {
    fn read_line_u8(&mut self, buf: &mut Vec<u8>) -> (res: Result<usize, Self::Error>) {
        read_line_u8(self, buf)
    }

    fn lines_u8(self) -> (r: LinesIter<Self>) {
        LinesIter { inner: self, done: false }
    }
}

/// The lines of a byte source, each one an owned byte vector without its
/// terminator. Once the source has ended, no more lines come; after a failed
/// fill the next call tries again.
pub struct LinesIter<R> {
    inner: R,
    done: bool,
}

impl<R: ByteSource> LinesIter<R> {
    /// The source that lines are read from.
    pub closed spec fn source(&self) -> R {
        self.inner
    }

    /// The source has ended.
    pub closed spec fn is_done(&self) -> bool {
        self.done
    }

    /// The next line, `None` once the source has ended, or the source's error.
    pub fn next(&mut self) -> (r: Option<Result<Vec<u8>, R::Error>>)
        requires
            line_end(old(self).source().rest()) <= usize::MAX,
        ensures
            old(self).is_done() ==> r is None && *final(self) == *old(self),
            !old(self).is_done() ==> {
                let s = old(self).source().rest();
                let t = final(self).source().rest();
                let lone = old(self).source().lone_byte_is_last();
                &&& final(self).source().lone_byte_is_last() == lone
                &&& final(self).source().never_fails() == old(self).source().never_fails()
                &&& (r is None <==> final(self).is_done())
                &&& r is None ==> s.len() == 0
                &&& old(self).source().never_fails() ==> {
                    &&& (r is None <==> s.len() == 0)
                    &&& (r is Some ==> r matches Some(Ok(_)))
                }
                &&& r matches Some(Ok(v)) ==> {
                    &&& s.len() > 0
                    &&& v@ == next_line(s)
                    &&& t.len() <= s.len()
                    &&& t == s.skip(s.len() - t.len())
                    &&& scan_takes(s, (s.len() - t.len()) as nat, lone)
                    &&& lone ==> v@ == lines(s)[0] && lines(t) == lines(s).drop_first()
                }
            },
    {
        if self.done {
            return None;
        }
        let mut line: Vec<u8> = Vec::new();
        let ghost s = self.inner.rest();
        let res = read_line_u8(&mut self.inner, &mut line);
        proof {
            lemma_line_len(s);
            if s.len() > 0 {
                assert(lines(s) == seq![next_line(s)] + lines(s.skip(line_end(s) as int)));
                assert(lines(s).drop_first() =~= lines(s.skip(line_end(s) as int)));
            }
            if res is Ok {
                assert(Seq::<u8>::empty() + next_line(s) =~= next_line(s));
            }
        }
        match res {
            Ok(0) => {
                self.done = true;
                None
            },
            Ok(_) => Some(Ok(line)),
            Err(e) => Some(Err(e)),
        }
    }
}

} // verus!
