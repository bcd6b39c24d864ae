//! Bounded byte buffer with CR-LF line extraction.

use vstd::prelude::*;
use vstd::string::*;
use vstd::utf8::*;
use crate::text::{decode_lossy, lossy_text};

verus! {

/// Largest message on the wire, delimiter included.
pub const MAX_MSG_SIZE: usize = 512;

/// Capacity of a client's queue of outbound bytes.
pub const MAX_BUFFER_SIZE: usize = 4096;

/// Carriage return.
pub const CR: u8 = 13;

/// Line feed.
pub const LF: u8 = 10;

/// The append did not fit into the buffer; nothing was written.
#[derive(Debug, Clone, Copy, PartialEq, Eq, Structural)]
pub struct FullError;

/// A CR-LF pair starts at position `i` of `s`.
pub open spec fn delim_at(s: Seq<u8>, i: int) -> bool {
    0 <= i && i + 1 < s.len() && s[i] == CR && s[i + 1] == LF
}

/// `s` holds at least one CR-LF pair.
pub open spec fn has_delim_spec(s: Seq<u8>) -> bool {
    exists|i: int| delim_at(s, i)
}

/// `i` is the position of the earliest CR-LF pair of `s`.
pub open spec fn is_first_delim(s: Seq<u8>, i: int) -> bool {
    delim_at(s, i) && forall|j: int| 0 <= j < i ==> !delim_at(s, j)
}

/// Position of the earliest CR-LF pair of `s` (meaningful when there is one).
pub open spec fn first_delim(s: Seq<u8>) -> int {
    choose|i: int| is_first_delim(s, i)
}

/// The text before the earliest CR-LF pair.
pub open spec fn first_line(s: Seq<u8>) -> Seq<u8> {
    s.take(first_delim(s))
}

/// What follows the earliest CR-LF pair.
pub open spec fn after_first_line(s: Seq<u8>) -> Seq<u8> {
    s.skip(first_delim(s) + 2)
}

/// `s` without its first `n` bytes, or without all where there are fewer.
pub open spec fn drop_front(s: Seq<u8>, n: int) -> Seq<u8> {
    if 0 <= n <= s.len() {
        s.skip(n)
    } else {
        Seq::empty()
    }
}

/// The two delimiter bytes.
pub open spec fn crlf() -> Seq<u8> {
    seq![CR, LF]
}

/// The earliest CR-LF pair is unique: whoever finds one has found `first_delim`.
pub proof fn lemma_first_delim_unique(s: Seq<u8>, i: int)
    requires
        is_first_delim(s, i),
    ensures
        first_delim(s) == i,
        has_delim_spec(s),
{
    let k = first_delim(s);
    assert(is_first_delim(s, k));
    if k < i {
        assert(!delim_at(s, k));
    } else if i < k {
        assert(!delim_at(s, i));
    }
}

/// A sequence with a CR-LF pair has an earliest one.
pub proof fn lemma_first_delim_exists(s: Seq<u8>)
    requires
        has_delim_spec(s),
    ensures
        is_first_delim(s, first_delim(s)),
        0 <= first_delim(s),
        first_delim(s) + 2 <= s.len(),
{
    let w = choose|i: int| delim_at(s, i);
    lemma_least_delim(s, w);
}

proof fn lemma_least_delim(s: Seq<u8>, w: int)
    requires
        delim_at(s, w),
    ensures
        exists|i: int| is_first_delim(s, i),
    decreases w,
{
    if exists|j: int| 0 <= j < w && delim_at(s, j) {
        let j = choose|j: int| 0 <= j < w && delim_at(s, j);
        lemma_least_delim(s, j);
    } else {
        assert(is_first_delim(s, w));
    }
}

/// Text without the delimiter, followed by the delimiter and more bytes: the
/// first line is that text and the rest follows.
pub proof fn lemma_first_line_of_concat(line: Seq<u8>, rest: Seq<u8>)
    requires
        !has_delim_spec(line),
        line.len() == 0 || line.last() != CR,
    ensures
        has_delim_spec(line + crlf() + rest),
        first_line(line + crlf() + rest) == line,
        after_first_line(line + crlf() + rest) == rest,
{
    let s = line + crlf() + rest;
    let n = line.len() as int;
    assert(s[n] == CR && s[n + 1] == LF);
    assert(delim_at(s, n));
    assert forall|j: int| 0 <= j < n implies !delim_at(s, j) by {
        if delim_at(s, j) {
            if j + 1 < n {
                assert(line[j] == s[j] && line[j + 1] == s[j + 1]);
                assert(delim_at(line, j));
            } else {
                assert(s[j] == line.last());
            }
        }
    }
    lemma_first_delim_unique(s, n);
    assert(s.take(n) =~= line);
    assert(s.skip(n + 2) =~= rest);
}

/// A fixed-capacity byte buffer. Bytes are appended at `index`; whole lines
/// are taken from the front and the remainder slides down to position 0.
pub struct MessageBuffer {
    /// Storage; its length is the capacity.
    pub buf: Vec<u8>,
    /// Number of bytes held.
    pub index: usize,
}

impl View for MessageBuffer {
    type V = Seq<u8>;

    /// The bytes held, oldest first.
    open spec fn view(&self) -> Seq<u8> {
        self.buf@.take(self.index as int)
    }
}

impl MessageBuffer {
    /// `0 <= index <= capacity`.
    pub open spec fn wf(&self) -> bool {
        self.index <= self.buf.len()
    }

    /// The most bytes the buffer can hold.
    pub open spec fn cap(&self) -> nat {
        self.buf.len() as nat
    }

    /// An empty buffer for one inbound message.
    pub fn new() -> (r: MessageBuffer)
        ensures
            r.wf(),
            r@ == Seq::<u8>::empty(),
            r.cap() == MAX_MSG_SIZE,
    {
        MessageBuffer::with_capacity(MAX_MSG_SIZE)
    }

    /// An empty buffer that holds up to `capacity` bytes.
    pub fn with_capacity(capacity: usize) -> (r: MessageBuffer)
        ensures
            r.wf(),
            r@ == Seq::<u8>::empty(),
            r.cap() == capacity,
    {
        let mut buf: Vec<u8> = Vec::new();
        let mut i: usize = 0;
        while i < capacity
            invariant
                i <= capacity,
                buf.len() == i,
            decreases capacity - i,
        {
            buf.push(0u8);
            i += 1;
        }
        let r = MessageBuffer { buf, index: 0 };
        assert(r@ =~= Seq::<u8>::empty());
        r
    }

    /// The most bytes the buffer can hold.
    pub fn capacity(&self) -> (r: usize)
        ensures
            r == self.cap(),
    {
        self.buf.len()
    }

    /// Number of bytes held.
    pub fn len(&self) -> (r: usize)
        requires
            self.wf(),
        ensures
            r == self@.len(),
    {
        self.index
    }

    /// Whether no byte is held.
    pub fn is_empty(&self) -> (r: bool)
        requires
            self.wf(),
        ensures
            r == (self@.len() == 0),
    {
        self.index == 0
    }

    /// Appends `src` if it fits; otherwise fails and leaves the buffer as it was.
    pub fn append_bytes(&mut self, src: &[u8]) -> (r: Result<(), FullError>)
        requires
            old(self).wf(),
        ensures
            final(self).wf(),
            final(self).cap() == old(self).cap(),
            r is Ok <==> old(self)@.len() + src@.len() <= old(self).cap(),
            r is Ok ==> final(self)@ == old(self)@ + src@,
            r is Err ==> *final(self) == *old(self),
    {
        let n: usize = src.len();
        if n > self.buf.len() - self.index {
            return Err(FullError);
        }
        let start: usize = self.index;
        let mut i: usize = 0;
        while i < n
            invariant
                i <= n,
                n == src@.len(),
                start == old(self).index,
                start + n <= self.buf.len(),
                self.buf.len() == old(self).buf.len(),
                self.index == start,
                self.buf@.take(start as int) == old(self).buf@.take(start as int),
                self.buf@.subrange(start as int, start + i) == src@.take(i as int),
            decreases n - i,
        {
            let b: u8 = src[i];
            self.buf.set(start + i, b);
            proof {
                assert(self.buf@.take(start as int) =~= old(self).buf@.take(start as int));
                assert(self.buf@.subrange(start as int, start + i + 1) =~= src@.take(i + 1)) by {
                    let a = self.buf@.subrange(start as int, start + i + 1);
                    let c = src@.take(i + 1);
                    assert forall|k: int| 0 <= k < i + 1 implies a[k] == c[k] by {
                        if k < i {
                            assert(a[k] == self.buf@.subrange(start as int, start + i)[k]);
                            assert(c[k] == src@.take(i as int)[k]);
                        }
                    }
                }
            }
            i += 1;
        }
        self.index = start + n;
        proof {
            assert(src@.take(n as int) =~= src@);
            assert(self@ =~= old(self)@ + src@);
        }
        Ok(())
    }

    /// Appends the UTF-8 bytes of `s` if they fit; otherwise fails and leaves
    /// the buffer as it was.
    pub fn append_str(&mut self, s: &str) -> (r: Result<(), FullError>)
        requires
            old(self).wf(),
        ensures
            final(self).wf(),
            final(self).cap() == old(self).cap(),
            r is Ok <==> old(self)@.len() + s.spec_bytes().len() <= old(self).cap(),
            r is Ok ==> final(self)@ == old(self)@ + s.spec_bytes(),
            r is Err ==> *final(self) == *old(self),
    {
        self.append_bytes(s.as_bytes())
    }

    /// Position of the earliest CR-LF pair, if there is one.
    pub fn find_delim(&self) -> (r: Option<usize>)
        requires
            self.wf(),
        ensures
            r is Some <==> has_delim_spec(self@),
            r is Some ==> r->0 == first_delim(self@) && is_first_delim(self@, r->0 as int),
    {
        if self.index < 2 {
            assert forall|j: int| !delim_at(self@, j) by {}
            return None;
        }
        let last: usize = self.index - 1;
        let mut i: usize = 0;
        while i < last
            invariant
                self.wf(),
                last + 1 == self.index,
                i <= last,
                forall|j: int| 0 <= j < i ==> !delim_at(self@, j),
            decreases last - i,
        {
            if self.buf[i] == CR && self.buf[i + 1] == LF {
                proof {
                    assert(delim_at(self@, i as int));
                    lemma_first_delim_unique(self@, i as int);
                }
                return Some(i);
            }
            i += 1;
        }
        proof {
            assert forall|j: int| !delim_at(self@, j) by {
                if delim_at(self@, j) {
                    assert(j < i);
                }
            }
        }
        None
    }

    /// True iff a CR-LF pair lies within the bytes held.
    pub fn has_delim(&self) -> (r: bool)
        requires
            self.wf(),
        ensures
            r == has_delim_spec(self@),
    {
        self.find_delim().is_some()
    }

    /// Takes the first line out of the buffer: the bytes before the earliest
    /// CR-LF pair, decoded lossily. The pair is dropped and the remainder
    /// slides to the start. An empty line gives an empty string.
    pub fn extract_line(&mut self) -> (line: String)
        requires
            old(self).wf(),
            has_delim_spec(old(self)@),
        ensures
            final(self).wf(),
            final(self).cap() == old(self).cap(),
            line@ == lossy_text(first_line(old(self)@)),
            valid_utf8(first_line(old(self)@)) ==> line@ == decode_utf8(first_line(old(self)@)),
            final(self)@ == after_first_line(old(self)@),
    {
        let pos: usize = match self.find_delim() {
            Some(p) => p,
            None => 0,
        };
        proof {
            lemma_first_delim_exists(self@);
        }
        let mut raw: Vec<u8> = Vec::new();
        let mut i: usize = 0;
        while i < pos
            invariant
                self.wf(),
                i <= pos,
                pos <= self.index,
                raw@ == self.buf@.take(i as int),
            decreases pos - i,
        {
            raw.push(self.buf[i]);
            proof {
                assert(raw@ =~= self.buf@.take(i + 1));
            }
            i += 1;
        }
        proof {
            assert(raw@ =~= first_line(self@));
        }
        let line = decode_lossy(raw.as_slice());
        self.shift_bytes_to_start(pos + 2);
        line
    }

    /// Copies the bytes held to the front of `dst`, as many as fit, and
    /// returns how many were copied. The buffer is not modified.
    pub fn copy(&self, dst: &mut [u8]) -> (n: usize)
        requires
            self.wf(),
        ensures
            final(dst)@.len() == old(dst)@.len(),
            n == if self@.len() <= old(dst)@.len() { self@.len() } else { old(dst)@.len() },
            final(dst)@.take(n as int) == self@.take(n as int),
            final(dst)@.skip(n as int) == old(dst)@.skip(n as int),
    {
        let n: usize = if self.index <= dst.len() { self.index } else { dst.len() };
        let mut i: usize = 0;
        while i < n
            invariant
                self.wf(),
                i <= n,
                n <= self.index,
                n <= dst@.len(),
                dst@.len() == old(dst)@.len(),
                dst@.take(i as int) == self@.take(i as int),
                dst@.skip(i as int) == old(dst)@.skip(i as int),
            decreases n - i,
        {
            dst[i] = self.buf[i];
            proof {
                let a = dst@.take(i + 1);
                let b = self@.take(i + 1);
                assert forall|k: int| 0 <= k < i + 1 implies a[k] == b[k] by {
                    if k < i {
                        assert(dst@.take(i as int)[k] == self@.take(i as int)[k]);
                    }
                }
                assert(a =~= b);
                let c = dst@.skip(i + 1);
                let d = old(dst)@.skip(i + 1);
                assert forall|k: int| 0 <= k < c.len() implies c[k] == d[k] by {
                    assert(old(dst)@.skip(i as int)[k + 1] == old(dst)@[k + 1 + i]);
                }
                assert(c =~= d);
            }
            i += 1;
        }
        n
    }

    /// Removes the first `n` bytes and slides the remainder to the start.
    pub fn shift_bytes_to_start(&mut self, n: usize)
        requires
            old(self).wf(),
            n <= old(self)@.len(),
        ensures
            final(self).wf(),
            final(self).cap() == old(self).cap(),
            final(self)@ == old(self)@.skip(n as int),
    {
        let keep: usize = self.index - n;
        let mut i: usize = 0;
        while i < keep
            invariant
                i <= keep,
                keep + n == self.index,
                self.index == old(self).index,
                self.index <= self.buf.len(),
                self.buf.len() == old(self).buf.len(),
                forall|k: int| 0 <= k < i ==> self.buf@[k] == old(self).buf@[k + n],
                forall|k: int| i <= k < self.buf.len() ==> self.buf@[k] == old(self).buf@[k],
            decreases keep - i,
        {
            let b: u8 = self.buf[i + n];
            self.buf.set(i, b);
            i += 1;
        }
        self.index = keep;
        proof {
            assert(self@ =~= old(self)@.skip(n as int));
        }
    }

    /// Drops every byte held.
    pub fn clear(&mut self)
        requires
            old(self).wf(),
        ensures
            final(self).wf(),
            final(self).cap() == old(self).cap(),
            final(self)@ == Seq::<u8>::empty(),
    {
        self.index = 0;
        proof {
            assert(self@ =~= Seq::<u8>::empty());
        }
    }

    /// Copies the bytes held into a fresh vector; the buffer is not modified.
    pub fn to_vec(&self) -> (r: Vec<u8>)
        requires
            self.wf(),
        ensures
            r@ == self@,
    {
        let mut out: Vec<u8> = Vec::new();
        let mut i: usize = 0;
        while i < self.index
            invariant
                self.wf(),
                i <= self.index,
                out@ == self.buf@.take(i as int),
            decreases self.index - i,
        {
            out.push(self.buf[i]);
            proof {
                assert(out@ =~= self.buf@.take(i + 1));
            }
            i += 1;
        }
        out
    }
}

} // verus!
