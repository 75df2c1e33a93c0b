//! The stabilized buffer and its forward-only cursor.

use vstd::prelude::*;
use vstd::string::StringExecFns;
use vstd::utf8::{decode_utf8, encode_utf8_decode_utf8, valid_utf8};
use crate::error::{InconsistentReadError, LineError};
use crate::sampler::{
    decided, effective_retries, sampled, views, ReadOutcome, Sample, Sampler, Step,
};

verus! {

/// A stabilized snapshot of a file, read through one forward-only cursor.
///
/// The content never changes after construction; every read operation only
/// moves the cursor.
pub struct ConsistentBufReader {
    buf: Vec<u8>,
    pos: usize,
}

impl ConsistentBufReader {
    /// The cursor never runs past the end of the content.
    #[verifier::type_invariant]
    spec fn cursor_in_bounds(self) -> bool {
        self.pos <= self.buf@.len()
    }

    /// The whole stabilized content, consumed or not.
    pub closed spec fn content(self) -> Seq<u8> {
        self.buf@
    }

    /// How many bytes have been consumed so far.
    pub closed spec fn position(self) -> nat {
        self.pos as nat
    }

    /// The bytes that have not been consumed yet.
    pub open spec fn remaining(self) -> Seq<u8> {
        self.content().skip(self.position() as int)
    }

    /// Reads the file through `read` until two consecutive reads agree, and
    /// returns a reader over the agreed bytes with its cursor at the start.
    ///
    /// `read` is called once for each whole-file read: at least once, and at
    /// most once more than `retry_count`, which is [`DEFAULT_RETRY_COUNT`]
    /// when `None` is given. The result is what [`verdict`] gives on the
    /// outcomes that `read` returned, of which there are as many as
    /// [`reads_taken`] says. `path` is only used to name the file in errors.
    ///
    /// [`DEFAULT_RETRY_COUNT`]: crate::sampler::DEFAULT_RETRY_COUNT
    /// [`verdict`]: crate::sampler::verdict
    /// [`reads_taken`]: crate::sampler::reads_taken
    pub fn new<F: Fn() -> ReadOutcome>(path: String, retry_count: Option<u32>, read: F) -> (made:
        Result<ConsistentBufReader, InconsistentReadError>)
        requires
            read.requires(()),
        ensures
            exists|outcomes: Seq<ReadOutcome>|
                {
                    &&& forall|i: int|
                        0 <= i < outcomes.len() ==> read.ensures((), #[trigger] outcomes[i])
                    &&& #[trigger] sampled(
                        path@,
                        effective_retries(retry_count),
                        views(outcomes),
                        made,
                    )
                },
    {
        let ghost name = path@;
        let ghost retries = effective_retries(retry_count);
        let ghost mut outcomes: Seq<ReadOutcome> = Seq::empty();
        let mut sampler = Sampler::new(path, retry_count);
        assert(views(outcomes) =~= Seq::<Sample>::empty());
        assert(!decided(retries, Seq::<Sample>::empty()));
        loop
            invariant
                read.requires(()),
                name == path@,
                retries == effective_retries(retry_count),
                sampler.path() == name,
                sampler.retries() == retries,
                sampler.seen() == views(outcomes),
                !decided(retries, sampler.seen()),
                forall|i: int| 0 <= i < outcomes.len() ==> read.ensures((), #[trigger] outcomes[i]),
            decreases retries + 1 - outcomes.len(),
        {
            let outcome = read();
            proof {
                let prior = outcomes;
                outcomes = prior.push(outcome);
                assert(views(outcomes) =~= views(prior).push(outcome@));
                assert forall|i: int| 0 <= i < outcomes.len() implies read.ensures(
                    (),
                    #[trigger] outcomes[i],
                ) by {
                    if i < prior.len() {
                        assert(outcomes[i] == prior[i]);
                    }
                }
            }
            match sampler.step(outcome) {
                Step::Read(next) => {
                    sampler = next;
                },
                Step::Done(reader) => {
                    assert(sampled(name, retries, views(outcomes), Ok(reader)));
                    return Ok(reader);
                },
                Step::Failed(error) => {
                    assert(sampled(name, retries, views(outcomes), Err(error)));
                    return Err(error);
                },
            }
        }
    }

    /// Wraps stabilized bytes in a reader whose cursor stands at the start.
    pub(crate) fn from_stable(content: Vec<u8>) -> (reader: Self)
        ensures
            reader.content() == content@,
            reader.position() == 0,
    {
        ConsistentBufReader { buf: content, pos: 0 }
    }

    /// All unconsumed bytes as one contiguous view, without copying and
    /// without moving the cursor.
    pub fn fill_buf(&self) -> (view: &[u8])
        ensures
            view@ == self.remaining(),
            self.position() <= self.content().len(),
    {
        proof {
            use_type_invariant(self);
        }
        let end: usize = self.buf.len();
        let all: &[u8] = self.buf.as_slice();
        &all[self.pos..end]
    }

    /// Copies as many unconsumed bytes as fit into the front of `buf`, and
    /// moves the cursor past them. Returns how many were copied: 0 when
    /// nothing is left or `buf` is empty. The rest of `buf` is left as it was.
    pub fn read(&mut self, buf: &mut [u8]) -> (n: usize)
        ensures
            final(self).content() == old(self).content(),
            n == chunk_len(old(self).remaining(), old(buf)@.len()),
            final(self).position() == old(self).position() + n,
            final(buf)@ == old(self).remaining().take(n as int) + old(buf)@.skip(n as int),
            final(self).position() <= final(self).content().len(),
    {
        proof {
            use_type_invariant(&*self);
        }
        let start: usize = self.pos;
        let total: usize = self.buf.len();
        let left: usize = total - start;
        let n: usize = if buf.len() < left {
            buf.len()
        } else {
            left
        };
        let mut i: usize = 0;
        while i < n
            invariant
                i <= n,
                start + n <= total,
                total == self.buf@.len(),
                n <= buf@.len(),
                buf@.len() == old(buf)@.len(),
                self.buf@ == old(self).buf@,
                self.pos == start,
                forall|j: int| 0 <= j < i ==> buf@[j] == self.buf@[start + j],
                forall|j: int| i <= j < buf@.len() ==> buf@[j] == old(buf)@[j],
            decreases n - i,
        {
            buf[i] = self.buf[start + i];
            i = i + 1;
        }
        self.pos = start + n;
        assert(buf@ =~= old(self).remaining().take(n as int) + old(buf)@.skip(n as int));
        n
    }

    /// Appends to `buf` the unconsumed bytes up to and including the first
    /// `byte`, or all of them if `byte` does not occur, and moves the cursor
    /// past them. Returns how many were appended: 0 only when nothing is left.
    pub fn read_until(&mut self, byte: u8, buf: &mut Vec<u8>) -> (n: usize)
        ensures
            final(self).content() == old(self).content(),
            n == segment_len(old(self).remaining(), byte),
            final(self).position() == old(self).position() + n,
            final(buf)@ == old(buf)@ + old(self).remaining().take(n as int),
            final(self).position() <= final(self).content().len(),
    {
        proof {
            use_type_invariant(&*self);
        }
        let start: usize = self.pos;
        let end: usize = self.segment_end(byte);
        let mut i: usize = start;
        while i < end
            invariant
                start <= i <= end <= self.buf@.len(),
                self.buf@ == old(self).buf@,
                self.pos == start,
                buf@ == old(buf)@ + self.buf@.subrange(start as int, i as int),
            decreases end - i,
        {
            buf.push(self.buf[i]);
            i = i + 1;
            assert(self.buf@.subrange(start as int, i as int) =~= self.buf@.subrange(
                start as int,
                i - 1,
            ).push(self.buf@[i - 1]));
        }
        self.pos = end;
        assert(old(self).remaining().take(end - start) =~= self.buf@.subrange(
            start as int,
            end as int,
        ));
        end - start
    }

    /// Takes the unconsumed bytes up to and including the first line feed, or
    /// all of them if there is none, and moves the cursor past them. If they
    /// are valid UTF-8 their text is appended to `buf` and their number is
    /// returned, 0 only when nothing is left. If they are not, `buf` is left
    /// as it was; the bytes are consumed all the same.
    pub fn read_line(&mut self, buf: &mut String) -> (taken: Result<usize, LineError>)
        ensures
            final(self).content() == old(self).content(),
            final(self).position() == old(self).position() + segment_len(
                old(self).remaining(),
                LINE_FEED,
            ),
            ({
                let line = old(self).remaining().take(
                    segment_len(old(self).remaining(), LINE_FEED) as int,
                );
                if valid_utf8(line) {
                    &&& taken == Ok::<usize, LineError>(line.len() as usize)
                    &&& final(buf)@ == old(buf)@ + decode_utf8(line)
                } else {
                    &&& taken == Err::<usize, LineError>(LineError::InvalidUtf8)
                    &&& final(buf)@ == old(buf)@
                }
            }),
            final(self).position() <= final(self).content().len(),
    {
        proof {
            use_type_invariant(&*self);
        }
        let start: usize = self.pos;
        let end: usize = self.segment_end(LINE_FEED);
        self.pos = end;
        let line: &[u8] = &self.buf.as_slice()[start..end];
        assert(line@ =~= old(self).remaining().take(end - start));
        match core::str::from_utf8(line) {
            Ok(text) => {
                proof {
                    encode_utf8_decode_utf8(text@);
                }
                buf.append(text);
                Ok(end - start)
            },
            Err(_) => Err(LineError::InvalidUtf8),
        }
    }

    /// Where the piece that a delimiter read takes now would end.
    fn segment_end(&self, byte: u8) -> (end: usize)
        ensures
            self.pos <= end <= self.buf@.len(),
            end - self.pos == segment_len(self.remaining(), byte),
    {
        proof {
            use_type_invariant(self);
        }
        let len: usize = self.buf.len();
        let ghost rest = self.remaining();
        let mut i: usize = self.pos;
        while i < len
            invariant
                self.pos <= i <= len,
                len == self.buf@.len(),
                rest == self.buf@.skip(self.pos as int),
                forall|j: int| 0 <= j < i - self.pos ==> rest[j] != byte,
            decreases len - i,
        {
            assert(rest[i - self.pos] == self.buf@[i as int]);
            if self.buf[i] == byte {
                proof {
                    rest.index_of_first_ensures(byte);
                    assert(rest.contains(byte));
                }
                return i + 1;
            }
            i = i + 1;
        }
        proof {
            rest.index_of_first_ensures(byte);
            if rest.contains(byte) {
                let k = choose|k: int| 0 <= k < rest.len() && rest[k] == byte;
                assert(rest[k] != byte);
            }
        }
        len
    }

    /// Moves the cursor forward by `amt` bytes.
    pub fn consume(&mut self, amt: usize)
        requires
            amt <= old(self).remaining().len(),
        ensures
            final(self).content() == old(self).content(),
            final(self).position() == old(self).position() + amt,
            final(self).position() <= final(self).content().len(),
    {
        proof {
            use_type_invariant(&*self);
        }
        let len: usize = self.buf.len();
        assert(self.pos + amt <= len);
        self.pos = self.pos + amt;
    }
}

/// The byte that ends a line.
pub const LINE_FEED: u8 = 0x0a;

/// How many bytes one sequential read takes of `rest` into a buffer of
/// `room` bytes: as many as there are, up to the buffer's size.
pub open spec fn chunk_len(rest: Seq<u8>, room: nat) -> nat {
    if room < rest.len() {
        room
    } else {
        rest.len()
    }
}

/// How many bytes one delimiter read takes of `rest`: up to and including
/// the first `byte`, or all of `rest` if `byte` does not occur in it.
pub open spec fn segment_len(rest: Seq<u8>, byte: u8) -> nat {
    match rest.index_of_first(byte) {
        Some(at) => (at + 1) as nat,
        None => rest.len(),
    }
}

} // verus!
