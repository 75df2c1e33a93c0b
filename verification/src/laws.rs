//! What holds of the sampling rule and of the cursor, for all inputs.
//!
//! The laws are stated over the spec functions by which the executable
//! functions describe their results: [`verdict`], [`reads_taken`] and
//! [`decided`] for `ConsistentBufReader::new` and `Sampler::step`,
//! [`chunk_len`] for `read` and [`segment_len`] for `read_until`.

use vstd::prelude::*;
use crate::error::Failure;
use crate::reader::{chunk_len, segment_len, ConsistentBufReader};
use crate::sampler::{
    decided, effective_retries, first_halt, halts_at, lemma_first_halt, lemma_first_halt_is,
    reads_taken, verdict, Sample, DEFAULT_RETRY_COUNT,
};

verus! {

/// A file whose first two reads agree is taken as stable after exactly these
/// two reads, with the agreed bytes as content, whenever at least one
/// comparison round is allowed. In particular a file that reads the same
/// every time is.
pub proof fn law_stable_after_two_reads(
    path: Seq<char>,
    retries: nat,
    reads: Seq<Sample>,
    bytes: Seq<u8>,
)
    requires
        retries >= 1,
        reads.len() >= 2,
        reads[0] == Sample::Data(bytes),
        reads[1] == Sample::Data(bytes),
    ensures
        decided(retries, reads),
        verdict(path, retries, reads) == Ok::<Seq<u8>, Failure>(bytes),
        reads_taken(retries, reads) == 2,
{
    lemma_first_halt_is(reads, 1);
}

/// A file of which no read fails and no read repeats the one before it is
/// given up as unstable: the failure names the path and the retry limit, and
/// all `retries + 1` reads are made, the first one included.
pub proof fn law_unstable_when_no_two_agree(path: Seq<char>, retries: nat, reads: Seq<Sample>)
    requires
        reads.len() > retries,
        forall|i: int| 0 <= i < reads.len() ==> reads[i] is Data,
        forall|i: int| 1 <= i < reads.len() ==> #[trigger] reads[i] != reads[i - 1],
    ensures
        decided(retries, reads),
        verdict(path, retries, reads) == Err::<Seq<u8>, Failure>(
            Failure::Unstable { path, attempts: retries },
        ),
        reads_taken(retries, reads) == retries + 1,
{
    lemma_first_halt_is(reads, reads.len() as int);
}

/// One mismatch followed by a match gives the bytes of the match after three
/// reads, whenever at least two comparison rounds are allowed.
pub proof fn law_stable_after_one_mismatch(
    path: Seq<char>,
    retries: nat,
    reads: Seq<Sample>,
    first: Seq<u8>,
    second: Seq<u8>,
)
    requires
        retries >= 2,
        reads.len() >= 3,
        first != second,
        reads[0] == Sample::Data(first),
        reads[1] == Sample::Data(second),
        reads[2] == Sample::Data(second),
    ensures
        decided(retries, reads),
        verdict(path, retries, reads) == Ok::<Seq<u8>, Failure>(second),
        reads_taken(retries, reads) == 3,
{
    assert(!halts_at(reads, 1));
    lemma_first_halt_is(reads, 2);
}

/// With a single comparison round, one mismatch is already the end: the
/// third read is never made.
pub proof fn law_one_round_one_mismatch(
    path: Seq<char>,
    reads: Seq<Sample>,
    first: Seq<u8>,
    second: Seq<u8>,
)
    requires
        reads.len() >= 2,
        first != second,
        reads[0] == Sample::Data(first),
        reads[1] == Sample::Data(second),
    ensures
        decided(1, reads),
        verdict(path, 1, reads) == Err::<Seq<u8>, Failure>(
            Failure::Unstable { path, attempts: 1 },
        ),
        reads_taken(1, reads) == 2,
{
    assert(!halts_at(reads, 0));
    assert(!halts_at(reads, 1));
    lemma_first_halt(reads, 0);
}

/// Without a comparison round nothing can be found stable: after the first
/// read, if it did not fail, the file is given up as unstable.
pub proof fn law_no_round_no_reader(path: Seq<char>, reads: Seq<Sample>)
    requires
        reads.len() >= 1,
        reads[0] is Data,
    ensures
        decided(0, reads),
        verdict(path, 0, reads) == Err::<Seq<u8>, Failure>(
            Failure::Unstable { path, attempts: 0 },
        ),
        reads_taken(0, reads) == 1,
{
    assert(!halts_at(reads, 0));
    lemma_first_halt(reads, 0);
}

/// A failure of the very first read is the result, with its cause, whatever
/// the retry limit; no further read is made.
pub proof fn law_first_read_fails(
    path: Seq<char>,
    retries: nat,
    reads: Seq<Sample>,
    cause: Seq<char>,
)
    requires
        reads.len() >= 1,
        reads[0] == Sample::Failed(cause),
    ensures
        decided(retries, reads),
        verdict(path, retries, reads) == Err::<Seq<u8>, Failure>(Failure::Io { path, cause }),
        reads_taken(retries, reads) == 1,
{
    lemma_first_halt_is(reads, 0);
}

/// A failure of any read that is made is the result, with its cause.
pub proof fn law_any_read_fails(
    path: Seq<char>,
    retries: nat,
    reads: Seq<Sample>,
    k: int,
    cause: Seq<char>,
)
    requires
        0 <= k < reads.len(),
        k <= retries,
        forall|j: int| 0 <= j < k ==> !halts_at(reads, j),
        reads[k] == Sample::Failed(cause),
    ensures
        decided(retries, reads),
        verdict(path, retries, reads) == Err::<Seq<u8>, Failure>(Failure::Io { path, cause }),
        reads_taken(retries, reads) == k + 1,
{
    lemma_first_halt_is(reads, k);
}

/// Bytes are only ever handed out after two consecutive reads gave them.
pub proof fn law_content_was_read_twice(
    path: Seq<char>,
    retries: nat,
    reads: Seq<Sample>,
    bytes: Seq<u8>,
)
    requires
        verdict(path, retries, reads) == Ok::<Seq<u8>, Failure>(bytes),
    ensures
        decided(retries, reads),
        2 <= reads_taken(retries, reads) <= retries + 1,
        reads[reads_taken(retries, reads) - 1] == Sample::Data(bytes),
        reads[reads_taken(retries, reads) - 2] == Sample::Data(bytes),
{
    lemma_first_halt(reads, 0);
}

/// The sampling makes at least one read and at most `retries + 1`, and reads
/// that come after the ones it makes do not change its result.
pub proof fn law_reads_are_bounded(
    path: Seq<char>,
    retries: nat,
    reads: Seq<Sample>,
    more: Seq<Sample>,
)
    requires
        decided(retries, reads),
    ensures
        1 <= reads_taken(retries, reads) <= retries + 1,
        reads_taken(retries, reads) <= reads.len(),
        decided(retries, reads + more),
        verdict(path, retries, reads + more) == verdict(path, retries, reads),
        reads_taken(retries, reads + more) == reads_taken(retries, reads),
{
    let all = reads + more;
    lemma_first_halt(reads, 0);
    let k = first_halt(reads, 0);
    assert forall|j: int| 0 <= j < reads.len() implies halts_at(all, j) == halts_at(reads, j) by {
        assert(all[j] == reads[j]);
        if j >= 1 {
            assert(all[j - 1] == reads[j - 1]);
        }
    }
    if k < reads.len() {
        lemma_first_halt_is(all, k);
        assert(all[k] == reads[k]);
    } else {
        lemma_first_halt(all, 0);
        assert(first_halt(all, 0) >= reads.len());
    }
}

/// Naming no retry limit is naming the default of two rounds.
pub proof fn law_default_is_two_rounds(path: Seq<char>, reads: Seq<Sample>)
    ensures
        DEFAULT_RETRY_COUNT == 2,
        effective_retries(None) == effective_retries(Some(2u32)),
        decided(effective_retries(None), reads) == decided(effective_retries(Some(2u32)), reads),
        verdict(path, effective_retries(None), reads) == verdict(
            path,
            effective_retries(Some(2u32)),
            reads,
        ),
        reads_taken(effective_retries(None), reads) == reads_taken(
            effective_retries(Some(2u32)),
            reads,
        ),
{
}

/// What a look at the unconsumed bytes shows depends on the content and the
/// cursor alone. So two looks with no consuming operation between them show
/// the same bytes, and a look after `amt` bytes were consumed shows the same
/// bytes without their first `amt`.
pub proof fn law_peek_follows_cursor(
    before: ConsistentBufReader,
    after: ConsistentBufReader,
    amt: nat,
)
    requires
        after.content() == before.content(),
        after.position() == before.position() + amt,
        after.position() <= after.content().len(),
    ensures
        amt == 0 ==> after.remaining() == before.remaining(),
        after.remaining() == before.remaining().skip(amt as int),
        before.remaining().take(amt as int) + after.remaining() == before.remaining(),
{
    assert(after.remaining() =~= before.remaining().skip(amt as int));
    assert(before.remaining().take(amt as int) + after.remaining() =~= before.remaining());
    if amt == 0 {
        assert(after.remaining() =~= before.remaining());
    }
}

/// The bytes that sequential reads into buffers of the sizes `rooms`, made
/// one after the other, copy out of `rest`.
pub open spec fn read_in_turn(rest: Seq<u8>, rooms: Seq<nat>) -> Seq<u8>
    decreases rooms.len(),
{
    if rooms.len() == 0 {
        Seq::empty()
    } else {
        let n = chunk_len(rest, rooms[0]) as int;
        rest.take(n) + read_in_turn(rest.skip(n), rooms.drop_first())
    }
}

/// The bytes that those reads leave unconsumed.
pub open spec fn left_by_reads(rest: Seq<u8>, rooms: Seq<nat>) -> Seq<u8>
    decreases rooms.len(),
{
    if rooms.len() == 0 {
        rest
    } else {
        left_by_reads(rest.skip(chunk_len(rest, rooms[0]) as int), rooms.drop_first())
    }
}

/// Sequential reads hand out the unconsumed bytes in order, without loss or
/// repetition: what they copied, followed by what they left, is what was
/// there. Once nothing is left, what they copied is all of it.
pub proof fn law_sequential_reads_round_trip(rest: Seq<u8>, rooms: Seq<nat>)
    ensures
        read_in_turn(rest, rooms) + left_by_reads(rest, rooms) == rest,
        left_by_reads(rest, rooms).len() == 0 ==> read_in_turn(rest, rooms) == rest,
    decreases rooms.len(),
{
    if rooms.len() == 0 {
        assert(read_in_turn(rest, rooms) + left_by_reads(rest, rooms) =~= rest);
    } else {
        let n = chunk_len(rest, rooms[0]) as int;
        law_sequential_reads_round_trip(rest.skip(n), rooms.drop_first());
        assert(read_in_turn(rest, rooms) + left_by_reads(rest, rooms) =~= rest.take(n) + (
        read_in_turn(rest.skip(n), rooms.drop_first()) + left_by_reads(
            rest.skip(n),
            rooms.drop_first(),
        )));
        assert(rest.take(n) + rest.skip(n) =~= rest);
    }
    if left_by_reads(rest, rooms).len() == 0 {
        assert(read_in_turn(rest, rooms) + left_by_reads(rest, rooms) =~= read_in_turn(
            rest,
            rooms,
        ));
    }
}

/// A sequential read into a buffer with room makes progress while bytes are
/// left, so reading until 0 comes back consumes everything.
pub proof fn law_read_makes_progress(rest: Seq<u8>, room: nat)
    ensures
        chunk_len(rest, room) <= rest.len(),
        chunk_len(rest, room) <= room,
        chunk_len(rest, room) == 0 <==> (rest.len() == 0 || room == 0),
{
}

/// A delimiter read takes at least one byte while bytes are left; what it
/// takes ends with the delimiter or is everything, and holds the delimiter
/// nowhere else.
pub proof fn law_segment(rest: Seq<u8>, byte: u8)
    ensures
        segment_len(rest, byte) <= rest.len(),
        segment_len(rest, byte) == 0 <==> rest.len() == 0,
        forall|j: int| 0 <= j < segment_len(rest, byte) - 1 ==> rest[j] != byte,
        rest.len() > 0 ==> (rest[segment_len(rest, byte) - 1] == byte || (segment_len(rest, byte)
            == rest.len() && !rest.contains(byte))),
{
    rest.index_of_first_ensures(byte);
    if rest.index_of_first(byte) is None {
        assert forall|j: int| 0 <= j < rest.len() implies rest[j] != byte by {
            if rest[j] == byte {
                assert(rest.contains(byte));
            }
        }
    }
}

/// The pieces that delimiter reads on `byte`, made one after the other until
/// nothing is left, take out of `rest`. Each read takes at least one byte
/// (see [`law_segment`]), so the last case below never arises.
pub open spec fn split_in_turn(rest: Seq<u8>, byte: u8) -> Seq<Seq<u8>>
    decreases rest.len(),
{
    if rest.len() == 0 {
        Seq::empty()
    } else {
        let n = segment_len(rest, byte) as int;
        if 0 < n <= rest.len() {
            seq![rest.take(n)] + split_in_turn(rest.skip(n), byte)
        } else {
            seq![rest]
        }
    }
}

/// Delimiter reads hand out the unconsumed bytes in order, without loss or
/// repetition: the pieces, put together again, are what was there.
pub proof fn law_delimiter_reads_round_trip(rest: Seq<u8>, byte: u8)
    ensures
        split_in_turn(rest, byte).flatten() == rest,
    decreases rest.len(),
{
    if rest.len() == 0 {
        assert(split_in_turn(rest, byte).flatten() =~= rest);
    } else {
        law_segment(rest, byte);
        let n = segment_len(rest, byte) as int;
        let head = seq![rest.take(n)];
        let tail = split_in_turn(rest.skip(n), byte);
        law_delimiter_reads_round_trip(rest.skip(n), byte);
        vstd::seq_lib::lemma_flatten_concat(head, tail);
        head.lemma_flatten_one_element();
        assert(head.first() == rest.take(n));
        assert(rest.take(n) + rest.skip(n) =~= rest);
    }
}

} // verus!
