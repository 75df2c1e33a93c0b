//! The sampling rule: when a series of whole-file reads counts as stable.
//!
//! The rule is stated once, over the whole series of reads, by [`first_halt`],
//! [`decided`] and [`verdict`]. [`Sampler`] applies it one read at a time, so
//! that the reading itself can be done by whoever owns the file.

use vstd::prelude::*;
use crate::error::{Failure, InconsistentReadError};
use crate::reader::ConsistentBufReader;

verus! {

/// The number of comparison rounds that are made when the caller names none.
pub const DEFAULT_RETRY_COUNT: u32 = 2;

/// What one read of the whole file produced.
#[derive(Debug)]
pub enum ReadOutcome {
    /// The bytes of the file.
    Data(Vec<u8>),
    /// The read failed; the text says why.
    Failed(String),
}

/// The mathematical content of a [`ReadOutcome`].
pub enum Sample {
    Data(Seq<u8>),
    Failed(Seq<char>),
}

impl View for ReadOutcome {
    type V = Sample;

    open spec fn view(&self) -> Sample {
        match self {
            ReadOutcome::Data(bytes) => Sample::Data(bytes@),
            ReadOutcome::Failed(cause) => Sample::Failed(cause@),
        }
    }
}

/// The retry limit in force: the caller's, or the default.
pub open spec fn effective_retries(retry_count: Option<u32>) -> nat {
    match retry_count {
        Some(n) => n as nat,
        None => DEFAULT_RETRY_COUNT as nat,
    }
}

/// Read number `k` (counted from zero) ends the sampling: it failed, or it
/// repeats the read before it.
pub open spec fn halts_at(reads: Seq<Sample>, k: int) -> bool {
    &&& 0 <= k < reads.len()
    &&& (reads[k] is Failed || (k >= 1 && reads[k] == reads[k - 1]))
}

/// The least index from `from` on at which the sampling ends, or the number
/// of reads if there is none.
pub open spec fn first_halt(reads: Seq<Sample>, from: int) -> int
    decreases reads.len() - from,
{
    if from < 0 || from >= reads.len() {
        reads.len() as int
    } else if halts_at(reads, from) {
        from
    } else {
        first_halt(reads, from + 1)
    }
}

/// The reads suffice to tell how the sampling ends: one of the first
/// `retries + 1` reads ends it, or all of these have been made.
pub open spec fn decided(retries: nat, reads: Seq<Sample>) -> bool {
    let k = first_halt(reads, 0);
    (k < reads.len() && k <= retries) || reads.len() > retries
}

/// How many reads the sampling makes of a series that decides it.
pub open spec fn reads_taken(retries: nat, reads: Seq<Sample>) -> nat {
    let k = first_halt(reads, 0);
    if k < reads.len() && k <= retries {
        (k + 1) as nat
    } else {
        retries + 1
    }
}

/// How the sampling ends on a series of reads that decides it.
///
/// A failed read gives the I/O failure with its cause; a read that repeats
/// the one before it gives those bytes; `retries + 1` reads without either
/// give the instability failure.
pub open spec fn verdict(path: Seq<char>, retries: nat, reads: Seq<Sample>) -> Result<
    Seq<u8>,
    Failure,
> {
    let k = first_halt(reads, 0);
    if k < reads.len() && k <= retries {
        match reads[k] {
            Sample::Failed(cause) => Err(Failure::Io { path, cause }),
            Sample::Data(bytes) => Ok(bytes),
        }
    } else {
        Err(Failure::Unstable { path, attempts: retries })
    }
}

/// The mathematical content of each outcome of a series of reads.
pub open spec fn views(outcomes: Seq<ReadOutcome>) -> Seq<Sample> {
    outcomes.map_values(|outcome: ReadOutcome| outcome@)
}

/// `made` is how the sampling of `path` ends on exactly the reads `reads`:
/// they decide it, none of them is left over, and `made` is their verdict,
/// a reader over the agreed bytes with its cursor at the start or the
/// failure.
pub open spec fn sampled(
    path: Seq<char>,
    retries: nat,
    reads: Seq<Sample>,
    made: Result<ConsistentBufReader, InconsistentReadError>,
) -> bool {
    &&& decided(retries, reads)
    &&& reads.len() == reads_taken(retries, reads)
    &&& match verdict(path, retries, reads) {
        Ok(bytes) => made matches Ok(reader) && reader.content() == bytes && reader.position()
            == 0,
        Err(failure) => made matches Err(error) && error@ == failure,
    }
}

/// The sampling of one file, between two reads.
///
/// It starts by asking for a read, and asks for another after each read that
/// neither failed nor repeated the one before, until the retry limit is spent.
pub struct Sampler {
    /// The file's name, for errors.
    path: String,
    /// The comparison rounds allowed after the first read.
    retries: u32,
    /// The bytes of the last read; `None` while the first read is awaited.
    previous: Option<Vec<u8>>,
    /// The comparison rounds made so far, each of them a mismatch.
    rounds: u32,
    /// The outcomes of all reads so far.
    seen: Ghost<Seq<Sample>>,
}

/// What to do after a read has been handed to [`Sampler::step`].
pub enum Step {
    /// Read the file once more and hand the outcome to the sampler given here.
    Read(Sampler),
    /// The last two reads agreed: these are the stabilized bytes.
    Done(ConsistentBufReader),
    /// No reader can be had.
    Failed(InconsistentReadError),
}

impl Sampler {
    /// The reads seen so far leave the sampling open, and the fields that are
    /// kept at run time are the last of them and their number.
    #[verifier::type_invariant]
    spec fn inv(self) -> bool {
        &&& self.seen@.len() <= self.retries
        &&& forall|j: int| 0 <= j < self.seen@.len() ==> !halts_at(self.seen@, j)
        &&& match self.previous {
            None => self.seen@.len() == 0 && self.rounds == 0,
            Some(bytes) => self.seen@.len() == self.rounds + 1 && self.seen@.last()
                == Sample::Data(bytes@),
        }
    }

    /// The path that errors will name.
    pub closed spec fn path(self) -> Seq<char> {
        self.path@
    }

    /// The number of comparison rounds allowed after the first read.
    pub closed spec fn retries(self) -> nat {
        self.retries as nat
    }

    /// The outcomes of the reads made so far, oldest first.
    pub closed spec fn seen(self) -> Seq<Sample> {
        self.seen@
    }

    /// A sampler that has seen no read yet. The first read is always made.
    pub fn new(path: String, retry_count: Option<u32>) -> (sampler: Sampler)
        ensures
            sampler.path() == path@,
            sampler.retries() == effective_retries(retry_count),
            sampler.seen() == Seq::<Sample>::empty(),
    {
        let retries: u32 = match retry_count {
            Some(n) => n,
            None => DEFAULT_RETRY_COUNT,
        };
        Sampler { path, retries, previous: None, rounds: 0, seen: Ghost(Seq::empty()) }
    }

    /// Takes the outcome of the read that was asked for, and says what follows.
    ///
    /// With the outcome added to the reads seen so far, the sampling is
    /// either decided, and then ends as [`verdict`] says, or it is not, and
    /// then another read is asked for. A sampler only exists while the reads
    /// it has seen leave the matter open.
    pub fn step(self, outcome: ReadOutcome) -> (next: Step)
        ensures
            !decided(self.retries(), self.seen()),
            ({
                let reads = self.seen().push(outcome@);
                match next {
                    Step::Read(sampler) => {
                        &&& !decided(self.retries(), reads)
                        &&& sampler.seen() == reads
                        &&& sampler.path() == self.path()
                        &&& sampler.retries() == self.retries()
                    },
                    Step::Done(reader) => sampled(
                        self.path(),
                        self.retries(),
                        reads,
                        Ok::<ConsistentBufReader, InconsistentReadError>(reader),
                    ),
                    Step::Failed(error) => sampled(
                        self.path(),
                        self.retries(),
                        reads,
                        Err::<ConsistentBufReader, InconsistentReadError>(error),
                    ),
                }
            }),
    {
        proof {
            use_type_invariant(&self);
        }
        let ghost before = self.seen@;
        let ghost reads = before.push(outcome@);
        let Sampler { path, retries, previous, rounds, seen } = self;
        proof {
            lemma_first_halt_is(before, before.len() as int);
            assert forall|j: int| 0 <= j < before.len() implies !halts_at(reads, j) by {
                assert(!halts_at(before, j));
                assert(reads[j] == before[j]);
                if j >= 1 {
                    assert(reads[j - 1] == before[j - 1]);
                }
            }
        }
        match outcome {
            ReadOutcome::Failed(cause) => {
                proof {
                    assert(halts_at(reads, before.len() as int));
                    lemma_first_halt_is(reads, before.len() as int);
                }
                Step::Failed(InconsistentReadError::Io { path, cause })
            },
            ReadOutcome::Data(bytes) => {
                match previous {
                    None => {
                        proof {
                            assert(!halts_at(reads, 0));
                            lemma_first_halt_is(reads, 1);
                        }
                        if retries == 0 {
                            Step::Failed(InconsistentReadError::Unstable { path, attempts: retries })
                        } else {
                            Step::Read(
                                Sampler {
                                    path,
                                    retries,
                                    previous: Some(bytes),
                                    rounds: 0,
                                    seen: Ghost(reads),
                                },
                            )
                        }
                    },
                    Some(last) => {
                        assert(reads[before.len() - 1] == Sample::Data(last@));
                        if same_bytes(&bytes, &last) {
                            proof {
                                assert(halts_at(reads, before.len() as int));
                                lemma_first_halt_is(reads, before.len() as int);
                            }
                            Step::Done(ConsistentBufReader::from_stable(bytes))
                        } else {
                            proof {
                                assert(!halts_at(reads, before.len() as int));
                                lemma_first_halt_is(reads, reads.len() as int);
                            }
                            if rounds + 1 >= retries {
                                Step::Failed(
                                    InconsistentReadError::Unstable { path, attempts: retries },
                                )
                            } else {
                                Step::Read(
                                    Sampler {
                                        path,
                                        retries,
                                        previous: Some(bytes),
                                        rounds: rounds + 1,
                                        seen: Ghost(reads),
                                    },
                                )
                            }
                        }
                    },
                }
            },
        }
    }
}

/// Byte-for-byte equality of two reads.
pub fn same_bytes(a: &Vec<u8>, b: &Vec<u8>) -> (same: bool)
    ensures
        same == (a@ == b@),
{
    if a.len() != b.len() {
        return false;
    }
    let mut i: usize = 0;
    while i < a.len()
        invariant
            a.len() == b.len(),
            i <= a.len(),
            forall|j: int| 0 <= j < i ==> a@[j] == b@[j],
        decreases a.len() - i,
    {
        if a[i] != b[i] {
            return false;
        }
        i = i + 1;
    }
    assert(a@ =~= b@);
    true
}

/// `first_halt` is the least halting index: nothing halts before it, and it
/// halts unless it is the end of the series.
pub proof fn lemma_first_halt(reads: Seq<Sample>, from: int)
    requires
        0 <= from <= reads.len(),
    ensures
        from <= first_halt(reads, from) <= reads.len(),
        forall|j: int| from <= j < first_halt(reads, from) ==> !halts_at(reads, j),
        first_halt(reads, from) < reads.len() ==> halts_at(reads, first_halt(reads, from)),
    decreases reads.len() - from,
{
    if from < reads.len() && !halts_at(reads, from) {
        lemma_first_halt(reads, from + 1);
    }
}

/// An index that halts, with nothing halting before it, is the first halt.
pub proof fn lemma_first_halt_is(reads: Seq<Sample>, k: int)
    requires
        0 <= k <= reads.len(),
        forall|j: int| 0 <= j < k ==> !halts_at(reads, j),
        k < reads.len() ==> halts_at(reads, k),
    ensures
        first_halt(reads, 0) == k,
{
    lemma_first_halt(reads, 0);
}

} // verus!
