//! The decisions of a ranged download, as a state machine.
//!
//! A download cuts the body into ranges, fetches each range under a budget
//! of permits, and writes each arriving body at its range's offset, one at
//! a time. The caller runs the fetches and the writes; a [`Session`] tells
//! it which range may start its request, where each arrival is to be
//! written, and what the download returns once every range has settled.
use crate::error::Error;
use crate::models::{spec_chunk_size, spec_pool_limit, DownloadParam, VideoId};
use crate::range::{partition, spec_partition, ByteRange};
use vstd::prelude::*;

verus! {

/// Observes a download's progress: notifications only, which have no
/// effect on the download itself.
pub trait Progresser {
    /// The download of `id`, of `full` bytes, begins.
    fn start(id: &VideoId, full: u64);

    /// `now` bytes of `id` have been written so far.
    fn changed(id: &VideoId, now: u64);

    /// The download of `id` is over.
    fn done(id: &VideoId);
}

/// Where the fetch task of one range stands.
#[derive(Debug, Clone, Copy, PartialEq, Eq, Structural)]
pub enum Stage {
    /// Created, waiting for a permit.
    Queued,
    /// Holding a permit: the request is in flight.
    Requesting,
    /// The response arrived; its body waits for the writer.
    Delivered,
    /// The writer is copying its body into the sink.
    Writing,
    /// Its body is in the sink.
    Written,
    /// Its fetch, or the write of its body, failed.
    Failed,
    /// Its body arrived after the writer had stopped, and was dropped.
    Discarded,
}

/// A stage from which a range never moves again.
pub open spec fn is_terminal(st: Stage) -> bool {
    st == Stage::Written || st == Stage::Failed || st == Stage::Discarded
}

/// How many more moves a range in stage `st` can make at most.
pub open spec fn moves_left(st: Stage) -> nat {
    match st {
        Stage::Queued => 4,
        Stage::Requesting => 3,
        Stage::Delivered => 2,
        Stage::Writing => 1,
        _ => 0,
    }
}

/// One when the range holds a permit.
pub open spec fn holds_permit(st: Stage) -> nat {
    if st == Stage::Requesting {
        1
    } else {
        0
    }
}

/// The sum of `w` over the stages.
pub open spec fn tally(s: Seq<Stage>, w: spec_fn(Stage) -> nat) -> nat
    decreases s.len(),
{
    if s.len() == 0 {
        0
    } else {
        tally(s.drop_last(), w) + w(s.last())
    }
}

/// Changing one stage changes the sum by the difference of the weights.
proof fn lemma_tally_update(s: Seq<Stage>, w: spec_fn(Stage) -> nat, i: int, x: Stage)
    requires
        0 <= i < s.len(),
    ensures
        tally(s.update(i, x), w) + w(s[i]) == tally(s, w) + w(x),
    decreases s.len(),
{
    let t = s.update(i, x);
    if i == s.len() - 1 {
        assert(t.drop_last() =~= s.drop_last());
    } else {
        assert(t.drop_last() =~= s.drop_last().update(i, x));
        lemma_tally_update(s.drop_last(), w, i, x);
    }
}

/// A positive sum has a stage of positive weight.
proof fn lemma_tally_positive(s: Seq<Stage>, w: spec_fn(Stage) -> nat) -> (j: int)
    requires
        tally(s, w) > 0,
    ensures
        0 <= j < s.len(),
        w(s[j]) > 0,
    decreases s.len(),
{
    if w(s.last()) > 0 {
        s.len() - 1
    } else {
        lemma_tally_positive(s.drop_last(), w)
    }
}

/// The session of one download.
pub struct Session {
    /// The ranges of the body, in ascending order.
    pub ranges: Vec<ByteRange>,
    /// Where each range's task stands.
    pub stages: Vec<Stage>,
    /// How many requests may be in flight at once; never zero.
    pub limit: usize,
    /// The next range to be granted a permit: permits go out in range order.
    pub next: usize,
    /// How many ranges hold a permit.
    pub in_flight: usize,
    /// The range whose body the writer is copying, if any.
    pub writing: Option<usize>,
    /// Whether the writer gave up after a failed write.
    pub writer_stopped: bool,
    /// The first failure, which the download reports.
    pub failure: Option<Error>,
    /// The failure of each range, if it failed.
    pub errors: Ghost<Seq<Option<Error>>>,
}

impl Session {
    /// The consistency of a session, kept by every step.
    pub open spec fn wf(&self) -> bool {
        let n = self.ranges@.len();
        &&& self.stages@.len() == n
        &&& self.errors@.len() == n
        &&& self.limit >= 1
        &&& self.next <= n
        &&& forall|j: int| 0 <= j < n ==> (#[trigger] self.stages@[j] == Stage::Queued <==> j >= self.next)
        &&& self.in_flight == tally(self.stages@, |st: Stage| holds_permit(st))
        &&& self.in_flight <= self.limit
        &&& (self.writing matches Some(w) ==> w < n && self.stages@[w as int] == Stage::Writing)
        &&& forall|j: int|
            0 <= j < n && #[trigger] self.stages@[j] == Stage::Writing ==> self.writing == Some(j as usize)
        &&& self.writer_stopped ==> self.writing is None && self.failure is Some
        &&& forall|j: int|
            0 <= j < n && self.writer_stopped ==> #[trigger] self.stages@[j] != Stage::Delivered
        &&& forall|j: int|
            0 <= j < n && #[trigger] self.stages@[j] == Stage::Discarded ==> self.writer_stopped
        &&& forall|j: int|
            0 <= j < n ==> (#[trigger] self.stages@[j] == Stage::Failed <==> self.errors@[j] is Some)
        &&& (self.failure is None ==> forall|j: int| 0 <= j < n ==> #[trigger] self.errors@[j] is None)
        &&& (self.failure is Some ==> exists|j: int|
            0 <= j < n && #[trigger] self.errors@[j] == self.failure)
    }

    /// Every range has settled: no task is running and no body is pending.
    pub open spec fn settled(&self) -> bool {
        forall|j: int| 0 <= j < self.stages@.len() ==> is_terminal(#[trigger] self.stages@[j])
    }

    /// The most moves the session can still make.
    pub open spec fn steps_left(&self) -> nat {
        tally(self.stages@, |st: Stage| moves_left(st))
    }

    /// A permit can be granted now.
    pub open spec fn can_grant(&self) -> bool {
        self.next < self.ranges@.len() && self.in_flight < self.limit
    }

    /// The writer may take the body of range `i` now.
    pub open spec fn can_write(&self, i: int) -> bool {
        &&& 0 <= i < self.stages@.len()
        &&& self.stages@[i] == Stage::Delivered
        &&& self.writing is None
    }

    /// What the download returns once settled, given how the final flush went.
    pub open spec fn spec_result(&self, flushed: Result<(), Error>) -> Result<(), Error> {
        match self.failure {
            Some(e) => Err(e),
            None => flushed,
        }
    }

    /// Starts the download that `param` asks for: the body is cut into the
    /// ranges of its effective chunk size, every range waits for a permit,
    /// and the permits number the effective pool size (at least one).
    pub fn new(param: &DownloadParam) -> (r: Session)
        ensures
            r.wf(),
            r.ranges@ == spec_partition(param.info.size as nat, spec_chunk_size(param) as nat),
            r.limit == spec_pool_limit(param) as usize,
            forall|j: int| 0 <= j < r.stages@.len() ==> #[trigger] r.stages@[j] == Stage::Queued,
            r.failure is None,
            !r.writer_stopped,
    {
        let ranges = partition(param.info.size, param.effective_chunk_size());
        let limit = param.effective_pool_limit() as usize;
        let mut stages: Vec<Stage> = Vec::new();
        let mut k: usize = 0;
        while k < ranges.len()
            invariant
                k <= ranges@.len(),
                stages@.len() == k,
                forall|j: int| 0 <= j < k ==> #[trigger] stages@[j] == Stage::Queued,
            decreases ranges@.len() - k,
        {
            stages.push(Stage::Queued);
            k = k + 1;
        }
        let ghost errors = Seq::new(ranges@.len(), |j: int| None::<Error>);
        let s = Session {
            ranges,
            stages,
            limit,
            next: 0,
            in_flight: 0,
            writing: None,
            writer_stopped: false,
            failure: None,
            errors: Ghost(errors),
        };
        proof {
            lemma_tally_zero(s.stages@);
        }
        s
    }

    /// Grants a permit, if one is free, to the next range in order; the
    /// caller then starts that range's request.
    pub fn grant(&mut self) -> (r: Option<usize>)
        requires
            old(self).wf(),
        ensures
            final(self).wf(),
            old(self).can_grant() ==> r == Some(old(self).next) && final(self).stages@ == old(self).stages@.update(old(self).next as int, Stage::Requesting)
                && final(self).next == old(self).next + 1 && final(self).in_flight == old(self).in_flight + 1,
            !old(self).can_grant() ==> r is None && *final(self) == *old(self),
            final(self).ranges@ == old(self).ranges@,
            final(self).failure == old(self).failure,
            final(self).writer_stopped == old(self).writer_stopped,
            r is Some ==> final(self).steps_left() < old(self).steps_left(),
    {
        if self.next < self.ranges.len() && self.in_flight < self.limit {
            let i = self.next;
            proof {
                lemma_tally_update(self.stages@, |st: Stage| holds_permit(st), i as int, Stage::Requesting);
                lemma_tally_update(self.stages@, |st: Stage| moves_left(st), i as int, Stage::Requesting);
            }
            self.stages[i] = Stage::Requesting;
            self.next = i + 1;
            self.in_flight = self.in_flight + 1;
            Some(i)
        } else {
            None
        }
    }

    /// The response for range `i` arrived: its permit is released and its
    /// body goes to the writer, or is dropped if the writer has stopped.
    pub fn responded(&mut self, i: usize)
        requires
            old(self).wf(),
            i < old(self).stages@.len(),
            old(self).stages@[i as int] == Stage::Requesting,
        ensures
            final(self).wf(),
            final(self).stages@ == old(self).stages@.update(
                i as int,
                if old(self).writer_stopped {
                    Stage::Discarded
                } else {
                    Stage::Delivered
                },
            ),
            final(self).in_flight == old(self).in_flight - 1,
            final(self).ranges@ == old(self).ranges@,
            final(self).failure == old(self).failure,
            final(self).writer_stopped == old(self).writer_stopped,
            final(self).steps_left() < old(self).steps_left(),
    {
        let st = if self.writer_stopped {
            Stage::Discarded
        } else {
            Stage::Delivered
        };
        proof {
            lemma_tally_update(self.stages@, |st: Stage| holds_permit(st), i as int, st);
            lemma_tally_update(self.stages@, |st: Stage| moves_left(st), i as int, st);
        }
        self.stages[i] = st;
        self.in_flight = self.in_flight - 1;
    }

    /// The request for range `i` failed with `e`: its permit is released and
    /// `e` is kept if it is the first failure.
    pub fn fetch_failed(&mut self, i: usize, e: Error)
        requires
            old(self).wf(),
            i < old(self).stages@.len(),
            old(self).stages@[i as int] == Stage::Requesting,
        ensures
            final(self).wf(),
            final(self).stages@ == old(self).stages@.update(i as int, Stage::Failed),
            final(self).errors@ == old(self).errors@.update(i as int, Some(e)),
            final(self).in_flight == old(self).in_flight - 1,
            final(self).ranges@ == old(self).ranges@,
            final(self).failure == (if old(self).failure is None {
                Some(e)
            } else {
                old(self).failure
            }),
            final(self).writer_stopped == old(self).writer_stopped,
            final(self).steps_left() < old(self).steps_left(),
    {
        proof {
            lemma_tally_update(self.stages@, |st: Stage| holds_permit(st), i as int, Stage::Failed);
            lemma_tally_update(self.stages@, |st: Stage| moves_left(st), i as int, Stage::Failed);
        }
        let ghost e0 = e;
        self.stages[i] = Stage::Failed;
        self.errors = Ghost(self.errors@.update(i as int, Some(e0)));
        self.in_flight = self.in_flight - 1;
        if self.failure.is_none() {
            self.failure = Some(e);
        }
        proof {
            assert(self.errors@[i as int] == Some(e0));
            if old(self).failure is Some {
                let j = choose|j: int|
                    0 <= j < self.stages@.len() && #[trigger] old(self).errors@[j] == old(self).failure;
                assert(j != i);
                assert(self.errors@[j] == self.failure);
            }
        }
    }

    /// The writer takes the body of range `i`; it must seek the sink to the
    /// returned offset, the start of the range, before copying.
    pub fn begin_write(&mut self, i: usize) -> (offset: u64)
        requires
            old(self).wf(),
            old(self).can_write(i as int),
        ensures
            final(self).wf(),
            offset == old(self).ranges@[i as int].start,
            final(self).stages@ == old(self).stages@.update(i as int, Stage::Writing),
            final(self).writing == Some(i),
            final(self).ranges@ == old(self).ranges@,
            final(self).failure == old(self).failure,
            final(self).writer_stopped == old(self).writer_stopped,
            final(self).steps_left() < old(self).steps_left(),
    {
        proof {
            lemma_tally_update(self.stages@, |st: Stage| holds_permit(st), i as int, Stage::Writing);
            lemma_tally_update(self.stages@, |st: Stage| moves_left(st), i as int, Stage::Writing);
        }
        self.stages[i] = Stage::Writing;
        self.writing = Some(i);
        self.ranges[i].start
    }

    /// The body of the range being written is now in the sink.
    pub fn write_done(&mut self)
        requires
            old(self).wf(),
            old(self).writing is Some,
        ensures
            final(self).wf(),
            final(self).stages@ == old(self).stages@.update(
                old(self).writing->0 as int,
                Stage::Written,
            ),
            final(self).writing is None,
            final(self).ranges@ == old(self).ranges@,
            final(self).failure == old(self).failure,
            final(self).writer_stopped == old(self).writer_stopped,
            final(self).steps_left() < old(self).steps_left(),
    {
        let i = match self.writing {
            Some(i) => i,
            None => 0,
        };
        proof {
            lemma_tally_update(self.stages@, |st: Stage| holds_permit(st), i as int, Stage::Written);
            lemma_tally_update(self.stages@, |st: Stage| moves_left(st), i as int, Stage::Written);
        }
        self.stages[i] = Stage::Written;
        self.writing = None;
    }

    /// Writing the body of the range being written failed with `e`: the
    /// writer stops, `e` is kept if it is the first failure, and every body
    /// waiting for the writer is dropped.
    pub fn write_failed(&mut self, e: Error)
        requires
            old(self).wf(),
            old(self).writing is Some,
        ensures
            final(self).wf(),
            final(self).writer_stopped,
            final(self).writing is None,
            final(self).stages@[old(self).writing->0 as int] == Stage::Failed,
            final(self).errors@ == old(self).errors@.update(old(self).writing->0 as int, Some(e)),
            forall|j: int|
                0 <= j < old(self).stages@.len() && j != old(self).writing->0 ==> #[trigger] final(self).stages@[j] == (if old(self).stages@[j] == Stage::Delivered {
                    Stage::Discarded
                } else {
                    old(self).stages@[j]
                }),
            final(self).stages@.len() == old(self).stages@.len(),
            final(self).in_flight == old(self).in_flight,
            final(self).ranges@ == old(self).ranges@,
            final(self).failure == (if old(self).failure is None {
                Some(e)
            } else {
                old(self).failure
            }),
            final(self).steps_left() < old(self).steps_left(),
    {
        let i = match self.writing {
            Some(i) => i,
            None => 0,
        };
        proof {
            lemma_tally_update(self.stages@, |st: Stage| holds_permit(st), i as int, Stage::Failed);
            lemma_tally_update(self.stages@, |st: Stage| moves_left(st), i as int, Stage::Failed);
        }
        let ghost e0 = e;
        self.stages[i] = Stage::Failed;
        self.errors = Ghost(self.errors@.update(i as int, Some(e0)));
        self.writing = None;
        self.writer_stopped = true;
        if self.failure.is_none() {
            self.failure = Some(e);
        }
        proof {
            if old(self).failure is Some {
                let j = choose|j: int|
                    0 <= j < self.stages@.len() && #[trigger] old(self).errors@[j] == old(self).failure;
                assert(j != i);
                assert(self.errors@[j] == self.failure);
            } else {
                assert(self.errors@[i as int] == self.failure);
            }
        }
        let ghost mid = self.stages@;
        let n = self.stages.len();
        let mut k: usize = 0;
        while k < n
            invariant
                n == self.stages@.len(),
                k <= n,
                mid.len() == n,
                self.ranges@ == old(self).ranges@,
                self.errors@ == old(self).errors@.update(i as int, Some(e0)),
                self.writer_stopped,
                self.writing is None,
                self.failure == (if old(self).failure is None {
                    Some(e0)
                } else {
                    old(self).failure
                }),
                self.next == old(self).next,
                self.limit == old(self).limit,
                self.in_flight == old(self).in_flight,
                self.in_flight == tally(self.stages@, |st: Stage| holds_permit(st)),
                tally(self.stages@, |st: Stage| moves_left(st)) <= tally(mid, |st: Stage| moves_left(st)),
                forall|j: int|
                    0 <= j < n ==> #[trigger] self.stages@[j] == (if j < k && mid[j] == Stage::Delivered {
                        Stage::Discarded
                    } else {
                        mid[j]
                    }),
            decreases n - k,
        {
            if self.stages[k] == Stage::Delivered {
                proof {
                    lemma_tally_update(self.stages@, |st: Stage| holds_permit(st), k as int, Stage::Discarded);
                    lemma_tally_update(self.stages@, |st: Stage| moves_left(st), k as int, Stage::Discarded);
                }
                self.stages[k] = Stage::Discarded;
            }
            k = k + 1;
        }
    }

    /// Whether every range has settled, so that the download may return.
    pub fn is_settled(&self) -> (r: bool)
        requires
            self.wf(),
        ensures
            r == self.settled(),
    {
        let n = self.stages.len();
        let mut k: usize = 0;
        while k < n
            invariant
                n == self.stages@.len(),
                k <= n,
                forall|j: int| 0 <= j < k ==> is_terminal(#[trigger] self.stages@[j]),
            decreases n - k,
        {
            let st = self.stages[k];
            if !(st == Stage::Written || st == Stage::Failed || st == Stage::Discarded) {
                return false;
            }
            k = k + 1;
        }
        true
    }

    /// What the download returns once settled: the first failure if there
    /// was one, otherwise how the final flush of the sink went.
    pub fn finish(self, flushed: Result<(), Error>) -> (r: Result<(), Error>)
        requires
            self.wf(),
            self.settled(),
        ensures
            r == self.spec_result(flushed),
            self.failure is None ==> forall|j: int|
                0 <= j < self.stages@.len() ==> #[trigger] self.stages@[j] == Stage::Written,
    {
        proof {
            if self.failure is None {
                assert forall|j: int| 0 <= j < self.stages@.len() implies #[trigger] self.stages@[j]
                    == Stage::Written by {
                    assert(is_terminal(self.stages@[j]));
                    assert(self.errors@[j] is None);
                }
            }
        }
        match self.failure {
            Some(e) => Err(e),
            None => flushed,
        }
    }
}

/// How many requests are in flight.
pub open spec fn requests_in_flight(s: &Session) -> nat {
    tally(s.stages@, |st: Stage| holds_permit(st))
}

/// In every state of a session, at most `limit` ranges are in their request
/// phase at once.
pub proof fn lemma_bounded_concurrency(s: &Session)
    requires
        s.wf(),
    ensures
        requests_in_flight(s) <= s.limit,
{
}

/// A pool of zero connections allows one request in flight, never none.
pub proof fn lemma_zero_pool_is_one(param: &DownloadParam)
    requires
        param.conn_pool == Some(0u8),
    ensures
        spec_pool_limit(param) == 1,
{
}

/// A session that has not settled can always move: a permit can be granted,
/// a request is in flight and will answer, or the writer has a body to take
/// or is copying one. Together with every step lowering `steps_left`, the
/// download cannot hang.
pub proof fn lemma_progress(s: &Session)
    requires
        s.wf(),
        !s.settled(),
    ensures
        s.can_grant() || s.writing is Some || exists|j: int|
            0 <= j < s.stages@.len() && (#[trigger] s.stages@[j] == Stage::Requesting || s.can_write(j)),
{
    let j = choose|j: int| 0 <= j < s.stages@.len() && !is_terminal(#[trigger] s.stages@[j]);
    if s.stages@[j] == Stage::Queued && !s.can_grant() {
        let r = lemma_tally_positive(s.stages@, |st: Stage| holds_permit(st));
        assert(s.stages@[r] == Stage::Requesting);
    } else if s.stages@[j] == Stage::Delivered && s.writing is None {
        assert(s.can_write(j));
    }
}

/// When exactly one range fails, the settled download returns that range's
/// error, and every other range has reached its end: written, or dropped
/// after the writer stopped.
pub proof fn lemma_single_failure(s: &Session, i: int, flushed: Result<(), Error>)
    requires
        s.wf(),
        s.settled(),
        0 <= i < s.stages@.len(),
        s.errors@[i] is Some,
        forall|j: int| 0 <= j < s.stages@.len() && j != i ==> #[trigger] s.errors@[j] is None,
    ensures
        s.spec_result(flushed) == Err::<(), Error>(s.errors@[i]->0),
        forall|j: int|
            0 <= j < s.stages@.len() && j != i ==> #[trigger] s.stages@[j] == Stage::Written
                || s.stages@[j] == Stage::Discarded,
{
    assert(s.failure is Some);
    let j = choose|j: int| 0 <= j < s.stages@.len() && #[trigger] s.errors@[j] == s.failure;
    assert(j == i);
    assert forall|k: int| 0 <= k < s.stages@.len() && k != i implies #[trigger] s.stages@[k]
        == Stage::Written || s.stages@[k] == Stage::Discarded by {
        assert(is_terminal(s.stages@[k]));
        assert(s.errors@[k] is None);
    }
}

proof fn lemma_tally_zero(s: Seq<Stage>)
    requires
        forall|j: int| 0 <= j < s.len() ==> #[trigger] s[j] == Stage::Queued,
    ensures
        tally(s, |st: Stage| holds_permit(st)) == 0,
    decreases s.len(),
{
    if s.len() > 0 {
        lemma_tally_zero(s.drop_last());
    }
}

} // verus!
