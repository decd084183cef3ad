use vstd::prelude::*;

verus! {

/// Sum of a sequence of byte counts.
pub open spec fn total(s: Seq<usize>) -> int
    decreases s.len(),
{
    if s.len() == 0 {
        0
    } else {
        total(s.drop_last()) + s.last()
    }
}

/// The non-zero entries of `s`, in order.
pub open spec fn nonzero(s: Seq<usize>) -> Seq<usize>
    decreases s.len(),
{
    if s.len() == 0 {
        Seq::empty()
    } else if s.last() > 0 {
        nonzero(s.drop_last()).push(s.last())
    } else {
        nonzero(s.drop_last())
    }
}

/// The decisions of a size-tracking read: fed the length that each read call returned,
/// it records the non-zero ones and says when end of file has been reached.
pub struct ReadTrace {
    buffer_size: usize,
    sizes: Vec<usize>,
    reads: Ghost<Seq<usize>>,
    finished: bool,
}

impl ReadTrace {
    /// The buffer size that every read asks for.
    pub closed spec fn spec_buffer_size(&self) -> usize {
        self.buffer_size
    }

    /// The lengths recorded so far.
    pub closed spec fn spec_sizes(&self) -> Seq<usize> {
        self.sizes@
    }

    /// Every length fed so far, zero included.
    pub closed spec fn spec_reads(&self) -> Seq<usize> {
        self.reads@
    }

    /// Whether a read has returned zero bytes.
    pub closed spec fn spec_finished(&self) -> bool {
        self.finished
    }

    pub open spec fn wf(&self) -> bool {
        &&& self.spec_sizes() == nonzero(self.spec_reads())
        &&& forall|i: int|
            0 <= i < self.spec_sizes().len() ==> 0 < #[trigger] self.spec_sizes()[i]
                <= self.spec_buffer_size()
        &&& self.spec_finished() == (self.spec_reads().len() > 0 && self.spec_reads().last()
            == 0)
    }

    pub fn new(buffer_size: usize) -> (r: Self)
        ensures
            r.wf(),
            r.spec_buffer_size() == buffer_size,
            r.spec_reads() == Seq::<usize>::empty(),
            r.spec_sizes() == Seq::<usize>::empty(),
            !r.spec_finished(),
    {
        let r = ReadTrace { buffer_size, sizes: Vec::new(), reads: Ghost(Seq::empty()), finished: false };
        assert(r.sizes@ =~= nonzero(Seq::<usize>::empty()));
        r
    }

    pub fn buffer_size(&self) -> (r: usize)
        ensures
            r == self.spec_buffer_size(),
    {
        self.buffer_size
    }

    pub fn is_finished(&self) -> (r: bool)
        ensures
            r == self.spec_finished(),
    {
        self.finished
    }

    /// Takes the length `n` that a read call returned; answers whether to read again.
    pub fn record(&mut self, n: usize) -> (more: bool)
        requires
            old(self).wf(),
            !old(self).spec_finished(),
            n <= old(self).spec_buffer_size(),
        ensures
            final(self).wf(),
            final(self).spec_buffer_size() == old(self).spec_buffer_size(),
            final(self).spec_reads() == old(self).spec_reads().push(n),
            more == (n > 0),
            final(self).spec_finished() == (n == 0),
            final(self).spec_sizes() == if n > 0 {
                old(self).spec_sizes().push(n)
            } else {
                old(self).spec_sizes()
            },
    {
        let ghost reads = self.reads@.push(n);
        assert(reads.drop_last() =~= self.reads@);
        self.reads = Ghost(reads);
        if n == 0 {
            self.finished = true;
            false
        } else {
            self.sizes.push(n);
            true
        }
    }

    pub fn into_sizes(self) -> (r: Vec<usize>)
        ensures
            r@ == self.spec_sizes(),
    {
        self.sizes
    }
}

proof fn lemma_nonzero_total(s: Seq<usize>)
    ensures
        total(nonzero(s)) == total(s),
    decreases s.len(),
{
    if s.len() > 0 {
        lemma_nonzero_total(s.drop_last());
        if s.last() > 0 {
            assert(nonzero(s).drop_last() =~= nonzero(s.drop_last()));
        }
    }
}

/// The lengths that a size-tracking read records add up to every byte that its read
/// calls returned (the file's length, once a read has returned zero), and each lies
/// in `(0, buffer_size]`.
pub proof fn lemma_read_completeness(trace: ReadTrace)
    requires
        trace.wf(),
    ensures
        total(trace.spec_sizes()) == total(trace.spec_reads()),
        forall|i: int|
            0 <= i < trace.spec_sizes().len() ==> 0 < #[trigger] trace.spec_sizes()[i]
                <= trace.spec_buffer_size(),
{
    lemma_nonzero_total(trace.spec_reads());
}

} // verus!
