//! The queue of file descriptors that arrive beside the bytes of one
//! direction of a connection, waiting for the next message sent on.
use vstd::prelude::*;

verus! {

/// Descriptors received and not yet handed on, oldest first.
pub struct FdQueue {
    fds: Vec<i32>,
}

impl View for FdQueue {
    type V = Seq<i32>;

    closed spec fn view(&self) -> Seq<i32> {
        self.fds@
    }
}

impl FdQueue {
    /// An empty queue.
    pub fn new() -> (r: FdQueue)
        ensures
            r@ == Seq::<i32>::empty(),
    {
        FdQueue { fds: Vec::new() }
    }

    /// Number of descriptors waiting.
    pub fn len(&self) -> (r: usize)
        ensures
            r == self@.len(),
    {
        self.fds.len()
    }

    /// Puts descriptors received with a read behind those already waiting.
    pub fn received(&mut self, fds: &[i32])
        ensures
            final(self)@ == old(self)@ + fds@,
    {
        let ghost head = self.fds@;
        let n = fds.len();
        let mut i: usize = 0;
        while i < n
            invariant
                n == fds@.len(),
                i <= n,
                self.fds@ == head + fds@.subrange(0, i as int),
            decreases n - i,
        {
            self.fds.push(fds[i]);
            i = i + 1;
            assert(self.fds@ =~= head + fds@.subrange(0, i as int));
        }
        assert(fds@.subrange(0, n as int) =~= fds@);
    }

    /// Hands over every waiting descriptor, oldest first, to be sent with the
    /// next message; the queue is then empty.
    pub fn take_all(&mut self) -> (r: Vec<i32>)
        ensures
            r@ == old(self)@,
            final(self)@ == Seq::<i32>::empty(),
    {
        let mut out: Vec<i32> = Vec::new();
        std::mem::swap(&mut out, &mut self.fds);
        out
    }
}

/// Descriptors go on in the order they came, each exactly once: after two
/// reads and a send, the send carries what was waiting, then the first read's
/// descriptors, then the second's; a second send carries none.
pub proof fn lemma_fds_forwarded_once(waiting: Seq<i32>, first: Seq<i32>, second: Seq<i32>)
    ensures
        ({
            let queued = waiting + first + second;
            &&& queued.subrange(0, waiting.len() as int) == waiting
            &&& queued.subrange(waiting.len() as int, (waiting.len() + first.len()) as int) == first
            &&& queued.subrange((waiting.len() + first.len()) as int, queued.len() as int) == second
            &&& queued.len() == (waiting.len() + first.len()) as int + second.len()
        }),
{
    let queued = waiting + first + second;
    assert(queued.subrange(0, waiting.len() as int) =~= waiting);
    assert(queued.subrange(waiting.len() as int, (waiting.len() + first.len()) as int) =~= first);
    assert(queued.subrange((waiting.len() + first.len()) as int, queued.len() as int) =~= second);
}

} // verus!
