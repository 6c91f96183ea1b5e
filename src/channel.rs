use vstd::prelude::*;

verus! {

/// The producer-side handle of a channel.
///
/// A handle names its channel by an identifier; it is copied freely and
/// handed to whatever produces the samples.
#[derive(Clone, Copy, Debug, PartialEq, Eq, Structural)]
pub struct Sender {
    pub id: u64,
}

/// The state of a channel as a mathematical value.
pub struct ChannelView<T> {
    pub id: u64,
    /// Samples enqueued and not yet drained, oldest first.
    pub pending: Seq<T>,
    /// Samples drained so far, in arrival order.
    pub samples: Seq<T>,
}

impl<T> ChannelView<T> {
    /// The channel after one more sample has been enqueued.
    pub open spec fn enqueued(self, s: T) -> ChannelView<T> {
        ChannelView { pending: self.pending.push(s), ..self }
    }

    /// The channel after its pending samples have been moved to the buffer.
    pub open spec fn drained(self) -> ChannelView<T> {
        ChannelView { pending: Seq::empty(), samples: self.samples + self.pending, ..self }
    }

    /// The channel after each sample of `xs` has been enqueued, in order.
    pub open spec fn enqueued_all(self, xs: Seq<T>) -> ChannelView<T>
        decreases xs.len(),
    {
        if xs.len() == 0 {
            self
        } else {
            self.enqueued_all(xs.drop_last()).enqueued(xs.last())
        }
    }
}

/// Enqueuing a sequence of samples and then draining once appends exactly
/// that sequence to the buffer: nothing is reordered, lost or duplicated.
pub proof fn lemma_drain_keeps_order<T>(c: ChannelView<T>, xs: Seq<T>)
    ensures
        c.enqueued_all(xs).id == c.id,
        c.enqueued_all(xs).samples == c.samples,
        c.enqueued_all(xs).pending == c.pending + xs,
        c.enqueued_all(xs).drained().samples == c.samples + c.pending + xs,
        c.pending.len() == 0 ==> c.enqueued_all(xs).drained().samples == c.samples + xs,
    decreases xs.len(),
{
    if xs.len() > 0 {
        lemma_drain_keeps_order(c, xs.drop_last());
        assert(c.pending + xs =~= (c.pending + xs.drop_last()).push(xs.last()));
    } else {
        assert(c.pending + xs =~= c.pending);
    }
    assert(c.samples + c.pending + xs =~= c.samples + (c.pending + xs));
    if c.pending.len() == 0 {
        assert(c.samples + c.pending =~= c.samples);
    }
}

/// One track's transport queue and the buffer of samples drained from it.
pub struct Channel<T> {
    id: u64,
    pending: Vec<T>,
    samples: Vec<T>,
}

impl<T> View for Channel<T> {
    type V = ChannelView<T>;

    closed spec fn view(&self) -> ChannelView<T> {
        ChannelView { id: self.id, pending: self.pending@, samples: self.samples@ }
    }
}

impl<T> Channel<T> {
    /// A channel with the given identifier, nothing pending and an empty buffer.
    pub fn new(id: u64) -> (r: Self)
        ensures
            r@.id == id,
            r@.pending == Seq::<T>::empty(),
            r@.samples == Seq::<T>::empty(),
    {
        Channel { id, pending: Vec::new(), samples: Vec::new() }
    }

    /// A producer handle for this channel; every call gives an equal handle.
    pub fn assign_sender(&self) -> (r: Sender)
        ensures
            r.id == self@.id,
    {
        Sender { id: self.id }
    }

    pub fn id(&self) -> (r: u64)
        ensures
            r == self@.id,
    {
        self.id
    }

    /// Appends one sample to the pending queue.
    pub fn enqueue(&mut self, s: T)
        ensures
            final(self)@ == old(self)@.enqueued(s),
    {
        self.pending.push(s);
    }

    /// Moves every pending sample to the buffer, keeping arrival order, and
    /// returns how many were moved.
    pub fn drain_pending(&mut self) -> (r: usize)
        ensures
            final(self)@ == old(self)@.drained(),
            r == old(self)@.pending.len(),
    {
        let n = self.pending.len();
        self.samples.append(&mut self.pending);
        n
    }

    /// The number of samples enqueued and not yet drained.
    pub fn pending_len(&self) -> (r: usize)
        ensures
            r == self@.pending.len(),
    {
        self.pending.len()
    }

    /// Every sample drained so far, in arrival order.
    pub fn accumulated_view(&self) -> (r: &[T])
        ensures
            r@ == self@.samples,
    {
        self.samples.as_slice()
    }
}

} // verus!
