use vstd::prelude::*;
use crate::channel::Sender;
use crate::selector::BufferSize;

verus! {

/// The representation after loading `slice` under `policy` into an engine
/// whose representation was `rep`: `All` replaces it, `Incremental` appends
/// to it, and an empty slice leaves it as it was.
pub open spec fn loaded<T>(rep: Seq<T>, slice: Seq<T>, policy: BufferSize) -> Seq<T> {
    if slice.len() == 0 {
        rep
    } else {
        match policy {
            BufferSize::All => slice,
            BufferSize::Incremental => rep + slice,
        }
    }
}

/// The spectrogram engine of one track.
///
/// Its representation is the ordered run of samples that the time-frequency
/// transform is computed over; it never holds on to the slices it is given.
pub struct Spectrogram<T> {
    sender: Sender,
    representation: Vec<T>,
}

impl<T: Copy> Spectrogram<T> {
    pub closed spec fn sender_spec(&self) -> Sender {
        self.sender
    }

    pub closed spec fn rep(&self) -> Seq<T> {
        self.representation@
    }

    /// An engine linked to a track's producer handle, with an empty
    /// representation.
    pub fn new(sender: Sender) -> (r: Self)
        ensures
            r.sender_spec() == sender,
            r.rep() == Seq::<T>::empty(),
    {
        Spectrogram { sender, representation: Vec::new() }
    }

    pub fn sender(&self) -> (r: Sender)
        ensures
            r == self.sender_spec(),
    {
        self.sender
    }

    /// Loads a selected slice: a full recompute for `All`, an append for
    /// `Incremental`, nothing at all for an empty slice.
    pub fn load(&mut self, slice: &[T], policy: BufferSize)
        ensures
            final(self).sender_spec() == old(self).sender_spec(),
            final(self).rep() == loaded(old(self).rep(), slice@, policy),
            slice@.len() == 0 ==> final(self).rep() == old(self).rep(),
    {
        if slice.len() == 0 {
            return;
        }
        if policy == BufferSize::All {
            self.representation.clear();
        }
        let ghost start = self.representation@;
        let mut i: usize = 0;
        while i < slice.len()
            invariant
                i <= slice@.len(),
                self.sender == old(self).sender,
                self.representation@ == start + slice@.subrange(0, i as int),
            decreases slice@.len() - i,
        {
            self.representation.push(slice[i]);
            assert(slice@.subrange(0, i + 1) =~= slice@.subrange(0, i as int).push(slice@[i as int]));
            i = i + 1;
        }
        assert(slice@.subrange(0, slice@.len() as int) =~= slice@);
        assert(start + Seq::<T>::empty() =~= start);
        if policy == BufferSize::All {
            assert(start + slice@ =~= slice@);
        }
    }

    /// The current representation.
    pub fn representation(&self) -> (r: &[T])
        ensures
            r@ == self.rep(),
    {
        self.representation.as_slice()
    }
}

} // verus!
