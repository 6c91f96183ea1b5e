use vstd::prelude::*;
use crate::channel::{Channel, ChannelView, Sender};
use crate::engine::{loaded, Spectrogram};
use crate::selector::{select, selected, BufferSize};

verus! {

/// Returned to a producer whose track has been removed: it must stop
/// producing.
#[derive(Clone, Copy, Debug, PartialEq, Eq, Structural)]
pub struct ChannelClosed;

/// One track as a mathematical value.
pub struct TrackView<T> {
    pub channel: ChannelView<T>,
    /// The engine's representation.
    pub representation: Seq<T>,
    /// Where the next incremental selection starts.
    pub cursor: int,
}

impl<T> TrackView<T> {
    pub open spec fn wf(self) -> bool {
        0 <= self.cursor <= self.channel.samples.len()
    }

    pub open spec fn id(self) -> u64 {
        self.channel.id
    }

    /// A freshly created track with the given identifier.
    pub open spec fn fresh(id: u64) -> TrackView<T> {
        TrackView {
            channel: ChannelView { id, pending: Seq::empty(), samples: Seq::empty() },
            representation: Seq::empty(),
            cursor: 0,
        }
    }

    /// The track after one more sample has been enqueued on its channel.
    pub open spec fn enqueued(self, s: T) -> TrackView<T> {
        TrackView { channel: self.channel.enqueued(s), ..self }
    }

    /// The track after one refresh: drain, select, load, move the cursor.
    pub open spec fn refreshed(self, policy: BufferSize) -> TrackView<T> {
        let c = self.channel.drained();
        TrackView {
            channel: c,
            representation: loaded(
                self.representation,
                selected(c.samples, policy, self.cursor),
                policy,
            ),
            cursor: c.samples.len() as int,
        }
    }
}

/// The registry as a mathematical value.
pub struct RegistryView<T> {
    /// The tracks in insertion order; a track's index is its position here.
    pub tracks: Seq<TrackView<T>>,
    /// The identifier the next new track's channel gets.
    pub next_id: int,
    pub policy: BufferSize,
}

impl<T> RegistryView<T> {
    /// Every track is well formed, every identifier was handed out before
    /// `next_id`, and no two tracks share one.
    pub open spec fn wf(self) -> bool {
        &&& 0 <= self.next_id <= u64::MAX
        &&& forall|i: int| 0 <= i < self.tracks.len() ==> #[trigger] self.tracks[i].wf()
        &&& forall|i: int| 0 <= i < self.tracks.len() ==> #[trigger] self.tracks[i].id() < self.next_id
        &&& forall|i: int, j: int|
            0 <= i < self.tracks.len() && 0 <= j < self.tracks.len() && i != j
                ==> #[trigger] self.tracks[i].id() != #[trigger] self.tracks[j].id()
    }

    /// Whether some track's channel has identifier `id`, that is, whether a
    /// sender with that identifier is still open.
    pub open spec fn holds(self, id: u64) -> bool {
        exists|i: int| 0 <= i < self.tracks.len() && #[trigger] self.tracks[i].id() == id
    }

    /// The registry after a new track has been appended.
    pub open spec fn added(self) -> RegistryView<T> {
        RegistryView {
            tracks: self.tracks.push(TrackView::fresh(self.next_id as u64)),
            next_id: self.next_id + 1,
            ..self
        }
    }

    /// The registry after the track at `index` has been removed; the tracks
    /// after it move down by one.
    pub open spec fn removed(self, index: int) -> RegistryView<T> {
        RegistryView { tracks: self.tracks.remove(index), ..self }
    }

    /// The registry after `s` has been enqueued on the channel with
    /// identifier `id`; unchanged where there is none.
    pub open spec fn enqueued(self, id: u64, s: T) -> RegistryView<T> {
        RegistryView {
            tracks: self.tracks.map_values(
                |t: TrackView<T>|
                    if t.id() == id {
                        t.enqueued(s)
                    } else {
                        t
                    },
            ),
            ..self
        }
    }

    /// The registry after every track, in order, has been refreshed with
    /// the active policy.
    pub open spec fn refreshed(self) -> RegistryView<T> {
        RegistryView { tracks: self.tracks.map_values(|t: TrackView<T>| t.refreshed(self.policy)), ..self }
    }
}

/// Adding, removing, enqueuing and refreshing keep the registry well formed.
pub proof fn lemma_ops_keep_wf<T>(reg: RegistryView<T>, index: int, id: u64, s: T)
    requires
        reg.wf(),
    ensures
        reg.next_id < u64::MAX ==> reg.added().wf(),
        0 <= index < reg.tracks.len() ==> reg.removed(index).wf(),
        reg.enqueued(id, s).wf(),
        reg.refreshed().wf(),
{
    if reg.next_id < u64::MAX {
        let a = reg.added();
        assert forall|i: int| 0 <= i < a.tracks.len() implies #[trigger] a.tracks[i].wf()
            && a.tracks[i].id() < a.next_id by {
            if i < reg.tracks.len() {
                assert(a.tracks[i] == reg.tracks[i]);
            }
        }
        assert forall|i: int, j: int|
            0 <= i < a.tracks.len() && 0 <= j < a.tracks.len() && i != j
                implies #[trigger] a.tracks[i].id() != #[trigger] a.tracks[j].id() by {
            if i < reg.tracks.len() {
                assert(a.tracks[i] == reg.tracks[i]);
            }
            if j < reg.tracks.len() {
                assert(a.tracks[j] == reg.tracks[j]);
            }
        }
    }
    if 0 <= index < reg.tracks.len() {
        let r = reg.removed(index);
        assert forall|i: int| 0 <= i < r.tracks.len() implies #[trigger] r.tracks[i].wf()
            && r.tracks[i].id() < r.next_id by {
            let oi = if i < index { i } else { i + 1 };
            assert(r.tracks[i] == reg.tracks[oi]);
        }
        assert forall|i: int, j: int|
            0 <= i < r.tracks.len() && 0 <= j < r.tracks.len() && i != j
                implies #[trigger] r.tracks[i].id() != #[trigger] r.tracks[j].id() by {
            let oi = if i < index { i } else { i + 1 };
            let oj = if j < index { j } else { j + 1 };
            assert(r.tracks[i] == reg.tracks[oi]);
            assert(r.tracks[j] == reg.tracks[oj]);
        }
    }
    let e = reg.enqueued(id, s);
    assert forall|i: int| 0 <= i < e.tracks.len() implies #[trigger] e.tracks[i].id()
        == reg.tracks[i].id() by {
        assert(reg.tracks[i].wf());
    }
    assert forall|i: int| 0 <= i < e.tracks.len() implies #[trigger] e.tracks[i].wf() by {
        assert(reg.tracks[i].wf());
    }
    assert forall|i: int| 0 <= i < e.tracks.len() implies #[trigger] e.tracks[i].id() < e.next_id by {
        assert(e.tracks[i].id() == reg.tracks[i].id());
        assert(reg.tracks[i].id() < reg.next_id);
    }
    assert forall|i: int, j: int|
        0 <= i < e.tracks.len() && 0 <= j < e.tracks.len() && i != j
            implies #[trigger] e.tracks[i].id() != #[trigger] e.tracks[j].id() by {
        assert(e.tracks[i].id() == reg.tracks[i].id());
        assert(e.tracks[j].id() == reg.tracks[j].id());
    }
    let f = reg.refreshed();
    assert forall|i: int| 0 <= i < f.tracks.len() implies #[trigger] f.tracks[i].id()
        == reg.tracks[i].id() by {
        assert(reg.tracks[i].wf());
    }
    assert forall|i: int| 0 <= i < f.tracks.len() implies #[trigger] f.tracks[i].wf() by {
        assert(reg.tracks[i].wf());
    }
    assert forall|i: int| 0 <= i < f.tracks.len() implies #[trigger] f.tracks[i].id() < f.next_id by {
        assert(f.tracks[i].id() == reg.tracks[i].id());
        assert(reg.tracks[i].id() < reg.next_id);
    }
    assert forall|i: int, j: int|
        0 <= i < f.tracks.len() && 0 <= j < f.tracks.len() && i != j
            implies #[trigger] f.tracks[i].id() != #[trigger] f.tracks[j].id() by {
        assert(f.tracks[i].id() == reg.tracks[i].id());
        assert(f.tracks[j].id() == reg.tracks[j].id());
    }
}

/// Removing the track at `index` closes its channel and no other: the
/// removed identifier is no longer held, every other track is still held and
/// unchanged, and an enqueue on the removed identifier changes nothing.
pub proof fn lemma_remove_closes_only_that_track<T>(reg: RegistryView<T>, index: int, s: T)
    requires
        reg.wf(),
        0 <= index < reg.tracks.len(),
    ensures
        !reg.removed(index).holds(reg.tracks[index].id()),
        reg.removed(index).enqueued(reg.tracks[index].id(), s) == reg.removed(index),
        forall|j: int|
            0 <= j < reg.tracks.len() && j != index ==> reg.removed(index).holds(
                #[trigger] reg.tracks[j].id(),
            ),
        forall|j: int|
            0 <= j < index ==> #[trigger] reg.removed(index).tracks[j] == reg.tracks[j],
        forall|j: int|
            index < j < reg.tracks.len() ==> reg.removed(index).tracks[j - 1] == #[trigger] reg.tracks[j],
{
    let r = reg.removed(index);
    let id = reg.tracks[index].id();
    if r.holds(id) {
        let k = choose|k: int| 0 <= k < r.tracks.len() && #[trigger] r.tracks[k].id() == id;
        let ok = if k < index { k } else { k + 1 };
        assert(r.tracks[k] == reg.tracks[ok]);
    }
    lemma_closed_id_unchanged(r, id, s);
    assert forall|j: int| 0 <= j < reg.tracks.len() && j != index implies r.holds(
        #[trigger] reg.tracks[j].id(),
    ) by {
        let rj = if j < index { j } else { j - 1 };
        assert(r.tracks[rj] == reg.tracks[j]);
    }
}

/// Enqueuing on an identifier that no track holds leaves the registry as it
/// was.
pub proof fn lemma_closed_id_unchanged<T>(reg: RegistryView<T>, id: u64, s: T)
    requires
        !reg.holds(id),
    ensures
        reg.enqueued(id, s) == reg,
{
    assert forall|i: int| 0 <= i < reg.tracks.len() implies #[trigger] reg.enqueued(id, s).tracks[i]
        == reg.tracks[i] by {
        assert(reg.tracks[i].id() != id);
    }
    assert(reg.enqueued(id, s).tracks =~= reg.tracks);
}

/// A closed identifier stays closed: identifiers are never handed out
/// twice, so no later add, remove, enqueue or refresh opens it again.
pub proof fn lemma_closed_stays_closed<T>(reg: RegistryView<T>, id: u64, index: int, other: u64, s: T)
    requires
        reg.wf(),
        id < reg.next_id,
        !reg.holds(id),
    ensures
        reg.next_id < u64::MAX ==> !reg.added().holds(id) && id < reg.added().next_id,
        0 <= index < reg.tracks.len() ==> !reg.removed(index).holds(id),
        !reg.enqueued(other, s).holds(id),
        !reg.refreshed().holds(id),
{
    if reg.next_id < u64::MAX && reg.added().holds(id) {
        let a = reg.added();
        let k = choose|k: int| 0 <= k < a.tracks.len() && #[trigger] a.tracks[k].id() == id;
        if k < reg.tracks.len() {
            assert(a.tracks[k] == reg.tracks[k]);
        }
    }
    if 0 <= index < reg.tracks.len() && reg.removed(index).holds(id) {
        let r = reg.removed(index);
        let k = choose|k: int| 0 <= k < r.tracks.len() && #[trigger] r.tracks[k].id() == id;
        let ok = if k < index { k } else { k + 1 };
        assert(r.tracks[k] == reg.tracks[ok]);
    }
    if reg.enqueued(other, s).holds(id) {
        let e = reg.enqueued(other, s);
        let k = choose|k: int| 0 <= k < e.tracks.len() && #[trigger] e.tracks[k].id() == id;
        assert(reg.tracks[k].id() == id);
    }
    if reg.refreshed().holds(id) {
        let f = reg.refreshed();
        let k = choose|k: int| 0 <= k < f.tracks.len() && #[trigger] f.tracks[k].id() == id;
        assert(reg.tracks[k].id() == id);
    }
}

/// Indices are positions in the ordered collection and are not reserved:
/// after a removal the tracks behind it move down by one, and a track added
/// next goes to the end, with an identifier that no earlier track had.
pub proof fn lemma_add_after_remove<T>(reg: RegistryView<T>, index: int)
    requires
        reg.wf(),
        0 <= index < reg.tracks.len(),
        reg.next_id < u64::MAX,
    ensures
        reg.removed(index).added().tracks.len() == reg.tracks.len(),
        reg.removed(index).added().tracks.last() == TrackView::<T>::fresh(reg.next_id as u64),
        reg.removed(index).added().tracks.drop_last() == reg.tracks.remove(index),
        forall|j: int| 0 <= j < reg.tracks.len() ==> #[trigger] reg.tracks[j].id() != reg.next_id,
{
    assert(reg.removed(index).added().tracks.drop_last() =~= reg.tracks.remove(index));
    assert forall|j: int| 0 <= j < reg.tracks.len() implies #[trigger] reg.tracks[j].id() != reg.next_id by {
        assert(reg.tracks[j].id() < reg.next_id);
    }
}

struct Track<T> {
    channel: Channel<T>,
    engine: Spectrogram<T>,
    cursor: usize,
}

impl<T: Copy> Track<T> {
    spec fn view(&self) -> TrackView<T> {
        TrackView { channel: self.channel@, representation: self.engine.rep(), cursor: self.cursor as int }
    }

    spec fn wf(&self) -> bool {
        &&& self.engine.sender_spec().id == self.channel@.id
        &&& self.cursor <= self.channel@.samples.len()
    }

    fn refresh(&mut self, policy: BufferSize)
        requires
            old(self).wf(),
        ensures
            final(self).wf(),
            final(self).view() == old(self).view().refreshed(policy),
    {
        self.channel.drain_pending();
        let (slice, next) = select(self.channel.accumulated_view(), policy, self.cursor);
        self.engine.load(slice, policy);
        self.cursor = next;
    }
}

/// The ordered collection of tracks, each a channel paired with its engine.
pub struct Registry<T> {
    tracks: Vec<Track<T>>,
    next_id: u64,
    policy: BufferSize,
}

impl<T: Copy> View for Registry<T> {
    type V = RegistryView<T>;

    closed spec fn view(&self) -> RegistryView<T> {
        RegistryView {
            tracks: self.tracks@.map_values(|t: Track<T>| t.view()),
            next_id: self.next_id as int,
            policy: self.policy,
        }
    }
}

impl<T: Copy> Registry<T> {
    /// The registry's own invariant: its view is well formed and each engine
    /// is linked to its track's channel.
    pub closed spec fn wf(&self) -> bool {
        &&& self@.wf()
        &&& forall|i: int| 0 <= i < self.tracks@.len() ==> #[trigger] self.tracks@[i].wf()
    }

    /// An empty registry that refreshes with `policy`.
    pub fn new(policy: BufferSize) -> (r: Self)
        ensures
            r.wf(),
            r@.wf(),
            r@.tracks == Seq::<TrackView<T>>::empty(),
            r@.next_id == 0,
            r@.policy == policy,
    {
        let r = Registry { tracks: Vec::new(), next_id: 0, policy };
        assert(r@.tracks =~= Seq::<TrackView<T>>::empty());
        r
    }

    /// The number of tracks.
    pub fn len(&self) -> (r: usize)
        ensures
            r == self@.tracks.len(),
    {
        self.tracks.len()
    }

    pub fn policy(&self) -> (r: BufferSize)
        ensures
            r == self@.policy,
    {
        self.policy
    }

    /// Chooses the policy that later refreshes use.
    pub fn set_policy(&mut self, policy: BufferSize)
        requires
            old(self).wf(),
        ensures
            final(self).wf(),
            final(self)@.wf(),
            final(self)@ == (RegistryView { policy, ..old(self)@ }),
    {
        self.policy = policy;
    }

    /// Whether a track can still be added: track identifiers are never
    /// reused, and there are finitely many of them.
    pub fn can_add_track(&self) -> (r: bool)
        ensures
            r == (self@.next_id < u64::MAX),
    {
        self.next_id < u64::MAX
    }

    /// Creates a track (a channel and its engine), appends it, and returns
    /// its index and the producer handle of its channel.
    pub fn add_track(&mut self) -> (r: (usize, Sender))
        requires
            old(self).wf(),
            old(self)@.next_id < u64::MAX,
        ensures
            final(self).wf(),
            final(self)@.wf(),
            final(self)@ == old(self)@.added(),
            r.0 == old(self)@.tracks.len(),
            r.1.id == old(self)@.next_id,
    {
        let id = self.next_id;
        let channel = Channel::new(id);
        let sender = channel.assign_sender();
        let engine = Spectrogram::new(channel.assign_sender());
        let index = self.tracks.len();
        let track = Track { channel, engine, cursor: 0 };
        assert(track.view() == TrackView::<T>::fresh(id));
        self.tracks.push(track);
        self.next_id = id + 1;
        assert(self@.tracks =~= old(self)@.added().tracks);
        assert(self@.tracks[index as int].id() == id);
        assert(self.wf());
        (index, sender)
    }

    /// Removes the track at `index`, closing its channel: its sender
    /// handles are refused from then on.
    pub fn remove_track(&mut self, index: usize)
        requires
            old(self).wf(),
            index < old(self)@.tracks.len(),
        ensures
            final(self).wf(),
            final(self)@.wf(),
            final(self)@ == old(self)@.removed(index as int),
    {
        self.tracks.remove(index);
        assert(self@.tracks =~= old(self)@.removed(index as int).tracks);
        assert forall|i: int, j: int|
            0 <= i < self@.tracks.len() && 0 <= j < self@.tracks.len() && i != j
                implies #[trigger] self@.tracks[i].id() != #[trigger] self@.tracks[j].id() by {
            let oi = if i < index { i } else { i + 1 };
            let oj = if j < index { j } else { j + 1 };
            assert(self@.tracks[i] == old(self)@.tracks[oi]);
            assert(self@.tracks[j] == old(self)@.tracks[oj]);
        }
        assert forall|i: int| 0 <= i < self.tracks@.len() implies #[trigger] self.tracks@[i].wf() by {
            let oi = if i < index { i } else { i + 1 };
            assert(self.tracks@[i] == old(self).tracks@[oi]);
        }
        assert forall|i: int| 0 <= i < self@.tracks.len() implies #[trigger] self@.tracks[i].wf()
            && self@.tracks[i].id() < self@.next_id by {
            let oi = if i < index { i } else { i + 1 };
            assert(self@.tracks[i] == old(self)@.tracks[oi]);
        }
    }

    /// Enqueues one sample on the channel that `sender` belongs to; fails
    /// with `ChannelClosed` when that track has been removed.
    pub fn enqueue(&mut self, sender: &Sender, s: T) -> (r: Result<(), ChannelClosed>)
        requires
            old(self).wf(),
        ensures
            final(self).wf(),
            final(self)@.wf(),
            final(self)@ == old(self)@.enqueued(sender.id, s),
            r is Err <==> !old(self)@.holds(sender.id),
    {
        let n = self.tracks.len();
        let mut i: usize = 0;
        while i < n
            invariant
                n == self.tracks@.len(),
                i <= n,
                forall|j: int| 0 <= j < i ==> #[trigger] self@.tracks[j].id() != sender.id,
                self.tracks@ == old(self).tracks@,
                self.next_id == old(self).next_id,
                self.policy == old(self).policy,
                old(self).wf(),
            decreases n - i,
        {
            if self.tracks[i].channel.id() == sender.id {
                let ghost k = i as int;
                let t = &mut self.tracks[i];
                t.channel.enqueue(s);
                assert(self@.tracks =~= old(self)@.enqueued(sender.id, s).tracks) by {
                    assert forall|j: int| 0 <= j < self@.tracks.len() implies #[trigger] self@.tracks[j]
                        == old(self)@.enqueued(sender.id, s).tracks[j] by {
                        if j != k {
                            assert(old(self)@.tracks[j].id() != old(self)@.tracks[k].id());
                        }
                    }
                }
                assert(forall|j: int| 0 <= j < self.tracks@.len() ==> #[trigger] self.tracks@[j].wf()) by {
                    assert forall|j: int| 0 <= j < self.tracks@.len() implies #[trigger] self.tracks@[j].wf() by {
                        assert(old(self).tracks@[j].wf());
                    }
                }
                assert(old(self)@.tracks[k].id() == sender.id);
                assert(self@.wf()) by {
                    assert forall|j: int| 0 <= j < self@.tracks.len() implies #[trigger] self@.tracks[j].id()
                        == old(self)@.tracks[j].id() && self@.tracks[j].wf() by {
                        assert(old(self)@.tracks[j].wf());
                    }
                    assert forall|j: int| 0 <= j < self@.tracks.len() implies #[trigger] self@.tracks[j].wf() by {
                        assert(self@.tracks[j].id() == old(self)@.tracks[j].id());
                    }
                    assert forall|j: int| 0 <= j < self@.tracks.len() implies #[trigger] self@.tracks[j].id() < self@.next_id by {
                        assert(self@.tracks[j].id() == old(self)@.tracks[j].id());
                        assert(old(self)@.tracks[j].id() < old(self)@.next_id);
                    }
                    assert forall|a: int, b: int|
                        0 <= a < self@.tracks.len() && 0 <= b < self@.tracks.len() && a != b
                            implies #[trigger] self@.tracks[a].id() != #[trigger] self@.tracks[b].id() by {
                        assert(self@.tracks[a].id() == old(self)@.tracks[a].id());
                        assert(self@.tracks[b].id() == old(self)@.tracks[b].id());
                    }
                }
                return Ok(());
            }
            i = i + 1;
        }
        assert(self@.tracks =~= old(self)@.enqueued(sender.id, s).tracks);
        Err(ChannelClosed)
    }

    /// Runs one refresh cycle: every track, in order, drains its pending
    /// samples, selects with the active policy, and loads the selection into
    /// its engine.
    pub fn refresh_all(&mut self)
        requires
            old(self).wf(),
        ensures
            final(self).wf(),
            final(self)@.wf(),
            final(self)@ == old(self)@.refreshed(),
    {
        let n = self.tracks.len();
        let policy = self.policy;
        let mut i: usize = 0;
        while i < n
            invariant
                n == self.tracks@.len(),
                n == old(self).tracks@.len(),
                i <= n,
                policy == self.policy,
                policy == old(self).policy,
                self.next_id == old(self).next_id,
                forall|j: int| 0 <= j < i ==> #[trigger] self.tracks@[j].wf(),
                forall|j: int|
                    0 <= j < i ==> #[trigger] self.tracks@[j].view() == old(self).tracks@[j].view().refreshed(
                        policy,
                    ),
                forall|j: int| i <= j < n ==> #[trigger] self.tracks@[j] == old(self).tracks@[j],
                old(self).wf(),
            decreases n - i,
        {
            let ghost prev = self.tracks@;
            assert(prev[i as int].wf());
            let t = &mut self.tracks[i];
            t.refresh(policy);
            assert forall|j: int| 0 <= j < i + 1 implies #[trigger] self.tracks@[j].wf() by {
                if j < i {
                    assert(prev[j].wf());
                }
            }
            i = i + 1;
        }
        assert(self@.tracks =~= old(self)@.refreshed().tracks);
        assert forall|j: int| 0 <= j < n implies #[trigger] self@.tracks[j].id() == old(
            self,
        )@.tracks[j].id() by {
            assert(self.tracks@[j].view() == old(self).tracks@[j].view().refreshed(policy));
        }
        assert forall|j: int| 0 <= j < n implies #[trigger] self@.tracks[j].wf() by {
            assert(self.tracks@[j].wf());
        }
        assert forall|j: int| 0 <= j < n implies #[trigger] self@.tracks[j].id() < self@.next_id by {
            assert(self@.tracks[j].id() == old(self)@.tracks[j].id());
            assert(old(self)@.tracks[j].id() < old(self)@.next_id);
        }
        assert forall|a: int, b: int| 0 <= a < n && 0 <= b < n && a != b implies #[trigger] self@.tracks[a].id()
            != #[trigger] self@.tracks[b].id() by {
            assert(self@.tracks[a].id() == old(self)@.tracks[a].id());
            assert(self@.tracks[b].id() == old(self)@.tracks[b].id());
        }
    }

    /// The producer handle of the track at `index`.
    pub fn sender_handle(&self, index: usize) -> (r: Sender)
        requires
            index < self@.tracks.len(),
        ensures
            r.id == self@.tracks[index as int].id(),
    {
        self.tracks[index].channel.assign_sender()
    }

    /// The samples that the track at `index` has drained so far.
    pub fn accumulated_view(&self, index: usize) -> (r: &[T])
        requires
            index < self@.tracks.len(),
        ensures
            r@ == self@.tracks[index as int].channel.samples,
    {
        self.tracks[index].channel.accumulated_view()
    }

    /// The representation of the engine of the track at `index`.
    pub fn representation(&self, index: usize) -> (r: &[T])
        requires
            index < self@.tracks.len(),
        ensures
            r@ == self@.tracks[index as int].representation,
    {
        self.tracks[index].engine.representation()
    }
}

} // verus!
