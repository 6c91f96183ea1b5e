use vstd::prelude::*;

verus! {

/// Which part of a track's buffer is handed to the engine on a refresh.
#[derive(Clone, Copy, Debug, PartialEq, Eq, Structural)]
pub enum BufferSize {
    /// The whole buffer, recomputed from scratch.
    All,
    /// Only the samples that arrived since the previous selection.
    Incremental,
}

/// What `select` hands out for a buffer, a policy and a cursor.
pub open spec fn selected<T>(buf: Seq<T>, policy: BufferSize, cursor: int) -> Seq<T> {
    match policy {
        BufferSize::All => buf,
        BufferSize::Incremental => buf.subrange(cursor, buf.len() as int),
    }
}

/// A cursor is usable with a buffer when it does not point past its end.
pub open spec fn cursor_fits<T>(buf: Seq<T>, policy: BufferSize, cursor: int) -> bool {
    policy == BufferSize::Incremental ==> 0 <= cursor <= buf.len()
}

/// Returns the selected slice of `buffer` and the cursor for the next call,
/// which is always the end of the buffer.
pub fn select<'a, T>(buffer: &'a [T], policy: BufferSize, cursor: usize) -> (r: (&'a [T], usize))
    requires
        cursor_fits(buffer@, policy, cursor as int),
    ensures
        r.0@ == selected(buffer@, policy, cursor as int),
        r.1 == buffer@.len(),
{
    let end = buffer.len();
    match policy {
        BufferSize::All => (buffer, end),
        BufferSize::Incremental => (vstd::slice::slice_subrange(buffer, cursor, end), end),
    }
}

/// Selecting with `All` gives the whole buffer whatever the cursor, so two
/// selections of one buffer are identical.
pub proof fn lemma_select_all_idempotent<T>(buf: Seq<T>, c1: int, c2: int)
    ensures
        selected(buf, BufferSize::All, c1) == buf,
        selected(buf, BufferSize::All, c1) == selected(buf, BufferSize::All, c2),
{
}

/// Whether each buffer in `bufs` is a prefix of the next one.
pub open spec fn grows<T>(bufs: Seq<Seq<T>>) -> bool {
    forall|i: int|
        0 <= i < bufs.len() - 1 ==> #[trigger] bufs[i].len() <= bufs[i + 1].len()
            && bufs[i] == bufs[i + 1].subrange(0, bufs[i].len() as int)
}

/// The slices handed out by incremental selections of each buffer of `bufs`
/// in turn, starting at `cursor` and moving the cursor as `select` does,
/// joined in call order.
pub open spec fn incremental_run<T>(bufs: Seq<Seq<T>>, cursor: int) -> Seq<T>
    decreases bufs.len(),
{
    if bufs.len() == 0 {
        Seq::empty()
    } else {
        selected(bufs[0], BufferSize::Incremental, cursor) + incremental_run(
            bufs.drop_first(),
            bufs[0].len() as int,
        )
    }
}

proof fn lemma_incremental_run_from<T>(bufs: Seq<Seq<T>>, cursor: int)
    requires
        bufs.len() > 0,
        grows(bufs),
        0 <= cursor <= bufs[0].len(),
    ensures
        bufs[0].subrange(0, cursor) + incremental_run(bufs, cursor) == bufs.last(),
    decreases bufs.len(),
{
    let b0 = bufs[0];
    let first = selected(b0, BufferSize::Incremental, cursor);
    assert(b0.subrange(0, cursor) + first =~= b0);
    if bufs.len() == 1 {
        assert(incremental_run(bufs.drop_first(), b0.len() as int) =~= Seq::<T>::empty());
        assert(b0.subrange(0, cursor) + incremental_run(bufs, cursor) =~= b0);
    } else {
        let rest = bufs.drop_first();
        assert(grows(rest)) by {
            assert forall|i: int| 0 <= i < rest.len() - 1 implies #[trigger] rest[i].len()
                <= rest[i + 1].len() && rest[i] == rest[i + 1].subrange(
                0,
                rest[i].len() as int,
            ) by {
                assert(rest[i] == bufs[i + 1]);
                assert(rest[i + 1] == bufs[i + 2]);
                assert(bufs[i + 1].len() <= bufs[i + 2].len());
            }
        }
        assert(bufs[0].len() <= bufs[1].len());
        lemma_incremental_run_from(rest, b0.len() as int);
        assert(rest[0] == bufs[1]);
        assert(rest[0].subrange(0, b0.len() as int) == b0);
        assert(b0.subrange(0, cursor) + incremental_run(bufs, cursor) =~= b0
            + incremental_run(rest, b0.len() as int));
        assert(rest.last() == bufs.last());
    }
}

/// Incremental selections of a growing buffer, starting from a zero cursor,
/// cover its growth without overlap or gap: joined in call order they give
/// the last buffer.
pub proof fn lemma_incremental_partitions<T>(bufs: Seq<Seq<T>>)
    requires
        bufs.len() > 0,
        grows(bufs),
    ensures
        incremental_run(bufs, 0) == bufs.last(),
{
    lemma_incremental_run_from(bufs, 0);
    assert(bufs[0].subrange(0, 0) + incremental_run(bufs, 0) =~= incremental_run(bufs, 0));
}

} // verus!
