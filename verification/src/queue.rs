//! Per-queue core and its shared facade: an ordered collection of queue
//! entries plus a bounded history ring, mutated both by user commands and by
//! the player's lifecycle callbacks. Only the front entry may ever be
//! playing; every operation keeps that invariant under one exclusive lock.

use vstd::prelude::*;

use crate::history::{History, TrackUserData, ring_insert, ring_insert_all};
use vstd::pervasive::VecAdditionalExecFns;
use vstd::rwlock::{RwLock, RwLockPredicate};

verus! {

/// How long before a track's expected end the lookahead preparation of the
/// next entry is scheduled, in milliseconds.
pub const PRELOAD_MARGIN_MS: u64 = 5000;

/// One entry of the queue: the stable identity of a track already handed to
/// the player, whether it is currently playing, and its metadata.
#[derive(Debug)]
pub struct Queued {
    pub uuid: u64,
    pub playing: bool,
    pub data: TrackUserData,
}

impl Clone for Queued {
    fn clone(&self) -> (res: Self)
        ensures
            res == *self,
    {
        Queued { uuid: self.uuid, playing: self.playing, data: self.data.clone() }
    }
}

impl Queued {
    /// A cloned handle to this entry.
    pub fn handle(&self) -> (r: Queued)
        ensures
            r == *self,
    {
        self.clone()
    }
}

/// The same entry with its playing state replaced.
pub open spec fn set_playing(e: Queued, playing: bool) -> Queued {
    (Queued { uuid: e.uuid, playing, data: e.data })
}

/// A queue after its front entry, if any, transitions to playing.
pub open spec fn activate_front(q: Seq<Queued>) -> Seq<Queued> {
    if q.len() == 0 {
        q
    } else {
        q.update(0, set_playing(q[0], true))
    }
}

/// A queue after one enqueue: the entry is appended, and starts playing
/// exactly when the queue was empty.
pub open spec fn add_model(q: Seq<Queued>, uuid: u64, data: TrackUserData) -> Seq<Queued> {
    q.push((Queued { uuid, playing: q.len() == 0, data }))
}

/// The metadata of each entry, in queue order.
pub open spec fn datas_of(q: Seq<Queued>) -> Seq<TrackUserData> {
    q.map_values(|e: Queued| e.data)
}

/// What completion handling reported back.
#[derive(Debug, PartialEq, Eq, Structural)]
pub enum CompletionOutcome {
    /// The event was for an entry that is no longer the front: nothing changed.
    Stale,
    /// The front entry was retired and the queue is now empty.
    Finished,
    /// The front entry was retired and the entry with this identity is the
    /// new front, marked playing; the caller should start it on the player.
    Activated(u64),
}

/// The state guarded by one queue's lock: the ordered entries and the
/// history ring of retired tracks.
#[derive(Debug)]
pub struct TrackQueueCore {
    pub queued_tracks: Vec<Queued>,
    pub history: History,
}

impl TrackQueueCore {
    /// The ordered entries.
    pub open spec fn queue(&self) -> Seq<Queued> {
        self.queued_tracks@
    }

    /// The retired metadata, oldest first.
    pub open spec fn hist(&self) -> Seq<TrackUserData> {
        self.history@
    }

    /// The history ring's capacity.
    pub open spec fn cap(&self) -> nat {
        self.history.capacity()
    }

    /// Every entry behind the front is paused, and the history ring is within
    /// its capacity. The front itself may be playing or paused.
    pub open spec fn wf(&self) -> bool {
        &&& forall|i: int| 1 <= i < self.queue().len() ==> !self.queue()[i].playing
        &&& self.history.wf()
    }

    /// Create an empty core whose history retains `history_capacity` entries.
    pub fn new(history_capacity: usize) -> (r: Self)
        ensures
            r.queue() == Seq::<Queued>::empty(),
            r.hist() == Seq::<TrackUserData>::empty(),
            r.cap() == history_capacity,
            r.wf(),
    {
        TrackQueueCore { queued_tracks: Vec::new(), history: History::new(history_capacity) }
    }

    /// Append one entry; it starts playing exactly when the queue was empty.
    pub fn add_track(&mut self, uuid: u64, data: TrackUserData) -> (started: bool)
        requires
            old(self).wf(),
        ensures
            final(self).wf(),
            final(self).queue() == add_model(old(self).queue(), uuid, data),
            final(self).hist() == old(self).hist(),
            final(self).cap() == old(self).cap(),
            started == (old(self).queue().len() == 0),
    {
        let playing = self.queued_tracks.len() == 0;
        self.queued_tracks.push(Queued { uuid, playing, data });
        playing
    }

    /// The front entry's playing state becomes `playing`; a no-op on an
    /// empty queue.
    fn set_front_playing(&mut self, playing: bool)
        requires
            old(self).wf(),
        ensures
            final(self).wf(),
            old(self).queue().len() == 0 ==> final(self).queue() == old(self).queue(),
            old(self).queue().len() > 0 ==> final(self).queue() == old(self).queue().update(
                0,
                set_playing(old(self).queue()[0], playing),
            ),
            final(self).hist() == old(self).hist(),
            final(self).cap() == old(self).cap(),
    {
        if self.queued_tracks.len() > 0 {
            let mut front = self.queued_tracks[0].clone();
            front.playing = playing;
            self.queued_tracks.set(0, front);
        }
    }

    /// Pause the front entry; a no-op on an empty queue.
    pub fn pause(&mut self)
        requires
            old(self).wf(),
        ensures
            final(self).wf(),
            old(self).queue().len() == 0 ==> final(self).queue() == old(self).queue(),
            old(self).queue().len() > 0 ==> final(self).queue() == old(self).queue().update(
                0,
                set_playing(old(self).queue()[0], false),
            ),
            final(self).hist() == old(self).hist(),
            final(self).cap() == old(self).cap(),
    {
        self.set_front_playing(false);
    }

    /// Resume the front entry; a no-op on an empty queue.
    pub fn resume(&mut self)
        requires
            old(self).wf(),
        ensures
            final(self).wf(),
            old(self).queue().len() == 0 ==> final(self).queue() == old(self).queue(),
            old(self).queue().len() > 0 ==> final(self).queue() == activate_front(
                old(self).queue(),
            ),
            final(self).hist() == old(self).hist(),
            final(self).cap() == old(self).cap(),
    {
        self.set_front_playing(true);
    }

    /// Remove every entry without recording any of them in the history: an
    /// abort, not a completion. The removed entries are returned in order so
    /// the caller can stop them on the player.
    pub fn drain(&mut self) -> (removed: Vec<Queued>)
        requires
            old(self).wf(),
        ensures
            final(self).wf(),
            removed@ == old(self).queue(),
            final(self).queue() == Seq::<Queued>::empty(),
            final(self).hist() == old(self).hist(),
            final(self).cap() == old(self).cap(),
    {
        let mut removed: Vec<Queued> = Vec::new();
        core::mem::swap(&mut self.queued_tracks, &mut removed);
        removed
    }

    /// Remove the entry at `index` without adding it to the history.
    pub fn dequeue(&mut self, index: usize) -> (r: Option<Queued>)
        requires
            old(self).wf(),
        ensures
            final(self).wf(),
            index >= old(self).queue().len() ==> r is None && final(self).queue() == old(
                self,
            ).queue(),
            index < old(self).queue().len() ==> r == Some(old(self).queue()[index as int])
                && final(self).queue() == old(self).queue().remove(index as int),
            final(self).hist() == old(self).hist(),
            final(self).cap() == old(self).cap(),
    {
        if index < self.queued_tracks.len() {
            let e = self.queued_tracks.remove(index);
            Some(e)
        } else {
            None
        }
    }

    /// A cloned handle to the front entry, if any.
    pub fn current(&self) -> (r: Option<Queued>)
        ensures
            self.queue().len() == 0 ==> r is None,
            self.queue().len() > 0 ==> r == Some(self.queue()[0]),
    {
        if self.queued_tracks.len() > 0 {
            Some(self.queued_tracks[0].handle())
        } else {
            None
        }
    }

    /// Cloned handles to every entry, in queue order.
    pub fn current_queue(&self) -> (r: Vec<Queued>)
        ensures
            r@ == self.queue(),
    {
        let mut out: Vec<Queued> = Vec::new();
        let mut i: usize = 0;
        while i < self.queued_tracks.len()
            invariant
                i <= self.queue().len(),
                out@ == self.queue().take(i as int),
            decreases self.queue().len() - i,
        {
            out.push(self.queued_tracks[i].handle());
            proof {
                assert(out@ =~= self.queue().take(i + 1));
            }
            i = i + 1;
        }
        proof {
            assert(self.queue().take(self.queue().len() as int) =~= self.queue());
        }
        out
    }

    /// The number of queued entries.
    pub fn len(&self) -> (r: usize)
        ensures
            r == self.queue().len(),
    {
        self.queued_tracks.len()
    }

    /// Is the queue empty?
    pub fn is_empty(&self) -> (r: bool)
        ensures
            r == (self.queue().len() == 0),
    {
        self.queued_tracks.len() == 0
    }

    /// The identity of the entry to prepare ahead of time: the second entry,
    /// if one exists. Lookahead never mutates the queue.
    pub fn preload_candidate(&self) -> (r: Option<u64>)
        ensures
            self.queue().len() >= 2 ==> r == Some(self.queue()[1].uuid),
            self.queue().len() < 2 ==> r is None,
    {
        if self.queued_tracks.len() >= 2 {
            Some(self.queued_tracks[1].uuid)
        } else {
            None
        }
    }

    /// Handle a completion event for the entry with identity `uuid`. If that
    /// entry is not the current front the event is stale and nothing changes.
    /// Otherwise the front is retired into the history ring and the new
    /// front, if any, is marked playing.
    pub fn on_track_end(&mut self, uuid: u64) -> (r: CompletionOutcome)
        requires
            old(self).wf(),
        ensures
            final(self).wf(),
            final(self).cap() == old(self).cap(),
            (old(self).queue().len() == 0 || old(self).queue()[0].uuid != uuid)
                ==> final(self).queue() == old(self).queue() && final(self).hist() == old(
                self,
            ).hist() && r == CompletionOutcome::Stale,
            (old(self).queue().len() > 0 && old(self).queue()[0].uuid == uuid) ==> {
                &&& final(self).queue() == activate_front(old(self).queue().drop_first())
                &&& final(self).hist() == ring_insert(
                    old(self).hist(),
                    old(self).cap(),
                    old(self).queue()[0].data,
                )
                &&& r == if final(self).queue().len() == 0 {
                    CompletionOutcome::Finished
                } else {
                    CompletionOutcome::Activated(final(self).queue()[0].uuid)
                }
            },
    {
        if self.queued_tracks.len() == 0 {
            return CompletionOutcome::Stale;
        }
        if self.queued_tracks[0].uuid != uuid {
            return CompletionOutcome::Stale;
        }
        let front = self.queued_tracks.remove(0);
        proof {
            assert(self.queued_tracks@ =~= old(self).queue().drop_first());
        }
        self.history.add(front.data);
        if self.queued_tracks.len() == 0 {
            CompletionOutcome::Finished
        } else {
            let mut nf = self.queued_tracks[0].clone();
            nf.playing = true;
            let id = nf.uuid;
            self.queued_tracks.set(0, nf);
            CompletionOutcome::Activated(id)
        }
    }

    /// Discard a front entry that could not be activated, without recording
    /// it in the history, and mark the next entry, if any, playing. Returns
    /// the identity of the newly activated front.
    pub fn discard_front(&mut self) -> (r: Option<u64>)
        requires
            old(self).wf(),
        ensures
            final(self).wf(),
            final(self).hist() == old(self).hist(),
            final(self).cap() == old(self).cap(),
            old(self).queue().len() == 0 ==> r is None && final(self).queue() == old(self).queue(),
            old(self).queue().len() > 0 ==> {
                &&& final(self).queue() == activate_front(old(self).queue().drop_first())
                &&& r == if final(self).queue().len() == 0 {
                    None::<u64>
                } else {
                    Some(final(self).queue()[0].uuid)
                }
            },
    {
        if self.queued_tracks.len() == 0 {
            return None;
        }
        let _ = self.queued_tracks.remove(0);
        proof {
            assert(self.queued_tracks@ =~= old(self).queue().drop_first());
        }
        if self.queued_tracks.len() == 0 {
            None
        } else {
            let mut nf = self.queued_tracks[0].clone();
            nf.playing = true;
            let id = nf.uuid;
            self.queued_tracks.set(0, nf);
            Some(id)
        }
    }

    /// Retire up to `n` entries from the front of the queue, recording each
    /// in the history exactly as natural completion would, and mark the new
    /// front, if any, playing. The removed entries are returned in order.
    pub fn skip(&mut self, n: usize) -> (removed: Vec<Queued>)
        requires
            old(self).wf(),
        ensures
            final(self).wf(),
            final(self).cap() == old(self).cap(),
            ({
                let len = old(self).queue().len() as int;
                let k = if n <= len {
                    n as int
                } else {
                    len
                };
                &&& removed@ == old(self).queue().take(k)
                &&& removed@.len() == k
                &&& final(self).queue() == activate_front(old(self).queue().skip(k))
                &&& final(self).queue().len() == len - k
                &&& final(self).queue().len() > 0 ==> final(self).queue()[0].playing
                &&& final(self).hist() == ring_insert_all(
                    old(self).hist(),
                    old(self).cap(),
                    datas_of(old(self).queue().take(k)),
                )
                &&& old(self).cap() > 0 ==> final(self).hist().len() == if old(self).hist().len()
                    + k <= old(self).cap() {
                    old(self).hist().len() + k
                } else {
                    old(self).cap() as int
                }
            }),
    {
        let ghost q0 = self.queue();
        let ghost h0 = self.hist();
        let ghost cap0 = self.cap();
        let mut removed: Vec<Queued> = Vec::new();
        let mut i: usize = 0;
        while i < n && self.queued_tracks.len() > 0
            invariant
                self.wf(),
                i <= n,
                i <= q0.len(),
                removed@ == q0.take(i as int),
                self.queue() == q0.skip(i as int),
                self.hist() == ring_insert_all(h0, cap0, datas_of(q0.take(i as int))),
                self.cap() == cap0,
                h0.len() <= cap0,
            decreases n - i,
        {
            let front = self.queued_tracks.remove(0);
            self.history.add(front.data.clone());
            removed.push(front);
            proof {
                assert(self.queued_tracks@ =~= q0.skip(i + 1));
                assert(removed@ =~= q0.take(i + 1));
                assert(datas_of(q0.take(i + 1)) =~= datas_of(q0.take(i as int)).push(
                    q0[i as int].data,
                ));
                crate::history::lemma_ring_insert_all_push(
                    h0,
                    cap0,
                    datas_of(q0.take(i as int)),
                    q0[i as int].data,
                );
            }
            i = i + 1;
        }
        self.set_front_playing(true);
        proof {
            let len = q0.len() as int;
            let k = if n <= len {
                n as int
            } else {
                len
            };
            assert(i == k);
            crate::history::lemma_ring_insert_all_len(h0, cap0, datas_of(q0.take(k)));
        }
        removed
    }

    /// Swap the entries at positions `i` and `j`, both behind the front.
    fn swap_entries(&mut self, i: usize, j: usize)
        requires
            old(self).wf(),
            1 <= j <= i < old(self).queue().len(),
        ensures
            final(self).wf(),
            final(self).queue() == old(self).queue().update(
                i as int,
                old(self).queue()[j as int],
            ).update(j as int, old(self).queue()[i as int]),
            final(self).hist() == old(self).hist(),
            final(self).cap() == old(self).cap(),
    {
        let mut tmp = self.queued_tracks[j].clone();
        self.queued_tracks.set_and_swap(i, &mut tmp);
        self.queued_tracks.set(j, tmp);
    }

    /// Put the entries behind the front in a uniformly random order; the
    /// front entry itself, possibly playing, is never moved. This is a
    /// Fisher-Yates walk over positions `[1, len)`, pairing each position
    /// with a uniformly random position no further back in that range.
    pub fn shuffle(&mut self)
        requires
            old(self).wf(),
        ensures
            final(self).wf(),
            final(self).cap() == old(self).cap(),
            final(self).hist() == old(self).hist(),
            final(self).queue().len() == old(self).queue().len(),
            old(self).queue().len() > 0 ==> final(self).queue()[0] == old(self).queue()[0],
            final(self).queue().to_multiset() == old(self).queue().to_multiset(),
            final(self).queue().skip(1).to_multiset() == old(self).queue().skip(1).to_multiset(),
    {
        let ghost q0 = self.queue();
        if self.queued_tracks.len() < 3 {
            return ;
        }
        let mut i: usize = self.queued_tracks.len() - 1;
        while i >= 2
            invariant
                self.wf(),
                1 <= i < self.queue().len(),
                self.queue().len() == q0.len(),
                self.queue()[0] == q0[0],
                self.queue().to_multiset() == q0.to_multiset(),
                self.queue().skip(1).to_multiset() == q0.skip(1).to_multiset(),
                self.hist() == old(self).hist(),
                self.cap() == old(self).cap(),
            decreases i,
        {
            let j = random_index(1, i);
            let ghost s = self.queue();
            self.swap_entries(i, j);
            proof {
                lemma_swap_preserves_multiset(s, i as int, j as int);
                assert(s.skip(1)[j - 1] == s[j as int]);
                assert(s.skip(1)[i - 1] == s[i as int]);
                assert(self.queue().skip(1) =~= s.skip(1).update(i - 1, s[j as int]).update(
                    j - 1,
                    s[i as int],
                ));
                lemma_swap_preserves_multiset(s.skip(1), i - 1, j - 1);
            }
            i = i - 1;
        }
    }

    /// A copy of the retired metadata, oldest first.
    pub fn history_list(&self) -> (r: Vec<TrackUserData>)
        ensures
            r@ == self.hist(),
    {
        self.history.list()
    }

    /// The metadata of the `n`-th retired track, oldest first.
    pub fn previous(&self, n: usize) -> (r: Option<TrackUserData>)
        ensures
            n >= self.hist().len() ==> r is None,
            n < self.hist().len() ==> r == Some(self.hist()[n as int]),
    {
        match self.history.peek(n) {
            Some(d) => Some(d.clone()),
            None => None,
        }
    }
}

/// Relies on rand::random_range: a uniformly distributed value inside the
/// given inclusive range; it panics only when the range is empty.
#[verifier::external_body]
fn random_index(lo: usize, hi: usize) -> (r: usize)
    requires
        lo <= hi,
    ensures
        lo <= r <= hi,
{
    rand::random_range(lo..=hi)
}

/// Swapping two positions of a sequence leaves its multiset of elements
/// unchanged.
pub proof fn lemma_swap_preserves_multiset(s: Seq<Queued>, i: int, j: int)
    requires
        0 <= j <= i < s.len(),
    ensures
        s.update(i, s[j]).update(j, s[i]).to_multiset() == s.to_multiset(),
{
    broadcast use vstd::seq_lib::to_multiset_update;
    broadcast use vstd::seq_lib::to_multiset_contains;
    broadcast use vstd::multiset::group_multiset_axioms;
    broadcast use vstd::multiset::group_multiset_properties;

    if i == j {
        assert(s.update(i, s[j]).update(j, s[i]) =~= s);
    } else {
        let s1 = s.update(i, s[j]);
        let s2 = s1.update(j, s[i]);
        assert(s.contains(s[i]));
        assert(s.contains(s[j]));
        assert(s.to_multiset().count(s[i]) > 0);
        assert(s.to_multiset().count(s[j]) > 0);
        assert(s1.to_multiset() == s.to_multiset().insert(s[j]).remove(s[i]));
        assert(s1[j] == s[j]);
        assert(s2.to_multiset() == s1.to_multiset().insert(s[i]).remove(s[j]));
        assert(s2.to_multiset() =~= s.to_multiset());
    }
}

/// A queue after a whole sequence of enqueues, first to last.
pub open spec fn add_all(q: Seq<Queued>, entries: Seq<(u64, TrackUserData)>) -> Seq<Queued>
    decreases entries.len(),
{
    if entries.len() == 0 {
        q
    } else {
        add_all(add_model(q, entries[0].0, entries[0].1), entries.drop_first())
    }
}

/// A sequence of enqueues appends its entries in order, leaving earlier
/// entries untouched; an appended entry is playing exactly when it landed at
/// the front of a queue that was empty.
pub proof fn lemma_add_all_shape(q: Seq<Queued>, entries: Seq<(u64, TrackUserData)>)
    ensures
        add_all(q, entries).len() == q.len() + entries.len(),
        forall|i: int| 0 <= i < q.len() ==> add_all(q, entries)[i] == q[i],
        forall|i: int|
            0 <= i < entries.len() ==> add_all(q, entries)[q.len() + i] == (Queued {
                uuid: entries[i].0,
                playing: q.len() + i == 0,
                data: entries[i].1,
            }),
    decreases entries.len(),
{
    if entries.len() > 0 {
        let q2 = add_model(q, entries[0].0, entries[0].1);
        lemma_add_all_shape(q2, entries.drop_first());
        assert(add_all(q, entries) == add_all(q2, entries.drop_first()));
        assert forall|i: int| 0 <= i < q.len() implies add_all(q, entries)[i] == q[i] by {
            assert(add_all(q2, entries.drop_first())[i] == q2[i]);
            assert(q2[i] == q[i]);
        }
        assert forall|i: int| 0 <= i < entries.len() implies add_all(q, entries)[q.len() + i]
            == (Queued {
            uuid: entries[i].0,
            playing: q.len() + i == 0,
            data: entries[i].1,
        }) by {
            if i == 0 {
                assert(add_all(q, entries)[q.len() as int] == q2[q.len() as int]);
            } else {
                assert(entries.drop_first()[i - 1] == entries[i]);
                assert(add_all(q2, entries.drop_first())[q2.len() + (i - 1)] == (Queued {
                    uuid: entries.drop_first()[i - 1].0,
                    playing: q2.len() + (i - 1) == 0,
                    data: entries.drop_first()[i - 1].1,
                }));
            }
        }
    }
}

impl Default for TrackQueueCore {
    fn default() -> (r: Self)
        ensures
            r.queue() == Seq::<Queued>::empty(),
            r.hist() == Seq::<TrackUserData>::empty(),
            r.cap() == 50,
            r.wf(),
    {
        TrackQueueCore::new(50)
    }
}

/// Metadata for a track found on a remote search: a missing title is
/// reported as "Unknown track" and a missing source URL as the empty string.
pub fn youtube_data(title: Option<String>, url: Option<String>) -> (r: TrackUserData)
    ensures
        (match r {
            TrackUserData::Youtube { title: rt, url: ru } => {
                &&& rt@ == (match title {
                    Some(t) => t@,
                    None => "Unknown track"@,
                })
                &&& ru@ == (match url {
                    Some(u) => u@,
                    None => Seq::<char>::empty(),
                })
            },
            _ => false,
        }),
{
    let t = match title {
        Some(t) => t,
        None => "Unknown track".to_owned(),
    };
    let u = match url {
        Some(u) => u,
        None => String::new(),
    };
    TrackUserData::Youtube { title: t, url: u }
}

/// When to fire the lookahead callback, measured from the track's start: the
/// expected duration less the preload margin, clamped to zero, or nothing
/// when the duration is unknown.
pub fn preload_offset_ms(duration_ms: Option<u64>) -> (r: Option<u64>)
    ensures
        (match duration_ms {
            Some(d) => r == Some(
                if d >= PRELOAD_MARGIN_MS {
                    (d - PRELOAD_MARGIN_MS) as u64
                } else {
                    0u64
                },
            ),
            None => r is None,
        }),
{
    match duration_ms {
        Some(d) => Some(
            if d >= PRELOAD_MARGIN_MS {
                d - PRELOAD_MARGIN_MS
            } else {
                0
            },
        ),
        None => None,
    }
}

/// The lock predicate of a queue: whatever state rests in the lock is well
/// formed.
pub struct QueuePred {}

impl RwLockPredicate<TrackQueueCore> for QueuePred {
    open spec fn inv(self, v: TrackQueueCore) -> bool {
        v.wf()
    }
}

/// A shared handle to one channel's queue. Every operation, whether a user
/// command or a lifecycle callback, takes the queue's exclusive lock for its
/// whole logical step, so each sees and leaves a well-formed state; the lock
/// is released before any call back into the external player.
pub struct TrackQueue {
    inner: RwLock<TrackQueueCore, QueuePred>,
}

impl TrackQueue {
    /// Create a new track queue whose history retains `history_capacity`
    /// entries.
    pub fn new(history_capacity: usize) -> TrackQueue {
        TrackQueue {
            inner: RwLock::new(TrackQueueCore::new(history_capacity), Ghost(QueuePred {})),
        }
    }

    /// Append one entry under the lock; in the same critical section the
    /// entry is marked playing when the queue was empty, so two concurrent
    /// enqueues can never both observe an empty queue and start twice.
    /// Returns whether the caller should start the entry on the player.
    pub fn add_track(&self, uuid: u64, data: TrackUserData) -> bool {
        let (mut core, handle) = self.inner.acquire_write();
        let started = core.add_track(uuid, data);
        handle.release_write(core);
        started
    }

    /// A cloned handle to the currently fronted entry, if any.
    pub fn current(&self) -> Option<Queued> {
        let handle = self.inner.acquire_read();
        let r = handle.borrow().current();
        handle.release_read();
        r
    }

    /// Remove the entry at `index` without adding it to the history.
    pub fn dequeue(&self, index: usize) -> Option<Queued> {
        let (mut core, handle) = self.inner.acquire_write();
        let r = core.dequeue(index);
        handle.release_write(core);
        r
    }

    /// The number of queued entries at the moment the lock was held.
    pub fn len(&self) -> usize {
        let handle = self.inner.acquire_read();
        let r = handle.borrow().len();
        handle.release_read();
        r
    }

    /// Was the queue empty at the moment the lock was held?
    pub fn is_empty(&self) -> bool {
        let handle = self.inner.acquire_read();
        let r = handle.borrow().is_empty();
        handle.release_read();
        r
    }

    /// Pause the front entry; a no-op on an empty queue. The caller issues
    /// the matching transport pause after the lock is released.
    pub fn pause(&self) {
        let (mut core, handle) = self.inner.acquire_write();
        core.pause();
        handle.release_write(core);
    }

    /// Resume the front entry; a no-op on an empty queue. The caller issues
    /// the matching transport play after the lock is released.
    pub fn resume(&self) {
        let (mut core, handle) = self.inner.acquire_write();
        core.resume();
        handle.release_write(core);
    }

    /// Remove every entry without recording any in the history; the removed
    /// entries are returned so the caller can stop each on the player.
    pub fn clear(&self) -> Vec<Queued> {
        let (mut core, handle) = self.inner.acquire_write();
        let removed = core.drain();
        handle.release_write(core);
        removed
    }

    /// Stop the queue: drain every entry, handing them back for the caller
    /// to stop on the player. Aborted entries are not recorded in the
    /// history; only natural or skipped completions are.
    pub fn stop(&self) -> Vec<Queued> {
        let (mut core, handle) = self.inner.acquire_write();
        let removed = core.drain();
        handle.release_write(core);
        removed
    }

    /// Retire up to `n` front entries exactly as natural completion would:
    /// each lands in the history and the new front is marked playing. The
    /// removed entries are returned for the caller to stop on the player.
    pub fn skip(&self, n: usize) -> Vec<Queued> {
        let (mut core, handle) = self.inner.acquire_write();
        let removed = core.skip(n);
        handle.release_write(core);
        removed
    }

    /// Cloned handles to every entry, in queue order. In any snapshot only
    /// the front entry can be playing.
    pub fn current_queue(&self) -> (r: Vec<Queued>)
        ensures
            forall|i: int| 1 <= i < r@.len() ==> !r@[i].playing,
    {
        let handle = self.inner.acquire_read();
        let r = handle.borrow().current_queue();
        handle.release_read();
        r
    }

    /// A copy of the retired metadata, oldest first.
    pub fn history(&self) -> Vec<TrackUserData> {
        let handle = self.inner.acquire_read();
        let r = handle.borrow().history_list();
        handle.release_read();
        r
    }

    /// The metadata of the `n`-th retired track, oldest first.
    pub fn previous(&self, n: usize) -> Option<TrackUserData> {
        let handle = self.inner.acquire_read();
        let r = handle.borrow().previous(n);
        handle.release_read();
        r
    }

    /// Put the entries behind the front in a uniformly random order; the
    /// front entry, which may be playing, never moves.
    pub fn shuffle(&self) {
        let (mut core, handle) = self.inner.acquire_write();
        core.shuffle();
        handle.release_write(core);
    }

    /// Handle a completion event for the entry with identity `uuid`; stale
    /// events, for an entry no longer at the front, change nothing. The
    /// caller starts the activated entry on the player, and on failure
    /// discards it with [`TrackQueue::discard_front`] and tries the next.
    pub fn on_track_end(&self, uuid: u64) -> CompletionOutcome {
        let (mut core, handle) = self.inner.acquire_write();
        let r = core.on_track_end(uuid);
        handle.release_write(core);
        r
    }

    /// Discard a front entry that could not be activated, without recording
    /// it in the history; returns the identity of the next entry to try.
    pub fn discard_front(&self) -> Option<u64> {
        let (mut core, handle) = self.inner.acquire_write();
        let r = core.discard_front();
        handle.release_write(core);
        r
    }

    /// The identity of the entry the lookahead callback should prepare: the
    /// second entry, if one exists. Never mutates the queue, so a stale
    /// lookahead firing is harmless.
    pub fn on_lookahead(&self) -> Option<u64> {
        let handle = self.inner.acquire_read();
        let r = handle.borrow().preload_candidate();
        handle.release_read();
        r
    }
}

/// For all sequences of enqueue operations on an empty queue, the first
/// enqueued entry is the one that transitions to playing and all later
/// entries remain paused, in enqueue order.
pub proof fn lemma_first_enqueued_plays(entries: Seq<(u64, TrackUserData)>)
    ensures
        ({
            let q = add_all(Seq::<Queued>::empty(), entries);
            &&& q.len() == entries.len()
            &&& forall|i: int|
                0 <= i < q.len() ==> q[i].uuid == entries[i].0 && q[i].data == entries[i].1
            &&& forall|i: int| 0 <= i < q.len() ==> (q[i].playing <==> i == 0)
        }),
{
    let q = add_all(Seq::<Queued>::empty(), entries);
    lemma_add_all_shape(Seq::<Queued>::empty(), entries);
    assert forall|i: int| 0 <= i < q.len() implies q[i].uuid == entries[i].0 && q[i].data
        == entries[i].1 && (q[i].playing <==> i == 0) by {
        assert(q[0 + i] == (Queued {
            uuid: entries[i].0,
            playing: 0 + i == 0,
            data: entries[i].1,
        }));
    }
}

} // verus!
