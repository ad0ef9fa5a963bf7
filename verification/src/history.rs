//! Bounded FIFO history of track metadata: once the ring is full, the oldest
//! entry is evicted to make room for the newest.

use vstd::prelude::*;

verus! {

/// Records the source a track was built from, together with what a user
/// would want displayed about it.
#[derive(Debug)]
pub enum TrackUserData {
    Youtube { title: String, url: String },
    Attachment { title: String, attachment_url: String },
    HttpStream { url: String },
}

impl PartialEq for TrackUserData {
    fn eq(&self, other: &Self) -> (r: bool) {
        match (self, other) {
            (
                TrackUserData::Youtube { title, url },
                TrackUserData::Youtube { title: t2, url: u2 },
            ) => *title == *t2 && *url == *u2,
            (
                TrackUserData::Attachment { title, attachment_url },
                TrackUserData::Attachment { title: t2, attachment_url: u2 },
            ) => *title == *t2 && *attachment_url == *u2,
            (
                TrackUserData::HttpStream { url },
                TrackUserData::HttpStream { url: u2 },
            ) => *url == *u2,
            _ => false,
        }
    }
}

impl vstd::std_specs::cmp::PartialEqSpecImpl for TrackUserData {
    open spec fn obeys_eq_spec() -> bool {
        true
    }

    open spec fn eq_spec(&self, other: &Self) -> bool {
        match (self, other) {
            (
                TrackUserData::Youtube { title, url },
                TrackUserData::Youtube { title: t2, url: u2 },
            ) => title@ == t2@ && url@ == u2@,
            (
                TrackUserData::Attachment { title, attachment_url },
                TrackUserData::Attachment { title: t2, attachment_url: u2 },
            ) => title@ == t2@ && attachment_url@ == u2@,
            (
                TrackUserData::HttpStream { url },
                TrackUserData::HttpStream { url: u2 },
            ) => url@ == u2@,
            _ => false,
        }
    }
}

impl Clone for TrackUserData {
    fn clone(&self) -> (res: Self)
        ensures
            res == *self,
    {
        match self {
            TrackUserData::Youtube { title, url } => TrackUserData::Youtube {
                title: title.clone(),
                url: url.clone(),
            },
            TrackUserData::Attachment { title, attachment_url } => TrackUserData::Attachment {
                title: title.clone(),
                attachment_url: attachment_url.clone(),
            },
            TrackUserData::HttpStream { url } => TrackUserData::HttpStream { url: url.clone() },
        }
    }
}

/// What one insertion does to the ring's contents: a full ring loses its
/// oldest entry, a ring of capacity zero keeps nothing.
pub open spec fn ring_insert(
    h: Seq<TrackUserData>,
    cap: nat,
    data: TrackUserData,
) -> Seq<TrackUserData> {
    if cap == 0 {
        h
    } else if h.len() >= cap {
        h.drop_first().push(data)
    } else {
        h.push(data)
    }
}

/// A fixed-capacity buffer holding data about the most recently retired
/// tracks of a single queue. The default capacity is 50.
#[derive(Debug)]
pub struct History {
    tracks: Vec<TrackUserData>,
    capacity: usize,
}

impl View for History {
    type V = Seq<TrackUserData>;

    closed spec fn view(&self) -> Seq<TrackUserData> {
        self.tracks@
    }
}

impl History {
    /// The number of entries the ring retains before evicting.
    pub closed spec fn capacity(&self) -> nat {
        self.capacity as nat
    }

    /// The ring never holds more entries than its capacity.
    pub open spec fn wf(&self) -> bool {
        self@.len() <= self.capacity()
    }

    /// Creates a new track history.
    pub fn new(capacity: usize) -> (r: Self)
        ensures
            r@ == Seq::<TrackUserData>::empty(),
            r.capacity() == capacity,
            r.wf(),
    {
        Self { tracks: Vec::with_capacity(capacity), capacity }
    }

    /// Add info about a track into the track data.
    pub fn add(&mut self, data: TrackUserData)
        requires
            old(self).wf(),
        ensures
            final(self)@ == ring_insert(old(self)@, old(self).capacity(), data),
            final(self).capacity() == old(self).capacity(),
            final(self).wf(),
    {
        if self.capacity == 0 {
            return ;
        }
        if self.tracks.len() >= self.capacity {
            let _ = self.tracks.remove(0);
            proof {
                assert(self.tracks@ =~= old(self)@.drop_first());
            }
        }
        self.tracks.push(data);
    }

    /// Take the oldest entry out of the history.
    pub fn remove(&mut self) -> (r: Option<TrackUserData>)
        ensures
            old(self)@.len() == 0 ==> r is None && final(self)@ == old(self)@,
            old(self)@.len() > 0 ==> r == Some(old(self)@[0]) && final(self)@ == old(
                self,
            )@.drop_first(),
            final(self).capacity() == old(self).capacity(),
    {
        if self.tracks.len() == 0 {
            None
        } else {
            let r = self.tracks.remove(0);
            proof {
                assert(self.tracks@ =~= old(self)@.drop_first());
            }
            Some(r)
        }
    }

    /// Take the `n`-th entry out of the history, oldest first.
    pub fn nth(&mut self, n: usize) -> (r: Option<TrackUserData>)
        ensures
            n >= old(self)@.len() ==> r is None && final(self)@ == old(self)@,
            n < old(self)@.len() ==> r == Some(old(self)@[n as int]) && final(self)@ == old(
                self,
            )@.remove(n as int),
            final(self).capacity() == old(self).capacity(),
    {
        if n < self.tracks.len() {
            Some(self.tracks.remove(n))
        } else {
            None
        }
    }

    /// Read the `n`-th entry, oldest first, without removing it.
    pub fn peek(&self, n: usize) -> (r: Option<&TrackUserData>)
        ensures
            n >= self@.len() ==> r is None,
            n < self@.len() ==> r == Some(&self@[n as int]),
    {
        if n < self.tracks.len() {
            Some(&self.tracks[n])
        } else {
            None
        }
    }

    /// Return a vector of cloned entries, oldest first.
    pub fn list(&self) -> (r: Vec<TrackUserData>)
        ensures
            r@ == self@,
    {
        let mut out: Vec<TrackUserData> = Vec::new();
        let mut i: usize = 0;
        while i < self.tracks.len()
            invariant
                i <= self.tracks@.len(),
                out@ == self.tracks@.take(i as int),
            decreases self.tracks@.len() - i,
        {
            out.push(self.tracks[i].clone());
            proof {
                assert(out@ =~= self.tracks@.take(i + 1));
            }
            i = i + 1;
        }
        proof {
            assert(self.tracks@.take(self.tracks@.len() as int) =~= self.tracks@);
        }
        out
    }
}

impl Default for History {
    fn default() -> (r: Self)
        ensures
            r@ == Seq::<TrackUserData>::empty(),
            r.capacity() == 50,
            r.wf(),
    {
        History::new(50)
    }
}

/// The ring's contents after a whole sequence of insertions, first to last.
pub open spec fn ring_insert_all(
    h: Seq<TrackUserData>,
    cap: nat,
    data: Seq<TrackUserData>,
) -> Seq<TrackUserData>
    decreases data.len(),
{
    if data.len() == 0 {
        h
    } else {
        ring_insert_all(ring_insert(h, cap, data[0]), cap, data.drop_first())
    }
}

/// Inserting one more entry after a whole sequence of insertions is the same
/// as extending the sequence by that entry.
pub proof fn lemma_ring_insert_all_push(
    h: Seq<TrackUserData>,
    cap: nat,
    data: Seq<TrackUserData>,
    d: TrackUserData,
)
    ensures
        ring_insert_all(h, cap, data.push(d)) == ring_insert(ring_insert_all(h, cap, data), cap, d),
    decreases data.len(),
{
    if data.len() == 0 {
        assert(data.push(d)[0] == d);
        assert(data.push(d).drop_first() =~= Seq::<TrackUserData>::empty());
        assert(ring_insert_all(ring_insert(h, cap, d), cap, Seq::<TrackUserData>::empty())
            == ring_insert(h, cap, d));
    } else {
        assert(data.push(d)[0] == data[0]);
        assert(data.push(d).drop_first() =~= data.drop_first().push(d));
        lemma_ring_insert_all_push(ring_insert(h, cap, data[0]), cap, data.drop_first(), d);
        assert(ring_insert_all(h, cap, data.push(d)) == ring_insert_all(
            ring_insert(h, cap, data[0]),
            cap,
            data.drop_first().push(d),
        ));
        assert(ring_insert_all(h, cap, data) == ring_insert_all(
            ring_insert(h, cap, data[0]),
            cap,
            data.drop_first(),
        ));
    }
}

/// How many entries the ring holds after a sequence of insertions: all of
/// them, up to the capacity.
pub proof fn lemma_ring_insert_all_len(h: Seq<TrackUserData>, cap: nat, data: Seq<TrackUserData>)
    requires
        h.len() <= cap,
    ensures
        cap == 0 ==> ring_insert_all(h, cap, data).len() == h.len(),
        cap > 0 ==> ring_insert_all(h, cap, data).len() == if h.len() + data.len() <= cap {
            (h.len() + data.len()) as int
        } else {
            cap as int
        },
    decreases data.len(),
{
    if data.len() > 0 {
        lemma_ring_insert_all_len(ring_insert(h, cap, data[0]), cap, data.drop_first());
    }
}

/// The History Ring never exceeds its configured capacity, however many
/// entries are inserted.
pub proof fn lemma_history_ring_bounded(h: Seq<TrackUserData>, cap: nat, data: Seq<TrackUserData>)
    requires
        h.len() <= cap,
    ensures
        ring_insert_all(h, cap, data).len() <= cap,
    decreases data.len(),
{
    if data.len() > 0 {
        lemma_history_ring_bounded(ring_insert(h, cap, data[0]), cap, data.drop_first());
    }
}

/// After inserting at least `cap` entries into a ring holding `h`, the ring
/// holds exactly the last `cap` of all entries seen, in insertion order. With
/// `h` empty this is the law that inserting `cap + k` items leaves precisely
/// the last `cap` of them.
pub proof fn lemma_history_ring_retains_latest(
    h: Seq<TrackUserData>,
    cap: nat,
    data: Seq<TrackUserData>,
)
    requires
        0 < cap,
        h.len() <= cap,
        h.len() + data.len() >= cap,
    ensures
        ring_insert_all(h, cap, data) == (h + data).subrange(
            h.len() + data.len() - cap,
            (h.len() + data.len()) as int,
        ),
    decreases data.len(),
{
    let all = h + data;
    let total = h.len() + data.len();
    if data.len() == 0 {
        assert(ring_insert_all(h, cap, data) == h);
        assert(all.subrange(total - cap, total as int) =~= h);
    } else {
        let d = data[0];
        let h2 = ring_insert(h, cap, d);
        if h.len() >= cap {
            assert(h.len() == cap);
            assert(h2 =~= h.drop_first().push(d));
            lemma_history_ring_retains_latest(h2, cap, data.drop_first());
            assert(h2 + data.drop_first() =~= all.drop_first());
            let t2 = h2.len() + data.len() - 1;
            assert(ring_insert_all(h, cap, data) == all.drop_first().subrange(
                t2 - cap,
                t2 as int,
            ));
            assert(all.drop_first().subrange(t2 - cap, t2 as int) =~= all.subrange(
                total - cap,
                total as int,
            ));
        } else {
            assert(h2 =~= h.push(d));
            lemma_history_ring_retains_latest(h2, cap, data.drop_first());
            assert(h2 + data.drop_first() =~= all);
        }
    }
}

} // verus!
