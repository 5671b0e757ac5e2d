//! Per-channel sample histories with a bounded length.
//!
//! A decoded frame names a channel and carries a run of sample values. Each
//! value is stored with the position it got in its channel's history at the
//! moment it arrived; when a history grows past its limit the oldest samples
//! leave first. The library never looks inside a value, so the value type is
//! the caller's choice.

use vstd::prelude::*;

verus! {

/// Number of channels a bank holds; valid channel ids are `0..CHANNEL_COUNT`.
pub const CHANNEL_COUNT: usize = 10;

/// Number of samples a history keeps unless told otherwise.
pub const HISTORY_LIMIT: usize = 1000;

/// One stored sample: the history's length when it arrived, and its value.
#[derive(Debug)]
pub struct Sample<T> {
    pub index: usize,
    pub value: T,
}

impl<T: Copy> Clone for Sample<T> {
    fn clone(&self) -> (copy: Self)
        ensures
            copy == *self,
    {
        *self
    }
}

impl<T: Copy> Copy for Sample<T> {

}

/// `values` as samples numbered `from`, `from + 1`, ...
pub open spec fn numbered<T>(values: Seq<T>, from: int) -> Seq<Sample<T>> {
    Seq::new(values.len(), |i: int| Sample { index: (from + i) as usize, value: values[i] })
}

/// The last `limit` entries of `s`, or all of `s` if it has no more than that.
pub open spec fn newest<A>(s: Seq<A>, limit: nat) -> Seq<A> {
    if s.len() > limit {
        s.skip(s.len() - limit)
    } else {
        s
    }
}

/// A history after `values` arrived: they are numbered from the history's
/// length and appended, then the oldest samples beyond `limit` are dropped.
pub open spec fn appended<T>(history: Seq<Sample<T>>, values: Seq<T>, limit: nat) -> Seq<
    Sample<T>,
> {
    newest(history + numbered(values, history.len() as int), limit)
}

/// However many values arrive, the history afterwards holds at most `limit`
/// samples, and they are the most recent ones in arrival order: the samples
/// that left are exactly the oldest.
pub proof fn lemma_appended_is_bounded_fifo<T>(history: Seq<Sample<T>>, values: Seq<T>, limit: nat)
    ensures
        appended(history, values, limit).len() <= limit,
        appended(history, values, limit).len() == if history.len() + values.len() > limit {
            limit
        } else {
            history.len() + values.len()
        },
        forall|k: int|
            0 <= k < appended(history, values, limit).len() ==> appended(history, values, limit)[k]
                == (history + numbered(values, history.len() as int))[k + (history.len()
                + values.len() - appended(history, values, limit).len())],
{
}

/// The bounded history of one channel.
pub struct ChannelSeries<T> {
    samples: Vec<Sample<T>>,
    limit: usize,
}

impl<T> View for ChannelSeries<T> {
    type V = Seq<Sample<T>>;

    /// The stored samples, oldest first.
    closed spec fn view(&self) -> Seq<Sample<T>> {
        self.samples@
    }
}

impl<T: Copy> ChannelSeries<T> {
    /// Largest number of samples the history keeps.
    pub closed spec fn limit(&self) -> nat {
        self.limit as nat
    }

    /// The history is no longer than its limit.
    pub open spec fn wf(&self) -> bool {
        self@.len() <= self.limit()
    }

    /// An empty history that keeps at most `limit` samples.
    pub fn new(limit: usize) -> (series: Self)
        ensures
            series@ == Seq::<Sample<T>>::empty(),
            series.limit() == limit,
            series.wf(),
    {
        ChannelSeries { samples: Vec::new(), limit }
    }

    /// Number of stored samples.
    pub fn len(&self) -> (n: usize)
        ensures
            n == self@.len(),
    {
        self.samples.len()
    }

    /// Whether no sample is stored.
    pub fn is_empty(&self) -> (empty: bool)
        ensures
            empty == (self@.len() == 0),
    {
        self.samples.len() == 0
    }

    /// The limit this history was made with.
    pub fn capacity(&self) -> (limit: usize)
        ensures
            limit == self.limit(),
    {
        self.limit
    }

    /// The `i`-th oldest stored sample, if there are that many.
    pub fn get(&self, i: usize) -> (sample: Option<Sample<T>>)
        ensures
            sample == if i < self@.len() {
                Some(self@[i as int])
            } else {
                None
            },
    {
        if i < self.samples.len() {
            Some(self.samples[i])
        } else {
            None
        }
    }

    /// The stored samples, oldest first.
    pub fn samples(&self) -> (all: &[Sample<T>])
        ensures
            all@ == self@,
    {
        self.samples.as_slice()
    }

    /// Forgets all samples.
    pub fn clear(&mut self)
        ensures
            final(self)@ == Seq::<Sample<T>>::empty(),
            final(self).limit() == old(self).limit(),
            final(self).wf(),
    {
        self.samples.clear();
    }

    /// Appends `values`, each numbered with the history's length at the
    /// moment it is added, then drops the oldest samples until at most
    /// `limit` are left.
    pub fn extend(&mut self, values: &[T])
        ensures
            final(self)@ == appended(old(self)@, values@, old(self).limit()),
            final(self).limit() == old(self).limit(),
            final(self).wf(),
    {
        let ghost before = self@;
        let mut i: usize = 0;
        while i < values.len()
            invariant
                i <= values.len(),
                self.limit == old(self).limit,
                self.samples@ == before + numbered(values@.take(i as int), before.len() as int),
            decreases values.len() - i,
        {
            let ghost so_far = self.samples@;
            let index: usize = self.samples.len();
            self.samples.push(Sample { index, value: values[i] });
            assert(self.samples@ =~= before + numbered(
                values@.take(i + 1),
                before.len() as int,
            ));
            i += 1;
        }
        assert(values@.take(i as int) =~= values@);
        if self.samples.len() > self.limit {
            let excess: usize = self.samples.len() - self.limit;
            let tail = self.samples.split_off(excess);
            self.samples = tail;
        }
    }
}

/// Whether `channel` is the id of a channel that is plotted.
pub fn is_plotted(channel: u8) -> (plotted: bool)
    ensures
        plotted == (channel < CHANNEL_COUNT),
{
    (channel as usize) < CHANNEL_COUNT
}

/// What the decode procedure makes of one payload.
pub enum Decoded<T> {
    /// The payload carries nothing to plot.
    Nothing,
    /// The payload carries these sample values for this channel.
    Samples { channel: u8, values: Vec<T> },
}

/// The histories of all `CHANNEL_COUNT` channels.
pub struct ChannelBank<T> {
    channels: Vec<ChannelSeries<T>>,
}

impl<T: Copy> ChannelBank<T> {
    /// The history of channel `channel`, oldest sample first.
    pub closed spec fn series(&self, channel: int) -> Seq<Sample<T>> {
        self.channels@[channel]@
    }

    /// The limit shared by the histories of this bank.
    pub closed spec fn limit(&self) -> nat {
        self.channels@[0].limit()
    }

    /// There are `CHANNEL_COUNT` histories, all with the same limit and none longer than it.
    pub closed spec fn wf(&self) -> bool {
        &&& self.channels@.len() == CHANNEL_COUNT
        &&& forall|c: int|
            0 <= c < CHANNEL_COUNT ==> (#[trigger] self.channels@[c]).limit() == self.limit()
                && self.channels@[c].wf()
    }

    /// In a well-formed bank no history is longer than the limit.
    pub proof fn lemma_bounded(&self, channel: int)
        requires
            self.wf(),
            0 <= channel < CHANNEL_COUNT,
        ensures
            self.series(channel).len() <= self.limit(),
    {
    }

    /// A bank of empty histories that keep at most `HISTORY_LIMIT` samples each.
    pub fn new() -> (bank: Self)
        ensures
            bank.wf(),
            bank.limit() == HISTORY_LIMIT,
            forall|c: int| 0 <= c < CHANNEL_COUNT ==> bank.series(c) == Seq::<Sample<T>>::empty(),
    {
        Self::with_limit(HISTORY_LIMIT)
    }

    /// A bank of empty histories that keep at most `limit` samples each.
    pub fn with_limit(limit: usize) -> (bank: Self)
        ensures
            bank.wf(),
            bank.limit() == limit,
            forall|c: int| 0 <= c < CHANNEL_COUNT ==> bank.series(c) == Seq::<Sample<T>>::empty(),
    {
        let mut channels: Vec<ChannelSeries<T>> = Vec::new();
        let mut c: usize = 0;
        while c < CHANNEL_COUNT
            invariant
                c <= CHANNEL_COUNT,
                channels@.len() == c,
                forall|k: int|
                    0 <= k < c ==> (#[trigger] channels@[k]).limit() == limit && channels@[k].wf()
                        && channels@[k]@ == Seq::<Sample<T>>::empty(),
            decreases CHANNEL_COUNT - c,
        {
            channels.push(ChannelSeries::new(limit));
            c += 1;
        }
        ChannelBank { channels }
    }

    /// The history of `channel`, or `None` if there is no such channel.
    pub fn channel(&self, channel: usize) -> (series: Option<&ChannelSeries<T>>)
        requires
            self.wf(),
        ensures
            match series {
                Some(s) => channel < CHANNEL_COUNT && s@ == self.series(channel as int)
                    && s.limit() == self.limit() && s.wf(),
                None => channel >= CHANNEL_COUNT,
            },
    {
        if channel < CHANNEL_COUNT {
            Some(&self.channels[channel])
        } else {
            None
        }
    }

    /// Stores the samples that a decoded frame carries for `channel`.
    ///
    /// A channel id of `CHANNEL_COUNT` or more is not plotted: the bank stays
    /// as it is and `false` is returned. Otherwise the values are appended to
    /// that channel's history as `appended` says, the other histories stay as
    /// they are, and `true` is returned.
    pub fn record(&mut self, channel: u8, values: &[T]) -> (stored: bool)
        requires
            old(self).wf(),
        ensures
            final(self).wf(),
            final(self).limit() == old(self).limit(),
            stored == (channel < CHANNEL_COUNT),
            forall|c: int|
                0 <= c < CHANNEL_COUNT && c != channel ==> final(self).series(c) == old(
                    self,
                ).series(c),
            stored ==> final(self).series(channel as int) == appended(
                old(self).series(channel as int),
                values@,
                old(self).limit(),
            ),
    {
        if !is_plotted(channel) {
            return false;
        }
        let at: usize = channel as usize;
        let ghost before = self.channels@;
        let series = &mut self.channels[at];
        series.extend(values);
        assert(self.channels@.len() == before.len());
        assert(forall|c: int| 0 <= c < CHANNEL_COUNT && c != at ==> self.channels@[c] == before[c]);
        true
    }

    /// Stores what the decode procedure made of one payload: `Nothing`
    /// leaves the bank as it is, `Samples` is handled as `record` says.
    /// Returns whether samples were stored.
    pub fn store(&mut self, decoded: &Decoded<T>) -> (stored: bool)
        requires
            old(self).wf(),
        ensures
            final(self).wf(),
            final(self).limit() == old(self).limit(),
            stored == (decoded is Samples && decoded->channel < CHANNEL_COUNT),
            forall|c: int|
                0 <= c < CHANNEL_COUNT && !(stored && c == decoded->channel)
                    ==> final(self).series(c) == old(self).series(c),
            stored ==> final(self).series(decoded->channel as int) == appended(
                old(self).series(decoded->channel as int),
                decoded->values@,
                old(self).limit(),
            ),
    {
        match decoded {
            Decoded::Nothing => false,
            Decoded::Samples { channel, values } => self.record(*channel, values.as_slice()),
        }
    }

    /// Stores what one call of the decode procedure came to. A call that
    /// failed skips its frame as a whole: the bank stays as it is and `false`
    /// is returned. A call that succeeded is handled as `store` says.
    pub fn store_outcome(&mut self, outcome: &Result<Decoded<T>, ()>) -> (stored: bool)
        requires
            old(self).wf(),
        ensures
            final(self).wf(),
            final(self).limit() == old(self).limit(),
            stored == (outcome is Ok && outcome->Ok_0 is Samples && outcome->Ok_0->channel
                < CHANNEL_COUNT),
            forall|c: int|
                0 <= c < CHANNEL_COUNT && !(stored && c == outcome->Ok_0->channel)
                    ==> final(self).series(c) == old(self).series(c),
            stored ==> final(self).series(outcome->Ok_0->channel as int) == appended(
                old(self).series(outcome->Ok_0->channel as int),
                outcome->Ok_0->values@,
                old(self).limit(),
            ),
    {
        match outcome {
            Ok(decoded) => self.store(decoded),
            Err(_) => false,
        }
    }

    /// Empties every history.
    pub fn clear(&mut self)
        requires
            old(self).wf(),
        ensures
            final(self).wf(),
            final(self).limit() == old(self).limit(),
            forall|c: int|
                0 <= c < CHANNEL_COUNT ==> final(self).series(c) == Seq::<Sample<T>>::empty(),
    {
        let limit: usize = self.channels[0].capacity();
        *self = Self::with_limit(limit);
    }
}

} // verus!
