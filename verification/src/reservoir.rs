//! Bounded reservoir sampling of capacity observations (Vitter's
//! Algorithm R).
//!
//! A reservoir keeps at most `cap` of the values offered to it.  While
//! fewer than `cap` values have been offered every value is kept, in order;
//! afterwards the `n`-th value (counting from one) replaces a uniformly
//! drawn slot with probability `cap / n`.  The number of values offered is
//! counted separately, so it stays exact whatever the bound.
use vstd::prelude::*;
use crate::text::{chars_of, parse_usize_chars, parse_usize_spec};

verus! {

/// Samples kept per call-site when `CAPTRACK_SAMPLE_CAP` does not name a
/// positive integer.
pub const DEFAULT_CAP: usize = 4096;

/// The reservoir bound named by the value of `CAPTRACK_SAMPLE_CAP`: the
/// value when it parses as a positive integer, `DEFAULT_CAP` otherwise
/// (also when the variable is unset).
pub open spec fn sample_cap_spec(var: Option<Seq<char>>) -> usize {
    match var {
        Some(s) => match parse_usize_spec(s) {
            Some(n) => if n > 0 {
                n
            } else {
                DEFAULT_CAP
            },
            None => DEFAULT_CAP,
        },
        None => DEFAULT_CAP,
    }
}

/// The text of an optional string.
pub open spec fn opt_text(var: Option<&str>) -> Option<Seq<char>> {
    match var {
        Some(s) => Some(s@),
        None => None,
    }
}

/// The reservoir bound for a value of `CAPTRACK_SAMPLE_CAP` (`None` when
/// the variable is unset).
pub fn sample_cap(var: Option<&str>) -> (r: usize)
    ensures
        r == sample_cap_spec(opt_text(var)),
        r > 0,
{
    match var {
        Some(s) => {
            let v = chars_of(s);
            match parse_usize_chars(&v) {
                Some(n) => if n > 0 {
                    n
                } else {
                    DEFAULT_CAP
                },
                None => DEFAULT_CAP,
            }
        },
        None => DEFAULT_CAP,
    }
}

/// A bounded reservoir of `usize` samples.
pub struct Reservoir {
    buf: Vec<usize>,
    seen_count: u64,
    cap: usize,
    offered: Ghost<Seq<usize>>,
}

/// The mathematical value of a reservoir: the samples it keeps, the number
/// of values offered, its bound, and the whole stream offered so far.
pub struct ReservoirView {
    pub samples: Seq<usize>,
    pub seen: u64,
    pub cap: usize,
    pub offered: Seq<usize>,
}

impl View for Reservoir {
    type V = ReservoirView;

    closed spec fn view(&self) -> ReservoirView {
        ReservoirView {
            samples: self.buf@,
            seen: self.seen_count,
            cap: self.cap,
            offered: self.offered@,
        }
    }
}

/// What every reservoir keeps true: the count is the length of the stream;
/// the reservoir holds `min(seen, cap)` samples; while the stream is no
/// longer than the bound it is kept verbatim; and every sample kept was
/// offered.
pub open spec fn reservoir_inv(v: ReservoirView) -> bool {
    &&& v.offered.len() == v.seen
    &&& v.samples.len() == if v.seen < v.cap {
        v.seen as int
    } else {
        v.cap as int
    }
    &&& v.seen <= v.cap ==> v.samples == v.offered
    &&& forall|i: int| 0 <= i < v.samples.len() ==> v.offered.contains(#[trigger] v.samples[i])
}

/// The samples after offering `value` when the draw for a full reservoir
/// came out as `j`.
pub open spec fn after_record(v: ReservoirView, value: usize, j: u64) -> Seq<usize> {
    if v.seen < v.cap {
        v.samples.push(value)
    } else if j < v.cap {
        v.samples.update(j as int, value)
    } else {
        v.samples
    }
}

/// `fastrand::u64` over `0..=upper`: an integer drawn uniformly from that
/// range by the thread-local generator.  The claim is only that it lies in
/// the range; which value comes back rests on the generator's state.
#[verifier::external_body]
fn draw_slot(upper: u64) -> (j: u64)
    ensures
        j <= upper,
{
    fastrand::u64(0..=upper)
}

/// What a reservoir holds after the values `vals` were offered to it in
/// turn, starting empty (`new` starts the stream empty, and each `record`
/// appends its value to it): the count is the number of values offered, it
/// keeps `min(count, cap)` samples, all of them while no more than `cap`
/// were offered, in the order offered, and every sample kept is one of the
/// values offered.
pub proof fn lemma_reservoir_after_stream(v: ReservoirView, vals: Seq<usize>)
    requires
        reservoir_inv(v),
        v.offered == vals,
    ensures
        v.seen == vals.len(),
        v.samples.len() == if vals.len() < v.cap {
            vals.len()
        } else {
            v.cap as nat
        },
        vals.len() <= v.cap ==> v.samples == vals,
        forall|i: int| 0 <= i < v.samples.len() ==> vals.contains(#[trigger] v.samples[i]),
{
}

impl Reservoir {
    /// Whether the reservoir keeps its invariant.
    pub open spec fn wf(&self) -> bool {
        reservoir_inv(self@)
    }

    /// An empty reservoir that keeps at most `cap` samples.
    pub fn new(cap: usize) -> (r: Reservoir)
        ensures
            r.wf(),
            r@.samples == Seq::<usize>::empty(),
            r@.seen == 0,
            r@.cap == cap,
            r@.offered == Seq::<usize>::empty(),
    {
        let first = if cap < 64 {
            cap
        } else {
            64
        };
        let buf: Vec<usize> = Vec::with_capacity(first);
        Reservoir { buf, seen_count: 0, cap, offered: Ghost(Seq::empty()) }
    }

    /// Offer `value`, with `j` the slot drawn uniformly from `0..=seen` for
    /// the case that the reservoir is full: a reservoir that is not full
    /// takes the value at its end; a full one puts it in slot `j` when `j`
    /// is below the bound and drops it otherwise.  The count grows by one
    /// either way.
    pub fn record_with_draw(&mut self, value: usize, j: u64)
        requires
            old(self).wf(),
            old(self)@.seen < u64::MAX,
            old(self)@.seen >= old(self)@.cap ==> j <= old(self)@.seen,
        ensures
            final(self).wf(),
            final(self)@.seen == old(self)@.seen + 1,
            final(self)@.cap == old(self)@.cap,
            final(self)@.offered == old(self)@.offered.push(value),
            final(self)@.samples == after_record(old(self)@, value, j),
    {
        let ghost v0 = self@;
        let seen = self.seen_count;
        if seen < self.cap as u64 {
            self.buf.push(value);
        } else if j < self.cap as u64 {
            let slot = j as usize;
            self.buf.set(slot, value);
        }
        self.seen_count = seen + 1;
        proof {
            self.offered@ = self.offered@.push(value);
        }
        let ghost v1 = self@;
        assert(v1.offered.len() == v1.seen);
        assert forall|i: int| 0 <= i < v1.samples.len() implies v1.offered.contains(
            #[trigger] v1.samples[i],
        ) by {
            if v1.samples[i] == value {
                assert(v1.offered[v1.offered.len() - 1] == value);
            } else {
                assert(v1.samples[i] == v0.samples[i]);
                let k = choose|k: int| 0 <= k < v0.offered.len() && v0.offered[k] == v0.samples[i];
                assert(v1.offered[k] == v0.offered[k]);
            }
        }
        proof {
            if v1.seen as int <= v1.cap as int {
                assert(v1.samples =~= v1.offered);
            }
        }
    }

    /// Offer one sample.  While the reservoir is not full the value is
    /// appended; once it is, the value replaces a slot drawn at random with
    /// probability `cap / (seen + 1)` and is dropped otherwise.  The count
    /// of offered values grows by one in every case.
    pub fn record(&mut self, value: usize)
        requires
            old(self).wf(),
            old(self)@.seen < u64::MAX,
        ensures
            final(self).wf(),
            final(self)@.seen == old(self)@.seen + 1,
            final(self)@.cap == old(self)@.cap,
            final(self)@.offered == old(self)@.offered.push(value),
            exists|j: u64| j <= old(self)@.seen && final(self)@.samples == after_record(old(self)@, value, j),
    {
        let seen = self.seen_count;
        let j = if seen < self.cap as u64 {
            0
        } else {
            draw_slot(seen)
        };
        self.record_with_draw(value, j);
    }

    /// A copy of the samples currently kept.
    pub fn snapshot(&self) -> (r: Vec<usize>)
        ensures
            r@ == self@.samples,
    {
        self.buf.clone()
    }

    /// The number of values offered so far, whatever the bound.
    pub fn total_observed(&self) -> (r: u64)
        ensures
            r == self@.seen,
    {
        self.seen_count
    }

    /// The bound on the samples kept.
    pub fn cap(&self) -> (r: usize)
        ensures
            r == self@.cap,
    {
        self.cap
    }
}

} // verus!
