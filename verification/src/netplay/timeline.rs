//! Values keyed by frame number, kept in frame order.
use vstd::prelude::*;

verus! {

/// A map from frame numbers to values, stored oldest first.
pub struct Timeline<V> {
    entries: Vec<(u64, V)>,
}

/// Frame numbers strictly ascend.
pub open spec fn ascending<V>(s: Seq<(u64, V)>) -> bool {
    forall|i: int, j: int| 0 <= i < j < s.len() ==> #[trigger] s[i].0 < #[trigger] s[j].0
}

/// Whether some entry of `s` is for frame `f`.
pub open spec fn has_frame<V>(s: Seq<(u64, V)>, f: u64) -> bool {
    exists|i: int| 0 <= i < s.len() && #[trigger] s[i].0 == f
}

/// The entry of `s` for frame `f`, where there is one.
pub open spec fn frame_index<V>(s: Seq<(u64, V)>, f: u64) -> int {
    choose|i: int| 0 <= i < s.len() && #[trigger] s[i].0 == f
}

/// The map an ascending list of entries stands for.
pub open spec fn entries_map<V>(s: Seq<(u64, V)>) -> Map<u64, V> {
    Map::new(|f: u64| has_frame(s, f), |f: u64| s[frame_index(s, f)].1)
}

/// `s` lists exactly the entries of `m` at or after `from`, oldest first.
pub open spec fn lists_from<V>(s: Seq<(u64, V)>, m: Map<u64, V>, from: u64) -> bool {
    &&& ascending(s)
    &&& forall|i: int|
        0 <= i < s.len() ==> (#[trigger] s[i]).0 >= from && m.contains_key(s[i].0) && m[s[i].0]
            == s[i].1
    &&& forall|f: u64| #[trigger] m.contains_key(f) && f >= from ==> has_frame(s, f)
}

proof fn lemma_entry<V>(s: Seq<(u64, V)>, i: int)
    requires
        ascending(s),
        0 <= i < s.len(),
    ensures
        has_frame(s, s[i].0),
        frame_index(s, s[i].0) == i,
        entries_map(s).contains_key(s[i].0),
        entries_map(s)[s[i].0] == s[i].1,
{
    let j = frame_index(s, s[i].0);
    assert(0 <= j < s.len() && s[j].0 == s[i].0);
    if j < i {
        assert(s[j].0 < s[i].0);
    } else if i < j {
        assert(s[i].0 < s[j].0);
    }
}

impl<V> View for Timeline<V> {
    type V = Map<u64, V>;

    closed spec fn view(&self) -> Map<u64, V> {
        entries_map(self.entries@)
    }
}

impl<V: Copy> Timeline<V> {
    /// The entries are in frame order.
    pub closed spec fn wf(&self) -> bool {
        ascending(self.entries@)
    }

    /// How many frames are held.
    pub closed spec fn count(&self) -> nat {
        self.entries@.len()
    }

    /// No frames.
    pub fn new() -> (r: Self)
        ensures
            r.wf(),
            r@ == Map::<u64, V>::empty(),
            r.count() == 0,
    {
        let r = Timeline { entries: Vec::new() };
        assert(r@ =~= Map::<u64, V>::empty());
        r
    }

    pub fn len(&self) -> (r: usize)
        ensures
            r == self.count(),
    {
        self.entries.len()
    }

    /// The position of the first entry at or after `frame`.
    fn lower_bound(&self, frame: u64) -> (r: usize)
        requires
            self.wf(),
        ensures
            r <= self.entries@.len(),
            forall|i: int| 0 <= i < r ==> (#[trigger] self.entries@[i]).0 < frame,
            forall|i: int| r <= i < self.entries@.len() ==> (#[trigger] self.entries@[i]).0 >= frame,
    {
        let mut lo: usize = 0;
        let mut hi: usize = self.entries.len();
        while lo < hi
            invariant
                self.wf(),
                lo <= hi <= self.entries@.len(),
                forall|i: int| 0 <= i < lo ==> (#[trigger] self.entries@[i]).0 < frame,
                forall|i: int|
                    hi <= i < self.entries@.len() ==> (#[trigger] self.entries@[i]).0 >= frame,
            decreases hi - lo,
        {
            let mid: usize = lo + (hi - lo) / 2;
            if self.entries[mid].0 < frame {
                lo = mid + 1;
            } else {
                hi = mid;
            }
        }
        lo
    }

    /// The value at `frame`.
    pub fn get(&self, frame: u64) -> (r: Option<V>)
        requires
            self.wf(),
        ensures
            r == (if self@.contains_key(frame) {
                Some(self@[frame])
            } else {
                None
            }),
    {
        let at: usize = self.lower_bound(frame);
        if at < self.entries.len() && self.entries[at].0 == frame {
            proof {
                lemma_entry(self.entries@, at as int);
            }
            Some(self.entries[at].1)
        } else {
            proof {
                if has_frame(self.entries@, frame) {
                    let i = frame_index(self.entries@, frame);
                    assert(self.entries@[i].0 == frame);
                    if i >= at && i > at {
                        assert(self.entries@[at as int].0 < self.entries@[i].0);
                    }
                }
            }
            None
        }
    }

    pub fn contains(&self, frame: u64) -> (r: bool)
        requires
            self.wf(),
        ensures
            r == self@.contains_key(frame),
    {
        self.get(frame).is_some()
    }

    /// Set the value at `frame`.
    pub fn insert(&mut self, frame: u64, value: V)
        requires
            old(self).wf(),
        ensures
            final(self).wf(),
            final(self)@ == old(self)@.insert(frame, value),
            final(self).count() == old(self).count() + (if old(self)@.contains_key(frame) {
                0int
            } else {
                1int
            }),
    {
        let at: usize = self.lower_bound(frame);
        let ghost before = self.entries@;
        if at < self.entries.len() && self.entries[at].0 == frame {
            proof {
                lemma_entry(before, at as int);
            }
            self.entries[at] = (frame, value);
        } else {
            proof {
                if has_frame(before, frame) {
                    let i = frame_index(before, frame);
                    assert(before[i].0 == frame);
                }
            }
            self.entries.insert(at, (frame, value));
        }
        let ghost after = self.entries@;
        proof {
            assert(ascending(after)) by {
                assert forall|i: int, j: int| 0 <= i < j < after.len() implies #[trigger] after[i].0
                    < #[trigger] after[j].0 by {
                    if after.len() == before.len() {
                        assert(before[i].0 < before[j].0);
                    } else {
                        let bi = if i < at { i } else { i - 1 };
                        let bj = if j < at { j } else { j - 1 };
                        if i != at && j != at {
                            assert(before[bi].0 < before[bj].0);
                        }
                    }
                }
            }
            assert forall|f: u64| #[trigger] entries_map(after).contains_key(f) == (f == frame
                || entries_map(before).contains_key(f)) by {
                if has_frame(after, f) {
                    let i = frame_index(after, f);
                    assert(after[i].0 == f);
                    if f != frame {
                        let bi = if after.len() == before.len() || i < at { i } else { i - 1 };
                        assert(before[bi].0 == f);
                    }
                }
                if f == frame {
                    assert(after[at as int].0 == f);
                } else if has_frame(before, f) {
                    let i = frame_index(before, f);
                    assert(before[i].0 == f);
                    let ai = if after.len() == before.len() || i < at { i } else { i + 1 };
                    assert(after[ai].0 == f);
                }
            }
            assert forall|f: u64| #[trigger] entries_map(after).contains_key(f) implies entries_map(
                after,
            )[f] == entries_map(before).insert(frame, value)[f] by {
                if f == frame {
                    lemma_entry(after, at as int);
                } else {
                    let i = frame_index(after, f);
                    assert(has_frame(after, f));
                    assert(after[i].0 == f);
                    let bi = if after.len() == before.len() || i < at { i } else { i - 1 };
                    assert(before[bi] == after[i]);
                    lemma_entry(before, bi);
                }
            }
            assert(entries_map(after) =~= entries_map(before).insert(frame, value));
        }
    }

    /// The newest entry.
    pub fn last(&self) -> (r: Option<(u64, V)>)
        requires
            self.wf(),
        ensures
            r is None <==> self@ == Map::<u64, V>::empty(),
            r is None <==> self.count() == 0,
            r matches Some(e) ==> self@.contains_key(e.0) && self@[e.0] == e.1 && forall|f: u64|
                #[trigger] self@.contains_key(f) ==> f <= e.0,
    {
        let n: usize = self.entries.len();
        if n == 0 {
            assert(self@ =~= Map::<u64, V>::empty());
            return None;
        }
        proof {
            let s = self.entries@;
            lemma_entry(s, n - 1);
            assert forall|f: u64| #[trigger] self@.contains_key(f) implies f <= s[n - 1].0 by {
                let i = frame_index(s, f);
                assert(has_frame(s, f));
                assert(s[i].0 == f);
                if i < n - 1 {
                    assert(s[i].0 < s[n - 1].0);
                }
            }
        }
        Some(self.entries[n - 1])
    }

    /// The newest entry at or before `frame`.
    pub fn at_or_before(&self, frame: u64) -> (r: Option<(u64, V)>)
        requires
            self.wf(),
        ensures
            r == newest_until(self@, frame),
            r matches Some(e) ==> self@.contains_key(e.0) && self@[e.0] == e.1 && e.0 <= frame,
    {
        let mut at: usize = self.lower_bound(frame);
        let ghost s = self.entries@;
        if at < self.entries.len() && self.entries[at].0 == frame {
            at = at + 1;
        }
        proof {
            assert forall|i: int| 0 <= i < at implies (#[trigger] s[i]).0 <= frame by {}
            assert forall|i: int| at <= i < s.len() implies (#[trigger] s[i]).0 > frame by {
                if at > 0 && s[at - 1].0 == frame {
                    assert(s[at - 1].0 < s[i].0);
                }
            }
        }
        if at == 0 {
            proof {
                assert forall|f: u64| f <= frame implies !(#[trigger] self@.contains_key(f)) by {
                    if has_frame(s, f) {
                        let i = frame_index(s, f);
                        assert(s[i].0 == f);
                    }
                }
            }
            None
        } else {
            proof {
                let e = s[at - 1];
                lemma_entry(s, at - 1);
                assert forall|f: u64| #[trigger] self@.contains_key(f) && f <= frame implies f
                    <= e.0 by {
                    let i = frame_index(s, f);
                    assert(has_frame(s, f));
                    assert(s[i].0 == f);
                    if i < at - 1 {
                        assert(s[i].0 < s[at - 1].0);
                    }
                }
                lemma_newest_until(self@, frame, e.0);
            }
            Some(self.entries[at - 1])
        }
    }

    /// Every entry at or after `frame`, oldest first.
    pub fn from_frame(&self, frame: u64) -> (r: Vec<(u64, V)>)
        requires
            self.wf(),
        ensures
            lists_from(r@, self@, frame),
            r@.len() <= self.count(),
    {
        let at: usize = self.lower_bound(frame);
        let mut out: Vec<(u64, V)> = Vec::new();
        let mut i: usize = at;
        while i < self.entries.len()
            invariant
                at <= i <= self.entries@.len(),
                out@ == self.entries@.subrange(at as int, i as int),
            decreases self.entries@.len() - i,
        {
            out.push(self.entries[i]);
            i += 1;
        }
        proof {
            let s = self.entries@;
            assert forall|k: int| 0 <= k < out@.len() implies (#[trigger] out@[k]).0 >= frame
                && self@.contains_key(out@[k].0) && self@[out@[k].0] == out@[k].1 by {
                assert(out@[k] == s[at + k]);
                lemma_entry(s, at + k);
            }
            assert forall|f: u64| #[trigger] self@.contains_key(f) && f >= frame implies has_frame(
                out@,
                f,
            ) by {
                let k = frame_index(s, f);
                assert(has_frame(s, f));
                assert(s[k].0 == f);
                assert(out@[k - at].0 == f);
            }
        }
        out
    }

    /// Forget every entry before `floor`.
    pub fn retain_from(&mut self, floor: u64)
        requires
            old(self).wf(),
        ensures
            final(self).wf(),
            final(self)@ == old(self)@.remove_keys(Set::new(|f: u64| f < floor)),
            final(self).count() <= old(self).count(),
    {
        let ghost s = self.entries@;
        let kept: Vec<(u64, V)> = self.from_frame(floor);
        self.entries = kept;
        proof {
            let t = self.entries@;
            assert forall|f: u64| #[trigger] entries_map(t).contains_key(f) == (entries_map(s).contains_key(f)
                && f >= floor) by {
                if has_frame(t, f) {
                    let k = frame_index(t, f);
                    assert(t[k].0 == f);
                }
            }
            assert forall|f: u64| #[trigger] entries_map(t).contains_key(f) implies entries_map(
                t,
            )[f] == entries_map(s)[f] by {
                let k = frame_index(t, f);
                assert(has_frame(t, f));
                assert(t[k].0 == f);
                lemma_entry(t, k);
            }
            assert(entries_map(t) =~= entries_map(s).remove_keys(Set::new(|f: u64| f < floor)));
        }
    }

    /// Forget the oldest entry.
    pub fn pop_first(&mut self)
        requires
            old(self).wf(),
            old(self).count() > 0,
        ensures
            final(self).wf(),
            final(self).count() == old(self).count() - 1,
            exists|f: u64| #[trigger]
                is_oldest(old(self)@, f) && final(self)@ == old(self)@.remove(f),
    {
        let ghost s = self.entries@;
        let first = self.entries.remove(0);
        proof {
            let t = self.entries@;
            assert forall|i: int, j: int| 0 <= i < j < t.len() implies #[trigger] t[i].0
                < #[trigger] t[j].0 by {
                assert(s[i + 1].0 < s[j + 1].0);
            }
            lemma_entry(s, 0);
            let f = s[0].0;
            assert forall|g: u64| #[trigger] entries_map(t).contains_key(g) == (entries_map(s).contains_key(g)
                && g != f) by {
                if has_frame(t, g) {
                    let k = frame_index(t, g);
                    assert(t[k].0 == g && s[k + 1].0 == g);
                    assert(s[0].0 < s[k + 1].0);
                }
                if has_frame(s, g) && g != f {
                    let k = frame_index(s, g);
                    assert(s[k].0 == g && t[k - 1].0 == g);
                }
            }
            assert forall|g: u64| #[trigger] entries_map(t).contains_key(g) implies entries_map(
                t,
            )[g] == entries_map(s)[g] by {
                let k = frame_index(t, g);
                assert(has_frame(t, g));
                assert(t[k].0 == g);
                lemma_entry(s, k + 1);
                lemma_entry(t, k);
            }
            assert(entries_map(t) =~= entries_map(s).remove(f));
            assert forall|g: u64| #[trigger] entries_map(s).contains_key(g) implies f <= g by {
                let k = frame_index(s, g);
                assert(has_frame(s, g));
                assert(s[k].0 == g);
                if k > 0 {
                    assert(s[0].0 < s[k].0);
                }
            }
            assert(is_oldest(old(self)@, f));
        }
    }
}

/// `f` is the first frame of `m`.
pub open spec fn is_oldest<V>(m: Map<u64, V>, f: u64) -> bool {
    m.contains_key(f) && forall|g: u64| #[trigger] m.contains_key(g) ==> f <= g
}

/// `e` is the newest frame of `m` that is not past `frame`.
pub open spec fn is_newest_until<V>(m: Map<u64, V>, frame: u64, e: u64) -> bool {
    &&& m.contains_key(e)
    &&& e <= frame
    &&& forall|f: u64| #[trigger] m.contains_key(f) && f <= frame ==> f <= e
}

/// The newest entry of `m` that is not past `frame`.
pub open spec fn newest_until<V>(m: Map<u64, V>, frame: u64) -> Option<(u64, V)> {
    if exists|e: u64| is_newest_until(m, frame, e) {
        let e = choose|e: u64| is_newest_until(m, frame, e);
        Some((e, m[e]))
    } else {
        None
    }
}

/// The newest entry up to a frame is unique.
pub proof fn lemma_newest_until<V>(m: Map<u64, V>, frame: u64, e: u64)
    requires
        is_newest_until(m, frame, e),
    ensures
        newest_until(m, frame) == Some((e, m[e])),
{
    let c = choose|c: u64| is_newest_until(m, frame, c);
    assert(is_newest_until(m, frame, c));
    assert(m.contains_key(c) && m.contains_key(e));
}

} // verus!
