//! Redundant-path dedup merge: a writer that remembers, per track, the last
//! group id written through to its sink, and the merge step that drops an
//! arriving group exactly when it repeats that last id (first arrival wins).

use vstd::prelude::*;

verus! {

/// The last group id recorded under track key `k`, scanning from the front.
pub open spec fn spec_last(s: Seq<(String, u64)>, k: Seq<char>) -> Option<u64>
    decreases s.len(),
{
    if s.len() == 0 {
        None
    } else if s[0].0@ == k {
        Some(s[0].1)
    } else {
        spec_last(s.skip(1), k)
    }
}

/// No two entries share a track key.
pub open spec fn distinct_track_keys(s: Seq<(String, u64)>) -> bool {
    forall|i: int, j: int| 0 <= i < j < s.len() ==> s[i].0@ != s[j].0@
}

proof fn lemma_spec_last_present(s: Seq<(String, u64)>, k: Seq<char>, i: int)
    requires
        distinct_track_keys(s),
        0 <= i < s.len(),
        s[i].0@ == k,
    ensures
        spec_last(s, k) == Some(s[i].1),
    decreases s.len(),
{
    if i > 0 {
        assert forall|m: int, n: int|
            0 <= m < n < s.skip(1).len() implies s.skip(1)[m].0@ != s.skip(1)[n].0@ by {
            assert(s.skip(1)[m] == s[m + 1]);
            assert(s.skip(1)[n] == s[n + 1]);
        }
        assert(s.skip(1)[i - 1] == s[i]);
        lemma_spec_last_present(s.skip(1), k, i - 1);
    }
}

proof fn lemma_spec_last_absent(s: Seq<(String, u64)>, k: Seq<char>)
    requires
        forall|i: int| 0 <= i < s.len() ==> s[i].0@ != k,
    ensures
        spec_last(s, k) is None,
    decreases s.len(),
{
    if s.len() > 0 {
        assert forall|i: int| 0 <= i < s.skip(1).len() implies s.skip(1)[i].0@ != k by {
            assert(s.skip(1)[i] == s[i + 1]);
        }
        lemma_spec_last_absent(s.skip(1), k);
    }
}

proof fn lemma_spec_last_push(s: Seq<(String, u64)>, e: (String, u64), k: Seq<char>)
    ensures
        spec_last(s.push(e), k) == (if spec_last(s, k) is Some {
            spec_last(s, k)
        } else if e.0@ == k {
            Some(e.1)
        } else {
            None::<u64>
        }),
    decreases s.len(),
{
    if s.len() == 0 {
        assert(s.push(e).len() == 1);
        assert(s.push(e)[0] == e);
        assert(s.push(e).skip(1) =~= Seq::<(String, u64)>::empty());
        assert(spec_last(s, k) is None);
        if e.0@ != k {
            assert(spec_last(s.push(e), k) == spec_last(s.push(e).skip(1), k));
            assert(spec_last(s.push(e).skip(1), k) is None);
        }
    } else {
        assert(s.push(e)[0] == s[0]);
        assert(s.push(e).skip(1) =~= s.skip(1).push(e));
        lemma_spec_last_push(s.skip(1), e, k);
        if s[0].0@ != k {
            assert(spec_last(s.push(e), k) == spec_last(s.skip(1).push(e), k));
            assert(spec_last(s, k) == spec_last(s.skip(1), k));
        }
    }
}

proof fn lemma_spec_last_remove(s: Seq<(String, u64)>, i: int, k: Seq<char>)
    requires
        distinct_track_keys(s),
        0 <= i < s.len(),
    ensures
        spec_last(s.remove(i), k) == (if s[i].0@ == k {
            None::<u64>
        } else {
            spec_last(s, k)
        }),
    decreases s.len(),
{
    if i == 0 {
        assert(s.remove(0) =~= s.skip(1));
        if s[0].0@ == k {
            assert forall|j: int| 0 <= j < s.skip(1).len() implies s.skip(1)[j].0@ != k by {
                assert(s.skip(1)[j] == s[j + 1]);
            }
            lemma_spec_last_absent(s.skip(1), k);
        }
    } else {
        assert forall|m: int, n: int|
            0 <= m < n < s.skip(1).len() implies s.skip(1)[m].0@ != s.skip(1)[n].0@ by {
            assert(s.skip(1)[m] == s[m + 1]);
            assert(s.skip(1)[n] == s[n + 1]);
        }
        assert(s.remove(i)[0] == s[0]);
        assert(s.remove(i).skip(1) =~= s.skip(1).remove(i - 1));
        assert(s.skip(1)[i - 1] == s[i]);
        lemma_spec_last_remove(s.skip(1), i - 1, k);
    }
}

/// A sink that deduplicates by whole-group identity: it records the last
/// group id written per track and exposes it for the merge driver to consult.
pub trait SmartWriter {
    /// The writer's bookkeeping is in shape.
    spec fn wf(&self) -> bool;

    /// The last group id recorded per track.
    spec fn ids(&self) -> Map<Seq<char>, u64>;

    /// Everything written through to the sink so far, in order.
    spec fn sink(&self) -> Seq<u8>;

    /// The last group id recorded for track `id`, if any group was written.
    fn last_group_id(&self, id: &String) -> (r: Option<u64>)
        requires
            self.wf(),
        ensures
            r == (if self.ids().contains_key(id@) {
                Some(self.ids()[id@])
            } else {
                None::<u64>
            }),
    ;

    /// Writes `buf` through to the sink and unconditionally records
    /// `group_id` as the new last value for `id`, whatever its relation to
    /// the previous one.
    fn write_group(&mut self, id: String, group_id: u64, buf: &Vec<u8>)
        requires
            old(self).wf(),
        ensures
            final(self).wf(),
            final(self).sink() == old(self).sink() + buf@,
            final(self).ids() == old(self).ids().insert(id@, group_id),
    ;
}

/// The merge step racing two redundant sessions, first arrival wins: the
/// group is written through unless its id exactly repeats the last id
/// recorded for the track. A lower id is treated as a distinct, not yet seen
/// group and written through, tolerating out-of-order delivery across paths.
pub fn offer_group<W: SmartWriter>(w: &mut W, id: &String, group_id: u64, buf: &Vec<u8>) -> (wrote:
    bool)
    requires
        old(w).wf(),
    ensures
        final(w).wf(),
        wrote == !(old(w).ids().contains_key(id@) && old(w).ids()[id@] == group_id),
        wrote ==> final(w).sink() == old(w).sink() + buf@ && final(w).ids() == old(w).ids().insert(
            id@,
            group_id,
        ),
        !wrote ==> final(w).sink() == old(w).sink() && final(w).ids() == old(w).ids(),
{
    let dup = match w.last_group_id(id) {
        Some(last) => last == group_id,
        None => false,
    };
    if dup {
        false
    } else {
        w.write_group(id.clone(), group_id, buf);
        true
    }
}

/// An in-memory `SmartWriter`: the sink is a byte buffer, the per-track
/// bookkeeping a small association list with distinct keys.
pub struct SmartOut {
    out: Vec<u8>,
    last_ids: Vec<(String, u64)>,
}

impl SmartOut {
    /// Wraps a sink holding `out`; no group is recorded yet.
    pub fn new(out: Vec<u8>) -> (s: SmartOut)
        ensures
            s.wf(),
            s.sink() == out@,
            s.ids() == Map::<Seq<char>, u64>::empty(),
    {
        let s = SmartOut { out, last_ids: Vec::new() };
        proof {
            assert(s.ids() =~= Map::<Seq<char>, u64>::empty());
        }
        s
    }

    /// Everything written through so far.
    pub fn output(&self) -> (r: &Vec<u8>)
        ensures
            r@ == self.sink(),
    {
        &self.out
    }

    /// Index of the entry holding track `id`, if any.
    fn find(&self, id: &String) -> (r: Option<usize>)
        ensures
            match r {
                Some(i) => i < self.last_ids@.len() && self.last_ids@[i as int].0@ == id@,
                None => forall|i: int|
                    0 <= i < self.last_ids@.len() ==> self.last_ids@[i].0@ != id@,
            },
    {
        let mut i: usize = 0;
        while i < self.last_ids.len()
            invariant
                i <= self.last_ids@.len(),
                forall|j: int| 0 <= j < i ==> self.last_ids@[j].0@ != id@,
            decreases self.last_ids@.len() - i,
        {
            if self.last_ids[i].0 == *id {
                return Some(i);
            }
            i += 1;
        }
        None
    }
}

impl SmartWriter for SmartOut {
    closed spec fn wf(&self) -> bool {
        distinct_track_keys(self.last_ids@)
    }

    closed spec fn ids(&self) -> Map<Seq<char>, u64> {
        Map::new(
            |k: Seq<char>| spec_last(self.last_ids@, k) is Some,
            |k: Seq<char>| spec_last(self.last_ids@, k)->Some_0,
        )
    }

    closed spec fn sink(&self) -> Seq<u8> {
        self.out@
    }

    fn last_group_id(&self, id: &String) -> (r: Option<u64>) {
        match self.find(id) {
            Some(i) => {
                proof {
                    lemma_spec_last_present(self.last_ids@, id@, i as int);
                }
                Some(self.last_ids[i].1)
            },
            None => {
                proof {
                    lemma_spec_last_absent(self.last_ids@, id@);
                }
                None
            },
        }
    }

    fn write_group(&mut self, id: String, group_id: u64, buf: &Vec<u8>) {
        let ghost out0 = self.out@;
        let mut j: usize = 0;
        while j < buf.len()
            invariant
                j <= buf@.len(),
                self.out@ == out0 + buf@.take(j as int),
                self.last_ids@ == old(self).last_ids@,
            decreases buf@.len() - j,
        {
            self.out.push(buf[j]);
            proof {
                assert(out0 + buf@.take(j + 1) =~= (out0 + buf@.take(j as int)).push(
                    buf@[j as int],
                ));
            }
            j += 1;
        }
        proof {
            assert(self.out@ =~= out0 + buf@);
        }
        let ghost s0 = self.last_ids@;
        let at = self.find(&id);
        match at {
            Some(i) => {
                proof {
                    lemma_spec_last_present(s0, id@, i as int);
                }
                self.last_ids.remove(i);
                let ghost s1 = self.last_ids@;
                proof {
                    assert forall|m: int, n: int|
                        0 <= m < n < s1.len() implies s1[m].0@ != s1[n].0@ by {
                        if m < i {
                            assert(s1[m] == s0[m]);
                        } else {
                            assert(s1[m] == s0[m + 1]);
                        }
                        if n < i {
                            assert(s1[n] == s0[n]);
                        } else {
                            assert(s1[n] == s0[n + 1]);
                        }
                    }
                }
                self.last_ids.push((id, group_id));
                proof {
                    let e = self.last_ids@.last();
                    assert(self.last_ids@ =~= s1.push(e));
                    assert forall|m: int, n: int|
                        0 <= m < n < self.last_ids@.len() implies self.last_ids@[m].0@
                        != self.last_ids@[n].0@ by {
                        if n < s1.len() {
                            assert(self.last_ids@[m] == s1[m]);
                            assert(self.last_ids@[n] == s1[n]);
                        } else {
                            assert(self.last_ids@[m] == s1[m]);
                            assert(self.last_ids@[n] == e);
                            if m < i {
                                assert(s1[m] == s0[m]);
                            } else {
                                assert(s1[m] == s0[m + 1]);
                            }
                        }
                    }
                    assert forall|k: Seq<char>|
                        #[trigger] spec_last(self.last_ids@, k) == (if k == e.0@ {
                            Some(group_id)
                        } else {
                            spec_last(s0, k)
                        }) by {
                        lemma_spec_last_remove(s0, i as int, k);
                        lemma_spec_last_push(s1, e, k);
                    }
                    assert(self.ids() =~= old(self).ids().insert(e.0@, group_id));
                }
            },
            None => {
                proof {
                    lemma_spec_last_absent(s0, id@);
                }
                self.last_ids.push((id, group_id));
                proof {
                    let e = self.last_ids@.last();
                    assert(self.last_ids@ =~= s0.push(e));
                    assert forall|m: int, n: int|
                        0 <= m < n < self.last_ids@.len() implies self.last_ids@[m].0@
                        != self.last_ids@[n].0@ by {
                        if n < s0.len() {
                            assert(self.last_ids@[m] == s0[m]);
                            assert(self.last_ids@[n] == s0[n]);
                        } else {
                            assert(self.last_ids@[m] == s0[m]);
                            assert(self.last_ids@[n] == e);
                        }
                    }
                    assert forall|k: Seq<char>|
                        #[trigger] spec_last(self.last_ids@, k) == (if k == e.0@ {
                            Some(group_id)
                        } else {
                            spec_last(s0, k)
                        }) by {
                        lemma_spec_last_push(s0, e, k);
                    }
                    assert(self.ids() =~= old(self).ids().insert(e.0@, group_id));
                }
            },
        }
    }
}

} // verus!
