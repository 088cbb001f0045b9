//! Origin registry: a namespace-keyed store mapping each broadcast namespace
//! to the one origin that claimed it. Claims are create-once (first writer
//! wins), refreshed by an exact-match heartbeat, and freed by delete.

use vstd::prelude::*;

verus! {

/// A registry record: the network location currently authorized to serve a
/// namespace.
#[derive(Debug)]
pub struct Origin {
    /// The hosting node's address, as a URL string.
    pub url: String,
}

impl Clone for Origin {
    fn clone(&self) -> (r: Self)
        ensures
            r.url@ == self.url@,
    {
        Origin { url: self.url.clone() }
    }
}

/// The recoverable outcomes of a registry operation.
#[derive(Clone, Copy, Debug, PartialEq, Eq, Structural)]
pub enum ApiError {
    /// No origin is registered under the namespace.
    NotFound,
    /// The namespace is already claimed, or a conflicting origin tried to
    /// refresh it.
    Duplicate,
}

/// The transport status code each outcome maps to.
pub open spec fn spec_status_code(e: ApiError) -> u16 {
    match e {
        ApiError::NotFound => 404,
        ApiError::Duplicate => 409,
    }
}

/// Maps an error to its response status: 404 for `NotFound`, 409 for
/// `Duplicate`.
pub fn status_code(e: &ApiError) -> (s: u16)
    ensures
        s == spec_status_code(*e),
{
    match e {
        ApiError::NotFound => 404,
        ApiError::Duplicate => 409,
    }
}

/// The origin url stored under key `k`, scanning entries from the front.
pub open spec fn spec_get(s: Seq<(String, Origin)>, k: Seq<char>) -> Option<Seq<char>>
    decreases s.len(),
{
    if s.len() == 0 {
        None
    } else if s[0].0@ == k {
        Some(s[0].1.url@)
    } else {
        spec_get(s.skip(1), k)
    }
}

/// No two entries share a key.
pub open spec fn distinct_keys(s: Seq<(String, Origin)>) -> bool {
    forall|i: int, j: int| 0 <= i < j < s.len() ==> s[i].0@ != s[j].0@
}

proof fn lemma_distinct_skip(s: Seq<(String, Origin)>)
    requires
        distinct_keys(s),
        s.len() > 0,
    ensures
        distinct_keys(s.skip(1)),
{
    assert forall|i: int, j: int| 0 <= i < j < s.skip(1).len() implies s.skip(1)[i].0@ != s.skip(
        1,
    )[j].0@ by {
        assert(s.skip(1)[i] == s[i + 1]);
        assert(s.skip(1)[j] == s[j + 1]);
    }
}

proof fn lemma_spec_get_present(s: Seq<(String, Origin)>, k: Seq<char>, i: int)
    requires
        distinct_keys(s),
        0 <= i < s.len(),
        s[i].0@ == k,
    ensures
        spec_get(s, k) == Some(s[i].1.url@),
    decreases s.len(),
{
    if i > 0 {
        lemma_distinct_skip(s);
        assert(s.skip(1)[i - 1] == s[i]);
        lemma_spec_get_present(s.skip(1), k, i - 1);
    }
}

proof fn lemma_spec_get_absent(s: Seq<(String, Origin)>, k: Seq<char>)
    requires
        forall|i: int| 0 <= i < s.len() ==> s[i].0@ != k,
    ensures
        spec_get(s, k) is None,
    decreases s.len(),
{
    if s.len() > 0 {
        assert forall|i: int| 0 <= i < s.skip(1).len() implies s.skip(1)[i].0@ != k by {
            assert(s.skip(1)[i] == s[i + 1]);
        }
        lemma_spec_get_absent(s.skip(1), k);
    }
}

proof fn lemma_spec_get_push(s: Seq<(String, Origin)>, e: (String, Origin), k: Seq<char>)
    ensures
        spec_get(s.push(e), k) == (if spec_get(s, k) is Some {
            spec_get(s, k)
        } else if e.0@ == k {
            Some(e.1.url@)
        } else {
            None::<Seq<char>>
        }),
    decreases s.len(),
{
    if s.len() == 0 {
        assert(s.push(e).len() == 1);
        assert(s.push(e)[0] == e);
        assert(s.push(e).skip(1) =~= Seq::<(String, Origin)>::empty());
        assert(spec_get(s, k) is None);
        if e.0@ == k {
            assert(spec_get(s.push(e), k) == Some(e.1.url@));
        } else {
            assert(spec_get(s.push(e), k) == spec_get(s.push(e).skip(1), k));
            assert(spec_get(s.push(e).skip(1), k) is None);
        }
    } else {
        assert(s.push(e)[0] == s[0]);
        assert(s.push(e).skip(1) =~= s.skip(1).push(e));
        lemma_spec_get_push(s.skip(1), e, k);
        if s[0].0@ == k {
            assert(spec_get(s.push(e), k) == Some(s[0].1.url@));
            assert(spec_get(s, k) == Some(s[0].1.url@));
        } else {
            assert(spec_get(s.push(e), k) == spec_get(s.skip(1).push(e), k));
            assert(spec_get(s, k) == spec_get(s.skip(1), k));
        }
    }
}

proof fn lemma_spec_get_remove(s: Seq<(String, Origin)>, i: int, k: Seq<char>)
    requires
        distinct_keys(s),
        0 <= i < s.len(),
    ensures
        spec_get(s.remove(i), k) == (if s[i].0@ == k {
            None::<Seq<char>>
        } else {
            spec_get(s, k)
        }),
    decreases s.len(),
{
    if i == 0 {
        assert(s.remove(0) =~= s.skip(1));
        if s[0].0@ == k {
            assert forall|j: int| 0 <= j < s.skip(1).len() implies s.skip(1)[j].0@ != k by {
                assert(s.skip(1)[j] == s[j + 1]);
            }
            lemma_spec_get_absent(s.skip(1), k);
        }
    } else {
        assert(s.remove(i)[0] == s[0]);
        assert(s.remove(i).skip(1) =~= s.skip(1).remove(i - 1));
        lemma_distinct_skip(s);
        assert(s.skip(1)[i - 1] == s[i]);
        lemma_spec_get_remove(s.skip(1), i - 1, k);
    }
}

/// The namespace-keyed store. At most one origin per namespace at any
/// instant: an existing claim is never overwritten.
pub struct Registry {
    entries: Vec<(String, Origin)>,
}

impl View for Registry {
    type V = Map<Seq<char>, Seq<char>>;

    /// The registry as a map from namespace to the claiming origin's url.
    closed spec fn view(&self) -> Map<Seq<char>, Seq<char>> {
        Map::new(
            |k: Seq<char>| spec_get(self.entries@, k) is Some,
            |k: Seq<char>| spec_get(self.entries@, k)->Some_0,
        )
    }
}

impl Registry {
    /// Entries never repeat a key.
    pub closed spec fn wf(self) -> bool {
        distinct_keys(self.entries@)
    }

    /// An empty registry.
    pub fn new() -> (r: Registry)
        ensures
            r.wf(),
            r@ == Map::<Seq<char>, Seq<char>>::empty(),
    {
        let r = Registry { entries: Vec::new() };
        proof {
            assert(r@ =~= Map::<Seq<char>, Seq<char>>::empty());
        }
        r
    }

    /// Index of the entry holding `namespace`, if any.
    fn find(&self, namespace: &String) -> (r: Option<usize>)
        ensures
            match r {
                Some(i) => i < self.entries@.len() && self.entries@[i as int].0@ == namespace@,
                None => forall|i: int|
                    0 <= i < self.entries@.len() ==> self.entries@[i].0@ != namespace@,
            },
    {
        let mut i: usize = 0;
        while i < self.entries.len()
            invariant
                i <= self.entries@.len(),
                forall|j: int| 0 <= j < i ==> self.entries@[j].0@ != namespace@,
            decreases self.entries@.len() - i,
        {
            if self.entries[i].0 == *namespace {
                return Some(i);
            }
            i += 1;
        }
        None
    }

    /// Looks up the origin registered under `namespace`.
    pub fn get(&self, namespace: &String) -> (r: Result<Origin, ApiError>)
        requires
            self.wf(),
        ensures
            self@.contains_key(namespace@) ==> r is Ok && r->Ok_0.url@ == self@[namespace@],
            !self@.contains_key(namespace@) ==> r == Err::<Origin, ApiError>(ApiError::NotFound),
    {
        match self.find(namespace) {
            Some(i) => {
                proof {
                    lemma_spec_get_present(self.entries@, namespace@, i as int);
                }
                Ok(self.entries[i].1.clone())
            },
            None => {
                proof {
                    lemma_spec_get_absent(self.entries@, namespace@);
                }
                Err(ApiError::NotFound)
            },
        }
    }

    /// Claims `namespace` for `origin`: inserts only if absent, and never
    /// overwrites an existing claim (first writer wins).
    pub fn set(&mut self, namespace: &String, origin: Origin) -> (r: Result<(), ApiError>)
        requires
            old(self).wf(),
        ensures
            final(self).wf(),
            old(self)@.contains_key(namespace@) ==> r == Err::<(), ApiError>(ApiError::Duplicate)
                && final(self)@ == old(self)@,
            !old(self)@.contains_key(namespace@) ==> r is Ok && final(self)@ == old(
                self,
            )@.insert(namespace@, origin.url@),
    {
        match self.find(namespace) {
            Some(i) => {
                proof {
                    lemma_spec_get_present(self.entries@, namespace@, i as int);
                }
                Err(ApiError::Duplicate)
            },
            None => {
                proof {
                    lemma_spec_get_absent(self.entries@, namespace@);
                }
                let ghost s0 = self.entries@;
                let ghost u = origin.url@;
                let key = namespace.clone();
                self.entries.push((key, origin));
                proof {
                    let e = self.entries@.last();
                    assert(self.entries@ =~= s0.push(e));
                    assert forall|i: int, j: int|
                        0 <= i < j < self.entries@.len() implies self.entries@[i].0@
                        != self.entries@[j].0@ by {
                        if j < s0.len() {
                            assert(self.entries@[i] == s0[i]);
                            assert(self.entries@[j] == s0[j]);
                        } else {
                            assert(self.entries@[i] == s0[i]);
                            assert(self.entries@[j] == e);
                        }
                    }
                    assert forall|k: Seq<char>|
                        #[trigger] spec_get(self.entries@, k) == (if spec_get(s0, k) is Some {
                            spec_get(s0, k)
                        } else if k == namespace@ {
                            Some(u)
                        } else {
                            None::<Seq<char>>
                        }) by {
                        lemma_spec_get_push(s0, e, k);
                    }
                    assert(self@ =~= old(self)@.insert(namespace@, u));
                }
                Ok(())
            },
        }
    }

    /// Removes the claim on `namespace` if one exists.
    pub fn delete(&mut self, namespace: &String) -> (r: Result<(), ApiError>)
        requires
            old(self).wf(),
        ensures
            final(self).wf(),
            old(self)@.contains_key(namespace@) ==> r is Ok && final(self)@ == old(self)@.remove(
                namespace@,
            ),
            !old(self)@.contains_key(namespace@) ==> r == Err::<(), ApiError>(ApiError::NotFound)
                && final(self)@ == old(self)@,
    {
        match self.find(namespace) {
            Some(i) => {
                proof {
                    lemma_spec_get_present(self.entries@, namespace@, i as int);
                }
                let ghost s0 = self.entries@;
                self.entries.remove(i);
                proof {
                    assert forall|m: int, n: int|
                        0 <= m < n < self.entries@.len() implies self.entries@[m].0@
                        != self.entries@[n].0@ by {
                        if m < i {
                            assert(self.entries@[m] == s0[m]);
                        } else {
                            assert(self.entries@[m] == s0[m + 1]);
                        }
                        if n < i {
                            assert(self.entries@[n] == s0[n]);
                        } else {
                            assert(self.entries@[n] == s0[n + 1]);
                        }
                    }
                    assert forall|k: Seq<char>|
                        #[trigger] spec_get(self.entries@, k) == (if k == namespace@ {
                            None::<Seq<char>>
                        } else {
                            spec_get(s0, k)
                        }) by {
                        lemma_spec_get_remove(s0, i as int, k);
                    }
                    assert(self@ =~= old(self)@.remove(namespace@));
                }
                Ok(())
            },
            None => {
                proof {
                    lemma_spec_get_absent(self.entries@, namespace@);
                }
                Err(ApiError::NotFound)
            },
        }
    }

    /// Heartbeat refresh: succeeds, changing nothing, exactly when `origin`
    /// equals the stored claim; a conflicting origin is refused rather than
    /// adopted, and an absent namespace is reported as such.
    pub fn patch(&mut self, namespace: &String, origin: Origin) -> (r: Result<(), ApiError>)
        requires
            old(self).wf(),
        ensures
            final(self).wf(),
            final(self)@ == old(self)@,
            !old(self)@.contains_key(namespace@) ==> r == Err::<(), ApiError>(ApiError::NotFound),
            old(self)@.contains_key(namespace@) && old(self)@[namespace@] == origin.url@ ==> r
                is Ok,
            old(self)@.contains_key(namespace@) && old(self)@[namespace@] != origin.url@ ==> r
                == Err::<(), ApiError>(ApiError::Duplicate),
    {
        match self.find(namespace) {
            Some(i) => {
                proof {
                    lemma_spec_get_present(self.entries@, namespace@, i as int);
                }
                if self.entries[i].1.url == origin.url {
                    Ok(())
                } else {
                    Err(ApiError::Duplicate)
                }
            },
            None => {
                proof {
                    lemma_spec_get_absent(self.entries@, namespace@);
                }
                Err(ApiError::NotFound)
            },
        }
    }
}

/// One claim attempt on the registry model: inserts only when the namespace
/// is absent, as `set` does.
pub open spec fn claim(m: Map<Seq<char>, Seq<char>>, k: Seq<char>, v: Seq<char>) -> Map<
    Seq<char>,
    Seq<char>,
> {
    if m.contains_key(k) {
        m
    } else {
        m.insert(k, v)
    }
}

/// Whether a claim attempt succeeds: exactly when the namespace is absent.
pub open spec fn claim_ok(m: Map<Seq<char>, Seq<char>>, k: Seq<char>, v: Seq<char>) -> bool {
    !m.contains_key(k)
}

/// The claims `vs`, applied in arrival order.
pub open spec fn claim_all(m: Map<Seq<char>, Seq<char>>, k: Seq<char>, vs: Seq<Seq<char>>) -> Map<
    Seq<char>,
    Seq<char>,
>
    decreases vs.len(),
{
    if vs.len() == 0 {
        m
    } else {
        claim_all(claim(m, k, vs[0]), k, vs.skip(1))
    }
}

/// Once a namespace is claimed, any number of further claims change nothing.
pub proof fn lemma_claim_all_keeps(m: Map<Seq<char>, Seq<char>>, k: Seq<char>, vs: Seq<Seq<char>>)
    requires
        m.contains_key(k),
    ensures
        claim_all(m, k, vs) == m,
    decreases vs.len(),
{
    if vs.len() > 0 {
        lemma_claim_all_keeps(m, k, vs.skip(1));
    }
}

/// Registry exclusivity: after a successful claim the namespace is held with
/// the claimed origin, so a second claim is refused and a lookup still finds
/// the first origin.
pub proof fn lemma_registry_exclusive(
    m: Map<Seq<char>, Seq<char>>,
    k: Seq<char>,
    v1: Seq<char>,
    v2: Seq<char>,
)
    requires
        !m.contains_key(k),
    ensures
        m.insert(k, v1).contains_key(k),
        m.insert(k, v1)[k] == v1,
        !claim_ok(m.insert(k, v1), k, v2),
        claim(m.insert(k, v1), k, v2) == m.insert(k, v1),
{
}

/// Registry lifecycle: a claim makes the origin visible, deleting it makes
/// the namespace absent again, and a second delete finds nothing.
pub proof fn lemma_registry_lifecycle(m: Map<Seq<char>, Seq<char>>, k: Seq<char>, v: Seq<char>)
    requires
        !m.contains_key(k),
    ensures
        m.insert(k, v).contains_key(k),
        m.insert(k, v)[k] == v,
        !m.insert(k, v).remove(k).contains_key(k),
{
}

/// Concurrent claim: however many claims race for an absent namespace, in
/// whatever arrival order they resolve, the first one wins, every later one
/// is refused, and the stored origin is the winner's.
pub proof fn lemma_first_claim_wins(m: Map<Seq<char>, Seq<char>>, k: Seq<char>, vs: Seq<Seq<char>>)
    requires
        !m.contains_key(k),
        vs.len() > 0,
    ensures
        claim_all(m, k, vs).contains_key(k),
        claim_all(m, k, vs)[k] == vs[0],
        claim_ok(m, k, vs[0]),
        forall|i: int| 1 <= i < vs.len() ==> !claim_ok(claim_all(m, k, vs.take(i)), k, vs[i]),
{
    let m1 = m.insert(k, vs[0]);
    lemma_claim_all_keeps(m1, k, vs.skip(1));
    assert forall|i: int| 1 <= i < vs.len() implies !claim_ok(
        claim_all(m, k, vs.take(i)),
        k,
        vs[i],
    ) by {
        let t = vs.take(i);
        assert(t[0] == vs[0]);
        lemma_claim_all_keeps(m1, k, t.skip(1));
        assert(claim_all(m, k, t) == claim_all(m1, k, t.skip(1)));
    }
}

} // verus!
