//! Broadcast namespace: a hierarchical identity made of ordered, opaque
//! UTF-8 segments, built by splitting a slash-delimited path. Two namespaces
//! are equal exactly when their segment sequences are element-wise equal.

use vstd::prelude::*;

verus! {

/// Segments joined with the path delimiter: the inverse of parsing. A path
/// splits into the one segment sequence that joins back to it with no
/// segment containing the delimiter.
pub open spec fn join_segments(segs: Seq<Seq<char>>) -> Seq<char>
    decreases segs.len(),
{
    if segs.len() == 0 {
        Seq::empty()
    } else if segs.len() == 1 {
        segs[0]
    } else {
        join_segments(segs.drop_last()) + seq!['/'] + segs.last()
    }
}

/// One broadcast's identity: the registry key and the name negotiated during
/// a subscribe handshake. Immutable once constructed.
pub struct Namespace {
    segments: Vec<String>,
}

impl View for Namespace {
    type V = Seq<Seq<char>>;

    /// The ordered segment sequence.
    closed spec fn view(&self) -> Seq<Seq<char>> {
        self.segments@.map_values(|s: String| s@)
    }
}

impl Namespace {
    /// Splits `path` on the delimiter, with no normalization beyond segment
    /// boundaries: the result joins back to `path` and no segment holds a
    /// delimiter, which pins the split down uniquely. An empty path gives
    /// one empty segment.
    pub fn parse(path: &str) -> (r: Namespace)
        ensures
            join_segments(r@) == path@,
            r@.len() >= 1,
            forall|i: int| 0 <= i < r@.len() ==> !r@[i].contains('/'),
    {
        let n = path.unicode_len();
        let mut segments: Vec<String> = Vec::new();
        let mut start: usize = 0;
        let mut i: usize = 0;
        while i < n
            invariant
                n == path@.len(),
                start <= i <= n,
                segments@.map_values(|s: String| s@).len() == 0 ==> start == 0,
                segments@.map_values(|s: String| s@).len() > 0 ==> 1 <= start && path@[start - 1]
                    == '/' && join_segments(segments@.map_values(|s: String| s@)) == path@.take(
                    start - 1,
                ),
                forall|k: int|
                    0 <= k < segments@.len() ==> !(#[trigger] segments@[k])@.contains('/'),
                forall|j: int| start <= j < i ==> path@[j] != '/',
            decreases n - i,
        {
            let c = path.get_char(i);
            if c == '/' {
                let ghost v0 = segments@.map_values(|s: String| s@);
                let seg = path.substring_char(start, i).to_owned();
                let ghost sv = seg@;
                segments.push(seg);
                proof {
                    let v1 = segments@.map_values(|s: String| s@);
                    assert(v1 =~= v0.push(sv));
                    assert forall|k: int| 0 <= k < sv.len() implies sv[k] != '/' by {
                        assert(sv[k] == path@[start + k]);
                    }
                    assert(!sv.contains('/'));
                    if v0.len() == 0 {
                        assert(join_segments(v1) == sv);
                        assert(sv =~= path@.take(i as int));
                    } else {
                        assert(v1.drop_last() =~= v0);
                        assert(join_segments(v1) == join_segments(v0) + seq!['/'] + sv);
                        assert(join_segments(v0) + seq!['/'] + sv =~= path@.take(i as int));
                    }
                }
                start = i + 1;
            }
            i += 1;
        }
        let ghost v0 = segments@.map_values(|s: String| s@);
        let seg = path.substring_char(start, n).to_owned();
        let ghost sv = seg@;
        segments.push(seg);
        proof {
            let v1 = segments@.map_values(|s: String| s@);
            assert(v1 =~= v0.push(sv));
            assert forall|k: int| 0 <= k < sv.len() implies sv[k] != '/' by {
                assert(sv[k] == path@[start + k]);
            }
            assert(!sv.contains('/'));
            if v0.len() == 0 {
                assert(join_segments(v1) == sv);
                assert(sv =~= path@);
            } else {
                assert(v1.drop_last() =~= v0);
                assert(join_segments(v1) == join_segments(v0) + seq!['/'] + sv);
                assert(join_segments(v0) + seq!['/'] + sv =~= path@);
            }
        }
        Namespace { segments }
    }

    /// How many segments the namespace has.
    pub fn len(&self) -> (r: usize)
        ensures
            r == self@.len(),
    {
        self.segments.len()
    }

    /// The segment at `i`.
    pub fn segment(&self, i: usize) -> (r: &String)
        requires
            i < self@.len(),
        ensures
            r@ == self@[i as int],
    {
        &self.segments[i]
    }

    /// Element-wise equality over the full segment sequences: the equality
    /// the registry keys on.
    pub fn same_as(&self, other: &Namespace) -> (r: bool)
        ensures
            r == (self@ == other@),
    {
        if self.segments.len() != other.segments.len() {
            proof {
                assert(self@.len() != other@.len());
            }
            return false;
        }
        let mut i: usize = 0;
        while i < self.segments.len()
            invariant
                i <= self@.len(),
                self@.len() == other@.len(),
                self@.len() == self.segments@.len(),
                other@.len() == other.segments@.len(),
                forall|j: int| 0 <= j < i ==> self@[j] == other@[j],
            decreases self@.len() - i,
        {
            if !(self.segments[i] == other.segments[i]) {
                proof {
                    assert(self@[i as int] != other@[i as int]);
                }
                return false;
            }
            i += 1;
        }
        proof {
            assert(self@ =~= other@);
        }
        true
    }
}

} // verus!
