//! A partial-coverage cache over period indexes: it remembers which keys
//! have already been requested, stores the data that came back, and
//! answers a request either with the cached data or with the minimal list
//! of contiguous key groups still missing.

use vstd::prelude::*;

verus! {

/// A sequence of keys that grows strictly.
pub open spec fn sorted_keys(s: Seq<i64>) -> bool {
    forall|i: int| 0 <= i < s.len() - 1 ==> #[trigger] s[i] < s[i + 1]
}

/// An association list whose keys grow strictly.
pub open spec fn sorted_entries<T>(s: Seq<(i64, T)>) -> bool {
    forall|i: int| 0 <= i < s.len() - 1 ==> (#[trigger] s[i]).0 < s[i + 1].0
}

/// The union of two strictly sorted key sequences, merged in order.
pub open spec fn merge_sets(a: Seq<i64>, b: Seq<i64>) -> Seq<i64>
    decreases a.len() + b.len(),
{
    if a.len() == 0 {
        b
    } else if b.len() == 0 {
        a
    } else if a[0] < b[0] {
        seq![a[0]] + merge_sets(a.drop_first(), b)
    } else if b[0] < a[0] {
        seq![b[0]] + merge_sets(a, b.drop_first())
    } else {
        seq![a[0]] + merge_sets(a.drop_first(), b.drop_first())
    }
}

/// The union of two strictly key-sorted association lists, where an entry
/// of `b` replaces an entry of `a` with the same key.
pub open spec fn merge_entries<T>(a: Seq<(i64, T)>, b: Seq<(i64, T)>) -> Seq<(i64, T)>
    decreases a.len() + b.len(),
{
    if a.len() == 0 {
        b
    } else if b.len() == 0 {
        a
    } else if a[0].0 < b[0].0 {
        seq![a[0]] + merge_entries(a.drop_first(), b)
    } else if b[0].0 < a[0].0 {
        seq![b[0]] + merge_entries(a, b.drop_first())
    } else {
        seq![b[0]] + merge_entries(a.drop_first(), b.drop_first())
    }
}

/// The groups of consecutive keys of `req` that are not in `known`,
/// closed whenever a key of `known` interrupts the walk.
pub open spec fn missing_groups(req: Seq<i64>, known: Seq<i64>) -> Seq<Seq<i64>>
    decreases req.len(),
{
    if req.len() == 0 {
        Seq::empty()
    } else if known.contains(req[0]) {
        missing_groups(req.drop_first(), known)
    } else if req.len() > 1 && !known.contains(req[1]) {
        let g = missing_groups(req.drop_first(), known);
        seq![seq![req[0]] + g[0]] + g.drop_first()
    } else {
        seq![seq![req[0]]] + missing_groups(req.drop_first(), known)
    }
}

/// When the walk's first key is missing, the first group starts with it.
pub proof fn lemma_missing_groups_head(req: Seq<i64>, known: Seq<i64>)
    requires
        req.len() > 0,
        !known.contains(req[0]),
    ensures
        missing_groups(req, known).len() > 0,
        missing_groups(req, known)[0].len() > 0,
        missing_groups(req, known)[0][0] == req[0],
    decreases req.len(),
{
    if req.len() > 1 && !known.contains(req[1]) {
        lemma_missing_groups_head(req.drop_first(), known);
    }
}

/// Whether some key of `a` is outside `b`.
fn keys_subset(a: &Vec<i64>, b: &Vec<i64>) -> (r: bool)
    ensures
        r == forall|k: i64| a@.contains(k) ==> b@.contains(k),
{
    let mut i: usize = 0;
    while i < a.len()
        invariant
            i <= a@.len(),
            forall|t: int| 0 <= t < i ==> b@.contains(#[trigger] a@[t]),
        decreases a@.len() - i,
    {
        if !contains_key(b, a[i]) {
            assert(a@.contains(a@[i as int]));
            return false;
        }
        i = i + 1;
    }
    assert forall|k: i64| a@.contains(k) implies b@.contains(k) by {
        let t = choose|t: int| 0 <= t < a@.len() && a@[t] == k;
        assert(b@.contains(a@[t]));
    }
    true
}

/// Whether a key occurs in a key sequence.
fn contains_key(v: &Vec<i64>, key: i64) -> (r: bool)
    ensures
        r == v@.contains(key),
{
    let mut i: usize = 0;
    while i < v.len()
        invariant
            i <= v@.len(),
            forall|t: int| 0 <= t < i ==> v@[t] != key,
        decreases v@.len() - i,
    {
        if v[i] == key {
            assert(v@.contains(key));
            return true;
        }
        i = i + 1;
    }
    false
}

/// The minimal contiguous key groups of `request` that are not already
/// covered by `requests`: walking `request` in order, consecutive keys not
/// in `requests` gather into a group, and a key that is in `requests`
/// closes the group. When `request` is contiguous, each emitted group is a
/// maximal contiguous run of missing keys.
pub fn missing_pieces(request: &Vec<i64>, requests: &Vec<i64>) -> (r: Vec<Vec<i64>>)
    ensures
        r@.len() == missing_groups(request@, requests@).len(),
        forall|i: int|
            0 <= i < r@.len() ==> (#[trigger] r@[i])@ == missing_groups(request@, requests@)[i],
{
    let ghost s = request@;
    let mut out: Vec<Vec<i64>> = Vec::new();
    let mut i: usize = request.len();
    proof {
        assert(s.skip(i as int) =~= Seq::<i64>::empty());
    }
    while i > 0
        invariant
            s == request@,
            0 <= i <= s.len(),
            out@.len() == missing_groups(s.skip(i as int), requests@).len(),
            forall|t: int|
                0 <= t < out@.len() ==> (#[trigger] out@[t])@ == missing_groups(
                    s.skip(i as int),
                    requests@,
                )[t],
        decreases i,
    {
        i = i - 1;
        let ghost tail = s.skip(i as int);
        proof {
            assert(tail.drop_first() =~= s.skip(i as int + 1));
            assert(tail[0] == s[i as int]);
        }
        let x = request[i];
        if contains_key(requests, x) {
            // A known key: the walk closes here; the groups are those of
            // the remainder.
        } else if i + 1 < request.len() && !contains_key(requests, request[i + 1]) {
            // The next key is missing too: extend the first group.
            proof {
                assert(tail[1] == s[i as int + 1]);
                lemma_missing_groups_head(s.skip(i as int + 1), requests@);
            }
            let ghost old_out = out@;
            let mut first = out.remove(0);
            let ghost old_first = first@;
            first.insert(0, x);
            out.insert(0, first);
            proof {
                let mg = missing_groups(tail, requests@);
                let g = missing_groups(s.skip(i as int + 1), requests@);
                assert(old_first == g[0]);
                assert(first@ =~= seq![x] + old_first);
                assert(out@ =~= seq![first] + old_out.drop_first());
                assert forall|t: int| 0 <= t < out@.len() implies (#[trigger] out@[t])@ == mg[t]
                by {
                    if t == 0 {
                        assert(mg[0] == seq![tail[0]] + g[0]);
                    } else {
                        assert(out@[t] == old_out[t]);
                        assert(mg[t] == g.drop_first()[t - 1]);
                        assert(g.drop_first()[t - 1] == g[t]);
                    }
                }
            }
        } else {
            // Open a fresh group holding this key alone.
            let ghost old_out = out@;
            let mut single: Vec<i64> = Vec::new();
            single.push(x);
            out.insert(0, single);
            proof {
                let mg = missing_groups(tail, requests@);
                let g = missing_groups(s.skip(i as int + 1), requests@);
                assert(single@ =~= seq![x]);
                assert(out@ =~= seq![single] + old_out);
                assert forall|t: int| 0 <= t < out@.len() implies (#[trigger] out@[t])@ == mg[t]
                by {
                    if t > 0 {
                        assert(out@[t] == old_out[t - 1]);
                        assert(mg[t] == g[t - 1]);
                    }
                }
            }
        }
    }
    proof {
        assert(s.skip(0) =~= s);
    }
    out
}

/// What a cache lookup answers: everything asked for is at hand, with the
/// cached pairs inside the request's bounds, or the contiguous groups of
/// keys that still have to be fetched.
pub enum CacheResponse<T> {
    Hit(Vec<(i64, T)>),
    Miss(Vec<Vec<i64>>),
}

/// The cache: the data that came back, keyed by period index, and the set
/// of keys that have been requested, whether or not a value came back.
pub struct Cache<T> {
    pub data: Vec<(i64, T)>,
    pub requests: Vec<i64>,
}

impl<T: Copy> Cache<T> {
    /// Validity: both stores are strictly sorted by key.
    pub open spec fn wf(self) -> bool {
        &&& sorted_entries(self.data@)
        &&& sorted_keys(self.requests@)
    }

    /// A cache with nothing requested and nothing stored.
    pub fn empty() -> (r: Cache<T>)
        ensures
            r.wf(),
            r.data@ =~= Seq::<(i64, T)>::empty(),
            r.requests@ =~= Seq::<i64>::empty(),
    {
        Cache { data: Vec::new(), requests: Vec::new() }
    }

    /// Answer a request: an empty request is a hit with nothing in it; a
    /// request fully covered by earlier requests is a hit carrying every
    /// cached pair within the request's bounds (which may include keys
    /// between requested ones); anything else is a miss naming the
    /// missing contiguous key groups.
    pub fn get(&self, request: &Vec<i64>) -> (r: CacheResponse<T>)
        requires
            self.wf(),
            sorted_keys(request@),
        ensures
            request@.len() == 0 ==> (r matches CacheResponse::Hit(m) && m@.len() == 0),
            request@.len() > 0 && (forall|k: i64|
                request@.contains(k) ==> self.requests@.contains(k)) ==> (r matches
            CacheResponse::Hit(m) && m@ == self.data@.filter(
                |p: (i64, T)| request@[0] <= p.0 <= request@[request@.len() - 1],
            )),
            request@.len() > 0 && !(forall|k: i64|
                request@.contains(k) ==> self.requests@.contains(k)) ==> (r matches
            CacheResponse::Miss(g) && g@.len() == missing_groups(request@, self.requests@).len()
                && (forall|i: int|
                0 <= i < g@.len() ==> (#[trigger] g@[i])@ == missing_groups(
                    request@,
                    self.requests@,
                )[i])),
    {
        if request.len() == 0 {
            CacheResponse::Hit(Vec::new())
        } else if keys_subset(request, &self.requests) {
            let lo = request[0];
            let hi = request[request.len() - 1];
            let ghost pred = |p: (i64, T)| request@[0] <= p.0 <= request@[request@.len() - 1];
            let mut m: Vec<(i64, T)> = Vec::new();
            let mut i: usize = 0;
            proof {
                assert(self.data@.take(0) =~= Seq::<(i64, T)>::empty());
                reveal_with_fuel(Seq::filter, 1);
                assert(m@ =~= self.data@.take(0).filter(pred));
            }
            while i < self.data.len()
                invariant
                    self.wf(),
                    request@.len() > 0,
                    lo == request@[0],
                    hi == request@[request@.len() - 1],
                    pred == (|p: (i64, T)| request@[0] <= p.0 <= request@[request@.len() - 1]),
                    i <= self.data@.len(),
                    m@ == self.data@.take(i as int).filter(pred),
                decreases self.data@.len() - i,
            {
                let p = self.data[i];
                proof {
                    reveal_with_fuel(Seq::filter, 2);
                    assert(self.data@.take(i as int + 1).drop_last() =~= self.data@.take(
                        i as int,
                    ));
                    assert(self.data@.take(i as int + 1).last() == self.data@[i as int]);
                }
                if lo <= p.0 && p.0 <= hi {
                    m.push(p);
                }
                i = i + 1;
            }
            proof {
                assert(self.data@.take(self.data@.len() as int) =~= self.data@);
            }
            CacheResponse::Hit(m)
        } else {
            CacheResponse::Miss(missing_pieces(request, &self.requests))
        }
    }

    /// Record a fulfilled request: the requested keys join the request
    /// set, and each returned pair is stored, replacing any value a key
    /// already had.
    pub fn add(&mut self, request_range: &Vec<i64>, data: &Vec<(i64, T)>)
        requires
            old(self).wf(),
            sorted_keys(request_range@),
            sorted_entries(data@),
        ensures
            final (self).wf(),
            final (self).requests@ == merge_sets(old(self).requests@, request_range@),
            final (self).data@ == merge_entries(old(self).data@, data@),
    {
        let new_requests = union_sets(&self.requests, request_range);
        let new_data = union_entries(&self.data, data);
        self.requests = new_requests;
        self.data = new_data;
    }
}

/// Dropping the first key keeps a key sequence strictly sorted.
proof fn lemma_sorted_keys_drop(a: Seq<i64>)
    requires
        sorted_keys(a),
        a.len() > 0,
    ensures
        sorted_keys(a.drop_first()),
{
    assert forall|i: int| 0 <= i < a.len() - 2 implies #[trigger] a.drop_first()[i]
        < a.drop_first()[i + 1] by {
        assert(a.drop_first()[i] == a[i + 1]);
        assert(a.drop_first()[i + 1] == a[i + 2]);
    }
}

/// The head of a merge is the smaller of the two heads.
proof fn lemma_merge_sets_head(a: Seq<i64>, b: Seq<i64>)
    requires
        merge_sets(a, b).len() > 0,
    ensures
        a.len() > 0 || b.len() > 0,
        merge_sets(a, b)[0] == if a.len() == 0 {
            b[0]
        } else if b.len() == 0 {
            a[0]
        } else if a[0] <= b[0] {
            a[0]
        } else {
            b[0]
        },
{
}

/// Merging two strictly sorted key sequences yields a strictly sorted
/// key sequence.
pub proof fn lemma_merge_sets_sorted(a: Seq<i64>, b: Seq<i64>)
    requires
        sorted_keys(a),
        sorted_keys(b),
    ensures
        sorted_keys(merge_sets(a, b)),
    decreases a.len() + b.len(),
{
    if a.len() == 0 || b.len() == 0 {
    } else {
        lemma_sorted_keys_drop(a);
        lemma_sorted_keys_drop(b);
        let m = merge_sets(a, b);
        let h = m[0];
        let rest = if a[0] < b[0] {
            merge_sets(a.drop_first(), b)
        } else if b[0] < a[0] {
            merge_sets(a, b.drop_first())
        } else {
            merge_sets(a.drop_first(), b.drop_first())
        };
        if a[0] < b[0] {
            lemma_merge_sets_sorted(a.drop_first(), b);
        } else if b[0] < a[0] {
            lemma_merge_sets_sorted(a, b.drop_first());
        } else {
            lemma_merge_sets_sorted(a.drop_first(), b.drop_first());
        }
        if rest.len() > 0 {
            if a[0] < b[0] {
                lemma_merge_sets_head(a.drop_first(), b);
            } else if b[0] < a[0] {
                lemma_merge_sets_head(a, b.drop_first());
            } else {
                lemma_merge_sets_head(a.drop_first(), b.drop_first());
            }
            assert(h < rest[0]);
        }
        assert forall|i: int| 0 <= i < m.len() - 1 implies #[trigger] m[i] < m[i + 1] by {
            if i == 0 {
                assert(m[1] == rest[0]);
            } else {
                assert(m[i] == rest[i - 1]);
                assert(m[i + 1] == rest[i]);
            }
        }
    }
}

/// The sorted merge of two strictly sorted key sequences.
#[verifier::rlimit(50)]
fn union_sets(a: &Vec<i64>, b: &Vec<i64>) -> (r: Vec<i64>)
    requires
        sorted_keys(a@),
        sorted_keys(b@),
    ensures
        r@ == merge_sets(a@, b@),
        sorted_keys(r@),
{
    let mut out: Vec<i64> = Vec::new();
    let mut i: usize = 0;
    let mut j: usize = 0;
    proof {
        lemma_merge_sets_sorted(a@, b@);
        assert(a@.skip(0) =~= a@);
        assert(b@.skip(0) =~= b@);
        assert(out@ + merge_sets(a@.skip(0), b@.skip(0)) =~= merge_sets(a@, b@));
    }
    while i < a.len() || j < b.len()
        invariant
            sorted_keys(a@),
            sorted_keys(b@),
            i <= a@.len(),
            j <= b@.len(),
            merge_sets(a@, b@) == out@ + merge_sets(a@.skip(i as int), b@.skip(j as int)),
        decreases a@.len() - i + b@.len() - j,
    {
        let ghost ta = a@.skip(i as int);
        let ghost tb = b@.skip(j as int);
        proof {
            assert(ta.len() > 0 ==> ta[0] == a@[i as int]);
            assert(tb.len() > 0 ==> tb[0] == b@[j as int]);
            assert(ta.len() > 0 ==> ta.drop_first() =~= a@.skip(i as int + 1));
            assert(tb.len() > 0 ==> tb.drop_first() =~= b@.skip(j as int + 1));
        }
        if j >= b.len() || (i < a.len() && a[i] < b[j]) {
            let ghost old_out = out@;
            out.push(a[i]);
            proof {
                let rest = merge_sets(a@.skip(i as int + 1), b@.skip(j as int));
                if tb.len() == 0 {
                    assert(merge_sets(ta, tb) == ta);
                    assert(merge_sets(a@.skip(i as int + 1), tb) == a@.skip(i as int + 1));
                    assert(ta =~= seq![ta[0]] + a@.skip(i as int + 1));
                }
                assert(merge_sets(ta, tb) =~= seq![ta[0]] + rest);
                assert(old_out + merge_sets(ta, tb) =~= out@ + rest);
            }
            i = i + 1;
        } else if i >= a.len() || b[j] < a[i] {
            let ghost old_out = out@;
            out.push(b[j]);
            proof {
                let rest = merge_sets(a@.skip(i as int), b@.skip(j as int + 1));
                if ta.len() == 0 {
                    assert(merge_sets(ta, tb) == tb);
                    assert(merge_sets(ta, b@.skip(j as int + 1)) == b@.skip(j as int + 1));
                    assert(tb =~= seq![tb[0]] + b@.skip(j as int + 1));
                }
                assert(merge_sets(ta, tb) =~= seq![tb[0]] + rest);
                assert(old_out + merge_sets(ta, tb) =~= out@ + rest);
            }
            j = j + 1;
        } else {
            let ghost old_out = out@;
            out.push(a[i]);
            proof {
                let rest = merge_sets(a@.skip(i as int + 1), b@.skip(j as int + 1));
                assert(merge_sets(ta, tb) =~= seq![ta[0]] + rest);
                assert(old_out + merge_sets(ta, tb) =~= out@ + rest);
            }
            i = i + 1;
            j = j + 1;
        }
    }
    proof {
        assert(a@.skip(i as int).len() == 0);
        assert(b@.skip(j as int).len() == 0);
        assert(merge_sets(a@.skip(i as int), b@.skip(j as int)) =~= Seq::<i64>::empty());
        assert(out@ =~= out@ + merge_sets(a@.skip(i as int), b@.skip(j as int)));
        lemma_merge_sets_sorted(a@, b@);
    }
    out
}

/// Dropping the first entry keeps an association list strictly
/// key-sorted.
proof fn lemma_sorted_entries_drop<T>(a: Seq<(i64, T)>)
    requires
        sorted_entries(a),
        a.len() > 0,
    ensures
        sorted_entries(a.drop_first()),
{
    assert forall|i: int| 0 <= i < a.len() - 2 implies (#[trigger] a.drop_first()[i]).0
        < a.drop_first()[i + 1].0 by {
        assert(a.drop_first()[i] == a[i + 1]);
        assert(a.drop_first()[i + 1] == a[i + 2]);
    }
}

/// The head of an entry merge carries the smaller of the two head keys.
proof fn lemma_merge_entries_head<T>(a: Seq<(i64, T)>, b: Seq<(i64, T)>)
    requires
        merge_entries(a, b).len() > 0,
    ensures
        a.len() > 0 || b.len() > 0,
        merge_entries(a, b)[0].0 == if a.len() == 0 {
            b[0].0
        } else if b.len() == 0 {
            a[0].0
        } else if a[0].0 <= b[0].0 {
            a[0].0
        } else {
            b[0].0
        },
{
}

/// Merging two strictly key-sorted association lists yields a strictly
/// key-sorted association list.
pub proof fn lemma_merge_entries_sorted<T>(a: Seq<(i64, T)>, b: Seq<(i64, T)>)
    requires
        sorted_entries(a),
        sorted_entries(b),
    ensures
        sorted_entries(merge_entries(a, b)),
    decreases a.len() + b.len(),
{
    if a.len() == 0 || b.len() == 0 {
    } else {
        lemma_sorted_entries_drop(a);
        lemma_sorted_entries_drop(b);
        let m = merge_entries(a, b);
        let h = m[0].0;
        let rest = if a[0].0 < b[0].0 {
            merge_entries(a.drop_first(), b)
        } else if b[0].0 < a[0].0 {
            merge_entries(a, b.drop_first())
        } else {
            merge_entries(a.drop_first(), b.drop_first())
        };
        if a[0].0 < b[0].0 {
            lemma_merge_entries_sorted(a.drop_first(), b);
        } else if b[0].0 < a[0].0 {
            lemma_merge_entries_sorted(a, b.drop_first());
        } else {
            lemma_merge_entries_sorted(a.drop_first(), b.drop_first());
        }
        if rest.len() > 0 {
            if a[0].0 < b[0].0 {
                lemma_merge_entries_head(a.drop_first(), b);
            } else if b[0].0 < a[0].0 {
                lemma_merge_entries_head(a, b.drop_first());
            } else {
                lemma_merge_entries_head(a.drop_first(), b.drop_first());
            }
            assert(h < rest[0].0);
        }
        assert forall|i: int| 0 <= i < m.len() - 1 implies (#[trigger] m[i]).0 < m[i + 1].0 by {
            if i == 0 {
                assert(m[1] == rest[0]);
            } else {
                assert(m[i] == rest[i - 1]);
                assert(m[i + 1] == rest[i]);
            }
        }
    }
}

/// The key-sorted merge of two association lists, the second winning on
/// equal keys.
#[verifier::rlimit(50)]
fn union_entries<T: Copy>(a: &Vec<(i64, T)>, b: &Vec<(i64, T)>) -> (r: Vec<(i64, T)>)
    requires
        sorted_entries(a@),
        sorted_entries(b@),
    ensures
        r@ == merge_entries(a@, b@),
        sorted_entries(r@),
{
    let mut out: Vec<(i64, T)> = Vec::new();
    let mut i: usize = 0;
    let mut j: usize = 0;
    proof {
        assert(a@.skip(0) =~= a@);
        assert(b@.skip(0) =~= b@);
        assert(out@ + merge_entries(a@.skip(0), b@.skip(0)) =~= merge_entries(a@, b@));
    }
    while i < a.len() || j < b.len()
        invariant
            sorted_entries(a@),
            sorted_entries(b@),
            i <= a@.len(),
            j <= b@.len(),
            merge_entries(a@, b@) == out@ + merge_entries(a@.skip(i as int), b@.skip(j as int)),
        decreases a@.len() - i + b@.len() - j,
    {
        let ghost ta = a@.skip(i as int);
        let ghost tb = b@.skip(j as int);
        proof {
            assert(ta.len() > 0 ==> ta[0] == a@[i as int]);
            assert(tb.len() > 0 ==> tb[0] == b@[j as int]);
            assert(ta.len() > 0 ==> ta.drop_first() =~= a@.skip(i as int + 1));
            assert(tb.len() > 0 ==> tb.drop_first() =~= b@.skip(j as int + 1));
        }
        if j >= b.len() || (i < a.len() && a[i].0 < b[j].0) {
            let ghost old_out = out@;
            out.push(a[i]);
            proof {
                let rest = merge_entries(a@.skip(i as int + 1), b@.skip(j as int));
                if tb.len() == 0 {
                    assert(merge_entries(ta, tb) == ta);
                    assert(merge_entries(a@.skip(i as int + 1), tb) == a@.skip(i as int + 1));
                    assert(ta =~= seq![ta[0]] + a@.skip(i as int + 1));
                }
                assert(merge_entries(ta, tb) =~= seq![ta[0]] + rest);
                assert(old_out + merge_entries(ta, tb) =~= out@ + rest);
            }
            i = i + 1;
        } else if i >= a.len() || b[j].0 < a[i].0 {
            let ghost old_out = out@;
            out.push(b[j]);
            proof {
                let rest = merge_entries(a@.skip(i as int), b@.skip(j as int + 1));
                if ta.len() == 0 {
                    assert(merge_entries(ta, tb) == tb);
                    assert(merge_entries(ta, b@.skip(j as int + 1)) == b@.skip(j as int + 1));
                    assert(tb =~= seq![tb[0]] + b@.skip(j as int + 1));
                }
                assert(merge_entries(ta, tb) =~= seq![tb[0]] + rest);
                assert(old_out + merge_entries(ta, tb) =~= out@ + rest);
            }
            j = j + 1;
        } else {
            let ghost old_out = out@;
            out.push(b[j]);
            proof {
                let rest = merge_entries(a@.skip(i as int + 1), b@.skip(j as int + 1));
                assert(merge_entries(ta, tb) =~= seq![tb[0]] + rest);
                assert(old_out + merge_entries(ta, tb) =~= out@ + rest);
            }
            i = i + 1;
            j = j + 1;
        }
    }
    proof {
        assert(a@.skip(i as int).len() == 0);
        assert(b@.skip(j as int).len() == 0);
        assert(merge_entries(a@.skip(i as int), b@.skip(j as int)) =~= Seq::<(i64, T)>::empty());
        assert(out@ =~= out@ + merge_entries(a@.skip(i as int), b@.skip(j as int)));
        lemma_merge_entries_sorted(a@, b@);
    }
    out
}


/// The keys of a request that are not yet known, in the request's order.
pub open spec fn missing_list(req: Seq<i64>, known: Seq<i64>) -> Seq<i64>
    decreases req.len(),
{
    if req.len() == 0 {
        Seq::empty()
    } else if known.contains(req[0]) {
        missing_list(req.drop_first(), known)
    } else {
        seq![req[0]] + missing_list(req.drop_first(), known)
    }
}

/// The groups of the gap walk, flattened back into one key sequence.
pub open spec fn flatten_groups(groups: Seq<Seq<i64>>) -> Seq<i64>
    decreases groups.len(),
{
    if groups.len() == 0 {
        Seq::empty()
    } else {
        groups[0] + flatten_groups(groups.drop_first())
    }
}

/// The gap walk loses nothing and invents nothing: its groups, read in
/// order, are exactly the request's keys that are not known, and no
/// group is empty.
pub proof fn lemma_missing_groups_exact(req: Seq<i64>, known: Seq<i64>)
    ensures
        flatten_groups(missing_groups(req, known)) == missing_list(req, known),
        forall|i: int|
            0 <= i < missing_groups(req, known).len() ==> (#[trigger] missing_groups(
                req,
                known,
            )[i]).len() > 0,
    decreases req.len(),
{
    if req.len() == 0 {
    } else {
        let tail = req.drop_first();
        lemma_missing_groups_exact(tail, known);
        let g = missing_groups(tail, known);
        if known.contains(req[0]) {
        } else if req.len() > 1 && !known.contains(req[1]) {
            lemma_missing_groups_head(tail, known);
            let mg = missing_groups(req, known);
            assert(mg[0] == seq![req[0]] + g[0]);
            assert(flatten_groups(mg) =~= (seq![req[0]] + g[0]) + flatten_groups(
                mg.drop_first(),
            ));
            assert(mg.drop_first() =~= g.drop_first());
            assert(g =~= seq![g[0]] + g.drop_first());
            assert(flatten_groups(g) =~= g[0] + flatten_groups(g.drop_first()));
            assert(flatten_groups(mg) =~= seq![req[0]] + flatten_groups(g));
            assert forall|i: int| 0 <= i < mg.len() implies (#[trigger] mg[i]).len() > 0 by {
                if i > 0 {
                    assert(mg[i] == g[i]);
                }
            }
        } else {
            let mg = missing_groups(req, known);
            assert(mg =~= seq![seq![req[0]]] + g);
            assert(flatten_groups(mg) =~= seq![req[0]] + flatten_groups(g)) by {
                assert(mg.drop_first() =~= g);
            }
            assert forall|i: int| 0 <= i < mg.len() implies (#[trigger] mg[i]).len() > 0 by {
                if i > 0 {
                    assert(mg[i] == g[i - 1]);
                }
            }
        }
    }
}

/// On a contiguous request the gap walk emits maximal runs: every group
/// is itself contiguous, and a group other than the last one is closed
/// exactly because the key after it is already known.
pub proof fn lemma_missing_groups_maximal_runs(req: Seq<i64>, known: Seq<i64>)
    requires
        forall|i: int| 0 <= i < req.len() ==> #[trigger] req[i] == req[0] + i,
    ensures
        forall|i: int, k: int|
            0 <= i < missing_groups(req, known).len() && 0 <= k < missing_groups(req, known)[i].len()
                ==> #[trigger] missing_groups(req, known)[i][k] == missing_groups(req, known)[i][0]
                + k,
        forall|i: int|
            0 <= i < missing_groups(req, known).len() - 1 ==> known.contains(
                ((#[trigger] missing_groups(req, known)[i]).last() + 1) as i64,
            ),
    decreases req.len(),
{
    if req.len() == 0 {
    } else {
        let tail = req.drop_first();
        assert forall|i: int| 0 <= i < tail.len() implies #[trigger] tail[i] == tail[0] + i by {
            assert(tail[i] == req[i + 1]);
            assert(tail[0] == req[1]);
        }
        lemma_missing_groups_maximal_runs(tail, known);
        let g = missing_groups(tail, known);
        let mg = missing_groups(req, known);
        if known.contains(req[0]) {
        } else if req.len() > 1 && !known.contains(req[1]) {
            lemma_missing_groups_head(tail, known);
            assert(g[0][0] == req[1]);
            assert(mg[0] == seq![req[0]] + g[0]);
            assert forall|i: int, k: int|
                0 <= i < mg.len() && 0 <= k < mg[i].len() implies #[trigger] mg[i][k] == mg[i][0]
                + k by {
                if i == 0 {
                    if k > 0 {
                        assert(mg[0][k] == g[0][k - 1]);
                        assert(g[0][k - 1] == g[0][0] + (k - 1));
                    }
                } else {
                    assert(mg[i] == g[i]);
                    assert(g[i][k] == g[i][0] + k);
                }
            }
            assert forall|i: int|
                0 <= i < mg.len() - 1 implies known.contains(((#[trigger] mg[i]).last() + 1) as i64) by {
                if i == 0 {
                    assert(mg[0].last() == g[0].last());
                    assert(known.contains((g[0].last() + 1) as i64));
                } else {
                    assert(mg[i] == g[i]);
                    assert(known.contains((g[i].last() + 1) as i64));
                }
            }
        } else {
            assert(mg =~= seq![seq![req[0]]] + g);
            assert forall|i: int, k: int|
                0 <= i < mg.len() && 0 <= k < mg[i].len() implies #[trigger] mg[i][k] == mg[i][0]
                + k by {
                if i > 0 {
                    assert(mg[i] == g[i - 1]);
                    assert(g[i - 1][k] == g[i - 1][0] + k);
                }
            }
            assert forall|i: int|
                0 <= i < mg.len() - 1 implies known.contains(((#[trigger] mg[i]).last() + 1) as i64) by {
                if i == 0 {
                    assert(g.len() > 0);
                    assert(req.len() > 1 && known.contains(req[1]));
                    assert(mg[0].last() == req[0]);
                } else {
                    assert(mg[i] == g[i - 1]);
                    assert(known.contains((g[i - 1].last() + 1) as i64));
                }
            }
        }
    }
}

} // verus!
