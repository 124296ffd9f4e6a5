//! The shared leaderboard and the per-player session bound to it.
//!
//! The store is an owned object viewed as a map from player name to
//! best time in milliseconds; the process wires it to every session.
//! Outbound host traffic is returned to the caller as `Notification`
//! values; sending them is the caller's concern.

use vstd::prelude::*;

verus! {

use vstd::utf8::encode_utf8;

/// The time value whose report means "remove this player".
pub const WITHDRAW_TIME_MS: i64 = -1000;

/// An outbound message for the host boundary.
#[derive(Debug)]
pub enum Notification {
    /// A player became active under `name`.
    Register { name: String },
    /// The player's current time; negative means withdrawal.
    Time { name: String, time_ms: i64 },
}

#[derive(Clone, Copy, PartialEq, Eq, Structural, Debug)]
pub enum ClaimError {
    EmptyName,
    NameConflict,
}

/// The map named by a sequence of entries; later entries win.
pub open spec fn map_of(s: Seq<(String, i64)>) -> Map<Seq<char>, i64>
    decreases s.len(),
{
    if s.len() == 0 {
        Map::empty()
    } else {
        map_of(s.drop_last()).insert(s.last().0@, s.last().1)
    }
}

/// A key is in the named map exactly when some entry holds it.
pub proof fn lemma_map_of_contains(s: Seq<(String, i64)>, k: Seq<char>)
    ensures
        map_of(s).contains_key(k) <==> exists|i: int| 0 <= i < s.len() && s[i].0@ == k,
    decreases s.len(),
{
    if s.len() > 0 {
        lemma_map_of_contains(s.drop_last(), k);
        if s.last().0@ == k {
            assert(s[s.len() - 1].0@ == k);
        } else if map_of(s).contains_key(k) {
            let i = choose|i: int| 0 <= i < s.drop_last().len() && s.drop_last()[i].0@ == k;
            assert(s[i].0@ == k);
        } else {
            assert forall|i: int| 0 <= i < s.len() implies s[i].0@ != k by {
                if i < s.len() - 1 {
                    assert(s.drop_last()[i] == s[i]);
                }
            }
        }
    }
}

/// With unique keys, the named map sends each entry's key to its score.
pub proof fn lemma_map_of_get(s: Seq<(String, i64)>, i: int)
    requires
        forall|p: int, q: int| 0 <= p < q < s.len() ==> s[p].0@ != s[q].0@,
        0 <= i < s.len(),
    ensures
        map_of(s).contains_key(s[i].0@),
        map_of(s)[s[i].0@] == s[i].1,
    decreases s.len(),
{
    if i == s.len() - 1 {
        assert(s.last() == s[i]);
    } else {
        assert forall|p: int, q: int| 0 <= p < q < s.drop_last().len() implies s.drop_last()[p].0@
            != s.drop_last()[q].0@ by {
            assert(s.drop_last()[p] == s[p] && s.drop_last()[q] == s[q]);
        }
        lemma_map_of_get(s.drop_last(), i);
        assert(s.drop_last()[i] == s[i]);
        assert(s[i].0@ != s.last().0@);
    }
}

/// Removing the entry at `i` removes exactly its key from the map.
pub proof fn lemma_map_of_remove(s: Seq<(String, i64)>, i: int)
    requires
        forall|p: int, q: int| 0 <= p < q < s.len() ==> s[p].0@ != s[q].0@,
        0 <= i < s.len(),
    ensures
        map_of(s.remove(i)) =~= map_of(s).remove(s[i].0@),
    decreases s.len(),
{
    let k = s[i].0@;
    if i == s.len() - 1 {
        assert(s.remove(i) =~= s.drop_last());
        lemma_map_of_contains(s.drop_last(), k);
        assert forall|p: int| 0 <= p < s.drop_last().len() implies s.drop_last()[p].0@ != k by {
            assert(s.drop_last()[p] == s[p]);
        }
        assert(!map_of(s.drop_last()).contains_key(k));
    } else {
        assert forall|p: int, q: int| 0 <= p < q < s.drop_last().len() implies s.drop_last()[p].0@
            != s.drop_last()[q].0@ by {
            assert(s.drop_last()[p] == s[p] && s.drop_last()[q] == s[q]);
        }
        assert(s.drop_last()[i] == s[i]);
        lemma_map_of_remove(s.drop_last(), i);
        assert(s.remove(i).drop_last() =~= s.drop_last().remove(i));
        assert(s.remove(i).last() == s.last());
        assert(s[i].0@ != s.last().0@);
    }
}

/// Appending an entry inserts its key into the map.
pub proof fn lemma_map_of_push(s: Seq<(String, i64)>, name: String, score: i64)
    ensures
        map_of(s.push((name, score))) == map_of(s).insert(name@, score),
{
    assert(s.push((name, score)).drop_last() =~= s);
    assert(s.push((name, score)).last() == (name, score));
}

/// Inserting an entry with a fresh key anywhere inserts its key into
/// the map.
proof fn lemma_map_of_insert_at(s: Seq<(String, i64)>, p: int, name: String, score: i64)
    requires
        0 <= p <= s.len(),
        forall|i: int| 0 <= i < s.len() ==> s[i].0@ != name@,
    ensures
        map_of(s.insert(p, (name, score))) =~= map_of(s).insert(name@, score),
    decreases s.len(),
{
    let t = s.insert(p, (name, score));
    if p == s.len() {
        assert(t =~= s.push((name, score)));
        lemma_map_of_push(s, name, score);
    } else {
        assert(t.last() == s.last());
        assert(t.drop_last() =~= s.drop_last().insert(p, (name, score)));
        assert forall|i: int| 0 <= i < s.drop_last().len() implies s.drop_last()[i].0@
            != name@ by {
            assert(s.drop_last()[i] == s[i]);
        }
        lemma_map_of_insert_at(s.drop_last(), p, name, score);
        assert(s.last().0@ != name@);
        assert(map_of(t) =~= map_of(s).insert(name@, score));
    }
}

/// `post` is `pre` with the entry keyed `k` deleted: unchanged when no
/// entry holds `k`, else exactly that entry is gone and the rest keep
/// their order.
pub open spec fn spec_entries_removed(
    pre: Seq<(String, i64)>,
    post: Seq<(String, i64)>,
    k: Seq<char>,
) -> bool {
    if exists|i: int| 0 <= i < pre.len() && pre[i].0@ == k {
        exists|i: int| 0 <= i < pre.len() && pre[i].0@ == k && post == pre.remove(i)
    } else {
        post == pre
    }
}

/// Strict lexicographic order on byte sequences.
pub open spec fn spec_bytes_lt(a: Seq<u8>, b: Seq<u8>) -> bool
    decreases a.len(),
{
    if b.len() == 0 {
        false
    } else if a.len() == 0 {
        true
    } else if a[0] < b[0] {
        true
    } else if a[0] > b[0] {
        false
    } else {
        spec_bytes_lt(a.drop_first(), b.drop_first())
    }
}

/// Names order as their UTF-8 encodings do, byte-lexicographically —
/// the order `String`'s own comparison defines, and so the iteration
/// order of an ordered map keyed by names.
pub open spec fn spec_name_lt(a: Seq<char>, b: Seq<char>) -> bool {
    spec_bytes_lt(encode_utf8(a), encode_utf8(b))
}

pub open spec fn spec_name_le(a: Seq<char>, b: Seq<char>) -> bool {
    spec_name_lt(a, b) || encode_utf8(a) == encode_utf8(b)
}

/// The byte order is total: one way, the other, or equal.
proof fn lemma_bytes_lt_total(a: Seq<u8>, b: Seq<u8>)
    ensures
        spec_bytes_lt(a, b) || spec_bytes_lt(b, a) || a == b,
    decreases a.len(),
{
    if a.len() > 0 && b.len() > 0 && a[0] == b[0] {
        lemma_bytes_lt_total(a.drop_first(), b.drop_first());
        if a.drop_first() == b.drop_first() {
            assert forall|j: int| 0 <= j < a.len() implies a[j] == b[j] by {
                if j > 0 {
                    assert(a.drop_first() =~= a.subrange(1, a.len() as int));
                    assert(b.drop_first() =~= b.subrange(1, b.len() as int));
                    assert(a.drop_first()[j - 1] == a[j]);
                    assert(b.drop_first()[j - 1] == b[j]);
                }
            }
            assert(a =~= b);
        }
    } else if a.len() == 0 && b.len() == 0 {
        assert(a =~= b);
    }
}

/// The byte order is transitive.
proof fn lemma_bytes_lt_trans(a: Seq<u8>, b: Seq<u8>, c: Seq<u8>)
    requires
        spec_bytes_lt(a, b),
        spec_bytes_lt(b, c),
    ensures
        spec_bytes_lt(a, c),
    decreases a.len(),
{
    if a.len() > 0 && a[0] == b[0] && b[0] == c[0] {
        lemma_bytes_lt_trans(a.drop_first(), b.drop_first(), c.drop_first());
    }
}

/// So is the reflexive order on names.
proof fn lemma_name_le_trans(a: Seq<char>, b: Seq<char>, c: Seq<char>)
    requires
        spec_name_le(a, b),
        spec_name_le(b, c),
    ensures
        spec_name_le(a, c),
{
    if spec_name_lt(a, b) && spec_name_lt(b, c) {
        lemma_bytes_lt_trans(encode_utf8(a), encode_utf8(b), encode_utf8(c));
    }
}

/// A shared prefix of equal bytes does not decide the order.
proof fn lemma_bytes_lt_common_prefix(a: Seq<u8>, b: Seq<u8>, i: int)
    requires
        0 <= i <= a.len(),
        i <= b.len(),
        forall|j: int| 0 <= j < i ==> a[j] == b[j],
    ensures
        spec_bytes_lt(a, b) == spec_bytes_lt(a.skip(i), b.skip(i)),
    decreases i,
{
    if i > 0 {
        assert(a[0] == b[0]);
        assert forall|j: int| 0 <= j < i - 1 implies a.drop_first()[j] == b.drop_first()[j] by {
            assert(a.drop_first()[j] == a[j + 1] && b.drop_first()[j] == b[j + 1]);
        }
        lemma_bytes_lt_common_prefix(a.drop_first(), b.drop_first(), i - 1);
        assert(a.drop_first().skip(i - 1) =~= a.skip(i));
        assert(b.drop_first().skip(i - 1) =~= b.skip(i));
    } else {
        assert(a.skip(0) =~= a);
        assert(b.skip(0) =~= b);
    }
}

/// Whether `a` orders strictly before `b`, byte-lexicographically.
fn name_lt(a: &String, b: &String) -> (r: bool)
    ensures
        r == spec_name_lt(a@, b@),
{
    let ab: &[u8] = a.as_str().as_bytes();
    let bb: &[u8] = b.as_str().as_bytes();
    let na: usize = ab.len();
    let nb: usize = bb.len();
    let n: usize = if na < nb {
        na
    } else {
        nb
    };
    let mut i: usize = 0;
    while i < n
        invariant
            ab@ == encode_utf8(a@),
            bb@ == encode_utf8(b@),
            na == ab@.len(),
            nb == bb@.len(),
            n <= na && n <= nb && (n == na || n == nb),
            i <= n,
            forall|j: int| 0 <= j < i ==> ab@[j] == bb@[j],
        decreases n - i,
    {
        let x = ab[i];
        let y = bb[i];
        if x != y {
            proof {
                lemma_bytes_lt_common_prefix(ab@, bb@, i as int);
                assert(ab@.skip(i as int)[0] == ab@[i as int]);
                assert(bb@.skip(i as int)[0] == bb@[i as int]);
            }
            return x < y;
        }
        i = i + 1;
    }
    proof {
        lemma_bytes_lt_common_prefix(ab@, bb@, n as int);
    }
    na < nb
}

/// The process-wide leaderboard: a mapping from player name to best
/// time in milliseconds, stored as entries with pairwise-distinct keys
/// in ascending name order — the storage order of the host's shared
/// map, so snapshots iterate the same way.
pub struct LeaderboardStore {
    pub entries: Vec<(String, i64)>,
}

impl View for LeaderboardStore {
    type V = Map<Seq<char>, i64>;

    open spec fn view(&self) -> Map<Seq<char>, i64> {
        map_of(self.entries@)
    }
}

impl LeaderboardStore {
    /// Well-formed: no two entries share a name, and the entries stand
    /// in ascending name order.
    pub open spec fn wf(self) -> bool {
        &&& forall|p: int, q: int|
            0 <= p < q < self.entries@.len() ==> self.entries@[p].0@ != self.entries@[q].0@
        &&& forall|i: int|
            0 <= i < self.entries@.len() - 1 ==> spec_name_le(
                #[trigger] self.entries@[i].0@,
                self.entries@[i + 1].0@,
            )
    }

    pub fn new() -> (r: LeaderboardStore)
        ensures
            r.wf(),
            r@ == Map::<Seq<char>, i64>::empty(),
            r.entries@.len() == 0,
    {
        LeaderboardStore { entries: Vec::new() }
    }

    pub fn len(&self) -> (n: usize)
        ensures
            n == self.entries@.len(),
    {
        self.entries.len()
    }

    pub fn is_empty(&self) -> (r: bool)
        ensures
            r == (self.entries@.len() == 0),
    {
        self.entries.len() == 0
    }

    /// Index of the entry holding `name`, if any.
    fn find(&self, name: &String) -> (r: Option<usize>)
        ensures
            match r {
                Some(i) => i < self.entries@.len() && self.entries@[i as int].0@ == name@,
                None => forall|i: int|
                    0 <= i < self.entries@.len() ==> self.entries@[i].0@ != name@,
            },
    {
        let n = self.entries.len();
        let mut i: usize = 0;
        while i < n
            invariant
                n == self.entries@.len(),
                i <= n,
                forall|j: int| 0 <= j < i ==> self.entries@[j].0@ != name@,
            decreases n - i,
        {
            if self.entries[i].0 == *name {
                return Some(i);
            }
            i = i + 1;
        }
        None
    }

    /// The slot where `name` belongs in the ascending order: the first
    /// index whose entry orders after it.
    fn find_slot(&self, name: &String) -> (p: usize)
        ensures
            p <= self.entries@.len(),
            forall|j: int| 0 <= j < p ==> !spec_name_lt(name@, self.entries@[j].0@),
            p < self.entries@.len() ==> spec_name_lt(name@, self.entries@[p as int].0@),
    {
        let n = self.entries.len();
        let mut p: usize = 0;
        while p < n
            invariant
                n == self.entries@.len(),
                p <= n,
                forall|j: int| 0 <= j < p ==> !spec_name_lt(name@, self.entries@[j].0@),
            decreases n - p,
        {
            if name_lt(name, &self.entries[p].0) {
                return p;
            }
            p = p + 1;
        }
        p
    }

    pub fn contains_key(&self, name: &String) -> (r: bool)
        ensures
            r == self@.contains_key(name@),
    {
        proof {
            lemma_map_of_contains(self.entries@, name@);
        }
        match self.find(name) {
            Some(_) => true,
            None => false,
        }
    }

    /// The best time recorded for `name`, if any.
    pub fn get(&self, name: &String) -> (r: Option<i64>)
        requires
            self.wf(),
        ensures
            match r {
                Some(score) => self@.contains_key(name@) && self@[name@] == score,
                None => !self@.contains_key(name@),
            },
    {
        proof {
            lemma_map_of_contains(self.entries@, name@);
        }
        match self.find(name) {
            Some(i) => {
                proof {
                    lemma_map_of_get(self.entries@, i as int);
                }
                Some(self.entries[i].1)
            },
            None => None,
        }
    }

    /// Delete the entry for `name`; without one this changes nothing.
    pub fn remove(&mut self, name: &String)
        requires
            old(self).wf(),
        ensures
            final (self).wf(),
            final (self)@ == old(self)@.remove(name@),
            spec_entries_removed(old(self).entries@, final (self).entries@, name@),
    {
        proof {
            lemma_map_of_contains(self.entries@, name@);
        }
        match self.find(name) {
            Some(i) => {
                let ghost s0 = self.entries@;
                self.entries.remove(i);
                proof {
                    lemma_map_of_remove(s0, i as int);
                    assert(self.entries@ =~= s0.remove(i as int));
                    assert forall|p: int, q: int|
                        0 <= p < q < self.entries@.len() implies self.entries@[p].0@
                        != self.entries@[q].0@ by {
                        if q < i {
                            assert(self.entries@[p] == s0[p] && self.entries@[q] == s0[q]);
                        } else if p < i {
                            assert(self.entries@[p] == s0[p] && self.entries@[q] == s0[q + 1]);
                        } else {
                            assert(self.entries@[p] == s0[p + 1] && self.entries@[q] == s0[q + 1]);
                        }
                    }
                    assert forall|j: int|
                        0 <= j < self.entries@.len() - 1 implies spec_name_le(
                        #[trigger] self.entries@[j].0@,
                        self.entries@[j + 1].0@,
                    ) by {
                        if j + 1 < i {
                            assert(self.entries@[j] == s0[j] && self.entries@[j + 1] == s0[j
                                + 1]);
                        } else if j < i {
                            assert(self.entries@[j] == s0[j] && self.entries@[j + 1] == s0[j
                                + 2]);
                            lemma_name_le_trans(s0[j].0@, s0[j + 1].0@, s0[j + 2].0@);
                        } else {
                            assert(self.entries@[j] == s0[j + 1] && self.entries@[j + 1] == s0[j
                                + 2]);
                        }
                    }
                }
            },
            None => {
                proof {
                    assert(self@ =~= old(self)@.remove(name@));
                }
            },
        }
    }

    /// Insert or overwrite the entry for `name`, keeping the entries
    /// in ascending name order: the old entry (if any) leaves, and the
    /// new one takes its ordered slot.
    #[verifier::rlimit(60)]
    pub fn upsert(&mut self, name: String, score: i64)
        requires
            old(self).wf(),
        ensures
            final (self).wf(),
            final (self)@ == old(self)@.insert(name@, score),
            final (self).entries@.len() >= 1,
            exists|p: int|
                0 <= p < final (self).entries@.len() && final (self).entries@[p] == (
                name,
                score,
                ) && spec_entries_removed(
                    old(self).entries@,
                    final (self).entries@.remove(p),
                    name@,
                ),
    {
        self.remove(&name);
        let ghost s1 = self.entries@;
        let slot = self.find_slot(&name);
        proof {
            lemma_map_of_contains(s1, name@);
            lemma_map_of_insert_at(s1, slot as int, name, score);
        }
        self.entries.insert(slot, (name, score));
        proof {
            let t = self.entries@;
            let p = slot as int;
            assert forall|a: int, b: int| 0 <= a < b < t.len() implies t[a].0@ != t[b].0@ by {
                if b < p {
                    assert(t[a] == s1[a] && t[b] == s1[b]);
                } else if a < p && p < b {
                    assert(t[a] == s1[a] && t[b] == s1[b - 1]);
                } else if a == p {
                    assert(t[b] == s1[b - 1]);
                } else if b == p {
                    assert(t[a] == s1[a]);
                } else {
                    assert(t[a] == s1[a - 1] && t[b] == s1[b - 1]);
                }
            }
            assert forall|i: int|
                0 <= i < t.len() - 1 implies spec_name_le(#[trigger] t[i].0@, t[i + 1].0@) by {
                if i + 1 < p {
                    assert(t[i] == s1[i] && t[i + 1] == s1[i + 1]);
                } else if i + 1 == p {
                    assert(t[i] == s1[i] && t[i + 1] == (name, score));
                    lemma_bytes_lt_total(encode_utf8(s1[i].0@), encode_utf8(name@));
                } else if i == p {
                    assert(t[i + 1] == s1[i]);
                } else {
                    assert(t[i] == s1[i - 1] && t[i + 1] == s1[i]);
                }
            }
            assert(self@ =~= old(self)@.insert(name@, score));
            assert(t[p] == (name, score));
            assert(t.remove(p) =~= s1);
        }
    }

    /// The single mutation entry point: a negative score withdraws the
    /// name, a nonnegative one records it.
    pub fn update(&mut self, name: &String, score: i64)
        requires
            old(self).wf(),
        ensures
            final (self).wf(),
            score < 0 ==> final (self)@ == old(self)@.remove(name@),
            score < 0 ==> spec_entries_removed(old(self).entries@, final (self).entries@, name@),
            score >= 0 ==> final (self)@ == old(self)@.insert(name@, score),
            score >= 0 ==> final (self).entries@.len() >= 1 && exists|p: int|
                0 <= p < final (self).entries@.len() && final (self).entries@[p] == (
                *name,
                score,
                ) && spec_entries_removed(
                    old(self).entries@,
                    final (self).entries@.remove(p),
                    name@,
                ),
    {
        if score < 0 {
            self.remove(name);
        } else {
            let owned = name.clone();
            let ghost owned_value = owned;
            self.upsert(owned, score);
            proof {
                let p = choose|p: int|
                    0 <= p < self.entries@.len() && self.entries@[p] == (owned_value, score)
                        && spec_entries_removed(
                        old(self).entries@,
                        self.entries@.remove(p),
                        name@,
                    );
                assert(self.entries@[p] == (*name, score));
            }
        }
    }

    /// A point-in-time copy, for rendering and sorting outside the store.
    pub fn snapshot(&self) -> (r: LeaderboardStore)
        ensures
            r.entries@ == self.entries@,
            r@ == self@,
            self.wf() ==> r.wf(),
    {
        let n = self.entries.len();
        let mut v: Vec<(String, i64)> = Vec::new();
        let mut i: usize = 0;
        while i < n
            invariant
                n == self.entries@.len(),
                i <= n,
                v@ =~= self.entries@.subrange(0, i as int),
            decreases n - i,
        {
            let name = self.entries[i].0.clone();
            let score = self.entries[i].1;
            v.push((name, score));
            proof {
                assert(v@ =~= self.entries@.subrange(0, i + 1 as int));
            }
            i = i + 1;
        }
        proof {
            assert(v@ =~= self.entries@);
        }
        LeaderboardStore { entries: v }
    }
}

/// The `k` best rows of the store for display: sorted by time
/// descending, as many rows as the store has up to `k`, each store
/// entry used at most as often as it occurs, and every entry left out
/// scoring no better than the last row shown.
pub fn top_scores(store: &LeaderboardStore, k: usize) -> (r: Vec<(String, i64)>)
    ensures
        r@.len() == if k as int <= store.entries@.len() {
            k as int
        } else {
            store.entries@.len() as int
        },
        forall|p: int, q: int| 0 <= p < q < r@.len() ==> r@[p].1 >= r@[q].1,
        forall|i: int| 0 <= i < r@.len() ==> store.entries@.contains(r@[i]),
        forall|e: (String, i64)| #[trigger]
            r@.to_multiset().count(e) <= store.entries@.to_multiset().count(e),
        forall|e: (String, i64)|
            r@.len() > 0 && store.entries@.to_multiset().count(e) > #[trigger] r@.to_multiset().count(
                e,
            ) ==> e.1 <= r@[r@.len() - 1].1,
{
    let mut rows = store.snapshot().entries;
    let mut r: Vec<(String, i64)> = Vec::new();
    let ghost n = store.entries@.len();
    proof {
        broadcast use vstd::seq_lib::group_to_multiset_ensures;
        broadcast use vstd::multiset::group_multiset_axioms;

        assert(rows@.to_multiset().add(r@.to_multiset()) =~= store.entries@.to_multiset());
    }
    while r.len() < k && rows.len() > 0
        invariant
            rows@.len() + r@.len() == n,
            r@.len() <= k,
            rows@.to_multiset().add(r@.to_multiset()) == store.entries@.to_multiset(),
            forall|p: int, q: int| 0 <= p < q < r@.len() ==> r@[p].1 >= r@[q].1,
            forall|i: int| 0 <= i < r@.len() ==> store.entries@.contains(r@[i]),
            forall|j: int| 0 <= j < rows@.len() ==> store.entries@.contains(rows@[j]),
            forall|j: int|
                0 <= j < rows@.len() && r@.len() > 0 ==> r@.last().1 >= rows@[j].1,
        decreases rows@.len(),
    {
        let mut m: usize = 0;
        let mut j: usize = 1;
        while j < rows.len()
            invariant
                m < j <= rows@.len(),
                rows@.len() > 0,
                forall|q: int| 0 <= q < j ==> rows@[m as int].1 >= rows@[q].1,
            decreases rows@.len() - j,
        {
            if rows[j].1 > rows[m].1 {
                m = j;
            }
            j = j + 1;
        }
        let ghost rows0 = rows@;
        let ghost r0 = r@;
        let e = rows.remove(m);
        proof {
            assert forall|q: int| 0 <= q < rows@.len() implies store.entries@.contains(
                rows@[q],
            ) && e.1 >= rows@[q].1 by {
                if q < m {
                    assert(rows@[q] == rows0[q]);
                } else {
                    assert(rows@[q] == rows0[q + 1]);
                }
            }
        }
        r.push(e);
        proof {
            broadcast use vstd::seq_lib::group_to_multiset_ensures;
            broadcast use vstd::multiset::group_multiset_axioms;

            assert(rows@.to_multiset() =~= rows0.to_multiset().remove(e));
            assert(r@.to_multiset() =~= r0.to_multiset().insert(e));
            assert(rows0.to_multiset().count(e) > 0);
            assert(rows@.to_multiset().add(r@.to_multiset()) =~= store.entries@.to_multiset());
        }
    }
    proof {
        broadcast use vstd::seq_lib::group_to_multiset_ensures;
        broadcast use vstd::multiset::group_multiset_axioms;

        assert forall|e: (String, i64)|
            r@.len() > 0 && store.entries@.to_multiset().count(e) > r@.to_multiset().count(
                e,
            ) implies e.1 <= r@[r@.len() - 1].1 by {
            assert(rows@.to_multiset().count(e) > 0);
            assert(rows@.contains(e));
            let j = choose|j: int| 0 <= j < rows@.len() && rows@[j] == e;
            assert(r@.last().1 >= rows@[j].1);
        }
    }
    r
}

/// What tearing a session down does: the first teardown emits the
/// withdrawal notification and marks it sent; later ones emit nothing.
pub open spec fn spec_withdraw(c: Client) -> (Client, Option<Notification>) {
    if c.withdrawal_sent {
        (c, None)
    } else {
        (
            Client { withdrawal_sent: true, ..c },
            Some(Notification::Time { name: c.client_name, time_ms: WITHDRAW_TIME_MS }),
        )
    }
}

/// Law: however often a session is torn down, exactly one withdrawal
/// notification leaves it — the first teardown emits it, and a
/// teardown of the resulting state emits nothing.
pub proof fn lemma_withdraw_exactly_once(c: Client)
    requires
        !c.withdrawal_sent,
    ensures
        spec_withdraw(c).1 is Some,
        spec_withdraw(spec_withdraw(c).0).1 is None,
{
}

/// A per-player session: the claimed name, a cached snapshot of the
/// store, and whether the withdrawal notification has left yet.
pub struct Client {
    pub client_name: String,
    pub leaderboard: LeaderboardStore,
    pub withdrawal_sent: bool,
}

impl Client {
    /// The placeholder session used before any name is claimed.
    pub fn empty() -> (c: Client)
        ensures
            c.client_name@ == "empty"@,
            c.leaderboard.entries@.len() == 0,
            c.leaderboard.wf(),
            !c.withdrawal_sent,
    {
        Client {
            client_name: "empty".to_owned(),
            leaderboard: LeaderboardStore::new(),
            withdrawal_sent: false,
        }
    }

    /// Claim `client_name` against the store. An empty name or one
    /// already registered fails and leaves the store untouched;
    /// otherwise the name is registered with an initial time of zero
    /// and the session starts from a fresh snapshot.
    pub fn new(client_name: String, store: &mut LeaderboardStore) -> (r: Result<
        Client,
        ClaimError,
    >)
        requires
            old(store).wf(),
        ensures
            final (store).wf(),
            client_name@.len() == 0 ==> (r matches Err(e) && e == ClaimError::EmptyName && *final
                (store) == *old(store)),
            client_name@.len() > 0 && old(store)@.contains_key(client_name@) ==> (r matches Err(e)
                && e == ClaimError::NameConflict && *final (store) == *old(store)),
            client_name@.len() > 0 && !old(store)@.contains_key(client_name@) ==> (r matches Ok(c)
                && final (store)@ == old(store)@.insert(client_name@, 0) && c.client_name@
                == client_name@ && c.leaderboard.entries@ == final (store).entries@
                && !c.withdrawal_sent),
    {
        if client_name.as_str().is_empty() {
            return Err(ClaimError::EmptyName);
        }
        if store.contains_key(&client_name) {
            return Err(ClaimError::NameConflict);
        }
        store.upsert(client_name.clone(), 0);
        let client = Client {
            client_name,
            leaderboard: store.snapshot(),
            withdrawal_sent: false,
        };
        Ok(client)
    }

    /// The outbound message announcing this session to the host.
    pub fn register_name(&self) -> (n: Notification)
        ensures
            n == (Notification::Register { name: self.client_name }),
    {
        Notification::Register { name: self.client_name.clone() }
    }

    /// The outbound message reporting this session's current time;
    /// a negative time is the withdrawal sentinel.
    pub fn register_time(&self, time_ms: i64) -> (n: Notification)
        ensures
            n == (Notification::Time { name: self.client_name, time_ms }),
    {
        Notification::Time { name: self.client_name.clone(), time_ms }
    }

    /// Refresh the cached snapshot from the store.
    pub fn sync(&mut self, store: &LeaderboardStore)
        ensures
            final (self).leaderboard.entries@ == store.entries@,
            final (self).client_name == old(self).client_name,
            final (self).withdrawal_sent == old(self).withdrawal_sent,
    {
        self.leaderboard = store.snapshot();
    }

    pub fn get_leaderboard(&self) -> (r: &LeaderboardStore)
        ensures
            *r == self.leaderboard,
    {
        &self.leaderboard
    }

    /// Tear the session down: emits the withdrawal notification the
    /// first time and never again.
    pub fn withdraw(&mut self) -> (n: Option<Notification>)
        ensures
            (*final (self), n) == spec_withdraw(*old(self)),
            final (self).withdrawal_sent,
    {
        if self.withdrawal_sent {
            None
        } else {
            self.withdrawal_sent = true;
            Some(Notification::Time { name: self.client_name.clone(), time_ms: WITHDRAW_TIME_MS })
        }
    }
}

} // verus!
