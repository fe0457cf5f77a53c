use vstd::prelude::*;

verus! {

/// No two entries of `s` share a key.
pub open spec fn keys_unique(s: Seq<(char, u64)>) -> bool {
    forall|i: int, j: int| 0 <= i < j < s.len() ==> #[trigger] s[i].0 != #[trigger] s[j].0
}

/// Some entry of `s` has key `c`.
pub open spec fn has_key(s: Seq<(char, u64)>, c: char) -> bool {
    exists|i: int| 0 <= i < s.len() && #[trigger] s[i].0 == c
}

/// The map from key to time that the entries of `s` describe.
pub open spec fn entries_map(s: Seq<(char, u64)>) -> Map<char, u64> {
    Map::new(
        |c: char| has_key(s, c),
        |c: char| s[choose|i: int| 0 <= i < s.len() && #[trigger] s[i].0 == c].1,
    )
}

/// Time elapsed from `t` to `now`, zero if `t` lies after `now`.
pub open spec fn elapsed(now: u64, t: u64) -> int {
    if now >= t {
        now - t
    } else {
        0
    }
}

/// The entry at index `i` of a key-unique sequence is what the map holds.
proof fn lemma_entry(s: Seq<(char, u64)>, i: int)
    requires
        keys_unique(s),
        0 <= i < s.len(),
    ensures
        entries_map(s).dom().contains(s[i].0),
        entries_map(s)[s[i].0] == s[i].1,
{
    assert(has_key(s, s[i].0));
    let j = choose|j: int| 0 <= j < s.len() && #[trigger] s[j].0 == s[i].0;
    if j != i {
        if j < i {
            assert(s[j].0 != s[i].0);
        } else {
            assert(s[i].0 != s[j].0);
        }
    }
}

/// A key in the map's domain has an entry in the sequence.
proof fn lemma_key_index(s: Seq<(char, u64)>, c: char) -> (i: int)
    requires
        entries_map(s).dom().contains(c),
    ensures
        0 <= i < s.len(),
        s[i].0 == c,
{
    choose|i: int| 0 <= i < s.len() && #[trigger] s[i].0 == c
}

/// Times at which keys were pressed, one entry per key.
pub struct KeyTimes {
    entries: Vec<(char, u64)>,
}

impl KeyTimes {
    /// The keys held and the time at which each was pressed.
    pub closed spec fn view(&self) -> Map<char, u64> {
        entries_map(self.entries@)
    }

    /// Well-formedness: no key is stored twice.
    pub closed spec fn wf(&self) -> bool {
        keys_unique(self.entries@)
    }

    /// No keys.
    pub fn new() -> (r: Self)
        ensures
            r.wf(),
            r.view() == Map::<char, u64>::empty(),
    {
        let r = KeyTimes { entries: Vec::new() };
        assert(r.view() =~= Map::<char, u64>::empty());
        r
    }

    fn index_of(&self, c: char) -> (r: Option<usize>)
        requires
            self.wf(),
        ensures
            match r {
                Some(i) => i < self.entries@.len() && self.entries@[i as int].0 == c,
                None => !self.view().dom().contains(c),
            },
    {
        let mut i: usize = 0;
        while i < self.entries.len()
            invariant
                i <= self.entries@.len(),
                forall|j: int| 0 <= j < i ==> #[trigger] self.entries@[j].0 != c,
            decreases self.entries@.len() - i,
        {
            if self.entries[i].0 == c {
                return Some(i);
            }
            i = i + 1;
        }
        None
    }

    /// Whether `c` has a press time.
    pub fn contains(&self, c: char) -> (r: bool)
        requires
            self.wf(),
        ensures
            r == self.view().dom().contains(c),
    {
        match self.index_of(c) {
            Some(_) => true,
            None => false,
        }
    }

    /// Records that `c` was pressed at `t`, replacing any earlier time.
    pub fn insert(&mut self, c: char, t: u64)
        requires
            old(self).wf(),
        ensures
            final(self).wf(),
            final(self).view() == old(self).view().insert(c, t),
    {
        let ghost s = self.entries@;
        match self.index_of(c) {
            Some(i) => {
                self.entries.set(i, (c, t));
                let ghost n = self.entries@;
                assert(n == s.update(i as int, (c, t)));
                assert(keys_unique(n)) by {
                    assert forall|a: int, b: int| 0 <= a < b < n.len() implies #[trigger] n[a].0
                        != #[trigger] n[b].0 by {
                        assert(s[a].0 != s[b].0);
                    }
                }
                assert forall|k: char| #[trigger] self.view().dom().contains(k) <==> old(
                    self,
                ).view().insert(c, t).dom().contains(k) by {
                    if self.view().dom().contains(k) {
                        let j = lemma_key_index(n, k);
                        if k != c {
                            assert(s[j].0 == k);
                            assert(has_key(s, k));
                        }
                    }
                    if old(self).view().dom().contains(k) {
                        let j = lemma_key_index(s, k);
                        assert(n[j].0 == k);
                        assert(has_key(n, k));
                    }
                    if k == c {
                        assert(n[i as int].0 == c);
                        assert(has_key(n, k));
                    }
                }
                assert forall|k: char| #[trigger] self.view().dom().contains(k) implies self.view()[k]
                    == old(self).view().insert(c, t)[k] by {
                    let j = lemma_key_index(n, k);
                    lemma_entry(n, j);
                    if k != c {
                        lemma_entry(s, j);
                    }
                }
                assert(self.view() =~= old(self).view().insert(c, t));
            },
            None => {
                self.entries.push((c, t));
                let ghost n = self.entries@;
                assert(n == s.push((c, t)));
                assert(keys_unique(n)) by {
                    assert forall|a: int, b: int| 0 <= a < b < n.len() implies #[trigger] n[a].0
                        != #[trigger] n[b].0 by {
                        if b == s.len() {
                            assert(n[a] == s[a]);
                            if s[a].0 == c {
                                assert(has_key(s, c));
                            }
                        } else {
                            assert(s[a].0 != s[b].0);
                        }
                    }
                }
                assert forall|k: char| #[trigger] self.view().dom().contains(k) <==> old(
                    self,
                ).view().insert(c, t).dom().contains(k) by {
                    if self.view().dom().contains(k) {
                        let j = lemma_key_index(n, k);
                        if j < s.len() {
                            assert(s[j].0 == k);
                            assert(has_key(s, k));
                        }
                    }
                    if old(self).view().dom().contains(k) {
                        let j = lemma_key_index(s, k);
                        assert(n[j].0 == k);
                        assert(has_key(n, k));
                    }
                    if k == c {
                        assert(n[s.len() as int].0 == c);
                        assert(has_key(n, k));
                    }
                }
                assert forall|k: char| #[trigger] self.view().dom().contains(k) implies self.view()[k]
                    == old(self).view().insert(c, t)[k] by {
                    let j = lemma_key_index(n, k);
                    lemma_entry(n, j);
                    if j < s.len() {
                        lemma_entry(s, j);
                    }
                }
                assert(self.view() =~= old(self).view().insert(c, t));
            },
        }
    }

    /// Forgets `c`.
    pub fn remove(&mut self, c: char)
        requires
            old(self).wf(),
        ensures
            final(self).wf(),
            final(self).view() == old(self).view().remove(c),
    {
        let ghost s = self.entries@;
        match self.index_of(c) {
            Some(i) => {
                self.entries.remove(i);
                let ghost n = self.entries@;
                assert(n == s.remove(i as int));
                assert(keys_unique(n)) by {
                    assert forall|a: int, b: int| 0 <= a < b < n.len() implies #[trigger] n[a].0
                        != #[trigger] n[b].0 by {
                        let sa = if a < i { a } else { a + 1 };
                        let sb = if b < i { b } else { b + 1 };
                        assert(n[a] == s[sa]);
                        assert(n[b] == s[sb]);
                        assert(s[sa].0 != s[sb].0);
                    }
                }
                assert forall|k: char| #[trigger] self.view().dom().contains(k) <==> old(
                    self,
                ).view().remove(c).dom().contains(k) by {
                    if self.view().dom().contains(k) {
                        let j = lemma_key_index(n, k);
                        let sj = if j < i { j } else { j + 1 };
                        assert(s[sj].0 == k);
                        assert(has_key(s, k));
                        if k == c {
                            if sj < i {
                                assert(s[sj].0 != s[i as int].0);
                            } else {
                                assert(s[i as int].0 != s[sj].0);
                            }
                        }
                    }
                    if old(self).view().dom().contains(k) && k != c {
                        let j = lemma_key_index(s, k);
                        assert(j != i);
                        let nj = if j < i { j } else { j - 1 };
                        assert(n[nj].0 == k);
                        assert(has_key(n, k));
                    }
                }
                assert forall|k: char| #[trigger] self.view().dom().contains(k) implies self.view()[k]
                    == old(self).view().remove(c)[k] by {
                    let j = lemma_key_index(n, k);
                    lemma_entry(n, j);
                    let sj = if j < i { j } else { j + 1 };
                    assert(n[j] == s[sj]);
                    lemma_entry(s, sj);
                }
                assert(self.view() =~= old(self).view().remove(c));
            },
            None => {
                assert(self.view() =~= old(self).view().remove(c));
            },
        }
    }

    /// Keeps only the keys pressed less than `limit` before `now`.
    pub fn retain_younger_than(&mut self, now: u64, limit: u64)
        requires
            old(self).wf(),
        ensures
            final(self).wf(),
            final(self).view() == younger_than(old(self).view(), now, limit),
    {
        let ghost s = self.entries@;
        let mut kept: Vec<(char, u64)> = Vec::new();
        let mut i: usize = 0;
        while i < self.entries.len()
            invariant
                s == self.entries@,
                keys_unique(s),
                i <= s.len(),
                keys_unique(kept@),
                forall|j: int| 0 <= j < kept@.len() ==> exists|l: int| 0 <= l < i && #[trigger] kept@[j] == #[trigger] s[l],
                forall|l: int| 0 <= l < i && elapsed(now, #[trigger] s[l].1) < limit ==> has_key(kept@, s[l].0),
                forall|j: int| 0 <= j < kept@.len() ==> elapsed(now, #[trigger] kept@[j].1) < limit,
            decreases s.len() - i,
        {
            let e = self.entries[i];
            let ghost k0 = kept@;
            if now.saturating_sub(e.1) < limit {
                kept.push(e);
                assert(keys_unique(kept@)) by {
                    assert forall|a: int, b: int| 0 <= a < b < kept@.len() implies #[trigger] kept@[a].0
                        != #[trigger] kept@[b].0 by {
                        if b == k0.len() {
                            let l = choose|l: int| 0 <= l < i && #[trigger] k0[a] == #[trigger] s[l];
                            assert(s[l].0 != s[i as int].0);
                        } else {
                            assert(k0[a].0 != k0[b].0);
                        }
                    }
                }
                assert forall|j: int| 0 <= j < kept@.len() implies exists|l: int| 0 <= l < i + 1 && #[trigger] kept@[j] == #[trigger] s[l] by {
                    if j < k0.len() {
                        let l = choose|l: int| 0 <= l < i && #[trigger] k0[j] == #[trigger] s[l];
                        assert(kept@[j] == s[l]);
                    } else {
                        assert(kept@[j] == s[i as int]);
                    }
                }
                assert forall|l: int| 0 <= l < i + 1 && elapsed(now, #[trigger] s[l].1) < limit implies has_key(kept@, s[l].0) by {
                    if l < i {
                        let j = choose|j: int| 0 <= j < k0.len() && #[trigger] k0[j].0 == s[l].0;
                        assert(kept@[j].0 == s[l].0);
                    } else {
                        assert(kept@[k0.len() as int].0 == s[l].0);
                    }
                }
            }
            i = i + 1;
        }
        self.entries = kept;
        let ghost n = self.entries@;
        let ghost want = younger_than(entries_map(s), now, limit);
        assert forall|k: char| #[trigger] self.view().dom().contains(k) <==> want.dom().contains(k) by {
            if self.view().dom().contains(k) {
                let j = lemma_key_index(n, k);
                let l = choose|l: int| 0 <= l < s.len() && #[trigger] n[j] == #[trigger] s[l];
                lemma_entry(s, l);
                assert(elapsed(now, n[j].1) < limit);
            }
            if want.dom().contains(k) {
                let l = lemma_key_index(s, k);
                lemma_entry(s, l);
                assert(has_key(n, s[l].0));
            }
        }
        assert forall|k: char| #[trigger] self.view().dom().contains(k) implies self.view()[k] == want[k] by {
            let j = lemma_key_index(n, k);
            lemma_entry(n, j);
            let l = choose|l: int| 0 <= l < s.len() && #[trigger] n[j] == #[trigger] s[l];
            lemma_entry(s, l);
        }
        assert(self.view() =~= want);
    }

    /// The keys pressed more than `limit` before `now`, each once.
    pub fn keys_older_than(&self, now: u64, limit: u64) -> (r: Vec<char>)
        requires
            self.wf(),
        ensures
            r@.no_duplicates(),
            forall|c: char| #[trigger] r@.contains(c) <==> (self.view().dom().contains(c) && elapsed(now, self.view()[c]) > limit),
    {
        let ghost s = self.entries@;
        let mut out: Vec<char> = Vec::new();
        let mut i: usize = 0;
        while i < self.entries.len()
            invariant
                s == self.entries@,
                keys_unique(s),
                i <= s.len(),
                out@.no_duplicates(),
                forall|c: char| #[trigger] out@.contains(c) <==> exists|l: int| 0 <= l < i && #[trigger] s[l].0 == c && elapsed(now, s[l].1) > limit,
            decreases s.len() - i,
        {
            let e = self.entries[i];
            let ghost o0 = out@;
            if now.saturating_sub(e.1) > limit {
                assert(!o0.contains(e.0)) by {
                    if o0.contains(e.0) {
                        let l = choose|l: int| 0 <= l < i && #[trigger] s[l].0 == e.0 && elapsed(now, s[l].1) > limit;
                        assert(s[l].0 != s[i as int].0);
                    }
                }
                out.push(e.0);
                assert forall|c: char| #[trigger] out@.contains(c) <==> exists|l: int| 0 <= l < i + 1 && #[trigger] s[l].0 == c && elapsed(now, s[l].1) > limit by {
                    if out@.contains(c) && c != e.0 {
                        let j = choose|j: int| 0 <= j < out@.len() && out@[j] == c;
                        assert(o0[j] == c);
                        assert(o0.contains(c));
                    }
                    if exists|l: int| 0 <= l < i + 1 && #[trigger] s[l].0 == c && elapsed(now, s[l].1) > limit {
                        if c != e.0 {
                            let l = choose|l: int| 0 <= l < i + 1 && #[trigger] s[l].0 == c && elapsed(now, s[l].1) > limit;
                            assert(l < i);
                            assert(o0.contains(c));
                            let j = choose|j: int| 0 <= j < o0.len() && o0[j] == c;
                            assert(out@[j] == c);
                        } else {
                            assert(out@[o0.len() as int] == c);
                        }
                    }
                }
            } else {
                assert forall|c: char| #[trigger] out@.contains(c) <==> exists|l: int| 0 <= l < i + 1 && #[trigger] s[l].0 == c && elapsed(now, s[l].1) > limit by {
                    if exists|l: int| 0 <= l < i + 1 && #[trigger] s[l].0 == c && elapsed(now, s[l].1) > limit {
                        let l = choose|l: int| 0 <= l < i + 1 && #[trigger] s[l].0 == c && elapsed(now, s[l].1) > limit;
                        assert(l != i);
                    }
                }
            }
            i = i + 1;
        }
        assert forall|c: char| #[trigger] out@.contains(c) <==> (self.view().dom().contains(c) && elapsed(now, self.view()[c]) > limit) by {
            if out@.contains(c) {
                let l = choose|l: int| 0 <= l < s.len() && #[trigger] s[l].0 == c && elapsed(now, s[l].1) > limit;
                lemma_entry(s, l);
            }
            if self.view().dom().contains(c) && elapsed(now, self.view()[c]) > limit {
                let l = lemma_key_index(s, c);
                lemma_entry(s, l);
            }
        }
        out
    }
}

/// The entries of `m` whose time lies less than `limit` before `now`.
pub open spec fn younger_than(m: Map<char, u64>, now: u64, limit: u64) -> Map<char, u64> {
    Map::new(|c: char| m.dom().contains(c) && elapsed(now, m[c]) < limit, |c: char| m[c])
}

/// A set of keys, each stored once.
pub struct KeySet {
    keys: Vec<char>,
}

impl KeySet {
    /// The keys in the set.
    pub closed spec fn view(&self) -> Set<char> {
        self.keys@.to_set()
    }

    /// Well-formedness: no key is stored twice.
    pub closed spec fn wf(&self) -> bool {
        self.keys@.no_duplicates()
    }

    /// The empty set.
    pub fn new() -> (r: Self)
        ensures
            r.wf(),
            r.view() == Set::<char>::empty(),
    {
        let r = KeySet { keys: Vec::new() };
        assert(r.view() =~= Set::<char>::empty());
        r
    }

    fn index_of(&self, c: char) -> (r: Option<usize>)
        ensures
            match r {
                Some(i) => i < self.keys@.len() && self.keys@[i as int] == c,
                None => !self.keys@.contains(c),
            },
    {
        let mut i: usize = 0;
        while i < self.keys.len()
            invariant
                i <= self.keys@.len(),
                forall|j: int| 0 <= j < i ==> self.keys@[j] != c,
            decreases self.keys@.len() - i,
        {
            if self.keys[i] == c {
                return Some(i);
            }
            i = i + 1;
        }
        None
    }

    /// Whether `c` is in the set.
    pub fn contains(&self, c: char) -> (r: bool)
        ensures
            r == self.view().contains(c),
    {
        match self.index_of(c) {
            Some(_) => true,
            None => false,
        }
    }

    /// Adds `c`.
    pub fn insert(&mut self, c: char)
        requires
            old(self).wf(),
        ensures
            final(self).wf(),
            final(self).view() == old(self).view().insert(c),
    {
        let ghost s = self.keys@;
        if self.index_of(c).is_none() {
            self.keys.push(c);
            assert(self.keys@ == s.push(c));
            assert(self.keys@.no_duplicates()) by {
                assert forall|a: int, b: int| 0 <= a < self.keys@.len() && 0 <= b < self.keys@.len() && a != b implies self.keys@[a] != self.keys@[b] by {
                    if a == s.len() {
                        assert(self.keys@[b] == s[b]);
                    } else if b == s.len() {
                        assert(self.keys@[a] == s[a]);
                    }
                }
            }
            assert forall|k: char| #[trigger] self.view().contains(k) <==> old(self).view().insert(c).contains(k) by {
                if self.keys@.contains(k) && k != c {
                    let j = choose|j: int| 0 <= j < self.keys@.len() && self.keys@[j] == k;
                    assert(s[j] == k);
                }
                if s.contains(k) {
                    let j = choose|j: int| 0 <= j < s.len() && s[j] == k;
                    assert(self.keys@[j] == k);
                }
                if k == c {
                    assert(self.keys@[s.len() as int] == c);
                }
            }
        }
        assert(self.view() =~= old(self).view().insert(c));
    }

    /// Removes `c`, telling whether it was there.
    pub fn remove(&mut self, c: char) -> (was_present: bool)
        requires
            old(self).wf(),
        ensures
            final(self).wf(),
            final(self).view() == old(self).view().remove(c),
            was_present == old(self).view().contains(c),
    {
        let ghost s = self.keys@;
        match self.index_of(c) {
            Some(i) => {
                self.keys.remove(i);
                let ghost n = self.keys@;
                assert(n == s.remove(i as int));
                assert(n.no_duplicates()) by {
                    assert forall|a: int, b: int| 0 <= a < n.len() && 0 <= b < n.len() && a != b implies n[a] != n[b] by {
                        let sa = if a < i { a } else { a + 1 };
                        let sb = if b < i { b } else { b + 1 };
                        assert(n[a] == s[sa]);
                        assert(n[b] == s[sb]);
                    }
                }
                assert forall|k: char| #[trigger] self.view().contains(k) <==> old(self).view().remove(c).contains(k) by {
                    if n.contains(k) {
                        let j = choose|j: int| 0 <= j < n.len() && n[j] == k;
                        let sj = if j < i { j } else { j + 1 };
                        assert(s[sj] == k);
                        assert(sj != i);
                    }
                    if s.contains(k) && k != c {
                        let j = choose|j: int| 0 <= j < s.len() && s[j] == k;
                        let nj = if j < i { j } else { j - 1 };
                        assert(n[nj] == k);
                    }
                }
                assert(self.view() =~= old(self).view().remove(c));
                assert(s.contains(c) && s.to_set().contains(c)) by {
                    assert(s[i as int] == c);
                }
                true
            },
            None => {
                assert(self.view() =~= old(self).view().remove(c));
                false
            },
        }
    }
}

} // verus!
