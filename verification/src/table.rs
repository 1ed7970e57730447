use vstd::prelude::*;

verus! {

/// A lookup table from names to entries, kept as a list of distinct names.  Its
/// view is the finite map from each name to the view of its entry.
///
/// The tables are keyed by `String`.  vstd's specification of `HashMap` proves
/// what a lookup gives only for keys whose hashing and equality it knows to agree
/// with their views, and `String` is not among them; with such a map even "one
/// insert gives length 1" does not verify.  A list searched by `==` on `String`,
/// whose meaning vstd does give, lets every lookup, insertion and removal below be
/// proved as a map operation.  No program can observe the difference: the
/// interpreter never walks its tables in order.
pub struct Table<V> {
    pub entries: Vec<(String, V)>,
}

pub open spec fn table_view<V: View>(s: Seq<(String, V)>) -> Map<Seq<char>, V::V>
    decreases s.len(),
{
    if s.len() == 0 {
        Map::empty()
    } else {
        table_view(s.subrange(0, s.len() - 1)).insert(s[s.len() - 1].0@, s[s.len() - 1].1@)
    }
}

/// No name occurs twice.
pub open spec fn distinct_keys<V>(s: Seq<(String, V)>) -> bool {
    forall|i: int, j: int| 0 <= i < j < s.len() ==> s[i].0@ != s[j].0@
}

impl<V: View> View for Table<V> {
    type V = Map<Seq<char>, V::V>;

    open spec fn view(&self) -> Map<Seq<char>, V::V> {
        table_view(self.entries@)
    }
}

pub proof fn lemma_table_lookup<V: View>(s: Seq<(String, V)>)
    requires
        distinct_keys(s),
    ensures
        forall|k: Seq<char>| #[trigger]
            table_view(s).contains_key(k) <==> exists|i: int| 0 <= i < s.len() && s[i].0@ == k,
        forall|i: int| 0 <= i < s.len() ==> #[trigger] table_view(s)[s[i].0@] == s[i].1@,
        table_view(s).dom().finite(),
    decreases s.len(),
{
    if s.len() > 0 {
        let pre = s.subrange(0, s.len() - 1);
        lemma_table_lookup(pre);
        let last = s[s.len() - 1];
        assert forall|k: Seq<char>| #[trigger]
            table_view(s).contains_key(k) <==> exists|i: int| 0 <= i < s.len() && s[i].0@ == k by {
            if table_view(s).contains_key(k) {
                if k == last.0@ {
                    assert(s[s.len() - 1].0@ == k);
                } else {
                    let i = choose|i: int| 0 <= i < pre.len() && pre[i].0@ == k;
                    assert(s[i].0@ == k);
                }
            }
            if exists|i: int| 0 <= i < s.len() && s[i].0@ == k {
                let i = choose|i: int| 0 <= i < s.len() && s[i].0@ == k;
                if i < s.len() - 1 {
                    assert(pre[i].0@ == k);
                }
            }
        }
        assert forall|i: int| 0 <= i < s.len() implies #[trigger] table_view(s)[s[i].0@] == s[i].1@ by {
            if i < s.len() - 1 {
                assert(pre[i] == s[i]);
                assert(s[i].0@ != last.0@);
            }
        }
    }
}

pub proof fn lemma_table_push<V: View>(s: Seq<(String, V)>, e: (String, V))
    ensures
        table_view(s.push(e)) == table_view(s).insert(e.0@, e.1@),
{
    assert(s.push(e).subrange(0, s.len() as int) =~= s);
}

pub proof fn lemma_table_update<V: View>(s: Seq<(String, V)>, i: int, v: V)
    requires
        distinct_keys(s),
        0 <= i < s.len(),
    ensures
        table_view(s.update(i, (s[i].0, v))) == table_view(s).insert(s[i].0@, v@),
    decreases s.len(),
{
    let s2 = s.update(i, (s[i].0, v));
    let pre = s.subrange(0, s.len() - 1);
    let pre2 = s2.subrange(0, s2.len() - 1);
    if i == s.len() - 1 {
        assert(pre2 =~= pre);
        assert(table_view(s2) =~= table_view(s).insert(s[i].0@, v@));
    } else {
        assert(pre2 =~= pre.update(i, (s[i].0, v)));
        lemma_table_update(pre, i, v);
        assert(s[i].0@ != s[s.len() - 1].0@);
        assert(table_view(s2) =~= table_view(s).insert(s[i].0@, v@));
    }
}

pub proof fn lemma_table_remove<V: View>(s: Seq<(String, V)>, i: int)
    requires
        distinct_keys(s),
        0 <= i < s.len(),
    ensures
        table_view(s.remove(i)) == table_view(s).remove(s[i].0@),
        distinct_keys(s.remove(i)),
    decreases s.len(),
{
    let s2 = s.remove(i);
    let pre = s.subrange(0, s.len() - 1);
    let k = s[i].0@;
    assert(distinct_keys(s2)) by {
        assert forall|a: int, b: int| 0 <= a < b < s2.len() implies s2[a].0@ != s2[b].0@ by {
            let a1 = if a < i { a } else { a + 1 };
            let b1 = if b < i { b } else { b + 1 };
            assert(s2[a] == s[a1]);
            assert(s2[b] == s[b1]);
        }
    }
    if i == s.len() - 1 {
        assert(s2 =~= pre);
        lemma_table_lookup(pre);
        assert(!table_view(pre).contains_key(k)) by {
            if table_view(pre).contains_key(k) {
                let j = choose|j: int| 0 <= j < pre.len() && pre[j].0@ == k;
                assert(s[j].0@ == k);
            }
        }
        assert(table_view(s2) =~= table_view(s).remove(k));
    } else {
        let pre2 = s2.subrange(0, s2.len() - 1);
        assert(pre2 =~= pre.remove(i));
        lemma_table_remove(pre, i);
        assert(s2[s2.len() - 1] == s[s.len() - 1]);
        assert(s[s.len() - 1].0@ != k);
        assert(table_view(s2) =~= table_view(s).remove(k));
    }
}

impl<V: View> Table<V> {
    pub open spec fn wf(&self) -> bool {
        distinct_keys(self.entries@)
    }

    pub fn new() -> (r: Self)
        ensures
            r.wf(),
            r@ == Map::<Seq<char>, V::V>::empty(),
    {
        Table { entries: Vec::new() }
    }

    /// The position of a name in the table.
    pub fn find(&self, key: &String) -> (r: Option<usize>)
        requires
            self.wf(),
        ensures
            r matches Some(i) ==> i < self.entries.len() && self.entries@[i as int].0@ == key@,
            r is None <==> !self@.contains_key(key@),
    {
        proof {
            lemma_table_lookup(self.entries@);
        }
        let mut i: usize = 0;
        while i < self.entries.len()
            invariant
                i <= self.entries.len(),
                self.wf(),
                forall|j: int| 0 <= j < i ==> self.entries@[j].0@ != key@,
            decreases self.entries.len() - i,
        {
            if self.entries[i].0 == *key {
                proof {
                    lemma_table_lookup(self.entries@);
                    assert(self@.contains_key(key@));
                }
                return Some(i);
            }
            i = i + 1;
        }
        None
    }

    pub fn contains_key(&self, key: &String) -> (r: bool)
        requires
            self.wf(),
        ensures
            r == self@.contains_key(key@),
    {
        self.find(key).is_some()
    }

    /// The entry of a name.
    pub fn get(&self, key: &String) -> (r: Option<&V>)
        requires
            self.wf(),
        ensures
            r matches Some(v) ==> self@.contains_key(key@) && self@[key@] == v@,
            r is None <==> !self@.contains_key(key@),
    {
        proof {
            lemma_table_lookup(self.entries@);
        }
        match self.find(key) {
            Some(i) => Some(&self.entries[i].1),
            None => None,
        }
    }

    /// Sets the entry of a name, adding the name if it is new.
    pub fn insert(&mut self, key: String, v: V)
        requires
            old(self).wf(),
        ensures
            final(self).wf(),
            final(self)@ == old(self)@.insert(key@, v@),
    {
        proof {
            lemma_table_lookup(self.entries@);
        }
        match self.find(&key) {
            Some(i) => {
                let ghost s = self.entries@;
                let k = self.entries[i].0.clone();
                self.entries.set(i, (k, v));
                proof {
                    lemma_table_update(s, i as int, v);
                    assert(self.entries@ =~= s.update(i as int, (s[i as int].0, v)));
                    assert forall|a: int, b: int| 0 <= a < b < self.entries@.len() implies
                        self.entries@[a].0@ != self.entries@[b].0@ by {
                        assert(self.entries@[a].0@ == s[a].0@);
                        assert(self.entries@[b].0@ == s[b].0@);
                    }
                }
            },
            None => {
                let ghost s = self.entries@;
                self.entries.push((key, v));
                proof {
                    lemma_table_push(s, (key, v));
                    assert forall|a: int, b: int| 0 <= a < b < self.entries@.len() implies
                        self.entries@[a].0@ != self.entries@[b].0@ by {
                        if b == s.len() {
                            assert(self.entries@[a] == s[a]);
                        }
                    }
                }
            },
        }
    }

    /// Drops a name from the table.
    pub fn remove(&mut self, key: &String)
        requires
            old(self).wf(),
        ensures
            final(self).wf(),
            final(self)@ == old(self)@.remove(key@),
    {
        proof {
            lemma_table_lookup(self.entries@);
        }
        match self.find(key) {
            Some(i) => {
                let ghost s = self.entries@;
                self.entries.remove(i);
                proof {
                    lemma_table_remove(s, i as int);
                }
            },
            None => {
                assert(self@ =~= old(self)@.remove(key@));
            },
        }
    }
}

} // verus!
