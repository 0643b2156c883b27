//! A table of values by name.
use crate::text::same;
use vstd::prelude::*;

verus! {

/// A table of values by name.
#[derive(Debug)]
pub struct Table<V> {
    rows: Vec<(String, V)>,
}

/// The rows as a map.
spec fn rows_map<V>(s: Seq<(String, V)>) -> Map<Seq<char>, V>
    decreases s.len(),
{
    if s.len() == 0 {
        Map::empty()
    } else {
        rows_map(s.drop_last()).insert(s.last().0@, s.last().1)
    }
}

/// No two rows have one name.
spec fn unique_names<V>(s: Seq<(String, V)>) -> bool {
    forall|i: int, j: int| 0 <= i < j < s.len() ==> (#[trigger] s[i]).0@ != (#[trigger] s[j]).0@
}

proof fn lemma_rows<V>(s: Seq<(String, V)>)
    requires
        unique_names(s),
    ensures
        forall|i: int|
            0 <= i < s.len() ==> rows_map(s).contains_key((#[trigger] s[i]).0@)
                && rows_map(s)[s[i].0@] == s[i].1,
        forall|k: Seq<char>| #[trigger]
            rows_map(s).contains_key(k) ==> exists|i: int| 0 <= i < s.len() && s[i].0@ == k,
    decreases s.len(),
{
    if s.len() > 0 {
        let t = s.drop_last();
        assert forall|i: int, j: int| 0 <= i < j < t.len() implies (#[trigger] t[i]).0@ != (
        #[trigger] t[j]).0@ by {
            assert(s[i].0@ != s[j].0@);
        }
        lemma_rows(t);
        assert forall|i: int| 0 <= i < s.len() implies rows_map(s).contains_key(
            (#[trigger] s[i]).0@,
        ) && rows_map(s)[s[i].0@] == s[i].1 by {
            if i < t.len() {
                assert(t[i] == s[i]);
                assert(s[i].0@ != s[s.len() - 1].0@);
            }
        }
        assert forall|k: Seq<char>| #[trigger] rows_map(s).contains_key(k) implies exists|i: int|
            0 <= i < s.len() && s[i].0@ == k by {
            if k == s.last().0@ {
                assert(s[s.len() - 1].0@ == k);
            } else {
                assert(rows_map(t).contains_key(k));
                let i = choose|i: int| 0 <= i < t.len() && t[i].0@ == k;
                assert(s[i].0@ == k);
            }
        }
    }
}

impl<V> View for Table<V> {
    type V = Map<Seq<char>, V>;

    closed spec fn view(&self) -> Map<Seq<char>, V> {
        rows_map(self.rows@)
    }
}

impl<V> Table<V> {
    #[verifier::type_invariant]
    spec fn valid(self) -> bool {
        unique_names(self.rows@)
    }

    /// A table without rows.
    pub fn new() -> (r: Self)
        ensures
            r@ == Map::<Seq<char>, V>::empty(),
    {
        Table { rows: Vec::new() }
    }

    fn find(&self, name: &str) -> (r: Option<usize>)
        ensures
            match r {
                Some(i) => i < self.rows@.len() && self.rows@[i as int].0@ == name@
                    && self@.contains_key(name@) && self@[name@] == self.rows@[i as int].1,
                None => !self@.contains_key(name@) && forall|j: int|
                    0 <= j < self.rows@.len() ==> (#[trigger] self.rows@[j]).0@ != name@,
            },
    {
        proof {
            use_type_invariant(self);
            lemma_rows(self.rows@);
        }
        for i in 0..self.rows.len()
            invariant
                forall|j: int|
                    0 <= j < self.rows@.len() ==> self@.contains_key((#[trigger] self.rows@[j]).0@)
                        && self@[self.rows@[j].0@] == self.rows@[j].1,
                forall|j: int| 0 <= j < i ==> (#[trigger] self.rows@[j]).0@ != name@,
        {
            if same(self.rows[i].0.as_str(), name) {
                return Some(i);
            }
        }
        None
    }

    /// The value under a name.
    pub fn get(&self, name: &str) -> (r: Option<&V>)
        ensures
            match r {
                Some(v) => self@.contains_key(name@) && self@[name@] == *v,
                None => !self@.contains_key(name@),
            },
    {
        match self.find(name) {
            Some(i) => Some(&self.rows[i].1),
            None => None,
        }
    }

    /// Puts a value under a name, in place of one that was there.
    pub fn put(&mut self, name: &str, value: V)
        ensures
            final(self)@ == old(self)@.insert(name@, value),
    {
        proof {
            use_type_invariant(&*self);
            lemma_rows(self.rows@);
        }
        let found = self.find(name);
        let ghost before = self.rows@;
        let mut rows: Vec<(String, V)> = Vec::new();
        core::mem::swap(&mut rows, &mut self.rows);
        let row = (name.to_owned(), value);
        match found {
            Some(i) => {
                rows.set(i, row);
                proof {
                    assert(rows@ =~= before.update(i as int, row));
                    assert forall|a: int, b: int| 0 <= a < b < rows@.len() implies (
                    #[trigger] rows@[a]).0@ != (#[trigger] rows@[b]).0@ by {
                        assert(before[a].0@ != before[b].0@);
                    }
                    lemma_rows(rows@);
                    assert(rows_map(rows@) =~= rows_map(before).insert(name@, value)) by {
                        assert forall|k: Seq<char>| rows_map(rows@).contains_key(k)
                            <==> rows_map(before).insert(name@, value).contains_key(k) by {
                            if rows_map(rows@).contains_key(k) {
                                let j = choose|j: int|
                                    0 <= j < rows@.len() && rows@[j].0@ == k;
                                if j != i {
                                    assert(rows_map(before).contains_key(before[j].0@));
                                }
                            }
                            if rows_map(before).contains_key(k) {
                                let j = choose|j: int|
                                    0 <= j < before.len() && before[j].0@ == k;
                                assert(rows@[j].0@ == k);
                            }
                            assert(rows@[i as int].0@ == name@);
                        }
                        assert forall|k: Seq<char>| rows_map(rows@).contains_key(
                            k,
                        ) implies rows_map(rows@)[k] == rows_map(before).insert(name@, value)[k] by {
                            let j = choose|j: int| 0 <= j < rows@.len() && rows@[j].0@ == k;
                            if j != i {
                                assert(before[j].0@ == k);
                                assert(rows_map(before)[before[j].0@] == before[j].1);
                                if j < i {
                                    assert(before[j].0@ != before[i as int].0@);
                                } else {
                                    assert(before[i as int].0@ != before[j].0@);
                                }
                            }
                        }
                    }
                }
            },
            None => {
                rows.push(row);
                proof {
                    assert(rows@.drop_last() =~= before);
                    assert forall|a: int, b: int| 0 <= a < b < rows@.len() implies (
                    #[trigger] rows@[a]).0@ != (#[trigger] rows@[b]).0@ by {
                        if b < before.len() {
                            assert(before[a].0@ != before[b].0@);
                        } else {
                            assert(before[a].0@ != name@);
                        }
                    }
                }
            },
        }
        self.rows = rows;
    }
}

} // verus!
