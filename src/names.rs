//! A map from names to values kept as a list of entries with unique names.
use vstd::prelude::*;

verus! {

/// Index of the entry named `k`, or -1 when none is.
pub open spec fn find_name<V>(s: Seq<(String, V)>, k: Seq<char>) -> int
    decreases s.len(),
{
    if s.len() == 0 {
        -1
    } else if s.last().0@ == k {
        s.len() - 1
    } else {
        find_name(s.drop_last(), k)
    }
}

pub open spec fn names_of<V>(s: Seq<(String, V)>) -> Seq<Seq<char>> {
    s.map_values(|e: (String, V)| e.0@)
}

proof fn lemma_find_range<V>(s: Seq<(String, V)>, k: Seq<char>)
    ensures
        -1 <= find_name(s, k) < s.len(),
        find_name(s, k) >= 0 ==> s[find_name(s, k)].0@ == k,
    decreases s.len(),
{
    if s.len() > 0 && s.last().0@ != k {
        lemma_find_range(s.drop_last(), k);
    }
}

proof fn lemma_find_same_names<V>(s: Seq<(String, V)>, t: Seq<(String, V)>, k: Seq<char>)
    requires
        s.len() == t.len(),
        forall|i: int| 0 <= i < s.len() ==> #[trigger] s[i].0@ == t[i].0@,
    ensures
        find_name(s, k) == find_name(t, k),
    decreases s.len(),
{
    if s.len() > 0 {
        lemma_find_same_names(s.drop_last(), t.drop_last(), k);
    }
}

/// Whether two strings hold the same characters.
pub fn same_text(a: &str, b: &str) -> (r: bool)
    ensures
        r == (a@ == b@),
{
    let x = a.as_bytes();
    let y = b.as_bytes();
    proof {
        vstd::utf8::encode_utf8_decode_utf8(a@);
        vstd::utf8::encode_utf8_decode_utf8(b@);
    }
    if x.len() != y.len() {
        return false;
    }
    let mut i: usize = 0;
    while i < x.len()
        invariant
            x@.len() == y@.len(),
            x@ == vstd::utf8::encode_utf8(a@),
            y@ == vstd::utf8::encode_utf8(b@),
            0 <= i <= x@.len(),
            forall|j: int| 0 <= j < i ==> x@[j] == y@[j],
        decreases x@.len() - i,
    {
        if x[i] != y[i] {
            assert(x@[i as int] != y@[i as int]);
            return false;
        }
        i = i + 1;
    }
    assert(x@ =~= y@);
    true
}

/// Values under names; defining a name again replaces its value.
pub struct NameMap<V> {
    entries: Vec<(String, V)>,
}

impl<V> NameMap<V> {
    /// The value under each name.
    pub closed spec fn view(&self) -> Map<Seq<char>, V> {
        Map::new(
            |k: Seq<char>| find_name(self.entries@, k) >= 0,
            |k: Seq<char>| self.entries@[find_name(self.entries@, k)].1,
        )
    }

    pub fn new() -> (r: NameMap<V>)
        ensures
            r.view() == Map::<Seq<char>, V>::empty(),
    {
        let r = NameMap { entries: Vec::new() };
        assert(r.view() =~= Map::<Seq<char>, V>::empty());
        r
    }

    fn index_of(&self, name: &str) -> (r: Option<usize>)
        ensures
            r matches Some(i) ==> i == find_name(self.entries@, name@),
            r is None ==> find_name(self.entries@, name@) == -1,
    {
        let mut i: usize = self.entries.len();
        assert(self.entries@.subrange(0, i as int) =~= self.entries@);
        while i > 0
            invariant
                i <= self.entries@.len(),
                find_name(self.entries@, name@) == find_name(self.entries@.subrange(0, i as int), name@),
            decreases i,
        {
            let ghost s = self.entries@.subrange(0, i as int);
            assert(s.last() == self.entries@[i - 1]);
            if same_text(self.entries[i - 1].0.as_str(), name) {
                return Some(i - 1);
            }
            assert(s.drop_last() =~= self.entries@.subrange(0, i - 1));
            i = i - 1;
        }
        None
    }

    /// The value under `name`, if any.
    pub fn get(&self, name: &str) -> (r: Option<&V>)
        ensures
            r matches Some(v) ==> self.view().contains_key(name@) && self.view()[name@] == *v,
            r is None <==> !self.view().contains_key(name@),
    {
        proof {
            lemma_find_range(self.entries@, name@);
        }
        match self.index_of(name) {
            Some(i) => Some(&self.entries[i].1),
            None => None,
        }
    }

    /// Puts `value` under `name`, replacing what was there.
    pub fn insert(&mut self, name: String, value: V)
        ensures
            final(self).view() == old(self).view().insert(name@, value),
    {
        proof {
            lemma_find_range(self.entries@, name@);
        }
        let ghost k = name@;
        match self.index_of(name.as_str()) {
            Some(i) => {
                self.entries.set(i, (name, value));
                assert forall|j: int| 0 <= j < self.entries@.len() implies #[trigger] self.entries@[j].0@
                    == old(self).entries@[j].0@ by {}
                assert forall|n: Seq<char>| true implies find_name(self.entries@, n) == find_name(
                    old(self).entries@,
                    n,
                ) by {
                    lemma_find_same_names(self.entries@, old(self).entries@, n);
                }
                assert forall|n: Seq<char>| n != k && find_name(self.entries@, n) >= 0 implies find_name(
                    self.entries@, n) != i by {
                    lemma_find_range(self.entries@, n);
                }
            },
            None => {
                self.entries.push((name, value));
                assert(self.entries@.drop_last() =~= old(self).entries@);
                assert(find_name(self.entries@, k) == old(self).entries@.len());
                assert forall|n: Seq<char>| n != k implies find_name(self.entries@, n) == find_name(
                    old(self).entries@,
                    n,
                ) by {}
            },
        }
        assert forall|n: Seq<char>| #[trigger] self.view().contains_key(n) == old(self).view().insert(
            k,
            value,
        ).contains_key(n) by {
            lemma_find_range(self.entries@, n);
        }
        assert forall|n: Seq<char>| self.view().contains_key(n) implies #[trigger] self.view()[n]
            == old(self).view().insert(k, value)[n] by {
            lemma_find_range(self.entries@, n);
            lemma_find_range(old(self).entries@, n);
        }
        assert(self.view() =~= old(self).view().insert(k, value));
    }
}

} // verus!
