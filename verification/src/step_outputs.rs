use vstd::prelude::*;
use vstd::string::*;

verus! {

/// The outputs a workflow has collected, keyed by step name.
///
/// Each key occurs at most once; storing under an existing key replaces its value.
#[derive(Debug)]
pub struct StepOutputs {
    pairs: Vec<(String, String)>,
}

impl StepOutputs {
    /// Whether some stored pair has the key `k`.
    pub closed spec fn has_key_at(self, k: Seq<char>, i: int) -> bool {
        0 <= i < self.pairs@.len() && self.pairs@[i].0@ == k
    }

    #[verifier::type_invariant]
    closed spec fn keys_distinct(self) -> bool {
        forall|i: int, j: int|
            0 <= i < self.pairs@.len() && 0 <= j < self.pairs@.len() && i != j ==> #[trigger] self.pairs@[i].0@
                != #[trigger] self.pairs@[j].0@
    }

    /// The stored outputs as a map from step name to output.
    pub closed spec fn view(self) -> Map<Seq<char>, Seq<char>> {
        Map::new(
            |k: Seq<char>| exists|i: int| self.has_key_at(k, i),
            |k: Seq<char>| self.pairs@[choose|i: int| self.has_key_at(k, i)].1@,
        )
    }

    proof fn lemma_view_at(self, i: int)
        requires
            self.keys_distinct(),
            0 <= i < self.pairs@.len(),
        ensures
            self.view().contains_key(self.pairs@[i].0@),
            self.view()[self.pairs@[i].0@] == self.pairs@[i].1@,
    {
        let k = self.pairs@[i].0@;
        assert(self.has_key_at(k, i));
        let j = choose|j: int| self.has_key_at(k, j);
        assert(self.pairs@[j].0@ == self.pairs@[i].0@);
    }

    /// An empty collection of outputs.
    pub fn new() -> (r: Self)
        ensures
            r.view() == Map::<Seq<char>, Seq<char>>::empty(),
    {
        let r = StepOutputs { pairs: Vec::new() };
        assert(r.view() =~= Map::<Seq<char>, Seq<char>>::empty());
        r
    }

    fn position(&self, key: &str) -> (r: Option<usize>)
        ensures
            match r {
                Some(i) => self.has_key_at(key@, i as int),
                None => !self.view().contains_key(key@),
            },
    {
        let n = self.pairs.len();
        let mut i: usize = 0;
        while i < n
            invariant
                n == self.pairs@.len(),
                0 <= i <= n,
                forall|j: int| 0 <= j < i ==> self.pairs@[j].0@ != key@,
            decreases n - i,
        {
            if string_eq_str(&self.pairs[i].0, key) {
                return Some(i);
            }
            i = i + 1;
        }
        None
    }

    /// Stores `value` under `key`, replacing any earlier value for that key.
    pub fn insert(&mut self, key: String, value: String)
        ensures
            final(self).view() == old(self).view().insert(key@, value@),
    {
        proof {
            use_type_invariant(&*self);
        }
        let ghost k = key@;
        let ghost v = value@;
        let ghost before = *self;
        let found = self.position(key.as_str());
        let mut taken = StepOutputs::new();
        std::mem::swap(self, &mut taken);
        let mut pairs = taken.pairs;
        match found {
            Some(i) => {
                pairs.set(i, (key, value));
                *self = StepOutputs { pairs };
                proof {
                    let after = *self;
                    assert forall|x: Seq<char>| #[trigger]
                        after.view().contains_key(x) == before.view().insert(k, v).contains_key(x) by {
                        if before.view().contains_key(x) {
                            let j = choose|j: int| before.has_key_at(x, j);
                            assert(after.has_key_at(x, j) || j == i);
                        }
                        if after.view().contains_key(x) {
                            let j = choose|j: int| after.has_key_at(x, j);
                            assert(before.has_key_at(x, j) || j == i);
                        }
                    }
                    assert forall|x: Seq<char>| #[trigger] after.view().contains_key(x) implies after.view()[x]
                        == before.view().insert(k, v)[x] by {
                        let j = choose|j: int| after.has_key_at(x, j);
                        after.lemma_view_at(j);
                        if j != i {
                            before.lemma_view_at(j);
                        }
                    }
                    assert(after.view() =~= before.view().insert(k, v));
                }
            },
            None => {
                pairs.push((key, value));
                proof {
                    assert forall|a: int, b: int|
                        0 <= a < pairs@.len() && 0 <= b < pairs@.len() && a != b implies #[trigger] pairs@[a].0@
                            != #[trigger] pairs@[b].0@ by {
                        if a != before.pairs@.len() && b != before.pairs@.len() {
                            assert(before.pairs@[a] == pairs@[a] && before.pairs@[b] == pairs@[b]);
                        } else if a == before.pairs@.len() {
                            assert(before.has_key_at(pairs@[b].0@, b));
                        } else {
                            assert(before.has_key_at(pairs@[a].0@, a));
                        }
                    }
                }
                *self = StepOutputs { pairs };
                proof {
                    let after = *self;
                    let n = before.pairs@.len() as int;
                    assert forall|x: Seq<char>| #[trigger]
                        after.view().contains_key(x) == before.view().insert(k, v).contains_key(x) by {
                        if before.view().contains_key(x) {
                            let j = choose|j: int| before.has_key_at(x, j);
                            assert(after.has_key_at(x, j));
                        }
                        if x == k {
                            assert(after.has_key_at(x, n));
                        }
                        if after.view().contains_key(x) {
                            let j = choose|j: int| after.has_key_at(x, j);
                            assert(before.has_key_at(x, j) || j == n);
                        }
                    }
                    assert forall|x: Seq<char>| #[trigger] after.view().contains_key(x) implies after.view()[x]
                        == before.view().insert(k, v)[x] by {
                        let j = choose|j: int| after.has_key_at(x, j);
                        after.lemma_view_at(j);
                        if j != n {
                            before.lemma_view_at(j);
                        }
                    }
                    assert(after.view() =~= before.view().insert(k, v));
                }
            },
        }
    }

    /// The output stored under `key`, if any.
    pub fn get(&self, key: &str) -> (r: Option<&String>)
        ensures
            match r {
                Some(v) => self.view().contains_key(key@) && v@ == self.view()[key@],
                None => !self.view().contains_key(key@),
            },
    {
        proof {
            use_type_invariant(self);
        }
        match self.position(key) {
            Some(i) => {
                proof {
                    self.lemma_view_at(i as int);
                }
                Some(&self.pairs[i].1)
            },
            None => None,
        }
    }

    /// Whether an output is stored under `key`.
    pub fn contains_key(&self, key: &str) -> (r: bool)
        ensures
            r == self.view().contains_key(key@),
    {
        self.get(key).is_some()
    }

    /// Whether no output is stored.
    pub fn is_empty(&self) -> (r: bool)
        ensures
            r == (self.view() == Map::<Seq<char>, Seq<char>>::empty()),
    {
        proof {
            use_type_invariant(self);
        }
        if self.pairs.len() == 0 {
            assert(self.view() =~= Map::<Seq<char>, Seq<char>>::empty());
            true
        } else {
            proof {
                self.lemma_view_at(0);
            }
            false
        }
    }

    /// A copy with the same contents.
    pub fn duplicate(&self) -> (r: Self)
        ensures
            r.view() == self.view(),
    {
        proof {
            use_type_invariant(self);
        }
        let mut pairs: Vec<(String, String)> = Vec::new();
        let n = self.pairs.len();
        let mut i: usize = 0;
        while i < n
            invariant
                n == self.pairs@.len(),
                0 <= i <= n,
                pairs@.len() == i,
                forall|j: int| 0 <= j < i ==> #[trigger] pairs@[j].0@ == self.pairs@[j].0@ && pairs@[j].1@ == self.pairs@[j].1@,
            decreases n - i,
        {
            let k = self.pairs[i].0.clone();
            let v = self.pairs[i].1.clone();
            pairs.push((k, v));
            i = i + 1;
        }
        let r = StepOutputs { pairs };
        proof {
            assert forall|x: Seq<char>| #[trigger] r.view().contains_key(x) == self.view().contains_key(x) by {
                if self.view().contains_key(x) {
                    let j = choose|j: int| self.has_key_at(x, j);
                    assert(r.has_key_at(x, j));
                }
                if r.view().contains_key(x) {
                    let j = choose|j: int| r.has_key_at(x, j);
                    assert(self.has_key_at(x, j));
                }
            }
            assert forall|x: Seq<char>| #[trigger] r.view().contains_key(x) implies r.view()[x] == self.view()[x] by {
                let j = choose|j: int| r.has_key_at(x, j);
                r.lemma_view_at(j);
                self.lemma_view_at(j);
            }
            assert(r.view() =~= self.view());
        }
        r
    }
}

/// Whether a `String` holds exactly the characters of a `&str`.
pub fn string_eq_str(a: &String, b: &str) -> (r: bool)
    ensures
        r == (a@ == b@),
{
    let owned = String::from_str(b);
    *a == owned
}

} // verus!
