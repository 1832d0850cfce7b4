use vstd::prelude::*;

verus! {

/// The value that the entry list `s` gives the variable `k`: the value of the
/// last entry whose name is `k`, or `None` when no entry has that name.
pub open spec fn entry_lookup(s: Seq<(String, String)>, k: Seq<char>) -> Option<Seq<char>>
    decreases s.len(),
{
    if s.len() == 0 {
        None
    } else if s.last().0@ == k {
        Some(s.last().1@)
    } else {
        entry_lookup(s.drop_last(), k)
    }
}

/// No two entries of `s` carry the same variable name.
pub open spec fn names_unique(s: Seq<(String, String)>) -> bool {
    forall|i: int, j: int| 0 <= i < j < s.len() ==> s[i].0@ != s[j].0@
}

/// The map from variable names to values that the entry list `s` stands for.
pub open spec fn entries_map(s: Seq<(String, String)>) -> Map<Seq<char>, Seq<char>> {
    Map::new(|k: Seq<char>| entry_lookup(s, k) is Some, |k: Seq<char>| entry_lookup(s, k)->0)
}

/// With distinct names, the entry at `i` is what the list gives its name, and a
/// name that no entry carries is absent.
pub proof fn lemma_entry_lookup(s: Seq<(String, String)>, k: Seq<char>)
    requires
        names_unique(s),
    ensures
        (exists|i: int| 0 <= i < s.len() && s[i].0@ == k) <==> entry_lookup(s, k) is Some,
        forall|i: int| 0 <= i < s.len() && s[i].0@ == k ==> entry_lookup(s, k) == Some(s[i].1@),
    decreases s.len(),
{
    if s.len() > 0 {
        let t = s.drop_last();
        assert(names_unique(t));
        lemma_entry_lookup(t, k);
        if s.last().0@ != k {
            assert forall|i: int| 0 <= i < s.len() && s[i].0@ == k implies 0 <= i < t.len() && t[i].0@
                == k by {}
            if entry_lookup(t, k) is Some {
                let i = choose|i: int| 0 <= i < t.len() && t[i].0@ == k;
                assert(s[i].0@ == k);
            }
        } else {
            assert(s[s.len() - 1].0@ == k);
        }
    }
}

/// With distinct names, the list holds exactly as many entries as its map
/// has names.
pub proof fn lemma_entries_count(s: Seq<(String, String)>)
    requires
        names_unique(s),
    ensures
        entries_map(s).dom().len() == s.len(),
        entries_map(s).dom().finite(),
{
    let keys = s.map_values(|e: (String, String)| e.0@);
    assert(keys.no_duplicates()) by {
        assert forall|i: int, j: int| 0 <= i < keys.len() && 0 <= j < keys.len() && i != j implies keys[i]
            != keys[j] by {
            if i < j {
                assert(s[i].0@ != s[j].0@);
            } else {
                assert(s[j].0@ != s[i].0@);
            }
        }
    }
    keys.unique_seq_to_set();
    assert forall|k: Seq<char>| #[trigger] entries_map(s).dom().contains(k) == keys.to_set().contains(k) by {
        lemma_entry_lookup(s, k);
        if keys.contains(k) {
            let i = choose|i: int| 0 <= i < keys.len() && keys[i] == k;
            assert(s[i].0@ == k);
        }
        if entry_lookup(s, k) is Some {
            let i = choose|i: int| 0 <= i < s.len() && s[i].0@ == k;
            assert(keys[i] == k);
        }
    }
    assert(entries_map(s).dom() =~= keys.to_set());
    vstd::seq_lib::seq_to_set_is_finite(keys);
}

/// The map that results from setting the pairs of `s` one after another, so
/// that a later pair wins over an earlier one with the same name.
pub open spec fn pairs_map(s: Seq<(String, String)>) -> Map<Seq<char>, Seq<char>>
    decreases s.len(),
{
    if s.len() == 0 {
        Map::empty()
    } else {
        pairs_map(s.drop_last()).insert(s.last().0@, s.last().1@)
    }
}

/// Building an environment from pairs: a name is set exactly when some pair
/// carries it, and its value is that of the last such pair.
pub proof fn law_later_pair_wins(s: Seq<(String, String)>, k: Seq<char>)
    ensures
        pairs_map(s).contains_key(k) <==> exists|i: int| 0 <= i < s.len() && #[trigger] s[i].0@ == k,
        forall|i: int|
            0 <= i < s.len() && #[trigger] s[i].0@ == k && (forall|j: int| i < j < s.len() ==> s[j].0@ != k)
                ==> pairs_map(s)[k] == s[i].1@,
    decreases s.len(),
{
    if s.len() > 0 {
        let t = s.drop_last();
        law_later_pair_wins(t, k);
        if s.last().0@ != k {
            if exists|i: int| 0 <= i < s.len() && #[trigger] s[i].0@ == k {
                let i = choose|i: int| 0 <= i < s.len() && #[trigger] s[i].0@ == k;
                assert(t[i].0@ == k);
            }
            assert forall|i: int|
                0 <= i < s.len() && #[trigger] s[i].0@ == k && (forall|j: int| i < j < s.len() ==> s[j].0@ != k)
                    implies pairs_map(s)[k] == s[i].1@ by {
                assert(t[i] == s[i]);
                assert forall|j: int| i < j < t.len() implies t[j].0@ != k by {
                    assert(t[j] == s[j]);
                }
            }
        } else {
            assert(s[s.len() - 1].0@ == k);
        }
    }
}

/// Reading a variable after setting it gives the value set, and leaves the
/// other variables as they were.
pub proof fn law_get_after_set(m: Map<Seq<char>, Seq<char>>, k: Seq<char>, v: Seq<char>, other: Seq<char>)
    ensures
        m.insert(k, v).contains_key(k),
        m.insert(k, v)[k] == v,
        other != k ==> (m.insert(k, v).contains_key(other) == m.contains_key(other)),
        other != k && m.contains_key(other) ==> m.insert(k, v)[other] == m[other],
{
}

/// A removed variable is not set any more; the others stay as they were.
pub proof fn law_get_after_remove(m: Map<Seq<char>, Seq<char>>, k: Seq<char>, other: Seq<char>)
    ensures
        !m.remove(k).contains_key(k),
        other != k ==> (m.remove(k).contains_key(other) == m.contains_key(other)),
        other != k && m.contains_key(other) ==> m.remove(k)[other] == m[other],
{
}

/// Environment variables of the shell: a finite map from names to values.
///
/// The variables are kept as a list of name/value entries in which no name
/// occurs twice.
#[derive(Debug)]
pub struct Environment {
    vars: Vec<(String, String)>,
}

impl View for Environment {
    type V = Map<Seq<char>, Seq<char>>;

    closed spec fn view(&self) -> Map<Seq<char>, Seq<char>> {
        entries_map(self.vars@)
    }
}

impl Default for Environment {
    fn default() -> (env: Self)
        ensures
            env@ == Map::<Seq<char>, Seq<char>>::empty(),
    {
        Environment::new()
    }
}

impl Environment {
    #[verifier::type_invariant]
    closed spec fn inv(self) -> bool {
        names_unique(self.vars@)
    }

    /// Index of the entry named `key`, if there is one.
    fn position(&self, key: &str) -> (r: Option<usize>)
        ensures
            match r {
                Some(i) => i < self.vars@.len() && self.vars@[i as int].0@ == key@,
                None => forall|i: int| 0 <= i < self.vars@.len() ==> self.vars@[i].0@ != key@,
            },
    {
        let n = self.vars.len();
        for i in 0..n
            invariant
                n == self.vars@.len(),
                forall|j: int| 0 <= j < i ==> self.vars@[j].0@ != key@,
        {
            if crate::text::str_equal(self.vars[i].0.as_str(), key) {
                return Some(i);
            }
        }
        None
    }

    /// Creates an environment without variables.
    pub fn new() -> (env: Self)
        ensures
            env@ == Map::<Seq<char>, Seq<char>>::empty(),
    {
        let env = Environment { vars: Vec::new() };
        assert(env@ =~= Map::<Seq<char>, Seq<char>>::empty());
        env
    }

    /// Creates an environment holding the given name/value pairs; where a name
    /// occurs twice, the later pair wins.
    pub fn with_vars(vars: Vec<(String, String)>) -> (env: Self)
        ensures
            env@ == pairs_map(vars@),
    {
        let mut env = Environment::new();
        let ghost all = vars@;
        for pair in it: vars
            invariant
                all == it.seq(),
                env@ == pairs_map(all.take(it.index() as int)),
        {
            let ghost i = it.index();
            assert(all.take(i + 1).drop_last() =~= all.take(i as int));
            let (k, v) = pair;
            env.set(k.as_str(), v.as_str());
        }
        assert(all.take(all.len() as int) =~= all);
        env
    }

    /// Returns the value of the variable `key`, or `None` when it is not set.
    pub fn get(&self, key: &str) -> (r: Option<&str>)
        ensures
            match r {
                Some(v) => self@.contains_key(key@) && v@ == self@[key@],
                None => !self@.contains_key(key@),
            },
    {
        proof {
            use_type_invariant(self);
            lemma_entry_lookup(self.vars@, key@);
        }
        match self.position(key) {
            Some(i) => Some(self.vars[i].1.as_str()),
            None => None,
        }
    }

    /// Sets the variable `k` to `v`, replacing any earlier value.
    pub fn set(&mut self, k: &str, v: &str)
        ensures
            final(self)@ == old(self)@.insert(k@, v@),
    {
        let k = String::from_str(k);
        let v = String::from_str(v);
        proof {
            use_type_invariant(&*self);
        }
        let ghost old_vars = self.vars@;
        let pos = self.position(k.as_str());
        let mut vars: Vec<(String, String)> = Vec::new();
        std::mem::swap(&mut vars, &mut self.vars);
        let ghost kv = k@;
        let ghost vv = v@;
        match pos {
            Some(i) => {
                vars.set(i, (k, v));
            },
            None => {
                vars.push((k, v));
            },
        }
        proof {
            let s = vars@;
            assert(names_unique(s)) by {
                assert forall|a: int, b: int| 0 <= a < b < s.len() implies s[a].0@ != s[b].0@ by {
                    if pos is None {
                        if b == old_vars.len() {
                            assert(s[a] == old_vars[a]);
                        } else {
                            assert(s[a] == old_vars[a] && s[b] == old_vars[b]);
                        }
                    } else {
                        let i = pos->0 as int;
                        if a != i && b != i {
                            assert(s[a] == old_vars[a] && s[b] == old_vars[b]);
                        } else if a == i {
                            assert(s[b] == old_vars[b]);
                        } else {
                            assert(s[a] == old_vars[a]);
                        }
                    }
                }
            }
            let m = entries_map(s);
            let m0 = entries_map(old_vars).insert(kv, vv);
            assert forall|key: Seq<char>| #[trigger] m.contains_key(key) == m0.contains_key(key) && (
            m.contains_key(key) ==> m[key] == m0[key]) by {
                lemma_entry_lookup(s, key);
                lemma_entry_lookup(old_vars, key);
                if key == kv {
                    let j = if pos is None { old_vars.len() as int } else { pos->0 as int };
                    assert(s[j].0@ == kv && s[j].1@ == vv);
                } else {
                    if entry_lookup(old_vars, key) is Some {
                        let j = choose|j: int| 0 <= j < old_vars.len() && old_vars[j].0@ == key;
                        assert(s[j] == old_vars[j]);
                    }
                    if entry_lookup(s, key) is Some {
                        let j = choose|j: int| 0 <= j < s.len() && s[j].0@ == key;
                        assert(s[j] == old_vars[j]);
                    }
                }
            }
            assert(m =~= m0);
        }
        self.vars = vars;
    }

    /// Removes the variable `k`; nothing changes when it is not set.
    pub fn remove(&mut self, k: &str)
        ensures
            final(self)@ == old(self)@.remove(k@),
    {
        proof {
            use_type_invariant(&*self);
        }
        let ghost old_vars = self.vars@;
        let pos = self.position(k);
        let mut vars: Vec<(String, String)> = Vec::new();
        std::mem::swap(&mut vars, &mut self.vars);
        if let Some(i) = pos {
            vars.remove(i);
        }
        proof {
            let s = vars@;
            assert(names_unique(s)) by {
                if pos is Some {
                    let i = pos->0 as int;
                    assert forall|a: int, b: int| 0 <= a < b < s.len() implies s[a].0@ != s[b].0@ by {
                        let a0 = if a < i { a } else { a + 1 };
                        let b0 = if b < i { b } else { b + 1 };
                        assert(s[a] == old_vars[a0] && s[b] == old_vars[b0]);
                    }
                }
            }
            let m = entries_map(s);
            let m0 = entries_map(old_vars).remove(k@);
            assert forall|key: Seq<char>| #[trigger] m.contains_key(key) == m0.contains_key(key) && (
            m.contains_key(key) ==> m[key] == m0[key]) by {
                lemma_entry_lookup(s, key);
                lemma_entry_lookup(old_vars, key);
                if pos is Some {
                    let i = pos->0 as int;
                    if entry_lookup(old_vars, key) is Some && key != k@ {
                        let j = choose|j: int| 0 <= j < old_vars.len() && old_vars[j].0@ == key;
                        let j2 = if j < i { j } else { j - 1 };
                        assert(s[j2] == old_vars[j]);
                    }
                    if entry_lookup(s, key) is Some {
                        let j = choose|j: int| 0 <= j < s.len() && s[j].0@ == key;
                        let j0 = if j < i { j } else { j + 1 };
                        assert(s[j] == old_vars[j0]);
                    }
                }
            }
            assert(m =~= m0);
        }
        self.vars = vars;
    }

    /// Lists the variables as name/value pairs, each name once.
    pub fn iter(&self) -> (r: Vec<(String, String)>)
        ensures
            names_unique(r@),
            r@.len() == self@.dom().len(),
            forall|i: int|
                0 <= i < r@.len() ==> self@.contains_key(#[trigger] r@[i].0@) && self@[r@[i].0@]
                    == r@[i].1@,
            forall|k: Seq<char>|
                self@.contains_key(k) ==> exists|i: int| 0 <= i < r@.len() && #[trigger] r@[i].0@ == k,
    {
        proof {
            use_type_invariant(self);
        }
        let mut r: Vec<(String, String)> = Vec::new();
        let n = self.vars.len();
        let mut i: usize = 0;
        while i < n
            invariant
                n == self.vars@.len(),
                i <= n,
                r@.len() == i,
                forall|j: int| 0 <= j < i ==> #[trigger] r@[j] == self.vars@[j],
            decreases n - i,
        {
            let k = self.vars[i].0.clone();
            let v = self.vars[i].1.clone();
            r.push((k, v));
            i = i + 1;
        }
        proof {
            assert forall|i: int| 0 <= i < r@.len() implies self@.contains_key(#[trigger] r@[i].0@) && self@[r@[i].0@] == r@[i].1@ by {
                lemma_entry_lookup(self.vars@, r@[i].0@);
            }
            lemma_entries_count(self.vars@);
            assert forall|k: Seq<char>| self@.contains_key(k) implies exists|i: int| 0 <= i < r@.len() && #[trigger] r@[i].0@ == k by {
                lemma_entry_lookup(self.vars@, k);
                let i = choose|i: int| 0 <= i < self.vars@.len() && self.vars@[i].0@ == k;
                assert(r@[i].0@ == k);
            }
        }
        r
    }

    /// Returns true when no variable is set.
    pub fn is_empty(&self) -> (r: bool)
        ensures
            r == (self@.dom() =~= Set::<Seq<char>>::empty()),
    {
        proof {
            use_type_invariant(self);
            if self.vars@.len() > 0 {
                let k = self.vars@[0].0@;
                lemma_entry_lookup(self.vars@, k);
                assert(self@.contains_key(k));
            }
        }
        self.vars.len() == 0
    }
}

} // verus!
