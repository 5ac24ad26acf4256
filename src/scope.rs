use vstd::prelude::*;

verus! {

/// The map that a list of bindings stands for: a later binding of a name
/// replaces an earlier one.
pub open spec fn bindings_map<V: View>(s: Seq<(Vec<char>, V)>) -> Map<Seq<char>, V::V>
    decreases s.len(),
{
    if s.len() == 0 {
        Map::empty()
    } else {
        bindings_map(s.drop_last()).insert(s.last().0@, s.last().1@)
    }
}

/// One namespace of variables: names mapped to values of one type.
pub struct Scope<V> {
    entries: Vec<(Vec<char>, V)>,
}

impl<V: View> View for Scope<V> {
    type V = Map<Seq<char>, V::V>;

    closed spec fn view(&self) -> Map<Seq<char>, V::V> {
        bindings_map(self.entries@)
    }
}

/// Whether two words are equal.
pub fn same_word(a: &Vec<char>, b: &Vec<char>) -> (r: bool)
    ensures
        r == (a@ == b@),
{
    if a.len() != b.len() {
        return false;
    }
    let mut i: usize = 0;
    while i < a.len()
        invariant
            a@.len() == b@.len(),
            i <= a@.len(),
            forall|j: int| 0 <= j < i ==> a@[j] == b@[j],
        decreases a@.len() - i,
    {
        if a[i] != b[i] {
            return false;
        }
        i = i + 1;
    }
    assert(a@ =~= b@);
    true
}

proof fn lemma_take_drop_last<V>(s: Seq<(Vec<char>, V)>, i: int)
    requires
        0 < i <= s.len(),
    ensures
        s.take(i).drop_last() == s.take(i - 1),
        s.take(i).last() == s[i - 1],
{
    assert(s.take(i).drop_last() =~= s.take(i - 1));
}

proof fn lemma_update_last_binding<V: View>(s: Seq<(Vec<char>, V)>, i: int, e: (Vec<char>, V))
    requires
        0 <= i < s.len(),
        s[i].0@ == e.0@,
        forall|j: int| i < j < s.len() ==> s[j].0@ != e.0@,
    ensures
        bindings_map(s.update(i, e)) == bindings_map(s).insert(e.0@, e.1@),
    decreases s.len(),
{
    let u = s.update(i, e);
    if i == s.len() - 1 {
        assert(u.drop_last() =~= s.drop_last());
        assert(bindings_map(u) =~= bindings_map(s).insert(e.0@, e.1@));
    } else {
        assert(u.drop_last() =~= s.drop_last().update(i, e));
        lemma_update_last_binding(s.drop_last(), i, e);
        assert(bindings_map(u) =~= bindings_map(s).insert(e.0@, e.1@));
    }
}

/// No name is bound twice in a list of bindings.
pub open spec fn names_distinct<V>(s: Seq<(Vec<char>, V)>) -> bool {
    forall|i: int, j: int| 0 <= i < j < s.len() ==> s[i].0@ != s[j].0@
}

impl<V> Scope<V> {
    /// Each name has one binding.
    pub closed spec fn wf(&self) -> bool {
        names_distinct(self.entries@)
    }
}

impl<V: View> Scope<V> {
    pub fn new() -> (r: Self)
        ensures
            r@ == Map::<Seq<char>, V::V>::empty(),
            r.wf(),
    {
        Scope { entries: Vec::new() }
    }

    /// The index of the last binding of `name`, if there is one.
    fn position(&self, name: &Vec<char>) -> (r: Option<usize>)
        ensures
            match r {
                Some(i) => {
                    &&& i < self.entries@.len()
                    &&& self.entries@[i as int].0@ == name@
                    &&& forall|j: int| i < j < self.entries@.len() ==> self.entries@[j].0@ != name@
                    &&& self@.contains_key(name@)
                    &&& self@[name@] == self.entries@[i as int].1@
                },
                None => !self@.contains_key(name@) && forall|j: int|
                    0 <= j < self.entries@.len() ==> self.entries@[j].0@ != name@,
            },
    {
        let ghost s = self.entries@;
        let mut i: usize = self.entries.len();
        assert(s.take(i as int) =~= s);
        while i > 0
            invariant
                s == self.entries@,
                i <= s.len(),
                forall|j: int| i <= j < s.len() ==> s[j].0@ != name@,
                bindings_map(s).contains_key(name@) == bindings_map(s.take(i as int)).contains_key(
                    name@,
                ),
                bindings_map(s).contains_key(name@) ==> bindings_map(s)[name@] == bindings_map(
                    s.take(i as int),
                )[name@],
            decreases i,
        {
            proof {
                lemma_take_drop_last(s, i as int);
            }
            if same_word(&self.entries[i - 1].0, name) {
                return Some(i - 1);
            }
            i = i - 1;
        }
        assert(s.take(0) =~= Seq::<(Vec<char>, V)>::empty());
        None
    }

    /// Whether `name` is bound.
    pub fn contains(&self, name: &Vec<char>) -> (r: bool)
        ensures
            r == self@.contains_key(name@),
    {
        self.position(name).is_some()
    }

    /// The value bound to `name`, if any.
    pub fn get(&self, name: &Vec<char>) -> (r: Option<&V>)
        ensures
            match r {
                Some(v) => self@.contains_key(name@) && v@ == self@[name@],
                None => !self@.contains_key(name@),
            },
    {
        match self.position(name) {
            Some(i) => Some(&self.entries[i].1),
            None => None,
        }
    }

    /// The bindings, one per bound name.
    pub fn bindings(&self) -> (r: &Vec<(Vec<char>, V)>)
        ensures
            bindings_map(r@) == self@,
            self.wf() ==> names_distinct(r@),
    {
        &self.entries
    }

    /// Binds `name` to `value`, replacing an earlier binding of it.
    pub fn insert(&mut self, name: Vec<char>, value: V)
        ensures
            final(self)@ == old(self)@.insert(name@, value@),
            old(self).wf() ==> final(self).wf(),
    {
        match self.position(&name) {
            Some(i) => {
                let ghost e = (name, value);
                proof {
                    lemma_update_last_binding(self.entries@, i as int, e);
                }
                self.entries.set(i, (name, value));
                proof {
                    if old(self).wf() {
                        assert forall|a: int, b: int|
                            0 <= a < b < self.entries@.len() implies self.entries@[a].0@
                            != self.entries@[b].0@ by {
                            assert(old(self).entries@[a].0@ == self.entries@[a].0@);
                            assert(old(self).entries@[b].0@ == self.entries@[b].0@);
                        }
                    }
                }
            },
            None => {
                let ghost s = self.entries@;
                self.entries.push((name, value));
                assert(self.entries@.drop_last() =~= s);
                proof {
                    if old(self).wf() {
                        assert forall|a: int, b: int|
                            0 <= a < b < self.entries@.len() implies self.entries@[a].0@
                            != self.entries@[b].0@ by {
                            assert(self.entries@[a] == s[a]);
                        }
                    }
                }
            },
        }
    }
}

} // verus!
