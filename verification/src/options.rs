use vstd::prelude::*;

verus! {

/// Whether the entry list holds a value under key `k`.
pub open spec fn has_entry(s: Seq<(Seq<char>, Seq<Seq<char>>)>, k: Seq<char>) -> bool {
    exists|i: int| 0 <= i < s.len() && (#[trigger] s[i]).0 == k
}

/// The position of the entry under key `k` (meaningful when `has_entry`
/// holds and keys are unique).
pub open spec fn entry_index(s: Seq<(Seq<char>, Seq<Seq<char>>)>, k: Seq<char>) -> int {
    choose|i: int| 0 <= i < s.len() && (#[trigger] s[i]).0 == k
}

/// The value stored under key `k`.
pub open spec fn entry_value(s: Seq<(Seq<char>, Seq<Seq<char>>)>, k: Seq<char>) -> Seq<
    Seq<char>,
> {
    s[entry_index(s, k)].1
}

/// The entry list after binding `k` to `v`: the entry under `k` is
/// replaced in place when one exists, else a new entry is appended.
pub open spec fn with_entry(
    s: Seq<(Seq<char>, Seq<Seq<char>>)>,
    k: Seq<char>,
    v: Seq<Seq<char>>,
) -> Seq<(Seq<char>, Seq<Seq<char>>)> {
    if has_entry(s, k) {
        s.update(entry_index(s, k), (k, v))
    } else {
        s.push((k, v))
    }
}

/// No two entries share a key.
pub open spec fn keys_unique(s: Seq<(Seq<char>, Seq<Seq<char>>)>) -> bool {
    forall|i: int, j: int| 0 <= i < j < s.len() ==> (#[trigger] s[i]).0 != (#[trigger] s[j]).0
}

/// In an entry list without repeated keys, the entry at a position
/// holding key `k` is the one the lookup functions find.
pub proof fn lemma_entry_at(s: Seq<(Seq<char>, Seq<Seq<char>>)>, k: Seq<char>, j: int)
    requires
        keys_unique(s),
        0 <= j < s.len(),
        s[j].0 == k,
    ensures
        has_entry(s, k),
        entry_index(s, k) == j,
        entry_value(s, k) == s[j].1,
{
    assert(has_entry(s, k));
    let j2 = entry_index(s, k);
    assert(0 <= j2 < s.len() && s[j2].0 == k);
    if j2 < j {
        assert(s[j2].0 != s[j].0);
    } else if j < j2 {
        assert(s[j].0 != s[j2].0);
    }
}

/// The result of one parse: the names that were declared, and the
/// resolved values, keyed by option name in declaration order.
///
/// A declared option that was neither given in the input nor carries a
/// default has no entry at all ("absent"): presence of an entry means
/// the option was given or defaulted.
#[derive(Debug)]
pub struct Options {
    defined_names: Vec<String>,
    parsed_options: Vec<(String, Vec<String>)>,
}

impl Options {
    /// The declared names, in declaration order.
    pub closed spec fn defined(&self) -> Seq<Seq<char>> {
        self.defined_names.deep_view()
    }

    /// The resolved entries, as (name, values) pairs in resolution order.
    pub closed spec fn entries(&self) -> Seq<(Seq<char>, Seq<Seq<char>>)> {
        self.parsed_options.deep_view()
    }

    /// Entry keys never repeat.
    pub closed spec fn wf(&self) -> bool {
        keys_unique(self.entries())
    }

    /// An empty result: nothing declared, nothing resolved.
    pub fn new() -> (r: Self)
        ensures
            r.defined() == Seq::<Seq<char>>::empty(),
            r.entries() == Seq::<(Seq<char>, Seq<Seq<char>>)>::empty(),
            r.wf(),
    {
        let r = Self { defined_names: Vec::new(), parsed_options: Vec::new() };
        proof {
            assert(r.defined() =~~= Seq::<Seq<char>>::empty());
            assert(r.entries() =~~= Seq::<(Seq<char>, Seq<Seq<char>>)>::empty());
        }
        r
    }

    /// Appends the given names to the declared-name list.
    pub fn set_defined_names(&mut self, names: Vec<&String>)
        ensures
            final(self).defined() == old(self).defined() + names.deep_view(),
            final(self).entries() == old(self).entries(),
            final(self).wf() == old(self).wf(),
    {
        let ghost vs0 = self.defined_names@;
        let mut i: usize = 0;
        while i < names.len()
            invariant
                i <= names@.len(),
                self.parsed_options == old(self).parsed_options,
                self.defined_names@.len() == vs0.len() + i,
                forall|k: int| 0 <= k < vs0.len() ==> #[trigger] self.defined_names@[k]
                    == vs0[k],
                forall|k: int| 0 <= k < i ==> self.defined_names@[vs0.len() + k]@
                    == (#[trigger] names@[k])@,
            decreases names@.len() - i,
        {
            let n: &String = names[i];
            self.defined_names.push(n.clone());
            i = i + 1;
        }
        proof {
            let dv = self.defined_names.deep_view();
            let rhs = old(self).defined() + names.deep_view();
            assert forall|j: int| 0 <= j < dv.len() implies dv[j] == rhs[j] by {
                if j < vs0.len() {
                    assert(self.defined_names@[j] == vs0[j]);
                } else {
                    assert(self.defined_names@[j]@ == names@[j - vs0.len()]@);
                }
            }
            assert(dv =~~= rhs);
        }
    }

    /// Binds `key` to `values`, replacing an existing binding in place,
    /// and hands back the values that were bound before, if any.
    pub fn insert(&mut self, key: String, values: Vec<String>) -> (r: Option<Vec<String>>)
        requires
            old(self).wf(),
        ensures
            final(self).wf(),
            final(self).defined() == old(self).defined(),
            final(self).entries() == with_entry(old(self).entries(), key@, values.deep_view()),
            match r {
                Some(prev) => has_entry(old(self).entries(), key@) && prev.deep_view()
                    == entry_value(old(self).entries(), key@),
                None => !has_entry(old(self).entries(), key@),
            },
    {
        let ghost orig = self.parsed_options.deep_view();
        let ghost vs0 = self.parsed_options@;
        let mut i: usize = 0;
        while i < self.parsed_options.len()
            invariant
                old(self).wf(),
                i <= self.parsed_options@.len(),
                self == old(self),
                orig == old(self).entries(),
                vs0 == self.parsed_options@,
                forall|j: int| 0 <= j < i ==> (#[trigger] orig[j]).0 != key@,
            decreases self.parsed_options@.len() - i,
        {
            if self.parsed_options[i].0 == key {
                proof {
                    assert(orig[i as int] == vs0[i as int].deep_view());
                    assert(orig[i as int].0 == key@);
                    assert(has_entry(orig, key@));
                    let j = entry_index(orig, key@);
                    assert(0 <= j < orig.len() && orig[j].0 == key@);
                    assert(j == i as int);
                }
                let prev = self.parsed_options.remove(i);
                self.parsed_options.insert(i, (key, values));
                proof {
                    let updated = orig.update(i as int, (key@, values.deep_view()));
                    assert(self.parsed_options@ =~= vs0.remove(i as int).insert(
                        i as int,
                        (key, values),
                    ));
                    let dv = self.parsed_options.deep_view();
                    assert forall|a: int| 0 <= a < dv.len() implies dv[a] == updated[a] by {
                        if a == i as int {
                            assert(self.parsed_options@[a] == (key, values));
                        } else {
                            assert(self.parsed_options@[a] == vs0[a]);
                            assert(orig[a] == vs0[a].deep_view());
                        }
                    }
                    assert(dv =~~= updated);
                    assert(updated == with_entry(orig, key@, values.deep_view()));
                    assert forall|a: int, b: int|
                        0 <= a < b < updated.len() implies (#[trigger] updated[a]).0
                        != (#[trigger] updated[b]).0 by {
                        assert(orig[a].0 != orig[b].0);
                    }
                    assert(prev.1.deep_view() == entry_value(orig, key@));
                }
                return Some(prev.1);
            }
            i = i + 1;
        }
        proof {
            assert(!has_entry(orig, key@));
        }
        self.parsed_options.push((key, values));
        proof {
            let pushed = orig.push((key@, values.deep_view()));
            let dv = self.parsed_options.deep_view();
            assert(self.parsed_options@ == vs0.push((key, values)));
            assert forall|a: int| 0 <= a < dv.len() implies dv[a] == pushed[a] by {
                if a < vs0.len() {
                    assert(self.parsed_options@[a] == vs0[a]);
                    assert(orig[a] == vs0[a].deep_view());
                } else {
                    assert(self.parsed_options@[a] == (key, values));
                }
            }
            assert(dv =~~= pushed);
            assert(pushed == with_entry(orig, key@, values.deep_view()));
            assert forall|a: int, b: int|
                0 <= a < b < pushed.len() implies (#[trigger] pushed[a]).0 != (
                #[trigger] pushed[b]).0 by {
                if b < orig.len() {
                    assert(orig[a].0 != orig[b].0);
                } else {
                    assert(pushed[b].0 == key@);
                    assert(orig[a].0 != key@);
                }
            }
        }
        None
    }

    /// The values bound under `key`, if the key was given or defaulted.
    pub fn get(&self, key: &String) -> (r: Option<&Vec<String>>)
        requires
            self.wf(),
        ensures
            match r {
                Some(v) => has_entry(self.entries(), key@) && v.deep_view() == entry_value(
                    self.entries(),
                    key@,
                ),
                None => !has_entry(self.entries(), key@),
            },
    {
        let mut i: usize = 0;
        while i < self.parsed_options.len()
            invariant
                self.wf(),
                i <= self.parsed_options@.len(),
                forall|j: int| 0 <= j < i ==> (#[trigger] self.entries()[j]).0 != key@,
            decreases self.parsed_options@.len() - i,
        {
            if self.parsed_options[i].0 == *key {
                proof {
                    assert(self.entries()[i as int] == self.parsed_options@[i as int].deep_view());
                    assert(self.entries()[i as int].0 == key@);
                    let j = entry_index(self.entries(), key@);
                    assert(0 <= j < self.entries().len() && self.entries()[j].0 == key@);
                    assert(j == i as int);
                }
                let pair: &(String, Vec<String>) = &self.parsed_options[i];
                return Some(&pair.1);
            }
            proof {
                assert(self.entries()[i as int] == self.parsed_options@[i as int].deep_view());
            }
            i = i + 1;
        }
        None
    }

    /// Whether `key` is known at all: resolved to a value, or merely
    /// declared.
    pub fn contains_key(&self, key: &String) -> (r: bool)
        ensures
            r == (has_entry(self.entries(), key@) || self.defined().contains(key@)),
    {
        let mut i: usize = 0;
        while i < self.parsed_options.len()
            invariant
                i <= self.parsed_options@.len(),
                forall|j: int| 0 <= j < i ==> (#[trigger] self.entries()[j]).0 != key@,
            decreases self.parsed_options@.len() - i,
        {
            if self.parsed_options[i].0 == *key {
                proof {
                    assert(self.entries()[i as int] == self.parsed_options@[i as int].deep_view());
                    assert(self.entries()[i as int].0 == key@);
                }
                return true;
            }
            proof {
                assert(self.entries()[i as int] == self.parsed_options@[i as int].deep_view());
            }
            i = i + 1;
        }
        let mut k: usize = 0;
        while k < self.defined_names.len()
            invariant
                k <= self.defined_names@.len(),
                !has_entry(self.entries(), key@),
                forall|j: int| 0 <= j < k ==> #[trigger] self.defined()[j] != key@,
            decreases self.defined_names@.len() - k,
        {
            if self.defined_names[k] == *key {
                proof {
                    assert(self.defined()[k as int] == self.defined_names@[k as int]@);
                }
                return true;
            }
            proof {
                assert(self.defined()[k as int] == self.defined_names@[k as int]@);
            }
            k = k + 1;
        }
        false
    }

    /// How many names were declared.
    pub fn defined_len(&self) -> (n: usize)
        ensures
            n == self.defined().len(),
    {
        self.defined_names.len()
    }

    /// How many options resolved to a value.
    pub fn parsed_len(&self) -> (n: usize)
        ensures
            n == self.entries().len(),
    {
        self.parsed_options.len()
    }
}

} // verus!
