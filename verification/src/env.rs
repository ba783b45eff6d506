//! The variable environment: one flat namespace mapping a variable name to
//! its current value. Insertion overwrites; there is no scoping. The
//! abstract view is the mathematical map from name to value.

use vstd::prelude::*;
use crate::text::{chars_of, chars_eq};

verus! {

pub struct Env {
    pairs: Vec<(String, String)>,
}

/// The map a pair list stands for; the earliest pair for a name wins.
pub open spec fn pairs_map(s: Seq<(String, String)>) -> Map<Seq<char>, Seq<char>>
    decreases s.len(),
{
    if s.len() == 0 {
        Map::empty()
    } else {
        pairs_map(s.drop_first()).insert(s[0].0@, s[0].1@)
    }
}

proof fn lemma_pairs_map_key(s: Seq<(String, String)>, k: Seq<char>)
    ensures
        pairs_map(s).contains_key(k) <==> exists|i: int| 0 <= i < s.len() && s[i].0@ == k,
    decreases s.len(),
{
    if s.len() == 0 {
    } else {
        lemma_pairs_map_key(s.drop_first(), k);
        if s[0].0@ == k {
        } else {
            if pairs_map(s).contains_key(k) {
                let i = choose|i: int| 0 <= i < s.len() - 1 && s.drop_first()[i].0@ == k;
                assert(s[i + 1].0@ == k);
            }
            if exists|i: int| 0 <= i < s.len() && s[i].0@ == k {
                let i = choose|i: int| 0 <= i < s.len() && s[i].0@ == k;
                assert(s.drop_first()[i - 1].0@ == k);
            }
        }
    }
}

proof fn lemma_first_match(s: Seq<(String, String)>, i: int, k: Seq<char>)
    requires
        0 <= i < s.len(),
        s[i].0@ == k,
        forall|j: int| 0 <= j < i ==> s[j].0@ != k,
    ensures
        pairs_map(s).contains_key(k),
        pairs_map(s)[k] == s[i].1@,
    decreases s.len(),
{
    if i == 0 {
    } else {
        assert(s.drop_first()[i - 1] == s[i]);
        assert(forall|j: int| 0 <= j < i - 1 ==> s.drop_first()[j].0@ != k) by {
            assert(forall|j: int| 0 <= j < i - 1 ==> s.drop_first()[j] == s[j + 1]);
        }
        lemma_first_match(s.drop_first(), i - 1, k);
        assert(s[0].0@ != k);
    }
}

proof fn lemma_update_first(s: Seq<(String, String)>, i: int, p: (String, String))
    requires
        0 <= i < s.len(),
        s[i].0@ == p.0@,
        forall|j: int| 0 <= j < i ==> s[j].0@ != p.0@,
    ensures
        pairs_map(s.update(i, p)) == pairs_map(s).insert(p.0@, p.1@),
    decreases s.len(),
{
    let su = s.update(i, p);
    if i == 0 {
        assert(su.drop_first() =~= s.drop_first());
        assert(pairs_map(su) =~= pairs_map(s).insert(p.0@, p.1@));
    } else {
        assert(su.drop_first() =~= s.drop_first().update(i - 1, p));
        assert(s.drop_first()[i - 1] == s[i]);
        assert(forall|j: int| 0 <= j < i - 1 ==> s.drop_first()[j].0@ != p.0@) by {
            assert(forall|j: int| 0 <= j < i - 1 ==> s.drop_first()[j] == s[j + 1]);
        }
        lemma_update_first(s.drop_first(), i - 1, p);
        assert(su[0] == s[0]);
        assert(s[0].0@ != p.0@);
        assert(pairs_map(su) =~= pairs_map(s).insert(p.0@, p.1@));
    }
}

proof fn lemma_push_absent(s: Seq<(String, String)>, p: (String, String))
    requires
        forall|j: int| 0 <= j < s.len() ==> s[j].0@ != p.0@,
    ensures
        pairs_map(s.push(p)) == pairs_map(s).insert(p.0@, p.1@),
    decreases s.len(),
{
    if s.len() == 0 {
        assert(s.push(p).drop_first() =~= s);
        assert(s.push(p)[0] == p);
    } else {
        assert(s.push(p).drop_first() =~= s.drop_first().push(p));
        assert(forall|j: int| 0 <= j < s.len() - 1 ==> s.drop_first()[j] == s[j + 1]);
        lemma_push_absent(s.drop_first(), p);
        assert(s.push(p)[0] == s[0]);
        assert(s[0].0@ != p.0@);
        assert(pairs_map(s.push(p)) =~= pairs_map(s).insert(p.0@, p.1@));
    }
}

impl Env {
    pub closed spec fn view(self) -> Map<Seq<char>, Seq<char>> {
        pairs_map(self.pairs@)
    }

    /// An empty environment.
    pub fn new() -> (r: Env)
        ensures
            r@ == Map::<Seq<char>, Seq<char>>::empty(),
    {
        Env { pairs: Vec::new() }
    }

    /// The value bound to `name`, if any.
    pub fn get(&self, name: &str) -> (r: Option<&String>)
        ensures
            match r {
                Some(v) => self@.contains_key(name@) && self@[name@] == v@,
                None => !self@.contains_key(name@),
            },
    {
        let nv = chars_of(name);
        let mut i: usize = 0;
        while i < self.pairs.len()
            invariant
                i <= self.pairs@.len(),
                nv@ == name@,
                forall|j: int| 0 <= j < i ==> self.pairs@[j].0@ != name@,
            decreases self.pairs@.len() - i,
        {
            let kv = chars_of(self.pairs[i].0.as_str());
            if chars_eq(&kv, &nv) {
                proof {
                    lemma_first_match(self.pairs@, i as int, name@);
                }
                return Some(&self.pairs[i].1);
            }
            i = i + 1;
        }
        proof {
            lemma_pairs_map_key(self.pairs@, name@);
        }
        None
    }

    /// Binds `name` to `val`, overwriting any previous binding.
    pub fn insert(&mut self, name: String, val: String)
        ensures
            final(self)@ == old(self)@.insert(name@, val@),
    {
        let nv = chars_of(name.as_str());
        let mut i: usize = 0;
        while i < self.pairs.len()
            invariant
                i <= self.pairs@.len(),
                nv@ == name@,
                self.pairs@ == old(self).pairs@,
                forall|j: int| 0 <= j < i ==> self.pairs@[j].0@ != name@,
            decreases self.pairs@.len() - i,
        {
            let kv = chars_of(self.pairs[i].0.as_str());
            if chars_eq(&kv, &nv) {
                let ghost s0 = self.pairs@;
                proof {
                    lemma_update_first(s0, i as int, (name, val));
                }
                self.pairs[i] = (name, val);
                return ;
            }
            i = i + 1;
        }
        let ghost s0 = self.pairs@;
        proof {
            lemma_push_absent(s0, (name, val));
        }
        self.pairs.push((name, val));
    }

    /// The value bound to `name`, or `name` itself where nothing is bound:
    /// an unbound word reads as its own spelling.
    pub fn get_or_literal(&self, name: &str) -> (r: String)
        ensures
            r@ == spec_lookup_or(self@, name@),
    {
        match self.get(name) {
            Some(v) => v.clone(),
            None => {
                let cs = chars_of(name);
                crate::text::string_of(&cs)
            },
        }
    }
}

/// The stored value, else the name's own spelling.
pub open spec fn spec_lookup_or(m: Map<Seq<char>, Seq<char>>, k: Seq<char>) -> Seq<char> {
    if m.contains_key(k) {
        m[k]
    } else {
        k
    }
}

} // verus!
