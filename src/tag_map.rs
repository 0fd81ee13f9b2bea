use vstd::prelude::*;

verus! {

/// The map that a sequence of distinct-keyed entries stands for.
pub open spec fn entries_map(es: Seq<(String, String)>) -> Map<Seq<char>, Seq<char>>
    decreases es.len(),
{
    if es.len() == 0 {
        Map::empty()
    } else {
        entries_map(es.drop_last()).insert(es.last().0@, es.last().1@)
    }
}

/// No two entries share a key.
pub open spec fn keys_distinct(es: Seq<(String, String)>) -> bool {
    forall|i: int, j: int| 0 <= i < j < es.len() ==> es[i].0@ != es[j].0@
}

proof fn lemma_entries_map_lookup(es: Seq<(String, String)>)
    requires
        keys_distinct(es),
    ensures
        forall|i: int| 0 <= i < es.len() ==> #[trigger] entries_map(es).contains_key(es[i].0@)
            && entries_map(es)[es[i].0@] == es[i].1@,
        forall|k: Seq<char>| #[trigger] entries_map(es).contains_key(k)
            ==> exists|i: int| 0 <= i < es.len() && es[i].0@ == k,
    decreases es.len(),
{
    if es.len() > 0 {
        let init = es.drop_last();
        lemma_entries_map_lookup(init);
        assert forall|i: int| 0 <= i < es.len() implies #[trigger] entries_map(es).contains_key(
            es[i].0@,
        ) && entries_map(es)[es[i].0@] == es[i].1@ by {
            assert(entries_map(es) == entries_map(init).insert(es.last().0@, es.last().1@));
            if i < es.len() - 1 {
                assert(es[i] == init[i]);
                assert(entries_map(init).contains_key(init[i].0@));
                assert(es[i].0@ != es[es.len() - 1].0@);
            }
        }
        assert forall|k: Seq<char>| #[trigger] entries_map(es).contains_key(k)
            implies exists|i: int| 0 <= i < es.len() && es[i].0@ == k by {
            if k != es.last().0@ {
                assert(entries_map(init).contains_key(k));
                let i = choose|i: int| 0 <= i < init.len() && init[i].0@ == k;
                assert(es[i] == init[i]);
            } else {
                assert(es[es.len() - 1].0@ == k);
            }
        }
    }
}

proof fn lemma_entries_map_update(es: Seq<(String, String)>, i: int, e: (String, String))
    requires
        keys_distinct(es),
        0 <= i < es.len(),
        es[i].0@ == e.0@,
    ensures
        keys_distinct(es.update(i, e)),
        entries_map(es.update(i, e)) == entries_map(es).insert(e.0@, e.1@),
    decreases es.len(),
{
    let es2 = es.update(i, e);
    let init = es.drop_last();
    if i == es.len() - 1 {
        assert(es2.drop_last() =~= init);
        assert(entries_map(es2) =~= entries_map(es).insert(e.0@, e.1@));
    } else {
        lemma_entries_map_update(init, i, e);
        assert(es2.drop_last() =~= init.update(i, e));
        assert(es.last().0@ != e.0@);
        assert(entries_map(es2) =~= entries_map(es).insert(e.0@, e.1@));
    }
}

/// Tag names mapped to their text values; each name occurs once, and the
/// entries keep the order in which their names were first seen.
#[derive(Clone, Debug)]
pub struct TagMap {
    entries: Vec<(String, String)>,
}

impl View for TagMap {
    type V = Map<Seq<char>, Seq<char>>;

    closed spec fn view(&self) -> Map<Seq<char>, Seq<char>> {
        entries_map(self.entries@)
    }
}

impl TagMap {
    /// The entries in the order in which their names were first seen.
    pub closed spec fn entries_spec(&self) -> Seq<(String, String)> {
        self.entries@
    }

    pub closed spec fn wf(&self) -> bool {
        keys_distinct(self.entries@)
    }

    pub fn new() -> (m: TagMap)
        ensures
            m.wf(),
            m@ == Map::<Seq<char>, Seq<char>>::empty(),
            m.entries_spec().len() == 0,
    {
        TagMap { entries: Vec::new() }
    }

    /// Sets `name` to `value`, replacing an earlier value of the same name.
    pub fn insert(&mut self, name: String, value: String)
        requires
            old(self).wf(),
        ensures
            final(self).wf(),
            final(self)@ == old(self)@.insert(name@, value@),
    {
        let ghost es = self.entries@;
        proof {
            lemma_entries_map_lookup(es);
        }
        let mut i: usize = 0;
        while i < self.entries.len()
            invariant
                self.entries@ == es,
                es == old(self).entries@,
                keys_distinct(es),
                0 <= i <= es.len(),
                forall|j: int| 0 <= j < i ==> es[j].0@ != name@,
            decreases es.len() - i,
        {
            if self.entries[i].0 == name {
                let ghost e = (name, value);
                proof {
                    lemma_entries_map_update(es, i as int, e);
                }
                self.entries.set(i, (name, value));
                return;
            }
            i = i + 1;
        }
        self.entries.push((name, value));
        assert(self.entries@.drop_last() =~= es);
    }

    /// The value of `name`, if it has one.
    pub fn get(&self, name: &str) -> (r: Option<&String>)
        requires
            self.wf(),
        ensures
            r matches Some(v) ==> self@.contains_key(name@) && self@[name@] == v@,
            r is None ==> !self@.contains_key(name@),
    {
        proof {
            lemma_entries_map_lookup(self.entries@);
        }
        let key = name.to_owned();
        let mut i: usize = 0;
        while i < self.entries.len()
            invariant
                key@ == name@,
                keys_distinct(self.entries@),
                0 <= i <= self.entries@.len(),
                forall|j: int| 0 <= j < i ==> self.entries@[j].0@ != name@,
            decreases self.entries@.len() - i,
        {
            if self.entries[i].0 == key {
                proof {
                    lemma_entries_map_lookup(self.entries@);
                }
                return Some(&self.entries[i].1);
            }
            i = i + 1;
        }
        None
    }

    /// The number of distinct tag names.
    pub fn len(&self) -> (n: usize)
        requires
            self.wf(),
        ensures
            n == self@.dom().len(),
    {
        proof {
            lemma_entries_map_len(self.entries@);
        }
        self.entries.len()
    }

    /// The entries, each name once, in the order their names were first seen.
    pub fn entries(&self) -> (r: &Vec<(String, String)>)
        requires
            self.wf(),
        ensures
            r@ == self.entries_spec(),
            keys_distinct(r@),
            entries_map(r@) == self@,
    {
        &self.entries
    }
}

proof fn lemma_entries_map_len(es: Seq<(String, String)>)
    requires
        keys_distinct(es),
    ensures
        entries_map(es).dom().finite(),
        entries_map(es).dom().len() == es.len(),
    decreases es.len(),
{
    if es.len() > 0 {
        let init = es.drop_last();
        lemma_entries_map_len(init);
        lemma_entries_map_lookup(init);
        if entries_map(init).contains_key(es.last().0@) {
            let i = choose|i: int| 0 <= i < init.len() && init[i].0@ == es.last().0@;
            assert(es[i].0@ == es[es.len() - 1].0@);
        }
    }
}

} // verus!
