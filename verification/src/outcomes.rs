//! The outcome recorded for each component, keyed by component id.
use vstd::prelude::*;
use crate::registry::{ComponentOutcome, OutcomeView};
use crate::text::str_eq;

verus! {

/// The map that `entries` stands for: each id to its outcome, a later entry
/// winning over an earlier one with the same id.
pub open spec fn entries_map(es: Seq<(String, ComponentOutcome)>) -> Map<Seq<char>, OutcomeView>
    decreases es.len(),
{
    if es.len() == 0 {
        Map::empty()
    } else {
        entries_map(es.drop_last()).insert(es.last().0@, es.last().1@)
    }
}

pub open spec fn unique_keys(es: Seq<(String, ComponentOutcome)>) -> bool {
    forall|i: int, j: int| 0 <= i < es.len() && 0 <= j < es.len() && i != j ==> #[trigger] es[i].0@ != #[trigger] es[j].0@
}

proof fn lemma_dom(es: Seq<(String, ComponentOutcome)>, k: Seq<char>)
    ensures
        entries_map(es).dom().contains(k) <==> exists|i: int| 0 <= i < es.len() && #[trigger] es[i].0@ == k,
    decreases es.len(),
{
    if es.len() > 0 {
        lemma_dom(es.drop_last(), k);
        if entries_map(es).dom().contains(k) && k != es.last().0@ {
            let i = choose|i: int| 0 <= i < es.drop_last().len() && #[trigger] es.drop_last()[i].0@ == k;
            assert(es[i].0@ == k);
        }
        if exists|i: int| 0 <= i < es.len() && #[trigger] es[i].0@ == k {
            let i = choose|i: int| 0 <= i < es.len() && #[trigger] es[i].0@ == k;
            if i < es.len() - 1 {
                assert(es.drop_last()[i].0@ == k);
            }
        }
    }
}

proof fn lemma_at(es: Seq<(String, ComponentOutcome)>, i: int)
    requires
        unique_keys(es),
        0 <= i < es.len(),
    ensures
        entries_map(es).dom().contains(es[i].0@),
        entries_map(es)[es[i].0@] == es[i].1@,
    decreases es.len(),
{
    if i < es.len() - 1 {
        let d = es.drop_last();
        assert(d[i] == es[i]);
        assert(unique_keys(d)) by {
            assert forall|a: int, b: int| 0 <= a < d.len() && 0 <= b < d.len() && a != b implies #[trigger] d[a].0@ != #[trigger] d[b].0@ by {
                assert(d[a] == es[a] && d[b] == es[b]);
            }
        }
        lemma_at(d, i);
        assert(es.last().0@ != es[i].0@);
    }
}

proof fn lemma_update(es: Seq<(String, ComponentOutcome)>, i: int, e: (String, ComponentOutcome))
    requires
        unique_keys(es),
        0 <= i < es.len(),
        e.0@ == es[i].0@,
    ensures
        entries_map(es.update(i, e)) == entries_map(es).insert(e.0@, e.1@),
    decreases es.len(),
{
    let u = es.update(i, e);
    let d = es.drop_last();
    if i == es.len() - 1 {
        assert(u.drop_last() =~= d);
        assert(entries_map(u) =~= entries_map(es).insert(e.0@, e.1@));
    } else {
        assert(u.drop_last() =~= d.update(i, e));
        assert(unique_keys(d)) by {
            assert forall|a: int, b: int| 0 <= a < d.len() && 0 <= b < d.len() && a != b implies #[trigger] d[a].0@ != #[trigger] d[b].0@ by {
                assert(d[a] == es[a] && d[b] == es[b]);
            }
        }
        lemma_update(d, i, e);
        assert(es.last().0@ != es[i].0@);
        assert(entries_map(u) =~= entries_map(es).insert(e.0@, e.1@));
    }
}

/// The outcome of each component, by id.
pub struct Outcomes {
    entries: Vec<(String, ComponentOutcome)>,
}

impl View for Outcomes {
    type V = Map<Seq<char>, OutcomeView>;

    closed spec fn view(&self) -> Map<Seq<char>, OutcomeView> {
        entries_map(self.entries@)
    }
}

impl Outcomes {
    #[verifier::type_invariant]
    closed spec fn wf(self) -> bool {
        unique_keys(self.entries@)
    }

    pub fn new() -> (o: Self)
        ensures
            o@ == Map::<Seq<char>, OutcomeView>::empty(),
    {
        Outcomes { entries: Vec::new() }
    }

    fn find(&self, id: &str) -> (r: Option<usize>)
        ensures
            r matches Some(i) ==> i < self.entries@.len() && self.entries@[i as int].0@ == id@,
            r is None ==> forall|i: int| 0 <= i < self.entries@.len() ==> #[trigger] self.entries@[i].0@ != id@,
    {
        let mut i: usize = 0;
        while i < self.entries.len()
            invariant
                i <= self.entries@.len(),
                forall|k: int| 0 <= k < i ==> #[trigger] self.entries@[k].0@ != id@,
            decreases self.entries.len() - i,
        {
            if str_eq(self.entries[i].0.as_str(), id) {
                return Some(i);
            }
            i = i + 1;
        }
        None
    }

    /// The outcome recorded for `id`.
    pub fn get(&self, id: &str) -> (r: Option<&ComponentOutcome>)
        ensures
            r is Some <==> self@.dom().contains(id@),
            r matches Some(o) ==> o@ == self@[id@],
    {
        proof {
            use_type_invariant(self);
            lemma_dom(self.entries@, id@);
        }
        match self.find(id) {
            Some(i) => {
                proof {
                    lemma_at(self.entries@, i as int);
                }
                Some(&self.entries[i].1)
            },
            None => None,
        }
    }

    /// Records `outcome` for `id`, in place of any earlier one.
    pub fn set(&mut self, id: &str, outcome: ComponentOutcome)
        ensures
            final(self)@ == old(self)@.insert(id@, outcome@),
    {
        proof {
            use_type_invariant(&*self);
        }
        let ghost es = self.entries@;
        let key = String::from_str(id);
        match self.find(id) {
            Some(i) => {
                let ghost e = (key, outcome);
                proof {
                    lemma_update(es, i as int, e);
                }
                let mut entries: Vec<(String, ComponentOutcome)> = Vec::new();
                std::mem::swap(&mut entries, &mut self.entries);
                entries.set(i, (key, outcome));
                assert(entries@ =~= es.update(i as int, e));
                self.entries = entries;
            },
            None => {
                let ghost e = (key, outcome);
                let mut entries: Vec<(String, ComponentOutcome)> = Vec::new();
                std::mem::swap(&mut entries, &mut self.entries);
                entries.push((key, outcome));
                assert(entries@ =~= es.push(e));
                assert(entries@.drop_last() =~= es);
                assert(unique_keys(entries@)) by {
                    assert forall|a: int, b: int| 0 <= a < entries@.len() && 0 <= b < entries@.len() && a != b implies #[trigger] entries@[a].0@ != #[trigger] entries@[b].0@ by {
                        if a < es.len() && b < es.len() {
                            assert(entries@[a] == es[a] && entries@[b] == es[b]);
                        } else if a < es.len() {
                            assert(entries@[a] == es[a]);
                        } else {
                            assert(entries@[b] == es[b]);
                        }
                    }
                }
                self.entries = entries;
            },
        }
    }

    /// A copy with the same view.
    pub fn duplicate(&self) -> (r: Outcomes)
        ensures
            r@ == self@,
    {
        proof {
            use_type_invariant(self);
        }
        let mut entries: Vec<(String, ComponentOutcome)> = Vec::new();
        let mut i: usize = 0;
        while i < self.entries.len()
            invariant
                i <= self.entries@.len(),
                unique_keys(self.entries@),
                entries@.len() == i,
                forall|k: int| 0 <= k < i ==> (#[trigger] entries@[k]).0@ == self.entries@[k].0@
                    && entries@[k].1@ == self.entries@[k].1@,
            decreases self.entries.len() - i,
        {
            let e = &self.entries[i];
            entries.push((e.0.clone(), e.1.duplicate()));
            i = i + 1;
        }
        proof {
            lemma_same_map(entries@, self.entries@);
        }
        Outcomes { entries }
    }
}

proof fn lemma_same_map(a: Seq<(String, ComponentOutcome)>, b: Seq<(String, ComponentOutcome)>)
    requires
        a.len() == b.len(),
        unique_keys(b),
        forall|k: int| 0 <= k < a.len() ==> (#[trigger] a[k]).0@ == b[k].0@ && a[k].1@ == b[k].1@,
    ensures
        entries_map(a) == entries_map(b),
        unique_keys(a),
    decreases a.len(),
{
    assert(unique_keys(a)) by {
        assert forall|x: int, y: int| 0 <= x < a.len() && 0 <= y < a.len() && x != y implies #[trigger] a[x].0@ != #[trigger] a[y].0@ by {
            assert(a[x].0@ == b[x].0@ && a[y].0@ == b[y].0@);
            assert(b[x].0@ != b[y].0@);
        }
    }
    if a.len() > 0 {
        let da = a.drop_last();
        let db = b.drop_last();
        assert(unique_keys(db)) by {
            assert forall|x: int, y: int| 0 <= x < db.len() && 0 <= y < db.len() && x != y implies #[trigger] db[x].0@ != #[trigger] db[y].0@ by {
                assert(db[x] == b[x] && db[y] == b[y]);
            }
        }
        assert forall|k: int| 0 <= k < da.len() implies (#[trigger] da[k]).0@ == db[k].0@ && da[k].1@ == db[k].1@ by {
            assert(da[k] == a[k] && db[k] == b[k]);
        }
        lemma_same_map(da, db);
        assert(a.last().0@ == b.last().0@ && a.last().1@ == b.last().1@);
    }
}

} // verus!
