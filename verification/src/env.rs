//! Environments: finite maps from variable names to values, and sets of
//! variable names. Both are kept sorted by name, so that walking one yields
//! its names in lexicographic order.

use crate::text::{
    lemma_lex_lt_irreflexive, lemma_lex_lt_total, lemma_lex_lt_transitive, lex_lt, pair_texts,
    text_eq, text_less,
};
use vstd::prelude::*;

verus! {

/// An environment as a map from the names of its variables to their values.
pub type EnvMap = Map<Seq<char>, Seq<char>>;

/// One variable of an environment.
#[derive(Debug)]
pub struct Binding {
    pub name: String,
    pub value: String,
}

/// The names of a sequence of bindings.
pub open spec fn binding_names(b: Seq<Binding>) -> Seq<Seq<char>> {
    b.map_values(|x: Binding| x.name@)
}

/// Each name comes before the next one.
pub open spec fn strictly_sorted(names: Seq<Seq<char>>) -> bool {
    forall|i: int, j: int| 0 <= i < j < names.len() ==> lex_lt(#[trigger] names[i], #[trigger] names[j])
}

/// In a sorted sequence a name occurs at one position at most.
pub proof fn lemma_sorted_distinct(names: Seq<Seq<char>>, i: int, j: int)
    requires
        strictly_sorted(names),
        0 <= i < names.len(),
        0 <= j < names.len(),
        names[i] == names[j],
    ensures
        i == j,
{
    lemma_lex_lt_irreflexive(names[i]);
}

/// `names` lists the names of `set`, each once, in lexicographic order.
pub open spec fn is_listing(names: Seq<Seq<char>>, set: Set<Seq<char>>) -> bool {
    &&& strictly_sorted(names)
    &&& forall|k: Seq<char>| names.contains(k) <==> set.contains(k)
}

/// The names of a finite set in lexicographic order.
pub open spec fn sorted_listing(set: Set<Seq<char>>) -> Seq<Seq<char>> {
    choose|names: Seq<Seq<char>>| is_listing(names, set)
}

/// A set has one listing at most.
pub proof fn lemma_listing_unique(a: Seq<Seq<char>>, b: Seq<Seq<char>>, set: Set<Seq<char>>)
    requires
        is_listing(a, set),
        is_listing(b, set),
    ensures
        a == b,
    decreases a.len(),
{
    if a.len() == 0 {
        if b.len() > 0 {
            assert(b.contains(b[0]));
            assert(a.contains(b[0]));
        }
        assert(a =~= b);
    } else if b.len() == 0 {
        assert(a.contains(a[0]));
        assert(b.contains(a[0]));
    } else {
        assert(a.contains(a[0]));
        assert(b.contains(b[0]));
        assert(b.contains(a[0]));
        assert(a.contains(b[0]));
        let i = b.index_of(a[0]);
        let j = a.index_of(b[0]);
        if i > 0 {
            assert(lex_lt(b[0], b[i]));
            if j > 0 {
                assert(lex_lt(a[0], a[j]));
                lemma_lex_lt_total(a[0], b[0]);
            } else {
                lemma_lex_lt_irreflexive(a[0]);
            }
        }
        assert(a[0] == b[0]);
        let rest = set.remove(a[0]);
        let ta = a.drop_first();
        let tb = b.drop_first();
        assert forall|k: Seq<char>| ta.contains(k) <==> rest.contains(k) by {
            if ta.contains(k) {
                let n = ta.index_of(k);
                assert(a[n + 1] == k);
                assert(a.contains(k));
                assert(lex_lt(a[0], a[n + 1]));
                lemma_lex_lt_irreflexive(a[0]);
            }
            if rest.contains(k) {
                assert(a.contains(k));
                let n = a.index_of(k);
                assert(n > 0);
                assert(ta[n - 1] == k);
            }
        }
        assert forall|k: Seq<char>| tb.contains(k) <==> rest.contains(k) by {
            if tb.contains(k) {
                let n = tb.index_of(k);
                assert(b[n + 1] == k);
                assert(b.contains(k));
                assert(lex_lt(b[0], b[n + 1]));
                lemma_lex_lt_irreflexive(b[0]);
            }
            if rest.contains(k) {
                assert(b.contains(k));
                let n = b.index_of(k);
                assert(n > 0);
                assert(tb[n - 1] == k);
            }
        }
        assert forall|x: int, y: int| 0 <= x < y < ta.len() implies lex_lt(ta[x], ta[y]) by {
            assert(ta[x] == a[x + 1] && ta[y] == a[y + 1]);
        }
        assert forall|x: int, y: int| 0 <= x < y < tb.len() implies lex_lt(tb[x], tb[y]) by {
            assert(tb[x] == b[x + 1] && tb[y] == b[y + 1]);
        }
        lemma_listing_unique(ta, tb, rest);
        assert(a =~= seq![a[0]] + ta);
        assert(b =~= seq![b[0]] + tb);
    }
}

/// A listing of a set is its sorted listing.
pub proof fn lemma_sorted_listing_is(names: Seq<Seq<char>>, set: Set<Seq<char>>)
    requires
        is_listing(names, set),
    ensures
        sorted_listing(set) == names,
{
    lemma_listing_unique(sorted_listing(set), names, set);
}

/// `chosen` holds, in their order, those of the first `i` names of the
/// sorted `listing` that are in `keep`.
pub open spec fn selects(
    chosen: Seq<Seq<char>>,
    listing: Seq<Seq<char>>,
    i: int,
    keep: Set<Seq<char>>,
) -> bool {
    &&& strictly_sorted(chosen)
    &&& forall|k: int, j: int|
        0 <= k < chosen.len() && i <= j < listing.len() ==> lex_lt(
            #[trigger] chosen[k],
            #[trigger] listing[j],
        )
    &&& forall|n: Seq<char>| chosen.contains(n) <==> listing.take(i).contains(n) && keep.contains(n)
}

/// Nothing is chosen of no names.
pub proof fn lemma_selects_none(listing: Seq<Seq<char>>, keep: Set<Seq<char>>)
    ensures
        selects(Seq::empty(), listing, 0, keep),
{
    assert(listing.take(0) =~= Seq::<Seq<char>>::empty());
}

/// The choice goes on to the next name of the listing: the name joins the
/// chosen ones where it is in `keep`.
pub proof fn lemma_selects_next(
    chosen: Seq<Seq<char>>,
    listing: Seq<Seq<char>>,
    i: int,
    keep: Set<Seq<char>>,
)
    requires
        strictly_sorted(listing),
        0 <= i < listing.len(),
        selects(chosen, listing, i, keep),
    ensures
        keep.contains(listing[i]) ==> selects(chosen.push(listing[i]), listing, i + 1, keep),
        !keep.contains(listing[i]) ==> selects(chosen, listing, i + 1, keep),
{
    let name = listing[i];
    let before = listing.take(i);
    let after = listing.take(i + 1);
    assert(after =~= before.push(name));
    assert forall|n: Seq<char>| after.contains(n) <==> before.contains(n) || n == name by {
        if before.contains(n) {
            let x = before.index_of(n);
            assert(after[x] == n);
        }
        if n == name {
            assert(after[i] == n);
        }
        if after.contains(n) {
            let x = after.index_of(n);
            if x < i {
                assert(before[x] == n);
            }
        }
    }
    if keep.contains(name) {
        let more = chosen.push(name);
        assert forall|x: int, y: int| 0 <= x < y < more.len() implies lex_lt(more[x], more[y]) by {
            if y == chosen.len() {
                assert(lex_lt(chosen[x], listing[i]));
            } else {
                assert(more[x] == chosen[x] && more[y] == chosen[y]);
            }
        }
        assert forall|k: int, j: int| 0 <= k < more.len() && i + 1 <= j < listing.len() implies lex_lt(
            #[trigger] more[k],
            #[trigger] listing[j],
        ) by {
            if k == chosen.len() {
                assert(lex_lt(listing[i], listing[j]));
            } else {
                assert(more[k] == chosen[k]);
            }
        }
        assert forall|n: Seq<char>| more.contains(n) <==> after.contains(n) && keep.contains(n) by {
            if chosen.contains(n) {
                let x = chosen.index_of(n);
                assert(more[x] == n);
            }
            if n == name {
                assert(more[chosen.len() as int] == n);
            }
            if more.contains(n) {
                let x = more.index_of(n);
                if x < chosen.len() {
                    assert(chosen[x] == n);
                }
            }
        }
    }
}

/// Once the choice has gone through a listing that holds all of `keep`,
/// the chosen names are the sorted listing of `keep`.
pub proof fn lemma_selects_all(chosen: Seq<Seq<char>>, listing: Seq<Seq<char>>, keep: Set<Seq<char>>)
    requires
        selects(chosen, listing, listing.len() as int, keep),
        forall|n: Seq<char>| keep.contains(n) ==> listing.contains(n),
    ensures
        is_listing(chosen, keep),
        sorted_listing(keep) == chosen,
{
    assert(listing.take(listing.len() as int) =~= listing);
    lemma_sorted_listing_is(chosen, keep);
}

/// An environment: a finite map from names to values.
#[derive(Debug)]
pub struct Env {
    bindings: Vec<Binding>,
}

impl Env {
    /// The names are sorted and therefore distinct.
    pub closed spec fn wf(&self) -> bool {
        strictly_sorted(binding_names(self.bindings@))
    }

    /// The names of the environment, in lexicographic order.
    pub closed spec fn keys(&self) -> Seq<Seq<char>> {
        binding_names(self.bindings@)
    }

    /// The environment as a map from names to values.
    pub closed spec fn view(&self) -> EnvMap {
        Map::new(
            |k: Seq<char>| binding_names(self.bindings@).contains(k),
            |k: Seq<char>| self.bindings@[binding_names(self.bindings@).index_of(k)].value@,
        )
    }

    /// The keys are sorted, and they are the names that the map holds.
    pub proof fn lemma_keys(&self)
        requires
            self.wf(),
        ensures
            strictly_sorted(self.keys()),
            forall|k: Seq<char>| self@.contains_key(k) <==> self.keys().contains(k),
    {
    }

    /// The binding at a position is what the map holds for its name.
    proof fn lemma_at(&self, i: int)
        requires
            self.wf(),
            0 <= i < self.bindings@.len(),
        ensures
            self@.contains_key(self.bindings@[i].name@),
            self@[self.bindings@[i].name@] == self.bindings@[i].value@,
    {
        let names = binding_names(self.bindings@);
        let k = self.bindings@[i].name@;
        assert(names[i] == k);
        let j = names.index_of(k);
        lemma_sorted_distinct(names, i, j);
    }

    /// The empty environment.
    pub fn new() -> (env: Env)
        ensures
            env.wf(),
            env@ == Map::<Seq<char>, Seq<char>>::empty(),
    {
        let env = Env { bindings: Vec::new() };
        assert(env@ =~= Map::<Seq<char>, Seq<char>>::empty());
        env
    }

    /// The number of variables.
    pub fn len(&self) -> (n: usize)
        requires
            self.wf(),
        ensures
            n == self.keys().len(),
    {
        self.bindings.len()
    }

    /// The name at position `i` of the sorted names.
    pub fn name_at(&self, i: usize) -> (name: &String)
        requires
            self.wf(),
            i < self.keys().len(),
        ensures
            name@ == self.keys()[i as int],
            self@.contains_key(name@),
    {
        proof {
            self.lemma_at(i as int);
        }
        &self.bindings[i].name
    }

    /// The value of the name at position `i` of the sorted names.
    pub fn value_at(&self, i: usize) -> (value: &String)
        requires
            self.wf(),
            i < self.keys().len(),
        ensures
            self@.contains_key(self.keys()[i as int]),
            value@ == self@[self.keys()[i as int]],
    {
        proof {
            self.lemma_at(i as int);
        }
        &self.bindings[i].value
    }

    /// The position of `name` among the sorted names, where it is one of
    /// them, and otherwise the position at which it would stand.
    fn find(&self, name: &str) -> (r: (usize, bool))
        requires
            self.wf(),
        ensures
            r.0 <= self.bindings@.len(),
            forall|i: int| 0 <= i < r.0 ==> lex_lt(#[trigger] self.bindings@[i].name@, name@),
            r.1 ==> r.0 < self.bindings@.len() && self.bindings@[r.0 as int].name@ == name@,
            !r.1 ==> (r.0 == self.bindings@.len() || lex_lt(name@, self.bindings@[r.0 as int].name@)),
            r.1 == self@.contains_key(name@),
    {
        let ghost names = binding_names(self.bindings@);
        let mut i: usize = 0;
        while i < self.bindings.len()
            invariant
                i <= self.bindings.len(),
                self.wf(),
                names == binding_names(self.bindings@),
                forall|k: int| 0 <= k < i ==> lex_lt(#[trigger] self.bindings@[k].name@, name@),
            decreases self.bindings.len() - i,
        {
            let here = self.bindings[i].name.as_str();
            if text_eq(here, name) {
                proof {
                    assert(names[i as int] == name@);
                }
                return (i, true);
            }
            if text_less(name, here) {
                proof {
                    if names.contains(name@) {
                        let j = names.index_of(name@);
                        assert(names[j] == name@);
                        if j < i {
                            assert(lex_lt(self.bindings@[j].name@, name@));
                            lemma_lex_lt_irreflexive(name@);
                        } else if j > i {
                            assert(lex_lt(names[i as int], names[j]));
                            lemma_lex_lt_total(name@, names[i as int]);
                        }
                    }
                }
                return (i, false);
            }
            proof {
                lemma_lex_lt_total(name@, here@);
            }
            i = i + 1;
        }
        proof {
            if names.contains(name@) {
                let j = names.index_of(name@);
                assert(lex_lt(self.bindings@[j].name@, name@));
                lemma_lex_lt_irreflexive(name@);
            }
        }
        (i, false)
    }

    /// Whether the environment holds `name`.
    pub fn contains(&self, name: &str) -> (r: bool)
        requires
            self.wf(),
        ensures
            r == self@.contains_key(name@),
    {
        let (_, found) = self.find(name);
        found
    }

    /// The value of `name`, where the environment holds it.
    pub fn get(&self, name: &str) -> (r: Option<String>)
        requires
            self.wf(),
        ensures
            match r {
                Some(v) => self@.contains_key(name@) && self@[name@] == v@,
                None => !self@.contains_key(name@),
            },
    {
        let (pos, found) = self.find(name);
        if found {
            proof {
                self.lemma_at(pos as int);
            }
            Some(self.bindings[pos].value.clone())
        } else {
            None
        }
    }

    /// Gives `name` the value `value`, whatever it had before.
    pub fn insert(&mut self, name: &str, value: &str)
        requires
            old(self).wf(),
        ensures
            final(self).wf(),
            final(self)@ == old(self)@.insert(name@, value@),
    {
        let (pos, found) = self.find(name);
        let ghost before = *self;
        let binding = Binding { name: String::from_str(name), value: String::from_str(value) };
        if found {
            self.bindings.set(pos, binding);
            proof {
                assert(binding_names(self.bindings@) =~= binding_names(before.bindings@));
            }
        } else {
            self.bindings.insert(pos, binding);
            proof {
                let a = binding_names(before.bindings@);
                let b = binding_names(self.bindings@);
                assert(b =~= a.insert(pos as int, name@));
                assert forall|i: int, j: int| 0 <= i < j < b.len() implies lex_lt(b[i], b[j]) by {
                    if j < pos {
                        assert(b[i] == a[i] && b[j] == a[j]);
                    } else if j == pos {
                        assert(b[i] == before.bindings@[i].name@);
                    } else if i < pos {
                        assert(b[i] == a[i] && b[j] == a[j - 1]);
                    } else if i == pos {
                        assert(b[j] == a[j - 1]);
                        if j - 1 > pos {
                            assert(lex_lt(a[pos as int], a[j - 1]));
                            lemma_lex_lt_transitive(name@, a[pos as int], a[j - 1]);
                        }
                    } else {
                        assert(b[i] == a[i - 1] && b[j] == a[j - 1]);
                    }
                }
            }
        }
        proof {
            let want = before@.insert(name@, value@);
            assert forall|k: Seq<char>| self@.contains_key(k) <==> want.contains_key(k) by {
                let a = binding_names(before.bindings@);
                let b = binding_names(self.bindings@);
                if a.contains(k) {
                    let j = a.index_of(k);
                    if found {
                        assert(b[j] == k);
                    } else if j < pos {
                        assert(b[j] == k);
                    } else {
                        assert(b[j + 1] == k);
                    }
                }
                if k == name@ {
                    assert(b[pos as int] == k);
                }
                if b.contains(k) && k != name@ {
                    let j = b.index_of(k);
                    if found {
                        assert(a[j] == k);
                    } else if j < pos {
                        assert(a[j] == k);
                    } else {
                        assert(a[j - 1] == k);
                    }
                }
            }
            assert forall|k: Seq<char>| self@.contains_key(k) implies self@[k] == want[k] by {
                let b = binding_names(self.bindings@);
                let j = b.index_of(k);
                assert(b[j] == k);
                self.lemma_at(j);
                assert(b[pos as int] == name@);
                if k == name@ {
                    lemma_sorted_distinct(b, j, pos as int);
                } else if found {
                    before.lemma_at(j);
                } else if j < pos {
                    before.lemma_at(j);
                } else {
                    before.lemma_at(j - 1);
                }
            }
            assert(self@ =~= want);
        }
    }

    /// Takes `name` out of the environment, where it holds it.
    pub fn remove(&mut self, name: &str)
        requires
            old(self).wf(),
        ensures
            final(self).wf(),
            final(self)@ == old(self)@.remove(name@),
    {
        let (pos, found) = self.find(name);
        let ghost before = *self;
        if found {
            self.bindings.remove(pos);
            proof {
                let a = binding_names(before.bindings@);
                let b = binding_names(self.bindings@);
                assert(b =~= a.remove(pos as int));
                assert forall|i: int, j: int| 0 <= i < j < b.len() implies lex_lt(b[i], b[j]) by {
                    let i0 = if i < pos { i } else { i + 1 };
                    let j0 = if j < pos { j } else { j + 1 };
                    assert(b[i] == a[i0] && b[j] == a[j0]);
                }
                let want = before@.remove(name@);
                assert forall|k: Seq<char>| self@.contains_key(k) <==> want.contains_key(k) by {
                    if a.contains(k) && k != name@ {
                        let j = a.index_of(k);
                        if j < pos {
                            assert(b[j] == k);
                        } else {
                            assert(j != pos);
                            assert(b[j - 1] == k);
                        }
                    }
                    if b.contains(k) {
                        let j = b.index_of(k);
                        let j0 = if j < pos { j } else { j + 1 };
                        assert(a[j0] == k);
                        if k == name@ {
                            lemma_sorted_distinct(a, j0, pos as int);
                        }
                    }
                }
                assert forall|k: Seq<char>| self@.contains_key(k) implies self@[k] == want[k] by {
                    let j = b.index_of(k);
                    assert(b[j] == k);
                    self.lemma_at(j);
                    let j0 = if j < pos { j } else { j + 1 };
                    assert(a[j0] == k);
                    if k == name@ {
                        lemma_sorted_distinct(a, j0, pos as int);
                    }
                    before.lemma_at(j0);
                }
                assert(self@ =~= want);
            }
        } else {
            proof {
                assert(before@.remove(name@) =~= before@);
            }
        }
    }

    /// Gives `name` the value `value`, or takes it out where `value` is `None`.
    pub fn set(&mut self, name: &str, value: Option<&str>)
        requires
            old(self).wf(),
        ensures
            final(self).wf(),
            final(self)@ == match value {
                Some(v) => old(self)@.insert(name@, v@),
                None => old(self)@.remove(name@),
            },
    {
        match value {
            Some(v) => self.insert(name, v),
            None => self.remove(name),
        }
    }

    /// A copy of the environment.
    pub fn duplicate(&self) -> (copy: Env)
        requires
            self.wf(),
        ensures
            copy.wf(),
            copy@ == self@,
            copy.keys() == self.keys(),
    {
        let mut out: Vec<Binding> = Vec::new();
        let mut i: usize = 0;
        while i < self.bindings.len()
            invariant
                i <= self.bindings.len(),
                out@.len() == i,
                forall|k: int| 0 <= k < i ==> out@[k].name@ == self.bindings@[k].name@ && out@[k].value@
                    == self.bindings@[k].value@,
            decreases self.bindings.len() - i,
        {
            let b = &self.bindings[i];
            out.push(Binding { name: b.name.clone(), value: b.value.clone() });
            i = i + 1;
        }
        let copy = Env { bindings: out };
        proof {
            assert(binding_names(copy.bindings@) =~= binding_names(self.bindings@));
            assert forall|k: Seq<char>| copy@.contains_key(k) implies copy@[k] == self@[k] by {
                let j = binding_names(copy.bindings@).index_of(k);
                assert(binding_names(copy.bindings@)[j] == k);
                copy.lemma_at(j);
                self.lemma_at(j);
            }
            assert(copy@ =~= self@);
        }
        copy
    }
}

/// The map that a list of pairs describes. Where a name occurs more than
/// once, its last value stands.
pub open spec fn pairs_map(pairs: Seq<(Seq<char>, Seq<char>)>) -> EnvMap
    decreases pairs.len(),
{
    if pairs.len() == 0 {
        Map::empty()
    } else {
        pairs_map(pairs.drop_last()).insert(pairs.last().0, pairs.last().1)
    }
}

impl Env {
    /// The environment that a list of pairs describes.
    pub fn from_pairs(pairs: Vec<(String, String)>) -> (env: Env)
        ensures
            env.wf(),
            env@ == pairs_map(pair_texts(pairs@)),
    {
        let mut env = Env::new();
        let ghost all = pair_texts(pairs@);
        let mut i: usize = 0;
        assert(all.take(0) =~= Seq::<(Seq<char>, Seq<char>)>::empty());
        while i < pairs.len()
            invariant
                i <= pairs.len(),
                all == pair_texts(pairs@),
                env.wf(),
                env@ == pairs_map(all.take(i as int)),
            decreases pairs.len() - i,
        {
            let pair = &pairs[i];
            env.insert(pair.0.as_str(), pair.1.as_str());
            proof {
                assert(all.take(i + 1).drop_last() =~= all.take(i as int));
                assert(all.take(i + 1).last() == (pair.0@, pair.1@));
            }
            i = i + 1;
        }
        assert(all.take(pairs.len() as int) =~= all);
        env
    }
}

/// The names of both environments.
pub fn names_of_both(a: &Env, b: &Env) -> (set: NameSet)
    requires
        a.wf(),
        b.wf(),
    ensures
        set.wf(),
        set@ == a@.dom().union(b@.dom()),
{
    let mut set = NameSet::new();
    let mut i: usize = 0;
    assert(a.keys().take(0).to_set() =~= Set::<Seq<char>>::empty());
    while i < a.len()
        invariant
            a.wf(),
            set.wf(),
            i <= a.keys().len(),
            set@ == a.keys().take(i as int).to_set(),
        decreases a.keys().len() - i,
    {
        set.insert(a.name_at(i).as_str());
        proof {
            assert(a.keys().take(i + 1) =~= a.keys().take(i as int).push(a.keys()[i as int]));
            crate::text::lemma_to_set_push(a.keys().take(i as int), a.keys()[i as int]);
        }
        i = i + 1;
    }
    let ghost first = set@;
    proof {
        assert(a.keys().take(a.keys().len() as int) =~= a.keys());
        a.lemma_keys();
        assert(first =~= a@.dom());
    }
    let mut j: usize = 0;
    assert(first.union(b.keys().take(0).to_set()) =~= first);
    while j < b.len()
        invariant
            b.wf(),
            set.wf(),
            j <= b.keys().len(),
            set@ == first.union(b.keys().take(j as int).to_set()),
        decreases b.keys().len() - j,
    {
        set.insert(b.name_at(j).as_str());
        proof {
            assert(b.keys().take(j + 1) =~= b.keys().take(j as int).push(b.keys()[j as int]));
            crate::text::lemma_to_set_push(b.keys().take(j as int), b.keys()[j as int]);
            assert(set@ =~= first.union(b.keys().take(j + 1).to_set()));
        }
        j = j + 1;
    }
    proof {
        assert(b.keys().take(b.keys().len() as int) =~= b.keys());
        b.lemma_keys();
        assert(set@ =~= a@.dom().union(b@.dom()));
    }
    set
}

/// A set of names.
#[derive(Debug)]
pub struct NameSet {
    names: Env,
}

impl NameSet {
    /// The names are sorted and therefore distinct.
    pub closed spec fn wf(&self) -> bool {
        self.names.wf()
    }

    /// The names of the set, in lexicographic order.
    pub closed spec fn listing(&self) -> Seq<Seq<char>> {
        self.names.keys()
    }

    /// The set as a set of names.
    pub closed spec fn view(&self) -> Set<Seq<char>> {
        self.names@.dom()
    }

    /// The listing is sorted, and it holds the names of the set.
    pub proof fn lemma_listing(&self)
        requires
            self.wf(),
        ensures
            strictly_sorted(self.listing()),
            forall|k: Seq<char>| self@.contains(k) <==> self.listing().contains(k),
    {
        self.names.lemma_keys();
    }

    /// The empty set.
    pub fn new() -> (set: NameSet)
        ensures
            set.wf(),
            set@ == Set::<Seq<char>>::empty(),
    {
        let set = NameSet { names: Env::new() };
        assert(set@ =~= Set::<Seq<char>>::empty());
        set
    }

    /// Puts `name` into the set.
    pub fn insert(&mut self, name: &str)
        requires
            old(self).wf(),
        ensures
            final(self).wf(),
            final(self)@ == old(self)@.insert(name@),
    {
        self.names.insert(name, "");
        assert(self@ =~= old(self)@.insert(name@));
    }

    /// Whether the set holds `name`.
    pub fn contains(&self, name: &str) -> (r: bool)
        requires
            self.wf(),
        ensures
            r == self@.contains(name@),
    {
        self.names.contains(name)
    }

    /// The number of names.
    pub fn len(&self) -> (n: usize)
        requires
            self.wf(),
        ensures
            n == self.listing().len(),
    {
        self.names.len()
    }

    /// The name at position `i` of the listing.
    pub fn name_at(&self, i: usize) -> (name: &String)
        requires
            self.wf(),
            i < self.listing().len(),
        ensures
            name@ == self.listing()[i as int],
            self@.contains(name@),
    {
        self.names.name_at(i)
    }

    /// The names as strings, in lexicographic order.
    pub fn to_vec(&self) -> (out: Vec<String>)
        requires
            self.wf(),
        ensures
            crate::text::string_texts(out@) == self.listing(),
    {
        let mut out: Vec<String> = Vec::new();
        let mut i: usize = 0;
        while i < self.names.len()
            invariant
                self.wf(),
                i <= self.listing().len(),
                out@.len() == i,
                forall|k: int| 0 <= k < i ==> out@[k]@ == self.listing()[k],
            decreases self.listing().len() - i,
        {
            out.push(self.names.name_at(i).clone());
            i = i + 1;
        }
        assert(crate::text::string_texts(out@) =~= self.listing());
        out
    }

    /// A copy of the set.
    pub fn duplicate(&self) -> (copy: NameSet)
        requires
            self.wf(),
        ensures
            copy.wf(),
            copy@ == self@,
            copy.listing() == self.listing(),
    {
        NameSet { names: self.names.duplicate() }
    }
}

} // verus!
