//! The overlay: the environment as the programs leave it, beside the outer
//! environment that the undo record gives back, and what is needed to tell
//! the shell how to get from the one it has to the one it should have.

use crate::digits::{hex16, hex_text};
use crate::env::{
    is_listing, lemma_selects_all, lemma_selects_next, lemma_selects_none, names_of_both, selects,
    sorted_listing, strictly_sorted, Env, EnvMap, NameSet,
};
use crate::features::{optional_text, Feature, FeatureView};
use crate::pathlist::{
    additions, deletions, diff_vecs, drop_leading, remove_element, remove_first, skip_leading,
};
use crate::text::{
    chars_of, join, join_with, lemma_texts_push, push_text, split, split_on, string_of,
    string_texts, text_eq, texts,
};
use crate::undo::{data_json, Data, DataView, ListView, ScalarView};
use vstd::prelude::*;

verus! {

/// The value of `name` in `env`, where it has one.
pub open spec fn lookup(env: EnvMap, name: Seq<char>) -> Option<Seq<char>> {
    if env.contains_key(name) {
        Some(env[name])
    } else {
        None
    }
}

/// `env` with `name` set to a value, or unset where `value` is `None`.
pub open spec fn assign(env: EnvMap, name: Seq<char>, value: Option<Seq<char>>) -> EnvMap {
    match value {
        Some(v) => env.insert(name, v),
        None => env.remove(name),
    }
}

/// The elements of the list that `name` holds: the pieces of its value
/// between colons, and none where it is unset.
pub open spec fn parts_of(env: EnvMap, name: Seq<char>) -> Seq<Seq<char>> {
    if env.contains_key(name) {
        split_on(env[name], ':')
    } else {
        Seq::empty()
    }
}

/// `env` with `name` holding the given elements; without elements it is unset.
pub open spec fn store_parts(env: EnvMap, name: Seq<char>, parts: Seq<Seq<char>>) -> EnvMap {
    if parts.len() == 0 {
        env.remove(name)
    } else {
        env.insert(name, join_with(parts, ':'))
    }
}

/// `env` with `elem` as the last element of the list that `name` holds.
pub open spec fn appended(env: EnvMap, name: Seq<char>, elem: Seq<char>) -> EnvMap {
    env.insert(name, join_with(parts_of(env, name).push(elem), ':'))
}

/// `env` with `elem` as the first element of the list that `name` holds.
pub open spec fn prepended(env: EnvMap, name: Seq<char>, elem: Seq<char>) -> EnvMap {
    env.insert(name, join_with(seq![elem] + parts_of(env, name), ':'))
}

/// `env` without the first element equal to `elem` in the list that `name`
/// holds; `env` itself where no element equals it.
pub open spec fn removed(env: EnvMap, name: Seq<char>, elem: Seq<char>) -> EnvMap {
    if parts_of(env, name).contains(elem) {
        store_parts(env, name, remove_first(parts_of(env, name), elem))
    } else {
        env
    }
}

/// `env` without the leading elements in which `part` occurs, in the list
/// that `name` holds.
pub open spec fn removed_containing(
    env: EnvMap,
    name: Seq<char>,
    part: Seq<char>,
) -> EnvMap {
    store_parts(env, name, drop_leading(parts_of(env, name), part))
}

/// Sets or unsets a variable.
pub fn env_set(env: &mut Env, a: &str, b: Option<&str>)
    requires
        old(env).wf(),
    ensures
        final(env).wf(),
        final(env)@ == assign(old(env)@, a@, match b {
            Some(v) => Some(v@),
            None => None,
        }),
{
    env.set(a, b);
}

/// The value of a variable.
pub fn env_get(env: &Env, a: &str) -> (r: Option<String>)
    requires
        env.wf(),
    ensures
        optional_text(r) == lookup(env@, a@),
{
    env.get(a)
}

/// The elements of the list that `name` holds.
pub fn env_parts(env: &Env, name: &str) -> (parts: Vec<Vec<char>>)
    requires
        env.wf(),
    ensures
        texts(parts@) == parts_of(env@, name@),
{
    match env.get(name) {
        Some(value) => {
            let chars = chars_of(value.as_str());
            split(&chars, ':')
        },
        None => {
            let parts: Vec<Vec<char>> = Vec::new();
            assert(texts(parts@) =~= Seq::<Seq<char>>::empty());
            parts
        },
    }
}

/// Makes `name` hold the given elements, or unsets it where there are none.
pub fn env_store(env: &mut Env, name: &str, parts: &Vec<Vec<char>>)
    requires
        old(env).wf(),
    ensures
        final(env).wf(),
        final(env)@ == store_parts(old(env)@, name@, texts(parts@)),
{
    if parts.len() == 0 {
        env.remove(name);
    } else {
        let joined = join(parts, ':');
        let value = string_of(&joined);
        env.insert(name, value.as_str());
    }
}

/// Removes the first element equal to `b` from the list that `a` holds.
pub fn env_remove_from_pathlist(env: &mut Env, a: &str, b: &str)
    requires
        old(env).wf(),
    ensures
        final(env).wf(),
        final(env)@ == removed(old(env)@, a@, b@),
{
    let mut items = env_parts(env, a);
    let elem = chars_of(b);
    if remove_element(&mut items, &elem) {
        env_store(env, a, &items);
    }
}

/// Removes the leading elements in which `b` occurs from the list that `a` holds.
pub fn env_remove_from_pathlist_containing(env: &mut Env, a: &str, b: &str)
    requires
        old(env).wf(),
    ensures
        final(env).wf(),
        final(env)@ == removed_containing(old(env)@, a@, b@),
{
    let items = env_parts(env, a);
    let part = chars_of(b);
    let rest = skip_leading(&items, &part);
    env_store(env, a, &rest);
}

/// Puts `b` at the end of the list that `a` holds.
pub fn env_append_to_pathlist(env: &mut Env, a: &str, b: &str)
    requires
        old(env).wf(),
    ensures
        final(env).wf(),
        final(env)@ == appended(old(env)@, a@, b@),
{
    let mut items = env_parts(env, a);
    let ghost before = items@;
    let elem = chars_of(b);
    items.push(elem);
    proof {
        lemma_texts_push(before, elem);
    }
    env_store(env, a, &items);
}

/// Puts `b` at the front of the list that `a` holds.
pub fn env_prepend_to_pathlist(env: &mut Env, a: &str, b: &str)
    requires
        old(env).wf(),
    ensures
        final(env).wf(),
        final(env)@ == prepended(old(env)@, a@, b@),
{
    let mut items = env_parts(env, a);
    let ghost before = items@;
    let elem = chars_of(b);
    items.insert(0, elem);
    proof {
        assert(texts(items@) =~= seq![b@] + texts(before));
    }
    env_store(env, a, &items);
}

/// What one scalar of an undo record does to the environment and to the set
/// of names that must not be written. A scalar marked `no_clobber` only adds
/// its name to the set. Another one gives its name the original value back
/// where the name still has the value that the record left it with; where it
/// has another, the user changed it, and the name joins the set.
pub open spec fn undo_scalar(
    state: (EnvMap, Set<Seq<char>>),
    s: ScalarView,
) -> (EnvMap, Set<Seq<char>>) {
    if s.no_clobber {
        (state.0, state.1.insert(s.name))
    } else if lookup(state.0, s.name) == s.current {
        (assign(state.0, s.name, s.original), state.1)
    } else {
        (state.0, state.1.insert(s.name))
    }
}

/// The scalars of a record undone in their order.
pub open spec fn undo_scalars(
    state: (EnvMap, Set<Seq<char>>),
    scalars: Seq<ScalarView>,
) -> (EnvMap, Set<Seq<char>>)
    decreases scalars.len(),
{
    if scalars.len() == 0 {
        state
    } else {
        undo_scalars(undo_scalar(state, scalars[0]), scalars.drop_first())
    }
}

/// Each addition removed from the list that `name` holds.
pub open spec fn undo_additions(
    env: EnvMap,
    name: Seq<char>,
    additions: Seq<Seq<char>>,
) -> EnvMap
    decreases additions.len(),
{
    if additions.len() == 0 {
        env
    } else {
        undo_additions(removed(env, name, additions[0]), name, additions.drop_first())
    }
}

/// Each deletion put back at the front of the list that `name` holds.
pub open spec fn undo_deletions(
    env: EnvMap,
    name: Seq<char>,
    deletions: Seq<Seq<char>>,
) -> EnvMap
    decreases deletions.len(),
{
    if deletions.len() == 0 {
        env
    } else {
        undo_deletions(prepended(env, name, deletions[0]), name, deletions.drop_first())
    }
}

/// One list of a record undone: first its additions, then its deletions.
pub open spec fn undo_list(env: EnvMap, l: ListView) -> EnvMap {
    undo_deletions(undo_additions(env, l.name, l.additions), l.name, l.deletions)
}

/// The lists of a record undone in their order.
pub open spec fn undo_lists(env: EnvMap, lists: Seq<ListView>) -> EnvMap
    decreases lists.len(),
{
    if lists.len() == 0 {
        env
    } else {
        undo_lists(undo_list(env, lists[0]), lists.drop_first())
    }
}

/// The outer environment that a record gives back from the environment
/// `env`, with the names that must not be written.
pub open spec fn unshadowed(env: EnvMap, data: DataView) -> (
    EnvMap,
    Set<Seq<char>>,
) {
    let after = undo_scalars((env, Set::empty()), data.scalars);
    (undo_lists(after.0, data.lists), after.1)
}

/// The features that a sequence holds.
pub open spec fn feature_set(features: Seq<Feature>) -> Set<FeatureView> {
    features.map_values(|f: Feature| f@).to_set()
}

/// The overlay as plain values.
pub ghost struct ShadowenvView {
    /// The environment as the programs have left it so far.
    pub env: EnvMap,
    /// The outer environment, as the undo record gave it back.
    pub unshadowed_env: EnvMap,
    /// The environment of the calling shell.
    pub initial_env: EnvMap,
    /// The names that must not be written.
    pub no_clobber: Set<Seq<char>>,
    /// The names that a program has treated as lists.
    pub lists: Set<Seq<char>>,
    pub features: Set<FeatureView>,
    pub target_hash: u64,
    pub prev_dirs: Set<Seq<char>>,
    pub current_dirs: Set<Seq<char>>,
}

/// The overlay of one activation.
#[derive(Debug)]
pub struct Shadowenv {
    env: Env,
    unshadowed_env: Env,
    no_clobber: NameSet,
    initial_env: Env,
    lists: NameSet,
    features: Vec<Feature>,
    target_hash: u64,
    prev_dirs: NameSet,
    current_dirs: NameSet,
}

impl View for Shadowenv {
    type V = ShadowenvView;

    closed spec fn view(&self) -> ShadowenvView {
        ShadowenvView {
            env: self.env@,
            unshadowed_env: self.unshadowed_env@,
            initial_env: self.initial_env@,
            no_clobber: self.no_clobber@,
            lists: self.lists@,
            features: feature_set(self.features@),
            target_hash: self.target_hash,
            prev_dirs: self.prev_dirs@,
            current_dirs: self.current_dirs@,
        }
    }
}

/// The names that a sequence of strings holds.
pub open spec fn name_set(names: Seq<String>) -> Set<Seq<char>> {
    string_texts(names).to_set()
}

/// Puts names into a set.
fn names_into(set: &mut NameSet, names: &Vec<String>)
    requires
        old(set).wf(),
    ensures
        final(set).wf(),
        final(set)@ == old(set)@.union(name_set(names@)),
{
    let mut i: usize = 0;
    assert(set@ =~= old(set)@.union(name_set(names@.take(0))));
    while i < names.len()
        invariant
            i <= names.len(),
            set.wf(),
            set@ == old(set)@.union(name_set(names@.take(i as int))),
        decreases names.len() - i,
    {
        set.insert(names[i].as_str());
        proof {
            let a = string_texts(names@.take(i as int));
            let b = string_texts(names@.take(i + 1));
            assert(b =~= a.push(names@[i as int]@));
            assert forall|k: Seq<char>| b.to_set().contains(k) <==> a.to_set().insert(
                names@[i as int]@,
            ).contains(k) by {
                if a.contains(k) {
                    let j = choose|j: int| 0 <= j < a.len() && a[j] == k;
                    assert(b[j] == k);
                }
                if k == names@[i as int]@ {
                    assert(b[i as int] == k);
                }
            }
            assert(b.to_set() =~= a.to_set().insert(names@[i as int]@));
            assert(set@ =~= old(set)@.union(name_set(names@.take(i + 1))));
        }
        i = i + 1;
    }
    assert(names@.take(names.len() as int) =~= names@);
}

impl Shadowenv {
    /// What holds of every overlay: each of its parts is well formed, and
    /// no feature is recorded twice.
    #[verifier::type_invariant]
    spec fn wf(&self) -> bool {
        &&& self.env.wf()
        &&& self.unshadowed_env.wf()
        &&& self.no_clobber.wf()
        &&& self.initial_env.wf()
        &&& self.lists.wf()
        &&& self.prev_dirs.wf()
        &&& self.current_dirs.wf()
        &&& forall|i: int, j: int|
            0 <= i < j < self.features@.len() ==> self.features@[i]@ != self.features@[j]@
    }

    /// The outer environment that `shadowenv_data` gives back from `env`,
    /// and the names that must not be written.
    pub fn unshadow(env: &Env, shadowenv_data: &Data) -> (r: (Env, NameSet))
        requires
            env.wf(),
        ensures
            r.0.wf(),
            r.1.wf(),
            (r.0@, r.1@) == unshadowed(env@, shadowenv_data@),
    {
        let mut result = env.duplicate();
        let mut no_clobber = NameSet::new();
        let ghost scalars = shadowenv_data@.scalars;
        let mut i: usize = 0;
        assert(scalars.skip(0) =~= scalars);
        while i < shadowenv_data.scalars.len()
            invariant
                i <= shadowenv_data.scalars.len(),
                scalars == shadowenv_data@.scalars,
                result.wf(),
                no_clobber.wf(),
                undo_scalars((env@, Set::empty()), scalars) == undo_scalars(
                    (result@, no_clobber@),
                    scalars.skip(i as int),
                ),
            decreases shadowenv_data.scalars.len() - i,
        {
            let scalar = &shadowenv_data.scalars[i];
            proof {
                assert(scalars.skip(i as int)[0] == scalar@);
                assert(scalars.skip(i as int).drop_first() =~= scalars.skip(i + 1));
            }
            if scalar.no_clobber {
                no_clobber.insert(scalar.name.as_str());
            } else {
                let current_value = env_get(&result, scalar.name.as_str());
                if same_optional(&current_value, &scalar.current) {
                    env_set(&mut result, scalar.name.as_str(), as_optional_str(&scalar.original));
                } else {
                    no_clobber.insert(scalar.name.as_str());
                }
            }
            i = i + 1;
        }
        let ghost lists = shadowenv_data@.lists;
        let ghost after = result@;
        let mut i: usize = 0;
        assert(lists.skip(0) =~= lists);
        while i < shadowenv_data.lists.len()
            invariant
                i <= shadowenv_data.lists.len(),
                lists == shadowenv_data@.lists,
                result.wf(),
                undo_lists(after, lists) == undo_lists(result@, lists.skip(i as int)),
            decreases shadowenv_data.lists.len() - i,
        {
            let list = &shadowenv_data.lists[i];
            proof {
                assert(lists.skip(i as int)[0] == list@);
                assert(lists.skip(i as int).drop_first() =~= lists.skip(i + 1));
            }
            let ghost start = result@;
            let ghost adds = list@.additions;
            let mut k: usize = 0;
            assert(adds.skip(0) =~= adds);
            while k < list.additions.len()
                invariant
                    k <= list.additions.len(),
                    adds == string_texts(list.additions@),
                    result.wf(),
                    undo_additions(start, list.name@, adds) == undo_additions(
                        result@,
                        list.name@,
                        adds.skip(k as int),
                    ),
                decreases list.additions.len() - k,
            {
                proof {
                    assert(adds.skip(k as int)[0] == list.additions@[k as int]@);
                    assert(adds.skip(k as int).drop_first() =~= adds.skip(k + 1));
                }
                env_remove_from_pathlist(&mut result, list.name.as_str(), list.additions[k].as_str());
                k = k + 1;
            }
            let ghost middle = result@;
            let ghost dels = list@.deletions;
            let mut k: usize = 0;
            assert(dels.skip(0) =~= dels);
            while k < list.deletions.len()
                invariant
                    k <= list.deletions.len(),
                    dels == string_texts(list.deletions@),
                    result.wf(),
                    undo_deletions(middle, list.name@, dels) == undo_deletions(
                        result@,
                        list.name@,
                        dels.skip(k as int),
                    ),
                decreases list.deletions.len() - k,
            {
                proof {
                    assert(dels.skip(k as int)[0] == list.deletions@[k as int]@);
                    assert(dels.skip(k as int).drop_first() =~= dels.skip(k + 1));
                }
                env_prepend_to_pathlist(&mut result, list.name.as_str(), list.deletions[k].as_str());
                k = k + 1;
            }
            i = i + 1;
        }
        (result, no_clobber)
    }

    /// The overlay for the environment `env` of the calling shell, in which
    /// the record `shadowenv_data` is active.
    pub fn new(env: Env, shadowenv_data: Data, target_hash: u64, prev_dirs: Vec<String>) -> (r:
        Shadowenv)
        requires
            env.wf(),
        ensures
            r@ == (ShadowenvView {
                env: unshadowed(env@, shadowenv_data@).0,
                unshadowed_env: unshadowed(env@, shadowenv_data@).0,
                initial_env: env@,
                no_clobber: unshadowed(env@, shadowenv_data@).1,
                lists: Set::empty(),
                features: Set::empty(),
                target_hash,
                prev_dirs: name_set(prev_dirs@),
                current_dirs: Set::empty(),
            }),
    {
        let (unshadowed_env, no_clobber) = Shadowenv::unshadow(&env, &shadowenv_data);
        let mut dirs = NameSet::new();
        names_into(&mut dirs, &prev_dirs);
        let r = Shadowenv {
            env: unshadowed_env.duplicate(),
            unshadowed_env,
            no_clobber,
            initial_env: env,
            lists: NameSet::new(),
            features: Vec::new(),
            target_hash,
            prev_dirs: dirs,
            current_dirs: NameSet::new(),
        };
        proof {
            assert(feature_set(r.features@) =~= Set::<FeatureView>::empty());
            assert(r@.prev_dirs =~= name_set(prev_dirs@));
        }
        r
    }

    /// Sets a variable, or unsets it where `b` is `None`.
    pub fn set(&mut self, a: &str, b: Option<&str>)
        ensures
            final(self)@ == (ShadowenvView {
                env: assign(old(self)@.env, a@, match b {
                    Some(v) => Some(v@),
                    None => None,
                }),
                ..old(self)@
            }),
    {
        proof {
            use_type_invariant(&*self);
        }
        let mut env = Env::new();
        std::mem::swap(&mut env, &mut self.env);
        env_set(&mut env, a, b);
        self.env = env;
    }

    /// The value of a variable as the programs have left it.
    pub fn get(&self, a: &str) -> (r: Option<String>)
        ensures
            optional_text(r) == lookup(self@.env, a@),
    {
        proof {
            use_type_invariant(&*self);
        }
        env_get(&self.env, a)
    }

    /// Removes the first element equal to `b` from the list `a`.
    pub fn remove_from_pathlist(&mut self, a: &str, b: &str)
        ensures
            final(self)@ == (ShadowenvView {
                env: removed(old(self)@.env, a@, b@),
                lists: old(self)@.lists.insert(a@),
                ..old(self)@
            }),
    {
        self.inform_list(a);
        proof {
            use_type_invariant(&*self);
        }
        let mut env = Env::new();
        std::mem::swap(&mut env, &mut self.env);
        env_remove_from_pathlist(&mut env, a, b);
        self.env = env;
    }

    /// Removes the leading elements in which `b` occurs from the list `a`.
    pub fn remove_from_pathlist_containing(&mut self, a: &str, b: &str)
        ensures
            final(self)@ == (ShadowenvView {
                env: removed_containing(old(self)@.env, a@, b@),
                lists: old(self)@.lists.insert(a@),
                ..old(self)@
            }),
    {
        self.inform_list(a);
        proof {
            use_type_invariant(&*self);
        }
        let mut env = Env::new();
        std::mem::swap(&mut env, &mut self.env);
        env_remove_from_pathlist_containing(&mut env, a, b);
        self.env = env;
    }

    /// Puts `b` at the end of the list `a`.
    pub fn append_to_pathlist(&mut self, a: &str, b: &str)
        ensures
            final(self)@ == (ShadowenvView {
                env: appended(old(self)@.env, a@, b@),
                lists: old(self)@.lists.insert(a@),
                ..old(self)@
            }),
    {
        self.inform_list(a);
        proof {
            use_type_invariant(&*self);
        }
        let mut env = Env::new();
        std::mem::swap(&mut env, &mut self.env);
        env_append_to_pathlist(&mut env, a, b);
        self.env = env;
    }

    /// Puts `b` at the front of the list `a`.
    pub fn prepend_to_pathlist(&mut self, a: &str, b: &str)
        ensures
            final(self)@ == (ShadowenvView {
                env: prepended(old(self)@.env, a@, b@),
                lists: old(self)@.lists.insert(a@),
                ..old(self)@
            }),
    {
        self.inform_list(a);
        proof {
            use_type_invariant(&*self);
        }
        let mut env = Env::new();
        std::mem::swap(&mut env, &mut self.env);
        env_prepend_to_pathlist(&mut env, a, b);
        self.env = env;
    }

    /// Records a feature.
    pub fn add_feature(&mut self, name: &str, version: Option<&str>)
        ensures
            final(self)@ == (ShadowenvView {
                features: old(self)@.features.insert(
                    FeatureView {
                        name: name@,
                        version: match version {
                            Some(v) => Some(v@),
                            None => None,
                        },
                    },
                ),
                ..old(self)@
            }),
    {
        let version = match version {
            Some(v) => Some(String::from_str(v)),
            None => None,
        };
        proof {
            use_type_invariant(&*self);
        }
        let feature = Feature::new(String::from_str(name), version);
        let ghost before = self.features@;
        let ghost views = before.map_values(|f: Feature| f@);
        let mut present = false;
        let mut i: usize = 0;
        while i < self.features.len() && !present
            invariant
                i <= self.features.len(),
                self.features@ == before,
                present ==> exists|k: int| 0 <= k < before.len() && before[k]@ == feature@,
                !present ==> forall|k: int| 0 <= k < i ==> before[k]@ != feature@,
            decreases self.features.len() - i + if present { 0int } else { 1int },
        {
            if self.features[i].same_as(&feature) {
                present = true;
            } else {
                i = i + 1;
            }
        }
        if present {
            proof {
                let k = choose|k: int| 0 <= k < before.len() && before[k]@ == feature@;
                assert(views[k] == feature@);
                assert(views.to_set().insert(feature@) =~= views.to_set());
            }
            return ;
        }
        let mut features: Vec<Feature> = Vec::new();
        std::mem::swap(&mut features, &mut self.features);
        features.push(feature);
        self.features = features;
        proof {
            let after = self.features@.map_values(|f: Feature| f@);
            assert(after =~= views.push(feature@));
            assert forall|f: FeatureView| after.to_set().contains(f) <==> views.to_set().insert(
                feature@,
            ).contains(f) by {
                if views.contains(f) {
                    let j = choose|j: int| 0 <= j < views.len() && views[j] == f;
                    assert(after[j] == f);
                }
                if f == feature@ {
                    assert(after[views.len() as int] == f);
                }
            }
            assert(after.to_set() =~= views.to_set().insert(feature@));
        }
    }

    /// The features recorded so far, each once.
    pub fn features(&self) -> (r: Vec<Feature>)
        ensures
            feature_set(r@) == self@.features,
            forall|i: int, j: int| 0 <= i < j < r@.len() ==> r@[i]@ != r@[j]@,
    {
        proof {
            use_type_invariant(&*self);
        }
        let mut out: Vec<Feature> = Vec::new();
        let mut i: usize = 0;
        while i < self.features.len()
            invariant
                i <= self.features.len(),
                out@.len() == i,
                forall|k: int| 0 <= k < i ==> out@[k]@ == self.features@[k]@,
            decreases self.features.len() - i,
        {
            out.push(self.features[i].duplicate());
            i = i + 1;
        }
        assert(out@.map_values(|f: Feature| f@) =~= self.features@.map_values(|f: Feature| f@));
        out
    }

    /// The directories of the chain that is being activated, sorted.
    pub fn current_dirs(&self) -> (r: Vec<String>)
        ensures
            name_set(r@) == self@.current_dirs,
            crate::env::strictly_sorted(string_texts(r@)),
    {
        proof {
            use_type_invariant(&*self);
        }
        let r = self.current_dirs.to_vec();
        proof {
            self.current_dirs.lemma_listing();
            assert(name_set(r@) =~= self@.current_dirs);
        }
        r
    }

    /// The directories of the chain that was active before, sorted.
    pub fn prev_dirs(&self) -> (r: Vec<String>)
        ensures
            name_set(r@) == self@.prev_dirs,
            crate::env::strictly_sorted(string_texts(r@)),
    {
        proof {
            use_type_invariant(&*self);
        }
        let r = self.prev_dirs.to_vec();
        proof {
            self.prev_dirs.lemma_listing();
            assert(name_set(r@) =~= self@.prev_dirs);
        }
        r
    }

    /// Adds directories to those of the chain that is being activated.
    pub fn add_dirs(&mut self, dirs: Vec<String>)
        ensures
            final(self)@ == (ShadowenvView {
                current_dirs: old(self)@.current_dirs.union(name_set(dirs@)),
                ..old(self)@
            }),
    {
        proof {
            use_type_invariant(&*self);
        }
        let mut current = NameSet::new();
        std::mem::swap(&mut current, &mut self.current_dirs);
        names_into(&mut current, &dirs);
        self.current_dirs = current;
    }

    /// Whether `varname` must not be written.
    pub fn should_not_clobber(&self, varname: &str) -> (r: bool)
        ensures
            r == self@.no_clobber.contains(varname@),
    {
        proof {
            use_type_invariant(&*self);
        }
        self.no_clobber.contains(varname)
    }

    /// Notes that a name is treated as a list.
    fn inform_list(&mut self, a: &str)
        ensures
            final(self)@ == (ShadowenvView { lists: old(self)@.lists.insert(a@), ..old(self)@ }),
    {
        proof {
            use_type_invariant(&*self);
        }
        let mut lists = NameSet::new();
        std::mem::swap(&mut lists, &mut self.lists);
        lists.insert(a);
        self.lists = lists;
    }
}

/// Whether two optional values are the same.
pub fn same_optional(a: &Option<String>, b: &Option<String>) -> (r: bool)
    ensures
        r == (optional_text(*a) == optional_text(*b)),
{
    match a {
        Some(x) => match b {
            Some(y) => crate::text::text_eq(x.as_str(), y.as_str()),
            None => false,
        },
        None => b.is_none(),
    }
}

/// An optional string as an optional string slice.
pub fn as_optional_str(a: &Option<String>) -> (r: Option<&str>)
    ensures
        match r {
            Some(v) => optional_text(*a) == Some(v@),
            None => optional_text(*a) is None,
        },
{
    match a {
        Some(x) => Some(x.as_str()),
        None => None,
    }
}

/// The variable in which the undo record travels.
pub const DATA_NAME: &'static str = "__shadowenv_data";

/// Whether `name` has different values, or a value in one only, in `a` and `b`.
pub open spec fn changed(
    a: EnvMap,
    b: EnvMap,
    name: Seq<char>,
) -> bool {
    lookup(a, name) != lookup(b, name)
}

/// What the record says of a name that was changed as a whole.
pub open spec fn scalar_entry(v: ShadowenvView, name: Seq<char>) -> ScalarView {
    ScalarView {
        name,
        original: lookup(v.unshadowed_env, name),
        current: lookup(v.env, name),
        no_clobber: v.no_clobber.contains(name),
    }
}

/// What the record says of a name that was changed as a list.
pub open spec fn list_entry(v: ShadowenvView, name: Seq<char>) -> ListView {
    ListView {
        name,
        additions: additions(parts_of(v.unshadowed_env, name), parts_of(v.env, name)),
        deletions: deletions(parts_of(v.unshadowed_env, name), parts_of(v.env, name)),
    }
}

/// The names that the record holds as scalars: those that the programs
/// changed and did not treat as lists.
pub open spec fn scalar_name_set(v: ShadowenvView) -> Set<Seq<char>> {
    Set::new(|n: Seq<char>| changed(v.unshadowed_env, v.env, n) && !v.lists.contains(n))
}

/// The names that the record holds as lists: those that the programs
/// changed and treated as lists.
pub open spec fn list_name_set(v: ShadowenvView) -> Set<Seq<char>> {
    Set::new(|n: Seq<char>| changed(v.unshadowed_env, v.env, n) && v.lists.contains(n))
}

/// The undo record of an overlay: an entry for each name whose value in the
/// outer environment differs from the one that the programs left, in the
/// order of the names.
pub open spec fn record(v: ShadowenvView) -> DataView {
    DataView {
        scalars: sorted_listing(scalar_name_set(v)).map_values(|n: Seq<char>| scalar_entry(v, n)),
        lists: sorted_listing(list_name_set(v)).map_values(|n: Seq<char>| list_entry(v, n)),
    }
}

/// Whether the names that the record of an overlay holds can be listed,
/// as they can for every overlay that the library makes: its environments
/// are finite.
pub open spec fn has_record(v: ShadowenvView) -> bool {
    &&& is_listing(sorted_listing(scalar_name_set(v)), scalar_name_set(v))
    &&& is_listing(sorted_listing(list_name_set(v)), list_name_set(v))
}

/// The undo record as it travels: the hash as sixteen hexadecimal digits, a
/// colon, and the record as JSON.
pub open spec fn carrier_text(hash: u64, d: DataView) -> Seq<char> {
    hex_text(hash as nat, 16) + seq![':'] + data_json(d)
}

/// Whether the shell is told a new value for `name`: it is not the carrier
/// of the record, it may be written, and the programs left it with another
/// value than the shell has.
pub open spec fn exported(v: ShadowenvView, name: Seq<char>) -> bool {
    name != DATA_NAME@ && !v.no_clobber.contains(name) && changed(v.initial_env, v.env, name)
}

/// The names that are exported.
pub open spec fn exported_names(v: ShadowenvView) -> Set<Seq<char>> {
    Set::new(|n: Seq<char>| exported(v, n))
}

/// What the shell is told: first the carrier of the record, then each
/// exported name, in the order of the names, with its new value or with
/// `None` where it is to be unset.
pub open spec fn export_pairs(v: ShadowenvView) -> Seq<(Seq<char>, Option<Seq<char>>)> {
    seq![(DATA_NAME@, Some(carrier_text(v.target_hash, record(v))))] + sorted_listing(
        exported_names(v),
    ).map_values(|n: Seq<char>| (n, lookup(v.env, n)))
}

/// Pairs of a name and an optional value as plain values.
pub open spec fn pair_views(pairs: Seq<(String, Option<String>)>) -> Seq<
    (Seq<char>, Option<Seq<char>>),
> {
    pairs.map_values(|p: (String, Option<String>)| (p.0@, optional_text(p.1)))
}

/// Texts as strings.
pub fn strings_of(items: &Vec<Vec<char>>) -> (out: Vec<String>)
    ensures
        string_texts(out@) == texts(items@),
{
    let mut out: Vec<String> = Vec::new();
    let mut i: usize = 0;
    while i < items.len()
        invariant
            i <= items.len(),
            out@.len() == i,
            forall|k: int| 0 <= k < i ==> out@[k]@ == items@[k]@,
        decreases items.len() - i,
    {
        out.push(string_of(&items[i]));
        i = i + 1;
    }
    assert(string_texts(out@) =~= texts(items@));
    out
}

impl Shadowenv {
    /// The names that the programs' environment or the shell's holds.
    pub fn all_relevant_varnames(&self) -> (names: NameSet)
        ensures
            names.wf(),
            names@ == self@.env.dom().union(self@.initial_env.dom()),
    {
        proof {
            use_type_invariant(&*self);
        }
        names_of_both(&self.env, &self.initial_env)
    }

    /// The undo record: what must be undone to get the outer environment back.
    pub fn shadowenv_data(&self) -> (data: Data)
        ensures
            data@ == record(self@),
            has_record(self@),
    {
        proof {
            use_type_invariant(&*self);
        }
        let names = names_of_both(&self.env, &self.unshadowed_env);
        let mut data = Data::new();
        let ghost v = self@;
        let ghost listing = names.listing();
        let ghost mut snames: Seq<Seq<char>> = Seq::empty();
        let ghost mut lnames: Seq<Seq<char>> = Seq::empty();
        proof {
            names.lemma_listing();
            lemma_selects_none(listing, scalar_name_set(v));
            lemma_selects_none(listing, list_name_set(v));
            assert(data@.scalars =~= snames.map_values(|n: Seq<char>| scalar_entry(v, n)));
            assert(data@.lists =~= lnames.map_values(|n: Seq<char>| list_entry(v, n)));
        }
        let mut i: usize = 0;
        while i < names.len()
            invariant
                self.wf(),
                names.wf(),
                v == self@,
                listing == names.listing(),
                strictly_sorted(listing),
                i <= listing.len(),
                data@.scalars == snames.map_values(|n: Seq<char>| scalar_entry(v, n)),
                data@.lists == lnames.map_values(|n: Seq<char>| list_entry(v, n)),
                selects(snames, listing, i as int, scalar_name_set(v)),
                selects(lnames, listing, i as int, list_name_set(v)),
            decreases listing.len() - i,
        {
            let varname = names.name_at(i);
            let a = self.env.get(varname.as_str());
            let b = self.unshadowed_env.get(varname.as_str());
            proof {
                lemma_selects_next(snames, listing, i as int, scalar_name_set(v));
                lemma_selects_next(lnames, listing, i as int, list_name_set(v));
            }
            if !same_optional(&a, &b) {
                if self.lists.contains(varname.as_str()) {
                    let unshadowed_parts = env_parts(&self.unshadowed_env, varname.as_str());
                    let final_parts = env_parts(&self.env, varname.as_str());
                    let (added, deleted) = diff_vecs(&unshadowed_parts, &final_parts);
                    data.add_list(varname.clone(), strings_of(&added), strings_of(&deleted));
                    proof {
                        lnames = lnames.push(varname@);
                        assert(data@.lists =~= lnames.map_values(|n: Seq<char>| list_entry(v, n)));
                    }
                } else {
                    let no_clobber = self.no_clobber.contains(varname.as_str());
                    data.add_scalar(varname.clone(), b, a, no_clobber);
                    proof {
                        snames = snames.push(varname@);
                        assert(data@.scalars =~= snames.map_values(
                            |n: Seq<char>| scalar_entry(v, n),
                        ));
                    }
                }
            }
            i = i + 1;
        }
        proof {
            names.lemma_listing();
            assert forall|n: Seq<char>| scalar_name_set(v).contains(n) implies listing.contains(
                n,
            ) by {
                assert(names@.contains(n));
            }
            assert forall|n: Seq<char>| list_name_set(v).contains(n) implies listing.contains(n) by {
                assert(names@.contains(n));
            }
            lemma_selects_all(snames, listing, scalar_name_set(v));
            lemma_selects_all(lnames, listing, list_name_set(v));
        }
        data
    }

    /// The undo record as it travels in the environment.
    pub fn format_shadowenv_data(&self) -> (r: String)
        ensures
            r@ == carrier_text(self@.target_hash, record(self@)),
            has_record(self@),
    {
        let d = self.shadowenv_data();
        let json = d.to_json();
        let mut out = hex16(self.target_hash);
        out.push(':');
        push_text(&mut out, json.as_str());
        string_of(&out)
    }

    /// What the shell is to be told: the new carrier of the record, and the
    /// new value of each name that may be written and that the programs left
    /// with another value than the shell has.
    pub fn exports(&self) -> (r: Vec<(String, Option<String>)>)
        ensures
            pair_views(r@) == export_pairs(self@),
            has_record(self@),
            is_listing(sorted_listing(exported_names(self@)), exported_names(self@)),
    {
        proof {
            use_type_invariant(&*self);
        }
        let carrier = self.format_shadowenv_data();
        let mut changes: Vec<(String, Option<String>)> = Vec::new();
        changes.push((String::from_str(DATA_NAME), Some(carrier)));
        let varnames = self.all_relevant_varnames();
        let ghost v = self@;
        let ghost listing = varnames.listing();
        let ghost head = seq![(DATA_NAME@, Some(carrier_text(v.target_hash, record(v))))];
        let ghost mut chosen: Seq<Seq<char>> = Seq::empty();
        proof {
            varnames.lemma_listing();
            lemma_selects_none(listing, exported_names(v));
            assert(pair_views(changes@) =~= head + chosen.map_values(
                |n: Seq<char>| (n, lookup(v.env, n)),
            ));
        }
        let mut i: usize = 0;
        while i < varnames.len()
            invariant
                self.wf(),
                varnames.wf(),
                v == self@,
                listing == varnames.listing(),
                strictly_sorted(listing),
                i <= listing.len(),
                pair_views(changes@) == head + chosen.map_values(
                    |n: Seq<char>| (n, lookup(v.env, n)),
                ),
                selects(chosen, listing, i as int, exported_names(v)),
            decreases listing.len() - i,
        {
            let varname = varnames.name_at(i);
            proof {
                lemma_selects_next(chosen, listing, i as int, exported_names(v));
            }
            if !text_eq(varname.as_str(), DATA_NAME) && !self.should_not_clobber(varname.as_str()) {
                let a = self.env.get(varname.as_str());
                let b = self.initial_env.get(varname.as_str());
                if !same_optional(&a, &b) {
                    let ghost old_pairs = changes@;
                    changes.push((varname.clone(), a));
                    proof {
                        chosen = chosen.push(varname@);
                        assert(pair_views(changes@) =~= pair_views(old_pairs).push(
                            (varname@, lookup(v.env, varname@)),
                        ));
                        assert(pair_views(changes@) =~= head + chosen.map_values(
                            |n: Seq<char>| (n, lookup(v.env, n)),
                        ));
                    }
                }
            }
            i = i + 1;
        }
        proof {
            varnames.lemma_listing();
            assert forall|n: Seq<char>| exported_names(v).contains(n) implies listing.contains(n) by {
                assert(varnames@.contains(n));
            }
            lemma_selects_all(chosen, listing, exported_names(v));
        }
        changes
    }
}

} // verus!
