//! What holds of the overlay across invocations of the hook: undoing a
//! record gives the outer environment back, and a name that must not be
//! written stays so.

use crate::env::{is_listing, lemma_sorted_distinct, sorted_listing, EnvMap};
use crate::hash::{chain_dirs, SourceView};
use crate::hook::{
    hook_outcome, lemma_unprobed, nothing_to_do, planned, probed, target_of, unvouched,
    HookErrorView, PlanView,
};
use crate::loader::holder_of;
use crate::trust::{lemma_untrusted_among, token_valid, TrustProbeView};
use crate::pathlist::{
    additions, common, deletions, law_deletions_restored, prepend_each, remove_each, remove_first,
    without,
};
use crate::shadowenv::{
    carrier_text, changed, export_pairs, exported, exported_names, has_record, list_entry,
    list_name_set, lookup, parts_of, prepended, record, removed, scalar_entry, scalar_name_set,
    store_parts, undo_additions, undo_deletions, undo_list, undo_lists, undo_scalar, undo_scalars,
    unshadowed, DATA_NAME, ShadowenvView,
};
use crate::text::{lemma_split_join, lemma_split_pieces};
use crate::undo::{hash_part, previous_hash, DataView, ListView, ScalarView};
use vstd::prelude::*;

verus! {

/// The environment of the shell after it has carried out what the hook
/// told it: the carrier holds the new record, each exported name has the
/// value that the programs left, and every other name is as it was.
pub open spec fn after_exports(v: ShadowenvView) -> EnvMap {
    Map::new(
        |n: Seq<char>|
            n == DATA_NAME@ || (if exported(v, n) {
                v.env.contains_key(n)
            } else {
                v.initial_env.contains_key(n)
            }),
        |n: Seq<char>|
            if n == DATA_NAME@ {
                carrier_text(v.target_hash, record(v))
            } else if exported(v, n) {
                v.env[n]
            } else {
                v.initial_env[n]
            },
    )
}

/// No character of the text is a colon.
pub open spec fn colon_free(s: Seq<char>) -> bool {
    forall|k: int| 0 <= k < s.len() ==> s[k] != ':'
}

/// No element holds a colon.
pub open spec fn all_colon_free(items: Seq<Seq<char>>) -> bool {
    forall|i: int| 0 <= i < items.len() ==> colon_free(#[trigger] items[i])
}

/// Undoing scalars leaves a name alone that none of them has.
proof fn lemma_undo_scalars_other(
    state: (EnvMap, Set<Seq<char>>),
    scalars: Seq<ScalarView>,
    n: Seq<char>,
)
    requires
        forall|i: int| 0 <= i < scalars.len() ==> (#[trigger] scalars[i]).name != n,
    ensures
        lookup(undo_scalars(state, scalars).0, n) == lookup(state.0, n),
        undo_scalars(state, scalars).1.contains(n) == state.1.contains(n),
    decreases scalars.len(),
{
    if scalars.len() > 0 {
        assert(scalars[0].name != n);
        let next = undo_scalar(state, scalars[0]);
        assert forall|i: int| 0 <= i < scalars.drop_first().len() implies (
        #[trigger] scalars.drop_first()[i]).name != n by {
            assert(scalars.drop_first()[i] == scalars[i + 1]);
        }
        lemma_undo_scalars_other(next, scalars.drop_first(), n);
    }
}

/// Where the scalars have distinct names, undoing them does to the name of
/// one of them what undoing that one alone does.
proof fn lemma_undo_scalars_at(
    state: (EnvMap, Set<Seq<char>>),
    scalars: Seq<ScalarView>,
    i: int,
)
    requires
        0 <= i < scalars.len(),
        forall|j: int| 0 <= j < scalars.len() && j != i ==> (#[trigger] scalars[j]).name != scalars[i].name,
    ensures
        lookup(undo_scalars(state, scalars).0, scalars[i].name) == lookup(
            undo_scalar(state, scalars[i]).0,
            scalars[i].name,
        ),
        undo_scalars(state, scalars).1.contains(scalars[i].name) == undo_scalar(
            state,
            scalars[i],
        ).1.contains(scalars[i].name),
    decreases i,
{
    let n = scalars[i].name;
    let rest = scalars.drop_first();
    let next = undo_scalar(state, scalars[0]);
    if i == 0 {
        assert forall|j: int| 0 <= j < rest.len() implies (#[trigger] rest[j]).name != n by {
            assert(rest[j] == scalars[j + 1]);
        }
        lemma_undo_scalars_other(next, rest, n);
    } else {
        assert(scalars[0].name != n);
        assert(rest[i - 1] == scalars[i]);
        assert forall|j: int| 0 <= j < rest.len() && j != i - 1 implies (#[trigger] rest[j]).name
            != rest[i - 1].name by {
            assert(rest[j] == scalars[j + 1]);
        }
        lemma_undo_scalars_at(next, rest, i - 1);
    }
}

/// Undoing the additions of a list leaves every other name alone.
proof fn lemma_undo_additions_other(
    env: EnvMap,
    name: Seq<char>,
    gone: Seq<Seq<char>>,
    n: Seq<char>,
)
    requires
        name != n,
    ensures
        lookup(undo_additions(env, name, gone), n) == lookup(env, n),
    decreases gone.len(),
{
    if gone.len() > 0 {
        lemma_undo_additions_other(removed(env, name, gone[0]), name, gone.drop_first(), n);
    }
}

/// Undoing the deletions of a list leaves every other name alone.
proof fn lemma_undo_deletions_other(
    env: EnvMap,
    name: Seq<char>,
    back: Seq<Seq<char>>,
    n: Seq<char>,
)
    requires
        name != n,
    ensures
        lookup(undo_deletions(env, name, back), n) == lookup(env, n),
    decreases back.len(),
{
    if back.len() > 0 {
        lemma_undo_deletions_other(prepended(env, name, back[0]), name, back.drop_first(), n);
    }
}

/// Undoing lists leaves a name alone that none of them has.
proof fn lemma_undo_lists_other(env: EnvMap, lists: Seq<ListView>, n: Seq<char>)
    requires
        forall|i: int| 0 <= i < lists.len() ==> (#[trigger] lists[i]).name != n,
    ensures
        lookup(undo_lists(env, lists), n) == lookup(env, n),
    decreases lists.len(),
{
    if lists.len() > 0 {
        let l = lists[0];
        assert(l.name != n);
        lemma_undo_additions_other(env, l.name, l.additions, n);
        lemma_undo_deletions_other(undo_additions(env, l.name, l.additions), l.name, l.deletions, n);
        assert forall|i: int| 0 <= i < lists.drop_first().len() implies (
        #[trigger] lists.drop_first()[i]).name != n by {
            assert(lists.drop_first()[i] == lists[i + 1]);
        }
        lemma_undo_lists_other(undo_list(env, l), lists.drop_first(), n);
    }
}

/// What undoing additions makes of a name depends on its value alone.
proof fn lemma_undo_additions_same(
    a: EnvMap,
    b: EnvMap,
    name: Seq<char>,
    gone: Seq<Seq<char>>,
)
    requires
        lookup(a, name) == lookup(b, name),
    ensures
        lookup(undo_additions(a, name, gone), name) == lookup(undo_additions(b, name, gone), name),
    decreases gone.len(),
{
    if gone.len() > 0 {
        lemma_undo_additions_same(
            removed(a, name, gone[0]),
            removed(b, name, gone[0]),
            name,
            gone.drop_first(),
        );
    }
}

/// What undoing deletions makes of a name depends on its value alone.
proof fn lemma_undo_deletions_same(
    a: EnvMap,
    b: EnvMap,
    name: Seq<char>,
    back: Seq<Seq<char>>,
)
    requires
        lookup(a, name) == lookup(b, name),
    ensures
        lookup(undo_deletions(a, name, back), name) == lookup(undo_deletions(b, name, back), name),
    decreases back.len(),
{
    if back.len() > 0 {
        lemma_undo_deletions_same(
            prepended(a, name, back[0]),
            prepended(b, name, back[0]),
            name,
            back.drop_first(),
        );
    }
}

/// Where the lists have distinct names, undoing them does to the name of
/// one of them what undoing that one alone does.
proof fn lemma_undo_lists_at(env: EnvMap, lists: Seq<ListView>, i: int)
    requires
        0 <= i < lists.len(),
        forall|j: int| 0 <= j < lists.len() && j != i ==> (#[trigger] lists[j]).name != lists[i].name,
    ensures
        lookup(undo_lists(env, lists), lists[i].name) == lookup(
            undo_list(env, lists[i]),
            lists[i].name,
        ),
    decreases i,
{
    let n = lists[i].name;
    let rest = lists.drop_first();
    let next = undo_list(env, lists[0]);
    if i == 0 {
        assert forall|j: int| 0 <= j < rest.len() implies (#[trigger] rest[j]).name != n by {
            assert(rest[j] == lists[j + 1]);
        }
        lemma_undo_lists_other(next, rest, n);
    } else {
        let first = lists[0];
        assert(first.name != n);
        lemma_undo_additions_other(env, first.name, first.additions, n);
        lemma_undo_deletions_other(
            undo_additions(env, first.name, first.additions),
            first.name,
            first.deletions,
            n,
        );
        assert(rest[i - 1] == lists[i]);
        assert forall|j: int| 0 <= j < rest.len() && j != i - 1 implies (#[trigger] rest[j]).name
            != rest[i - 1].name by {
            assert(rest[j] == lists[j + 1]);
        }
        lemma_undo_lists_at(next, rest, i - 1);
        let l = lists[i];
        lemma_undo_additions_same(next, env, n, l.additions);
        lemma_undo_deletions_same(
            undo_additions(next, n, l.additions),
            undo_additions(env, n, l.additions),
            n,
            l.deletions,
        );
    }
}

/// No element of the list that a name holds has a colon in it.
proof fn lemma_parts_colon_free(env: EnvMap, name: Seq<char>)
    ensures
        all_colon_free(parts_of(env, name)),
{
    if env.contains_key(name) {
        lemma_split_pieces(env[name], ':');
    }
}

/// Removing an element brings no colon in, and removing one that is not
/// there changes nothing.
proof fn lemma_remove_first_colon_free(items: Seq<Seq<char>>, elem: Seq<char>)
    requires
        all_colon_free(items),
    ensures
        all_colon_free(remove_first(items, elem)),
        !items.contains(elem) ==> remove_first(items, elem) == items,
    decreases items.len(),
{
    if items.len() > 0 {
        let rest = items.drop_first();
        assert forall|i: int| 0 <= i < rest.len() implies colon_free(#[trigger] rest[i]) by {
            assert(rest[i] == items[i + 1]);
        }
        if items[0] == elem {
            assert(items.contains(elem));
        } else {
            lemma_remove_first_colon_free(rest, elem);
            let out = seq![items[0]] + remove_first(rest, elem);
            assert forall|i: int| 0 <= i < out.len() implies colon_free(#[trigger] out[i]) by {
                if i > 0 {
                    assert(out[i] == remove_first(rest, elem)[i - 1]);
                }
            }
            if !items.contains(elem) {
                assert(!rest.contains(elem)) by {
                    if rest.contains(elem) {
                        let k = rest.index_of(elem);
                        assert(items[k + 1] == elem);
                    }
                }
                assert(out =~= items);
            }
        }
    }
}

/// Leaving elements out brings no colon in.
proof fn lemma_without_colon_free(items: Seq<Seq<char>>, other: Seq<Seq<char>>)
    requires
        all_colon_free(items),
    ensures
        all_colon_free(without(items, other)),
    decreases items.len(),
{
    if items.len() > 0 {
        let rest = items.drop_first();
        assert forall|i: int| 0 <= i < rest.len() implies colon_free(#[trigger] rest[i]) by {
            assert(rest[i] == items[i + 1]);
        }
        lemma_without_colon_free(rest, other);
        let out = without(items, other);
        assert forall|i: int| 0 <= i < out.len() implies colon_free(#[trigger] out[i]) by {
            if !other.contains(items[0]) && i > 0 {
                assert(out[i] == without(rest, other)[i - 1]);
            }
        }
    }
}

/// A name holds the elements that were stored in it, where none of them
/// has a colon in it.
proof fn lemma_parts_of_stored(env: EnvMap, name: Seq<char>, parts: Seq<Seq<char>>)
    requires
        all_colon_free(parts),
    ensures
        parts_of(store_parts(env, name, parts), name) == parts,
{
    if parts.len() > 0 {
        assert forall|i: int, k: int|
            0 <= i < parts.len() && 0 <= k < parts[i].len() implies parts[i][k] != ':' by {
            assert(colon_free(parts[i]));
        }
        lemma_split_join(parts, ':');
    } else {
        assert(parts =~= Seq::<Seq<char>>::empty());
    }
}

/// Undoing additions removes each of them from the elements of the list.
proof fn lemma_parts_after_additions(
    env: EnvMap,
    name: Seq<char>,
    gone: Seq<Seq<char>>,
)
    ensures
        parts_of(undo_additions(env, name, gone), name) == remove_each(parts_of(env, name), gone),
    decreases gone.len(),
{
    if gone.len() > 0 {
        let parts = parts_of(env, name);
        lemma_parts_colon_free(env, name);
        lemma_remove_first_colon_free(parts, gone[0]);
        if parts.contains(gone[0]) {
            lemma_parts_of_stored(env, name, remove_first(parts, gone[0]));
        }
        lemma_parts_after_additions(removed(env, name, gone[0]), name, gone.drop_first());
    }
}

/// Undoing deletions puts each of them in front of the elements of the list.
proof fn lemma_parts_after_deletions(
    env: EnvMap,
    name: Seq<char>,
    back: Seq<Seq<char>>,
)
    requires
        all_colon_free(back),
    ensures
        parts_of(undo_deletions(env, name, back), name) == prepend_each(parts_of(env, name), back),
    decreases back.len(),
{
    if back.len() > 0 {
        let parts = parts_of(env, name);
        lemma_parts_colon_free(env, name);
        let next = seq![back[0]] + parts;
        assert(colon_free(back[0]));
        assert forall|i: int| 0 <= i < next.len() implies colon_free(#[trigger] next[i]) by {
            if i > 0 {
                assert(next[i] == parts[i - 1]);
            }
        }
        lemma_parts_of_stored(env, name, next);
        assert(prepended(env, name, back[0]) == store_parts(env, name, next));
        assert forall|i: int| 0 <= i < back.drop_first().len() implies colon_free(
            #[trigger] back.drop_first()[i],
        ) by {
            assert(back.drop_first()[i] == back[i + 1]);
        }
        lemma_parts_after_deletions(prepended(env, name, back[0]), name, back.drop_first());
    }
}

/// What the hook tells the shell brings the shell to the overlay: once the
/// shell has carried it out, every name that may be written and is not the
/// carrier of the record has the value that the programs left, or none
/// where they left none.
pub proof fn law_exports_reach_the_overlay(v: ShadowenvView, n: Seq<char>)
    requires
        n != DATA_NAME@,
        !v.no_clobber.contains(n),
    ensures
        lookup(after_exports(v), n) == lookup(v.env, n),
{
}

/// Round trip of a scalar. After the shell has carried out what the hook
/// told it, undoing the new record gives every name its value of the outer
/// environment back, where the name is not the carrier of the record, may
/// be written, and was not treated as a list.
pub proof fn law_round_trip_scalar(v: ShadowenvView, n: Seq<char>)
    requires
        has_record(v),
        n != DATA_NAME@,
        !v.no_clobber.contains(n),
        !v.lists.contains(n),
    ensures
        lookup(unshadowed(after_exports(v), record(v)).0, n) == lookup(v.unshadowed_env, n),
{
    let env = after_exports(v);
    let r = record(v);
    let snames = sorted_listing(scalar_name_set(v));
    let lnames = sorted_listing(list_name_set(v));
    let start = (env, Set::<Seq<char>>::empty());
    let after = undo_scalars(start, r.scalars);
    law_exports_reach_the_overlay(v, n);
    assert forall|i: int| 0 <= i < r.lists.len() implies (#[trigger] r.lists[i]).name != n by {
        assert(r.lists[i].name == lnames[i]);
        assert(lnames.contains(lnames[i]));
    }
    lemma_undo_lists_other(after.0, r.lists, n);
    if snames.contains(n) {
        let i = snames.index_of(n);
        assert(r.scalars[i] == scalar_entry(v, n));
        assert forall|j: int| 0 <= j < r.scalars.len() && j != i implies (
        #[trigger] r.scalars[j]).name != r.scalars[i].name by {
            assert(r.scalars[j].name == snames[j]);
            if snames[j] == snames[i] {
                lemma_sorted_distinct(snames, i, j);
            }
        }
        lemma_undo_scalars_at(start, r.scalars, i);
    } else {
        assert forall|i: int| 0 <= i < r.scalars.len() implies (#[trigger] r.scalars[i]).name
            != n by {
            assert(r.scalars[i].name == snames[i]);
            assert(snames.contains(snames[i]));
        }
        lemma_undo_scalars_other(start, r.scalars, n);
        assert(!scalar_name_set(v).contains(n));
    }
}

/// Round trip of a list. After the shell has carried out what the hook
/// told it, undoing the new record gives every list the elements of the
/// outer environment back, each as often as before, though not in their
/// old order. This needs the elements that the outer list and the new one
/// share to be as many in the one as in the other: where the programs
/// removed one of two equal elements, the record cannot tell.
pub proof fn law_round_trip_list(v: ShadowenvView, n: Seq<char>)
    requires
        has_record(v),
        n != DATA_NAME@,
        !v.no_clobber.contains(n),
        v.lists.contains(n),
        common(parts_of(v.env, n), parts_of(v.unshadowed_env, n)).to_multiset() == common(
            parts_of(v.unshadowed_env, n),
            parts_of(v.env, n),
        ).to_multiset(),
    ensures
        parts_of(unshadowed(after_exports(v), record(v)).0, n).to_multiset() == parts_of(
            v.unshadowed_env,
            n,
        ).to_multiset(),
{
    let env = after_exports(v);
    let r = record(v);
    let snames = sorted_listing(scalar_name_set(v));
    let lnames = sorted_listing(list_name_set(v));
    let start = (env, Set::<Seq<char>>::empty());
    let after = undo_scalars(start, r.scalars);
    let old = parts_of(v.unshadowed_env, n);
    let new = parts_of(v.env, n);
    law_exports_reach_the_overlay(v, n);
    assert forall|i: int| 0 <= i < r.scalars.len() implies (#[trigger] r.scalars[i]).name != n by {
        assert(r.scalars[i].name == snames[i]);
        assert(snames.contains(snames[i]));
    }
    lemma_undo_scalars_other(start, r.scalars, n);
    assert(lookup(after.0, n) == lookup(v.env, n));
    if lnames.contains(n) {
        let i = lnames.index_of(n);
        let l = r.lists[i];
        assert(l == list_entry(v, n));
        assert forall|j: int| 0 <= j < r.lists.len() && j != i implies (#[trigger] r.lists[j]).name
            != r.lists[i].name by {
            assert(r.lists[j].name == lnames[j]);
            if lnames[j] == lnames[i] {
                lemma_sorted_distinct(lnames, i, j);
            }
        }
        lemma_undo_lists_at(after.0, r.lists, i);
        lemma_parts_after_additions(after.0, n, l.additions);
        lemma_parts_colon_free(v.unshadowed_env, n);
        lemma_without_colon_free(old, new);
        lemma_parts_after_deletions(undo_additions(after.0, n, l.additions), n, l.deletions);
        assert(parts_of(after.0, n) == new);
        law_deletions_restored(old, new);
    } else {
        assert forall|i: int| 0 <= i < r.lists.len() implies (#[trigger] r.lists[i]).name != n by {
            assert(r.lists[i].name == lnames[i]);
            assert(lnames.contains(lnames[i]));
        }
        lemma_undo_lists_other(after.0, r.lists, n);
        assert(!list_name_set(v).contains(n));
    }
}

/// A name that must not be written is not exported: no entry of what the
/// shell is told, but the carrier of the record, has such a name.
pub proof fn law_no_clobber_not_exported(v: ShadowenvView, i: int)
    requires
        is_listing(sorted_listing(exported_names(v)), exported_names(v)),
        1 <= i < export_pairs(v).len(),
    ensures
        !v.no_clobber.contains(export_pairs(v)[i].0),
        export_pairs(v)[i].0 != DATA_NAME@,
        export_pairs(v)[i].1 == lookup(v.env, export_pairs(v)[i].0),
{
    let names = sorted_listing(exported_names(v));
    assert(export_pairs(v)[i].0 == names[i - 1]);
    assert(names.contains(names[i - 1]));
}

/// Undoing scalars takes no name out of those that must not be written.
proof fn lemma_undo_scalars_grows(
    state: (EnvMap, Set<Seq<char>>),
    scalars: Seq<ScalarView>,
    n: Seq<char>,
)
    requires
        state.1.contains(n),
    ensures
        undo_scalars(state, scalars).1.contains(n),
    decreases scalars.len(),
{
    if scalars.len() > 0 {
        lemma_undo_scalars_grows(undo_scalar(state, scalars[0]), scalars.drop_first(), n);
    }
}

/// Undoing a scalar that is marked puts its name among those that must
/// not be written.
proof fn lemma_undo_scalars_marks(
    state: (EnvMap, Set<Seq<char>>),
    scalars: Seq<ScalarView>,
    i: int,
)
    requires
        0 <= i < scalars.len(),
        scalars[i].no_clobber,
    ensures
        undo_scalars(state, scalars).1.contains(scalars[i].name),
    decreases i,
{
    if i == 0 {
        lemma_undo_scalars_grows(undo_scalar(state, scalars[0]), scalars.drop_first(), scalars[0].name);
    } else {
        assert(scalars.drop_first()[i - 1] == scalars[i]);
        lemma_undo_scalars_marks(undo_scalar(state, scalars[0]), scalars.drop_first(), i - 1);
    }
}

/// A name that must not be written stays so. Where the programs give such
/// a name another value than the outer environment has, the new record
/// marks it, and whatever environment the record is undone in at the next
/// invocation, the name is again one that must not be written. This holds
/// of names that the programs did not treat as lists: the record has no
/// mark for a list.
pub proof fn law_no_clobber_sticky(v: ShadowenvView, n: Seq<char>, next_env: EnvMap)
    requires
        has_record(v),
        v.no_clobber.contains(n),
        !v.lists.contains(n),
        changed(v.unshadowed_env, v.env, n),
    ensures
        unshadowed(next_env, record(v)).1.contains(n),
{
    let r = record(v);
    let snames = sorted_listing(scalar_name_set(v));
    assert(scalar_name_set(v).contains(n));
    assert(snames.contains(n));
    let i = snames.index_of(n);
    assert(r.scalars[i] == scalar_entry(v, n));
    lemma_undo_scalars_marks((next_env, Set::<Seq<char>>::empty()), r.scalars, i);
}

/// While the overlay of the chain is active and the hook is not forced,
/// the hook does nothing.
pub proof fn law_active_overlay_is_kept(hash: u64, data: DataView)
    ensures
        planned(Some(hash), Some(hash), false, data) == PlanView::Nothing,
{
}

/// Where the hook has nothing to do, it does nothing, whatever the record
/// holds after its hash and whatever stands at the places of the tokens.
pub proof fn law_nothing_to_do_reads_nothing(
    text: Seq<char>,
    chain: Seq<SourceView>,
    force: bool,
    secret: Seq<u8>,
    roots: Seq<TrustProbeView>,
)
    requires
        previous_hash(hash_part(text)) matches Some(prev) && nothing_to_do(
            prev,
            target_of(chain),
            force,
        ),
    ensures
        hook_outcome(text, chain, force, secret, roots) == Ok::<PlanView, HookErrorView>(
            PlanView::Nothing,
        ),
{
}

/// A chain is activated only where every directory of it holds a program
/// directory whose token was looked for and is valid, and every other
/// program directory that was looked at is trusted too: so a program is
/// evaluated only where the whole chain is trusted.
pub proof fn law_only_a_trusted_chain_is_activated(
    text: Seq<char>,
    chain: Seq<SourceView>,
    force: bool,
    secret: Seq<u8>,
    roots: Seq<TrustProbeView>,
)
    requires
        hook_outcome(text, chain, force, secret, roots) matches Ok(PlanView::Activate { .. }),
    ensures
        forall|j: int|
            0 <= j < roots.len() ==> token_valid(secret, (#[trigger] roots[j]).root, roots[j].token),
        forall|i: int|
            0 <= i < chain.len() ==> exists|j: int|
                0 <= j < roots.len() && holder_of((#[trigger] roots[j]).root) == (
                #[trigger] chain[i]).dir && token_valid(secret, roots[j].root, roots[j].token),
{
    lemma_untrusted_among(secret, roots);
    lemma_unprobed(chain_dirs(chain), roots);
    assert forall|i: int| 0 <= i < chain.len() implies exists|j: int|
        0 <= j < roots.len() && holder_of((#[trigger] roots[j]).root) == (#[trigger] chain[i]).dir
            && token_valid(secret, roots[j].root, roots[j].token) by {
        assert(probed(chain_dirs(chain)[i], roots));
    }
}

/// Where the hook has something to do and a directory keeps the chain from
/// being evaluated, the hook fails and names every such directory.
pub proof fn law_untrusted_chain_is_not_activated(
    text: Seq<char>,
    chain: Seq<SourceView>,
    force: bool,
    secret: Seq<u8>,
    roots: Seq<TrustProbeView>,
)
    requires
        unvouched(secret, chain, roots).len() > 0,
    ensures
        !(hook_outcome(text, chain, force, secret, roots) matches Ok(PlanView::Activate { .. })),
        previous_hash(hash_part(text)) matches Some(prev) && !nothing_to_do(
            prev,
            target_of(chain),
            force,
        ) ==> hook_outcome(text, chain, force, secret, roots) == Err::<PlanView, HookErrorView>(
            HookErrorView::NotTrusted(unvouched(secret, chain, roots)),
        ),
{
}

} // verus!
