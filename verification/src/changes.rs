//! A summary of an undo record: how many variables it added, removed and
//! updated.

use crate::digits::{decimal, decimal_text};
use crate::text::{push_all, string_of};
use crate::undo::{carried_record, load_record, Data, DataView, ListView, Scalar, ScalarView};
use vstd::prelude::*;

verus! {

/// The record could not be read.
#[derive(Debug, PartialEq, Eq)]
pub struct ChangesError;

/// How many variables a record added, removed and updated.
#[derive(PartialEq, Eq, Debug)]
pub struct Changes {
    pub added: usize,
    pub removed: usize,
    pub updated: usize,
}

/// How a variable changed.
#[derive(Debug, PartialEq, Eq, Clone, Copy)]
pub enum ChangeType {
    Added,
    Removed,
    Updated,
    Unchanged,
}

/// How a scalar changed its variable. A variable that was unset or empty
/// and now has a value was added; one that had a value and is now unset or
/// empty was removed; one with another value was updated.
pub open spec fn kind_of(s: ScalarView) -> ChangeType {
    match (s.original, s.current) {
        (None, None) => ChangeType::Unchanged,
        (None, Some(_)) => ChangeType::Added,
        (Some(_), None) => ChangeType::Removed,
        (Some(a), Some(b)) => if a == b {
            ChangeType::Unchanged
        } else if a.len() == 0 {
            ChangeType::Added
        } else if b.len() == 0 {
            ChangeType::Removed
        } else {
            ChangeType::Updated
        },
    }
}

/// How many scalars changed their variable in the given way.
pub open spec fn count_kind(scalars: Seq<ScalarView>, kind: ChangeType) -> nat
    decreases scalars.len(),
{
    if scalars.len() == 0 {
        0
    } else {
        count_kind(scalars.drop_last(), kind) + if kind_of(scalars.last()) == kind {
            1nat
        } else {
            0nat
        }
    }
}

/// Whether a list changed anything.
pub open spec fn list_changed(l: ListView) -> bool {
    l.additions.len() != 0 || l.deletions.len() != 0
}

/// How many lists changed anything.
pub open spec fn count_lists(lists: Seq<ListView>) -> nat
    decreases lists.len(),
{
    if lists.len() == 0 {
        0
    } else {
        count_lists(lists.drop_last()) + if list_changed(lists.last()) {
            1nat
        } else {
            0nat
        }
    }
}

/// The summary as it is shown.
pub open spec fn changes_text(added: nat, removed: nat, updated: nat) -> Seq<char> {
    seq!['+'] + decimal_text(added) + seq![' ', '-'] + decimal_text(removed) + seq![' ', '^']
        + decimal_text(updated)
}

/// How has this environment variable changed?
pub fn change_type(v: &Scalar) -> (r: ChangeType)
    ensures
        r == kind_of(v@),
{
    match &v.original {
        None => match &v.current {
            None => ChangeType::Unchanged,
            Some(_) => ChangeType::Added,
        },
        Some(a) => match &v.current {
            None => ChangeType::Removed,
            Some(b) => {
                if crate::text::text_eq(a.as_str(), b.as_str()) {
                    ChangeType::Unchanged
                } else if a.as_str().is_empty() {
                    ChangeType::Added
                } else if b.as_str().is_empty() {
                    ChangeType::Removed
                } else {
                    ChangeType::Updated
                }
            },
        },
    }
}

/// The three kinds of change do not count more scalars than there are.
proof fn lemma_count_kind_bound(scalars: Seq<ScalarView>)
    ensures
        count_kind(scalars, ChangeType::Added) + count_kind(scalars, ChangeType::Removed)
            + count_kind(scalars, ChangeType::Updated) <= scalars.len(),
    decreases scalars.len(),
{
    if scalars.len() > 0 {
        lemma_count_kind_bound(scalars.drop_last());
    }
}

impl Changes {
    /// The summary as it is shown: `+added -removed ^updated`.
    pub fn to_string(&self) -> (r: String)
        ensures
            r@ == changes_text(self.added as nat, self.removed as nat, self.updated as nat),
    {
        let mut out: Vec<char> = Vec::new();
        out.push('+');
        push_all(&mut out, &decimal(self.added as u64));
        out.push(' ');
        out.push('-');
        push_all(&mut out, &decimal(self.removed as u64));
        out.push(' ');
        out.push('^');
        push_all(&mut out, &decimal(self.updated as u64));
        assert(out@ =~= changes_text(self.added as nat, self.removed as nat, self.updated as nat));
        string_of(&out)
    }
}

/// The smaller of a number and the largest that a counter holds.
pub open spec fn capped(n: nat) -> nat {
    if n <= usize::MAX {
        n
    } else {
        usize::MAX as nat
    }
}

/// The summary that a record has.
pub open spec fn summary_of(d: DataView) -> (nat, nat, nat) {
    (
        count_kind(d.scalars, ChangeType::Added),
        count_kind(d.scalars, ChangeType::Removed),
        capped((count_kind(d.scalars, ChangeType::Updated) + count_lists(d.lists)) as nat),
    )
}

/// The summary of a record. The counter of updates stops at the largest
/// number that it holds.
pub fn summarize(data: &Data) -> (r: Changes)
    ensures
        (r.added as nat, r.removed as nat, r.updated as nat) == summary_of(data@),
{
    let mut changes = Changes { added: 0, removed: 0, updated: 0 };
    let ghost scalars = data@.scalars;
    let mut i: usize = 0;
    assert(scalars.take(0) =~= Seq::<ScalarView>::empty());
    while i < data.scalars.len()
        invariant
            i <= data.scalars.len(),
            scalars == data@.scalars,
            changes.added == count_kind(scalars.take(i as int), ChangeType::Added),
            changes.removed == count_kind(scalars.take(i as int), ChangeType::Removed),
            changes.updated == count_kind(scalars.take(i as int), ChangeType::Updated),
        decreases data.scalars.len() - i,
    {
        proof {
            assert(scalars.take(i + 1).drop_last() =~= scalars.take(i as int));
            assert(scalars.take(i + 1).last() == data.scalars@[i as int]@);
            lemma_count_kind_bound(scalars.take(i as int));
        }
        match change_type(&data.scalars[i]) {
            ChangeType::Added => {
                changes.added = changes.added + 1;
            },
            ChangeType::Updated => {
                changes.updated = changes.updated + 1;
            },
            ChangeType::Removed => {
                changes.removed = changes.removed + 1;
            },
            ChangeType::Unchanged => {},
        }
        i = i + 1;
    }
    let ghost lists = data@.lists;
    let ghost base = changes.updated;
    let mut updated: usize = changes.updated;
    let mut k: usize = 0;
    proof {
        assert(scalars.take(data.scalars.len() as int) =~= scalars);
        assert(lists.take(0) =~= Seq::<ListView>::empty());
    }
    while k < data.lists.len()
        invariant
            k <= data.lists.len(),
            lists == data@.lists,
            updated == capped((base + count_lists(lists.take(k as int))) as nat),
        decreases data.lists.len() - k,
    {
        proof {
            assert(lists.take(k + 1).drop_last() =~= lists.take(k as int));
            assert(lists.take(k + 1).last() == data.lists@[k as int]@);
        }
        let l = &data.lists[k];
        if l.additions.len() != 0 || l.deletions.len() != 0 {
            if updated < usize::MAX {
                updated = updated + 1;
            }
        }
        k = k + 1;
    }
    proof {
        assert(lists.take(data.lists.len() as int) =~= lists);
    }
    changes.updated = updated;
    changes
}

/// Output a simple summary of the changes that a carried record holds. The
/// hash of the record is not looked at.
pub fn run(shadowenv_data: String) -> (r: Result<Changes, ChangesError>)
    ensures
        match carried_record(shadowenv_data@) {
            Ok(d) => r is Ok && (
                r->Ok_0.added as nat,
                r->Ok_0.removed as nat,
                r->Ok_0.updated as nat,
            ) == summary_of(d),
            Err(_) => r is Err,
        },
{
    match load_record(shadowenv_data.as_str()) {
        Ok(d) => Ok(summarize(&d)),
        Err(_) => Err(ChangesError),
    }
}

} // verus!
