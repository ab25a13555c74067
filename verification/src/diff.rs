//! The changes of an undo record shown line by line, as a diff of the
//! environment.

use crate::env::{
    lemma_selects_all, lemma_selects_next, lemma_selects_none, selects, sorted_listing,
    strictly_sorted, NameSet,
};
use crate::pathlist::has_element;
use crate::text::{
    chars_of, copy_chars, join, join_with, lemma_texts_push, pair_texts, push_all, push_text, split,
    split_on, string_of, string_texts, text_eq, texts,
};
use crate::undo::{carried_record, load_record, Data, DataView, List, ListView, Scalar, ScalarView};
use vstd::prelude::*;

verus! {

/// A logger that keeps what it is told to print.
#[derive(Debug, Default)]
pub struct DummyLogger(pub Vec<String>);

impl DummyLogger {
    /// Keeps a line.
    pub fn print(&mut self, value: String)
        ensures
            final(self).0@ == old(self).0@.push(value),
    {
        self.0.push(value);
    }
}

/// The line for a value that the overlay brought.
pub open spec fn add_line(name: Seq<char>, value: Seq<char>, color: bool) -> Seq<char> {
    if color {
        "\x1b[92m+ "@ + name + seq!['='] + value + "\x1b[0m\x1b[K"@
    } else {
        "+ "@ + name + seq!['='] + value
    }
}

/// The line for a value that the overlay took away.
pub open spec fn remove_line(name: Seq<char>, value: Seq<char>, color: bool) -> Seq<char> {
    if color {
        "\x1b[91m- "@ + name + seq!['='] + value + "\x1b[0m\x1b[K"@
    } else {
        "- "@ + name + seq!['='] + value
    }
}

/// The line for a variable that the overlay left alone.
pub open spec fn verbose_line(name: Seq<char>, value: Seq<char>) -> Seq<char> {
    "  "@ + name + seq!['='] + value
}

/// The lines for a scalar: one for its original value and one for its
/// current value, as far as it has them.
pub open spec fn scalar_lines(s: ScalarView, color: bool) -> Seq<Seq<char>> {
    (match s.original {
        Some(v) => seq![remove_line(s.name, v, color)],
        None => Seq::empty(),
    }) + (match s.current {
        Some(v) => seq![add_line(s.name, v, color)],
        None => Seq::empty(),
    })
}

/// `items` without its leading run of elements that are among `members`.
pub open spec fn drop_members(items: Seq<Seq<char>>, members: Seq<Seq<char>>) -> Seq<Seq<char>>
    decreases items.len(),
{
    if items.len() > 0 && members.contains(items[0]) {
        drop_members(items.drop_first(), members)
    } else {
        items
    }
}

/// A deletion as it is shown.
pub open spec fn shown_deletion(x: Seq<char>, color: bool) -> Seq<char> {
    if color {
        "\x1b[48;5;52m"@ + x + "\x1b[0;91m"@
    } else {
        x
    }
}

/// An element of the current value as it is shown.
pub open spec fn shown_element(x: Seq<char>, additions: Seq<Seq<char>>, color: bool) -> Seq<char> {
    if additions.contains(x) && color {
        "\x1b[48;5;22m"@ + x + "\x1b[0;92m"@
    } else {
        x
    }
}

/// The value that a list had before, as far as the record tells: its
/// deletions, and then its current elements from the first one on that is
/// no addition.
pub open spec fn list_before(l: ListView, current: Seq<char>, color: bool) -> Seq<char> {
    let prefix = join_with(l.deletions.map_values(|x: Seq<char>| shown_deletion(x, color)), ':');
    let suffix = join_with(drop_members(split_on(current, ':'), l.additions), ':');
    if suffix.len() > 0 && prefix.len() > 0 {
        prefix + seq![':'] + suffix
    } else {
        prefix + suffix
    }
}

/// The value that a list has now.
pub open spec fn list_after(l: ListView, current: Seq<char>, color: bool) -> Seq<char> {
    join_with(
        split_on(current, ':').map_values(|x: Seq<char>| shown_element(x, l.additions, color)),
        ':',
    )
}

/// The lines for a list: one for what it was and one for what it is.
pub open spec fn list_lines(l: ListView, current: Seq<char>, color: bool) -> Seq<Seq<char>> {
    seq![
        remove_line(l.name, list_before(l, current, color), color),
        add_line(l.name, list_after(l, current, color), color),
    ]
}

/// The last scalar with the given name.
pub open spec fn last_scalar(scalars: Seq<ScalarView>, name: Seq<char>) -> Option<ScalarView>
    decreases scalars.len(),
{
    if scalars.len() == 0 {
        None
    } else if scalars.last().name == name {
        Some(scalars.last())
    } else {
        last_scalar(scalars.drop_last(), name)
    }
}

/// The last list with the given name.
pub open spec fn last_list(lists: Seq<ListView>, name: Seq<char>) -> Option<ListView>
    decreases lists.len(),
{
    if lists.len() == 0 {
        None
    } else if lists.last().name == name {
        Some(lists.last())
    } else {
        last_list(lists.drop_last(), name)
    }
}

/// How far the diff has come: the lines so far, and the names whose scalar
/// and whose list have been shown.
pub ghost struct Progress {
    pub lines: Seq<Seq<char>>,
    pub scalars_shown: Set<Seq<char>>,
    pub lists_shown: Set<Seq<char>>,
}

/// The diff after one more variable of the environment: the variable shows
/// its scalar, where it has one that was not shown; else its list, where it
/// has one that was not shown; else itself, where all variables are wanted.
pub open spec fn after_variable(
    p: Progress,
    d: DataView,
    name: Seq<char>,
    value: Seq<char>,
    verbose: bool,
    color: bool,
) -> Progress {
    if last_scalar(d.scalars, name) is Some && !p.scalars_shown.contains(name) {
        Progress {
            lines: p.lines + scalar_lines(last_scalar(d.scalars, name).unwrap(), color),
            scalars_shown: p.scalars_shown.insert(name),
            ..p
        }
    } else if last_list(d.lists, name) is Some && !p.lists_shown.contains(name) {
        Progress {
            lines: p.lines + list_lines(last_list(d.lists, name).unwrap(), value, color),
            lists_shown: p.lists_shown.insert(name),
            ..p
        }
    } else if verbose {
        Progress { lines: p.lines.push(verbose_line(name, value)), ..p }
    } else {
        p
    }
}

/// The diff after the variables of the environment, in their order.
pub open spec fn after_variables(
    p: Progress,
    d: DataView,
    vars: Seq<(Seq<char>, Seq<char>)>,
    verbose: bool,
    color: bool,
) -> Progress
    decreases vars.len(),
{
    if vars.len() == 0 {
        p
    } else {
        after_variables(
            after_variable(p, d, vars[0].0, vars[0].1, verbose, color),
            d,
            vars.drop_first(),
            verbose,
            color,
        )
    }
}

/// The lines of the scalars with the given names.
pub open spec fn remaining_scalar_lines(d: DataView, names: Seq<Seq<char>>, color: bool) -> Seq<
    Seq<char>,
>
    decreases names.len(),
{
    if names.len() == 0 {
        Seq::empty()
    } else {
        remaining_scalar_lines(d, names.drop_last(), color) + scalar_lines(
            last_scalar(d.scalars, names.last()).unwrap(),
            color,
        )
    }
}

/// The lines of the lists with the given names, which the environment
/// does not hold.
pub open spec fn remaining_list_lines(d: DataView, names: Seq<Seq<char>>, color: bool) -> Seq<
    Seq<char>,
>
    decreases names.len(),
{
    if names.len() == 0 {
        Seq::empty()
    } else {
        remaining_list_lines(d, names.drop_last(), color) + list_lines(
            last_list(d.lists, names.last()).unwrap(),
            Seq::empty(),
            color,
        )
    }
}

/// The names of the scalars of a record.
pub open spec fn scalar_names(d: DataView) -> Set<Seq<char>> {
    Set::new(|n: Seq<char>| last_scalar(d.scalars, n) is Some)
}

/// The names of the lists of a record.
pub open spec fn list_names(d: DataView) -> Set<Seq<char>> {
    Set::new(|n: Seq<char>| last_list(d.lists, n) is Some)
}

/// The diff of a record against the variables of an environment: first
/// what the variables show, in their order, then the scalars that no
/// variable showed, and then the lists that no variable showed, both in
/// the order of their names.
pub open spec fn diff_lines(
    d: DataView,
    vars: Seq<(Seq<char>, Seq<char>)>,
    verbose: bool,
    color: bool,
) -> Seq<Seq<char>> {
    let p = after_variables(
        Progress { lines: Seq::empty(), scalars_shown: Set::empty(), lists_shown: Set::empty() },
        d,
        vars,
        verbose,
        color,
    );
    p.lines + remaining_scalar_lines(
        d,
        sorted_listing(scalar_names(d).difference(p.scalars_shown)),
        color,
    ) + remaining_list_lines(d, sorted_listing(list_names(d).difference(p.lists_shown)), color)
}

/// A line: a head, a name, an equals sign, a value, and a tail.
fn line_of(head: &str, name: &str, value: &str, tail: &str) -> (r: String)
    ensures
        r@ == head@ + name@ + seq!['='] + value@ + tail@,
{
    let mut out: Vec<char> = Vec::new();
    push_text(&mut out, head);
    push_text(&mut out, name);
    out.push('=');
    push_text(&mut out, value);
    push_text(&mut out, tail);
    assert(out@ =~= head@ + name@ + seq!['='] + value@ + tail@);
    string_of(&out)
}

/// Prints the line for a value that the overlay brought.
pub fn diff_add(logger: &mut DummyLogger, name: &str, value: &str, color: bool)
    ensures
        string_texts(final(logger).0@) == string_texts(old(logger).0@).push(
            add_line(name@, value@, color),
        ),
{
    let ghost before = logger.0@;
    let line = if color {
        line_of("\x1b[92m+ ", name, value, "\x1b[0m\x1b[K")
    } else {
        let l = line_of("+ ", name, value, "");
        assert(l@ =~= add_line(name@, value@, false)) by {
            crate::text::lemma_empty_literal();
        }
        l
    };
    logger.print(line);
    proof {
        crate::text::lemma_string_texts_push(before, line);
    }
}

/// Prints the line for a value that the overlay took away.
pub fn diff_remove(logger: &mut DummyLogger, name: &str, value: &str, color: bool)
    ensures
        string_texts(final(logger).0@) == string_texts(old(logger).0@).push(
            remove_line(name@, value@, color),
        ),
{
    let ghost before = logger.0@;
    let line = if color {
        line_of("\x1b[91m- ", name, value, "\x1b[0m\x1b[K")
    } else {
        let l = line_of("- ", name, value, "");
        assert(l@ =~= remove_line(name@, value@, false)) by {
            crate::text::lemma_empty_literal();
        }
        l
    };
    logger.print(line);
    proof {
        crate::text::lemma_string_texts_push(before, line);
    }
}

/// Prints the line for a variable that the overlay left alone.
pub fn print_verbose(logger: &mut DummyLogger, name: &str, value: &str)
    ensures
        string_texts(final(logger).0@) == string_texts(old(logger).0@).push(
            verbose_line(name@, value@),
        ),
{
    let ghost before = logger.0@;
    let line = line_of("  ", name, value, "");
    proof {
        crate::text::lemma_empty_literal();
        assert(line@ =~= verbose_line(name@, value@));
    }
    logger.print(line);
    proof {
        crate::text::lemma_string_texts_push(before, line);
    }
}

/// Prints the lines for a scalar.
pub fn diff_scalar(logger: &mut DummyLogger, scalar: &Scalar, color: bool)
    ensures
        string_texts(final(logger).0@) == string_texts(old(logger).0@) + scalar_lines(
            scalar@,
            color,
        ),
{
    let ghost before = string_texts(logger.0@);
    match &scalar.original {
        Some(value) => {
            diff_remove(logger, scalar.name.as_str(), value.as_str(), color);
        },
        None => {},
    }
    match &scalar.current {
        Some(value) => {
            diff_add(logger, scalar.name.as_str(), value.as_str(), color);
        },
        None => {},
    }
    assert(string_texts(logger.0@) =~= before + scalar_lines(scalar@, color));
}

/// Lemma: dropping the leading members, by the length of the run.
proof fn lemma_drop_members_at(items: Seq<Seq<char>>, members: Seq<Seq<char>>, k: int)
    requires
        0 <= k <= items.len(),
        forall|j: int| 0 <= j < k ==> members.contains(#[trigger] items[j]),
        k < items.len() ==> !members.contains(items[k]),
    ensures
        drop_members(items, members) == items.skip(k),
    decreases items.len(),
{
    if k == 0 {
        assert(items.skip(0) =~= items);
    } else {
        let rest = items.drop_first();
        assert(members.contains(items[0]));
        assert forall|j: int| 0 <= j < k - 1 implies members.contains(#[trigger] rest[j]) by {
            assert(rest[j] == items[j + 1]);
        }
        lemma_drop_members_at(rest, members, k - 1);
        assert(rest.skip(k - 1) =~= items.skip(k));
    }
}

/// Strings as texts.
fn texts_of_strings(items: &Vec<String>) -> (out: Vec<Vec<char>>)
    ensures
        texts(out@) == string_texts(items@),
{
    let mut out: Vec<Vec<char>> = Vec::new();
    let mut i: usize = 0;
    while i < items.len()
        invariant
            i <= items.len(),
            out@.len() == i,
            forall|k: int| 0 <= k < i ==> out@[k]@ == items@[k]@,
        decreases items.len() - i,
    {
        out.push(chars_of(items[i].as_str()));
        i = i + 1;
    }
    assert(texts(out@) =~= string_texts(items@));
    out
}

/// Prints the lines for a list, given the value that the list has now.
pub fn diff_list(logger: &mut DummyLogger, list: &List, current: &str, color: bool)
    ensures
        string_texts(final(logger).0@) == string_texts(old(logger).0@) + list_lines(
            list@,
            current@,
            color,
        ),
{
    let ghost before = string_texts(logger.0@);
    let additions = texts_of_strings(&list.additions);
    let deletions = texts_of_strings(&list.deletions);
    let mut formatted: Vec<Vec<char>> = Vec::new();
    let mut i: usize = 0;
    while i < deletions.len()
        invariant
            i <= deletions.len(),
            formatted@.len() == i,
            forall|k: int|
                0 <= k < i ==> (#[trigger] formatted@[k])@ == shown_deletion(deletions@[k]@, color),
        decreases deletions.len() - i,
    {
        let mut piece: Vec<char> = Vec::new();
        if color {
            push_text(&mut piece, "\x1b[48;5;52m");
            push_all(&mut piece, &deletions[i]);
            push_text(&mut piece, "\x1b[0;91m");
            assert(piece@ =~= shown_deletion(deletions@[i as int]@, color));
        } else {
            push_all(&mut piece, &deletions[i]);
            assert(piece@ =~= shown_deletion(deletions@[i as int]@, color));
        }
        formatted.push(piece);
        i = i + 1;
    }
    assert(texts(formatted@) =~= list@.deletions.map_values(
        |x: Seq<char>| shown_deletion(x, color),
    ));
    let mut prefix = join(&formatted, ':');
    let items = split(&chars_of(current), ':');
    let mut k: usize = 0;
    while k < items.len() && has_element(&additions, &items[k])
        invariant
            k <= items.len(),
            forall|j: int| 0 <= j < k ==> texts(additions@).contains(#[trigger] texts(items@)[j]),
        decreases items.len() - k,
    {
        k = k + 1;
    }
    proof {
        if k < items.len() {
            assert(texts(items@)[k as int] == items@[k as int]@);
        }
        lemma_drop_members_at(texts(items@), texts(additions@), k as int);
    }
    let mut rest: Vec<Vec<char>> = Vec::new();
    let mut j: usize = k;
    while j < items.len()
        invariant
            k <= j <= items.len(),
            texts(rest@) == texts(items@).subrange(k as int, j as int),
        decreases items.len() - j,
    {
        let ghost done = rest@;
        let piece = copy_chars(&items[j]);
        rest.push(piece);
        proof {
            lemma_texts_push(done, piece);
            assert(texts(items@).subrange(k as int, j + 1) =~= texts(items@).subrange(
                k as int,
                j as int,
            ).push(items@[j as int]@));
        }
        j = j + 1;
    }
    assert(texts(items@).subrange(k as int, items.len() as int) =~= texts(items@).skip(k as int));
    let suffix = join(&rest, ':');
    if suffix.len() != 0 && prefix.len() != 0 {
        prefix.push(':');
    }
    push_all(&mut prefix, &suffix);
    assert(prefix@ =~= list_before(list@, current@, color));
    let was = string_of(&prefix);
    diff_remove(logger, list.name.as_str(), was.as_str(), color);
    let mut shown: Vec<Vec<char>> = Vec::new();
    let mut i: usize = 0;
    while i < items.len()
        invariant
            i <= items.len(),
            shown@.len() == i,
            forall|n: int|
                0 <= n < i ==> (#[trigger] shown@[n])@ == shown_element(
                    items@[n]@,
                    texts(additions@),
                    color,
                ),
        decreases items.len() - i,
    {
        let mut piece: Vec<char> = Vec::new();
        if has_element(&additions, &items[i]) && color {
            push_text(&mut piece, "\x1b[48;5;22m");
            push_all(&mut piece, &items[i]);
            push_text(&mut piece, "\x1b[0;92m");
            assert(piece@ =~= shown_element(items@[i as int]@, texts(additions@), color));
        } else {
            push_all(&mut piece, &items[i]);
            assert(piece@ =~= shown_element(items@[i as int]@, texts(additions@), color));
        }
        shown.push(piece);
        i = i + 1;
    }
    assert(texts(shown@) =~= split_on(current@, ':').map_values(
        |x: Seq<char>| shown_element(x, list@.additions, color),
    ));
    let newline = string_of(&join(&shown, ':'));
    diff_add(logger, list.name.as_str(), newline.as_str(), color);
    assert(string_texts(logger.0@) =~= before + list_lines(list@, current@, color));
}

/// The last scalar with the given name.
pub fn find_scalar<'a>(data: &'a Data, name: &str) -> (r: Option<&'a Scalar>)
    ensures
        match r {
            Some(s) => last_scalar(data@.scalars, name@) == Some(s@),
            None => last_scalar(data@.scalars, name@) is None,
        },
{
    let ghost all = data@.scalars;
    let mut i: usize = data.scalars.len();
    assert(all.take(i as int) =~= all);
    while i > 0
        invariant
            i <= data.scalars.len(),
            all == data@.scalars,
            last_scalar(all, name@) == last_scalar(all.take(i as int), name@),
        decreases i,
    {
        i = i - 1;
        let s = &data.scalars[i];
        proof {
            assert(all.take(i + 1).last() == s@);
            assert(all.take(i + 1).drop_last() =~= all.take(i as int));
        }
        if text_eq(s.name.as_str(), name) {
            return Some(s);
        }
    }
    None
}

/// The last list with the given name.
pub fn find_list<'a>(data: &'a Data, name: &str) -> (r: Option<&'a List>)
    ensures
        match r {
            Some(l) => last_list(data@.lists, name@) == Some(l@),
            None => last_list(data@.lists, name@) is None,
        },
{
    let ghost all = data@.lists;
    let mut i: usize = data.lists.len();
    assert(all.take(i as int) =~= all);
    while i > 0
        invariant
            i <= data.lists.len(),
            all == data@.lists,
            last_list(all, name@) == last_list(all.take(i as int), name@),
        decreases i,
    {
        i = i - 1;
        let l = &data.lists[i];
        proof {
            assert(all.take(i + 1).last() == l@);
            assert(all.take(i + 1).drop_last() =~= all.take(i as int));
        }
        if text_eq(l.name.as_str(), name) {
            return Some(l);
        }
    }
    None
}

/// A name has a last scalar where some scalar has the name.
proof fn lemma_last_scalar_named(scalars: Seq<ScalarView>, name: Seq<char>)
    ensures
        last_scalar(scalars, name) is Some <==> exists|i: int|
            0 <= i < scalars.len() && (#[trigger] scalars[i]).name == name,
    decreases scalars.len(),
{
    if scalars.len() > 0 {
        let front = scalars.drop_last();
        lemma_last_scalar_named(front, name);
        if scalars.last().name == name {
            assert(scalars[scalars.len() - 1].name == name);
        } else if last_scalar(front, name) is Some {
            let i = choose|i: int| 0 <= i < front.len() && (#[trigger] front[i]).name == name;
            assert(scalars[i].name == name);
        } else if exists|i: int| 0 <= i < scalars.len() && (#[trigger] scalars[i]).name == name {
            let i = choose|i: int| 0 <= i < scalars.len() && (#[trigger] scalars[i]).name == name;
            assert(front[i].name == name);
        }
    }
}

/// A name has a last list where some list has the name.
proof fn lemma_last_list_named(lists: Seq<ListView>, name: Seq<char>)
    ensures
        last_list(lists, name) is Some <==> exists|i: int|
            0 <= i < lists.len() && (#[trigger] lists[i]).name == name,
    decreases lists.len(),
{
    if lists.len() > 0 {
        let front = lists.drop_last();
        lemma_last_list_named(front, name);
        if lists.last().name == name {
            assert(lists[lists.len() - 1].name == name);
        } else if last_list(front, name) is Some {
            let i = choose|i: int| 0 <= i < front.len() && (#[trigger] front[i]).name == name;
            assert(lists[i].name == name);
        } else if exists|i: int| 0 <= i < lists.len() && (#[trigger] lists[i]).name == name {
            let i = choose|i: int| 0 <= i < lists.len() && (#[trigger] lists[i]).name == name;
            assert(front[i].name == name);
        }
    }
}

/// Prints the diff of a record against the variables of an environment.
pub fn diff_data(
    logger: &mut DummyLogger,
    env_vars: &Vec<(String, String)>,
    verbose: bool,
    color: bool,
    data: &Data,
)
    ensures
        string_texts(final(logger).0@) == string_texts(old(logger).0@) + diff_lines(
            data@,
            pair_texts(env_vars@),
            verbose,
            color,
        ),
{
    let ghost start = string_texts(logger.0@);
    let ghost d = data@;
    let ghost vars = pair_texts(env_vars@);
    let mut scalar_set = NameSet::new();
    let mut i: usize = 0;
    while i < data.scalars.len()
        invariant
            i <= data.scalars.len(),
            scalar_set.wf(),
            d == data@,
            forall|n: Seq<char>|
                scalar_set@.contains(n) <==> exists|k: int|
                    0 <= k < i && (#[trigger] d.scalars[k]).name == n,
        decreases data.scalars.len() - i,
    {
        let ghost before = scalar_set@;
        scalar_set.insert(data.scalars[i].name.as_str());
        proof {
            let added = d.scalars[i as int].name;
            assert forall|n: Seq<char>|
                scalar_set@.contains(n) <==> exists|k: int|
                    0 <= k < i + 1 && (#[trigger] d.scalars[k]).name == n by {
                if before.contains(n) {
                    let k = choose|k: int| 0 <= k < i && (#[trigger] d.scalars[k]).name == n;
                    assert(0 <= k < i + 1 && d.scalars[k].name == n);
                }
                if n == added {
                    assert(d.scalars[i as int].name == n);
                }
            }
        }
        i = i + 1;
    }
    let mut list_set = NameSet::new();
    let mut i: usize = 0;
    while i < data.lists.len()
        invariant
            i <= data.lists.len(),
            list_set.wf(),
            d == data@,
            forall|n: Seq<char>|
                list_set@.contains(n) <==> exists|k: int|
                    0 <= k < i && (#[trigger] d.lists[k]).name == n,
        decreases data.lists.len() - i,
    {
        let ghost before = list_set@;
        list_set.insert(data.lists[i].name.as_str());
        proof {
            let added = d.lists[i as int].name;
            assert forall|n: Seq<char>|
                list_set@.contains(n) <==> exists|k: int|
                    0 <= k < i + 1 && (#[trigger] d.lists[k]).name == n by {
                if before.contains(n) {
                    let k = choose|k: int| 0 <= k < i && (#[trigger] d.lists[k]).name == n;
                    assert(0 <= k < i + 1 && d.lists[k].name == n);
                }
                if n == added {
                    assert(d.lists[i as int].name == n);
                }
            }
        }
        i = i + 1;
    }
    proof {
        assert forall|n: Seq<char>| scalar_set@.contains(n) <==> scalar_names(d).contains(n) by {
            lemma_last_scalar_named(d.scalars, n);
        }
        assert(scalar_set@ =~= scalar_names(d));
        assert forall|n: Seq<char>| list_set@.contains(n) <==> list_names(d).contains(n) by {
            lemma_last_list_named(d.lists, n);
        }
        assert(list_set@ =~= list_names(d));
    }
    let mut scalars_shown = NameSet::new();
    let mut lists_shown = NameSet::new();
    let ghost first = Progress {
        lines: Seq::empty(),
        scalars_shown: Set::empty(),
        lists_shown: Set::empty(),
    };
    let mut i: usize = 0;
    proof {
        assert(vars.skip(0) =~= vars);
        assert(string_texts(logger.0@).skip(start.len() as int) =~= Seq::<Seq<char>>::empty());
        assert(string_texts(logger.0@).take(start.len() as int) =~= start);
    }
    while i < env_vars.len()
        invariant
            i <= env_vars.len(),
            d == data@,
            scalars_shown.wf(),
            lists_shown.wf(),
            vars == pair_texts(env_vars@),
            after_variables(first, d, vars, verbose, color) == after_variables(
                Progress {
                    lines: string_texts(logger.0@).skip(start.len() as int),
                    scalars_shown: scalars_shown@,
                    lists_shown: lists_shown@,
                },
                d,
                vars.skip(i as int),
                verbose,
                color,
            ),
            start.len() <= string_texts(logger.0@).len(),
            string_texts(logger.0@).take(start.len() as int) == start,
        decreases env_vars.len() - i,
    {
        let pair = &env_vars[i];
        let ghost p = Progress {
            lines: string_texts(logger.0@).skip(start.len() as int),
            scalars_shown: scalars_shown@,
            lists_shown: lists_shown@,
        };
        let ghost before = string_texts(logger.0@);
        proof {
            assert(vars.skip(i as int)[0] == (pair.0@, pair.1@));
            assert(vars.skip(i as int).drop_first() =~= vars.skip(i + 1));
        }
        let scalar = find_scalar(data, pair.0.as_str());
        let mut shown = false;
        match scalar {
            Some(s) => {
                if !scalars_shown.contains(pair.0.as_str()) {
                    diff_scalar(logger, s, color);
                    scalars_shown.insert(pair.0.as_str());
                    shown = true;
                }
            },
            None => {},
        }
        if !shown {
            match find_list(data, pair.0.as_str()) {
                Some(l) => {
                    if !lists_shown.contains(pair.0.as_str()) {
                        diff_list(logger, l, pair.1.as_str(), color);
                        lists_shown.insert(pair.0.as_str());
                        shown = true;
                    }
                },
                None => {},
            }
        }
        if !shown && verbose {
            print_verbose(logger, pair.0.as_str(), pair.1.as_str());
        }
        proof {
            let q = after_variable(p, d, pair.0@, pair.1@, verbose, color);
            let now = string_texts(logger.0@);
            assert(now.skip(start.len() as int) =~= q.lines);
            assert(now.take(start.len() as int) =~= start);
            assert(scalars_shown@ == q.scalars_shown);
            assert(lists_shown@ == q.lists_shown);
        }
        i = i + 1;
    }
    let ghost p = Progress {
        lines: string_texts(logger.0@).skip(start.len() as int),
        scalars_shown: scalars_shown@,
        lists_shown: lists_shown@,
    };
    proof {
        assert(vars.skip(env_vars.len() as int) =~= Seq::<(Seq<char>, Seq<char>)>::empty());
        assert(after_variables(first, d, vars, verbose, color) == p);
        assert(string_texts(logger.0@) =~= start + p.lines);
        scalar_set.lemma_listing();
        list_set.lemma_listing();
    }
    let ghost listing = scalar_set.listing();
    let ghost keep = scalar_names(d).difference(p.scalars_shown);
    let ghost mut rest: Seq<Seq<char>> = Seq::empty();
    let ghost middle = string_texts(logger.0@);
    let mut i: usize = 0;
    proof {
        lemma_selects_none(listing, keep);
        assert(middle + remaining_scalar_lines(d, rest, color) =~= middle);
    }
    while i < scalar_set.len()
        invariant
            i <= listing.len(),
            d == data@,
            scalar_set.wf(),
            scalars_shown.wf(),
            listing == scalar_set.listing(),
            strictly_sorted(listing),
            keep == scalar_names(d).difference(scalars_shown@),
            forall|n: Seq<char>| scalar_names(d).contains(n) <==> listing.contains(n),
            string_texts(logger.0@) == middle + remaining_scalar_lines(d, rest, color),
            selects(rest, listing, i as int, keep),
        decreases listing.len() - i,
    {
        let name = scalar_set.name_at(i);
        proof {
            lemma_selects_next(rest, listing, i as int, keep);
            assert(listing.contains(listing[i as int]));
        }
        if !scalars_shown.contains(name.as_str()) {
            match find_scalar(data, name.as_str()) {
                Some(s) => {
                    let ghost old_rest = rest;
                    diff_scalar(logger, s, color);
                    proof {
                        rest = rest.push(name@);
                        assert(rest.drop_last() =~= old_rest);
                        assert(string_texts(logger.0@) =~= middle + remaining_scalar_lines(
                            d,
                            rest,
                            color,
                        ));
                    }
                },
                None => {},
            }
        }
        i = i + 1;
    }
    proof {
        lemma_selects_all(rest, listing, keep);
    }
    let ghost listing = list_set.listing();
    let ghost keep = list_names(d).difference(p.lists_shown);
    let ghost mut rest: Seq<Seq<char>> = Seq::empty();
    let ghost middle = string_texts(logger.0@);
    let mut i: usize = 0;
    proof {
        lemma_selects_none(listing, keep);
        assert(middle + remaining_list_lines(d, rest, color) =~= middle);
    }
    while i < list_set.len()
        invariant
            i <= listing.len(),
            d == data@,
            list_set.wf(),
            lists_shown.wf(),
            listing == list_set.listing(),
            strictly_sorted(listing),
            keep == list_names(d).difference(lists_shown@),
            forall|n: Seq<char>| list_names(d).contains(n) <==> listing.contains(n),
            string_texts(logger.0@) == middle + remaining_list_lines(d, rest, color),
            selects(rest, listing, i as int, keep),
        decreases listing.len() - i,
    {
        let name = list_set.name_at(i);
        proof {
            lemma_selects_next(rest, listing, i as int, keep);
            assert(listing.contains(listing[i as int]));
        }
        if !lists_shown.contains(name.as_str()) {
            match find_list(data, name.as_str()) {
                Some(l) => {
                    let ghost old_rest = rest;
                    diff_list(logger, l, "", color);
                    proof {
                        crate::text::lemma_empty_literal();
                        rest = rest.push(name@);
                        assert(rest.drop_last() =~= old_rest);
                        assert(string_texts(logger.0@) =~= middle + remaining_list_lines(
                            d,
                            rest,
                            color,
                        ));
                    }
                },
                None => {},
            }
        }
        i = i + 1;
    }
    proof {
        lemma_selects_all(rest, listing, keep);
        assert(string_texts(logger.0@) =~= start + diff_lines(d, vars, verbose, color));
    }
}

/// Prints the diff of a carried record against the variables of an
/// environment. The hash of the record is not looked at. The result is 0,
/// or 1 where the record is malformed, in which case nothing is printed.
pub fn run_with_logger(
    logger: &mut DummyLogger,
    env_vars: Vec<(String, String)>,
    verbose: bool,
    color: bool,
    shadowenv_data: String,
) -> (code: i32)
    ensures
        match carried_record(shadowenv_data@) {
            Ok(d) => code == 0 && string_texts(final(logger).0@) == string_texts(
                old(logger).0@,
            ) + diff_lines(d, pair_texts(env_vars@), verbose, color),
            Err(_) => code == 1 && final(logger).0@ == old(logger).0@,
        },
{
    match load_record(shadowenv_data.as_str()) {
        Ok(d) => {
            diff_data(logger, &env_vars, verbose, color, &d);
            0
        },
        Err(_) => 1,
    }
}

} // verus!
