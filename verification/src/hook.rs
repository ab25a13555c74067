//! The hook: what it decides from the carried record, the chain and the
//! tokens of trust, and how it tells the shell what to change.

use crate::hash::{chain_dirs, chain_hash, source_views, Source, SourceList, SourceView};
use crate::loader::{holder, holder_of, traversal_text, TraversalError, TraversalErrorView};
use crate::output::{
    check_and_trigger_cooldown, check_cooldown_sentinel, cooldown, failure_text, format_hook_error,
    inside, sentinel_name, shorter_than, Cooldown, COOLDOWN_SECONDS, Elapsed,
};
use crate::shadowenv::{export_pairs, pair_views, Shadowenv};
use crate::text::{
    chars_of, join, join_with, push_all, push_text, string_of, string_texts, text_eq, texts,
};
use crate::trust::{
    ensure_dir_tree_trusted, lemma_untrusted_among, not_trusted_text, probe_views, untrusted_among,
    NotTrusted, TrustProbe, TrustProbeView,
};
use crate::undo::{
    carried_record, hash_part, load_previous_hash, load_record, malformed_text, optional_json,
    previous_hash, quoted, Data, DataView, MalformedUndo, MalformedUndoView,
};
use crate::features::optional_text;
use crate::json::quote_json;
use vstd::prelude::*;

verus! {

/// The forms in which the hook tells what to change.
#[derive(Debug, PartialEq, Eq, Clone, Copy)]
pub enum VariableOutputMode {
    Fish,
    Porcelain,
    Posix,
    Json,
    PrettyJson,
}

/// Whether a character needs no quoting in a shell.
pub open spec fn is_plain(c: char) -> bool {
    ('a' <= c <= 'z') || ('A' <= c <= 'Z') || ('0' <= c <= '9') || c == '-' || c == '_' || c == '='
        || c == '/' || c == ',' || c == '.' || c == '+'
}

/// What stands for a character between single quotes: the character; for a
/// single quote and an exclamation mark, the end of the quotes, a backslash,
/// the character, and the beginning of new quotes.
pub open spec fn quoted_piece(c: char) -> Seq<char> {
    if c == '\'' || c == '!' {
        seq!['\'', '\\', c, '\'']
    } else {
        seq![c]
    }
}

/// What stands for a text between single quotes.
pub open spec fn quoted_body(s: Seq<char>) -> Seq<char>
    decreases s.len(),
{
    if s.len() == 0 {
        Seq::empty()
    } else {
        quoted_body(s.drop_last()) + quoted_piece(s.last())
    }
}

/// A text as a word of a shell: itself where it is not empty and all its
/// characters are plain, and otherwise in single quotes.
pub open spec fn shell_escaped(s: Seq<char>) -> Seq<char> {
    if s.len() > 0 && forall|i: int| 0 <= i < s.len() ==> is_plain(#[trigger] s[i]) {
        s
    } else {
        seq!['\''] + quoted_body(s) + seq!['\'']
    }
}

/// Escapes a text for a shell.
///
/// Trusted: `shell_escape::unix::escape`, which hands back a text that is
/// not empty and holds nothing but letters, digits and `-_=/,.+`, and
/// puts any other text in single quotes, in which it writes a single quote
/// and an exclamation mark as `'\''` and `'\!'`.
#[verifier::external_body]
fn unix_escape(s: &str) -> (r: String)
    ensures
        r@ == shell_escaped(s@),
{
    shell_escape::unix::escape(std::borrow::Cow::from(s)).into_owned()
}

/// A text as a word of a shell.
pub fn shell_escape(s: &str) -> (r: String)
    ensures
        r@ == shell_escaped(s@),
{
    unix_escape(s)
}

/// A text with each colon replaced by a quote, a space and a quote.
pub open spec fn colons_spaced(s: Seq<char>) -> Seq<char>
    decreases s.len(),
{
    if s.len() == 0 {
        Seq::empty()
    } else {
        colons_spaced(s.drop_last()) + if s.last() == ':' {
            seq!['\'', ' ', '\'']
        } else {
            seq![s.last()]
        }
    }
}

/// What a POSIX shell is told of one variable.
pub open spec fn posix_line(name: Seq<char>, value: Option<Seq<char>>) -> Seq<char> {
    match value {
        Some(v) => "export "@ + shell_escaped(name) + seq!['='] + shell_escaped(v) + seq!['\n'],
        None => "unset "@ + shell_escaped(name) + seq!['\n'],
    }
}

/// What fish is told of one variable. The elements of `PATH` are words of
/// their own.
pub open spec fn fish_line(name: Seq<char>, value: Option<Seq<char>>) -> Seq<char> {
    match value {
        Some(v) => "set -gx "@ + shell_escaped(name) + seq![' '] + (if name == "PATH"@ {
            colons_spaced(shell_escaped(v))
        } else {
            shell_escaped(v)
        }) + seq!['\n'],
        None => "set -e "@ + shell_escaped(name) + seq!['\n'],
    }
}

/// What a program is told of one variable: a byte that says whether it is
/// set or unset, its name, a field separator, its value where it has one,
/// and a record separator.
pub open spec fn porcelain_record(name: Seq<char>, value: Option<Seq<char>>) -> Seq<char> {
    match value {
        Some(v) => seq!['\x02'] + name + seq!['\x1F'] + v + seq!['\x1E'],
        None => seq!['\x03'] + name + seq!['\x1F', '\x1E'],
    }
}

/// One after the other, what `line` makes of each pair.
pub open spec fn lines_of(
    pairs: Seq<(Seq<char>, Option<Seq<char>>)>,
    line: spec_fn(Seq<char>, Option<Seq<char>>) -> Seq<char>,
) -> Seq<char>
    decreases pairs.len(),
{
    if pairs.len() == 0 {
        Seq::empty()
    } else {
        lines_of(pairs.drop_last(), line) + line(pairs.last().0, pairs.last().1)
    }
}

/// A member of a JSON object for one variable.
pub open spec fn json_member_text(name: Seq<char>, value: Option<Seq<char>>) -> Seq<char> {
    quoted(name) + seq![':'] + optional_json(value)
}

/// A member of a pretty JSON object for one variable.
pub open spec fn pretty_member_text(name: Seq<char>, value: Option<Seq<char>>) -> Seq<char> {
    "    "@ + quoted(name) + ": "@ + optional_json(value)
}

/// The members of the given pairs.
pub open spec fn members_of(
    pairs: Seq<(Seq<char>, Option<Seq<char>>)>,
    member: spec_fn(Seq<char>, Option<Seq<char>>) -> Seq<char>,
) -> Seq<Seq<char>> {
    pairs.map_values(|p: (Seq<char>, Option<Seq<char>>)| member(p.0, p.1))
}

/// The document that tells the changes as compact JSON, with a line end.
pub open spec fn json_document_text(pairs: Seq<(Seq<char>, Option<Seq<char>>)>) -> Seq<char> {
    "{\"schema\":\"v2\",\"exported\":{"@ + join_with(
        members_of(pairs, |n: Seq<char>, v: Option<Seq<char>>| json_member_text(n, v)),
        ',',
    ) + "},\"unexported\":{}}\n"@
}

/// Members of a pretty JSON object, each on a line of its own.
pub open spec fn pretty_joined(members: Seq<Seq<char>>) -> Seq<char>
    decreases members.len(),
{
    if members.len() == 0 {
        Seq::empty()
    } else if members.len() == 1 {
        members[0]
    } else {
        pretty_joined(members.drop_last()) + seq![',', '\n'] + members.last()
    }
}

/// The document that tells the changes as JSON with line ends and an
/// indent of two spaces, with a line end.
pub open spec fn pretty_document_text(pairs: Seq<(Seq<char>, Option<Seq<char>>)>) -> Seq<char> {
    "{\n  \"schema\": \"v2\",\n  \"exported\": {"@ + (if pairs.len() == 0 {
        Seq::empty()
    } else {
        seq!['\n'] + pretty_joined(
            members_of(pairs, |n: Seq<char>, v: Option<Seq<char>>| pretty_member_text(n, v)),
        ) + "\n  "@
    }) + "},\n  \"unexported\": {}\n}\n"@
}

/// What the shell is told in the given form.
pub open spec fn rendered(pairs: Seq<(Seq<char>, Option<Seq<char>>)>, mode: VariableOutputMode) -> Seq<
    char,
> {
    match mode {
        VariableOutputMode::Posix => lines_of(
            pairs,
            |n: Seq<char>, v: Option<Seq<char>>| posix_line(n, v),
        ),
        VariableOutputMode::Fish => lines_of(
            pairs,
            |n: Seq<char>, v: Option<Seq<char>>| fish_line(n, v),
        ),
        VariableOutputMode::Porcelain => lines_of(
            pairs,
            |n: Seq<char>, v: Option<Seq<char>>| porcelain_record(n, v),
        ),
        VariableOutputMode::Json => json_document_text(pairs),
        VariableOutputMode::PrettyJson => pretty_document_text(pairs),
    }
}

/// A text with each colon replaced by a quote, a space and a quote.
pub fn space_colons(s: &str) -> (r: Vec<char>)
    ensures
        r@ == colons_spaced(s@),
{
    let chars = chars_of(s);
    let mut out: Vec<char> = Vec::new();
    let mut i: usize = 0;
    assert(chars@.take(0) =~= Seq::<char>::empty());
    while i < chars.len()
        invariant
            i <= chars.len(),
            out@ == colons_spaced(chars@.take(i as int)),
        decreases chars.len() - i,
    {
        let ghost before = out@;
        proof {
            assert(chars@.take(i + 1).drop_last() =~= chars@.take(i as int));
            assert(chars@.take(i + 1).last() == chars@[i as int]);
        }
        if chars[i] == ':' {
            out.push('\'');
            out.push(' ');
            out.push('\'');
            assert(out@ =~= before + seq!['\'', ' ', '\'']);
        } else {
            out.push(chars[i]);
            assert(out@ =~= before + seq![chars@[i as int]]);
        }
        i = i + 1;
    }
    assert(chars@.take(chars.len() as int) =~= chars@);
    out
}

/// Appends what a POSIX shell is told of one variable.
fn write_posix(out: &mut Vec<char>, name: &str, value: &Option<String>)
    ensures
        final(out)@ == old(out)@ + posix_line(name@, optional_text(*value)),
{
    let ghost before = out@;
    match value {
        Some(v) => {
            push_text(out, "export ");
            push_text(out, shell_escape(name).as_str());
            out.push('=');
            push_text(out, shell_escape(v.as_str()).as_str());
            out.push('\n');
        },
        None => {
            push_text(out, "unset ");
            push_text(out, shell_escape(name).as_str());
            out.push('\n');
        },
    }
    assert(out@ =~= before + posix_line(name@, optional_text(*value)));
}

/// Appends what fish is told of one variable.
fn write_fish(out: &mut Vec<char>, name: &str, value: &Option<String>)
    ensures
        final(out)@ == old(out)@ + fish_line(name@, optional_text(*value)),
{
    let ghost before = out@;
    match value {
        Some(v) => {
            push_text(out, "set -gx ");
            push_text(out, shell_escape(name).as_str());
            out.push(' ');
            let escaped = shell_escape(v.as_str());
            if text_eq(name, "PATH") {
                let spaced = space_colons(escaped.as_str());
                push_all(out, &spaced);
            } else {
                push_text(out, escaped.as_str());
            }
            out.push('\n');
        },
        None => {
            push_text(out, "set -e ");
            push_text(out, shell_escape(name).as_str());
            out.push('\n');
        },
    }
    assert(out@ =~= before + fish_line(name@, optional_text(*value)));
}

/// Appends what a program is told of one variable.
fn write_porcelain(out: &mut Vec<char>, name: &str, value: &Option<String>)
    ensures
        final(out)@ == old(out)@ + porcelain_record(name@, optional_text(*value)),
{
    let ghost before = out@;
    match value {
        Some(v) => {
            out.push('\x02');
            push_text(out, name);
            out.push('\x1F');
            push_text(out, v.as_str());
            out.push('\x1E');
        },
        None => {
            out.push('\x03');
            push_text(out, name);
            out.push('\x1F');
            out.push('\x1E');
        },
    }
    assert(out@ =~= before + porcelain_record(name@, optional_text(*value)));
}

/// The member of a JSON object for one variable, compact or pretty.
fn json_member(name: &str, value: &Option<String>, pretty: bool) -> (m: Vec<char>)
    ensures
        m@ == if pretty {
            pretty_member_text(name@, optional_text(*value))
        } else {
            json_member_text(name@, optional_text(*value))
        },
{
    let mut out: Vec<char> = Vec::new();
    if pretty {
        push_text(&mut out, "    ");
    }
    push_text(&mut out, quote_json(name).as_str());
    if pretty {
        push_text(&mut out, ": ");
    } else {
        out.push(':');
    }
    match value {
        Some(v) => {
            push_text(&mut out, quote_json(v.as_str()).as_str());
        },
        None => {
            push_text(&mut out, "null");
        },
    }
    proof {
        if pretty {
            assert(out@ =~= pretty_member_text(name@, optional_text(*value)));
        } else {
            assert(out@ =~= json_member_text(name@, optional_text(*value)));
        }
    }
    out
}

/// What the shell is told of the given changes, in the given form.
pub fn render(exports: &Vec<(String, Option<String>)>, mode: VariableOutputMode) -> (r: String)
    ensures
        r@ == rendered(pair_views(exports@), mode),
{
    let ghost pairs = pair_views(exports@);
    let mut out: Vec<char> = Vec::new();
    match mode {
        VariableOutputMode::Posix | VariableOutputMode::Fish | VariableOutputMode::Porcelain => {
            let ghost line = match mode {
                VariableOutputMode::Posix => |n: Seq<char>, v: Option<Seq<char>>| posix_line(n, v),
                VariableOutputMode::Fish => |n: Seq<char>, v: Option<Seq<char>>| fish_line(n, v),
                _ => |n: Seq<char>, v: Option<Seq<char>>| porcelain_record(n, v),
            };
            let mut i: usize = 0;
            assert(pairs.take(0) =~= Seq::<(Seq<char>, Option<Seq<char>>)>::empty());
            while i < exports.len()
                invariant
                    i <= exports.len(),
                    pairs == pair_views(exports@),
                    mode is Posix || mode is Fish || mode is Porcelain,
                    line == (match mode {
                        VariableOutputMode::Posix => |n: Seq<char>, v: Option<Seq<char>>|
                            posix_line(n, v),
                        VariableOutputMode::Fish => |n: Seq<char>, v: Option<Seq<char>>|
                            fish_line(n, v),
                        _ => |n: Seq<char>, v: Option<Seq<char>>| porcelain_record(n, v),
                    }),
                    out@ == lines_of(pairs.take(i as int), line),
                decreases exports.len() - i,
            {
                let pair = &exports[i];
                proof {
                    assert(pairs.take(i + 1).drop_last() =~= pairs.take(i as int));
                    assert(pairs.take(i + 1).last() == (pair.0@, optional_text(pair.1)));
                }
                match mode {
                    VariableOutputMode::Posix => write_posix(&mut out, pair.0.as_str(), &pair.1),
                    VariableOutputMode::Fish => write_fish(&mut out, pair.0.as_str(), &pair.1),
                    _ => write_porcelain(&mut out, pair.0.as_str(), &pair.1),
                }
                i = i + 1;
            }
            assert(pairs.take(exports.len() as int) =~= pairs);
            string_of(&out)
        },
        VariableOutputMode::Json | VariableOutputMode::PrettyJson => {
            let pretty = match mode {
                VariableOutputMode::PrettyJson => true,
                _ => false,
            };
            let ghost member = if pretty {
                |n: Seq<char>, v: Option<Seq<char>>| pretty_member_text(n, v)
            } else {
                |n: Seq<char>, v: Option<Seq<char>>| json_member_text(n, v)
            };
            let mut members: Vec<Vec<char>> = Vec::new();
            let mut i: usize = 0;
            while i < exports.len()
                invariant
                    i <= exports.len(),
                    pairs == pair_views(exports@),
                    mode is Json || mode is PrettyJson,
                    members@.len() == i,
                    member == (if pretty {
                        |n: Seq<char>, v: Option<Seq<char>>| pretty_member_text(n, v)
                    } else {
                        |n: Seq<char>, v: Option<Seq<char>>| json_member_text(n, v)
                    }),
                    forall|k: int|
                        0 <= k < i ==> (#[trigger] members@[k])@ == member(pairs[k].0, pairs[k].1),
                decreases exports.len() - i,
            {
                let pair = &exports[i];
                assert(pairs[i as int] == (pair.0@, optional_text(pair.1)));
                members.push(json_member(pair.0.as_str(), &pair.1, pretty));
                i = i + 1;
            }
            assert(texts(members@) =~= members_of(pairs, member));
            if pretty {
                push_text(&mut out, "{\n  \"schema\": \"v2\",\n  \"exported\": {");
                if members.len() > 0 {
                    out.push('\n');
                    let ghost start = out@;
                    let ghost all = texts(members@);
                    let mut k: usize = 0;
                    assert(all.take(0) =~= Seq::<Seq<char>>::empty());
                    assert(start + pretty_joined(all.take(0)) =~= start);
                    while k < members.len()
                        invariant
                            k <= members.len(),
                            all == texts(members@),
                            out@ == start + pretty_joined(all.take(k as int)),
                        decreases members.len() - k,
                    {
                        if k > 0 {
                            out.push(',');
                            out.push('\n');
                        }
                        push_all(&mut out, &members[k]);
                        proof {
                            let next = all.take(k + 1);
                            assert(next.drop_last() =~= all.take(k as int));
                            assert(next.last() == members@[k as int]@);
                            assert(out@ =~= start + pretty_joined(next));
                        }
                        k = k + 1;
                    }
                    assert(all.take(members.len() as int) =~= all);
                    push_text(&mut out, "\n  ");
                }
                push_text(&mut out, "},\n  \"unexported\": {}\n}\n");
                assert(out@ =~= pretty_document_text(pairs));
            } else {
                push_text(&mut out, "{\"schema\":\"v2\",\"exported\":{");
                let joined = join(&members, ',');
                push_all(&mut out, &joined);
                push_text(&mut out, "},\"unexported\":{}}\n");
                assert(out@ =~= json_document_text(pairs));
            }
            string_of(&out)
        },
    }
}

/// What the shell is told to get from its environment to the one that the
/// overlay describes, in the given form.
pub fn apply_env(shadowenv: &Shadowenv, mode: VariableOutputMode) -> (r: String)
    ensures
        r@ == rendered(export_pairs(shadowenv@), mode),
{
    let exports = shadowenv.exports();
    render(&exports, mode)
}

/// What the hook does.
#[derive(Debug, PartialEq, Eq)]
pub enum Plan {
    /// Nothing: no overlay is active and there is no chain, or the overlay
    /// of the chain is active already.
    Nothing,
    /// It undoes the record and evaluates the chain, where there is one,
    /// to an overlay with the given hash.
    Activate { data: Data, target_hash: u64 },
}

/// What the hook does, as plain values.
pub ghost enum PlanView {
    Nothing,
    Activate { data: DataView, target_hash: u64 },
}

impl View for Plan {
    type V = PlanView;

    open spec fn view(&self) -> PlanView {
        match self {
            Plan::Nothing => PlanView::Nothing,
            Plan::Activate { data, target_hash } => PlanView::Activate {
                data: data@,
                target_hash: *target_hash,
            },
        }
    }
}

/// The hash that the hook is to reach: that of the chain, where there is a
/// chain and it has a hash.
pub open spec fn target_of(chain: Seq<SourceView>) -> Option<u64> {
    if chain.len() == 0 {
        None
    } else {
        chain_hash(chain)
    }
}

/// Whether the hook has nothing to do: no overlay is active and there is
/// no chain to activate, or the overlay of the chain is active already and
/// the hook is not forced.
pub open spec fn nothing_to_do(prev: Option<u64>, target: Option<u64>, force: bool) -> bool {
    (prev is None && target is None) || (prev is Some && target is Some && prev == target && !force)
}

/// What the hook does for the hash of the active overlay, the hash that it
/// is to reach, and the record: nothing where neither hash is there, and
/// nothing where both are the same and it is not forced; otherwise it
/// activates, with the hash zero where it only deactivates.
pub open spec fn planned(prev: Option<u64>, target: Option<u64>, force: bool, data: DataView) -> PlanView {
    if nothing_to_do(prev, target, force) {
        PlanView::Nothing
    } else {
        PlanView::Activate {
            data,
            target_hash: match target {
                Some(h) => h,
                None => 0,
            },
        }
    }
}

/// What the hook does, given the carried record as it was read and the
/// hash that the hook is to reach.
pub fn plan(prev_hash: Option<u64>, data: Data, target_hash: Option<u64>, force: bool) -> (r: Plan)
    ensures
        r@ == planned(prev_hash, target_hash, force, data@),
{
    match (prev_hash, target_hash) {
        (None, None) => Plan::Nothing,
        (Some(a), Some(b)) => {
            if a == b && !force {
                Plan::Nothing
            } else {
                Plan::Activate { data, target_hash: b }
            }
        },
        (_, Some(b)) => Plan::Activate { data, target_hash: b },
        (_, None) => Plan::Activate { data, target_hash: 0 },
    }
}

/// The hash that the hook is to reach for a chain.
pub fn target_hash(chain: &SourceList) -> (r: Option<u64>)
    ensures
        r == target_of(chain@),
{
    if chain.is_empty() {
        None
    } else {
        chain.hash()
    }
}

/// Whether the hook has nothing to do.
pub fn is_noop(prev_hash: Option<u64>, target_hash: Option<u64>, force: bool) -> (r: bool)
    ensures
        r == nothing_to_do(prev_hash, target_hash, force),
{
    match (prev_hash, target_hash) {
        (None, None) => true,
        (Some(a), Some(b)) => a == b && !force,
        _ => false,
    }
}

/// Whether what stands at the place of its token was read for the program
/// directory that the directory `dir` holds.
pub open spec fn probed(dir: Seq<char>, roots: Seq<TrustProbeView>) -> bool {
    exists|i: int| 0 <= i < roots.len() && holder_of((#[trigger] roots[i]).root) == dir
}

/// Those of the directories `dirs` for whose program directory no token
/// was looked for, in their order.
pub open spec fn unprobed(dirs: Seq<Seq<char>>, roots: Seq<TrustProbeView>) -> Seq<Seq<char>>
    decreases dirs.len(),
{
    if dirs.len() == 0 {
        Seq::empty()
    } else {
        let rest = unprobed(dirs.drop_last(), roots);
        if probed(dirs.last(), roots) {
            rest
        } else {
            rest.push(dirs.last())
        }
    }
}

/// The directories that keep a chain from being evaluated: the program
/// directories whose token is not valid, and then the directories of the
/// chain for whose program directory no token was looked for.
pub open spec fn unvouched(
    secret: Seq<u8>,
    chain: Seq<SourceView>,
    roots: Seq<TrustProbeView>,
) -> Seq<Seq<char>> {
    untrusted_among(secret, roots) + unprobed(chain_dirs(chain), roots)
}

/// Nothing is left unprobed where every directory is probed, and only
/// there.
pub proof fn lemma_unprobed(dirs: Seq<Seq<char>>, roots: Seq<TrustProbeView>)
    ensures
        unprobed(dirs, roots).len() == 0 <==> forall|i: int|
            0 <= i < dirs.len() ==> probed(#[trigger] dirs[i], roots),
    decreases dirs.len(),
{
    if dirs.len() > 0 {
        let front = dirs.drop_last();
        lemma_unprobed(front, roots);
        if unprobed(dirs, roots).len() == 0 {
            assert forall|i: int| 0 <= i < dirs.len() implies probed(#[trigger] dirs[i], roots) by {
                if i < front.len() {
                    assert(front[i] == dirs[i]);
                }
            }
        } else if forall|i: int| 0 <= i < dirs.len() ==> probed(#[trigger] dirs[i], roots) {
            assert forall|i: int| 0 <= i < front.len() implies probed(
                #[trigger] front[i],
                roots,
            ) by {
                assert(front[i] == dirs[i]);
            }
            assert(probed(dirs[dirs.len() - 1], roots));
        }
    }
}

/// Whether what stands at the place of its token was read for the program
/// directory that the directory `dir` holds.
pub fn is_probed(dir: &str, roots: &Vec<TrustProbe>) -> (r: bool)
    ensures
        r == probed(dir@, probe_views(roots@)),
{
    let ghost probes = probe_views(roots@);
    let mut i: usize = 0;
    while i < roots.len()
        invariant
            i <= roots.len(),
            probes == probe_views(roots@),
            forall|k: int| 0 <= k < i ==> holder_of((#[trigger] probes[k]).root) != dir@,
        decreases roots.len() - i,
    {
        let held_by = holder(roots[i].root.as_str());
        assert(probes[i as int].root == roots@[i as int].root@);
        if text_eq(held_by.as_str(), dir) {
            return true;
        }
        i = i + 1;
    }
    false
}

/// Adds to `found` those directories of a chain for whose program
/// directory no token was looked for.
fn add_unprobed(found: &mut Vec<String>, chain: &SourceList, roots: &Vec<TrustProbe>)
    ensures
        string_texts(final(found)@) == string_texts(old(found)@) + unprobed(
            chain_dirs(chain@),
            probe_views(roots@),
        ),
{
    let dirs = chain.dirs();
    let ghost all = chain_dirs(chain@);
    let ghost before = string_texts(found@);
    let ghost probes = probe_views(roots@);
    let mut i: usize = 0;
    proof {
        assert(all.take(0) =~= Seq::<Seq<char>>::empty());
        assert(before + unprobed(all.take(0), probes) =~= before);
    }
    while i < dirs.len()
        invariant
            i <= dirs.len(),
            string_texts(dirs@) == all,
            probes == probe_views(roots@),
            string_texts(found@) == before + unprobed(all.take(i as int), probes),
        decreases dirs.len() - i,
    {
        let ghost so_far = found@;
        proof {
            assert(all.take(i + 1).drop_last() =~= all.take(i as int));
            assert(all.take(i + 1).last() == dirs@[i as int]@);
        }
        if !is_probed(dirs[i].as_str(), roots) {
            found.push(dirs[i].clone());
            proof {
                assert(string_texts(found@) =~= string_texts(so_far).push(dirs@[i as int]@));
                assert(before + unprobed(all.take(i as int), probes).push(dirs@[i as int]@)
                    =~= (before + unprobed(all.take(i as int), probes)).push(dirs@[i as int]@));
            }
        }
        i = i + 1;
    }
    proof {
        assert(all.take(dirs.len() as int) =~= all);
    }
}

/// What the hook does for a carried record, a chain and what was read at
/// the place of the token of each program directory.
///
/// A malformed hash is a failure. Where the hook then has nothing to do, it
/// does nothing: neither the tokens nor the record are looked at. Else
/// every program directory has to be trusted, and that of every directory
/// of the chain has to be among them: the failure names all that keep the
/// chain from being evaluated. Only then is the record read, and where it
/// is well formed the hook activates, with the hash zero where it only
/// deactivates.
pub open spec fn hook_outcome(
    text: Seq<char>,
    chain: Seq<SourceView>,
    force: bool,
    secret: Seq<u8>,
    roots: Seq<TrustProbeView>,
) -> Result<PlanView, HookErrorView> {
    match previous_hash(hash_part(text)) {
        None => Err(HookErrorView::MalformedUndo(MalformedUndoView::Hash)),
        Some(prev) => if nothing_to_do(prev, target_of(chain), force) {
            Ok(PlanView::Nothing)
        } else if unvouched(secret, chain, roots).len() > 0 {
            Err(HookErrorView::NotTrusted(unvouched(secret, chain, roots)))
        } else {
            match carried_record(text) {
                Ok(data) => Ok(planned(prev, target_of(chain), force, data)),
                Err(e) => Err(HookErrorView::MalformedUndo(e)),
            }
        },
    }
}

/// What the hook does for a carried record, a chain and what was read at
/// the place of the token of each program directory.
pub fn load_env(
    shadowenv_data: &str,
    chain: &SourceList,
    force: bool,
    secret: &[u8; 32],
    roots: &Vec<TrustProbe>,
) -> (r: Result<Plan, HookError>)
    ensures
        match r {
            Ok(p) => hook_outcome(shadowenv_data@, chain@, force, secret@, probe_views(roots@))
                == Ok::<PlanView, HookErrorView>(p@),
            Err(e) => hook_outcome(shadowenv_data@, chain@, force, secret@, probe_views(roots@))
                == Err::<PlanView, HookErrorView>(e@),
        },
{
    let prev = match load_previous_hash(shadowenv_data) {
        Ok(prev) => prev,
        Err(e) => {
            return Err(HookError::MalformedUndo(e));
        },
    };
    let target = target_hash(chain);
    if is_noop(prev, target, force) {
        return Ok(Plan::Nothing);
    }
    proof {
        lemma_untrusted_among(secret@, probe_views(roots@));
    }
    let mut blocking = match ensure_dir_tree_trusted(secret, roots) {
        Ok(_) => Vec::new(),
        Err(e) => e.untrusted_directories,
    };
    proof {
        assert(string_texts(blocking@) =~= untrusted_among(secret@, probe_views(roots@)));
    }
    add_unprobed(&mut blocking, chain, roots);
    if blocking.len() > 0 {
        return Err(HookError::NotTrusted(NotTrusted { untrusted_directories: blocking }));
    }
    proof {
        assert(string_texts(blocking@).len() == 0);
    }
    match load_record(shadowenv_data) {
        Ok(data) => Ok(plan(prev, data, target, force)),
        Err(e) => Err(HookError::MalformedUndo(e)),
    }
}

/// The chain of the program directories that were loaded, the outermost
/// first: `loaded` holds, the nearest directory first, what was loaded of
/// each, `None` for a directory without programs.
pub open spec fn chain_of(loaded: Seq<Option<Source>>) -> Seq<SourceView>
    decreases loaded.len(),
{
    if loaded.len() == 0 {
        Seq::empty()
    } else {
        (match loaded.last() {
            Some(source) => seq![source@],
            None => Seq::empty(),
        }) + chain_of(loaded.drop_last())
    }
}

/// The chain of the program directories that were loaded, the outermost
/// first.
pub fn sources_of(loaded: Vec<Option<Source>>) -> (r: SourceList)
    ensures
        r@ == chain_of(loaded@),
{
    let mut rest = loaded;
    let mut sources: Vec<Source> = Vec::new();
    proof {
        assert(source_views(sources@) + chain_of(rest@) =~= chain_of(loaded@));
    }
    while rest.len() > 0
        invariant
            source_views(sources@) + chain_of(rest@) == chain_of(loaded@),
        decreases rest.len(),
    {
        let ghost before = rest@;
        let ghost done = source_views(sources@);
        let last = rest.pop();
        proof {
            assert(rest@ =~= before.drop_last());
            assert(last == Some(before.last()));
        }
        match last {
            Some(Some(source)) => {
                sources.push(source);
                proof {
                    assert(source_views(sources@) =~= done + seq![source@]);
                    assert(done + seq![source@] + chain_of(rest@) =~= done + (seq![source@]
                        + chain_of(rest@)));
                }
            },
            _ => {
                proof {
                    assert(Seq::<SourceView>::empty() + chain_of(rest@) =~= chain_of(rest@));
                }
            },
        }
    }
    proof {
        assert(source_views(sources@) + chain_of(rest@) =~= source_views(sources@));
    }
    SourceList::new_with_sources(sources)
}

/// Why the hook failed.
#[derive(Debug, PartialEq, Eq)]
pub enum HookError {
    /// No program directory was found.
    NoChain,
    /// Directories of the chain are not trusted.
    NotTrusted(NotTrusted),
    /// A link to a parent is invalid.
    Traversal(TraversalError),
    /// The carried record is malformed.
    MalformedUndo(MalformedUndo),
    /// A program failed; the interpreter has said why.
    Evaluation,
    /// The file system failed; its message.
    Io(String),
    /// The process id of the shell could not be had.
    ShellPidUnavailable,
}

/// Why the hook failed, as plain values.
pub ghost enum HookErrorView {
    NoChain,
    NotTrusted(Seq<Seq<char>>),
    Traversal(TraversalErrorView),
    MalformedUndo(MalformedUndoView),
    Evaluation,
    Io(Seq<char>),
    ShellPidUnavailable,
}

impl View for HookError {
    type V = HookErrorView;

    open spec fn view(&self) -> HookErrorView {
        match self {
            HookError::NoChain => HookErrorView::NoChain,
            HookError::NotTrusted(n) => HookErrorView::NotTrusted(
                string_texts(n.untrusted_directories@),
            ),
            HookError::Traversal(t) => HookErrorView::Traversal(t@),
            HookError::MalformedUndo(m) => HookErrorView::MalformedUndo(m@),
            HookError::Evaluation => HookErrorView::Evaluation,
            HookError::Io(message) => HookErrorView::Io(message@),
            HookError::ShellPidUnavailable => HookErrorView::ShellPidUnavailable,
        }
    }
}

/// How a failure of the hook is reported.
pub open spec fn hook_error_text(e: HookErrorView) -> Seq<char> {
    match e {
        HookErrorView::NoChain => "no shadowenv found"@,
        HookErrorView::NotTrusted(dirs) => not_trusted_text(dirs),
        HookErrorView::Traversal(t) => traversal_text(t),
        HookErrorView::MalformedUndo(m) => malformed_text(m),
        HookErrorView::Evaluation => "error while evaluating shadowlisp"@,
        HookErrorView::Io(message) => message,
        HookErrorView::ShellPidUnavailable => "failed to get ppid"@,
    }
}

/// The index of the kind of a failure among those that have a cooldown:
/// 0 for directories that are not trusted, 1 for an invalid link to a
/// parent; the other failures have none.
pub open spec fn cooldown_index_of(e: HookErrorView) -> Option<u32> {
    match e {
        HookErrorView::NotTrusted(_) => Some(0),
        HookErrorView::Traversal(_) => Some(1),
        _ => None,
    }
}

impl HookError {
    /// The message for the user.
    pub fn to_string(&self) -> (r: String)
        ensures
            r@ == hook_error_text(self@),
    {
        match self {
            HookError::NoChain => String::from_str("no shadowenv found"),
            HookError::NotTrusted(n) => n.to_string(),
            HookError::Traversal(t) => t.to_string(),
            HookError::MalformedUndo(m) => m.to_string(),
            HookError::Evaluation => String::from_str("error while evaluating shadowlisp"),
            HookError::Io(message) => message.clone(),
            HookError::ShellPidUnavailable => String::from_str("failed to get ppid"),
        }
    }
}

/// The index of the kind of a failure among those that have a cooldown.
pub fn cooldown_index(err: &HookError) -> (r: Option<u32>)
    ensures
        r == cooldown_index_of(err@),
{
    match err {
        HookError::NotTrusted(_) => Some(0),
        HookError::Traversal(_) => Some(1),
        _ => None,
    }
}

/// What the hook does about a failure.
#[derive(Debug, PartialEq, Eq)]
pub struct ErrorReport {
    /// The exit code of the hook.
    pub code: i32,
    /// The line to print on standard error, where the failure is reported.
    pub line: Option<String>,
    /// The sentinel to write anew, where the failure is reported and has
    /// a cooldown.
    pub sentinel: Option<String>,
}

/// The sentinel that tells whether a failure is on cooldown: the failure
/// has one where its kind has a cooldown and there is a program directory
/// to keep it in.
pub open spec fn sentinel_of(e: HookErrorView, shellpid: u32, closest_root: Option<Seq<char>>) -> Option<
    Seq<char>,
> {
    match (closest_root, cooldown_index_of(e)) {
        (Some(root), Some(index)) => Some(inside(root, sentinel_name(index, shellpid))),
        _ => None,
    }
}

/// Whether a failure is on cooldown: it has a sentinel, and the sentinel
/// is younger than the cooldown.
pub open spec fn on_cooldown(
    e: HookErrorView,
    shellpid: u32,
    closest_root: Option<Seq<char>>,
    sentinel_age: Option<Elapsed>,
) -> bool {
    sentinel_of(e, shellpid, closest_root) is Some && sentinel_age is Some && shorter_than(
        sentinel_age->Some_0,
        COOLDOWN_SECONDS,
    )
}

/// The path of the sentinel that tells whether a failure is on cooldown,
/// for the shell `shellpid`, where `closest_root` is the program directory
/// nearest to the working directory.
pub fn error_sentinel(err: &HookError, shellpid: u32, closest_root: Option<&str>) -> (r: Option<String>)
    ensures
        optional_text(r) == sentinel_of(
            err@,
            shellpid,
            match closest_root {
                Some(root) => Some(root@),
                None => None,
            },
        ),
{
    match check_and_trigger_cooldown(closest_root, cooldown_index(err), shellpid) {
        Cooldown::Consult(path) => Some(path),
        Cooldown::Report => None,
    }
}

/// What the hook does about a failure, given the age of the sentinel of
/// the failure, `None` where there is no sentinel. The hook ends with the
/// exit code 1. It says nothing where it was told to be silent or the
/// failure is on cooldown. Otherwise it reports the failure, and where the
/// failure has a sentinel, the sentinel is written anew.
pub fn handle_hook_error(
    err: &HookError,
    shellpid: u32,
    silent: bool,
    closest_root: Option<&str>,
    sentinel_age: Option<Elapsed>,
) -> (r: ErrorReport)
    ensures
        r.code == 1,
        ({
            let root = match closest_root {
                Some(root) => Some(root@),
                None => None,
            };
            if silent || on_cooldown(err@, shellpid, root, sentinel_age) {
                r.line is None && r.sentinel is None
            } else {
                r.line is Some && r.line->Some_0@ == failure_text(hook_error_text(err@))
                    && optional_text(r.sentinel) == sentinel_of(err@, shellpid, root)
            }
        }),
{
    if silent {
        return ErrorReport { code: 1, line: None, sentinel: None };
    }
    let sentinel = error_sentinel(err, shellpid, closest_root);
    let suppressed = sentinel.is_some() && check_cooldown_sentinel(sentinel_age, cooldown());
    let message = err.to_string();
    match format_hook_error(message.as_str(), silent, suppressed) {
        Some(line) => ErrorReport { code: 1, line: Some(line), sentinel },
        None => ErrorReport { code: 1, line: None, sentinel: None },
    }
}

} // verus!
