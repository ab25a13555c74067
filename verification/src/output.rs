//! What the hook says on the terminal: the line that announces an
//! activation, the line that reports a failure, and the rules of the
//! cooldown that keeps a failure from being reported at every prompt.

use crate::digits::{decimal, decimal_text};
use crate::features::{feature_text, Feature};
use crate::pattern::{lowercased, regex_replace_all, regex_replaced, to_lowercase};
use crate::text::{
    chars_of, push_all, push_text, starts_with, string_of, string_texts, text_eq, texts,
};
use vstd::prelude::*;

verus! {

/// The name of the tool in a gradient from lighter to darker gray.
pub const SHADOWENV: &'static str =
    "\x1b[38;5;249m\u{2591}\x1b[38;5;249ms\x1b[38;5;248mh\x1b[38;5;247ma\x1b[38;5;246md\x1b[38;5;245mo\x1b[38;5;244mw\x1b[38;5;243me\x1b[38;5;242mn\x1b[38;5;241mv\x1b[38;5;240m";

/// For how many seconds a failure that was reported is not reported again.
pub const COOLDOWN_SECONDS: u64 = 5;

/// After how many seconds a sentinel of the cooldown is removed.
pub const STALE_SECONDS: u64 = 300;

/// The character `c`, `n` times.
pub open spec fn repeated(c: char, n: nat) -> Seq<char> {
    Seq::new(n, |i: int| c)
}

/// How the counts of added and removed directories are shown: nothing
/// where both are zero, and otherwise a plus for each added directory and a
/// minus for each removed one, in brackets, with a bar between the two
/// where there are both.
pub open spec fn dir_diff_text(added: nat, removed: nat) -> Option<Seq<char>> {
    if added == 0 && removed == 0 {
        None
    } else {
        Some(
            "\x1b[38;5;240m["@ + (if added > 0 {
                "\x1b[0;32m"@ + repeated('+', added)
            } else {
                Seq::empty()
            }) + (if added > 0 && removed > 0 {
                "\x1b[38;5;240m|"@
            } else {
                Seq::empty()
            }) + (if removed > 0 {
                "\x1b[0;31m"@ + repeated('-', removed)
            } else {
                Seq::empty()
            }) + "\x1b[38;5;240m]\x1b[0m"@,
        )
    }
}

/// Appends `c`, `n` times.
pub fn push_repeated(out: &mut Vec<char>, c: char, n: usize)
    ensures
        final(out)@ == old(out)@ + repeated(c, n as nat),
{
    let ghost before = out@;
    let mut i: usize = 0;
    assert(before + repeated(c, 0) =~= before);
    while i < n
        invariant
            i <= n,
            out@ == before + repeated(c, i as nat),
        decreases n - i,
    {
        out.push(c);
        i = i + 1;
        assert(before + repeated(c, i as nat) =~= (before + repeated(c, (i - 1) as nat)).push(c));
    }
}

/// How the directories that an activation added and removed are shown.
pub fn dir_diff(added_dirs: &Vec<String>, removed_dirs: &Vec<String>) -> (r: Option<String>)
    ensures
        match r {
            Some(s) => dir_diff_text(added_dirs@.len(), removed_dirs@.len()) == Some(s@),
            None => dir_diff_text(added_dirs@.len(), removed_dirs@.len()) is None,
        },
{
    let added = added_dirs.len();
    let removed = removed_dirs.len();
    if added == 0 && removed == 0 {
        return None;
    }
    let mut out: Vec<char> = Vec::new();
    push_text(&mut out, "\x1b[38;5;240m[");
    if added > 0 {
        push_text(&mut out, "\x1b[0;32m");
        push_repeated(&mut out, '+', added);
    }
    if added > 0 && removed > 0 {
        push_text(&mut out, "\x1b[38;5;240m|");
    }
    if removed > 0 {
        push_text(&mut out, "\x1b[0;31m");
        push_repeated(&mut out, '-', removed);
    }
    push_text(&mut out, "\x1b[38;5;240m]\x1b[0m");
    assert(out@ =~= dir_diff_text(added as nat, removed as nat).unwrap());
    Some(string_of(&out))
}

/// The elements of `a` that `b` lacks, in their order.
pub open spec fn lacking(a: Seq<Seq<char>>, b: Seq<Seq<char>>) -> Seq<Seq<char>> {
    crate::pathlist::without(a, b)
}

/// How features are shown: nothing where there are none, and otherwise a
/// space and the features with commas between them.
pub open spec fn feature_list_text(features: Seq<Seq<char>>) -> Seq<char>
    decreases features.len(),
{
    if features.len() == 0 {
        Seq::empty()
    } else {
        " \x1b[1;38;5;245m"@ + joined_features(features)
    }
}

/// Features with commas in another shade between them.
pub open spec fn joined_features(features: Seq<Seq<char>>) -> Seq<char>
    decreases features.len(),
{
    if features.len() == 0 {
        Seq::empty()
    } else if features.len() == 1 {
        features[0]
    } else {
        joined_features(features.drop_last()) + "\x1b[38;5;240m,\x1b[1;38;5;245m"@
            + features.last()
    }
}

/// The line that announces an activation: the name of the tool, the
/// directories that were added and removed, and the features.
pub open spec fn activation_text(added: nat, removed: nat, features: Seq<Seq<char>>) -> Seq<char> {
    "\x1b[1;34m"@ + SHADOWENV@ + (match dir_diff_text(added, removed) {
        Some(s) => s,
        None => Seq::empty(),
    }) + feature_list_text(features) + "\x1b[0m"@
}

/// The features as they are shown.
pub open spec fn feature_texts(features: Seq<Feature>) -> Seq<Seq<char>> {
    features.map_values(|f: Feature| feature_text(f@))
}

/// The directories of `dirs` that are not among `others`.
pub fn dirs_lacking(dirs: &Vec<String>, others: &Vec<String>) -> (out: Vec<String>)
    ensures
        string_texts(out@) == lacking(string_texts(dirs@), string_texts(others@)),
{
    let mut a: Vec<Vec<char>> = Vec::new();
    let mut i: usize = 0;
    while i < dirs.len()
        invariant
            i <= dirs.len(),
            a@.len() == i,
            forall|k: int| 0 <= k < i ==> a@[k]@ == dirs@[k]@,
        decreases dirs.len() - i,
    {
        a.push(chars_of(dirs[i].as_str()));
        i = i + 1;
    }
    let mut b: Vec<Vec<char>> = Vec::new();
    let mut i: usize = 0;
    while i < others.len()
        invariant
            i <= others.len(),
            b@.len() == i,
            forall|k: int| 0 <= k < i ==> b@[k]@ == others@[k]@,
        decreases others.len() - i,
    {
        b.push(chars_of(others[i].as_str()));
        i = i + 1;
    }
    assert(texts(a@) =~= string_texts(dirs@));
    assert(texts(b@) =~= string_texts(others@));
    let kept = crate::pathlist::elements_without(&a, &b);
    crate::shadowenv::strings_of(&kept)
}

/// The line that announces an activation.
pub fn activation_banner(
    current_dirs: &Vec<String>,
    prev_dirs: &Vec<String>,
    features: &Vec<Feature>,
) -> (r: String)
    ensures
        r@ == activation_text(
            lacking(string_texts(current_dirs@), string_texts(prev_dirs@)).len(),
            lacking(string_texts(prev_dirs@), string_texts(current_dirs@)).len(),
            feature_texts(features@),
        ),
{
    let added_dirs = dirs_lacking(current_dirs, prev_dirs);
    let removed_dirs = dirs_lacking(prev_dirs, current_dirs);
    let mut out: Vec<char> = Vec::new();
    push_text(&mut out, "\x1b[1;34m");
    push_text(&mut out, SHADOWENV);
    match dir_diff(&added_dirs, &removed_dirs) {
        Some(s) => {
            push_text(&mut out, s.as_str());
        },
        None => {},
    }
    let ghost head = out@;
    let ghost shown = feature_texts(features@);
    if features.len() > 0 {
        push_text(&mut out, " \x1b[1;38;5;245m");
        let ghost start = out@;
        let mut i: usize = 0;
        assert(shown.take(0) =~= Seq::<Seq<char>>::empty());
        assert(start + joined_features(shown.take(0)) =~= start);
        while i < features.len()
            invariant
                i <= features.len(),
                shown == feature_texts(features@),
                out@ == start + joined_features(shown.take(i as int)),
            decreases features.len() - i,
        {
            let ghost before = out@;
            if i > 0 {
                push_text(&mut out, "\x1b[38;5;240m,\x1b[1;38;5;245m");
            }
            let text = features[i].to_string();
            push_text(&mut out, text.as_str());
            proof {
                let next = shown.take(i + 1);
                assert(next.drop_last() =~= shown.take(i as int));
                assert(next.last() == feature_text(features@[i as int]@));
                if i == 0 {
                    assert(out@ =~= start + joined_features(next));
                } else {
                    assert(out@ =~= start + joined_features(next));
                }
            }
            i = i + 1;
        }
        assert(shown.take(features.len() as int) =~= shown);
        assert(out@ =~= head + feature_list_text(shown));
    } else {
        assert(out@ =~= head + feature_list_text(shown));
    }
    push_text(&mut out, "\x1b[0m");
    assert(out@ =~= activation_text(
        string_texts(added_dirs@).len(),
        string_texts(removed_dirs@).len(),
        shown,
    ));
    string_of(&out)
}

/// The regular expression for a run of text between backticks.
pub const BACKTICKS: &'static str = "`(.*?)`";

/// What stands in place of a run of text between backticks: the run in
/// bright green, and red again after it.
pub const BRIGHT_GREEN: &'static str = "\x1b[1;32m$1\x1b[1;31m";

/// A message with what stands between backticks shown in bright green.
pub open spec fn highlighted(message: Seq<char>) -> Seq<char> {
    match regex_replaced(BACKTICKS@, message, BRIGHT_GREEN@) {
        Some(s) => s,
        None => message,
    }
}

/// The line that reports a failure.
pub open spec fn failure_text(message: Seq<char>) -> Seq<char> {
    SHADOWENV@ + " \x1b[1;31mfailure: "@ + highlighted(message) + "\x1b[0m"@
}

/// A message with what stands between backticks shown in bright green.
pub fn backticks_to_bright_green(message: &str) -> (r: String)
    ensures
        r@ == highlighted(message@),
{
    match regex_replace_all(BACKTICKS, message, BRIGHT_GREEN) {
        Some(s) => s,
        None => String::from_str(message),
    }
}

/// The line that reports a failure, given the highlighted message.
pub fn failure_line(highlighted_message: &str) -> (r: String)
    ensures
        r@ == SHADOWENV@ + " \x1b[1;31mfailure: "@ + highlighted_message@ + "\x1b[0m"@,
{
    let mut out: Vec<char> = Vec::new();
    push_text(&mut out, SHADOWENV);
    push_text(&mut out, " \x1b[1;31mfailure: ");
    push_text(&mut out, highlighted_message);
    push_text(&mut out, "\x1b[0m");
    assert(out@ =~= SHADOWENV@ + " \x1b[1;31mfailure: "@ + highlighted_message@ + "\x1b[0m"@);
    string_of(&out)
}

/// What the hook says of a failure: nothing where it was told to be silent
/// or where the failure is on cooldown, and otherwise the line that reports
/// it. The hook then ends with the exit code 1.
pub fn format_hook_error(message: &str, silent: bool, on_cooldown: bool) -> (r: Option<String>)
    ensures
        match r {
            Some(line) => !silent && !on_cooldown && line@ == failure_text(message@),
            None => silent || on_cooldown,
        },
{
    if silent || on_cooldown {
        return None;
    }
    let shown = backticks_to_bright_green(message);
    Some(failure_line(shown.as_str()))
}

/// A span of time: whole seconds, and the billionths of a second beyond them.
#[derive(Debug, PartialEq, Eq, Clone, Copy)]
pub struct Elapsed {
    pub secs: u64,
    pub nanos: u32,
}

/// Whether a span of time is shorter than a number of seconds.
pub open spec fn shorter_than(age: Elapsed, secs: u64) -> bool {
    age.secs < secs
}

/// Whether a span of time is longer than a number of seconds.
pub open spec fn longer_than(age: Elapsed, secs: u64) -> bool {
    age.secs > secs || (age.secs == secs && age.nanos > 0)
}

/// The span of the cooldown, in seconds.
pub fn cooldown() -> (secs: u64)
    ensures
        secs == COOLDOWN_SECONDS,
{
    COOLDOWN_SECONDS
}

/// Whether the sentinel of a failure says that the failure is on cooldown:
/// it exists, and it was written less than `timeout` seconds ago. `age` is
/// `None` where the sentinel does not exist or its age cannot be told.
pub fn check_cooldown_sentinel(age: Option<Elapsed>, timeout: u64) -> (r: bool)
    ensures
        r == (age is Some && shorter_than(age->Some_0, timeout)),
{
    match age {
        Some(a) => a.secs < timeout,
        None => false,
    }
}

/// Whether a file in a program directory is a sentinel of the cooldown that
/// is to be removed: its name begins with `.error-`, and it was written
/// more than `timeout` seconds ago.
pub fn is_stale_error(file_name: &str, age: Option<Elapsed>, timeout: u64) -> (r: bool)
    ensures
        r == (".error-"@.is_prefix_of(file_name@) && age is Some && longer_than(
            age->Some_0,
            timeout,
        )),
{
    let name = chars_of(file_name);
    let prefix = chars_of(".error-");
    if !starts_with(&name, &prefix) {
        return false;
    }
    match age {
        Some(a) => a.secs > timeout || (a.secs == timeout && a.nanos > 0),
        None => false,
    }
}

/// A path inside a directory: the directory, a slash where the directory
/// does not end with one, and the name. Inside the directory without a
/// name it is the name alone.
pub open spec fn inside(dir: Seq<char>, name: Seq<char>) -> Seq<char> {
    if dir.len() == 0 {
        name
    } else if dir.last() == '/' {
        dir + name
    } else {
        dir + seq!['/'] + name
    }
}

/// A path inside a directory.
pub fn path_inside(dir: &str, name: &str) -> (r: String)
    ensures
        r@ == inside(dir@, name@),
{
    let mut out = chars_of(dir);
    if out.len() > 0 && out[out.len() - 1] != '/' {
        out.push('/');
    }
    push_text(&mut out, name);
    proof {
        if dir@.len() == 0 {
            assert(out@ =~= name@);
        } else if dir@.last() == '/' {
            assert(out@ =~= dir@ + name@);
        } else {
            assert(out@ =~= dir@ + seq!['/'] + name@);
        }
    }
    string_of(&out)
}

/// The name of the sentinel of a failure: `.error-`, the index of the kind
/// of failure, a hyphen, and the process id of the shell.
pub open spec fn sentinel_name(errindex: u32, shellpid: u32) -> Seq<char> {
    ".error-"@ + decimal_text(errindex as nat) + seq!['-'] + decimal_text(shellpid as nat)
}

/// The path of the sentinel of a failure in the program directory `root`.
pub fn err_file(root: &str, errindex: u32, shellpid: u32) -> (r: String)
    ensures
        r@ == inside(root@, sentinel_name(errindex, shellpid)),
{
    let mut name: Vec<char> = Vec::new();
    push_text(&mut name, ".error-");
    push_all(&mut name, &decimal(errindex as u64));
    name.push('-');
    push_all(&mut name, &decimal(shellpid as u64));
    assert(name@ =~= sentinel_name(errindex, shellpid));
    let name = string_of(&name);
    path_inside(root, name.as_str())
}

/// What is to be done about the cooldown of a failure.
#[derive(Debug, PartialEq, Eq)]
pub enum Cooldown {
    /// The failure is reported; there is no sentinel to look at.
    Report,
    /// The failure is reported unless the sentinel at this path is younger
    /// than the cooldown; where it is reported, the sentinel is written anew.
    Consult(String),
}

/// What is to be done about the cooldown of a failure of the kind
/// `errindex`, for the shell `shellpid`, where `closest_root` is the program
/// directory nearest to the working directory. Without such a directory, or
/// for a kind of failure that has no cooldown, the failure is reported.
pub fn check_and_trigger_cooldown(
    closest_root: Option<&str>,
    errindex: Option<u32>,
    shellpid: u32,
) -> (r: Cooldown)
    ensures
        match (closest_root, errindex) {
            (Some(root), Some(index)) => r is Consult && r->Consult_0@ == inside(
                root@,
                sentinel_name(index, shellpid),
            ),
            _ => r is Report,
        },
{
    match closest_root {
        Some(root) => match errindex {
            Some(index) => Cooldown::Consult(err_file(root, index, shellpid)),
            None => Cooldown::Report,
        },
        None => Cooldown::Report,
    }
}

/// Whether the value of `SHADOWENV_SILENT` lets the activation be
/// announced: unset it does, and set it does where its lowercase form is
/// `0`, `false`, `no` or empty.
pub open spec fn configured_to_print(silent: Option<Seq<char>>) -> bool {
    match silent {
        None => true,
        Some(v) => {
            let low = lowercased(v);
            low == "0"@ || low == "false"@ || low == "no"@ || low == ""@
        },
    }
}

/// Whether the activation is announced: standard error is a terminal, and
/// `SHADOWENV_SILENT` does not forbid it.
pub fn should_print_activation(silent: Option<&str>, stderr_is_terminal: bool) -> (r: bool)
    ensures
        r == (stderr_is_terminal && configured_to_print(
            match silent {
                Some(v) => Some(v@),
                None => None,
            },
        )),
{
    let configured = match silent {
        None => true,
        Some(v) => {
            let low = to_lowercase(v);
            text_eq(low.as_str(), "0") || text_eq(low.as_str(), "false") || text_eq(
                low.as_str(),
                "no",
            ) || text_eq(low.as_str(), "")
        },
    };
    stderr_is_terminal && configured
}

} // verus!
