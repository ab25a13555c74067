//! Finding the chain of program directories: where to look for the nearest
//! one, and which links from a program directory to a parent are accepted.

use crate::hash::{components_of, path_components, path_from, FileView, Source, SourceView};
use crate::output::{inside, path_inside};
use crate::text::{
    chars_of, copy_chars, ends_with, join, join_with, lemma_texts_push, pair_texts, push_all,
    push_text, same_chars, string_of, string_texts, texts,
};
use vstd::prelude::*;

verus! {

/// The name of a program directory.
pub const SHADOWENV_DIR_NAME: &'static str = ".shadowenv.d";

/// The name of the link from a program directory to its parent.
pub const SHADOWENV_PARENT_LINK_NAME: &'static str = "parent";

/// The ending of the name of a program file.
pub const PROGRAM_SUFFIX: &'static str = ".lisp";

/// Why the chain of program directories could not be found.
#[derive(Debug, PartialEq, Eq)]
pub enum TraversalError {
    /// The link could not be resolved.
    ResolveError { parent_link_path: String, error: String },
    /// What stands where the link should be is no symbolic link.
    NotASymlink { parent_link_path: String },
    /// The link does not lead to a program directory.
    InvalidLinkTarget { path_to_parent_link: String, parent_link_target: String },
    /// The link leads to a program directory that is no ancestor.
    NotAnAncestor { parent_link_target: String, shadowenv_path: String },
    /// The link leads back to the program directory that holds it.
    SelfReferential { shadowenv_path: String },
    /// The file system failed; its message.
    IoError(String),
}

/// What was found where a program directory may hold the link to its parent.
#[derive(Debug, PartialEq, Eq)]
pub enum LinkProbe {
    /// Nothing is there.
    Absent,
    /// Something is there that is no symbolic link.
    NotASymlink,
    /// A symbolic link is there that leads nowhere; the message of the
    /// file system.
    Unresolvable(String),
    /// A symbolic link is there, and this is the canonical path that it
    /// leads to.
    Resolved(String),
}

/// What was found at the place of a link, as plain values.
pub ghost enum LinkProbeView {
    Absent,
    NotASymlink,
    Unresolvable(Seq<char>),
    Resolved(Seq<char>),
}

impl View for LinkProbe {
    type V = LinkProbeView;

    open spec fn view(&self) -> LinkProbeView {
        match self {
            LinkProbe::Absent => LinkProbeView::Absent,
            LinkProbe::NotASymlink => LinkProbeView::NotASymlink,
            LinkProbe::Unresolvable(message) => LinkProbeView::Unresolvable(message@),
            LinkProbe::Resolved(target) => LinkProbeView::Resolved(target@),
        }
    }
}

/// The probes of a sequence as plain values.
pub open spec fn link_views(probes: Seq<LinkProbe>) -> Seq<LinkProbeView> {
    probes.map_values(|p: LinkProbe| p@)
}

/// What was found at the place of a link, where something stands there:
/// `resolved` is the canonical path that reading and resolving it gave, or
/// the message of the file system. What cannot be read is a link that
/// leads nowhere where it is a symbolic link, and otherwise no link.
pub fn link_probe(is_symlink: bool, resolved: Result<String, String>) -> (r: LinkProbe)
    ensures
        r@ == match resolved {
            Ok(target) => LinkProbeView::Resolved(target@),
            Err(message) => if is_symlink {
                LinkProbeView::Unresolvable(message@)
            } else {
                LinkProbeView::NotASymlink
            },
        },
{
    match resolved {
        Ok(target) => LinkProbe::Resolved(target),
        Err(message) => if is_symlink {
            LinkProbe::Unresolvable(message)
        } else {
            LinkProbe::NotASymlink
        },
    }
}

/// The last component of a path, unless that is the root.
pub open spec fn base_name(path: Seq<char>) -> Option<Seq<char>> {
    let c = path_components(path);
    if c.len() == 0 || c.last() == seq!['/'] {
        None
    } else {
        Some(c.last())
    }
}

/// The path without its last component; `None` for the root and for the
/// path without components.
pub open spec fn parent_components(path: Seq<char>) -> Option<Seq<Seq<char>>> {
    let c = path_components(path);
    if c.len() == 0 || c.last() == seq!['/'] {
        None
    } else {
        Some(c.drop_last())
    }
}

/// Whether the components of `path` begin with `prefix`.
pub open spec fn begins_with(path: Seq<char>, prefix: Seq<Seq<char>>) -> bool {
    prefix.is_prefix_of(path_components(path))
}

/// The path of the link from a program directory to its parent.
pub open spec fn parent_link(root: Seq<char>) -> Seq<char> {
    inside(root, SHADOWENV_PARENT_LINK_NAME@)
}

/// Whether the link from the program directory `from` to `target` is
/// accepted: the target is named as program directories are, it is not
/// `from` itself, and the directory that holds it is `from` or an ancestor
/// of `from`.
pub open spec fn link_accepted(from: Seq<char>, target: Seq<char>) -> bool {
    &&& base_name(target) == Some(SHADOWENV_DIR_NAME@)
    &&& path_components(from) != path_components(target)
    &&& begins_with(from, parent_components(target).unwrap())
}

/// What follows from what was found at the link of the program directory
/// `from`: no parent, the parent, or the reason why the link is refused.
pub open spec fn link_outcome(from: Seq<char>, probe: LinkProbeView) -> Result<
    Option<Seq<char>>,
    TraversalErrorView,
> {
    match probe {
        LinkProbeView::Absent => Ok(None),
        LinkProbeView::NotASymlink => Err(
            TraversalErrorView::NotASymlink { parent_link_path: parent_link(from) },
        ),
        LinkProbeView::Unresolvable(message) => Err(
            TraversalErrorView::ResolveError { parent_link_path: parent_link(from), error: message },
        ),
        LinkProbeView::Resolved(target) => {
            if base_name(target) != Some(SHADOWENV_DIR_NAME@) {
                Err(
                    TraversalErrorView::InvalidLinkTarget {
                        path_to_parent_link: parent_link(from),
                        parent_link_target: match base_name(target) {
                            Some(name) => name,
                            None => Seq::empty(),
                        },
                    },
                )
            } else if path_components(from) == path_components(target) {
                Err(TraversalErrorView::SelfReferential { shadowenv_path: from })
            } else if !begins_with(from, parent_components(target).unwrap()) {
                Err(
                    TraversalErrorView::NotAnAncestor {
                        parent_link_target: target,
                        shadowenv_path: from,
                    },
                )
            } else {
                Ok(Some(target))
            }
        },
    }
}

/// A failure of the traversal as plain values.
pub ghost enum TraversalErrorView {
    ResolveError { parent_link_path: Seq<char>, error: Seq<char> },
    NotASymlink { parent_link_path: Seq<char> },
    InvalidLinkTarget { path_to_parent_link: Seq<char>, parent_link_target: Seq<char> },
    NotAnAncestor { parent_link_target: Seq<char>, shadowenv_path: Seq<char> },
    SelfReferential { shadowenv_path: Seq<char> },
    IoError(Seq<char>),
}

impl View for TraversalError {
    type V = TraversalErrorView;

    open spec fn view(&self) -> TraversalErrorView {
        match self {
            TraversalError::ResolveError { parent_link_path, error } => {
                TraversalErrorView::ResolveError {
                    parent_link_path: parent_link_path@,
                    error: error@,
                }
            },
            TraversalError::NotASymlink { parent_link_path } => TraversalErrorView::NotASymlink {
                parent_link_path: parent_link_path@,
            },
            TraversalError::InvalidLinkTarget { path_to_parent_link, parent_link_target } => {
                TraversalErrorView::InvalidLinkTarget {
                    path_to_parent_link: path_to_parent_link@,
                    parent_link_target: parent_link_target@,
                }
            },
            TraversalError::NotAnAncestor { parent_link_target, shadowenv_path } => {
                TraversalErrorView::NotAnAncestor {
                    parent_link_target: parent_link_target@,
                    shadowenv_path: shadowenv_path@,
                }
            },
            TraversalError::SelfReferential { shadowenv_path } => {
                TraversalErrorView::SelfReferential { shadowenv_path: shadowenv_path@ }
            },
            TraversalError::IoError(message) => TraversalErrorView::IoError(message@),
        }
    }
}

/// Whether two lists of components are the same.
pub fn same_components(a: &Vec<Vec<char>>, b: &Vec<Vec<char>>) -> (r: bool)
    ensures
        r == (texts(a@) == texts(b@)),
{
    if a.len() != b.len() {
        assert(texts(a@).len() != texts(b@).len());
        return false;
    }
    let mut i: usize = 0;
    while i < a.len()
        invariant
            i <= a.len(),
            a.len() == b.len(),
            forall|k: int| 0 <= k < i ==> a@[k]@ == b@[k]@,
        decreases a.len() - i,
    {
        if !same_chars(&a[i], &b[i]) {
            assert(texts(a@)[i as int] != texts(b@)[i as int]);
            return false;
        }
        i = i + 1;
    }
    assert(texts(a@) =~= texts(b@));
    true
}

/// Whether the first `n` components of `b` are the components `a`.
pub fn is_prefix_of_components(a: &Vec<Vec<char>>, n: usize, b: &Vec<Vec<char>>) -> (r: bool)
    requires
        n <= a@.len(),
    ensures
        r == texts(a@).take(n as int).is_prefix_of(texts(b@)),
{
    if n > b.len() {
        return false;
    }
    let mut i: usize = 0;
    while i < n
        invariant
            i <= n <= a.len(),
            n <= b.len(),
            forall|k: int| 0 <= k < i ==> a@[k]@ == b@[k]@,
        decreases n - i,
    {
        if !same_chars(&a[i], &b[i]) {
            assert(texts(a@).take(n as int)[i as int] != texts(b@)[i as int]);
            return false;
        }
        i = i + 1;
    }
    assert(texts(a@).take(n as int) =~= texts(b@).subrange(0, n as int));
    true
}

/// The path of the link from a program directory to its parent.
pub fn parent_link_path(root: &str) -> (r: String)
    ensures
        r@ == parent_link(root@),
{
    path_inside(root, SHADOWENV_PARENT_LINK_NAME)
}

/// What follows from what was found at the link of the program directory
/// `from_shadowenv` to its parent.
pub fn resolve_shadowenv_parent(from_shadowenv: &str, probe: &LinkProbe) -> (r: Result<
    Option<String>,
    TraversalError,
>)
    ensures
        match r {
            Ok(Some(target)) => link_outcome(from_shadowenv@, probe@) == Ok::<
                Option<Seq<char>>,
                TraversalErrorView,
            >(Some(target@)) && link_accepted(from_shadowenv@, target@),
            Ok(None) => link_outcome(from_shadowenv@, probe@) == Ok::<
                Option<Seq<char>>,
                TraversalErrorView,
            >(None),
            Err(e) => link_outcome(from_shadowenv@, probe@) == Err::<
                Option<Seq<char>>,
                TraversalErrorView,
            >(e@),
        },
{
    match probe {
        LinkProbe::Absent => Ok(None),
        LinkProbe::NotASymlink => Err(
            TraversalError::NotASymlink { parent_link_path: parent_link_path(from_shadowenv) },
        ),
        LinkProbe::Unresolvable(message) => Err(
            TraversalError::ResolveError {
                parent_link_path: parent_link_path(from_shadowenv),
                error: message.clone(),
            },
        ),
        LinkProbe::Resolved(target) => {
            let to = components_of(target.as_str());
            let from = components_of(from_shadowenv);
            let dir_name = chars_of(SHADOWENV_DIR_NAME);
            let mut root: Vec<char> = Vec::new();
            root.push('/');
            let named = to.len() > 0 && !same_chars(&to[to.len() - 1], &root);
            proof {
                assert(root@ =~= seq!['/']);
                if to.len() > 0 {
                    assert(texts(to@).last() == to@[to.len() - 1]@);
                }
            }
            if !named || !same_chars(&to[to.len() - 1], &dir_name) {
                let base = if named {
                    string_of(&to[to.len() - 1])
                } else {
                    String::new()
                };
                return Err(
                    TraversalError::InvalidLinkTarget {
                        path_to_parent_link: parent_link_path(from_shadowenv),
                        parent_link_target: base,
                    },
                );
            }
            if same_components(&from, &to) {
                return Err(
                    TraversalError::SelfReferential {
                        shadowenv_path: String::from_str(from_shadowenv),
                    },
                );
            }
            let n: usize = to.len() - 1;
            proof {
                assert(texts(to@).take(n as int) =~= texts(to@).drop_last());
            }
            if !is_prefix_of_components(&to, n, &from) {
                return Err(
                    TraversalError::NotAnAncestor {
                        parent_link_target: target.clone(),
                        shadowenv_path: String::from_str(from_shadowenv),
                    },
                );
            }
            Ok(Some(target.clone()))
        },
    }
}

/// The chain that grows from the nearest program directory as the links
/// to parents are followed: `probes[i]` is what was found at the link of the
/// `i`-th directory of the chain. The chain ends where no link is found or
/// where the probes end, and fails at the first link that is refused.
pub open spec fn chain_from(roots: Seq<Seq<char>>, probes: Seq<LinkProbeView>) -> Result<
    Seq<Seq<char>>,
    TraversalErrorView,
>
    decreases probes.len(),
{
    if probes.len() == 0 || roots.len() == 0 {
        Ok(roots)
    } else {
        match link_outcome(roots.last(), probes[0]) {
            Err(e) => Err(e),
            Ok(None) => Ok(roots),
            Ok(Some(target)) => chain_from(roots.push(target), probes.drop_first()),
        }
    }
}

/// The chain of program directories, the nearest first: `closest` is the
/// nearest program directory, where there is one, and `probes[i]` is what
/// was found at the link to the parent of the `i`-th directory of the chain.
pub fn find_shadowenv_paths(closest: Option<String>, probes: &Vec<LinkProbe>) -> (r: Result<
    Vec<String>,
    TraversalError,
>)
    ensures
        match closest {
            None => r is Ok && r->Ok_0@.len() == 0,
            Some(c) => match r {
                Ok(roots) => chain_from(seq![c@], link_views(probes@)) == Ok::<
                    Seq<Seq<char>>,
                    TraversalErrorView,
                >(string_texts(roots@)),
                Err(e) => chain_from(seq![c@], link_views(probes@)) == Err::<
                    Seq<Seq<char>>,
                    TraversalErrorView,
                >(e@),
            },
        },
{
    let mut roots: Vec<String> = Vec::new();
    let first = match closest {
        Some(c) => c,
        None => {
            return Ok(roots);
        },
    };
    let ghost start = seq![first@];
    let ghost found = link_views(probes@);
    roots.push(first);
    let mut i: usize = 0;
    proof {
        assert(string_texts(roots@) =~= start);
        assert(found.skip(0) =~= found);
    }
    while i < probes.len()
        invariant
            i <= probes.len(),
            roots@.len() > 0,
            closest is Some,
            start == seq![closest->Some_0@],
            found == link_views(probes@),
            chain_from(start, found) == chain_from(string_texts(roots@), found.skip(i as int)),
        decreases probes.len() - i,
    {
        let ghost before = roots@;
        let ghost rest = found.skip(i as int);
        proof {
            assert(rest[0] == probes@[i as int]@);
            assert(rest.drop_first() =~= found.skip(i + 1));
            assert(string_texts(before).last() == before[before.len() - 1]@);
        }
        let current = &roots[roots.len() - 1];
        match resolve_shadowenv_parent(current.as_str(), &probes[i]) {
            Err(e) => {
                return Err(e);
            },
            Ok(None) => {
                return Ok(roots);
            },
            Ok(Some(target)) => {
                roots.push(target);
                proof {
                    assert(string_texts(roots@) =~= string_texts(before).push(target@));
                }
            },
        }
        i = i + 1;
    }
    proof {
        assert(found.skip(probes.len() as int) =~= Seq::<LinkProbeView>::empty());
    }
    Ok(roots)
}

/// The paths at which the nearest program directory may be, the nearest
/// first: one inside `at`, and one inside each ancestor of `at`.
pub open spec fn candidate_paths(at: Seq<char>) -> Seq<Seq<char>> {
    let c = path_components(at);
    let least: int = if c.len() > 0 && c[0] == seq!['/'] {
        1
    } else {
        0
    };
    Seq::new(
        (c.len() - least + 1) as nat,
        |i: int| inside(path_from(c.take(c.len() - i)), SHADOWENV_DIR_NAME@),
    )
}

/// The paths at which the nearest program directory may be, the nearest first.
pub fn closest_shadowenv_candidates(at: &str) -> (out: Vec<String>)
    ensures
        string_texts(out@) == candidate_paths(at@),
{
    let c = components_of(at);
    let mut root: Vec<char> = Vec::new();
    root.push('/');
    let least: usize = if c.len() > 0 && same_chars(&c[0], &root) {
        1
    } else {
        0
    };
    proof {
        assert(root@ =~= seq!['/']);
        if c.len() > 0 {
            assert(texts(c@)[0] == c@[0]@);
        }
    }
    let mut out: Vec<String> = Vec::new();
    let mut n: usize = c.len();
    let mut done = false;
    while !done
        invariant
            least <= n <= c.len(),
            done ==> n == least && out@.len() == c.len() - least + 1,
            !done ==> out@.len() == c.len() - n,
            forall|k: int|
                0 <= k < out@.len() ==> (#[trigger] out@[k])@ == inside(
                    path_from(texts(c@).take(c.len() - k)),
                    SHADOWENV_DIR_NAME@,
                ),
        decreases n + if done { 0int } else { 1int },
    {
        let ancestor = path_of(&c, n);
        out.push(path_inside(ancestor.as_str(), SHADOWENV_DIR_NAME));
        if n == least {
            done = true;
        } else {
            n = n - 1;
        }
    }
    assert(string_texts(out@) =~= candidate_paths(at@));
    out
}

/// The path that the first `n` of the given components make.
pub fn path_of(components: &Vec<Vec<char>>, n: usize) -> (r: String)
    requires
        n <= components@.len(),
    ensures
        r@ == path_from(texts(components@).take(n as int)),
{
    let ghost want = texts(components@).take(n as int);
    let mut root: Vec<char> = Vec::new();
    root.push('/');
    let rooted = n > 0 && same_chars(&components[0], &root);
    proof {
        assert(root@ =~= seq!['/']);
        if n > 0 {
            assert(want[0] == components@[0]@);
        }
    }
    let first: usize = if rooted {
        1
    } else {
        0
    };
    let mut rest: Vec<Vec<char>> = Vec::new();
    let mut k: usize = first;
    while k < n
        invariant
            first <= k <= n <= components.len(),
            texts(rest@) == texts(components@).subrange(first as int, k as int),
        decreases n - k,
    {
        let ghost before = rest@;
        let piece = copy_chars(&components[k]);
        rest.push(piece);
        proof {
            lemma_texts_push(before, piece);
            assert(texts(components@).subrange(first as int, k + 1) =~= texts(
                components@,
            ).subrange(first as int, k as int).push(components@[k as int]@));
        }
        k = k + 1;
    }
    let joined = join(&rest, '/');
    if rooted {
        let mut out: Vec<char> = Vec::new();
        out.push('/');
        push_all(&mut out, &joined);
        proof {
            assert(texts(components@).subrange(1, n as int) =~= want.drop_first());
            assert(out@ =~= seq!['/'] + join_with(want.drop_first(), '/'));
        }
        string_of(&out)
    } else {
        proof {
            assert(texts(components@).subrange(0, n as int) =~= want);
        }
        string_of(&joined)
    }
}

/// Whether a file of a program directory is a program: its name ends
/// with `.lisp`.
pub fn is_program_file(basename: &str) -> (r: bool)
    ensures
        r == PROGRAM_SUFFIX@.is_suffix_of(basename@),
{
    let name = chars_of(basename);
    let suffix = chars_of(PROGRAM_SUFFIX);
    ends_with(&name, &suffix)
}

/// The directory that holds the program directory `dirpath`: `dirpath`
/// without its last component.
pub open spec fn holder_of(dirpath: Seq<char>) -> Seq<char> {
    match parent_components(dirpath) {
        Some(c) => path_from(c),
        None => Seq::empty(),
    }
}

/// The directory that holds the program directory `dirpath`.
pub fn holder(dirpath: &str) -> (r: String)
    ensures
        r@ == holder_of(dirpath@),
{
    let c = components_of(dirpath);
    let mut root: Vec<char> = Vec::new();
    root.push('/');
    proof {
        assert(root@ =~= seq!['/']);
        if c.len() > 0 {
            assert(texts(c@).last() == c@[c.len() - 1]@);
        }
    }
    if c.len() == 0 || same_chars(&c[c.len() - 1], &root) {
        String::new()
    } else {
        proof {
            assert(texts(c@).take(c.len() - 1) =~= texts(c@).drop_last());
        }
        path_of(&c, c.len() - 1)
    }
}

/// The programs among the files of a directory, in their order; each
/// file is its name and its contents.
pub open spec fn programs_among(entries: Seq<(Seq<char>, Seq<char>)>) -> Seq<FileView>
    decreases entries.len(),
{
    if entries.len() == 0 {
        Seq::empty()
    } else {
        let rest = programs_among(entries.drop_last());
        let last = entries.last();
        if PROGRAM_SUFFIX@.is_suffix_of(last.0) {
            rest.push(FileView { name: last.0, contents: last.1 })
        } else {
            rest
        }
    }
}

/// The program directory at `dirpath`, given the name and the contents of
/// each of its files: the programs among the files, with the directory
/// that holds `dirpath`. `None` where no file is a program.
pub fn load(dirpath: &str, entries: &Vec<(String, String)>) -> (r: Option<Source>)
    ensures
        match r {
            Some(source) => programs_among(pair_texts(entries@)).len() > 0 && source@
                == (SourceView {
                dir: holder_of(dirpath@),
                files: programs_among(pair_texts(entries@)),
            }),
            None => programs_among(pair_texts(entries@)).len() == 0,
        },
{
    let holder = holder(dirpath);
    let mut source = Source::new(holder.as_str());
    let ghost all = pair_texts(entries@);
    let mut i: usize = 0;
    assert(all.take(0) =~= Seq::<(Seq<char>, Seq<char>)>::empty());
    while i < entries.len()
        invariant
            i <= entries.len(),
            all == pair_texts(entries@),
            source@ == (SourceView {
                dir: holder_of(dirpath@),
                files: programs_among(all.take(i as int)),
            }),
        decreases entries.len() - i,
    {
        let entry = &entries[i];
        proof {
            assert(all.take(i + 1).drop_last() =~= all.take(i as int));
            assert(all.take(i + 1).last() == (entry.0@, entry.1@));
        }
        if is_program_file(entry.0.as_str()) {
            source.add_file(entry.0.as_str(), entry.1.as_str());
        }
        i = i + 1;
    }
    assert(all.take(entries.len() as int) =~= all);
    if source.files.len() == 0 {
        return None;
    }
    Some(source)
}

/// How a failure of the traversal is reported.
pub open spec fn traversal_text(e: TraversalErrorView) -> Seq<char> {
    match e {
        TraversalErrorView::ResolveError { parent_link_path, error } => "Error for parent file at "@
            + parent_link_path + ": "@ + error,
        TraversalErrorView::NotASymlink { parent_link_path } => "Error for parent file at "@
            + parent_link_path + ": Not a symlink"@,
        TraversalErrorView::InvalidLinkTarget { path_to_parent_link, parent_link_target } => {
            "Parent symlink at "@ + path_to_parent_link + " must link to a "@ + SHADOWENV_DIR_NAME@
                + " directory, but links to "@ + parent_link_target
        },
        TraversalErrorView::NotAnAncestor { parent_link_target, shadowenv_path } => {
            "Parent symlink "@ + parent_link_target + " must be an ancestor of "@ + shadowenv_path
        },
        TraversalErrorView::SelfReferential { shadowenv_path } => "Shadow env at "@ + shadowenv_path
            + " references itself"@,
        TraversalErrorView::IoError(message) => message,
    }
}

impl TraversalError {
    /// The message for the user.
    pub fn to_string(&self) -> (r: String)
        ensures
            r@ == traversal_text(self@),
    {
        let mut out: Vec<char> = Vec::new();
        match self {
            TraversalError::ResolveError { parent_link_path, error } => {
                push_text(&mut out, "Error for parent file at ");
                push_text(&mut out, parent_link_path.as_str());
                push_text(&mut out, ": ");
                push_text(&mut out, error.as_str());
            },
            TraversalError::NotASymlink { parent_link_path } => {
                push_text(&mut out, "Error for parent file at ");
                push_text(&mut out, parent_link_path.as_str());
                push_text(&mut out, ": Not a symlink");
            },
            TraversalError::InvalidLinkTarget { path_to_parent_link, parent_link_target } => {
                push_text(&mut out, "Parent symlink at ");
                push_text(&mut out, path_to_parent_link.as_str());
                push_text(&mut out, " must link to a ");
                push_text(&mut out, SHADOWENV_DIR_NAME);
                push_text(&mut out, " directory, but links to ");
                push_text(&mut out, parent_link_target.as_str());
            },
            TraversalError::NotAnAncestor { parent_link_target, shadowenv_path } => {
                push_text(&mut out, "Parent symlink ");
                push_text(&mut out, parent_link_target.as_str());
                push_text(&mut out, " must be an ancestor of ");
                push_text(&mut out, shadowenv_path.as_str());
            },
            TraversalError::SelfReferential { shadowenv_path } => {
                push_text(&mut out, "Shadow env at ");
                push_text(&mut out, shadowenv_path.as_str());
                push_text(&mut out, " references itself");
            },
            TraversalError::IoError(message) => {
                push_text(&mut out, message.as_str());
            },
        }
        assert(out@ =~= traversal_text(self@));
        string_of(&out)
    }
}

} // verus!
