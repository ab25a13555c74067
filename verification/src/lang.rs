//! The bridge to the evaluator: what is bound into the interpreter, what
//! each binding does to the overlay, and in which order the programs of a
//! directory are defined and called. The interpreter is that of the crate
//! `ketos`; it hands each call of a primitive to `call_primitive`.

use crate::features::{optional_text, FeatureView};
use crate::hash::{
    file_views, shortened, shortening_depth, sort_files, sorted_files, FileView, Source, SourceFile,
    SourceList, SourceView,
};
use crate::shadowenv::{
    appended, assign, lookup, prepended, removed, removed_containing, Shadowenv, ShadowenvView,
};
use crate::text::{chars_of, push_text, string_of, string_texts, text_eq};
use std::cell::RefCell;
use std::rc::Rc;
use vstd::prelude::*;

verus! {

/// An interpreter of the crate `ketos`. Nothing is known of what it holds.
#[verifier::external_type_specification]
#[verifier::external_body]
pub struct ExInterpreter(ketos::Interpreter);

/// A value of the interpreter. Nothing is known of what it holds.
#[verifier::external_type_specification]
#[verifier::external_body]
pub struct ExValue(ketos::Value);

/// An error of the interpreter. Nothing is known of what it holds.
#[verifier::external_type_specification]
#[verifier::external_body]
pub struct ExError(ketos::Error);

/// A name that an interpreter has interned. Nothing is known of what it holds.
#[verifier::external_type_specification]
#[verifier::external_body]
pub struct ExName(ketos::Name);

/// A cell of the standard library whose content can be changed through a
/// shared reference. Nothing is known of what it holds.
#[verifier::external_type_specification]
#[verifier::external_body]
#[verifier::reject_recursive_types(T)]
pub struct ExRefCell<T: ?Sized>(RefCell<T>);

/// The evaluator of programs.
pub struct ShadowLang {}

/// A program failed.
#[derive(Debug, PartialEq, Eq)]
pub struct ShadowlispError {
    /// What the interpreter says of the failure, for standard error.
    pub diagnostic: String,
}

/// What the interpreter runs before the programs of a directory: the
/// macros `when` and `when-let`.
pub const PRELUDE: &'static str = "\n          ;; Better when/if/let macros\n          (macro (when pred :rest body) `(if ,pred (do ,@body) ()))\n          (macro (when-let assigns :rest body)\n            `(let ,assigns (when (not (null ,(first (first assigns)))) ,@body)))\n        ";

/// How many values of its stack the interpreter may use.
pub const MEMORY_LIMIT: usize = 8192;

/// What is bound into the interpreter.
#[derive(Debug, PartialEq, Eq, Clone, Copy)]
pub enum Primitive {
    EnvGet,
    EnvSet,
    AppendToPathlist,
    PrependToPathlist,
    RemoveFromPathlist,
    RemoveFromPathlistContaining,
    Provide,
    ExpandPath,
    PathConcat,
}

/// A value that the interpreter hands to a primitive, as far as a
/// primitive tells values apart.
#[derive(Debug, PartialEq, Eq)]
pub enum Argument {
    Text(String),
    Unit,
    Other,
}

/// An argument as plain values.
pub ghost enum ArgumentView {
    Text(Seq<char>),
    Unit,
    Other,
}

impl View for Argument {
    type V = ArgumentView;

    open spec fn view(&self) -> ArgumentView {
        match self {
            Argument::Text(s) => ArgumentView::Text(s@),
            Argument::Unit => ArgumentView::Unit,
            Argument::Other => ArgumentView::Other,
        }
    }
}

/// The arguments of a sequence as plain values.
pub open spec fn argument_views(args: Seq<Argument>) -> Seq<ArgumentView> {
    args.map_values(|a: Argument| a@)
}

/// What a primitive answers.
#[derive(Debug, PartialEq, Eq)]
pub enum Reply {
    Unit,
    Text(String),
    /// The host is to expand a leading tilde in this path, make the path
    /// canonical, and answer with the result; it fails where the path does
    /// not exist.
    Expand(String),
}

/// How many arguments a primitive takes.
#[derive(Debug, PartialEq, Eq, Clone, Copy)]
pub enum Arity {
    Exact(u32),
    Range(u32, u32),
    Min(u32),
}

/// Why a primitive refused a call.
#[derive(Debug, PartialEq, Eq)]
pub enum CallError {
    /// It was handed the wrong number of arguments.
    Arity { expected: Arity, found: usize },
    /// The argument at this position is not a string.
    Type { position: usize },
}

/// A reply as plain values.
pub ghost enum ReplyView {
    Unit,
    Text(Seq<char>),
    Expand(Seq<char>),
}

impl View for Reply {
    type V = ReplyView;

    open spec fn view(&self) -> ReplyView {
        match self {
            Reply::Unit => ReplyView::Unit,
            Reply::Text(s) => ReplyView::Text(s@),
            Reply::Expand(s) => ReplyView::Expand(s@),
        }
    }
}

/// The name under which a primitive is bound.
pub open spec fn bound_name(p: Primitive) -> Seq<char> {
    match p {
        Primitive::EnvGet => "env/get"@,
        Primitive::EnvSet => "env/set"@,
        Primitive::AppendToPathlist => "env/append-to-pathlist"@,
        Primitive::PrependToPathlist => "env/prepend-to-pathlist"@,
        Primitive::RemoveFromPathlist => "env/remove-from-pathlist"@,
        Primitive::RemoveFromPathlistContaining => "env/remove-from-pathlist-containing"@,
        Primitive::Provide => "provide"@,
        Primitive::ExpandPath => "expand-path"@,
        Primitive::PathConcat => "path-concat"@,
    }
}

/// How many arguments a primitive takes.
pub open spec fn arity_of(p: Primitive) -> Arity {
    match p {
        Primitive::EnvGet => Arity::Exact(1),
        Primitive::EnvSet => Arity::Exact(2),
        Primitive::AppendToPathlist => Arity::Exact(2),
        Primitive::PrependToPathlist => Arity::Exact(2),
        Primitive::RemoveFromPathlist => Arity::Exact(2),
        Primitive::RemoveFromPathlistContaining => Arity::Exact(2),
        Primitive::Provide => Arity::Range(1, 2),
        Primitive::ExpandPath => Arity::Exact(1),
        Primitive::PathConcat => Arity::Min(0),
    }
}

/// Whether a number of arguments is one that the arity admits.
pub open spec fn admits(arity: Arity, count: nat) -> bool {
    match arity {
        Arity::Exact(n) => count == n,
        Arity::Range(low, high) => low <= count <= high,
        Arity::Min(n) => count >= n,
    }
}

/// The text of an argument that is a string.
pub open spec fn text_of(a: ArgumentView) -> Option<Seq<char>> {
    match a {
        ArgumentView::Text(s) => Some(s),
        _ => None,
    }
}

/// The position of the argument that a primitive finds at fault first,
/// where it finds one: the first that is not a string. `env/set` takes
/// anything as its value, and `provide` looks at the version before the name.
pub open spec fn faulty_argument(p: Primitive, args: Seq<ArgumentView>) -> Option<int> {
    match p {
        Primitive::EnvSet => if text_of(args[0]) is None {
            Some(0)
        } else {
            None
        },
        Primitive::Provide => if args.len() == 2 && text_of(args[1]) is None {
            Some(1)
        } else if text_of(args[0]) is None {
            Some(0)
        } else {
            None
        },
        _ => first_not_text(args),
    }
}

/// The position of the first argument that is not a string.
pub open spec fn first_not_text(args: Seq<ArgumentView>) -> Option<int>
    decreases args.len(),
{
    if args.len() == 0 {
        None
    } else {
        match first_not_text(args.drop_last()) {
            Some(i) => Some(i),
            None => if text_of(args.last()) is None {
                Some(args.len() - 1)
            } else {
                None
            },
        }
    }
}

/// A path with one more piece: the piece alone where it begins with a
/// slash or the path is empty, and otherwise the path, a slash where the
/// path does not end with one, and the piece.
pub open spec fn path_joined(path: Seq<char>, piece: Seq<char>) -> Seq<char> {
    if piece.len() > 0 && piece[0] == '/' {
        piece
    } else if path.len() == 0 {
        piece
    } else if path.last() == '/' {
        path + piece
    } else {
        path + seq!['/'] + piece
    }
}

/// The path that the texts make, joined one after the other.
pub open spec fn concat_path(args: Seq<ArgumentView>) -> Seq<char>
    decreases args.len(),
{
    if args.len() == 0 {
        Seq::empty()
    } else {
        path_joined(concat_path(args.drop_last()), text_of(args.last()).unwrap())
    }
}

/// What a call of a primitive answers where it is accepted.
pub open spec fn answer(v: ShadowenvView, p: Primitive, args: Seq<ArgumentView>) -> ReplyView {
    match p {
        Primitive::EnvGet => match lookup(v.env, text_of(args[0]).unwrap()) {
            Some(value) => ReplyView::Text(value),
            None => ReplyView::Unit,
        },
        Primitive::ExpandPath => ReplyView::Expand(text_of(args[0]).unwrap()),
        Primitive::PathConcat => ReplyView::Text(concat_path(args)),
        _ => ReplyView::Unit,
    }
}

/// What a call of a primitive makes of the overlay where it is accepted.
pub open spec fn effect(v: ShadowenvView, p: Primitive, args: Seq<ArgumentView>) -> ShadowenvView {
    match p {
        Primitive::EnvSet => ShadowenvView {
            env: assign(v.env, text_of(args[0]).unwrap(), text_of(args[1])),
            ..v
        },
        Primitive::AppendToPathlist => ShadowenvView {
            env: appended(v.env, text_of(args[0]).unwrap(), text_of(args[1]).unwrap()),
            lists: v.lists.insert(text_of(args[0]).unwrap()),
            ..v
        },
        Primitive::PrependToPathlist => ShadowenvView {
            env: prepended(v.env, text_of(args[0]).unwrap(), text_of(args[1]).unwrap()),
            lists: v.lists.insert(text_of(args[0]).unwrap()),
            ..v
        },
        Primitive::RemoveFromPathlist => ShadowenvView {
            env: removed(v.env, text_of(args[0]).unwrap(), text_of(args[1]).unwrap()),
            lists: v.lists.insert(text_of(args[0]).unwrap()),
            ..v
        },
        Primitive::RemoveFromPathlistContaining => ShadowenvView {
            env: removed_containing(v.env, text_of(args[0]).unwrap(), text_of(args[1]).unwrap()),
            lists: v.lists.insert(text_of(args[0]).unwrap()),
            ..v
        },
        Primitive::Provide => ShadowenvView {
            features: v.features.insert(
                FeatureView {
                    name: text_of(args[0]).unwrap(),
                    version: if args.len() == 2 {
                        text_of(args[1])
                    } else {
                        None
                    },
                },
            ),
            ..v
        },
        _ => v,
    }
}

/// Whatever a program calls, it changes nothing of the overlay but the
/// environment that it works on, the names that it treats as lists, and the
/// features: the outer environment, the environment of the shell, the names
/// that must not be written, the hash and the directories stay as they are.
pub proof fn law_primitives_keep_the_outer_state(v: ShadowenvView, p: Primitive, args: Seq<ArgumentView>)
    ensures
        effect(v, p, args).unshadowed_env == v.unshadowed_env,
        effect(v, p, args).initial_env == v.initial_env,
        effect(v, p, args).no_clobber == v.no_clobber,
        effect(v, p, args).target_hash == v.target_hash,
        effect(v, p, args).prev_dirs == v.prev_dirs,
        effect(v, p, args).current_dirs == v.current_dirs,
        v.lists.subset_of(effect(v, p, args).lists),
        v.features.subset_of(effect(v, p, args).features),
{
}

/// The primitive that is bound under a name.
pub fn primitive_named(name: &str) -> (r: Option<Primitive>)
    ensures
        match r {
            Some(p) => bound_name(p) == name@,
            None => forall|p: Primitive| bound_name(p) != name@,
        },
{
    if text_eq(name, "env/get") {
        Some(Primitive::EnvGet)
    } else if text_eq(name, "env/set") {
        Some(Primitive::EnvSet)
    } else if text_eq(name, "env/append-to-pathlist") {
        Some(Primitive::AppendToPathlist)
    } else if text_eq(name, "env/prepend-to-pathlist") {
        Some(Primitive::PrependToPathlist)
    } else if text_eq(name, "env/remove-from-pathlist") {
        Some(Primitive::RemoveFromPathlist)
    } else if text_eq(name, "env/remove-from-pathlist-containing") {
        Some(Primitive::RemoveFromPathlistContaining)
    } else if text_eq(name, "provide") {
        Some(Primitive::Provide)
    } else if text_eq(name, "expand-path") {
        Some(Primitive::ExpandPath)
    } else if text_eq(name, "path-concat") {
        Some(Primitive::PathConcat)
    } else {
        None
    }
}

impl Primitive {
    /// The name under which the primitive is bound.
    pub fn name(&self) -> (r: &'static str)
        ensures
            r@ == bound_name(*self),
    {
        match self {
            Primitive::EnvGet => "env/get",
            Primitive::EnvSet => "env/set",
            Primitive::AppendToPathlist => "env/append-to-pathlist",
            Primitive::PrependToPathlist => "env/prepend-to-pathlist",
            Primitive::RemoveFromPathlist => "env/remove-from-pathlist",
            Primitive::RemoveFromPathlistContaining => "env/remove-from-pathlist-containing",
            Primitive::Provide => "provide",
            Primitive::ExpandPath => "expand-path",
            Primitive::PathConcat => "path-concat",
        }
    }

    /// How many arguments the primitive takes.
    pub fn arity(&self) -> (r: Arity)
        ensures
            r == arity_of(*self),
    {
        match self {
            Primitive::EnvGet => Arity::Exact(1),
            Primitive::EnvSet => Arity::Exact(2),
            Primitive::AppendToPathlist => Arity::Exact(2),
            Primitive::PrependToPathlist => Arity::Exact(2),
            Primitive::RemoveFromPathlist => Arity::Exact(2),
            Primitive::RemoveFromPathlistContaining => Arity::Exact(2),
            Primitive::Provide => Arity::Range(1, 2),
            Primitive::ExpandPath => Arity::Exact(1),
            Primitive::PathConcat => Arity::Min(0),
        }
    }
}

/// All primitives, in the order in which the host binds them.
pub fn primitives() -> (r: Vec<Primitive>)
    ensures
        r@ == seq![
            Primitive::PathConcat,
            Primitive::EnvGet,
            Primitive::EnvSet,
            Primitive::AppendToPathlist,
            Primitive::PrependToPathlist,
            Primitive::RemoveFromPathlist,
            Primitive::RemoveFromPathlistContaining,
            Primitive::Provide,
            Primitive::ExpandPath,
        ],
{
    let mut r: Vec<Primitive> = Vec::new();
    r.push(Primitive::PathConcat);
    r.push(Primitive::EnvGet);
    r.push(Primitive::EnvSet);
    r.push(Primitive::AppendToPathlist);
    r.push(Primitive::PrependToPathlist);
    r.push(Primitive::RemoveFromPathlist);
    r.push(Primitive::RemoveFromPathlistContaining);
    r.push(Primitive::Provide);
    r.push(Primitive::ExpandPath);
    assert(r@ =~= seq![
        Primitive::PathConcat,
        Primitive::EnvGet,
        Primitive::EnvSet,
        Primitive::AppendToPathlist,
        Primitive::PrependToPathlist,
        Primitive::RemoveFromPathlist,
        Primitive::RemoveFromPathlistContaining,
        Primitive::Provide,
        Primitive::ExpandPath,
    ]);
    r
}

/// Whether the arity admits a number of arguments.
pub fn arity_admits(arity: Arity, count: usize) -> (r: bool)
    ensures
        r == admits(arity, count as nat),
{
    match arity {
        Arity::Exact(n) => count == n as usize,
        Arity::Range(low, high) => low as usize <= count && count <= high as usize,
        Arity::Min(n) => count >= n as usize,
    }
}

/// The text of the argument at a position, where it is a string.
fn argument_text(args: &Vec<Argument>, position: usize) -> (r: Result<&str, CallError>)
    requires
        position < args@.len(),
    ensures
        match r {
            Ok(s) => text_of(argument_views(args@)[position as int]) == Some(s@),
            Err(e) => text_of(argument_views(args@)[position as int]) is None && e == (
            CallError::Type { position }),
        },
{
    match &args[position] {
        Argument::Text(s) => Ok(s.as_str()),
        _ => Err(CallError::Type { position }),
    }
}

/// A path with one more piece.
pub fn join_path(path: &mut Vec<char>, piece: &str)
    ensures
        final(path)@ == path_joined(old(path)@, piece@),
{
    let chars = chars_of(piece);
    if chars.len() > 0 && chars[0] == '/' {
        path.clear();
        push_text(path, piece);
        assert(path@ =~= piece@);
    } else if path.len() == 0 {
        push_text(path, piece);
        assert(path@ =~= piece@);
    } else if path[path.len() - 1] == '/' {
        push_text(path, piece);
    } else {
        path.push('/');
        push_text(path, piece);
        assert(path@ =~= old(path)@ + seq!['/'] + piece@);
    }
}

/// The path that the arguments make, joined one after the other.
pub fn path_concat(vals: &Vec<Argument>) -> (r: Result<String, CallError>)
    ensures
        match r {
            Ok(path) => first_not_text(argument_views(vals@)) is None && path@ == concat_path(
                argument_views(vals@),
            ),
            Err(e) => first_not_text(argument_views(vals@)) is Some && e == (CallError::Type {
                position: first_not_text(argument_views(vals@)).unwrap() as usize,
            }),
        },
{
    let mut path: Vec<char> = Vec::new();
    let ghost all = argument_views(vals@);
    let mut i: usize = 0;
    assert(all.take(0) =~= Seq::<ArgumentView>::empty());
    while i < vals.len()
        invariant
            i <= vals.len(),
            all == argument_views(vals@),
            first_not_text(all.take(i as int)) is None,
            path@ == concat_path(all.take(i as int)),
        decreases vals.len() - i,
    {
        proof {
            assert(all.take(i + 1).drop_last() =~= all.take(i as int));
            assert(all.take(i + 1).last() == all[i as int]);
        }
        match argument_text(vals, i) {
            Ok(piece) => {
                join_path(&mut path, piece);
            },
            Err(e) => {
                proof {
                    lemma_first_not_text_extends(all, i + 1);
                }
                return Err(e);
            },
        }
        i = i + 1;
    }
    assert(all.take(vals.len() as int) =~= all);
    Ok(string_of(&path))
}

/// The first argument that is not a string among the first `n` is the
/// first among all.
proof fn lemma_first_not_text_extends(args: Seq<ArgumentView>, n: int)
    requires
        0 <= n <= args.len(),
        first_not_text(args.take(n)) is Some,
    ensures
        first_not_text(args) == first_not_text(args.take(n)),
    decreases args.len() - n,
{
    if n == args.len() {
        assert(args.take(n) =~= args);
    } else {
        assert(args.take(n + 1).drop_last() =~= args.take(n));
        lemma_first_not_text_extends(args, n + 1);
    }
}

/// The first argument of two that is not a string.
proof fn lemma_first_not_text_of_two(args: Seq<ArgumentView>)
    requires
        args.len() == 2,
    ensures
        first_not_text(args) == if text_of(args[0]) is None {
            Some(0int)
        } else if text_of(args[1]) is None {
            Some(1int)
        } else {
            None
        },
{
    reveal_with_fuel(first_not_text, 4);
    let one = args.drop_last();
    assert(one.drop_last() =~= Seq::<ArgumentView>::empty());
    assert(one.last() == args[0]);
    assert(first_not_text(one.drop_last()) is None);
}

/// The first argument of one that is not a string.
proof fn lemma_first_not_text_of_one(args: Seq<ArgumentView>)
    requires
        args.len() == 1,
    ensures
        first_not_text(args) == if text_of(args[0]) is None {
            Some(0int)
        } else {
            None
        },
{
    reveal_with_fuel(first_not_text, 3);
    assert(args.drop_last() =~= Seq::<ArgumentView>::empty());
}

/// The position of the first argument that is not a string is one of the
/// positions of the arguments.
pub proof fn lemma_first_not_text_in_range(args: Seq<ArgumentView>)
    ensures
        first_not_text(args) matches Some(i) ==> 0 <= i < args.len(),
    decreases args.len(),
{
    if args.len() > 0 {
        lemma_first_not_text_in_range(args.drop_last());
    }
}

/// Carries out a call of a primitive. A call with a number of arguments
/// that the primitive does not take, or with an argument that is not a
/// string where one is needed, is refused and leaves the overlay as it is.
pub fn call_primitive(shadowenv: &mut Shadowenv, primitive: Primitive, args: &Vec<Argument>) -> (r:
    Result<Reply, CallError>)
    ensures
        match r {
            Ok(reply) => {
                &&& admits(arity_of(primitive), args@.len())
                &&& faulty_argument(primitive, argument_views(args@)) is None
                &&& reply@ == answer(old(shadowenv)@, primitive, argument_views(args@))
                &&& final(shadowenv)@ == effect(old(shadowenv)@, primitive, argument_views(args@))
            },
            Err(e) => {
                &&& final(shadowenv)@ == old(shadowenv)@
                &&& if !admits(arity_of(primitive), args@.len()) {
                    e == (CallError::Arity { expected: arity_of(primitive), found: args@.len() as usize })
                } else {
                    faulty_argument(primitive, argument_views(args@)) is Some && e == (
                    CallError::Type {
                        position: faulty_argument(primitive, argument_views(args@)).unwrap() as usize,
                    }) && 0 <= faulty_argument(primitive, argument_views(args@)).unwrap()
                        < args@.len()
                }
            },
        },
{
    proof {
        lemma_first_not_text_in_range(argument_views(args@));
    }
    let arity = primitive.arity();
    if !arity_admits(arity, args.len()) {
        return Err(CallError::Arity { expected: arity, found: args.len() });
    }
    proof {
        if args@.len() == 1 {
            lemma_first_not_text_of_one(argument_views(args@));
        }
        if args@.len() == 2 {
            lemma_first_not_text_of_two(argument_views(args@));
        }
    }
    match primitive {
        Primitive::PathConcat => match path_concat(args) {
            Ok(path) => Ok(Reply::Text(path)),
            Err(e) => Err(e),
        },
        Primitive::EnvGet => {
            let name = match argument_text(args, 0) {
                Ok(s) => s,
                Err(e) => {
                    return Err(e);
                },
            };
            match shadowenv.get(name) {
                Some(value) => Ok(Reply::Text(value)),
                None => Ok(Reply::Unit),
            }
        },
        Primitive::ExpandPath => {
            let path = match argument_text(args, 0) {
                Ok(s) => s,
                Err(e) => {
                    return Err(e);
                },
            };
            Ok(Reply::Expand(String::from_str(path)))
        },
        Primitive::EnvSet => {
            let name = match argument_text(args, 0) {
                Ok(s) => s,
                Err(e) => {
                    return Err(e);
                },
            };
            let value = match &args[1] {
                Argument::Text(s) => Some(s.as_str()),
                _ => None,
            };
            shadowenv.set(name, value);
            Ok(Reply::Unit)
        },
        Primitive::Provide => {
            let version = if args.len() == 2 {
                match argument_text(args, 1) {
                    Ok(s) => Some(s),
                    Err(e) => {
                        return Err(e);
                    },
                }
            } else {
                None
            };
            let feature = match argument_text(args, 0) {
                Ok(s) => s,
                Err(e) => {
                    return Err(e);
                },
            };
            shadowenv.add_feature(feature, version);
            Ok(Reply::Unit)
        },
        _ => {
            let name = match argument_text(args, 0) {
                Ok(s) => s,
                Err(e) => {
                    return Err(e);
                },
            };
            let value = match argument_text(args, 1) {
                Ok(s) => s,
                Err(e) => {
                    return Err(e);
                },
            };
            match primitive {
                Primitive::AppendToPathlist => shadowenv.append_to_pathlist(name, value),
                Primitive::PrependToPathlist => shadowenv.prepend_to_pathlist(name, value),
                Primitive::RemoveFromPathlist => shadowenv.remove_from_pathlist(name, value),
                _ => shadowenv.remove_from_pathlist_containing(name, value),
            }
            Ok(Reply::Unit)
        },
    }
}

/// A new interpreter in which nothing is bound yet, whose value stack
/// holds `memory_limit` values at most.
///
/// Trusted: `ketos::Builder` with the strict restrictions of
/// `ketos::RestrictConfig`, but for the limit of the value stack; with
/// `ketos::GlobalIo::null`, so that programs print nothing; and with
/// `ketos::module::NullModuleLoader`, so that they load no code.
#[verifier::external_body]
fn new_interpreter(memory_limit: usize) -> ketos::Interpreter {
    let mut restrictions = ketos::RestrictConfig::strict();
    restrictions.memory_limit = memory_limit;
    ketos::Builder::new()
        .restrict(restrictions)
        .io(Rc::new(ketos::GlobalIo::null()))
        .module_loader(Box::new(ketos::module::NullModuleLoader))
        .finish()
}

/// The values that the interpreter hands to a primitive, as arguments.
///
/// Trusted: a conversion of `ketos::Value`, variant by variant: a string
/// is a text, the unit is the unit, and every other value is another one.
#[verifier::external_body]
fn arguments(args: &[ketos::Value]) -> (r: Vec<Argument>)
    ensures
        r@.len() == args@.len(),
{
    args.iter().map(|v| match v {
        ketos::Value::String(s) => Argument::Text(s.to_string()),
        ketos::Value::Unit => Argument::Unit,
        _ => Argument::Other,
    }).collect()
}

/// What a primitive answers, as a value of the interpreter.
///
/// Trusted: a conversion to `ketos::Value`, variant by variant: the unit
/// is the unit, and a text and a path are strings.
#[verifier::external_body]
fn reply_value(reply: Reply) -> ketos::Value {
    match reply {
        Reply::Unit => ketos::Value::Unit,
        Reply::Text(text) => text.into(),
        Reply::Expand(path) => path.into(),
    }
}

/// The error for a call with the wrong number of arguments.
///
/// Trusted: `ExecError::ArityError` of the crate `ketos`, as an error of
/// the interpreter, with the arity as a `ketos::Arity`, variant by variant.
#[verifier::external_body]
fn arity_error(name: ketos::Name, expected: Arity, found: u32) -> ketos::Error {
    let expected = match expected {
        Arity::Exact(n) => ketos::Arity::Exact(n),
        Arity::Range(low, high) => ketos::Arity::Range(low, high),
        Arity::Min(n) => ketos::Arity::Min(n),
    };
    ketos::ExecError::ArityError { name: Some(name), expected, found }.into()
}

/// The error for a value that is no string.
///
/// Trusted: `ExecError::expected` of the crate `ketos`, as an error of the
/// interpreter.
#[verifier::external_body]
fn type_error(value: &ketos::Value) -> ketos::Error {
    ketos::ExecError::expected("string", value).into()
}

/// Binds a primitive into an interpreter under the given name: a call of
/// it is served from the overlay that the cell holds.
///
/// Trusted: `Scope::add_value_with_name` and `Value::new_foreign_fn` of the
/// crate `ketos`, with a function that borrows the overlay from the cell
/// and calls `serve`.
#[verifier::external_body]
fn bind(
    interp: &ketos::Interpreter,
    overlay: &Rc<RefCell<Shadowenv>>,
    primitive: Primitive,
    name: &str,
) {
    let overlay = overlay.clone();
    interp.scope().add_value_with_name(name, |name| {
        ketos::Value::new_foreign_fn(name, move |_ctx, args| {
            serve(&mut overlay.borrow_mut(), primitive, name, args)
        })
    });
}

/// Runs code in an interpreter.
///
/// Trusted: `Interpreter::run_code` of the crate `ketos`. Nothing is
/// claimed of the outcome.
#[verifier::external_body]
fn run_code(interp: &ketos::Interpreter, code: &str, file: Option<String>) -> Result<(), ketos::Error> {
    interp.run_code(code, file).map(|_| ())
}

/// Calls a function that an interpreter holds, with one argument.
///
/// Trusted: `Interpreter::call` of the crate `ketos`. Nothing is claimed of
/// the outcome.
#[verifier::external_body]
fn call_thunk(interp: &ketos::Interpreter, thunk: &str, argument: &ketos::Value) -> Result<
    (),
    ketos::Error,
> {
    interp.call(thunk, vec![argument.clone()]).map(|_| ())
}

/// What the interpreter says of an error.
///
/// Trusted: `Interpreter::format_error` of the crate `ketos`. Nothing is
/// claimed of the text.
#[verifier::external_body]
fn error_text(interp: &ketos::Interpreter, err: &ketos::Error) -> String {
    interp.format_error(err)
}

/// What the interpreter says of where its last error came from, where it
/// has kept that.
///
/// Trusted: `Interpreter::get_traceback` and `Interpreter::format_trace` of
/// the crate `ketos`. Nothing is claimed of the text.
#[verifier::external_body]
fn traceback_text(interp: &ketos::Interpreter) -> Option<String> {
    interp.get_traceback().map(|trace| interp.format_trace(&trace))
}

/// How a failure of a program is shown: what the interpreter says of the
/// error, and below it, after an empty line, where the error came from, as
/// far as the interpreter has kept that.
pub open spec fn diagnostic_text(error: Seq<char>, traceback: Option<Seq<char>>) -> Seq<char> {
    match traceback {
        Some(trace) => error + "\n\nTraceback:\n\n"@ + trace + "\n"@,
        None => error + "\n"@,
    }
}

/// How a failure of a program is shown.
pub fn diagnostic(error: &str, traceback: &Option<String>) -> (r: String)
    ensures
        r@ == diagnostic_text(error@, optional_text(*traceback)),
{
    let mut out = chars_of(error);
    match traceback {
        Some(trace) => {
            push_text(&mut out, "\n\nTraceback:\n\n");
            push_text(&mut out, trace.as_str());
            push_text(&mut out, "\n");
        },
        None => {
            push_text(&mut out, "\n");
        },
    }
    string_of(&out)
}

/// The failure of a program in an interpreter, as it is handed on: what
/// `diagnostic` makes of the interpreter's words for the error and of its
/// traceback.
fn failure(interp: &ketos::Interpreter, err: &ketos::Error) -> (r: ShadowlispError)
    ensures
        exists|error: Seq<char>, trace: Option<Seq<char>>|
            r.diagnostic@ == #[trigger] diagnostic_text(error, trace),
{
    let error = error_text(interp, err);
    let traceback = traceback_text(interp);
    ShadowlispError { diagnostic: diagnostic(error.as_str(), &traceback) }
}

/// What an evaluation does next: that of the programs of a directory,
/// which goes step by step, or that of a chain, where a step is the
/// evaluation of the programs of one directory.
#[derive(Debug, PartialEq, Eq)]
pub enum Next {
    /// It carries out the step at this position.
    Step(usize),
    /// It is done: every step was carried out.
    Done,
    /// It fails, and carries out no further step.
    Failed(ShadowlispError),
}

/// What the evaluation does next, as plain values.
pub ghost enum NextView {
    Step(usize),
    Done,
    Failed(Seq<char>),
}

impl View for Next {
    type V = NextView;

    open spec fn view(&self) -> NextView {
        match self {
            Next::Step(i) => NextView::Step(*i),
            Next::Done => NextView::Done,
            Next::Failed(e) => NextView::Failed(e.diagnostic@),
        }
    }
}

/// What the evaluation does after the prelude and the first `done` of
/// `count` steps were carried out, given the outcome of what was carried
/// out last, which is the diagnostic where that failed: after a failure it
/// fails; else it carries out the next step, and it is done after the last.
pub open spec fn next_of(count: nat, done: nat, failure: Option<Seq<char>>) -> NextView {
    match failure {
        Some(diagnostic) => NextView::Failed(diagnostic),
        None => if done < count {
            NextView::Step(done as usize)
        } else {
            NextView::Done
        },
    }
}

/// What the evaluation does after the prelude and the first `done` of
/// `count` steps were carried out, given the outcome of what was carried
/// out last.
pub fn next_action(count: usize, done: usize, outcome: Result<(), ShadowlispError>) -> (r: Next)
    ensures
        r@ == next_of(
            count as nat,
            done as nat,
            match outcome {
                Ok(_) => None,
                Err(e) => Some(e.diagnostic@),
            },
        ),
{
    match outcome {
        Err(e) => Next::Failed(e),
        Ok(_) => if done < count {
            Next::Step(done)
        } else {
            Next::Done
        },
    }
}

/// What the evaluation of a chain does after the programs of the first
/// `done` of its `count` directories were evaluated, the outermost
/// directory first, given the outcome of the evaluation that was made
/// last: after a failure it fails, and evaluates the programs of no further
/// directory; else it goes on with the next directory, and it is done after
/// the innermost.
pub fn next_source(count: usize, done: usize, outcome: Result<(), ShadowlispError>) -> (r: Next)
    ensures
        r@ == next_of(
            count as nat,
            done as nat,
            match outcome {
                Ok(_) => None,
                Err(e) => Some(e.diagnostic@),
            },
        ),
{
    next_action(count, done, outcome)
}

/// Carries out a step in an interpreter.
fn carry_out(interp: &ketos::Interpreter, step: &Step, env: &ketos::Value) -> (r: Result<
    (),
    ShadowlispError,
>)
    ensures
        r matches Err(e) ==> exists|error: Seq<char>, trace: Option<Seq<char>>|
            e.diagnostic@ == #[trigger] diagnostic_text(error, trace),
{
    let outcome = match step {
        Step::Define { thunk, code, file } => run_code(interp, code.as_str(), Some(file.clone())),
        Step::Call { thunk } => call_thunk(interp, thunk.as_str(), env),
    };
    match outcome {
        Ok(_) => Ok(()),
        Err(err) => Err(failure(interp, &err)),
    }
}

/// Whether a call of a primitive with the given arguments accounts for
/// what became of the overlay: the call was refused and the overlay is as
/// it was, or it was accepted and the overlay is what the call makes of it.
pub open spec fn accounts_for(
    before: ShadowenvView,
    after: ShadowenvView,
    p: Primitive,
    args: Seq<ArgumentView>,
) -> bool {
    if admits(arity_of(p), args.len()) && faulty_argument(p, args) is None {
        after == effect(before, p, args)
    } else {
        after == before
    }
}

/// Serves a call of a primitive that the interpreter makes: the values are
/// taken as arguments, the primitive is called, and its answer is handed
/// back. Whatever the values are, the overlay changes as a call of the
/// primitive with as many arguments changes it, which leaves the outer
/// state of the overlay as it is.
pub fn serve(overlay: &mut Shadowenv, primitive: Primitive, name: ketos::Name, args: &[ketos::Value]) -> (r:
    Result<ketos::Value, ketos::Error>)
    ensures
        final(overlay)@.unshadowed_env == old(overlay)@.unshadowed_env,
        final(overlay)@.initial_env == old(overlay)@.initial_env,
        final(overlay)@.no_clobber == old(overlay)@.no_clobber,
        final(overlay)@.target_hash == old(overlay)@.target_hash,
        final(overlay)@.prev_dirs == old(overlay)@.prev_dirs,
        final(overlay)@.current_dirs == old(overlay)@.current_dirs,
        exists|a: Seq<ArgumentView>|
            a.len() == args@.len() && #[trigger] accounts_for(
                old(overlay)@,
                final(overlay)@,
                primitive,
                a,
            ),
{
    let arguments = arguments(args);
    let outcome = call_primitive(overlay, primitive, &arguments);
    assert(accounts_for(old(overlay)@, overlay@, primitive, argument_views(arguments@)));
    match outcome {
        Ok(reply) => Ok(reply_value(reply)),
        Err(CallError::Type { position }) => Err(type_error(&args[position])),
        Err(CallError::Arity { expected, found }) => {
            let found: u32 = if found > u32::MAX as usize {
                u32::MAX
            } else {
                found as u32
            };
            Err(arity_error(name, expected, found))
        },
    }
}

/// What the interpreter is to do for a program.
#[derive(Debug, PartialEq, Eq)]
pub enum Step {
    /// Run the code, which defines a function of this name; the code comes
    /// from the file of the given name.
    Define { thunk: String, code: String, file: String },
    /// Call the function of this name with the overlay as its argument.
    Call { thunk: String },
}

/// A step as plain values.
pub ghost enum StepView {
    Define { thunk: Seq<char>, code: Seq<char>, file: Seq<char> },
    Call { thunk: Seq<char> },
}

impl View for Step {
    type V = StepView;

    open spec fn view(&self) -> StepView {
        match self {
            Step::Define { thunk, code, file } => StepView::Define {
                thunk: thunk@,
                code: code@,
                file: file@,
            },
            Step::Call { thunk } => StepView::Call { thunk: thunk@ },
        }
    }
}

/// The name of the function that holds the program of a file.
pub open spec fn thunk_name(file: Seq<char>) -> Seq<char> {
    "__shadowenv__"@ + file
}

/// The code that defines the function that holds a program.
pub open spec fn thunk_code(f: FileView) -> Seq<char> {
    "(define ("@ + thunk_name(f.name) + " env) (do "@ + f.contents + "))"@
}

/// What the interpreter is to do for the programs of a directory: define
/// the function of each file, the files in the order of their names, and
/// then call the functions in the same order.
pub open spec fn steps_of(s: SourceView) -> Seq<StepView> {
    let files = sorted_files(s.files);
    files.map_values(
        |f: FileView| StepView::Define { thunk: thunk_name(f.name), code: thunk_code(f), file: f.name },
    ) + files.map_values(|f: FileView| StepView::Call { thunk: thunk_name(f.name) })
}

/// The steps of a sequence as plain values.
pub open spec fn step_views(steps: Seq<Step>) -> Seq<StepView> {
    steps.map_values(|s: Step| s@)
}

/// The name of the function that holds the program of a file.
fn thunk_of(file: &SourceFile) -> (r: String)
    ensures
        r@ == thunk_name(file@.name),
{
    let mut out: Vec<char> = Vec::new();
    push_text(&mut out, "__shadowenv__");
    push_text(&mut out, file.name.as_str());
    assert(out@ =~= thunk_name(file@.name));
    string_of(&out)
}

/// The code that defines the function that holds a program.
fn definition_of(file: &SourceFile) -> (r: String)
    ensures
        r@ == thunk_code(file@),
{
    let mut out: Vec<char> = Vec::new();
    push_text(&mut out, "(define (");
    push_text(&mut out, thunk_of(file).as_str());
    push_text(&mut out, " env) (do ");
    push_text(&mut out, file.contents.as_str());
    push_text(&mut out, "))");
    assert(out@ =~= thunk_code(file@));
    string_of(&out)
}

impl ShadowLang {
    /// A new interpreter for the programs of one directory. It may use
    /// little time and memory, prints nothing and loads no code, and it
    /// holds, each under its name, the primitives that work on the overlay
    /// in the cell and `path-concat`. The host binds `expand-path`, which
    /// looks at the disk.
    pub fn interpreter(overlay: &Rc<RefCell<Shadowenv>>) -> ketos::Interpreter {
        let interp = new_interpreter(MEMORY_LIMIT);
        let bound = primitives();
        let mut i: usize = 0;
        while i < bound.len()
            invariant
                i <= bound.len(),
            decreases bound.len() - i,
        {
            match bound[i] {
                Primitive::ExpandPath => {},
                p => bind(&interp, overlay, p, p.name()),
            }
            i = i + 1;
        }
        interp
    }

    /// Evaluates the programs of a directory in an interpreter: first the
    /// prelude, then the steps that `program_steps` lists, one after the
    /// other as `next_action` says; `env` is what each program is called
    /// with. The first failure ends the evaluation, and what is handed
    /// back is then what `diagnostic` makes of the interpreter's words for
    /// the error and of its traceback.
    pub fn run(interp: &ketos::Interpreter, source: &Source, env: &ketos::Value) -> (r: Result<
        (),
        ShadowlispError,
    >)
        ensures
            r matches Err(e) ==> exists|error: Seq<char>, trace: Option<Seq<char>>|
                e.diagnostic@ == #[trigger] diagnostic_text(error, trace),
    {
        let steps = ShadowLang::program_steps(source);
        let mut outcome = match run_code(interp, PRELUDE, None) {
            Ok(_) => Ok(()),
            Err(err) => Err(failure(interp, &err)),
        };
        let mut done: usize = 0;
        loop
            invariant
                done <= steps.len(),
                outcome matches Err(e) ==> exists|error: Seq<char>, trace: Option<Seq<char>>|
                    e.diagnostic@ == #[trigger] diagnostic_text(error, trace),
            decreases steps.len() - done,
        {
            match next_action(steps.len(), done, outcome) {
                Next::Failed(e) => {
                    return Err(e);
                },
                Next::Done => {
                    return Ok(());
                },
                Next::Step(i) => {
                    outcome = carry_out(interp, &steps[i], env);
                    done = i + 1;
                },
            }
        }
    }

    /// What the interpreter is to do for the programs of a directory.
    pub fn program_steps(source: &Source) -> (steps: Vec<Step>)
        ensures
            step_views(steps@) == steps_of(source@),
    {
        let files = sort_files(&source.files);
        let ghost sorted = sorted_files(source@.files);
        let ghost defines = sorted.map_values(
            |f: FileView|
                StepView::Define { thunk: thunk_name(f.name), code: thunk_code(f), file: f.name },
        );
        let ghost calls = sorted.map_values(|f: FileView| StepView::Call { thunk: thunk_name(f.name) });
        let mut steps: Vec<Step> = Vec::new();
        let mut i: usize = 0;
        while i < files.len()
            invariant
                i <= files.len(),
                file_views(files@) == sorted,
                steps@.len() == i,
                forall|k: int| 0 <= k < i ==> (#[trigger] steps@[k])@ == defines[k],
                defines == sorted.map_values(
                    |f: FileView|
                        StepView::Define {
                            thunk: thunk_name(f.name),
                            code: thunk_code(f),
                            file: f.name,
                        },
                ),
            decreases files.len() - i,
        {
            let file = &files[i];
            assert(sorted[i as int] == file@);
            steps.push(
                Step::Define {
                    thunk: thunk_of(file),
                    code: definition_of(file),
                    file: file.name.clone(),
                },
            );
            i = i + 1;
        }
        let mut k: usize = 0;
        while k < files.len()
            invariant
                k <= files.len(),
                file_views(files@) == sorted,
                steps@.len() == files.len() + k,
                forall|n: int| 0 <= n < files.len() ==> (#[trigger] steps@[n])@ == defines[n],
                forall|n: int| 0 <= n < k ==> (#[trigger] steps@[files.len() + n])@ == calls[n],
                calls == sorted.map_values(
                    |f: FileView| StepView::Call { thunk: thunk_name(f.name) },
                ),
                defines.len() == files.len(),
            decreases files.len() - k,
        {
            let file = &files[k];
            assert(sorted[k as int] == file@);
            steps.push(Step::Call { thunk: thunk_of(file) });
            k = k + 1;
        }
        proof {
            let all = defines + calls;
            assert(calls.len() == files.len());
            assert forall|n: int| 0 <= n < steps@.len() implies step_views(steps@)[n] == all[n] by {
                if n < files.len() {
                    assert(steps@[n]@ == defines[n]);
                } else {
                    assert(steps@[files.len() + (n - files.len())]@ == calls[n - files.len()]);
                }
            }
            assert(step_views(steps@) =~= all);
        }
        steps
    }

    /// The overlay after the programs of a chain were evaluated: it knows
    /// the directories of the chain as they are shown.
    pub fn finish(shadowenv: Shadowenv, sources: &SourceList) -> (r: Shadowenv)
        ensures
            r@.env == shadowenv@.env,
            r@.unshadowed_env == shadowenv@.unshadowed_env,
            r@.initial_env == shadowenv@.initial_env,
            r@.no_clobber == shadowenv@.no_clobber,
            r@.lists == shadowenv@.lists,
            r@.features == shadowenv@.features,
            r@.target_hash == shadowenv@.target_hash,
            r@.prev_dirs == shadowenv@.prev_dirs,
            forall|d: Seq<char>|
                r@.current_dirs.contains(d) <==> shadowenv@.current_dirs.contains(d) || exists|
                    i: int,
                |
                    0 <= i < sources@.len() && d == shortened(
                        (#[trigger] sources@[i]).dir,
                        shortening_depth(sources@),
                    ),
    {
        let mut result = shadowenv;
        let dirs = sources.shortened_dirs();
        result.add_dirs(dirs);
        proof {
            let shown = string_texts(dirs@);
            assert forall|d: Seq<char>|
                result@.current_dirs.contains(d) <==> shadowenv@.current_dirs.contains(d) || exists|
                    i: int,
                |
                    0 <= i < sources@.len() && d == shortened(
                        (#[trigger] sources@[i]).dir,
                        shortening_depth(sources@),
                    ) by {
                if shown.contains(d) {
                    let i = shown.index_of(d);
                    assert(shown[i] == dirs@[i]@);
                    assert(d == shortened(sources@[i].dir, shortening_depth(sources@)));
                }
                if exists|i: int|
                    0 <= i < sources@.len() && d == shortened(
                        (#[trigger] sources@[i]).dir,
                        shortening_depth(sources@),
                    ) {
                    let i = choose|i: int|
                        0 <= i < sources@.len() && d == shortened(
                            (#[trigger] sources@[i]).dir,
                            shortening_depth(sources@),
                        );
                    assert(shown[i] == dirs@[i]@);
                    assert(shown.contains(d));
                }
            }
        }
        result
    }
}

impl ShadowlispError {
    /// The message for the user.
    pub fn to_string(&self) -> (r: String)
        ensures
            r@ == "error while evaluating shadowlisp"@,
    {
        String::from_str("error while evaluating shadowlisp")
    }
}

} // verus!
