use shadowenv::env::Env;
use shadowenv::features::Feature;
use shadowenv::hash::{Source, SourceList};
use shadowenv::lang::{
    arity_admits, call_primitive, diagnostic, path_concat, primitive_named, primitives, Argument, Arity,
    next_action, next_source, CallError, Next, Primitive, Reply, ShadowLang, ShadowlispError, Step,
};
use shadowenv::shadowenv::Shadowenv;
use shadowenv::undo::Data;

fn text(s: &str) -> Argument {
    Argument::Text(s.to_string())
}

fn overlay(pairs: &[(&str, &str)]) -> Shadowenv {
    let env = Env::from_pairs(pairs.iter().map(|(k, v)| (k.to_string(), v.to_string())).collect());
    Shadowenv::new(env, Data::new(), 0, vec![])
}

#[test]
fn expand_path_hands_the_path_on_to_the_host() {
    let mut shadowenv = overlay(&[]);
    assert_eq!(
        call_primitive(&mut shadowenv, Primitive::ExpandPath, &vec![text("~")]),
        Ok(Reply::Expand("~".to_string()))
    );
    assert_eq!(
        call_primitive(&mut shadowenv, Primitive::ExpandPath, &vec![]),
        Err(CallError::Arity { expected: Arity::Exact(1), found: 0 })
    );
    assert_eq!(
        call_primitive(&mut shadowenv, Primitive::ExpandPath, &vec![Argument::Unit]),
        Err(CallError::Type { position: 0 })
    );
}

#[test]
fn primitives_have_their_names_and_arities() {
    let names: Vec<&str> = primitives().iter().map(|p| p.name()).collect();
    assert_eq!(
        names,
        vec![
            "path-concat",
            "env/get",
            "env/set",
            "env/append-to-pathlist",
            "env/prepend-to-pathlist",
            "env/remove-from-pathlist",
            "env/remove-from-pathlist-containing",
            "provide",
            "expand-path",
        ]
    );
    for p in primitives() {
        assert_eq!(primitive_named(p.name()), Some(p));
    }
    assert_eq!(primitive_named("env/ejson"), None);
    assert_eq!(Primitive::EnvGet.arity(), Arity::Exact(1));
    assert_eq!(Primitive::EnvSet.arity(), Arity::Exact(2));
    assert_eq!(Primitive::Provide.arity(), Arity::Range(1, 2));
    assert_eq!(Primitive::PathConcat.arity(), Arity::Min(0));
    assert!(arity_admits(Arity::Range(1, 2), 1));
    assert!(arity_admits(Arity::Range(1, 2), 2));
    assert!(!arity_admits(Arity::Range(1, 2), 0));
    assert!(!arity_admits(Arity::Range(1, 2), 3));
    assert!(arity_admits(Arity::Min(0), 7));
    assert!(!arity_admits(Arity::Exact(2), 1));
}

#[test]
fn get_and_set() {
    let mut shadowenv = overlay(&[("A", "1")]);
    assert_eq!(
        call_primitive(&mut shadowenv, Primitive::EnvGet, &vec![text("A")]),
        Ok(Reply::Text("1".to_string()))
    );
    assert_eq!(
        call_primitive(&mut shadowenv, Primitive::EnvGet, &vec![text("B")]),
        Ok(Reply::Unit)
    );
    assert_eq!(
        call_primitive(&mut shadowenv, Primitive::EnvSet, &vec![text("B"), text("2")]),
        Ok(Reply::Unit)
    );
    assert_eq!(shadowenv.get("B"), Some("2".to_string()));
    // anything but a string unsets
    assert_eq!(
        call_primitive(&mut shadowenv, Primitive::EnvSet, &vec![text("A"), Argument::Unit]),
        Ok(Reply::Unit)
    );
    assert_eq!(shadowenv.get("A"), None);
    assert_eq!(
        call_primitive(&mut shadowenv, Primitive::EnvSet, &vec![text("B"), Argument::Other]),
        Ok(Reply::Unit)
    );
    assert_eq!(shadowenv.get("B"), None);
}

#[test]
fn refused_calls_leave_the_overlay_alone() {
    let mut shadowenv = overlay(&[("A", "1")]);
    assert_eq!(
        call_primitive(&mut shadowenv, Primitive::EnvSet, &vec![text("A")]),
        Err(CallError::Arity { expected: Arity::Exact(2), found: 1 })
    );
    assert_eq!(
        call_primitive(&mut shadowenv, Primitive::EnvSet, &vec![Argument::Other, text("x")]),
        Err(CallError::Type { position: 0 })
    );
    assert_eq!(
        call_primitive(&mut shadowenv, Primitive::AppendToPathlist, &vec![text("A"), Argument::Unit]),
        Err(CallError::Type { position: 1 })
    );
    assert_eq!(
        call_primitive(&mut shadowenv, Primitive::AppendToPathlist, &vec![Argument::Unit, Argument::Unit]),
        Err(CallError::Type { position: 0 })
    );
    assert_eq!(
        call_primitive(&mut shadowenv, Primitive::Provide, &vec![]),
        Err(CallError::Arity { expected: Arity::Range(1, 2), found: 0 })
    );
    assert_eq!(
        call_primitive(&mut shadowenv, Primitive::Provide, &vec![Argument::Other, Argument::Other]),
        Err(CallError::Type { position: 1 })
    );
    assert_eq!(
        call_primitive(&mut shadowenv, Primitive::Provide, &vec![Argument::Other, text("1")]),
        Err(CallError::Type { position: 0 })
    );
    assert_eq!(shadowenv.get("A"), Some("1".to_string()));
    assert!(shadowenv.features().is_empty());
    assert!(shadowenv.shadowenv_data().lists.is_empty());
    assert_eq!(shadowenv.exports().len(), 1);
}

#[test]
fn pathlists_and_features() {
    let mut shadowenv = overlay(&[("P", "/a:/b")]);
    call_primitive(&mut shadowenv, Primitive::AppendToPathlist, &vec![text("P"), text("/c")]).unwrap();
    call_primitive(&mut shadowenv, Primitive::PrependToPathlist, &vec![text("P"), text("/z")]).unwrap();
    assert_eq!(shadowenv.get("P"), Some("/z:/a:/b:/c".to_string()));
    call_primitive(&mut shadowenv, Primitive::RemoveFromPathlist, &vec![text("P"), text("/a")]).unwrap();
    assert_eq!(shadowenv.get("P"), Some("/z:/b:/c".to_string()));
    call_primitive(&mut shadowenv, Primitive::RemoveFromPathlistContaining, &vec![text("P"), text("z")]).unwrap();
    assert_eq!(shadowenv.get("P"), Some("/b:/c".to_string()));
    call_primitive(&mut shadowenv, Primitive::Provide, &vec![text("ruby")]).unwrap();
    call_primitive(&mut shadowenv, Primitive::Provide, &vec![text("rust"), text("1.70")]).unwrap();
    assert_eq!(
        shadowenv.features(),
        vec![
            Feature::new("ruby".to_string(), None),
            Feature::new("rust".to_string(), Some("1.70".to_string()))
        ]
    );
}

#[test]
fn path_concat_joins_as_paths_do() {
    assert_eq!(path_concat(&vec![]), Ok("".to_string()));
    assert_eq!(path_concat(&vec![text("/gem_home"), text("bin")]), Ok("/gem_home/bin".to_string()));
    assert_eq!(path_concat(&vec![text("a/"), text("b")]), Ok("a/b".to_string()));
    assert_eq!(path_concat(&vec![text("a"), text("/b"), text("c")]), Ok("/b/c".to_string()));
    assert_eq!(path_concat(&vec![text("a"), text("")]), Ok("a/".to_string()));
    assert_eq!(path_concat(&vec![text(""), text("b")]), Ok("b".to_string()));
    assert_eq!(
        path_concat(&vec![text("a"), Argument::Unit, Argument::Other]),
        Err(CallError::Type { position: 1 })
    );
    let mut shadowenv = overlay(&[]);
    assert_eq!(
        call_primitive(&mut shadowenv, Primitive::PathConcat, &vec![text("x"), text("y"), text("z")]),
        Ok(Reply::Text("x/y/z".to_string()))
    );
    for (a, b) in [("a", "b"), ("a/", "b"), ("a", "/b"), ("", "b"), ("a", ""), ("/", "x")] {
        let expected = std::path::PathBuf::from(a).join(b).to_string_lossy().to_string();
        assert_eq!(path_concat(&vec![text(a), text(b)]), Ok(expected));
    }
}

#[test]
fn steps_define_all_programs_and_then_call_them() {
    let mut source = Source::new("/w");
    source.add_file("20.lisp", "(b)");
    source.add_file("10.lisp", "(a)");
    assert_eq!(
        ShadowLang::program_steps(&source),
        vec![
            Step::Define {
                thunk: "__shadowenv__10.lisp".to_string(),
                code: "(define (__shadowenv__10.lisp env) (do (a)))".to_string(),
                file: "10.lisp".to_string()
            },
            Step::Define {
                thunk: "__shadowenv__20.lisp".to_string(),
                code: "(define (__shadowenv__20.lisp env) (do (b)))".to_string(),
                file: "20.lisp".to_string()
            },
            Step::Call { thunk: "__shadowenv__10.lisp".to_string() },
            Step::Call { thunk: "__shadowenv__20.lisp".to_string() },
        ]
    );
    assert!(ShadowLang::program_steps(&Source::new("/w")).is_empty());
}

#[test]
fn diagnostics_end_with_the_traceback() {
    assert_eq!(diagnostic("type error", &None), "type error\n");
    assert_eq!(
        diagnostic("type error", &Some("  In main, lambda".to_string())),
        "type error\n\nTraceback:\n\n  In main, lambda\n"
    );
}

#[test]
fn steps_follow_each_other_until_one_fails() {
    // after the prelude the first step comes, after each step the next, and after the last none
    assert_eq!(next_action(2, 0, Ok(())), Next::Step(0));
    assert_eq!(next_action(2, 1, Ok(())), Next::Step(1));
    assert_eq!(next_action(2, 2, Ok(())), Next::Done);
    assert_eq!(next_action(0, 0, Ok(())), Next::Done);
    // a failure of the prelude or of a step ends the evaluation
    let failed = || ShadowlispError { diagnostic: "name error\n".to_string() };
    assert_eq!(next_action(2, 0, Err(failed())), Next::Failed(failed()));
    assert_eq!(next_action(2, 1, Err(failed())), Next::Failed(failed()));
    assert_eq!(next_action(2, 2, Err(failed())), Next::Failed(failed()));
}

#[test]
fn directories_follow_each_other_until_one_fails() {
    // the outermost directory comes first, and after the innermost none
    assert_eq!(next_source(3, 0, Ok(())), Next::Step(0));
    assert_eq!(next_source(3, 1, Ok(())), Next::Step(1));
    assert_eq!(next_source(3, 2, Ok(())), Next::Step(2));
    assert_eq!(next_source(3, 3, Ok(())), Next::Done);
    assert_eq!(next_source(0, 0, Ok(())), Next::Done);
    // after a failure no further directory is evaluated
    let failed = || ShadowlispError { diagnostic: "name error\n".to_string() };
    assert_eq!(next_source(3, 1, Err(failed())), Next::Failed(failed()));
    assert_eq!(next_source(3, 3, Err(failed())), Next::Failed(failed()));
}

#[test]
fn finish_records_the_directories_of_the_chain() {
    let chain = SourceList::new_with_sources(vec![Source::new("/home/u/p"), Source::new("/home/u/p/q")]);
    let shadowenv = ShadowLang::finish(overlay(&[("A", "1")]), &chain);
    assert_eq!(shadowenv.current_dirs(), vec!["p".to_string(), "p/q".to_string()]);
    assert_eq!(shadowenv.get("A"), Some("1".to_string()));
    let error = ShadowlispError { diagnostic: "execution error".to_string() };
    assert_eq!(error.to_string(), "error while evaluating shadowlisp");
}
