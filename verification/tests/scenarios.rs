use ketos::Value;
use shadowenv::env::Env;
use shadowenv::hash::{Source, SourceList};
use shadowenv::hook::{apply_env, load_env, target_hash, Plan, VariableOutputMode};
use shadowenv::lang::{next_source, serve, Next, Primitive, ShadowLang, ShadowlispError};
use shadowenv::hook::{error_sentinel, handle_hook_error, ErrorReport, HookError};
use shadowenv::output::Elapsed;
use shadowenv::shadowenv::Shadowenv;
use shadowenv::trust::{ensure_dir_tree_trusted, trust_dir, TrustProbe};
use shadowenv::undo::{Data, List, Scalar};
use std::cell::RefCell;
use std::collections::HashMap;
use std::rc::Rc;

fn evaluate(shadowenv: Shadowenv, chain: &SourceList) -> Result<Shadowenv, ShadowlispError> {
    let overlay = Rc::new(RefCell::new(shadowenv));
    let sources = chain.clone().consume();
    let mut outcome = Ok(());
    let mut done = 0;
    loop {
        match next_source(sources.len(), done, outcome) {
            Next::Failed(err) => return Err(err),
            Next::Done => break,
            Next::Step(i) => {
                let interp = ShadowLang::interpreter(&overlay);
                outcome = ShadowLang::run(&interp, &sources[i], &Value::Unit);
                done = i + 1;
            }
        }
    }
    let overlay = Rc::try_unwrap(overlay).ok().unwrap().into_inner();
    Ok(ShadowLang::finish(overlay, chain))
}

fn source(dir: &str, files: &[(&str, &str)]) -> Source {
    let mut source = Source::new(dir);
    for (name, contents) in files {
        source.add_file(name, contents);
    }
    source
}

fn env_of(pairs: &[(&str, &str)]) -> Env {
    Env::from_pairs(pairs.iter().map(|(k, v)| (k.to_string(), v.to_string())).collect())
}

const KEY: [u8; 32] = [7u8; 32];

/// A token for each directory of the chain.
fn tokens(chain: &SourceList) -> Vec<TrustProbe> {
    chain
        .clone()
        .consume()
        .iter()
        .rev()
        .map(|source| {
            let root = format!("{}/.shadowenv.d", source.dir);
            let token = Some(trust_dir(&KEY, &root).signature);
            TrustProbe { root, token }
        })
        .collect()
}

/// One invocation of the hook: the lines for a POSIX shell, or nothing.
fn hook(env: &[(&str, &str)], record: &str, chain: &SourceList, force: bool) -> Option<String> {
    match load_env(record, chain, force, &KEY, &tokens(chain)).unwrap() {
        Plan::Nothing => None,
        Plan::Activate { data, target_hash } => {
            let overlay = Shadowenv::new(env_of(env), data, target_hash, vec![]);
            let overlay = evaluate(overlay, chain).unwrap();
            Some(apply_env(&overlay, VariableOutputMode::Posix))
        }
    }
}

#[test]
fn activation_from_empty() {
    let chain = SourceList::new_with_sources(vec![source("/w", &[("00.lisp", "(env/set \"FOO\" \"bar\")")])]);
    let h = target_hash(&chain).unwrap();
    let script = hook(&[("PATH", "/usr/bin")], "", &chain, false).unwrap();
    let expected = format!(
        "export __shadowenv_data='{:016x}:{{\"scalars\":[{{\"name\":\"FOO\",\"original\":null,\"current\":\"bar\",\"no_clobber\":false}}],\"lists\":[]}}'\nexport FOO=bar\n",
        h
    );
    assert_eq!(script, expected);
}

#[test]
fn deactivation() {
    let chain = SourceList::new();
    let record = "00000000000000aa:{\"scalars\":[{\"name\":\"FOO\",\"original\":null,\"current\":\"bar\"}],\"lists\":[]}";
    let script = hook(&[("FOO", "bar")], record, &chain, false).unwrap();
    assert_eq!(
        script,
        "export __shadowenv_data='0000000000000000:{\"scalars\":[],\"lists\":[]}'\nunset FOO\n"
    );
}

#[test]
fn reactivation_on_drift() {
    let chain = SourceList::new_with_sources(vec![source("/w", &[("00.lisp", "(env/set \"FOO\" \"bar\")")])]);
    let h = target_hash(&chain).unwrap();
    let record = "00000000000000aa:{\"scalars\":[{\"name\":\"FOO\",\"original\":null,\"current\":\"bar\"}],\"lists\":[]}";
    let script = hook(&[("FOO", "baz")], record, &chain, false).unwrap();
    assert_eq!(
        script,
        format!(
            "export __shadowenv_data='{:016x}:{{\"scalars\":[{{\"name\":\"FOO\",\"original\":\"baz\",\"current\":\"bar\",\"no_clobber\":true}}],\"lists\":[]}}'\n",
            h
        )
    );
}

#[test]
fn path_list() {
    let program = "(env/prepend-to-pathlist \"PATH\" \"/opt/bin\") (env/remove-from-pathlist \"PATH\" \"/bin\")";
    let chain = SourceList::new_with_sources(vec![source("/w", &[("00.lisp", program)])]);
    let overlay = Shadowenv::new(env_of(&[("PATH", "/usr/bin:/bin")]), Data::new(), 1, vec![]);
    let overlay = evaluate(overlay, &chain).unwrap();
    let exports: HashMap<String, Option<String>> = overlay.exports().into_iter().collect();
    assert_eq!(exports["PATH"], Some("/opt/bin:/usr/bin".to_string()));
    assert_eq!(
        overlay.shadowenv_data().lists,
        vec![List {
            name: "PATH".to_string(),
            additions: vec!["/opt/bin".to_string()],
            deletions: vec!["/bin".to_string()],
        }]
    );
    let script = apply_env(&overlay, VariableOutputMode::Posix);
    assert!(script.contains("export PATH='/opt/bin:/usr/bin'\n"));
}

#[test]
fn chain_order() {
    let chain = SourceList::new_with_sources(vec![
        source("/w", &[("k.lisp", "(env/set \"K\" \"1\")")]),
        source("/w/inner", &[("k.lisp", "(env/set \"K\" \"2\")")]),
    ]);
    let overlay = Shadowenv::new(Env::new(), Data::new(), 1, vec![]);
    let overlay = evaluate(overlay, &chain).unwrap();
    let exports: HashMap<String, Option<String>> = overlay.exports().into_iter().collect();
    assert_eq!(exports["K"], Some("2".to_string()));
    assert_eq!(
        overlay.shadowenv_data().scalars,
        vec![Scalar {
            name: "K".to_string(),
            original: None,
            current: Some("2".to_string()),
            no_clobber: false
        }]
    );
    assert_eq!(overlay.current_dirs(), vec!["w".to_string(), "w/inner".to_string()]);
}

#[test]
fn untrusted() {
    let root = "/w/.shadowenv.d";
    let chain = SourceList::new_with_sources(vec![source("/w", &[("00.lisp", "(env/set \"FOO\" \"bar\")")])]);
    let probes = vec![TrustProbe { root: root.to_string(), token: None }];
    // the hook fails before it reads the record or evaluates anything
    let err = load_env("", &chain, false, &KEY, &probes).unwrap_err();
    assert_eq!(
        err,
        HookError::NotTrusted(ensure_dir_tree_trusted(&KEY, &probes).unwrap_err())
    );
    // the first invocation reports the failure, names the directory and leaves a sentinel
    assert_eq!(
        error_sentinel(&err, 4242, Some(root)),
        Some("/w/.shadowenv.d/.error-0-4242".to_string())
    );
    let report = handle_hook_error(&err, 4242, false, Some(root), None);
    assert_eq!(report.code, 1);
    let line = report.line.unwrap();
    assert!(line.contains("failure: "));
    assert!(line.contains(root));
    assert_eq!(report.sentinel, Some("/w/.shadowenv.d/.error-0-4242".to_string()));
    // the second one, within the cooldown, says nothing
    let young = Some(Elapsed { secs: 2, nanos: 0 });
    assert_eq!(
        handle_hook_error(&err, 4242, false, Some(root), young),
        ErrorReport { code: 1, line: None, sentinel: None }
    );
    // after the cooldown the failure is reported again
    let old = Some(Elapsed { secs: 5, nanos: 0 });
    assert!(handle_hook_error(&err, 4242, false, Some(root), old).line.is_some());
    // a silent hook says nothing, and a failure without a cooldown is always reported
    assert_eq!(
        handle_hook_error(&err, 4242, true, Some(root), None),
        ErrorReport { code: 1, line: None, sentinel: None }
    );
    let report = handle_hook_error(&HookError::Evaluation, 4242, false, Some(root), young);
    assert!(report.line.is_some());
    assert_eq!(report.sentinel, None);
    assert_eq!(error_sentinel(&err, 4242, None), None);
    // once the directory is trusted, the chain is accepted
    let token = trust_dir(&KEY, root);
    assert_eq!(token.signature.len(), 64);
    let probes = vec![TrustProbe { root: root.to_string(), token: Some(token.signature) }];
    assert_eq!(ensure_dir_tree_trusted(&KEY, &probes), Ok(()));
    assert!(matches!(load_env("", &chain, false, &KEY, &probes), Ok(Plan::Activate { .. })));
}

#[test]
fn same_hash_does_nothing() {
    let chain = SourceList::new_with_sources(vec![source("/w", &[("00.lisp", "(env/set \"FOO\" \"bar\")")])]);
    let h = target_hash(&chain).unwrap();
    let record = format!("{:016x}:{{\"scalars\":[],\"lists\":[]}}", h);
    assert_eq!(hook(&[("FOO", "x")], &record, &chain, false), None);
    assert!(hook(&[("FOO", "x")], &record, &chain, true).is_some());
    assert_eq!(hook(&[], "", &SourceList::new(), false), None);
}

#[test]
fn round_trip_through_two_invocations() {
    let program = "(env/set \"A\" \"1\") (env/set \"B\" ()) (env/append-to-pathlist \"P\" \"/x\") (provide \"ruby\" \"3.1.2\")";
    let chain = SourceList::new_with_sources(vec![source("/w", &[("00.lisp", program)])]);
    let outer = [("B", "b"), ("P", "/p"), ("C", "c")];
    let overlay = Shadowenv::new(env_of(&outer), Data::new(), 1, vec![]);
    let overlay = evaluate(overlay, &chain).unwrap();
    assert_eq!(overlay.features().len(), 1);
    // the shell carries out the exports
    let mut shell: HashMap<String, String> = outer.iter().map(|(k, v)| (k.to_string(), v.to_string())).collect();
    for (name, value) in overlay.exports() {
        match value {
            Some(v) => shell.insert(name, v),
            None => shell.remove(&name),
        };
    }
    assert_eq!(shell.get("A"), Some(&"1".to_string()));
    assert_eq!(shell.get("B"), None);
    assert_eq!(shell.get("P"), Some(&"/p:/x".to_string()));
    // leaving the directory undoes them
    let carried = shell["__shadowenv_data"].clone();
    let left = match load_env(&carried, &SourceList::new(), false, &KEY, &vec![]).unwrap() {
        Plan::Activate { data, target_hash } => {
            Shadowenv::new(Env::from_pairs(shell.clone().into_iter().collect()), data, target_hash, vec![])
        }
        Plan::Nothing => panic!("the overlay has to be undone"),
    };
    for (name, value) in left.exports() {
        match value {
            Some(v) => shell.insert(name, v),
            None => shell.remove(&name),
        };
    }
    shell.remove("__shadowenv_data");
    let expected: HashMap<String, String> = outer.iter().map(|(k, v)| (k.to_string(), v.to_string())).collect();
    assert_eq!(shell, expected);
}

#[test]
fn test_env_manipulation() {
    let chain = SourceList::new_with_sources(vec![source("dir", &[("file.lisp", "\n            (env/set \"VAL_A\" \"42\")\n            ")])]);
    let result = evaluate(Shadowenv::new(Env::new(), Data::new(), 0, vec![]), &chain);
    let env: HashMap<String, Option<String>> = result.unwrap().exports().into_iter().collect();
    assert_eq!(env["VAL_A"].as_ref().unwrap(), "42");
}

#[test]
fn test_pathlist_manipulation() {
    let shadowenv = Shadowenv::new(
        env_of(&[
            ("PATH_A", "/path1:/path2"),
            ("PATH_B", "/path3"),
            ("PATH_C", "/will_be_removed_path:/path5"),
        ]),
        Data::new(),
        0,
        vec![],
    );
    let program = r#"
                (env/prepend-to-pathlist "PATH_A" "/path3")
                (env/prepend-to-pathlist "PATH_B" "/path7")
                (env/remove-from-pathlist-containing "PATH_C" "/will_be_removed_path")
                (env/prepend-to-pathlist "PATH_C" "/will_be_added_path")
            "#;
    let chain = SourceList::new_with_sources(vec![source("dir", &[("file.lisp", program)])]);
    let env: HashMap<String, Option<String>> =
        evaluate(shadowenv, &chain).unwrap().exports().into_iter().collect();

    assert_eq!(env["PATH_A"].as_ref().unwrap(), "/path3:/path1:/path2");
    assert_eq!(env["PATH_B"].as_ref().unwrap(), "/path7:/path3");
    assert_eq!(env["PATH_C"].as_ref().unwrap(), "/will_be_added_path:/path5");
}

#[test]
fn test_set_variables() {
    let shadowenv = Shadowenv::new(
        env_of(&[("GEM_HOME", "/gem_home"), ("PATH", "/gem_home/bin:/something_else")]),
        Data::new(),
        0,
        vec![],
    );
    let program = r#"
                (when-let ((gem-home (env/get "GEM_HOME")))
                (env/remove-from-pathlist "PATH" (path-concat gem-home "bin")))
            "#;
    let chain = SourceList::new_with_sources(vec![source("dir", &[("file.lisp", program)])]);
    let env: HashMap<String, Option<String>> =
        evaluate(shadowenv, &chain).unwrap().exports().into_iter().collect();

    assert_eq!(env["PATH"].as_ref().unwrap(), "/something_else");
}

#[test]
fn test_features() {
    let program = r#"
                (provide "ruby" "3.1.2")
            "#;
    let chain = SourceList::new_with_sources(vec![source("dir", &[("file.lisp", program)])]);
    let shadowenv = evaluate(Shadowenv::new(Env::new(), Data::new(), 0, vec![]), &chain).unwrap();
    let expected = vec![shadowenv::features::Feature::new("ruby".to_string(), Some("3.1.2".to_string()))];
    assert_eq!(shadowenv.features(), expected);
}

#[test]
fn test_source_ordering() {
    let outer_source = source("dir", &[("file.lisp", "\n                (env/set \"TEST\" \"ONE\")\n            ")]);
    let inner_source = source("dir", &[("file.lisp", "\n                (env/set \"TEST\" \"TWO\")\n            ")]);
    let chain = SourceList::new_with_sources(vec![outer_source, inner_source]);
    let shadowenv = evaluate(Shadowenv::new(Env::new(), Data::new(), 0, vec![]), &chain).unwrap();
    assert_eq!(shadowenv.get("TEST"), Some("TWO".to_string()));
}

#[test]
fn the_interpreter_is_answered_in_its_own_values() {
    let mut shadowenv = Shadowenv::new(env_of(&[("A", "1")]), Data::new(), 0, vec![]);
    let interp = ketos::Interpreter::new();
    let name = interp.scope().add_name("env/get");
    let mut args = vec![Value::from("A")];
    let reply = serve(&mut shadowenv, Primitive::EnvGet, name, &mut args).unwrap();
    assert!(matches!(reply, Value::String(ref s) if &**s == "1"));
    let mut args = vec![Value::from("B")];
    assert!(matches!(serve(&mut shadowenv, Primitive::EnvGet, name, &mut args), Ok(Value::Unit)));
    let mut args = vec![Value::from("B"), Value::from("2")];
    assert!(matches!(serve(&mut shadowenv, Primitive::EnvSet, name, &mut args), Ok(Value::Unit)));
    assert_eq!(shadowenv.get("B"), Some("2".to_string()));
    // a number is no string, and one argument is not two
    let mut args = vec![Value::from(5)];
    assert!(matches!(
        serve(&mut shadowenv, Primitive::EnvGet, name, &mut args),
        Err(ketos::Error::ExecError(ketos::ExecError::TypeError { expected: "string", .. }))
    ));
    let mut args = vec![Value::from("B")];
    assert!(matches!(
        serve(&mut shadowenv, Primitive::EnvSet, name, &mut args),
        Err(ketos::Error::ExecError(ketos::ExecError::ArityError {
            expected: ketos::Arity::Exact(2),
            found: 1,
            ..
        }))
    ));
    let mut args = vec![];
    assert!(matches!(
        serve(&mut shadowenv, Primitive::Provide, name, &mut args),
        Err(ketos::Error::ExecError(ketos::ExecError::ArityError {
            expected: ketos::Arity::Range(1, 2),
            found: 0,
            ..
        }))
    ));
    // `expand-path` hands the path on for the host to expand
    let mut args = vec![Value::from("~/x")];
    let reply = serve(&mut shadowenv, Primitive::ExpandPath, name, &mut args).unwrap();
    assert!(matches!(reply, Value::String(ref s) if &**s == "~/x"));
}

#[test]
fn files_of_a_directory_run_in_the_order_of_their_names() {
    let chain = SourceList::new_with_sources(vec![source(
        "/w",
        &[
            ("20.lisp", "(env/set \"ORDER\" (path-concat (env/get \"ORDER\") \"20\"))"),
            ("10.lisp", "(env/set \"ORDER\" \"10\")"),
        ],
    )]);
    let shadowenv = evaluate(Shadowenv::new(Env::new(), Data::new(), 0, vec![]), &chain).unwrap();
    assert_eq!(shadowenv.get("ORDER"), Some("10/20".to_string()));
}

#[test]
fn a_failing_program_fails_the_evaluation() {
    let chain = SourceList::new_with_sources(vec![source("/w", &[("00.lisp", "(env/set \"A\")")])]);
    assert!(evaluate(Shadowenv::new(Env::new(), Data::new(), 0, vec![]), &chain).is_err());
    let chain = SourceList::new_with_sources(vec![source("/w", &[("00.lisp", "(env/get 5)")])]);
    assert!(evaluate(Shadowenv::new(Env::new(), Data::new(), 0, vec![]), &chain).is_err());
    let chain = SourceList::new_with_sources(vec![source("/w", &[("00.lisp", "(no-such-thing)")])]);
    let error = evaluate(Shadowenv::new(Env::new(), Data::new(), 0, vec![]), &chain).unwrap_err();
    assert!(error.diagnostic.contains("no-such-thing"));
    assert!(error.diagnostic.ends_with("\n"));
}

#[test]
fn a_failing_directory_ends_the_evaluation_of_the_chain() {
    // the programs of the outer directory are evaluated, those of the inner one are not
    let chain = SourceList::new_with_sources(vec![
        source("/w", &[("00.lisp", "(env/set \"OUTER\" \"1\")"), ("10.lisp", "(no-such-thing)")]),
        source("/w/inner", &[("00.lisp", "(env/set \"INNER\" \"1\")")]),
    ]);
    let overlay = Rc::new(RefCell::new(Shadowenv::new(Env::new(), Data::new(), 0, vec![])));
    let sources = chain.clone().consume();
    let interp = ShadowLang::interpreter(&overlay);
    let outcome = ShadowLang::run(&interp, &sources[0], &Value::Unit);
    let diagnostic = outcome.as_ref().unwrap_err().diagnostic.clone();
    assert!(diagnostic.contains("no-such-thing"));
    assert!(diagnostic.ends_with("\n"));
    assert_eq!(
        next_source(sources.len(), 1, outcome),
        Next::Failed(ShadowlispError { diagnostic })
    );
    assert_eq!(overlay.borrow().get("OUTER"), Some("1".to_string()));
    assert!(evaluate(Shadowenv::new(Env::new(), Data::new(), 0, vec![]), &chain).is_err());
}
