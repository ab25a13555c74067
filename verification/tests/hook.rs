use shadowenv::env::Env;
use shadowenv::hash::{Source, SourceList};
use shadowenv::hook::{
    apply_env, cooldown_index, is_noop, is_probed, load_env, plan, render, shell_escape,
    sources_of, target_hash, HookError, Plan, VariableOutputMode,
};
use shadowenv::loader::TraversalError;
use shadowenv::shadowenv::Shadowenv;
use shadowenv::trust::{NotTrusted, TrustProbe};
use shadowenv::undo::{Data, MalformedUndo, Scalar};

#[test]
fn test_shell_escape_comprehensive() {
    // Test various shell metacharacters that could lead to command injection
    let test_cases = vec![
        ("simple", "simple"),
        ("with spaces", "'with spaces'"),
        ("with;semicolon", "'with;semicolon'"),
        ("with|pipe", "'with|pipe'"),
        ("with&ampersand", "'with&ampersand'"),
        ("with>redirect", "'with>redirect'"),
        ("with<redirect", "'with<redirect'"),
        ("with$variable", "'with$variable'"),
        ("with`backtick`", "'with`backtick`'"),
        ("with$(command)", "'with$(command)'"),
        ("with${variable}", "'with${variable}'"),
        ("with'quote", "'with'\\''quote'"),
        ("with\"doublequote", "'with\"doublequote'"),
        ("with\\backslash", "'with\\backslash'"),
        ("with\nnewline", "'with\nnewline'"),
        ("with\ttab", "'with\ttab'"),
        ("with#comment", "'with#comment'"),
        ("with!history", "'with'\\!'history'"), // shell-escape also escapes !
        ("with*glob", "'with*glob'"),
        ("with?glob", "'with?glob'"),
        ("with[bracket", "'with[bracket'"),
        ("with]bracket", "'with]bracket'"),
        ("with(paren", "'with(paren'"),
        ("with)paren", "'with)paren'"),
        ("with{brace", "'with{brace'"),
        ("with}brace", "'with}brace'"),
        ("with~tilde", "'with~tilde'"),
        (
            "complex; echo 'pwned' > /tmp/pwned.txt #",
            "'complex; echo '\\''pwned'\\'' > /tmp/pwned.txt #'",
        ),
    ];

    for (input, expected) in test_cases {
        assert_eq!(shell_escape(input), expected, "Failed for input: {}", input);
    }
}

#[test]
fn test_apply_env_escapes_variable_names() {
    assert_eq!(shell_escape("normal_var"), "normal_var");
    assert_eq!(
        shell_escape("TEST=AA; touch pwned.txt; #"),
        "'TEST=AA; touch pwned.txt; #'"
    );
    assert_eq!(shell_escape("VAR$(command)"), "'VAR$(command)'");
    assert_eq!(shell_escape("VAR`command`"), "'VAR`command`'");
    assert_eq!(shell_escape("VAR'with'quotes"), "'VAR'\\''with'\\''quotes'");
    assert_eq!(shell_escape(""), "''");
    assert_eq!(shell_escape("a-_=/,.+Z9"), "a-_=/,.+Z9");

    let mut shadowenv = Shadowenv::new(Env::new(), Data::new(), 0, vec![]);
    shadowenv.set("NORMAL_VAR", Some("normal_value"));
    shadowenv.set("TEST=AA; touch pwned.txt; #", Some("value"));
    let script = apply_env(&shadowenv, VariableOutputMode::Posix);
    assert!(script.contains("export NORMAL_VAR=normal_value\n"));
    assert!(script.contains("export 'TEST=AA; touch pwned.txt; #'=value\n"));
}

fn sample() -> Vec<(String, Option<String>)> {
    vec![
        ("__shadowenv_data".to_string(), Some("00:{}".to_string())),
        ("FOO".to_string(), Some("bar baz".to_string())),
        ("GONE".to_string(), None),
        ("PATH".to_string(), Some("/opt/bin:/usr/bin".to_string())),
    ]
}

#[test]
fn renders_posix() {
    assert_eq!(
        render(&sample(), VariableOutputMode::Posix),
        "export __shadowenv_data='00:{}'\nexport FOO='bar baz'\nunset GONE\nexport PATH='/opt/bin:/usr/bin'\n"
    );
    assert_eq!(render(&vec![], VariableOutputMode::Posix), "");
}

#[test]
fn renders_fish() {
    assert_eq!(
        render(&sample(), VariableOutputMode::Fish),
        "set -gx __shadowenv_data '00:{}'\nset -gx FOO 'bar baz'\nset -e GONE\nset -gx PATH '/opt/bin' '/usr/bin'\n"
    );
}

#[test]
fn renders_porcelain() {
    assert_eq!(
        render(&sample(), VariableOutputMode::Porcelain),
        "\x02__shadowenv_data\x1F00:{}\x1E\x02FOO\x1Fbar baz\x1E\x03GONE\x1F\x1E\x02PATH\x1F/opt/bin:/usr/bin\x1E"
    );
}

#[test]
fn renders_json() {
    let text = render(&sample(), VariableOutputMode::Json);
    assert_eq!(
        text,
        "{\"schema\":\"v2\",\"exported\":{\"__shadowenv_data\":\"00:{}\",\"FOO\":\"bar baz\",\"GONE\":null,\"PATH\":\"/opt/bin:/usr/bin\"},\"unexported\":{}}\n"
    );
    let value: serde_json::Value = serde_json::from_str(&text).unwrap();
    assert_eq!(value["schema"], "v2");
    assert_eq!(value["exported"]["FOO"], "bar baz");
    assert!(value["exported"]["GONE"].is_null());
    assert_eq!(
        render(&vec![], VariableOutputMode::Json),
        "{\"schema\":\"v2\",\"exported\":{},\"unexported\":{}}\n"
    );
}

#[test]
fn renders_pretty_json_as_serde_does() {
    let text = render(&sample(), VariableOutputMode::PrettyJson);
    assert_eq!(
        text,
        "{\n  \"schema\": \"v2\",\n  \"exported\": {\n    \"__shadowenv_data\": \"00:{}\",\n    \"FOO\": \"bar baz\",\n    \"GONE\": null,\n    \"PATH\": \"/opt/bin:/usr/bin\"\n  },\n  \"unexported\": {}\n}\n"
    );
    let value: serde_json::Value = serde_json::from_str(&text).unwrap();
    assert_eq!(value["exported"]["PATH"], "/opt/bin:/usr/bin");
    assert_eq!(
        render(&vec![], VariableOutputMode::PrettyJson),
        "{\n  \"schema\": \"v2\",\n  \"exported\": {},\n  \"unexported\": {}\n}\n"
    );
}

fn chain() -> SourceList {
    let mut source = Source::new("/w");
    source.add_file("00.lisp", "(env/set \"FOO\" \"bar\")");
    SourceList::new_with_sources(vec![source])
}

#[test]
fn plans_follow_the_two_hashes() {
    let h = target_hash(&chain()).unwrap();
    assert_eq!(target_hash(&SourceList::new()), None);
    // no overlay and no chain
    assert_eq!(plan(None, Data::new(), None, false), Plan::Nothing);
    assert_eq!(plan(None, Data::new(), None, true), Plan::Nothing);
    // activate
    assert_eq!(
        plan(None, Data::new(), Some(h), false),
        Plan::Activate { data: Data::new(), target_hash: h }
    );
    // the same overlay
    assert_eq!(plan(Some(h), Data::new(), Some(h), false), Plan::Nothing);
    assert_eq!(
        plan(Some(h), Data::new(), Some(h), true),
        Plan::Activate { data: Data::new(), target_hash: h }
    );
    // another overlay
    assert_eq!(
        plan(Some(h + 1), Data::new(), Some(h), false),
        Plan::Activate { data: Data::new(), target_hash: h }
    );
    // deactivate
    assert_eq!(
        plan(Some(h), Data::new(), None, false),
        Plan::Activate { data: Data::new(), target_hash: 0 }
    );
}

const KEY: [u8; 32] = [11u8; 32];

fn trusted(roots: &[&str]) -> Vec<TrustProbe> {
    roots
        .iter()
        .map(|root| TrustProbe {
            root: root.to_string(),
            token: Some(shadowenv::trust::trust_dir(&KEY, root).signature),
        })
        .collect()
}

fn untrusted(roots: &[&str]) -> Vec<TrustProbe> {
    roots.iter().map(|root| TrustProbe { root: root.to_string(), token: None }).collect()
}

#[test]
fn load_env_does_nothing_before_it_reads_the_record() {
    let h = target_hash(&chain()).unwrap();
    let tokens = trusted(&["/w/.shadowenv.d"]);
    // the overlay of the chain is active: neither the record nor the tokens are looked at
    for json in ["{\"scalars\":[],\"lists\":[]}", "", "x", "[1]", "{"] {
        let active = format!("{:016x}:{}", h, json);
        assert_eq!(load_env(&active, &chain(), false, &KEY, &tokens), Ok(Plan::Nothing));
        assert_eq!(
            load_env(&active, &chain(), false, &KEY, &untrusted(&["/w/.shadowenv.d"])),
            Ok(Plan::Nothing)
        );
    }
    assert_eq!(
        load_env(&format!("{:016x}", h), &chain(), false, &KEY, &tokens),
        Ok(Plan::Nothing)
    );
    // no overlay is active and there is no chain
    for record in ["", ":", "0000000000000000:x", "0000000000000000:{}", ":[1]", "0000000000000000"] {
        for force in [false, true] {
            assert_eq!(
                load_env(record, &SourceList::new(), force, &KEY, &vec![]),
                Ok(Plan::Nothing)
            );
        }
    }
}

#[test]
fn load_env_reads_the_record_where_it_activates() {
    let h = target_hash(&chain()).unwrap();
    let tokens = trusted(&["/w/.shadowenv.d"]);
    assert_eq!(
        load_env("", &chain(), false, &KEY, &tokens),
        Ok(Plan::Activate { data: Data::new(), target_hash: h })
    );
    let active = format!("{:016x}:{{\"scalars\":[],\"lists\":[]}}", h);
    assert_eq!(
        load_env(&active, &chain(), true, &KEY, &tokens),
        Ok(Plan::Activate { data: Data::new(), target_hash: h })
    );
    let record = r#"00000000000000aa:{"scalars":[{"name":"FOO","original":null,"current":"bar"}],"lists":[]}"#;
    let expected = Data {
        scalars: vec![Scalar {
            name: "FOO".to_string(),
            original: None,
            current: Some("bar".to_string()),
            no_clobber: false,
        }],
        lists: vec![],
    };
    assert_eq!(
        load_env(record, &SourceList::new(), false, &KEY, &vec![]),
        Ok(Plan::Activate { data: expected, target_hash: 0 })
    );
    // a malformed hash is found first, a malformed record where it is needed
    assert_eq!(
        load_env("zz:{}", &chain(), false, &KEY, &tokens),
        Err(HookError::MalformedUndo(MalformedUndo::Hash))
    );
    assert_eq!(
        load_env("zz:{}", &SourceList::new(), false, &KEY, &vec![]),
        Err(HookError::MalformedUndo(MalformedUndo::Hash))
    );
    assert_eq!(
        load_env("00000000000000aa:[1]", &chain(), true, &KEY, &tokens),
        Err(HookError::MalformedUndo(MalformedUndo::Schema))
    );
    assert!(matches!(
        load_env("00000000000000aa:{", &SourceList::new(), false, &KEY, &vec![]),
        Err(HookError::MalformedUndo(MalformedUndo::Json(_)))
    ));
    let active = format!("{:016x}:x", h);
    assert!(matches!(
        load_env(&active, &chain(), true, &KEY, &tokens),
        Err(HookError::MalformedUndo(MalformedUndo::Json(_)))
    ));
}

#[test]
fn load_env_activates_a_trusted_chain_only() {
    let roots = ["/w/a/.shadowenv.d", "/w/.shadowenv.d"];
    let mut probes = trusted(&roots);
    assert!(matches!(
        load_env("", &chain(), false, &KEY, &probes),
        Ok(Plan::Activate { .. })
    ));
    // one token is missing, the other was made with another key
    probes[0].token = None;
    probes[1].token = Some(shadowenv::trust::trust_dir(&[12u8; 32], roots[1]).signature);
    let all = NotTrusted {
        untrusted_directories: vec![roots[0].to_string(), roots[1].to_string()],
    };
    assert_eq!(
        load_env("", &chain(), false, &KEY, &probes),
        Err(HookError::NotTrusted(all))
    );
    probes[1] = trusted(&roots[1..]).pop().unwrap();
    let first = NotTrusted { untrusted_directories: vec![roots[0].to_string()] };
    assert_eq!(
        load_env("00000000000000aa:{}", &chain(), false, &KEY, &probes),
        Err(HookError::NotTrusted(first))
    );
    // trust is asked for before the record is read
    assert!(matches!(
        load_env("00000000000000aa:x", &chain(), true, &KEY, &probes),
        Err(HookError::NotTrusted(_))
    ));
}

#[test]
fn load_env_asks_for_a_token_of_every_directory_of_the_chain() {
    let named = |dirs: &[&str]| {
        Err(HookError::NotTrusted(NotTrusted {
            untrusted_directories: dirs.iter().map(|d| d.to_string()).collect(),
        }))
    };
    // no token was looked for
    assert_eq!(load_env("", &chain(), false, &KEY, &vec![]), named(&["/w"]));
    // a token was looked for, but for the program directory of another directory
    let elsewhere = trusted(&["/v/.shadowenv.d"]);
    assert_eq!(load_env("", &chain(), false, &KEY, &elsewhere), named(&["/w"]));
    assert_eq!(load_env("00000000000000aa:x", &chain(), true, &KEY, &elsewhere), named(&["/w"]));
    // the program directories that are not trusted are named first
    let elsewhere = untrusted(&["/v/.shadowenv.d"]);
    assert_eq!(
        load_env("", &chain(), false, &KEY, &elsewhere),
        named(&["/v/.shadowenv.d", "/w"])
    );
    let with_program = |dir: &str| {
        let mut source = Source::new(dir);
        source.add_file("00.lisp", "(env/set \"FOO\" \"baz\")");
        source
    };
    let longer = SourceList::new_with_sources(vec![
        with_program("/"),
        with_program("/w"),
        with_program("/w/inner"),
    ]);
    assert_eq!(
        load_env("", &longer, false, &KEY, &trusted(&["/w/.shadowenv.d"])),
        named(&["/", "/w/inner"])
    );
    let all = trusted(&["/w/inner/.shadowenv.d", "/w/.shadowenv.d", "/.shadowenv.d"]);
    assert!(matches!(load_env("", &longer, false, &KEY, &all), Ok(Plan::Activate { .. })));
    // where there is nothing to do, no token is asked for
    let h = target_hash(&chain()).unwrap();
    assert_eq!(
        load_env(&format!("{:016x}:{{}}", h), &chain(), false, &KEY, &vec![]),
        Ok(Plan::Nothing)
    );
}

#[test]
fn a_probe_stands_for_the_directory_that_holds_its_program_directory() {
    let probes = untrusted(&["/w/inner/.shadowenv.d", "/w/.shadowenv.d"]);
    assert!(is_probed("/w", &probes));
    assert!(is_probed("/w/inner", &probes));
    assert!(!is_probed("/w/.shadowenv.d", &probes));
    assert!(!is_probed("/", &probes));
    assert!(!is_probed("/w", &vec![]));
    assert!(is_probed("/", &untrusted(&["/.shadowenv.d"])));
}

#[test]
fn noop_follows_the_two_hashes() {
    assert!(is_noop(None, None, false));
    assert!(is_noop(None, None, true));
    assert!(is_noop(Some(5), Some(5), false));
    assert!(!is_noop(Some(5), Some(5), true));
    assert!(!is_noop(Some(5), Some(6), false));
    assert!(!is_noop(None, Some(6), false));
    assert!(!is_noop(Some(5), None, false));
}

#[test]
fn errors_have_messages_and_some_have_a_cooldown() {
    let untrusted = HookError::NotTrusted(NotTrusted { untrusted_directories: vec!["/w/.shadowenv.d".to_string()] });
    assert_eq!(cooldown_index(&untrusted), Some(0));
    assert_eq!(
        untrusted.to_string(),
        "directory: '/w/.shadowenv.d' contains untrusted shadowenv program: `shadowenv help trust` to learn more."
    );
    let traversal = HookError::Traversal(TraversalError::SelfReferential { shadowenv_path: "/w/.shadowenv.d".to_string() });
    assert_eq!(cooldown_index(&traversal), Some(1));
    assert_eq!(traversal.to_string(), "Shadow env at /w/.shadowenv.d references itself");
    assert_eq!(cooldown_index(&HookError::Evaluation), None);
    assert_eq!(cooldown_index(&HookError::NoChain), None);
    assert_eq!(cooldown_index(&HookError::MalformedUndo(MalformedUndo::Hash)), None);
    assert_eq!(HookError::Evaluation.to_string(), "error while evaluating shadowlisp");
    assert_eq!(HookError::NoChain.to_string(), "no shadowenv found");
    assert_eq!(HookError::Io("disk".to_string()).to_string(), "disk");
    assert_eq!(HookError::ShellPidUnavailable.to_string(), "failed to get ppid");
    assert_eq!(
        HookError::MalformedUndo(MalformedUndo::Json("expected value".to_string())).to_string(),
        "expected value"
    );
}

#[test]
fn load_trusted_source_returns_an_error_for_untrusted_folders() {
    let path = "/tmp/project/.shadowenv.d";
    let probes = vec![shadowenv::trust::TrustProbe { root: path.to_string(), token: None }];
    let result = shadowenv::trust::ensure_dir_tree_trusted(&[1u8; 32], &probes);
    assert!(result.is_err());
    assert_eq!(format!("directory: '{}' contains untrusted shadowenv program: `shadowenv help trust` to learn more.", path), result.err().unwrap().to_string())
}

#[test]
fn load_trusted_sources_returns_nearest_sources_last() {
    // the nearest directory comes first in what was loaded; one directory has no programs
    let source = |dir: &str, order: &str| {
        let mut source = Source::new(dir);
        source.add_file("test.lisp", &format!("(env/set \"ORDER\" \"{}\")", order));
        Some(source)
    };
    let loaded = vec![source("/base/dir1/dir2", "2"), None, source("/base/dir1", "1")];
    let result = sources_of(loaded);

    let sources = result.consume();
    assert_eq!(sources.len(), 2);

    // Assert that sources are returned in the correct order
    // The order they are returned is the order they are executed in.
    // So the outermost env must come first, with the innermost dir coming last.
    assert!(sources[0].dir.ends_with("dir1"));
    assert!(sources[1].dir.ends_with("dir1/dir2"));
    assert_eq!(sources[0].files[0].contents, "(env/set \"ORDER\" \"1\")");
    assert!(sources_of(vec![None, None]).is_empty());
    assert!(sources_of(vec![]).is_empty());
}
