use shadowenv::diff::{diff_list, diff_scalar, run_with_logger, DummyLogger};
use shadowenv::undo::{List, Scalar};

#[test]
fn test_colored_output() {
    let mut logger = DummyLogger::default();

    let env_vars = vec![("VAR_A".to_string(), "/added:/existent".to_string())];

    let data = r#"62b0b9f86cda84d4:{"scalars":[],"lists":[{"name":"VAR_A","additions":["/added"],"deletions":[]}]}"#;
    let result = run_with_logger(&mut logger, env_vars, false, true, data.to_string());

    // A list is shown as what it was and what it is, as without color; with color the
    // added element is set off and the rest of each line is cleared.
    let expected: Vec<_> = [
        "\x1b[91m- VAR_A=/existent\x1b[0m\x1b[K",
        "\x1b[92m+ VAR_A=\x1b[48;5;22m/added\x1b[0;92m:/existent\x1b[0m\x1b[K",
    ]
    .iter()
    .map(ToString::to_string)
    .collect();
    assert_eq!(result, 0);
    assert_eq!(logger.0, expected);
}

#[test]
fn test_verbose_mode() {
    let mut logger = DummyLogger::default();

    let env_vars = vec![("VAR_A".to_string(), "/existent".to_string())];

    let data = r#"62b0b9f86cda84d4:{"scalars":[],"lists":[]}"#;
    let result = run_with_logger(&mut logger, env_vars, true, false, data.to_string());

    let expected: Vec<_> = ["  VAR_A=/existent"]
        .iter()
        .map(ToString::to_string)
        .collect();
    assert_eq!(result, 0);
    assert_eq!(logger.0, expected);
}

#[test]
fn test_empty_env_vars() {
    let mut logger = DummyLogger::default();

    let env_vars = vec![];

    let data = r#"62b0b9f86cda84d4:{"scalars":[],"lists":[]}"#;
    let result = run_with_logger(&mut logger, env_vars, false, false, data.to_string());

    let expected: Vec<String> = vec![];
    assert_eq!(result, 0);
    assert_eq!(logger.0, expected);
}

#[test]
fn test_missing_shadowenv_data() {
    let mut logger = DummyLogger::default();

    let env_vars = vec![("VAR_A".to_string(), "/existent".to_string())];

    let data = r#""#;
    let result = run_with_logger(&mut logger, env_vars, false, false, data.to_string());

    let expected: Vec<String> = vec![];
    assert_eq!(result, 0);
    assert_eq!(logger.0, expected);
}

#[test]
fn test_nominal() {
    let mut logger = DummyLogger::default();

    let env_vars = vec![
        ("VAR_A".to_string(), "/added:/existent".to_string()),
        ("VAR_B".to_string(), "/added".to_string()),
        ("VAR_C".to_string(), "/added:/existent".to_string()),
    ];

    let data = r#"62b0b9f86cda84d4:{"scalars":[],"lists":[{"name":"VAR_C","additions":["/added"],"deletions":["/removed"]},{"name":"VAR_B","additions":["/added"],"deletions":[]},{"name":"VAR_A","additions":["/added"],"deletions":[]}]}"#;
    let result = run_with_logger(&mut logger, env_vars, false, false, data.to_string());

    let expected: Vec<_> = [
        "- VAR_A=/existent",
        "+ VAR_A=/added:/existent",
        "- VAR_B=",
        "+ VAR_B=/added",
        "- VAR_C=/removed:/existent",
        "+ VAR_C=/added:/existent",
    ]
    .iter()
    .map(ToString::to_string)
    .collect();
    assert_eq!(result, 0);
    assert_eq!(logger.0, expected);
}

#[test]
fn colored_lines_highlight_what_changed() {
    let mut logger = DummyLogger::default();
    let env_vars = vec![("VAR_A".to_string(), "/added:/existent".to_string())];
    let data = r#"62b0b9f86cda84d4:{"scalars":[],"lists":[{"name":"VAR_A","additions":["/added"],"deletions":["/gone"]}]}"#;
    let result = run_with_logger(&mut logger, env_vars, false, true, data.to_string());
    assert_eq!(result, 0);
    assert_eq!(
        logger.0,
        vec![
            "\x1b[91m- VAR_A=\x1b[48;5;52m/gone\x1b[0;91m:/existent\x1b[0m\x1b[K".to_string(),
            "\x1b[92m+ VAR_A=\x1b[48;5;22m/added\x1b[0;92m:/existent\x1b[0m\x1b[K".to_string(),
        ]
    );
}

#[test]
fn variables_come_first_and_the_rest_by_name() {
    let mut logger = DummyLogger::default();
    let env_vars = vec![
        ("Z".to_string(), "z2".to_string()),
        ("PLAIN".to_string(), "p".to_string()),
        ("Z".to_string(), "z2".to_string()),
    ];
    let data = r#":{"scalars":[{"name":"B","original":"b1","current":null},{"name":"Z","original":"z1","current":"z2"},{"name":"A","original":null,"current":"a2"},{"name":"B","original":"b0","current":null}],"lists":[{"name":"L","additions":[],"deletions":["d1","d2"]},{"name":"Z","additions":["z2"],"deletions":[]}]}"#;
    let result = run_with_logger(&mut logger, env_vars, true, false, data.to_string());
    assert_eq!(result, 0);
    assert_eq!(
        logger.0,
        vec![
            "- Z=z1",
            "+ Z=z2",
            "  PLAIN=p",
            "- Z=",
            "+ Z=z2",
            "+ A=a2",
            "- B=b0",
            "- L=d1:d2",
            "+ L=",
        ]
    );
}

#[test]
fn malformed_record_prints_nothing() {
    let mut logger = DummyLogger::default();
    let result = run_with_logger(&mut logger, vec![], true, true, "x:{".to_string());
    assert_eq!(result, 1);
    assert!(logger.0.is_empty());
    let env_vars = vec![("A".to_string(), "a".to_string())];
    let result = run_with_logger(&mut logger, env_vars, true, true, "0000000000000001:[]".to_string());
    assert_eq!(result, 1);
    assert!(logger.0.is_empty());
    // the hash is not looked at
    let result = run_with_logger(&mut logger, vec![], true, true, "no hash:{}".to_string());
    assert_eq!(result, 0);
    assert!(logger.0.is_empty());
}

#[test]
fn scalar_and_list_lines() {
    let mut logger = DummyLogger::default();
    diff_scalar(
        &mut logger,
        &Scalar {
            name: "S".to_string(),
            original: Some("o".to_string()),
            current: Some("c".to_string()),
            no_clobber: false,
        },
        true,
    );
    diff_list(
        &mut logger,
        &List {
            name: "L".to_string(),
            additions: vec!["a".to_string(), "b".to_string()],
            deletions: vec![],
        },
        "a:b:keep:a",
        false,
    );
    assert_eq!(
        logger.0,
        vec![
            "\x1b[91m- S=o\x1b[0m\x1b[K",
            "\x1b[92m+ S=c\x1b[0m\x1b[K",
            "- L=keep:a",
            "+ L=a:b:keep:a"
        ]
    );
}
