use shadowenv::changes::{change_type, run, summarize, ChangeType, Changes, ChangesError};
use shadowenv::undo::{Data, Scalar};

#[test]
fn display_test() {
    let changes = Changes {
        added: 1,
        updated: 2,
        removed: 3,
    };
    assert_eq!(changes.to_string(), "+1 -3 ^2",);
}

#[test]
fn nominal_test() {
    let data = r#"d6508595be775af2:{"scalars":[{"name":"CLICOLOR","original":"1","current":"0"},{"name":"DEBUG","original":null,"current":"1"},{"name":"GOPATH","original":"/Users/rami/Go","current":""},{"name":"INFOPATH","original":"/opt/homebrew/share/info:","current":""},{"name":"NODE_PATH","original":"/Users/rami/.npm/packages/lib/node_modules:","current":""}],"lists":[{"name":"PATH","additions":["/usr/libexec/bin"],"deletions":[]}]}"#;
    let result = run(data.to_string());

    let expected: Changes = Changes {
        added: 1,
        updated: 2,
        removed: 3,
    };
    assert_eq!(result.unwrap(), expected);
}

#[test]
fn summary_of_an_empty_or_a_bare_record() {
    let none = Changes { added: 0, removed: 0, updated: 0 };
    assert_eq!(run("".to_string()).unwrap(), none);
    assert_eq!(run("0000000000000000:".to_string()).unwrap(), none);
    assert_eq!(summarize(&Data::new()), none);
    assert_eq!(none.to_string(), "+0 -0 ^0");
    assert_eq!(
        Changes { added: 10, removed: 205, updated: 1234567 }.to_string(),
        "+10 -205 ^1234567"
    );
}

#[test]
fn summary_fails_for_a_malformed_record() {
    // the hash is not looked at
    assert_eq!(
        run("nothex:{}".to_string()),
        Ok(Changes { added: 0, removed: 0, updated: 0 })
    );
    assert_eq!(run("0000000000000001:[".to_string()), Err(ChangesError));
    assert_eq!(run("0000000000000001:[]".to_string()), Err(ChangesError));
}

fn scalar(original: Option<&str>, current: Option<&str>) -> Scalar {
    Scalar {
        name: "N".to_string(),
        original: original.map(|s| s.to_string()),
        current: current.map(|s| s.to_string()),
        no_clobber: false,
    }
}

#[test]
fn change_types() {
    assert_eq!(change_type(&scalar(None, None)), ChangeType::Unchanged);
    assert_eq!(change_type(&scalar(None, Some("a"))), ChangeType::Added);
    assert_eq!(change_type(&scalar(None, Some(""))), ChangeType::Added);
    assert_eq!(change_type(&scalar(Some("a"), None)), ChangeType::Removed);
    assert_eq!(change_type(&scalar(Some("a"), Some("a"))), ChangeType::Unchanged);
    assert_eq!(change_type(&scalar(Some(""), Some(""))), ChangeType::Unchanged);
    assert_eq!(change_type(&scalar(Some(""), Some("a"))), ChangeType::Added);
    assert_eq!(change_type(&scalar(Some("a"), Some(""))), ChangeType::Removed);
    assert_eq!(change_type(&scalar(Some("a"), Some("b"))), ChangeType::Updated);
}
