use shadowenv::hash::SourceFile;
use shadowenv::loader::{
    closest_shadowenv_candidates, find_shadowenv_paths, holder, is_program_file, link_probe,
    load, parent_link_path,
    resolve_shadowenv_parent, LinkProbe, TraversalError,
};

fn resolved(path: &str) -> LinkProbe {
    LinkProbe::Resolved(path.to_string())
}

#[test]
fn test_load() {
    let entries = vec![
        ("585_dev_rust.lisp".to_string(), "(provide \"rust\" \"stable\")\n".to_string()),
        ("README.md".to_string(), "not a program".to_string()),
        ("550_dev_ruby.lisp".to_string(), "(provide \"ruby\" \"3.1.2\")\n".to_string()),
    ];
    let source = load("/tests/fixtures/simple/.shadowenv.d", &entries).unwrap();
    assert_eq!(source.dir, "/tests/fixtures/simple");
    assert_eq!(source.files.len(), 2, "it should contain 2 files");
    let mut files = source.files.clone();
    files.sort_by(|a, b| a.name.cmp(&b.name));

    let expected = vec![
        SourceFile {
            name: "550_dev_ruby.lisp".to_string(),
            contents: "(provide \"ruby\" \"3.1.2\")\n".to_string(),
        },
        SourceFile {
            name: "585_dev_rust.lisp".to_string(),
            contents: "(provide \"rust\" \"stable\")\n".to_string(),
        },
    ];

    assert_eq!(files, expected)
}

#[test]
fn load_without_programs_is_nothing() {
    assert!(load("/w/.shadowenv.d", &vec![]).is_none());
    assert!(load("/w/.shadowenv.d", &vec![("a.txt".to_string(), "x".to_string())]).is_none());
    assert!(is_program_file("a.lisp"));
    assert!(is_program_file(".lisp"));
    assert!(!is_program_file("a.lisp.bak"));
    assert!(!is_program_file("lisp"));
}

#[test]
fn closest_shadowenv_from_subfolder() {
    let candidates = closest_shadowenv_candidates("/base/dir1/dir2/dir3");
    assert_eq!(
        candidates,
        vec![
            "/base/dir1/dir2/dir3/.shadowenv.d",
            "/base/dir1/dir2/.shadowenv.d",
            "/base/dir1/.shadowenv.d",
            "/base/.shadowenv.d",
            "/.shadowenv.d",
        ]
    );
}

#[test]
fn closest_shadowenv_from_inside_shadowenv() {
    let candidates = closest_shadowenv_candidates("/base/dir1/.shadowenv.d");
    assert_eq!(candidates[0], "/base/dir1/.shadowenv.d/.shadowenv.d");
    assert_eq!(candidates[1], "/base/dir1/.shadowenv.d");
}

#[test]
fn candidates_of_relative_and_root_paths() {
    assert_eq!(
        closest_shadowenv_candidates("a/b"),
        vec!["a/b/.shadowenv.d", "a/.shadowenv.d", ".shadowenv.d"]
    );
    assert_eq!(closest_shadowenv_candidates("/"), vec!["/.shadowenv.d"]);
    assert_eq!(closest_shadowenv_candidates(""), vec![".shadowenv.d"]);
    assert_eq!(
        closest_shadowenv_candidates("/a//b/"),
        vec!["/a/b/.shadowenv.d", "/a/.shadowenv.d", "/.shadowenv.d"]
    );
}

#[test]
fn find_shadowenv_paths_success() {
    let one = "/base/dir1/.shadowenv.d";
    let two = "/base/dir1/dir2/dir3/.shadowenv.d";
    let three = "/base/dir1/dir2/dir3/dir4/.shadowenv.d";
    // Three -> two, two -> one
    let probes = vec![resolved(two), resolved(one), LinkProbe::Absent];
    assert_eq!(
        find_shadowenv_paths(Some(three.to_string()), &probes).unwrap(),
        [three, two, one]
    );
}

#[test]
fn find_shadowenv_paths_without_a_directory_or_a_link() {
    assert_eq!(find_shadowenv_paths(None, &vec![]).unwrap(), Vec::<String>::new());
    assert_eq!(
        find_shadowenv_paths(None, &vec![resolved("/a/.shadowenv.d")]).unwrap(),
        Vec::<String>::new()
    );
    assert_eq!(
        find_shadowenv_paths(Some("/a/b/.shadowenv.d".to_string()), &vec![LinkProbe::Absent]).unwrap(),
        ["/a/b/.shadowenv.d"]
    );
    assert_eq!(
        find_shadowenv_paths(Some("/a/b/.shadowenv.d".to_string()), &vec![]).unwrap(),
        ["/a/b/.shadowenv.d"]
    );
}

#[test]
fn find_shadowenv_paths_ancestors_only() {
    let sibling = "/base/dir1_sibling/.shadowenv.d";
    let two = "/base/dir1/dir2/.shadowenv.d";
    assert!(matches!(
        find_shadowenv_paths(Some(two.to_string()), &vec![resolved(sibling)]).unwrap_err(),
        TraversalError::NotAnAncestor { .. }
    ));
}

#[test]
fn find_shadowenv_paths_no_descending_links() {
    let one = "/base/dir1/.shadowenv.d";
    let two = "/base/dir1/dir2/.shadowenv.d";
    // Two -> one, one -> two
    assert!(matches!(
        find_shadowenv_paths(Some(two.to_string()), &vec![resolved(one), resolved(two)]).unwrap_err(),
        TraversalError::NotAnAncestor { .. }
    ));
}

#[test]
fn find_shadowenv_paths_invalid_parent() {
    let shadowenv = "/base/top/sub/.shadowenv.d";
    let err = find_shadowenv_paths(Some(shadowenv.to_string()), &vec![resolved("/base/top")]).unwrap_err();
    assert_eq!(
        err,
        TraversalError::InvalidLinkTarget {
            path_to_parent_link: "/base/top/sub/.shadowenv.d/parent".to_string(),
            parent_link_target: "top".to_string(),
        }
    );
    assert_eq!(
        err.to_string(),
        "Parent symlink at /base/top/sub/.shadowenv.d/parent must link to a .shadowenv.d directory, but links to top"
    );
    assert!(matches!(
        find_shadowenv_paths(Some(shadowenv.to_string()), &vec![resolved("/")]).unwrap_err(),
        TraversalError::InvalidLinkTarget { .. }
    ));
}

#[test]
fn find_shadowenv_paths_not_a_symlink() {
    let shadowenv = "/base/dir/.shadowenv.d";
    let err = find_shadowenv_paths(Some(shadowenv.to_string()), &vec![LinkProbe::NotASymlink]).unwrap_err();
    assert_eq!(
        err,
        TraversalError::NotASymlink { parent_link_path: "/base/dir/.shadowenv.d/parent".to_string() }
    );
    assert_eq!(
        err.to_string(),
        "Error for parent file at /base/dir/.shadowenv.d/parent: Not a symlink"
    );
}

#[test]
fn find_shadowenv_paths_nonexistant_link_target() {
    let shadowenv = "/base/dir/.shadowenv.d";
    let probe = LinkProbe::Unresolvable("No such file or directory (os error 2)".to_string());
    assert!(
        match find_shadowenv_paths(Some(shadowenv.to_string()), &vec![probe]).unwrap_err() {
            TraversalError::ResolveError { parent_link_path, error } =>
                parent_link_path == parent_link_path_of(shadowenv)
                    && error.contains("No such file or directory"),
            _ => false,
        }
    );
}

fn parent_link_path_of(root: &str) -> String {
    parent_link_path(root)
}

#[test]
fn find_shadowenv_paths_disallow_self_reference() {
    let shadowenv = "/base/dir/.shadowenv.d";
    assert!(matches!(
        find_shadowenv_paths(Some(shadowenv.to_string()), &vec![resolved(shadowenv)]).unwrap_err(),
        TraversalError::SelfReferential { .. }
    ));
    assert!(matches!(
        find_shadowenv_paths(Some(shadowenv.to_string()), &vec![resolved("/base/dir/.shadowenv.d/")]).unwrap_err(),
        TraversalError::SelfReferential { .. }
    ));
}

#[test]
fn find_shadowenv_paths_using_relative_paths() {
    // the links are relative; what they resolve to is canonical
    let one = "/base/dir1/.shadowenv.d";
    let two = "/base/dir1/dir2/.shadowenv.d";
    let three = "/base/dir1/dir2/dir3/.shadowenv.d";
    assert_eq!(
        find_shadowenv_paths(Some(three.to_string()), &vec![resolved(one), LinkProbe::Absent]).unwrap(),
        [three, one]
    );
    assert_eq!(
        find_shadowenv_paths(Some(two.to_string()), &vec![resolved(one), LinkProbe::Absent]).unwrap(),
        [two, one]
    );
}

#[test]
fn what_stands_at_the_place_of_a_link() {
    assert_eq!(
        link_probe(true, Ok("/a/.shadowenv.d".to_string())),
        LinkProbe::Resolved("/a/.shadowenv.d".to_string())
    );
    assert_eq!(
        link_probe(true, Err("No such file or directory".to_string())),
        LinkProbe::Unresolvable("No such file or directory".to_string())
    );
    assert_eq!(link_probe(false, Err("Invalid argument".to_string())), LinkProbe::NotASymlink);
}

#[test]
fn a_link_to_the_directory_above_is_accepted() {
    // the parent may stand in the very directory that holds the child
    assert_eq!(
        resolve_shadowenv_parent("/a/b/.shadowenv.d", &resolved("/a/.shadowenv.d")),
        Ok(Some("/a/.shadowenv.d".to_string()))
    );
    assert_eq!(resolve_shadowenv_parent("/a/b/.shadowenv.d", &LinkProbe::Absent), Ok(None));
    assert!(matches!(
        resolve_shadowenv_parent("/a/b/.shadowenv.d", &resolved("/a/b/c/.shadowenv.d")),
        Err(TraversalError::NotAnAncestor { .. })
    ));
    assert!(matches!(
        resolve_shadowenv_parent("/a/bc/.shadowenv.d", &resolved("/a/b/.shadowenv.d")),
        Err(TraversalError::NotAnAncestor { .. })
    ));
}

#[test]
fn a_program_directory_is_held_by_the_directory_above() {
    assert_eq!(holder("/w/.shadowenv.d"), "/w");
    assert_eq!(holder("/w/inner/.shadowenv.d"), "/w/inner");
    assert_eq!(holder("/.shadowenv.d"), "/");
    assert_eq!(holder("/"), "");
    assert_eq!(holder(""), "");
    let entries = vec![("a.lisp".to_string(), "(env/set \"A\" \"1\")".to_string())];
    assert_eq!(load("/w/.shadowenv.d", &entries).unwrap().dir, holder("/w/.shadowenv.d"));
}
