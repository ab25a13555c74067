use blake2::digest::{Update, VariableOutput};
use shadowenv::hash::{Source, SourceFile, SourceList, WrongInputSize};

#[test]
fn test_key_encoding() {
    let key = shadowenv::hash::Hash { hash: 2 };
    let hex = key.to_string();
    assert_eq!("0000000000000002", hex);
    let key2: shadowenv::hash::Hash = shadowenv::hash::Hash::from_str(&hex).unwrap();
    assert_eq!(key, key2);
}

#[test]
fn hash_roundtrip() {
    for hash in [0u64, 1, 0xdead_beef, u64::MAX, 0x0123_4567_89ab_cdef] {
        let h = shadowenv::hash::Hash { hash };
        assert_eq!(hash, shadowenv::hash::Hash::from_str(&h.to_string()).unwrap().hash);
    }
    assert_eq!(shadowenv::hash::Hash { hash: u64::MAX }.to_string(), "ffffffffffffffff");
    assert_eq!(
        shadowenv::hash::Hash::from_str("0123456789ABCDEF").unwrap().hash,
        0x0123_4567_89ab_cdef
    );
}

#[test]
fn hash_text_must_be_sixteen_hex_digits() {
    assert_eq!(shadowenv::hash::Hash::from_str(""), Err(WrongInputSize));
    assert_eq!(shadowenv::hash::Hash::from_str("123"), Err(WrongInputSize));
    assert_eq!(shadowenv::hash::Hash::from_str("000000000000000g"), Err(WrongInputSize));
    assert_eq!(shadowenv::hash::Hash::from_str("+000000000000001"), Err(WrongInputSize));
    assert_eq!(shadowenv::hash::Hash::from_str("00000000000000001"), Err(WrongInputSize));
}

#[test]
fn source_hash_is_stable() {
    let mut source = Source::new("/w");
    source.add_file("a.lisp", "(env/set \"A\" \"1\")");
    assert_eq!(source.hash(), source.hash());
    assert!(source.hash().is_some());
}

#[test]
fn source_without_files_has_no_hash() {
    assert_eq!(Source::new("/w").hash(), None);
    let list = SourceList::new_with_sources(vec![Source::new("/w")]);
    assert_eq!(list.hash(), None);
}

#[test]
fn empty_chain_has_the_zero_hash() {
    assert!(SourceList::new().is_empty());
    assert_eq!(SourceList::new().hash(), Some(0));
}

#[test]
fn source_hash_is_blake2b_of_dir_and_files() {
    let mut source = Source::new("/w");
    source.add_file("00.lisp", "(env/set \"FOO\" \"bar\")");
    let mut expected: Vec<u8> = Vec::new();
    expected.extend_from_slice(b"/w\x1c00.lisp\x1d(env/set \"FOO\" \"bar\")\x1c");
    assert_eq!(source.digest_input(), expected);
    // blake2b with an 8-byte output over the bytes above.
    let mut hasher = blake2::Blake2bVar::new(8).unwrap();
    hasher.update(&expected);
    let mut buf = [0u8; 8];
    hasher.finalize_variable(&mut buf).unwrap();
    assert_eq!(source.hash(), Some(u64::from_le_bytes(buf)));
    assert_ne!(source.digest().unwrap(), expected);

    let list = SourceList::new_with_sources(vec![source]);
    let mut chain: Vec<u8> = buf.to_vec();
    chain.push(0x1c);
    assert_eq!(list.digest_input(), Some(chain.clone()));
    let mut hasher = blake2::Blake2bVar::new(8).unwrap();
    hasher.update(&chain);
    let mut out = [0u8; 8];
    hasher.finalize_variable(&mut out).unwrap();
    assert_eq!(list.hash(), Some(u64::from_le_bytes(out)));
}

#[test]
fn hash_does_not_depend_on_file_order() {
    let mut a = Source::new("/w");
    a.add_file("b.lisp", "two");
    a.add_file("a.lisp", "one");
    a.add_file("a.lisp", "another");
    let mut b = Source::new("/w");
    b.add_file("a.lisp", "another");
    b.add_file("a.lisp", "one");
    b.add_file("b.lisp", "two");
    assert_eq!(a.hash(), b.hash());
    assert_eq!(a.digest_input(), b.digest_input());
    let mut c = Source::new("/w");
    c.add_file("a.lisp", "one");
    c.add_file("b.lisp", "two");
    assert_ne!(a.hash(), c.hash());
}

#[test]
fn files_sort_by_name_then_contents() {
    let files = vec![
        SourceFile { name: "b".to_string(), contents: "1".to_string() },
        SourceFile { name: "a".to_string(), contents: "2".to_string() },
        SourceFile { name: "a".to_string(), contents: "1".to_string() },
        SourceFile { name: "".to_string(), contents: "z".to_string() },
    ];
    let mut expected = files.clone();
    expected.sort();
    assert_eq!(shadowenv::hash::sort_files(&files), expected);
}

#[test]
fn chain_order_and_prepend() {
    let mut list = SourceList::new();
    list.prepend_source(Source::new("/a/b"));
    list.prepend_source(Source::new("/a"));
    assert!(!list.is_empty());
    let dirs: Vec<String> = list.consume().into_iter().map(|s| s.dir).collect();
    assert_eq!(dirs, vec!["/a".to_string(), "/a/b".to_string()]);
}

#[test]
fn shortened_dirs_are_relative_to_the_first() {
    let list = SourceList::new_with_sources(vec![
        Source::new("/home/u/proj"),
        Source::new("/home/u/proj/sub/deep"),
    ]);
    assert_eq!(
        list.shortened_dirs(),
        vec!["proj".to_string(), "proj/sub/deep".to_string()]
    );
    let root = SourceList::new_with_sources(vec![Source::new("/"), Source::new("/x")]);
    assert_eq!(root.shortened_dirs(), vec!["/".to_string(), "/x".to_string()]);
    assert!(SourceList::new().shortened_dirs().is_empty());
}

#[test]
fn dirs_are_listed_in_the_order_of_the_chain() {
    let chain = SourceList::new_with_sources(vec![Source::new("/w"), Source::new("/w/inner")]);
    assert_eq!(chain.dirs(), vec!["/w".to_string(), "/w/inner".to_string()]);
    assert_eq!(SourceList::new().dirs(), Vec::<String>::new());
}
