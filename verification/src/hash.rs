//! Program files, program directories and chains of them, and the 64-bit
//! digest that tells one chain from another.

use crate::digits::{
    all_hex, hex16, hex_text, hex_value, lemma_hex_round_trip, lemma_hex_text_len, lemma_pow16_16,
    parse_hex16,
};
use crate::text::{
    chars_of, copy_chars, join, join_with, lemma_lex_lt_irreflexive, lemma_lex_lt_total,
    lemma_lex_lt_transitive, lemma_texts_push, lex_lt, push_all, split, split_on, string_of,
    string_texts, text_eq, text_less, texts,
};
use blake2::digest::{Update, VariableOutput};
use std::collections::VecDeque;
use vstd::prelude::*;
use vstd::relations::{sorted_by, total_ordering};
use vstd::seq_lib::lemma_sorted_unique;
use vstd::utf8::encode_utf8;

verus! {

/// The byte that ends a file, a directory's name and a directory's digest.
pub const FILE_SEPARATOR: u8 = 0x1C;

/// The byte between a file's name and its contents.
pub const GROUP_SEPARATOR: u8 = 0x1D;

/// A program file: its base name and its text.
#[derive(Debug, Clone, PartialEq, Eq, PartialOrd, Ord)]
pub struct SourceFile {
    pub name: String,
    pub contents: String,
}

/// A program directory: the directory that holds it, and its files.
#[derive(Debug, Clone)]
pub struct Source {
    pub dir: String,
    pub files: Vec<SourceFile>,
}

/// A chain of program directories, the outermost first.
#[derive(Debug, Clone)]
pub struct SourceList {
    sources: VecDeque<Source>,
}

/// The digest of a chain.
#[derive(Debug, PartialEq, Eq, Clone)]
pub struct Hash {
    pub hash: u64,
}

/// A text that is not sixteen hexadecimal digits.
#[derive(Debug, PartialEq, Eq)]
pub struct WrongInputSize;

/// A program file as plain values.
pub ghost struct FileView {
    pub name: Seq<char>,
    pub contents: Seq<char>,
}

/// A program directory as plain values.
pub ghost struct SourceView {
    pub dir: Seq<char>,
    pub files: Seq<FileView>,
}

impl View for SourceFile {
    type V = FileView;

    open spec fn view(&self) -> FileView {
        FileView { name: self.name@, contents: self.contents@ }
    }
}

/// The files of a sequence as plain values.
pub open spec fn file_views(files: Seq<SourceFile>) -> Seq<FileView> {
    files.map_values(|f: SourceFile| f@)
}

impl View for Source {
    type V = SourceView;

    open spec fn view(&self) -> SourceView {
        SourceView { dir: self.dir@, files: file_views(self.files@) }
    }
}

/// The sources of a sequence as plain values.
pub open spec fn source_views(sources: Seq<Source>) -> Seq<SourceView> {
    sources.map_values(|s: Source| s@)
}

/// The directory of each source of a chain, in the order of the chain.
pub open spec fn chain_dirs(chain: Seq<SourceView>) -> Seq<Seq<char>> {
    chain.map_values(|s: SourceView| s.dir)
}

impl View for SourceList {
    type V = Seq<SourceView>;

    closed spec fn view(&self) -> Seq<SourceView> {
        source_views(self.sources@)
    }
}

/// The order of files: by name, and by contents where the names are the same.
pub open spec fn file_leq(a: FileView, b: FileView) -> bool {
    lex_lt(a.name, b.name) || (a.name == b.name && !lex_lt(b.contents, a.contents))
}

/// The files in their order.
pub open spec fn sorted_files(files: Seq<FileView>) -> Seq<FileView> {
    files.sort_by(|a: FileView, b: FileView| file_leq(a, b))
}

/// The order of files is total.
pub proof fn lemma_file_order_total()
    ensures
        total_ordering(|a: FileView, b: FileView| file_leq(a, b)),
{
    let r = |a: FileView, b: FileView| file_leq(a, b);
    assert forall|x: FileView| #[trigger] r(x, x) by {
        lemma_lex_lt_irreflexive(x.contents);
    }
    assert forall|x: FileView, y: FileView| #[trigger] r(x, y) && #[trigger] r(y, x) implies x
        == y by {
        lemma_lex_lt_total(x.name, y.name);
        lemma_lex_lt_total(x.contents, y.contents);
        lemma_lex_lt_irreflexive(x.name);
    }
    assert forall|x: FileView, y: FileView, z: FileView| #[trigger]
        r(x, y) && #[trigger] r(y, z) implies r(x, z) by {
        if lex_lt(x.name, y.name) && lex_lt(y.name, z.name) {
            lemma_lex_lt_transitive(x.name, y.name, z.name);
        } else if x.name == y.name && y.name == z.name {
            lemma_lex_lt_total(x.contents, y.contents);
            lemma_lex_lt_total(y.contents, z.contents);
            lemma_lex_lt_total(x.contents, z.contents);
            if lex_lt(z.contents, x.contents) {
                if x.contents == y.contents {
                } else if y.contents == z.contents {
                } else {
                    lemma_lex_lt_transitive(z.contents, x.contents, y.contents);
                }
            }
        }
    }
    assert forall|x: FileView, y: FileView| #[trigger] r(x, y) || #[trigger] r(y, x) by {
        lemma_lex_lt_total(x.name, y.name);
        lemma_lex_lt_total(x.contents, y.contents);
    }
    assert(vstd::relations::reflexive(r));
    assert(vstd::relations::antisymmetric(r));
    assert(vstd::relations::transitive(r));
    assert(vstd::relations::strongly_connected(r));
}

/// What one file feeds to the digest: its name, the group separator, its
/// contents and the file separator.
pub open spec fn file_bytes(f: FileView) -> Seq<u8> {
    encode_utf8(f.name) + seq![GROUP_SEPARATOR] + encode_utf8(f.contents) + seq![FILE_SEPARATOR]
}

/// What files feed to the digest, one after the other.
pub open spec fn files_bytes(files: Seq<FileView>) -> Seq<u8>
    decreases files.len(),
{
    if files.len() == 0 {
        Seq::empty()
    } else {
        file_bytes(files[0]) + files_bytes(files.drop_first())
    }
}

/// What a program directory feeds to the digest: the name of its directory,
/// the file separator, and its files in their order.
pub open spec fn source_input(s: SourceView) -> Seq<u8> {
    encode_utf8(s.dir) + seq![FILE_SEPARATOR] + files_bytes(sorted_files(s.files))
}

/// The first eight bytes of output of BLAKE2b, made for an output of eight
/// bytes and without a key, over the given input.
pub uninterp spec fn blake2b8(input: Seq<u8>) -> Seq<u8>;

/// The number that eight bytes write, the least significant byte first.
pub open spec fn le_u64(b: Seq<u8>) -> u64 {
    (b[0] as int + 0x100 * (b[1] as int) + 0x1_0000 * (b[2] as int) + 0x100_0000 * (b[3] as int)
        + 0x1_0000_0000 * (b[4] as int) + 0x100_0000_0000 * (b[5] as int) + 0x1_0000_0000_0000 * (
    b[6] as int) + 0x100_0000_0000_0000 * (b[7] as int)) as u64
}

/// The digest of a program directory as bytes; a directory without files
/// has none.
pub open spec fn source_digest(s: SourceView) -> Option<Seq<u8>> {
    if s.files.len() == 0 {
        None
    } else {
        Some(blake2b8(source_input(s)))
    }
}

/// The digest of a program directory as a number.
pub open spec fn source_hash(s: SourceView) -> Option<u64> {
    match source_digest(s) {
        Some(d) => Some(le_u64(d)),
        None => None,
    }
}

/// What a chain feeds to the digest: the digest of each of its directories,
/// each followed by the file separator.
pub open spec fn chain_input(chain: Seq<SourceView>) -> Seq<u8>
    decreases chain.len(),
{
    if chain.len() == 0 {
        Seq::empty()
    } else {
        source_digest(chain[0]).unwrap() + seq![FILE_SEPARATOR] + chain_input(chain.drop_first())
    }
}

/// The digest of a chain. The empty chain has the digest 0, which stands
/// for no chain; a chain with a directory without files has none.
pub open spec fn chain_hash(chain: Seq<SourceView>) -> Option<u64> {
    if chain.len() == 0 {
        Some(0)
    } else if exists|i: int| 0 <= i < chain.len() && (#[trigger] chain[i]).files.len() == 0 {
        None
    } else {
        Some(le_u64(blake2b8(chain_input(chain))))
    }
}

/// Computes the digest of eight bytes of a byte string.
///
/// Trusted: `Blake2bVar::new(8)`, `update` and `finalize_variable` of the
/// crate `blake2`. The contract names the result and claims that it has
/// eight bytes. An output size of eight is accepted by `new`, and a buffer
/// of that size by `finalize_variable`, so neither `expect` fails.
#[verifier::external_body]
fn blake2b_digest8(input: &Vec<u8>) -> (digest: Vec<u8>)
    ensures
        digest@ == blake2b8(input@),
        digest@.len() == 8,
{
    let mut hasher = blake2::Blake2bVar::new(8).expect("bad hasher output size");
    hasher.update(input.as_slice());
    let mut buf = [0u8; 8];
    hasher.finalize_variable(&mut buf).expect("bad hasher buffer size");
    buf.to_vec()
}

/// The number that eight bytes write, the least significant byte first.
pub fn u64_from_le(b: &Vec<u8>) -> (r: u64)
    requires
        b@.len() == 8,
    ensures
        r == le_u64(b@),
{
    let b0: u64 = b[0] as u64;
    let b1: u64 = b[1] as u64;
    let b2: u64 = b[2] as u64;
    let b3: u64 = b[3] as u64;
    let b4: u64 = b[4] as u64;
    let b5: u64 = b[5] as u64;
    let b6: u64 = b[6] as u64;
    let b7: u64 = b[7] as u64;
    b0 + 0x100 * b1 + 0x1_0000 * b2 + 0x100_0000 * b3 + 0x1_0000_0000 * b4 + 0x100_0000_0000 * b5
        + 0x1_0000_0000_0000 * b6 + 0x100_0000_0000_0000 * b7
}

/// Appends the bytes of a text.
pub fn push_str_bytes(out: &mut Vec<u8>, s: &str)
    ensures
        final(out)@ == old(out)@ + encode_utf8(s@),
{
    let bytes = s.as_bytes();
    let ghost before = out@;
    let mut i: usize = 0;
    assert(before + bytes@.take(0) =~= before);
    while i < bytes.len()
        invariant
            i <= bytes.len(),
            bytes@ == encode_utf8(s@),
            out@ == before + bytes@.take(i as int),
        decreases bytes.len() - i,
    {
        out.push(bytes[i]);
        i = i + 1;
        assert(before + bytes@.take(i as int) =~= (before + bytes@.take(i - 1)).push(bytes@[i - 1]));
    }
    assert(bytes@.take(bytes.len() as int) =~= bytes@);
}

/// Appends the bytes of a byte string.
pub fn push_bytes(out: &mut Vec<u8>, more: &Vec<u8>)
    ensures
        final(out)@ == old(out)@ + more@,
{
    let ghost before = out@;
    let mut i: usize = 0;
    assert(before + more@.take(0) =~= before);
    while i < more.len()
        invariant
            i <= more.len(),
            out@ == before + more@.take(i as int),
        decreases more.len() - i,
    {
        out.push(more[i]);
        i = i + 1;
        assert(before + more@.take(i as int) =~= (before + more@.take(i - 1)).push(more@[i - 1]));
    }
    assert(more@.take(more.len() as int) =~= more@);
}

impl SourceFile {
    /// A copy of the file.
    pub fn duplicate(&self) -> (f: SourceFile)
        ensures
            f@ == self@,
    {
        SourceFile { name: self.name.clone(), contents: self.contents.clone() }
    }

    /// Whether this file comes before `other`, or is the same.
    pub fn precedes(&self, other: &SourceFile) -> (r: bool)
        ensures
            r == file_leq(self@, other@),
    {
        if text_less(self.name.as_str(), other.name.as_str()) {
            true
        } else if text_eq(self.name.as_str(), other.name.as_str()) {
            !text_less(other.contents.as_str(), self.contents.as_str())
        } else {
            false
        }
    }
}

/// The files in their order: by name, and by contents where names are the same.
pub fn sort_files(files: &Vec<SourceFile>) -> (out: Vec<SourceFile>)
    ensures
        file_views(out@) == sorted_files(file_views(files@)),
{
    let ghost leq = |a: FileView, b: FileView| file_leq(a, b);
    let mut out: Vec<SourceFile> = Vec::new();
    let mut i: usize = 0;
    proof {
        lemma_file_order_total();
        assert(file_views(files@).take(0) =~= Seq::<FileView>::empty());
        assert(file_views(out@) =~= Seq::<FileView>::empty());
    }
    while i < files.len()
        invariant
            i <= files.len(),
            leq == (|a: FileView, b: FileView| file_leq(a, b)),
            total_ordering(leq),
            sorted_by(file_views(out@), leq),
            file_views(out@).to_multiset() == file_views(files@).take(i as int).to_multiset(),
        decreases files.len() - i,
    {
        let file = &files[i];
        let mut p: usize = 0;
        while p < out.len() && out[p].precedes(file)
            invariant
                p <= out.len(),
                forall|k: int| 0 <= k < p ==> file_leq(#[trigger] file_views(out@)[k], file@),
            decreases out.len() - p,
        {
            assert(file_views(out@)[p as int] == out@[p as int]@);
            p = p + 1;
        }
        let ghost before = file_views(out@);
        out.insert(p, file.duplicate());
        proof {
            let after = file_views(out@);
            assert(after =~= before.insert(p as int, file@));
            vstd::seq_lib::to_multiset_insert(before, p as int, file@);
            let done = file_views(files@).take(i as int);
            assert(file_views(files@).take(i + 1) =~= done.push(file@));
            vstd::seq_lib::to_multiset_build(done, file@);
            assert forall|x: int, y: int| 0 <= x < y < after.len() implies #[trigger] leq(
                after[x],
                after[y],
            ) by {
                if y < p {
                    assert(leq(before[x], before[y]));
                } else if y == p {
                    assert(file_leq(before[x], file@));
                } else if x < p {
                    assert(leq(before[x], before[y - 1]));
                } else if x == p {
                    if y - 1 == p {
                        assert(before[p as int] == out@[p + 1]@);
                        assert(!file_leq(before[p as int], file@));
                        assert(leq(before[p as int], file@) || leq(file@, before[p as int]));
                    } else {
                        assert(!file_leq(before[p as int], file@));
                        assert(leq(before[p as int], file@) || leq(file@, before[p as int]));
                        assert(leq(before[p as int], before[y - 1]));
                        assert(leq(file@, before[p as int]) && leq(before[p as int], before[y - 1])
                            ==> leq(file@, before[y - 1]));
                    }
                } else {
                    assert(leq(before[x - 1], before[y - 1]));
                }
            }
        }
        i = i + 1;
    }
    proof {
        let all = file_views(files@);
        assert(all.take(files.len() as int) =~= all);
        all.lemma_sort_by_ensures(leq);
        lemma_sorted_unique(file_views(out@), all.sort_by(leq), leq);
    }
    out
}

impl Source {
    /// A program directory without files.
    pub fn new(dir: &str) -> (s: Source)
        ensures
            s@ == (SourceView { dir: dir@, files: Seq::empty() }),
    {
        let s = Source { dir: String::from_str(dir), files: Vec::new() };
        assert(s@.files =~= Seq::<FileView>::empty());
        s
    }

    /// Adds a file.
    pub fn add_file(&mut self, name: &str, contents: &str)
        ensures
            final(self)@ == (SourceView {
                dir: old(self)@.dir,
                files: old(self)@.files.push(FileView { name: name@, contents: contents@ }),
            }),
    {
        self.files.push(
            SourceFile { name: String::from_str(name), contents: String::from_str(contents) },
        );
        assert(self@.files =~= old(self)@.files.push(
            FileView { name: name@, contents: contents@ },
        ));
    }

    /// What the directory feeds to the digest.
    pub fn digest_input(&self) -> (input: Vec<u8>)
        ensures
            input@ == source_input(self@),
    {
        let files = sort_files(&self.files);
        let mut input: Vec<u8> = Vec::new();
        push_str_bytes(&mut input, self.dir.as_str());
        input.push(FILE_SEPARATOR);
        let ghost head = input@;
        let ghost sorted = file_views(files@);
        let mut i: usize = 0;
        assert(sorted.skip(0) =~= sorted);
        assert(head =~= encode_utf8(self@.dir) + seq![FILE_SEPARATOR]);
        assert(head + files_bytes(sorted) =~= source_input(self@));
        while i < files.len()
            invariant
                i <= files.len(),
                sorted == file_views(files@),
                input@ + files_bytes(sorted.skip(i as int)) == head + files_bytes(sorted),
            decreases files.len() - i,
        {
            let ghost before = input@;
            let ghost tail = sorted.skip(i as int);
            let file = &files[i];
            push_str_bytes(&mut input, file.name.as_str());
            input.push(GROUP_SEPARATOR);
            push_str_bytes(&mut input, file.contents.as_str());
            input.push(FILE_SEPARATOR);
            proof {
                assert(tail[0] == file@);
                assert(tail.drop_first() =~= sorted.skip(i + 1));
                assert(input@ =~= before + file_bytes(file@));
                assert(input@ + files_bytes(sorted.skip(i + 1)) =~= before + (file_bytes(file@)
                    + files_bytes(sorted.skip(i + 1))));
            }
            i = i + 1;
        }
        proof {
            assert(sorted.skip(files.len() as int) =~= Seq::<FileView>::empty());
            assert(input@ + Seq::<u8>::empty() =~= input@);
        }
        input
    }

    /// The digest of the directory as eight bytes; `None` where it has no files.
    pub fn digest(&self) -> (r: Option<Vec<u8>>)
        ensures
            match r {
                Some(d) => source_digest(self@) == Some(d@) && d@.len() == 8,
                None => source_digest(self@) is None,
            },
    {
        if self.files.len() == 0 {
            return None;
        }
        let input = self.digest_input();
        Some(blake2b_digest8(&input))
    }

    /// The digest of the directory; `None` where it has no files.
    pub fn hash(&self) -> (r: Option<u64>)
        ensures
            r == source_hash(self@),
    {
        match self.digest() {
            Some(d) => Some(u64_from_le(&d)),
            None => None,
        }
    }
}

/// What the text of a digest says: its number, where the text is sixteen
/// hexadecimal digits.
pub open spec fn hash_of_text(key: Seq<char>) -> Option<u64> {
    if key.len() == 16 && all_hex(key) {
        Some(hex_value(key) as u64)
    } else {
        None
    }
}

impl Hash {
    /// Reads a digest from sixteen hexadecimal digits.
    pub fn from_str(key: &str) -> (r: Result<Hash, WrongInputSize>)
        ensures
            match r {
                Ok(h) => hash_of_text(key@) == Some(h.hash),
                Err(_) => hash_of_text(key@) is None,
            },
    {
        let chars = chars_of(key);
        match parse_hex16(&chars) {
            Some(hash) => Ok(Hash { hash }),
            None => Err(WrongInputSize),
        }
    }

    /// The digest as sixteen lowercase hexadecimal digits.
    pub fn to_string(&self) -> (r: String)
        ensures
            r@ == hex_text(self.hash as nat, 16),
    {
        let chars = hex16(self.hash);
        string_of(&chars)
    }
}

/// Reading the text of a digest gives the digest back.
pub proof fn law_hash_text_round_trip(hash: u64)
    ensures
        hash_of_text(hex_text(hash as nat, 16)) == Some(hash),
{
    lemma_hex_text_len(hash as nat, 16);
    lemma_pow16_16();
    lemma_hex_round_trip(hash as nat, 16);
}

/// A directory's digest does not depend on the order in which its files
/// were added: two directories of the same name that hold the same files,
/// each as often as the other, feed the same bytes to the digest and have
/// the same digest.
pub proof fn law_hash_ignores_file_order(a: SourceView, b: SourceView)
    requires
        a.dir == b.dir,
        a.files.to_multiset() == b.files.to_multiset(),
    ensures
        source_input(a) == source_input(b),
        source_hash(a) == source_hash(b),
{
    let leq = |x: FileView, y: FileView| file_leq(x, y);
    lemma_file_order_total();
    a.files.lemma_sort_by_ensures(leq);
    b.files.lemma_sort_by_ensures(leq);
    lemma_sorted_unique(a.files.sort_by(leq), b.files.sort_by(leq), leq);
    a.files.to_multiset_ensures();
    b.files.to_multiset_ensures();
}

/// A chain's digest depends on nothing but the names of its directories and
/// the names and contents of their files: chains that agree in these, the
/// files in whatever order, have the same digest.
pub proof fn law_chain_hash_ignores_file_order(a: Seq<SourceView>, b: Seq<SourceView>)
    requires
        a.len() == b.len(),
        forall|i: int|
            0 <= i < a.len() ==> (#[trigger] a[i]).dir == b[i].dir && a[i].files.to_multiset()
                == b[i].files.to_multiset(),
    ensures
        chain_hash(a) == chain_hash(b),
{
    assert forall|i: int| 0 <= i < a.len() implies (#[trigger] a[i]).files.len() == b[i].files.len()
        && source_digest(a[i]) == source_digest(b[i]) by {
        law_hash_ignores_file_order(a[i], b[i]);
        a[i].files.to_multiset_ensures();
        b[i].files.to_multiset_ensures();
    }
    lemma_chain_input_same(a, b);
    if exists|i: int| 0 <= i < a.len() && (#[trigger] a[i]).files.len() == 0 {
        let i = choose|i: int| 0 <= i < a.len() && (#[trigger] a[i]).files.len() == 0;
        assert(b[i].files.len() == 0);
    }
    if exists|i: int| 0 <= i < b.len() && (#[trigger] b[i]).files.len() == 0 {
        let i = choose|i: int| 0 <= i < b.len() && (#[trigger] b[i]).files.len() == 0;
        assert(a[i].files.len() == 0);
    }
}

/// Chains whose directories have the same digests feed the same bytes to
/// the digest.
proof fn lemma_chain_input_same(a: Seq<SourceView>, b: Seq<SourceView>)
    requires
        a.len() == b.len(),
        forall|i: int| 0 <= i < a.len() ==> source_digest(#[trigger] a[i]) == source_digest(b[i]),
    ensures
        chain_input(a) == chain_input(b),
    decreases a.len(),
{
    if a.len() > 0 {
        assert(source_digest(a[0]) == source_digest(b[0]));
        assert forall|i: int| 0 <= i < a.drop_first().len() implies source_digest(
            #[trigger] a.drop_first()[i],
        ) == source_digest(b.drop_first()[i]) by {
            assert(a.drop_first()[i] == a[i + 1]);
            assert(b.drop_first()[i] == b[i + 1]);
        }
        lemma_chain_input_same(a.drop_first(), b.drop_first());
    }
}

/// Whether a piece of a path between slashes names something: it is
/// neither empty nor a single dot.
pub open spec fn is_component(piece: Seq<char>) -> bool {
    piece.len() > 0 && piece != seq!['.']
}

/// The pieces that name something.
pub open spec fn named_components(pieces: Seq<Seq<char>>) -> Seq<Seq<char>>
    decreases pieces.len(),
{
    if pieces.len() == 0 {
        pieces
    } else if is_component(pieces[0]) {
        seq![pieces[0]] + named_components(pieces.drop_first())
    } else {
        named_components(pieces.drop_first())
    }
}

/// The components of a path: the root, where the path begins with a slash,
/// and then the pieces between slashes that name something.
pub open spec fn path_components(dir: Seq<char>) -> Seq<Seq<char>> {
    let names = named_components(split_on(dir, '/'));
    if dir.len() > 0 && dir[0] == '/' {
        seq![seq!['/']] + names
    } else {
        names
    }
}

/// The path that components make.
pub open spec fn path_from(components: Seq<Seq<char>>) -> Seq<char> {
    if components.len() > 0 && components[0] == seq!['/'] {
        seq!['/'] + join_with(components.drop_first(), '/')
    } else {
        join_with(components, '/')
    }
}

/// A path without its first `depth` components.
pub open spec fn shortened(dir: Seq<char>, depth: nat) -> Seq<char> {
    let components = path_components(dir);
    if depth >= components.len() {
        Seq::empty()
    } else {
        path_from(components.skip(depth as int))
    }
}

/// How many components the directories of a chain lose when they are
/// shortened: all those of the first directory but its last.
pub open spec fn shortening_depth(chain: Seq<SourceView>) -> nat {
    if chain.len() == 0 || path_components(chain[0].dir).len() == 0 {
        0
    } else {
        (path_components(chain[0].dir).len() - 1) as nat
    }
}

/// The components of a path.
pub fn components_of(dir: &str) -> (out: Vec<Vec<char>>)
    ensures
        texts(out@) == path_components(dir@),
{
    let chars = chars_of(dir);
    let pieces = split(&chars, '/');
    let mut out: Vec<Vec<char>> = Vec::new();
    if chars.len() > 0 && chars[0] == '/' {
        let mut root: Vec<char> = Vec::new();
        root.push('/');
        out.push(root);
    }
    let ghost head = texts(out@);
    let ghost all = texts(pieces@);
    let mut i: usize = 0;
    proof {
        assert(all.skip(0) =~= all);
        if chars.len() > 0 && chars@[0] == '/' {
            assert(head =~= seq![seq!['/']]);
        } else {
            assert(head =~= Seq::<Seq<char>>::empty());
            assert(head + named_components(all) =~= named_components(all));
        }
    }
    while i < pieces.len()
        invariant
            i <= pieces.len(),
            all == texts(pieces@),
            texts(out@) + named_components(all.skip(i as int)) == head + named_components(all),
        decreases pieces.len() - i,
    {
        let piece = &pieces[i];
        let ghost tail = all.skip(i as int);
        let ghost done = texts(out@);
        proof {
            assert(tail[0] == piece@);
            assert(tail.drop_first() =~= all.skip(i + 1));
        }
        let single_dot = piece.len() == 1 && piece[0] == '.';
        proof {
            if single_dot {
                assert(piece@ =~= seq!['.']);
            }
        }
        if piece.len() > 0 && !single_dot {
            let copy = copy_chars(piece);
            let ghost pieces_before = out@;
            out.push(copy);
            proof {
                lemma_texts_push(pieces_before, copy);
                assert(done.push(piece@) + named_components(all.skip(i + 1)) =~= done + (
                seq![piece@] + named_components(all.skip(i + 1))));
            }
        }
        i = i + 1;
    }
    proof {
        assert(all.skip(pieces.len() as int) =~= Seq::<Seq<char>>::empty());
        assert(texts(out@) + Seq::<Seq<char>>::empty() =~= texts(out@));
    }
    out
}

/// A path without its first `depth` components.
pub fn shorten(dir: &str, depth: usize) -> (out: String)
    ensures
        out@ == shortened(dir@, depth as nat),
{
    let components = components_of(dir);
    if depth >= components.len() {
        return String::new();
    }
    let mut rest: Vec<Vec<char>> = Vec::new();
    let mut i: usize = depth;
    while i < components.len()
        invariant
            depth <= i <= components.len(),
            texts(rest@) == texts(components@).subrange(depth as int, i as int),
        decreases components.len() - i,
    {
        let ghost before = rest@;
        let piece = copy_chars(&components[i]);
        rest.push(piece);
        proof {
            lemma_texts_push(before, piece);
            assert(texts(components@).subrange(depth as int, i + 1) =~= texts(
                components@,
            ).subrange(depth as int, i as int).push(components@[i as int]@));
        }
        i = i + 1;
    }
    proof {
        assert(texts(components@).subrange(depth as int, components.len() as int) =~= texts(
            components@,
        ).skip(depth as int));
    }
    let rooted = rest[0].len() == 1 && rest[0][0] == '/';
    proof {
        assert(texts(rest@)[0] == rest@[0]@);
        if rooted {
            assert(rest@[0]@ =~= seq!['/']);
        }
    }
    if rooted {
        let mut tail: Vec<Vec<char>> = Vec::new();
        let mut k: usize = 1;
        while k < rest.len()
            invariant
                1 <= k <= rest.len(),
                texts(tail@) == texts(rest@).subrange(1, k as int),
            decreases rest.len() - k,
        {
            let ghost before = tail@;
            let piece = copy_chars(&rest[k]);
            tail.push(piece);
            proof {
                lemma_texts_push(before, piece);
                assert(texts(rest@).subrange(1, k + 1) =~= texts(rest@).subrange(1, k as int).push(
                    rest@[k as int]@,
                ));
            }
            k = k + 1;
        }
        proof {
            assert(texts(rest@).subrange(1, rest.len() as int) =~= texts(rest@).drop_first());
        }
        let mut out: Vec<char> = Vec::new();
        out.push('/');
        let joined = join(&tail, '/');
        push_all(&mut out, &joined);
        assert(out@ =~= seq!['/'] + join_with(texts(rest@).drop_first(), '/'));
        string_of(&out)
    } else {
        let joined = join(&rest, '/');
        string_of(&joined)
    }
}

impl SourceList {
    /// The empty chain.
    pub fn new() -> (list: SourceList)
        ensures
            list@ == Seq::<SourceView>::empty(),
    {
        let list = SourceList { sources: VecDeque::new() };
        assert(list@ =~= Seq::<SourceView>::empty());
        list
    }

    /// The chain of the given directories, the outermost first.
    pub fn new_with_sources(sources: Vec<Source>) -> (list: SourceList)
        ensures
            list@ == source_views(sources@),
    {
        let mut rest = sources;
        let mut chain: VecDeque<Source> = VecDeque::new();
        proof {
            assert(rest@ + chain@ =~= sources@);
        }
        while rest.len() > 0
            invariant
                rest@ + chain@ == sources@,
            decreases rest.len(),
        {
            let ghost before = rest@;
            let ghost behind = chain@;
            match rest.pop() {
                Some(source) => {
                    chain.push_front(source);
                    proof {
                        assert(rest@ + chain@ =~= before + behind);
                    }
                },
                None => {},
            }
        }
        proof {
            assert(rest@ + chain@ =~= chain@);
        }
        SourceList { sources: chain }
    }

    /// Puts a directory in front of the chain.
    pub fn prepend_source(&mut self, source: Source)
        ensures
            final(self)@ == seq![source@] + old(self)@,
    {
        self.sources.push_front(source);
        assert(self@ =~= seq![source@] + old(self)@);
    }

    /// Whether the chain has no directory.
    pub fn is_empty(&self) -> (r: bool)
        ensures
            r == (self@.len() == 0),
    {
        self.sources.len() == 0
    }

    /// What the chain feeds to the digest, where every directory has files.
    pub fn digest_input(&self) -> (r: Option<Vec<u8>>)
        ensures
            match r {
                Some(input) => input@ == chain_input(self@) && forall|i: int|
                    0 <= i < self@.len() ==> (#[trigger] self@[i]).files.len() > 0,
                None => exists|i: int| 0 <= i < self@.len() && (#[trigger] self@[i]).files.len() == 0,
            },
    {
        let mut input: Vec<u8> = Vec::new();
        let ghost chain = self@;
        let mut i: usize = 0;
        assert(chain.skip(0) =~= chain);
        assert(input@ + chain_input(chain) =~= chain_input(chain));
        while i < self.sources.len()
            invariant
                i <= self.sources.len(),
                chain == source_views(self.sources@),
                input@ + chain_input(chain.skip(i as int)) == chain_input(chain),
                forall|k: int| 0 <= k < i ==> (#[trigger] chain[k]).files.len() > 0,
            decreases self.sources.len() - i,
        {
            let ghost before = input@;
            let ghost tail = chain.skip(i as int);
            proof {
                assert(tail[0] == self.sources@[i as int]@);
                assert(chain[i as int] == self.sources@[i as int]@);
                assert(tail.drop_first() =~= chain.skip(i + 1));
            }
            match self.sources[i].digest() {
                Some(d) => {
                    push_bytes(&mut input, &d);
                    input.push(FILE_SEPARATOR);
                    proof {
                        assert(input@ + chain_input(chain.skip(i + 1)) =~= before + (d@
                            + seq![FILE_SEPARATOR] + chain_input(chain.skip(i + 1))));
                    }
                },
                None => {
                    assert(self@[i as int].files.len() == 0);
                    return None;
                },
            }
            i = i + 1;
        }
        proof {
            assert(chain.skip(self.sources.len() as int) =~= Seq::<SourceView>::empty());
            assert(input@ + Seq::<u8>::empty() =~= input@);
        }
        Some(input)
    }

    /// The digest of the chain.
    pub fn hash(&self) -> (r: Option<u64>)
        ensures
            r == chain_hash(self@),
    {
        if self.sources.len() == 0 {
            return Some(0);
        }
        match self.digest_input() {
            Some(input) => {
                let d = blake2b_digest8(&input);
                Some(u64_from_le(&d))
            },
            None => None,
        }
    }

    /// The directories of the chain.
    pub fn consume(self) -> (sources: Vec<Source>)
        ensures
            source_views(sources@) == self@,
    {
        let mut rest = self.sources;
        let mut sources: Vec<Source> = Vec::new();
        let ghost all = rest@;
        proof {
            assert(sources@ + rest@ =~= all);
        }
        while rest.len() > 0
            invariant
                sources@ + rest@ == all,
            decreases rest.len(),
        {
            let ghost before = rest@;
            let ghost ahead = sources@;
            match rest.pop_front() {
                Some(source) => {
                    sources.push(source);
                    proof {
                        assert(sources@ + rest@ =~= ahead + before);
                    }
                },
                None => {},
            }
        }
        proof {
            assert(sources@ + rest@ =~= sources@);
        }
        sources
    }

    /// The directory of each source of the chain, in the order of the chain.
    pub fn dirs(&self) -> (dirs: Vec<String>)
        ensures
            string_texts(dirs@) == chain_dirs(self@),
    {
        let mut dirs: Vec<String> = Vec::new();
        let mut i: usize = 0;
        while i < self.sources.len()
            invariant
                i <= self.sources.len(),
                dirs@.len() == i,
                forall|k: int| 0 <= k < i ==> (#[trigger] dirs@[k])@ == self.sources@[k]@.dir,
            decreases self.sources.len() - i,
        {
            dirs.push(self.sources[i].dir.clone());
            i = i + 1;
        }
        assert(string_texts(dirs@) =~= chain_dirs(self@));
        dirs
    }

    /// The directories of the chain as they are shown: each without the
    /// components that lead to the first directory of the chain.
    pub fn shortened_dirs(&self) -> (dirs: Vec<String>)
        ensures
            dirs@.len() == self@.len(),
            forall|i: int|
                0 <= i < self@.len() ==> (#[trigger] dirs@[i])@ == shortened(
                    self@[i].dir,
                    shortening_depth(self@),
                ),
    {
        let mut dirs: Vec<String> = Vec::new();
        if self.sources.len() == 0 {
            return dirs;
        }
        let top = components_of(self.sources[0].dir.as_str());
        let depth: usize = if top.len() == 0 {
            0
        } else {
            top.len() - 1
        };
        proof {
            assert(self@[0] == self.sources@[0]@);
            assert(depth == shortening_depth(self@));
        }
        let mut i: usize = 0;
        while i < self.sources.len()
            invariant
                i <= self.sources.len(),
                dirs@.len() == i,
                forall|k: int|
                    0 <= k < i ==> (#[trigger] dirs@[k])@ == shortened(
                        self.sources@[k]@.dir,
                        depth as nat,
                    ),
            decreases self.sources.len() - i,
        {
            dirs.push(shorten(self.sources[i].dir.as_str(), depth));
            i = i + 1;
        }
        assert forall|i: int| 0 <= i < self@.len() implies (#[trigger] dirs@[i])@ == shortened(
            self@[i].dir,
            shortening_depth(self@),
        ) by {
            assert(self@[i] == self.sources@[i]@);
        }
        dirs
    }
}

} // verus!
