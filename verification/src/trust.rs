//! The trust protocol: a program directory is trusted where it holds a
//! token, a signature over its own path made with the user's signing key.

use crate::digits::hex_digit;

use crate::output::{inside, path_inside};
use crate::pattern::{regex_is_match, regex_matches};
use crate::text::{chars_of, join, join_with, push_all, push_text, string_of, string_texts, texts};
use ed25519_dalek::{Signer, Verifier};
use vstd::prelude::*;
use vstd::utf8::encode_utf8;

verus! {

/// No program directory was found.
#[derive(Debug, PartialEq, Eq)]
pub struct NoShadowenv;

/// Program directories that are not trusted.
#[derive(Debug, PartialEq, Eq)]
pub struct NotTrusted {
    pub untrusted_directories: Vec<String>,
}

/// The stored signing key is shorter than a signing key.
#[derive(Debug, PartialEq, Eq)]
pub struct InvalidKeyLength;

/// The verifying key that belongs to an Ed25519 signing key.
pub uninterp spec fn ed25519_public(secret: Seq<u8>) -> Seq<u8>;

/// The Ed25519 signature that a signing key makes over a message.
pub uninterp spec fn ed25519_signature(secret: Seq<u8>, message: Seq<u8>) -> Seq<u8>;

/// Whether the verifying key that belongs to a signing key accepts a
/// signature over a message.
pub uninterp spec fn ed25519_accepts(secret: Seq<u8>, message: Seq<u8>, signature: Seq<u8>) -> bool;

/// The bytes written as lowercase hexadecimal digits, two for each byte.
pub open spec fn hex_of_bytes(bytes: Seq<u8>) -> Seq<char>
    decreases bytes.len(),
{
    if bytes.len() == 0 {
        Seq::empty()
    } else {
        hex_of_bytes(bytes.drop_last()) + seq![
            hex_digit((bytes.last() / 16) as nat),
            hex_digit((bytes.last() % 16) as nat),
        ]
    }
}

/// The verifying key that belongs to a signing key.
///
/// Trusted: `SigningKey::from_bytes`, `SigningKey::verifying_key` and
/// `VerifyingKey::to_bytes` of the crate `ed25519_dalek`. The contract
/// names the result.
#[verifier::external_body]
fn verifying_key_bytes(secret: &[u8; 32]) -> (public: [u8; 32])
    ensures
        public@ == ed25519_public(secret@),
{
    ed25519_dalek::SigningKey::from_bytes(secret).verifying_key().to_bytes()
}

/// Signs a message.
///
/// Trusted: `SigningKey::from_bytes`, `Signer::sign` and
/// `Signature::to_bytes` of the crate `ed25519_dalek`. The contract names
/// the result, as Ed25519 signatures do not depend on chance, and claims
/// that the verifying key of the same signing key accepts the signature.
#[verifier::external_body]
fn sign_bytes(secret: &[u8; 32], message: &[u8]) -> (signature: [u8; 64])
    ensures
        signature@ == ed25519_signature(secret@, message@),
        ed25519_accepts(secret@, message@, signature@),
{
    ed25519_dalek::SigningKey::from_bytes(secret).sign(message).to_bytes()
}

/// Whether a signature over a message is accepted.
///
/// Trusted: `SigningKey::from_bytes`, `Signature::from_bytes` and
/// `Verifier::verify` of the crate `ed25519_dalek`, the last as
/// `SigningKey` has it. The contract names the result.
#[verifier::external_body]
fn verify_bytes(secret: &[u8; 32], message: &[u8], signature: &[u8; 64]) -> (accepted: bool)
    ensures
        accepted == ed25519_accepts(secret@, message@, signature@),
{
    let sig = ed25519_dalek::Signature::from_bytes(signature);
    ed25519_dalek::SigningKey::from_bytes(secret).verify(message, &sig).is_ok()
}

/// A new signing key.
///
/// Trusted: `SigningKey::generate` of the crate `ed25519_dalek` with the
/// random numbers of the operating system, `OsRng` of the crate `rand`.
/// Nothing is claimed of the key. Where the operating system has no
/// random numbers to give, the call does not come back.
#[verifier::external_body]
fn generate_secret() -> (secret: [u8; 32]) {
    ed25519_dalek::SigningKey::generate(&mut rand::rngs::OsRng).to_bytes()
}

/// Writes bytes as lowercase hexadecimal digits.
///
/// Trusted: `hex::encode`, which writes each byte as two lowercase
/// hexadecimal digits, the more significant one first.
#[verifier::external_body]
fn hex_encode(bytes: &[u8]) -> (text: String)
    ensures
        text@ == hex_of_bytes(bytes@),
{
    hex::encode(bytes)
}

/// The fingerprint of a signing key: the first four bytes of its verifying
/// key in hexadecimal digits.
pub open spec fn fingerprint_of(secret: Seq<u8>) -> Seq<char> {
    hex_of_bytes(ed25519_public(secret).take(4))
}

/// The name of the token that the signing key with the given fingerprint
/// leaves in a program directory.
pub open spec fn token_name(fingerprint: Seq<char>) -> Seq<char> {
    ".trust-"@ + fingerprint
}

/// Whether what was read at the place of a token is a token that makes the
/// program directory `root` trusted: it was there, it has the length of a
/// signature, and it is accepted as a signature over the path of `root`.
pub open spec fn token_valid(secret: Seq<u8>, root: Seq<char>, token: Option<Seq<u8>>) -> bool {
    match token {
        Some(t) => t.len() == 64 && ed25519_accepts(secret, encode_utf8(root), t),
        None => false,
    }
}

/// The bytes of an optional byte string.
pub open spec fn optional_bytes(o: Option<Vec<u8>>) -> Option<Seq<u8>> {
    match o {
        Some(b) => Some(b@),
        None => None,
    }
}

/// The fingerprint of a signing key.
pub fn fingerprint(secret: &[u8; 32]) -> (r: String)
    ensures
        r@ == fingerprint_of(secret@),
{
    let public = verifying_key_bytes(secret);
    let mut head: Vec<u8> = Vec::new();
    let mut i: usize = 0;
    while i < 4
        invariant
            i <= 4,
            head@ == public@.take(i as int),
        decreases 4 - i,
    {
        head.push(public[i]);
        i = i + 1;
        assert(public@.take(i as int) =~= public@.take(i - 1).push(public@[i - 1]));
    }
    hex_encode(head.as_slice())
}

/// The path of the token that the signing key with the given fingerprint
/// leaves in the program directory `root`.
pub fn trust_file(root: &str, fingerprint: String) -> (r: String)
    ensures
        r@ == inside(root@, token_name(fingerprint@)),
{
    let mut name: Vec<char> = Vec::new();
    push_text(&mut name, ".trust-");
    push_text(&mut name, fingerprint.as_str());
    assert(name@ =~= token_name(fingerprint@));
    let name = string_of(&name);
    path_inside(root, name.as_str())
}

/// Whether the program directory `root` is trusted, given what was read at
/// the place of its token: `None` where nothing was there.
pub fn is_dir_trusted(secret: &[u8; 32], root: &str, token: &Option<Vec<u8>>) -> (r: bool)
    ensures
        r == token_valid(secret@, root@, optional_bytes(*token)),
{
    match token {
        None => false,
        Some(bytes) => {
            if bytes.len() != 64 {
                return false;
            }
            let mut signature = [0u8; 64];
            let mut i: usize = 0;
            while i < 64
                invariant
                    i <= 64,
                    bytes@.len() == 64,
                    forall|k: int| 0 <= k < i ==> signature@[k] == bytes@[k],
                decreases 64 - i,
            {
                signature[i] = bytes[i];
                i = i + 1;
            }
            assert(signature@ =~= bytes@);
            verify_bytes(secret, root.as_bytes(), &signature)
        },
    }
}

/// A program directory and what was read at the place of its token.
#[derive(Debug, PartialEq, Eq)]
pub struct TrustProbe {
    pub root: String,
    pub token: Option<Vec<u8>>,
}

/// A program directory and what was read at the place of its token, as
/// plain values.
pub ghost struct TrustProbeView {
    pub root: Seq<char>,
    pub token: Option<Seq<u8>>,
}

impl View for TrustProbe {
    type V = TrustProbeView;

    open spec fn view(&self) -> TrustProbeView {
        TrustProbeView { root: self.root@, token: optional_bytes(self.token) }
    }
}

/// The probes of a sequence as plain values.
pub open spec fn probe_views(probes: Seq<TrustProbe>) -> Seq<TrustProbeView> {
    probes.map_values(|p: TrustProbe| p@)
}

/// The directories whose token is not valid, in their order.
pub open spec fn untrusted_among(secret: Seq<u8>, probes: Seq<TrustProbeView>) -> Seq<Seq<char>>
    decreases probes.len(),
{
    if probes.len() == 0 {
        Seq::empty()
    } else {
        let rest = untrusted_among(secret, probes.drop_last());
        let last = probes.last();
        if token_valid(secret, last.root, last.token) {
            rest
        } else {
            rest.push(last.root)
        }
    }
}

/// A chain without an untrusted directory is one whose every token is valid.
pub proof fn lemma_untrusted_among(secret: Seq<u8>, probes: Seq<TrustProbeView>)
    ensures
        untrusted_among(secret, probes).len() == 0 <==> forall|i: int|
            0 <= i < probes.len() ==> token_valid(secret, (#[trigger] probes[i]).root, probes[i].token),
    decreases probes.len(),
{
    if probes.len() > 0 {
        let front = probes.drop_last();
        lemma_untrusted_among(secret, front);
        if untrusted_among(secret, probes).len() == 0 {
            assert forall|i: int| 0 <= i < probes.len() implies token_valid(
                secret,
                (#[trigger] probes[i]).root,
                probes[i].token,
            ) by {
                if i < front.len() {
                    assert(front[i] == probes[i]);
                }
            }
        } else {
            if forall|i: int|
                0 <= i < probes.len() ==> token_valid(
                    secret,
                    (#[trigger] probes[i]).root,
                    probes[i].token,
                ) {
                assert forall|i: int| 0 <= i < front.len() implies token_valid(
                    secret,
                    (#[trigger] front[i]).root,
                    front[i].token,
                ) by {
                    assert(front[i] == probes[i]);
                }
                assert(token_valid(secret, probes.last().root, probes.last().token));
            }
        }
    }
}

/// Makes sure that every program directory of a chain is trusted: fails
/// with all the directories that are not, where there is one.
pub fn ensure_dir_tree_trusted(secret: &[u8; 32], roots: &Vec<TrustProbe>) -> (r: Result<
    (),
    NotTrusted,
>)
    ensures
        r is Ok <==> forall|i: int|
            0 <= i < roots@.len() ==> token_valid(
                secret@,
                (#[trigger] probe_views(roots@)[i]).root,
                probe_views(roots@)[i].token,
            ),
        r matches Err(e) ==> string_texts(e.untrusted_directories@) == untrusted_among(
            secret@,
            probe_views(roots@),
        ),
{
    let mut untrusted: Vec<String> = Vec::new();
    let ghost probes = probe_views(roots@);
    let mut i: usize = 0;
    proof {
        assert(probes.take(0) =~= Seq::<TrustProbeView>::empty());
        assert(string_texts(untrusted@) =~= Seq::<Seq<char>>::empty());
    }
    while i < roots.len()
        invariant
            i <= roots.len(),
            probes == probe_views(roots@),
            string_texts(untrusted@) == untrusted_among(secret@, probes.take(i as int)),
        decreases roots.len() - i,
    {
        let probe = &roots[i];
        proof {
            assert(probes.take(i + 1).drop_last() =~= probes.take(i as int));
            assert(probes.take(i + 1).last() == probe@);
        }
        if !is_dir_trusted(secret, probe.root.as_str(), &probe.token) {
            let ghost before = untrusted@;
            untrusted.push(probe.root.clone());
            proof {
                crate::text::lemma_string_texts_push(before, probe.root);
            }
        }
        i = i + 1;
    }
    proof {
        assert(probes.take(roots.len() as int) =~= probes);
        lemma_untrusted_among(secret@, probes);
    }
    if untrusted.len() == 0 {
        Ok(())
    } else {
        Err(NotTrusted { untrusted_directories: untrusted })
    }
}

/// How directories that are not trusted are reported.
pub open spec fn not_trusted_text(dirs: Seq<Seq<char>>) -> Seq<char> {
    if dirs.len() == 1 {
        "directory: '"@ + dirs[0]
            + "' contains untrusted shadowenv program: `shadowenv help trust` to learn more."@
    } else {
        "The following directories contain untrusted shadowenv programs (see `shadowenv help trust` to learn more):\n"@
            + join_with(dirs, '\n')
    }
}

impl NotTrusted {
    /// The message for the user.
    pub fn to_string(&self) -> (r: String)
        ensures
            r@ == not_trusted_text(string_texts(self.untrusted_directories@)),
    {
        let mut out: Vec<char> = Vec::new();
        if self.untrusted_directories.len() == 1 {
            push_text(&mut out, "directory: '");
            push_text(&mut out, self.untrusted_directories[0].as_str());
            push_text(
                &mut out,
                "' contains untrusted shadowenv program: `shadowenv help trust` to learn more.",
            );
            assert(out@ =~= not_trusted_text(string_texts(self.untrusted_directories@)));
        } else {
            push_text(
                &mut out,
                "The following directories contain untrusted shadowenv programs (see `shadowenv help trust` to learn more):\n",
            );
            let mut dirs: Vec<Vec<char>> = Vec::new();
            let mut i: usize = 0;
            while i < self.untrusted_directories.len()
                invariant
                    i <= self.untrusted_directories.len(),
                    dirs@.len() == i,
                    forall|k: int| 0 <= k < i ==> dirs@[k]@ == self.untrusted_directories@[k]@,
                decreases self.untrusted_directories.len() - i,
            {
                dirs.push(chars_of(self.untrusted_directories[i].as_str()));
                i = i + 1;
            }
            assert(texts(dirs@) =~= string_texts(self.untrusted_directories@));
            let joined = join(&dirs, '\n');
            push_all(&mut out, &joined);
            assert(out@ =~= not_trusted_text(string_texts(self.untrusted_directories@)));
        }
        string_of(&out)
    }
}

impl NoShadowenv {
    /// The message for the user.
    pub fn to_string(&self) -> (r: String)
        ensures
            r@ == "no shadowenv found"@,
    {
        String::from_str("no shadowenv found")
    }
}

/// The signing key to work with, and whether it is new and has to be
/// stored: the first 32 bytes of what is stored, where something is stored,
/// and otherwise a new key.
pub fn load_or_generate_signer(stored: &Option<Vec<u8>>) -> (r: Result<
    ([u8; 32], bool),
    InvalidKeyLength,
>)
    ensures
        match *stored {
            Some(bytes) => if bytes@.len() >= 32 {
                r is Ok && r->Ok_0.0@ == bytes@.take(32) && !r->Ok_0.1
            } else {
                r is Err
            },
            None => r is Ok && r->Ok_0.1,
        },
{
    match stored {
        Some(bytes) => {
            if bytes.len() < 32 {
                return Err(InvalidKeyLength);
            }
            let mut key = [0u8; 32];
            let mut i: usize = 0;
            while i < 32
                invariant
                    i <= 32,
                    bytes@.len() >= 32,
                    forall|k: int| 0 <= k < i ==> key@[k] == bytes@[k],
                decreases 32 - i,
            {
                key[i] = bytes[i];
                i = i + 1;
            }
            assert(key@ =~= bytes@.take(32));
            Ok((key, false))
        },
        None => Ok((generate_secret(), true)),
    }
}

/// What is to be written to make a program directory trusted.
#[derive(Debug, PartialEq, Eq)]
pub struct TrustToken {
    /// The path of the token.
    pub path: String,
    /// The token: a signature over the path of the program directory.
    pub signature: Vec<u8>,
}

/// The token that makes the program directory `root` trusted.
pub fn trust_dir(secret: &[u8; 32], root: &str) -> (r: TrustToken)
    ensures
        r.path@ == inside(root@, token_name(fingerprint_of(secret@))),
        r.signature@ == ed25519_signature(secret@, encode_utf8(root@)),
        token_valid(secret@, root@, Some(r.signature@)),
{
    let signature = sign_bytes(secret, root.as_bytes());
    let mut bytes: Vec<u8> = Vec::new();
    let mut i: usize = 0;
    while i < 64
        invariant
            i <= 64,
            bytes@ == signature@.take(i as int),
        decreases 64 - i,
    {
        bytes.push(signature[i]);
        i = i + 1;
        assert(signature@.take(i as int) =~= signature@.take(i - 1).push(signature@[i - 1]));
    }
    assert(signature@.take(64) =~= signature@);
    TrustToken { path: trust_file(root, fingerprint(secret)), signature: bytes }
}

/// The regular expression for a line of `.gitignore` that ignores
/// everything, or every hidden file: `*`, `/*`, `.*` or `/.*`.
pub const IGNORE_ALL: &'static str = "(?m)^/?\\.?\\*$";

/// What is added to `.gitignore` so that tokens are not checked in: every
/// hidden file is ignored, but `.gitignore` itself.
pub const IGNORE_LINES: &'static str = "/.*\n!/.gitignore\n";

/// What is to be added to the `.gitignore` of a program directory, given
/// whether it holds a line that ignores everything already: nothing where
/// it does, and otherwise the lines that ignore the tokens. `None` stands
/// for a regular expression that was refused.
pub fn gitignore_addition(has_ignore_all: Option<bool>) -> (r: Option<&'static str>)
    ensures
        match r {
            Some(lines) => has_ignore_all != Some(true) && lines@ == IGNORE_LINES@,
            None => has_ignore_all == Some(true),
        },
{
    match has_ignore_all {
        Some(true) => None,
        _ => Some(IGNORE_LINES),
    }
}

/// What is to be added to the `.gitignore` of a program directory with the
/// given contents.
pub fn write_gitignore(contents: &str) -> (r: Option<&'static str>)
    ensures
        match r {
            Some(lines) => regex_matches(IGNORE_ALL@, contents@) != Some(true) && lines@
                == IGNORE_LINES@,
            None => regex_matches(IGNORE_ALL@, contents@) == Some(true),
        },
{
    gitignore_addition(regex_is_match(IGNORE_ALL, contents))
}

/// Trusts the nearest program directory: the token to write for the first
/// directory of `roots`, which lists the chain, the nearest first.
pub fn run(secret: &[u8; 32], roots: &Vec<String>) -> (r: Result<TrustToken, NoShadowenv>)
    ensures
        match r {
            Ok(token) => roots@.len() > 0 && token.path@ == inside(
                roots@[0]@,
                token_name(fingerprint_of(secret@)),
            ) && token.signature@ == ed25519_signature(secret@, encode_utf8(roots@[0]@))
                && token_valid(secret@, roots@[0]@, Some(token.signature@)),
            Err(_) => roots@.len() == 0,
        },
{
    if roots.len() == 0 {
        return Err(NoShadowenv);
    }
    Ok(trust_dir(secret, roots[0].as_str()))
}

} // verus!
