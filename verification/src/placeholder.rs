//! Placeholders for store paths that are not known before a build.

use sha2::{Digest, Sha256};
use vstd::prelude::*;
use vstd::utf8::encode_utf8;

use crate::store_path::{store_hash_part, store_name, StorePath};
use crate::text::{chars_end_with, chars_of, chars_range, has_suffix, str_equal, string_from_chars};

verus! {

/// The SHA-256 digest of `data` (as computed by the `sha2` crate).
pub uninterp spec fn sha256(data: Seq<u8>) -> Seq<u8>;

/// The Nix flavour of base32 of `bytes` (as computed by `nix_base32::to_nix_base32`).
pub uninterp spec fn nix_base32(bytes: Seq<u8>) -> Seq<char>;

/// Trusted: `sha2::Sha256` fed with `data`, then finalized. The result is
/// named `sha256(data)`; SHA-256 digests are 32 bytes long.
#[verifier::external_body]
fn sha256_digest(data: &[u8]) -> (r: Vec<u8>)
    ensures
        r@ == sha256(data@),
        r@.len() == 32,
{
    let mut hasher = Sha256::new();
    hasher.update(data);
    hasher.finalize().to_vec()
}

/// Trusted: `nix_base32::to_nix_base32(bytes)`, named `nix_base32(bytes)`.
/// That function computes `bytes.len() * 8 - 1`, so it needs a non-empty
/// input whose bit count fits in `usize`.
#[verifier::external_body]
fn to_nix_base32(bytes: &[u8]) -> (r: String)
    requires
        bytes@.len() > 0,
        bytes@.len() * 8 <= usize::MAX,
    ensures
        r@ == nix_base32(bytes@),
{
    nix_base32::to_nix_base32(bytes)
}

/// The bytes that `nix_base32::from_nix_base32` decodes from `text`, if any.
pub uninterp spec fn nix_base32_decoded(text: Seq<char>) -> Option<Seq<u8>>;

/// A digit of Nix's base32 alphabet (`0-9` and `a-z` without `e`, `o`, `t`,
/// `u`).
pub open spec fn is_nix_base32_digit(c: char) -> bool {
    ('0' <= c && c <= '9') || ('a' <= c && c <= 'z' && c != 'e' && c != 'o' && c != 't' && c != 'u')
}

/// Some character of `text` is not a Nix base32 digit.
pub open spec fn has_non_digit(text: Seq<char>) -> bool {
    exists|i: int| 0 <= i < text.len() && !is_nix_base32_digit(#[trigger] text[i])
}

/// Trusted: `nix_base32::from_nix_base32(text)`, named
/// `nix_base32_decoded(text)`. For an input of `n` bytes the function fills a
/// vector of `5 * n / 8` bytes, which is what it returns when it decodes. It
/// looks each byte up in the alphabet before it writes, from the last byte to
/// the first, and returns `None` at the first byte that is not a digit (the
/// bytes of a non-ASCII character never are). It can write past its vector
/// (and panic) only for the first byte, and only when `5 * n` modulo 8 is 5
/// or more; `5 * n` must fit in `usize`. The requirements leave out the
/// inputs of such lengths whose characters are all digits (on some of them
/// the function returns `None` instead of panicking; which ones is left
/// unsaid).
#[verifier::external_body]
fn from_nix_base32(text: &str) -> (r: Option<Vec<u8>>)
    requires
        encode_utf8(text@).len() * 5 <= usize::MAX,
        (encode_utf8(text@).len() * 5) % 8 < 5 || has_non_digit(text@),
    ensures
        r is Some <==> nix_base32_decoded(text@) is Some,
        has_non_digit(text@) ==> r is None,
        r matches Some(h) ==> nix_base32_decoded(text@) == Some(h@) && h@.len() == encode_utf8(text@).len()
            * 5 / 8,
{
    nix_base32::from_nix_base32(text)
}

/// Nix's name for output `output_name` of a derivation named `drv_name`.
pub open spec fn spec_output_path_name(drv_name: Seq<char>, output_name: Seq<char>) -> Seq<char> {
    if output_name == "out"@ {
        drv_name
    } else {
        drv_name + "-"@ + output_name
    }
}

/// A derivation's name without its `.drv` extension.
pub open spec fn strip_drv_suffix(name: Seq<char>) -> Seq<char> {
    if has_suffix(name, ".drv"@) {
        name.subrange(0, name.len() - 4)
    } else {
        name
    }
}

/// A derivation named `<n>.drv` and one named `<n>` (not ending in `.drv`)
/// with the same hash part give the same placeholder text for every output:
/// exactly one trailing `.drv` is dropped from the derivation name.
pub proof fn lemma_ca_output_drv_suffix(a: Seq<char>, b: Seq<char>, output_name: Seq<char>)
    requires
        store_hash_part(a) == store_hash_part(b),
        store_name(a) == store_name(b) + ".drv"@,
        !has_suffix(store_name(b), ".drv"@),
    ensures
        ca_output_text(a, output_name) == ca_output_text(b, output_name),
{
    reveal_strlit(".drv");
    let n = store_name(b);
    assert(has_suffix(store_name(a), ".drv"@)) by {
        assert(store_name(a).subrange(store_name(a).len() - 4, store_name(a).len() as int) =~= ".drv"@);
    }
    assert(strip_drv_suffix(store_name(a)) =~= n);
}

/// For `<dir>/<h>-<n>.drv` and `<dir>/<h>-<n>`, with a 32-character hash
/// part `h` and a name `n` that hold no `/` and `n` not ending in `.drv`, the
/// placeholder text of every output is the same:
/// `nix-upstream-output:<h>:<output path name of n>`.
pub proof fn lemma_ca_output_formatted(
    dir: Seq<char>,
    h: Seq<char>,
    n: Seq<char>,
    output_name: Seq<char>,
)
    requires
        h.len() == 32,
        forall|i: int| 0 <= i < h.len() ==> h[i] != '/',
        forall|i: int| 0 <= i < n.len() ==> n[i] != '/',
        !has_suffix(n, ".drv"@),
    ensures
        ca_output_text(dir + "/"@ + h + "-"@ + n + ".drv"@, output_name) == ca_output_text(
            dir + "/"@ + h + "-"@ + n,
            output_name,
        ),
        ca_output_text(dir + "/"@ + h + "-"@ + n, output_name) == "nix-upstream-output:"@ + h + ":"@
            + spec_output_path_name(n, output_name),
{
    reveal_strlit("/");
    reveal_strlit("-");
    reveal_strlit(".drv");
    let fa = h + "-"@ + n + ".drv"@;
    let fb = h + "-"@ + n;
    let a = dir + "/"@ + h + "-"@ + n + ".drv"@;
    let b = dir + "/"@ + h + "-"@ + n;
    assert(a =~= dir + seq!['/'] + fa);
    assert(b =~= dir + seq!['/'] + fb);
    assert forall|i: int| 0 <= i < fa.len() implies fa[i] != '/' by {
        if i < 32 {
            assert(fa[i] == h[i]);
        } else if i == 32 {
        } else if i < 33 + n.len() {
            assert(fa[i] == n[i - 33]);
        }
    }
    assert forall|i: int| 0 <= i < fb.len() implies fb[i] != '/' by {
        if i < 32 {
            assert(fb[i] == h[i]);
        } else if i > 32 {
            assert(fb[i] == n[i - 33]);
        }
    }
    crate::text::lemma_file_name_after_slash(dir, fa);
    crate::text::lemma_file_name_after_slash(dir, fb);
    assert(store_hash_part(a) =~= h);
    assert(store_hash_part(b) =~= h);
    assert(store_name(b) =~= n);
    assert(store_name(a) =~= n + ".drv"@);
    lemma_ca_output_drv_suffix(a, b, output_name);
    assert(strip_drv_suffix(n) == n);
}

/// The text hashed for the placeholder of a standard output.
pub open spec fn standard_output_text(output_name: Seq<char>) -> Seq<char> {
    "nix-output:"@ + output_name
}

/// The text hashed for the placeholder of an output of the derivation at `drv_path`.
pub open spec fn ca_output_text(drv_path: Seq<char>, output_name: Seq<char>) -> Seq<char> {
    "nix-upstream-output:"@ + store_hash_part(drv_path) + ":"@ + spec_output_path_name(
        strip_drv_suffix(store_name(drv_path)),
        output_name,
    )
}

/// Folds `hash` into `n` bytes: byte `j` is the XOR of the bytes of `hash`
/// whose index is `j` modulo `n`.
pub open spec fn spec_compress_hash(hash: Seq<u8>, n: nat) -> Seq<u8>
    decreases hash.len(),
{
    if hash.len() == 0 {
        Seq::new(n, |j: int| 0u8)
    } else {
        let prev = spec_compress_hash(hash.drop_last(), n);
        let k = (hash.len() - 1) % (n as int);
        prev.update(k, prev[k] ^ hash.last())
    }
}

proof fn lemma_compress_len(hash: Seq<u8>, n: nat)
    requires
        n > 0,
    ensures
        spec_compress_hash(hash, n).len() == n,
    decreases hash.len(),
{
    if hash.len() > 0 {
        lemma_compress_len(hash.drop_last(), n);
    }
}

/// The text hashed for the placeholder of output `output_name` of the
/// derivation whose placeholder hash is `inner`.
pub open spec fn dynamic_output_text(inner: Seq<u8>, output_name: Seq<char>) -> Seq<char> {
    "nix-computed-output:"@ + nix_base32(spec_compress_hash(inner, 20)) + ":"@ + output_name
}

/// A text that is not Nix base32.
#[derive(Debug)]
pub struct InvalidPlaceholder {
    pub text: String,
}

/// A placeholder for a Nix store path, identified by a SHA-256 hash.
#[derive(Debug)]
pub struct Placeholder {
    hash: Vec<u8>,
}

impl View for Placeholder {
    type V = Seq<u8>;

    closed spec fn view(&self) -> Seq<u8> {
        self.hash@
    }
}

/// Format an output path name according to Nix conventions: the derivation
/// name for the `out` output, `<drv_name>-<output_name>` otherwise.
pub fn output_path_name(drv_name: &str, output_name: &str) -> (r: String)
    ensures
        r@ == spec_output_path_name(drv_name@, output_name@),
{
    if str_equal(output_name, "out") {
        String::from_str(drv_name)
    } else {
        let mut r = String::from_str(drv_name);
        r.append("-");
        r.append(output_name);
        r
    }
}

/// Compress a hash to `new_size` bytes by XORing bytes (an empty hash stays empty).
pub fn compress_hash(hash: &Vec<u8>, new_size: usize) -> (r: Vec<u8>)
    requires
        hash@.len() == 0 || new_size > 0,
    ensures
        hash@.len() == 0 ==> r@.len() == 0,
        hash@.len() > 0 ==> r@ == spec_compress_hash(hash@, new_size as nat),
{
    if hash.len() == 0 {
        return Vec::new();
    }
    let mut result: Vec<u8> = vec![0u8; new_size];
    let mut i: usize = 0;
    assert(hash@.take(0) =~= Seq::<u8>::empty());
    assert(result@ =~= spec_compress_hash(hash@.take(0), new_size as nat));
    while i < hash.len()
        invariant
            new_size > 0,
            i <= hash@.len(),
            result@ == spec_compress_hash(hash@.take(i as int), new_size as nat),
        decreases hash@.len() - i,
    {
        proof {
            lemma_compress_len(hash@.take(i as int), new_size as nat);
            assert(hash@.take(i + 1).drop_last() =~= hash@.take(i as int));
        }
        let k = i % new_size;
        let b = result[k] ^ hash[i];
        result.set(k, b);
        i = i + 1;
    }
    assert(hash@.take(i as int) =~= hash@);
    result
}

impl Placeholder {
    #[verifier::type_invariant]
    spec fn well_formed(self) -> bool {
        self.hash@.len() * 8 <= usize::MAX
    }

    fn from_text(clear_text: &String) -> (r: Placeholder)
        ensures
            r@ == sha256(encode_utf8(clear_text@)),
            r@.len() == 32,
    {
        let hash = sha256_digest(clear_text.as_str().as_bytes());
        Placeholder { hash }
    }

    /// The placeholder whose hash is the Nix base32 text `text`; an error
    /// when a character is not a base32 digit (all-digit texts of `n` bytes
    /// need `5 * n` modulo 8 below 5).
    pub fn try_from(text: String) -> (r: Result<Placeholder, InvalidPlaceholder>)
        requires
            encode_utf8(text@).len() * 5 <= usize::MAX,
            (encode_utf8(text@).len() * 5) % 8 < 5 || has_non_digit(text@),
        ensures
            r is Ok <==> nix_base32_decoded(text@) is Some,
            has_non_digit(text@) ==> r is Err,
            r matches Ok(p) ==> nix_base32_decoded(text@) == Some(p@),
            r matches Err(e) ==> e.text == text,
    {
        match from_nix_base32(text.as_str()) {
            Some(hash) => {
                assert(hash@.len() * 8 <= usize::MAX) by {
                    let n = encode_utf8(text@).len();
                    assert((n * 5 / 8) * 8 <= n * 5);
                }
                Ok(Placeholder { hash })
            },
            None => Err(InvalidPlaceholder { text }),
        }
    }

    /// Render the placeholder: `/` followed by the Nix base32 of its hash
    /// (which must not be empty).
    pub fn render(&self) -> (r: String)
        requires
            self@.len() > 0,
        ensures
            r@ == "/"@ + nix_base32(self@),
    {
        proof {
            use_type_invariant(self);
        }
        let encoded = to_nix_base32(self.hash.as_slice());
        let mut r = String::from_str("/");
        r.append(encoded.as_str());
        r
    }

    /// The placeholder for a standard output: the hash of `nix-output:<output_name>`.
    pub fn standard_output(output_name: &str) -> (r: Self)
        ensures
            r@ == sha256(encode_utf8(standard_output_text(output_name@))),
            r@.len() == 32,
    {
        let mut clear_text = String::from_str("nix-output:");
        clear_text.append(output_name);
        Self::from_text(&clear_text)
    }

    /// The placeholder for an output of a content-addressed derivation.
    pub fn ca_output(drv_path: &StorePath, output_name: &str) -> (r: Self)
        ensures
            r@ == sha256(encode_utf8(ca_output_text(drv_path@, output_name@))),
            r@.len() == 32,
    {
        let drv_name = drv_path.name();
        let name_chars = chars_of(drv_name.as_str());
        let suffix = chars_of(".drv");
        proof {
            reveal_strlit(".drv");
        }
        let stem = if chars_end_with(&name_chars, &suffix) {
            string_from_chars(&chars_range(&name_chars, 0, name_chars.len() - 4))
        } else {
            drv_name
        };
        let path_name = output_path_name(stem.as_str(), output_name);
        let hash_part = drv_path.hash_part();
        let mut clear_text = String::from_str("nix-upstream-output:");
        clear_text.append(hash_part.as_str());
        clear_text.append(":");
        clear_text.append(path_name.as_str());
        Self::from_text(&clear_text)
    }

    /// The placeholder for output `output_name` of the derivation produced by
    /// the derivation whose placeholder is `placeholder` (which must not be
    /// empty).
    pub fn dynamic_output(placeholder: &Placeholder, output_name: &str) -> (r: Self)
        requires
            placeholder@.len() > 0,
        ensures
            r@ == sha256(encode_utf8(dynamic_output_text(placeholder@, output_name@))),
            r@.len() == 32,
    {
        proof {
            use_type_invariant(placeholder);
            lemma_compress_len(placeholder@, 20);
        }
        let compressed = compress_hash(&placeholder.hash, 20);
        let compressed_str = to_nix_base32(compressed.as_slice());
        let mut clear_text = String::from_str("nix-computed-output:");
        clear_text.append(compressed_str.as_str());
        clear_text.append(":");
        clear_text.append(output_name);
        Self::from_text(&clear_text)
    }
}

impl Clone for Placeholder {
    fn clone(&self) -> (r: Self)
        ensures
            r@ == self@,
    {
        proof {
            use_type_invariant(self);
        }
        Placeholder { hash: self.hash.clone() }
    }
}

} // verus!
