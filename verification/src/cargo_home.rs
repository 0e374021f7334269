//! Planning how to rebuild the parts of Cargo home that the build needs:
//! crates.io archives fetched by URL and hash, and git checkouts by URL and
//! revision.

use vstd::prelude::*;

use base64::engine::general_purpose::STANDARD as BASE64_STANDARD;
use base64::Engine;

use crate::host_path::{components_of, parent_of, path_components, path_parent};
use crate::model::{Plan, PlanPackage};
use crate::nix_string::join;
use crate::string_map::StringMap;
use crate::text::{
    lemma_decimal_injective, chars_find_char, chars_of, chars_range, chars_split, chars_start_with, decimal, decimal_string,
    find_char_from, has_prefix, lemma_find_char_from_bounds, seq_contains, split_on, str_contains,
    str_equal, string_from_chars, strings_view,
};

verus! {

/// The standard base64 encoding (RFC 4648 alphabet, with padding) of `bytes`,
/// as the `base64` crate's `STANDARD` engine computes it.
pub uninterp spec fn base64_standard(bytes: Seq<u8>) -> Seq<char>;

/// Encodes bytes as standard base64 with padding (`base64`'s
/// `STANDARD.encode`).
///
/// Trusted: the result is named `base64_standard` of the bytes; the length
/// bound keeps clear of the encoder's size overflow panic.
#[verifier::external_body]
fn encode_base64(bytes: &Vec<u8>) -> (r: String)
    requires
        bytes@.len() <= usize::MAX / 4,
    ensures
        r@ == base64_standard(bytes@),
{
    BASE64_STANDARD.encode(bytes)
}

/// Whether a registry source is the crates.io index.
pub open spec fn spec_is_crates_io_registry_source(source: Seq<char>) -> bool {
    seq_contains(source, "crates.io-index"@) || seq_contains(source, "index.crates.io"@)
}

/// Whether a registry source is the crates.io index.
pub fn is_crates_io_registry_source(source: &str) -> (r: bool)
    ensures
        r == spec_is_crates_io_registry_source(source@),
{
    str_contains(source, "crates.io-index") || str_contains(source, "index.crates.io")
}

/// The download URL of a crate on crates.io.
pub open spec fn spec_crates_io_archive_url(name: Seq<char>, version: Seq<char>) -> Seq<char> {
    "https://static.crates.io/crates/"@ + name + "/"@ + name + "-"@ + version + ".crate"@
}

/// The download URL of the package's crate on crates.io.
pub fn crates_io_archive_url(package: &PlanPackage) -> (r: String)
    ensures
        r@ == spec_crates_io_archive_url(package.name@, package.version@),
{
    let mut r = "https://static.crates.io/crates/".to_string();
    r.append(package.name.as_str());
    r.append("/");
    r.append(package.name.as_str());
    r.append("-");
    r.append(package.version.as_str());
    r.append(".crate");
    r
}

/// The value of a hex digit.
pub open spec fn spec_hex_nibble(c: u8) -> Option<u8> {
    if 48 <= c <= 57 {
        Some((c - 48) as u8)
    } else if 97 <= c <= 102 {
        Some((c - 97 + 10) as u8)
    } else if 65 <= c <= 70 {
        Some((c - 65 + 10) as u8)
    } else {
        None
    }
}

/// The value of a hex digit (an ASCII byte).
pub fn hex_nibble(value: u8) -> (r: Option<u8>)
    ensures
        r == spec_hex_nibble(value),
{
    if 48 <= value && value <= 57 {
        Some(value - 48)
    } else if 97 <= value && value <= 102 {
        Some(value - 97 + 10)
    } else if 65 <= value && value <= 70 {
        Some(value - 65 + 10)
    } else {
        None
    }
}

/// The hex digit value of a character, if it is one.
pub open spec fn char_nibble(c: char) -> Option<u8> {
    if (c as u32) < 128 {
        spec_hex_nibble(c as u32 as u8)
    } else {
        None
    }
}

/// The 32 bytes that 64 hex digits spell, high nibble first.
pub open spec fn spec_sha256_hex_bytes(hex: Seq<char>) -> Option<Seq<u8>> {
    if hex.len() == 64 && forall|i: int| 0 <= i < 64 ==> (#[trigger] char_nibble(hex[i])) is Some {
        Some(
            Seq::new(
                32,
                |k: int| (char_nibble(hex[2 * k]).unwrap() * 16 + char_nibble(hex[2 * k + 1]).unwrap()) as u8,
            ),
        )
    } else {
        None
    }
}

/// The bytes of a SHA-256 digest written as 64 hex digits.
pub fn sha256_hex_bytes(hex: &str) -> (r: Option<Vec<u8>>)
    ensures
        r is Some <==> spec_sha256_hex_bytes(hex@) is Some,
        r matches Some(b) ==> spec_sha256_hex_bytes(hex@) == Some(b@),
{
    let v = chars_of(hex);
    if v.len() != 64 {
        return None;
    }
    let mut bytes: Vec<u8> = Vec::new();
    let mut k: usize = 0;
    while k < 32
        invariant
            v@ == hex@,
            v@.len() == 64,
            k <= 32,
            bytes@.len() == k,
            forall|i: int| 0 <= i < 2 * k ==> (#[trigger] char_nibble(v@[i])) is Some,
            forall|j: int|
                0 <= j < k ==> bytes@[j] == (char_nibble(v@[2 * j]).unwrap() * 16 + char_nibble(
                    v@[2 * j + 1],
                ).unwrap()) as u8,
        decreases 32 - k,
    {
        let a = v[2 * k];
        let b = v[2 * k + 1];
        let ha = if (a as u32) < 128 {
            hex_nibble(a as u32 as u8)
        } else {
            None
        };
        let hb = if (b as u32) < 128 {
            hex_nibble(b as u32 as u8)
        } else {
            None
        };
        match (ha, hb) {
            (Some(hi), Some(lo)) => {
                proof {
                    assert(hi < 16 && lo < 16);
                    assert(hi * 16 + lo < 256) by (nonlinear_arith)
                        requires
                            hi < 16,
                            lo < 16,
                    ;
                }
                bytes.push(hi * 16 + lo);
            },
            _ => {
                proof {
                    if ha is None {
                        assert(char_nibble(v@[2 * k as int]) is None);
                    } else {
                        assert(char_nibble(v@[2 * k + 1]) is None);
                    }
                }
                return None;
            },
        }
        proof {
            assert forall|i: int| 0 <= i < 2 * (k + 1) implies (#[trigger] char_nibble(v@[i])) is Some by {
                if i >= 2 * k {
                    assert(i == 2 * k || i == 2 * k + 1);
                }
            }
        }
        k = k + 1;
    }
    proof {
        let want = Seq::new(
            32,
            |j: int| (char_nibble(v@[2 * j]).unwrap() * 16 + char_nibble(v@[2 * j + 1]).unwrap()) as u8,
        );
        assert(bytes@ =~= want);
    }
    Some(bytes)
}

/// The subresource-integrity form of a SHA-256 digest: `sha256-` and the
/// base64 encoding of its bytes.
pub open spec fn spec_sha256_hex_to_sri(hex: Seq<char>) -> Option<Seq<char>> {
    match spec_sha256_hex_bytes(hex) {
        Some(bytes) => Some("sha256-"@ + base64_standard(bytes)),
        None => None,
    }
}

/// `sha256-` followed by base64-encoded digest bytes.
pub fn sri_from_base64(encoded: &str) -> (r: String)
    ensures
        r@ == "sha256-"@ + encoded@,
{
    let mut r = "sha256-".to_string();
    r.append(encoded);
    r
}

/// The subresource-integrity form (`sha256-<base64>`) of a SHA-256 digest
/// given as 64 hex digits; none for anything else.
pub fn sha256_hex_to_sri(hex: &str) -> (r: Option<String>)
    ensures
        r is Some <==> spec_sha256_hex_to_sri(hex@) is Some,
        r matches Some(s) ==> spec_sha256_hex_to_sri(hex@) == Some(s@),
{
    match sha256_hex_bytes(hex) {
        Some(bytes) => {
            let encoded = encode_base64(&bytes);
            Some(sri_from_base64(encoded.as_str()))
        },
        None => None,
    }
}

/// A git source split into its URL and revision.
#[derive(Debug)]
pub struct ParsedGitSource {
    pub url: String,
    pub rev: String,
}

/// The value of the first `rev=` part of a query.
pub open spec fn query_rev(parts: Seq<Seq<char>>) -> Option<Seq<char>>
    decreases parts.len(),
{
    if parts.len() == 0 {
        None
    } else if has_prefix(parts[0], "rev="@) {
        Some(parts[0].skip(4))
    } else {
        query_rev(parts.drop_first())
    }
}

/// `s` split at its first `c`: the part before, and the part after if `c`
/// occurs.
pub open spec fn split_once_at(s: Seq<char>, c: char) -> (Seq<char>, Option<Seq<char>>) {
    match find_char_from(s, c, 0) {
        Some(i) => (s.take(i), Some(s.skip(i + 1))),
        None => (s, None),
    }
}

/// A `git+<url>[?query][#fragment]` source: the URL, and the revision from
/// the query's first `rev=` part, else from a non-empty fragment.
pub open spec fn spec_parse_git_source(source: Seq<char>) -> Option<(Seq<char>, Seq<char>)> {
    if !has_prefix(source, "git+"@) {
        None
    } else {
        let raw = source.skip(4);
        let (before_fragment, fragment) = split_once_at(raw, '#');
        let (url, query) = split_once_at(before_fragment, '?');
        let from_query = match query {
            Some(q) => query_rev(split_on(q, '&')),
            None => None,
        };
        match from_query {
            Some(rev) => Some((url, rev)),
            None => match fragment {
                Some(f) => if f.len() > 0 {
                    Some((url, f))
                } else {
                    None
                },
                None => None,
            },
        }
    }
}

fn chars_split_once(v: &Vec<char>, c: char) -> (r: (Vec<char>, Option<Vec<char>>))
    ensures
        r.0@ == split_once_at(v@, c).0,
        r.1 is Some <==> split_once_at(v@, c).1 is Some,
        r.1 matches Some(after) ==> split_once_at(v@, c).1 == Some(after@),
{
    proof {
        lemma_find_char_from_bounds(v@, c, 0);
    }
    match chars_find_char(v, c, 0) {
        Some(i) => {
            assert(find_char_from(v@, c, 0) == Some(i as int));
            assert(i < v.len());
            let before = chars_range(v, 0, i);
            let after = chars_range(v, i + 1, v.len());
            proof {
                assert(before@ =~= v@.take(i as int));
                assert(after@ =~= v@.skip(i + 1));
            }
            (before, Some(after))
        },
        None => (chars_range(v, 0, v.len()), None),
    }
}

/// Splits a git source into its URL and revision; none without a revision.
pub fn parse_git_source(source: &str) -> (r: Option<ParsedGitSource>)
    ensures
        r is Some <==> spec_parse_git_source(source@) is Some,
        r matches Some(p) ==> spec_parse_git_source(source@) == Some((p.url@, p.rev@)),
{
    let v = chars_of(source);
    let prefix = chars_of("git+");
    proof {
        reveal_strlit("git+");
        reveal_strlit("rev=");
    }
    if !chars_start_with(&v, &prefix) {
        return None;
    }
    let raw = chars_range(&v, 4, v.len());
    assert(raw@ =~= source@.skip(4));
    let (before_fragment, fragment) = chars_split_once(&raw, '#');
    let (url, query) = chars_split_once(&before_fragment, '?');
    let mut rev: Option<Vec<char>> = None;
    match &query {
        Some(q) => {
            let parts = chars_split(q, '&', 0);
            let ghost views = parts@.map_values(|x: Vec<char>| x@);
            proof {
                assert(q@.skip(0) =~= q@);
            }
            let rev_prefix = chars_of("rev=");
            let mut i: usize = 0;
            proof {
                assert(views.skip(0) =~= views);
            }
            while i < parts.len()
                invariant_except_break
                    rev is None,
                invariant
                    i <= parts@.len(),
                    views == parts@.map_values(|x: Vec<char>| x@),
                    views == split_on(q@, '&'),
                    rev_prefix@ == "rev="@,
                    query_rev(views) == query_rev(views.skip(i as int)),
                ensures
                    rev matches Some(r) ==> query_rev(views) == Some(r@),
                    rev is None ==> query_rev(views) is None,
                decreases parts@.len() - i,
            {
                proof {
                    reveal_strlit("rev=");
                }
                let part = &parts[i];
                if chars_start_with(part, &rev_prefix) {
                    let value = chars_range(part, 4, part.len());
                    proof {
                        assert(views.skip(i as int)[0] == part@);
                        assert(value@ =~= part@.skip(4));
                    }
                    rev = Some(value);
                    break;
                }
                proof {
                    assert(views.skip(i as int)[0] == part@);
                    assert(views.skip(i as int).drop_first() =~= views.skip(i + 1));
                }
                i = i + 1;
                proof {
                    if i == parts@.len() {
                        assert(views.skip(i as int) =~= Seq::<Seq<char>>::empty());
                    }
                }
            }
        },
        None => {},
    }
    if rev.is_none() {
        match &fragment {
            Some(f) => {
                if f.len() > 0 {
                    rev = Some(chars_range(f, 0, f.len()));
                    proof {
                        assert(rev.unwrap()@ =~= f@);
                    }
                }
            },
            None => {},
        }
    }
    match rev {
        Some(r) => Some(ParsedGitSource { url: string_from_chars(&url), rev: string_from_chars(&r) }),
        None => None,
    }
}

/// Where a git checkout lives under Cargo home.
#[derive(Debug)]
pub struct GitCheckoutLayout {
    pub destination_parent_rel: String,
    pub repo_subpath: Option<String>,
}

/// The checkout layout of a manifest at `git/checkouts/<repo>/<rev>/[sub/]Cargo.toml`
/// (given its path components and its parent): the directory of the
/// manifest, and the path inside the repository when the manifest is not at
/// its root.
pub open spec fn spec_git_checkout_layout(
    components: Seq<Seq<char>>,
    parent: Option<Seq<char>>,
) -> Option<(Seq<char>, Option<Seq<char>>)> {
    if components.len() < 5 || components[0] != "git"@ || components[1] != "checkouts"@
        || components.last() != "Cargo.toml"@ {
        None
    } else {
        match parent {
            None => None,
            Some(p) => Some(
                (
                    p,
                    if components.len() > 5 {
                        Some(join(components.subrange(4, components.len() - 1), "/"@))
                    } else {
                        None
                    },
                ),
            ),
        }
    }
}

/// The checkout layout from a manifest path's components and parent.
pub fn git_checkout_layout_from(components: &Vec<String>, parent: Option<String>) -> (r: Option<
    GitCheckoutLayout,
>)
    ensures
        r is Some <==> spec_git_checkout_layout(
            strings_view(components@),
            match parent {
                Some(p) => Some(p@),
                None => None,
            },
        ) is Some,
        r matches Some(l) ==> spec_git_checkout_layout(
            strings_view(components@),
            match parent {
                Some(p) => Some(p@),
                None => None,
            },
        ) == Some(
            (
                l.destination_parent_rel@,
                match l.repo_subpath {
                    Some(s) => Some(s@),
                    None => None,
                },
            ),
        ),
{
    let n = components.len();
    if n < 5 {
        return None;
    }
    if !str_equal(components[0].as_str(), "git") || !str_equal(components[1].as_str(), "checkouts")
        || !str_equal(components[n - 1].as_str(), "Cargo.toml") {
        return None;
    }
    let destination_parent_rel = match parent {
        Some(p) => p,
        None => return None,
    };
    let repo_subpath = if n > 5 {
        let mut inner: Vec<String> = Vec::new();
        let mut i: usize = 4;
        while i < n - 1
            invariant
                4 <= i <= n - 1,
                n == components@.len(),
                strings_view(inner@) == strings_view(components@).subrange(4, i as int),
            decreases n - 1 - i,
        {
            let ghost before = strings_view(inner@);
            inner.push(components[i].clone());
            proof {
                assert(strings_view(inner@) =~= before.push(components@[i as int]@));
                assert(strings_view(components@).subrange(4, i + 1) =~= strings_view(components@).subrange(4, i as int).push(components@[i as int]@));
            }
            i = i + 1;
        }
        Some(crate::nix_string::join_strings(&inner, "/"))
    } else {
        None
    };
    Some(GitCheckoutLayout { destination_parent_rel, repo_subpath })
}

/// The checkout layout of a manifest path relative to Cargo home; none when
/// it is not inside a git checkout.
pub fn parse_git_checkout_layout(rel_manifest_path: &str) -> (r: Option<GitCheckoutLayout>)
    ensures
        r is Some <==> spec_git_checkout_layout(
            path_components(rel_manifest_path@),
            path_parent(rel_manifest_path@),
        ) is Some,
        r matches Some(l) ==> spec_git_checkout_layout(
            path_components(rel_manifest_path@),
            path_parent(rel_manifest_path@),
        ) == Some(
            (
                l.destination_parent_rel@,
                match l.repo_subpath {
                    Some(s) => Some(s@),
                    None => None,
                },
            ),
        ),
{
    let components = components_of(rel_manifest_path);
    let parent = parent_of(rel_manifest_path);
    proof {
        assert(match parent {
            Some(p) => Some(p@),
            None => None,
        } == path_parent(rel_manifest_path@));
    }
    git_checkout_layout_from(&components, parent)
}

/// A crate archive to fetch into the registry sources of Cargo home.
#[derive(Debug)]
pub struct RegistryCrateMaterialization {
    pub archive_binding: String,
    pub registry_src_parent: String,
    pub download_url: String,
    pub hash_sri: String,
}

/// A git checkout to place into Cargo home.
#[derive(Debug)]
pub struct GitCrateMaterialization {
    pub source_binding: String,
    pub source_key: String,
    pub url: String,
    pub rev: String,
    pub destination_parent_rel: String,
    pub repo_subpath: Option<String>,
}

/// How to rebuild the parts of Cargo home that the plan's packages come
/// from, and the packages whose source cannot be rebuilt.
#[derive(Debug)]
pub struct CargoHomeMaterializationPlan {
    pub registry_crates: Vec<RegistryCrateMaterialization>,
    pub git_crates: Vec<GitCrateMaterialization>,
    pub unsupported_package_keys: Vec<String>,
}

/// A registry crate entry as plain values: binding, registry source
/// directory, download URL, hash.
pub open spec fn registry_view(r: RegistryCrateMaterialization) -> (Seq<char>, Seq<char>, Seq<char>, Seq<char>) {
    (r.archive_binding@, r.registry_src_parent@, r.download_url@, r.hash_sri@)
}

/// A git crate entry as plain values.
pub open spec fn git_view(g: GitCrateMaterialization) -> (Seq<char>, Seq<char>, Seq<char>, Seq<char>, Seq<char>, Option<Seq<char>>) {
    (
        g.source_binding@,
        g.source_key@,
        g.url@,
        g.rev@,
        g.destination_parent_rel@,
        match g.repo_subpath {
            Some(s) => Some(s@),
            None => None,
        },
    )
}

/// The state of the planning: registry entries, git entries, unsupported
/// package keys, the binding of each git source, and the number of git
/// sources.
pub type CargoHomeState = (
    Seq<(Seq<char>, Seq<char>, Seq<char>, Seq<char>)>,
    Seq<(Seq<char>, Seq<char>, Seq<char>, Seq<char>, Seq<char>, Option<Seq<char>>)>,
    Seq<Seq<char>>,
    Map<Seq<char>, Seq<char>>,
    nat,
);

/// What planning does with one package: a package from Cargo home is a
/// crates.io archive (checksum known, manifest two levels below the registry
/// source directory), a git checkout (revision known, checkout layout), or
/// unsupported; other packages are skipped.
pub open spec fn cargo_home_step(st: CargoHomeState, package: PlanPackage) -> CargoHomeState {
    let (reg, git, unsupported, bindings, count) = st;
    let key = package.key@;
    let source = package.source@;
    match package.cargo_home_rel_manifest_path {
        None => st,
        Some(rel) => if has_prefix(source, "registry+"@) {
            if !spec_is_crates_io_registry_source(source) {
                (reg, git, unsupported.push(key), bindings, count)
            } else {
                match package.lock_checksum {
                    None => (reg, git, unsupported.push(key), bindings, count),
                    Some(checksum) => match spec_sha256_hex_to_sri(checksum@) {
                        None => (reg, git, unsupported.push(key), bindings, count),
                        Some(sri) => match path_parent(rel@) {
                            None => (reg, git, unsupported.push(key), bindings, count),
                            Some(crate_dir) => match path_parent(crate_dir) {
                                None => (reg, git, unsupported.push(key), bindings, count),
                                Some(src_parent) => (
                                    reg.push(
                                        (
                                            "cargoRegistryArchive"@ + decimal(reg.len()),
                                            src_parent,
                                            spec_crates_io_archive_url(package.name@, package.version@),
                                            sri,
                                        ),
                                    ),
                                    git,
                                    unsupported,
                                    bindings,
                                    count,
                                ),
                            },
                        },
                    },
                }
            }
        } else if has_prefix(source, "git+"@) {
            match spec_parse_git_source(source) {
                None => (reg, git, unsupported.push(key), bindings, count),
                Some((url, rev)) => match spec_git_checkout_layout(
                    path_components(rel@),
                    path_parent(rel@),
                ) {
                    None => (reg, git, unsupported.push(key), bindings, count),
                    Some((dest, sub)) => {
                        let known = bindings.contains_key(source);
                        let binding = if known {
                            bindings[source]
                        } else {
                            "cargoGitSource"@ + decimal(count)
                        };
                        (
                            reg,
                            git.push((binding, source, url, rev, dest, sub)),
                            unsupported,
                            if known {
                                bindings
                            } else {
                                bindings.insert(source, binding)
                            },
                            if known {
                                count
                            } else {
                                count + 1
                            },
                        )
                    },
                },
            }
        } else {
            st
        },
    }
}

/// The planning state after the packages, in order.
pub open spec fn cargo_home_plan_of(packages: Seq<PlanPackage>) -> CargoHomeState
    decreases packages.len(),
{
    if packages.len() == 0 {
        (Seq::empty(), Seq::empty(), Seq::empty(), Map::empty(), 0)
    } else {
        cargo_home_step(cargo_home_plan_of(packages.drop_last()), packages.last())
    }
}

/// How to rebuild the Cargo home sources of the plan's packages (see
/// `cargo_home_step`); git sources get one binding each, numbered in order
/// of first use.
pub fn build_cargo_home_materialization_plan(plan: &Plan) -> (r: CargoHomeMaterializationPlan)
    ensures
        r.registry_crates@.map_values(|x: RegistryCrateMaterialization| registry_view(x))
            == cargo_home_plan_of(plan.packages@).0,
        r.git_crates@.map_values(|x: GitCrateMaterialization| git_view(x)) == cargo_home_plan_of(
            plan.packages@,
        ).1,
        strings_view(r.unsupported_package_keys@) == cargo_home_plan_of(plan.packages@).2,
{
    let mut registry_crates: Vec<RegistryCrateMaterialization> = Vec::new();
    let mut git_crates: Vec<GitCrateMaterialization> = Vec::new();
    let mut bindings: StringMap<String> = StringMap::new();
    let mut binding_count: usize = 0;
    let mut unsupported: Vec<String> = Vec::new();
    let mut i: usize = 0;
    while i < plan.packages.len()
        invariant
            i <= plan.packages@.len(),
            binding_count <= i,
            ({
                let st = cargo_home_plan_of(plan.packages@.take(i as int));
                &&& registry_crates@.map_values(|x: RegistryCrateMaterialization| registry_view(x)) == st.0
                &&& git_crates@.map_values(|x: GitCrateMaterialization| git_view(x)) == st.1
                &&& strings_view(unsupported@) == st.2
                &&& bindings@.dom() == st.3.dom()
                &&& forall|k: Seq<char>| #[trigger] bindings@.contains_key(k) ==> bindings@[k]@ == st.3[k]
                &&& binding_count == st.4
            }),
        decreases plan.packages@.len() - i,
    {
        let package = &plan.packages[i];
        let ghost st = cargo_home_plan_of(plan.packages@.take(i as int));
        proof {
            assert(plan.packages@.take(i + 1).drop_last() =~= plan.packages@.take(i as int));
            assert(plan.packages@.take(i + 1).last() == plan.packages@[i as int]);
            reveal_strlit("registry+");
            reveal_strlit("git+");
        }
        let ghost reg0 = registry_crates@.map_values(|x: RegistryCrateMaterialization| registry_view(x));
        let ghost git0 = git_crates@.map_values(|x: GitCrateMaterialization| git_view(x));
        let ghost uns0 = strings_view(unsupported@);
        match &package.cargo_home_rel_manifest_path {
            None => {},
            Some(rel) => {
                let source = chars_of(package.source.as_str());
                if chars_start_with(&source, &chars_of("registry+")) {
                    let mut reason_unsupported = true;
                    if is_crates_io_registry_source(package.source.as_str()) {
                        match &package.lock_checksum {
                            None => {},
                            Some(checksum) => match sha256_hex_to_sri(checksum.as_str()) {
                                None => {},
                                Some(hash_sri) => match parent_of(rel.as_str()) {
                                    None => {},
                                    Some(crate_dir) => match parent_of(crate_dir.as_str()) {
                                        None => {},
                                        Some(registry_src_parent) => {
                                            let mut binding = "cargoRegistryArchive".to_string();
                                            binding.append(decimal_string(registry_crates.len()).as_str());
                                            registry_crates.push(
                                                RegistryCrateMaterialization {
                                                    archive_binding: binding,
                                                    registry_src_parent,
                                                    download_url: crates_io_archive_url(package),
                                                    hash_sri,
                                                },
                                            );
                                            reason_unsupported = false;
                                            proof {
                                                assert(registry_crates@.map_values(
                                                    |x: RegistryCrateMaterialization| registry_view(x),
                                                ) =~= cargo_home_step(st, plan.packages@[i as int]).0);
                                            }
                                        },
                                    },
                                },
                            },
                        }
                    }
                    if reason_unsupported {
                        unsupported.push(package.key.clone());
                        proof {
                            assert(strings_view(unsupported@) =~= uns0.push(package.key@));
                        }
                    }
                } else if chars_start_with(&source, &chars_of("git+")) {
                    let mut reason_unsupported = true;
                    match parse_git_source(package.source.as_str()) {
                        None => {},
                        Some(parsed) => match parse_git_checkout_layout(rel.as_str()) {
                            None => {},
                            Some(layout) => {
                                let ghost old_bindings = bindings@;
                                let binding = match bindings.get(package.source.as_str()) {
                                    Some(b) => b.clone(),
                                    None => {
                                        let mut b = "cargoGitSource".to_string();
                                        b.append(decimal_string(binding_count).as_str());
                                        bindings.insert(package.source.clone(), b.clone());
                                        binding_count = binding_count + 1;
                                        b
                                    },
                                };
                                git_crates.push(
                                    GitCrateMaterialization {
                                        source_binding: binding,
                                        source_key: package.source.clone(),
                                        url: parsed.url,
                                        rev: parsed.rev,
                                        destination_parent_rel: layout.destination_parent_rel,
                                        repo_subpath: layout.repo_subpath,
                                    },
                                );
                                reason_unsupported = false;
                                proof {
                                    let next = cargo_home_step(st, plan.packages@[i as int]);
                                    assert(git_crates@.map_values(|x: GitCrateMaterialization| git_view(x))
                                        =~= next.1);
                                    assert(bindings@.dom() =~= next.3.dom());
                                }
                            },
                        },
                    }
                    if reason_unsupported {
                        unsupported.push(package.key.clone());
                        proof {
                            assert(strings_view(unsupported@) =~= uns0.push(package.key@));
                        }
                    }
                }
            },
        }
        i = i + 1;
    }
    proof {
        assert(plan.packages@.take(i as int) =~= plan.packages@);
    }
    CargoHomeMaterializationPlan {
        registry_crates,
        git_crates,
        unsupported_package_keys: unsupported,
    }
}

/// The binding of each git source is recorded, distinct sources have
/// distinct bindings, and every binding is numbered below the count.
spec fn bindings_consistent(st: CargoHomeState) -> bool {
    let (reg, git, unsupported, bindings, count) = st;
    &&& forall|i: int|
        0 <= i < git.len() ==> bindings.contains_key(#[trigger] git[i].1) && bindings[git[i].1]
            == git[i].0
    &&& forall|s1: Seq<char>, s2: Seq<char>|
        #[trigger] bindings.contains_key(s1) && #[trigger] bindings.contains_key(s2) && s1 != s2
            ==> bindings[s1] != bindings[s2]
    &&& forall|s1: Seq<char>|
        #[trigger] bindings.contains_key(s1) ==> exists|m: nat|
            m < count && bindings[s1] == "cargoGitSource"@ + #[trigger] decimal(m)
    &&& forall|i: int|
        0 <= i < reg.len() ==> (#[trigger] reg[i]).0 == "cargoRegistryArchive"@ + decimal(i as nat)
}

proof fn lemma_bindings_consistent(packages: Seq<PlanPackage>)
    ensures
        bindings_consistent(cargo_home_plan_of(packages)),
    decreases packages.len(),
{
    if packages.len() > 0 {
        let prev = cargo_home_plan_of(packages.drop_last());
        lemma_bindings_consistent(packages.drop_last());
        let next = cargo_home_plan_of(packages);
        let p = packages.last();
        assert(next == cargo_home_step(prev, p));
        let (reg, git, unsupported, bindings, count) = prev;
        let (reg2, git2, unsupported2, bindings2, count2) = next;
        assert forall|i: int| 0 <= i < reg2.len() implies (#[trigger] reg2[i]).0 == "cargoRegistryArchive"@
            + decimal(i as nat) by {
            if i < reg.len() {
                assert(reg2[i] == reg[i]);
            }
        }
        if git2.len() > git.len() {
            let source = p.source@;
            let known = bindings.contains_key(source);
            if !known {
                let fresh = "cargoGitSource"@ + decimal(count);
                assert forall|s1: Seq<char>, s2: Seq<char>|
                    #[trigger] bindings2.contains_key(s1) && #[trigger] bindings2.contains_key(s2) && s1 != s2
                        implies bindings2[s1] != bindings2[s2] by {
                    if s1 == source && s2 != source {
                        assert(bindings.contains_key(s2));
                        let m = choose|m: nat| m < count && bindings[s2] == "cargoGitSource"@ + #[trigger] decimal(m);
                        if bindings2[s1] == bindings2[s2] {
                            let pre = "cargoGitSource"@;
                            assert((pre + decimal(count)).skip(pre.len() as int) =~= decimal(count));
                            assert((pre + decimal(m)).skip(pre.len() as int) =~= decimal(m));
                            lemma_decimal_injective(count, m);
                        }
                    } else if s2 == source && s1 != source {
                        assert(bindings.contains_key(s1));
                        let m = choose|m: nat| m < count && bindings[s1] == "cargoGitSource"@ + #[trigger] decimal(m);
                        if bindings2[s1] == bindings2[s2] {
                            let pre = "cargoGitSource"@;
                            assert((pre + decimal(count)).skip(pre.len() as int) =~= decimal(count));
                            assert((pre + decimal(m)).skip(pre.len() as int) =~= decimal(m));
                            lemma_decimal_injective(count, m);
                        }
                    } else {
                        assert(bindings.contains_key(s1) && bindings.contains_key(s2));
                    }
                }
                assert forall|s1: Seq<char>| #[trigger] bindings2.contains_key(s1) implies exists|m: nat|
                    m < count2 && bindings2[s1] == "cargoGitSource"@ + #[trigger] decimal(m) by {
                    if s1 == source {
                        assert(bindings2[s1] == "cargoGitSource"@ + decimal(count));
                    } else {
                        let m = choose|m: nat| m < count && bindings[s1] == "cargoGitSource"@ + #[trigger] decimal(m);
                        assert(bindings2[s1] == "cargoGitSource"@ + decimal(m));
                    }
                }
            }
            assert forall|i: int| 0 <= i < git2.len() implies bindings2.contains_key(#[trigger] git2[i].1)
                && bindings2[git2[i].1] == git2[i].0 by {
                if i < git.len() {
                    assert(git2[i] == git[i]);
                }
            }
        } else {
            assert(git2 == git);
        }
    }
}

/// Each git source gets one binding, and different sources get different
/// bindings; registry archives are bound as `cargoRegistryArchive<i>` in
/// order.
pub proof fn lemma_cargo_home_bindings(packages: Seq<PlanPackage>)
    ensures
        forall|i: int, j: int|
            0 <= i < cargo_home_plan_of(packages).1.len() && 0 <= j < cargo_home_plan_of(packages).1.len()
                ==> ((#[trigger] cargo_home_plan_of(packages).1[i]).0 == (
            #[trigger] cargo_home_plan_of(packages).1[j]).0 <==> cargo_home_plan_of(packages).1[i].1
                == cargo_home_plan_of(packages).1[j].1),
        forall|i: int|
            0 <= i < cargo_home_plan_of(packages).0.len() ==> (
            #[trigger] cargo_home_plan_of(packages).0[i]).0 == "cargoRegistryArchive"@ + decimal(
                i as nat,
            ),
{
    lemma_bindings_consistent(packages);
    let st = cargo_home_plan_of(packages);
    let git = st.1;
    let bindings = st.3;
    assert forall|i: int, j: int| 0 <= i < git.len() && 0 <= j < git.len() implies ((#[trigger] git[i]).0
        == (#[trigger] git[j]).0 <==> git[i].1 == git[j].1) by {
        assert(bindings.contains_key(git[i].1) && bindings.contains_key(git[j].1));
    }
}

} // verus!
