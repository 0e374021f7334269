//! Nix store paths: `<store dir>/<32-character hash>-<name>`.

use vstd::prelude::*;
use vstd::utf8::encode_utf8;

use crate::text::{chars_of, chars_range, file_name_of, path_file_name, string_from_chars, utf8_len_exceeds};

verus! {

/// The file name of a store path (its last path component).
pub open spec fn store_file_name(p: Seq<char>) -> Seq<char> {
    path_file_name(p).unwrap()
}

/// The UTF-8 bytes of the file name of a store path.
pub open spec fn store_file_bytes(p: Seq<char>) -> Seq<u8> {
    encode_utf8(store_file_name(p))
}

/// A path is accepted as a store path when it has a file name whose UTF-8
/// encoding is longer than 33 bytes and whose 33rd character is `-`.
pub open spec fn valid_store_path(p: Seq<char>) -> bool {
    &&& path_file_name(p) is Some
    &&& store_file_bytes(p).len() > 33
    &&& store_file_name(p).len() > 32
    &&& store_file_name(p)[32] == '-'
}

/// The hash part: the file name's first 32 characters.
pub open spec fn store_hash_part(p: Seq<char>) -> Seq<char> {
    store_file_name(p).take(32)
}

/// The name part: the file name after its first 33 characters (hash and
/// dash).
pub open spec fn store_name(p: Seq<char>) -> Seq<char> {
    store_file_name(p).skip(33)
}

/// The hash part, a dash and the name make up the file name of a store
/// path.
pub proof fn lemma_hash_dash_name(p: Seq<char>)
    requires
        valid_store_path(p),
    ensures
        store_hash_part(p).len() == 32,
        store_hash_part(p) + "-"@ + store_name(p) == store_file_name(p),
{
    reveal_strlit("-");
    let f = store_file_name(p);
    assert(store_hash_part(p) + "-"@ + store_name(p) =~= f);
}

/// Why a path is not a store path.
#[derive(Debug)]
pub enum StorePathError {
    /// The path has no file name.
    MissingFilename,
    /// The file name does not start with a 32-character hash and a dash.
    InvalidFormat(String),
}

/// `r` is what checking `path` as a store path gives: the store path when it
/// is valid, otherwise the reason it is not.
pub open spec fn is_store_path_result(r: Result<StorePath, StorePathError>, path: Seq<char>) -> bool {
    &&& (r is Ok <==> valid_store_path(path))
    &&& (r matches Ok(p) ==> p@ == path)
    &&& (r matches Err(StorePathError::MissingFilename) <==> path_file_name(path) is None)
    &&& (r matches Err(StorePathError::InvalidFormat(f)) ==> path_file_name(path) == Some(f@))
}

/// A Nix store path, validated at construction.
#[derive(Debug)]
pub struct StorePath {
    path: String,
}

impl View for StorePath {
    type V = Seq<char>;

    closed spec fn view(&self) -> Seq<char> {
        self.path@
    }
}

impl StorePath {
    #[verifier::type_invariant]
    spec fn well_formed(self) -> bool {
        valid_store_path(self.path@)
    }

    /// Validates `path` as a store path.
    pub fn new(path: &str) -> (r: Result<StorePath, StorePathError>)
        ensures
            r is Ok <==> valid_store_path(path@),
            r matches Ok(p) ==> p@ == path@,
            r matches Err(StorePathError::MissingFilename) <==> path_file_name(path@) is None,
            r matches Err(StorePathError::InvalidFormat(f)) ==> path_file_name(path@) == Some(f@),
    {
        let chars = chars_of(path);
        let file_name = match file_name_of(&chars) {
            Some(f) => f,
            None => return Err(StorePathError::MissingFilename),
        };
        let file_string = string_from_chars(&file_name);
        if !utf8_len_exceeds(&file_name, 33) || file_name.len() <= 32 || file_name[32] != '-' {
            return Err(StorePathError::InvalidFormat(file_string));
        }
        Ok(StorePath { path: String::from_str(path) })
    }

    /// The file name of this store path, as a string.
    pub(crate) fn file_name_string(&self) -> (r: String)
        ensures
            r@ == store_file_name(self@),
            valid_store_path(self@),
    {
        proof {
            use_type_invariant(self);
        }
        let chars = chars_of(self.path.as_str());
        match file_name_of(&chars) {
            Some(f) => string_from_chars(&f),
            None => String::new(),
        }
    }

    /// The hash part of the store path (the first 32 characters of its file
    /// name). The hash part, a dash and the name make up the file name.
    pub fn hash_part(&self) -> (r: String)
        ensures
            r@ == store_hash_part(self@),
            r@.len() == 32,
            r@ + "-"@ + store_name(self@) == store_file_name(self@),
    {
        let file_name = self.file_name_string();
        let chars = chars_of(file_name.as_str());
        proof {
            lemma_hash_dash_name(self@);
        }
        string_from_chars(&chars_range(&chars, 0, 32))
    }

    /// The name part of the store path (its file name after the hash and dash).
    pub fn name(&self) -> (r: String)
        ensures
            r@ == store_name(self@),
    {
        let file_name = self.file_name_string();
        let chars = chars_of(file_name.as_str());
        string_from_chars(&chars_range(&chars, 33, chars.len()))
    }

    /// The full path.
    pub fn path(&self) -> (r: &String)
        ensures
            r@ == self@,
    {
        &self.path
    }

    /// The full path as a string.
    pub fn to_string(&self) -> (r: String)
        ensures
            r@ == self@,
    {
        self.path.clone()
    }

    /// Whether this is a derivation path (its name ends with `.drv`).
    pub fn is_derivation(&self) -> (r: bool)
        ensures
            r == crate::text::has_suffix(store_name(self@), ".drv"@),
    {
        let name = self.name();
        let name_chars = chars_of(name.as_str());
        let suffix = chars_of(".drv");
        crate::text::chars_end_with(&name_chars, &suffix)
    }
}

impl PartialEq for StorePath {
    fn eq(&self, other: &Self) -> (r: bool) {
        self.path == other.path
    }
}

impl vstd::std_specs::cmp::PartialEqSpecImpl for StorePath {
    open spec fn obeys_eq_spec() -> bool {
        true
    }

    open spec fn eq_spec(&self, other: &StorePath) -> bool {
        self@ == other@
    }
}

impl Eq for StorePath {
}

impl Clone for StorePath {
    fn clone(&self) -> (r: Self)
        ensures
            r == *self,
    {
        proof {
            use_type_invariant(self);
        }
        StorePath { path: self.path.clone() }
    }
}

} // verus!
