//! The fingerprint store and the staleness oracle.

use sha2::{Digest, Sha256};
use vstd::prelude::*;
use vstd::hash_map::StringHashMap;
use crate::graph::Node;
use crate::text::{
    append_str, chars_of, ends_with, lemma_push_new_key, slice_of, str_eq, str_views, string_of,
};

verus! {

/// What the store keeps of one source file: the fingerprint of its bytes
/// and the path of its compiled artifact.
#[derive(Debug)]
pub struct CacheEntry {
    pub hash: String,
    pub class_path: String,
}

/// The fingerprint store: a mapping from leaf file name to entry. `names`
/// lists the keys, each once, in the order in which they were first entered.
pub struct Cache {
    pub names: Vec<String>,
    pub entries: StringHashMap<CacheEntry>,
}

/// The store as a mapping from name to (fingerprint, artifact path).
pub open spec fn entries_view(m: Map<Seq<char>, CacheEntry>) -> Map<Seq<char>, (Seq<char>, Seq<char>)> {
    Map::new(|k: Seq<char>| m.contains_key(k), |k: Seq<char>| (m[k].hash@, m[k].class_path@))
}

impl View for Cache {
    type V = Map<Seq<char>, (Seq<char>, Seq<char>)>;

    open spec fn view(&self) -> Self::V {
        entries_view(self.entries@)
    }
}

impl Cache {
    /// `names` lists the keys of `entries`, each once.
    pub open spec fn wf(&self) -> bool {
        &&& str_views(self.names@).no_duplicates()
        &&& str_views(self.names@).to_set() == self.entries@.dom()
    }

    /// The empty store.
    pub fn new() -> (c: Cache)
        ensures
            c.wf(),
            c@ == Map::<Seq<char>, (Seq<char>, Seq<char>)>::empty(),
            c.names@.len() == 0,
    {
        let c = Cache { names: Vec::new(), entries: StringHashMap::new() };
        assert(str_views(c.names@).to_set() =~= c.entries@.dom());
        assert(c@ =~= Map::<Seq<char>, (Seq<char>, Seq<char>)>::empty());
        c
    }

    /// Enters `entry` under `name`, replacing the entry that was there.
    pub fn insert(&mut self, name: String, entry: CacheEntry)
        requires
            old(self).wf(),
        ensures
            final(self).wf(),
            final(self)@ == old(self)@.insert(name@, (entry.hash@, entry.class_path@)),
            str_views(final(self).names@) == if old(self)@.contains_key(name@) {
                str_views(old(self).names@)
            } else {
                str_views(old(self).names@).push(name@)
            },
    {
        if !self.entries.contains_key(name.as_str()) {
            let key = name.clone();
            proof {
                lemma_push_new_key(self.names@, key, self.entries@.dom());
                assert(str_views(self.names@.push(key)) == str_views(self.names@).push(key@));
            }
            self.names.push(key);
        }
        self.entries.insert(name, entry);
        assert(str_views(self.names@).to_set() =~= self.entries@.dom());
        assert(self@ =~= old(self)@.insert(name@, (entry.hash@, entry.class_path@)));
    }

    /// The entry under `name`.
    pub fn get(&self, name: &str) -> (r: Option<&CacheEntry>)
        ensures
            match r {
                Some(entry) => self@.contains_key(name@) && self@[name@] == (
                    entry.hash@,
                    entry.class_path@,
                ),
                None => !self@.contains_key(name@),
            },
    {
        self.entries.get(name)
    }

    /// The number of entries.
    pub fn len(&self) -> (r: usize)
        ensures
            r == self.names@.len(),
    {
        self.names.len()
    }
}

/// The SHA-256 digest of a byte string.
pub uninterp spec fn sha256(bytes: Seq<u8>) -> Seq<u8>;

/// Feeds `bytes` to `sha2::Sha256` (`Digest::new`, `Digest::update`,
/// `Digest::finalize`) and hands out the digest. The digest is a function
/// of the bytes alone; it is named here, not spelled out. Its length is the
/// output size of the hasher, 32 bytes.
#[verifier::external_body]
fn sha256_digest(bytes: &[u8]) -> (r: Vec<u8>)
    ensures
        r@ == sha256(bytes@),
        r@.len() == 32,
{
    let mut hasher = Sha256::new();
    hasher.update(bytes);
    hasher.finalize().to_vec()
}

/// The lowercase hexadecimal digit for a number below sixteen.
pub open spec fn hex_digit(d: int) -> char {
    if d < 10 {
        crate::text::digit_char(d)
    } else if d == 10 {
        'a'
    } else if d == 11 {
        'b'
    } else if d == 12 {
        'c'
    } else if d == 13 {
        'd'
    } else if d == 14 {
        'e'
    } else {
        'f'
    }
}

/// Two lowercase hexadecimal digits for every byte, the high one first.
pub open spec fn hex_of(bytes: Seq<u8>) -> Seq<char>
    decreases bytes.len(),
{
    if bytes.len() == 0 {
        Seq::empty()
    } else {
        hex_of(bytes.drop_last()).push(hex_digit(bytes.last() as int / 16)).push(
            hex_digit(bytes.last() as int % 16),
        )
    }
}

/// The fingerprint of a byte string: its SHA-256 digest in lowercase
/// hexadecimal.
pub open spec fn fingerprint_of(bytes: Seq<u8>) -> Seq<char> {
    hex_of(sha256(bytes))
}

/// The hexadecimal form is twice as long as the bytes.
pub proof fn lemma_hex_len(bytes: Seq<u8>)
    ensures
        hex_of(bytes).len() == 2 * bytes.len(),
    decreases bytes.len(),
{
    if bytes.len() > 0 {
        lemma_hex_len(bytes.drop_last());
    }
}

/// The lowercase hexadecimal digit for `d`.
fn hex_char(d: u8) -> (c: char)
    requires
        d < 16,
    ensures
        c == hex_digit(d as int),
{
    if d == 0 {
        '0'
    } else if d == 1 {
        '1'
    } else if d == 2 {
        '2'
    } else if d == 3 {
        '3'
    } else if d == 4 {
        '4'
    } else if d == 5 {
        '5'
    } else if d == 6 {
        '6'
    } else if d == 7 {
        '7'
    } else if d == 8 {
        '8'
    } else if d == 9 {
        '9'
    } else if d == 10 {
        'a'
    } else if d == 11 {
        'b'
    } else if d == 12 {
        'c'
    } else if d == 13 {
        'd'
    } else if d == 14 {
        'e'
    } else {
        'f'
    }
}

/// The bytes in lowercase hexadecimal.
pub fn to_hex(bytes: &Vec<u8>) -> (r: String)
    ensures
        r@ == hex_of(bytes@),
{
    let mut v: Vec<char> = Vec::new();
    let mut i: usize = 0;
    assert(bytes@.take(0) == Seq::<u8>::empty());
    while i < bytes.len()
        invariant
            i <= bytes.len(),
            v@ == hex_of(bytes@.take(i as int)),
        decreases bytes.len() - i,
    {
        assert(bytes@.take(i + 1).drop_last() == bytes@.take(i as int));
        assert(bytes@.take(i + 1).last() == bytes@[i as int]);
        v.push(hex_char(bytes[i] / 16));
        v.push(hex_char(bytes[i] % 16));
        i += 1;
    }
    assert(bytes@.take(bytes.len() as int) == bytes@);
    string_of(&v)
}

/// The fingerprint of a source file: a function of its bytes alone,
/// sixty-four hexadecimal digits long.
pub fn compute_hash(content: &[u8]) -> (r: String)
    ensures
        r@ == fingerprint_of(content@),
        r@.len() == 64,
{
    let digest = sha256_digest(content);
    proof {
        lemma_hex_len(digest@);
    }
    to_hex(&digest)
}

/// A file name without its `.java` extension; unchanged where it has none.
pub open spec fn class_name_of(name: Seq<char>) -> Seq<char> {
    if ".java"@.is_suffix_of(name) {
        name.take(name.len() - ".java"@.len())
    } else {
        name
    }
}

/// The leaf name of the artifact compiled from the source file `name`.
pub open spec fn artifact_name_of(name: Seq<char>) -> Seq<char> {
    class_name_of(name) + ".class"@
}

/// The class name of a source file: its name without the `.java` extension.
pub fn class_name(name: &str) -> (r: String)
    ensures
        r@ == class_name_of(name@),
{
    let v = chars_of(name);
    let ext = chars_of(".java");
    if ends_with(&v, &ext) {
        let stem = slice_of(&v, 0, v.len() - ext.len());
        string_of(&stem)
    } else {
        string_of(&v)
    }
}

/// The leaf name of the artifact compiled from the source file `name`.
pub fn artifact_name(name: &str) -> (r: String)
    ensures
        r@ == artifact_name_of(name@),
{
    let stem = class_name(name);
    let mut v = chars_of(stem.as_str());
    append_str(&mut v, ".class");
    string_of(&v)
}

/// The decision of the staleness oracle, first match first: forced; no
/// artifact on disk; no entry in the store; a fingerprint other than the
/// stored one. It looks at the file itself only, not at what it depends on.
pub open spec fn is_stale(
    force: bool,
    artifact_exists: bool,
    cache: Map<Seq<char>, (Seq<char>, Seq<char>)>,
    name: Seq<char>,
    current_hash: Seq<char>,
) -> bool {
    force || !artifact_exists || !cache.contains_key(name) || cache[name].0 != current_hash
}

/// Whether `node` must be compiled again, given whether its artifact
/// exists and the fingerprint of its source as it is now.
pub fn needs_rebuild(
    node: &Node,
    cache: &Cache,
    artifact_exists: bool,
    current_hash: &str,
    force: bool,
) -> (r: bool)
    ensures
        r == is_stale(force, artifact_exists, cache@, node.name@, current_hash@),
{
    if force {
        return true;
    }
    if !artifact_exists {
        return true;
    }
    match cache.get(node.name.as_str()) {
        None => true,
        Some(entry) => !str_eq(current_hash, entry.hash.as_str()),
    }
}

/// A source whose bytes are those that the store has the fingerprint of,
/// and whose artifact exists, is skipped unless the build is forced.
pub proof fn lemma_unchanged_source_is_skipped(
    cache: Map<Seq<char>, (Seq<char>, Seq<char>)>,
    name: Seq<char>,
    bytes: Seq<u8>,
)
    requires
        cache.contains_key(name),
        cache[name].0 == fingerprint_of(bytes),
    ensures
        !is_stale(false, true, cache, name, fingerprint_of(bytes)),
{
}

/// A source whose fingerprint is not the stored one is rebuilt, whatever
/// else holds.
pub proof fn lemma_changed_source_is_rebuilt(
    cache: Map<Seq<char>, (Seq<char>, Seq<char>)>,
    name: Seq<char>,
    current_hash: Seq<char>,
    artifact_exists: bool,
    force: bool,
)
    requires
        cache.contains_key(name) ==> cache[name].0 != current_hash,
    ensures
        is_stale(force, artifact_exists, cache, name, current_hash),
{
}

} // verus!
