//! What the cache keeps on disk: where its files lie, and which of them stay.
use crate::clock::Instant;
use crate::number;
use crate::path;
use crate::proxy::cache::service::{CacheMetadata, Entries, MetadataV, SccMemoryCache};
use crate::text;
use crate::text_map;
use crate::views;
use vstd::prelude::*;
use vstd::string::*;
use vstd::utf8::*;

verus! {

/// The checksum that `crc32fast` computes of `data`.
pub uninterp spec fn crc32_of(data: Seq<u8>) -> u32;

/// Computes a checksum with `crc32fast::Hasher`: one that is new and is fed all of `data`. The
/// contract claims that the outcome depends on the bytes alone.
#[verifier::external_body]
pub(crate) fn crc32(data: &[u8]) -> (r: u32)
    ensures
        r == crc32_of(data@),
{
    let mut hasher = crc32fast::Hasher::new();
    hasher.update(data);
    hasher.finalize()
}

/// The number of shards that a configured number stands for.
pub open spec fn shards(shard_count: usize) -> nat {
    shard_count as nat % 0x1_0000_0000
}

/// The shard of a checksum.
pub open spec fn shard_of(hash: u32, shard_count: usize) -> nat {
    hash as nat % shards(shard_count)
}

/// The name of a shard's directory.
pub open spec fn shard_name(id: nat) -> Seq<char> {
    "shard-"@ + number::decimal_two(id)
}

/// The directory of a shard.
pub open spec fn shard_path(cache_dir: Seq<char>, id: nat) -> Seq<char> {
    path::joined(cache_dir, shard_name(id))
}

/// The name of the file that holds the body with a checksum, before its extension.
pub open spec fn body_stem(hash: u32) -> Seq<char> {
    number::hexadecimal(hash as nat)
}

/// The file that holds the body of the key with a checksum.
pub open spec fn body_path(cache_dir: Seq<char>, shard_count: usize, hash: u32) -> Seq<char> {
    path::joined(shard_path(cache_dir, shard_of(hash, shard_count)), body_stem(hash) + ".bin"@)
}

/// The file that a body is written to before it gets its name.
pub open spec fn temp_path(cache_dir: Seq<char>, shard_count: usize, hash: u32) -> Seq<char> {
    path::joined(shard_path(cache_dir, shard_of(hash, shard_count)), body_stem(hash) + ".tmp"@)
}

/// Whether a configured number of shards stands for any.
pub fn has_shards(shard_count: usize) -> (r: bool)
    ensures
        r == (shards(shard_count) > 0),
{
    (shard_count as u64) % 0x1_0000_0000 != 0
}

/// The shard of a checksum.
pub fn shard_for(hash: u32, shard_count: usize) -> (r: usize)
    requires
        shards(shard_count) > 0,
    ensures
        r == shard_of(hash, shard_count),
        r < shards(shard_count),
        r < shard_count,
{
    let count: u64 = (shard_count as u64) % 0x1_0000_0000;
    let id: u64 = (hash as u64) % count;
    id as usize
}

/// The directory of a shard.
pub fn shard_dir_in(cache_dir: &str, id: usize) -> (r: String)
    ensures
        r@ == shard_path(cache_dir@, id as nat),
{
    let digits = number::decimal_two_text(id);
    let name = String::from_str("shard-").concat(digits.as_str());
    path::join(cache_dir, name.as_str())
}

/// The file that holds the body of the key with a checksum, and the file it is written to first.
pub fn body_paths_for(cache_dir: &str, shard_count: usize, hash: u32) -> (r: (String, String))
    requires
        shards(shard_count) > 0,
    ensures
        r.0@ == body_path(cache_dir@, shard_count, hash),
        r.1@ == temp_path(cache_dir@, shard_count, hash),
{
    let dir = shard_dir_in(cache_dir, shard_for(hash, shard_count));
    let stem = number::hexadecimal_text(hash);
    let file = stem.clone().concat(".bin");
    let temp = stem.concat(".tmp");
    (path::join(dir.as_str(), file.as_str()), path::join(dir.as_str(), temp.as_str()))
}

/// Where the cache keeps its files, and how often it writes what it knows of them.
#[derive(Debug)]
pub struct PersistenceConfig {
    pub cache_dir: String,
    pub metadata_dir: String,
    pub metadata_sync_interval: u64,
    pub shard_count: usize,
}

/// The contents of a `PersistenceConfig`.
pub struct PersistenceV {
    pub cache_dir: Seq<char>,
    pub metadata_dir: Seq<char>,
    pub metadata_sync_interval: u64,
    pub shard_count: usize,
}

impl View for PersistenceConfig {
    type V = PersistenceV;

    open spec fn view(&self) -> PersistenceV {
        PersistenceV {
            cache_dir: self.cache_dir@,
            metadata_dir: self.metadata_dir@,
            metadata_sync_interval: self.metadata_sync_interval,
            shard_count: self.shard_count,
        }
    }
}

impl Clone for PersistenceConfig {
    fn clone(&self) -> (r: Self)
        ensures
            r@ == self@,
    {
        PersistenceConfig {
            cache_dir: self.cache_dir.clone(),
            metadata_dir: self.metadata_dir.clone(),
            metadata_sync_interval: self.metadata_sync_interval,
            shard_count: self.shard_count,
        }
    }
}

impl PersistenceConfig {
    /// A configuration whose metadata lie below the cache directory.
    pub fn new(cache_dir: &str, metadata_sync_interval: u64, shard_count: usize) -> (r: Self)
        ensures
            r@ == (PersistenceV {
                cache_dir: cache_dir@,
                metadata_dir: path::joined(cache_dir@, "metadata"@),
                metadata_sync_interval,
                shard_count,
            }),
    {
        PersistenceConfig {
            cache_dir: cache_dir.to_owned(),
            metadata_dir: path::join(cache_dir, "metadata"),
            metadata_sync_interval,
            shard_count,
        }
    }

    /// The directory of a shard.
    pub fn shard_dir(&self, shard_id: usize) -> (r: String)
        ensures
            r@ == shard_path(self.cache_dir@, shard_id as nat),
    {
        shard_dir_in(self.cache_dir.as_str(), shard_id)
    }

    /// The file with the metadata, and the file that they are written to first.
    pub fn metadata_paths(&self) -> (r: (String, String))
        ensures
            r.0@ == path::joined(self.metadata_dir@, "cache-metadata.bin"@),
            r.1@ == path::joined(self.metadata_dir@, "cache-metadata.tmp"@),
    {
        (
            path::join(self.metadata_dir.as_str(), "cache-metadata.bin"),
            path::join(self.metadata_dir.as_str(), "cache-metadata.tmp"),
        )
    }
}

/// Files of the cache are told from others by their names: a body has the extension `bin`, what is
/// still being written has the extension `tmp`, and both lie in the directory of a shard, whose
/// name says so.
pub proof fn law_cache_files_are_recognised(cache_dir: Seq<char>, shard_count: usize, hash: u32)
    ensures
        path::extension(body_path(cache_dir, shard_count, hash)) == Some("bin"@),
        path::extension(temp_path(cache_dir, shard_count, hash)) == Some("tmp"@),
        path::file_name(shard_path(cache_dir, shard_of(hash, shard_count))) == Some(
            shard_name(shard_of(hash, shard_count)),
        ),
        text::has_prefix(shard_name(shard_of(hash, shard_count)), "shard-"@),
{
    let id = shard_of(hash, shard_count);
    let dir = shard_path(cache_dir, id);
    lemma_file_name(dir, hash);
    path::lemma_extension(body_path(cache_dir, shard_count, hash), body_stem(hash), "bin"@);
    path::lemma_extension(temp_path(cache_dir, shard_count, hash), body_stem(hash), "tmp"@);
    reveal_strlit("shard-");
    reveal_strlit(".");
    reveal_strlit("..");
    number::lemma_numeral_chars(id);
    let name = shard_name(id);
    assert(name[0] == 's');
    assert forall|j: int| 0 <= j < name.len() implies name[j] != '/' by {
        if j >= 6 {
            let k = j - 6;
            assert(name[j] == number::decimal_two(id)[k]);
            if id < 10 {
                assert(k > 0 ==> number::decimal_two(id)[k] == number::decimal(id)[k - 1]);
                assert(k > 0 ==> number::numeral_char(number::decimal(id)[k - 1]));
            } else {
                assert(number::numeral_char(number::decimal(id)[k]));
            }
        } else {
            assert(name[j] == "shard-"@[j]);
        }
    }
    path::lemma_joined_file_name(cache_dir, name);
    assert(name.take(6) =~= "shard-"@);
}

/// The names of the files for a checksum.
proof fn lemma_file_name(dir: Seq<char>, hash: u32)
    ensures
        path::file_name(path::joined(dir, body_stem(hash) + ".bin"@)) == Some(
            body_stem(hash) + seq!['.'] + "bin"@,
        ),
        path::file_name(path::joined(dir, body_stem(hash) + ".tmp"@)) == Some(
            body_stem(hash) + seq!['.'] + "tmp"@,
        ),
        body_stem(hash).len() > 0,
        forall|j: int| 0 <= j < "bin"@.len() ==> "bin"@[j] != '.',
        forall|j: int| 0 <= j < "tmp"@.len() ==> "tmp"@[j] != '.',
{
    reveal_strlit(".bin");
    reveal_strlit(".tmp");
    reveal_strlit("bin");
    reveal_strlit("tmp");
    reveal_strlit(".");
    reveal_strlit("..");
    number::lemma_numeral_chars(hash as nat);
    let stem = body_stem(hash);
    let bin = stem + ".bin"@;
    let tmp = stem + ".tmp"@;
    assert(bin.len() >= 5 && tmp.len() >= 5);
    assert forall|j: int| 0 <= j < bin.len() implies bin[j] != '/' && tmp[j] != '/' by {
        if j < stem.len() {
            assert(number::numeral_char(number::hexadecimal(hash as nat)[j]));
        } else {
            assert(bin[j] == ".bin"@[j - stem.len()]);
            assert(tmp[j] == ".tmp"@[j - stem.len()]);
        }
    }
    path::lemma_joined_file_name(dir, bin);
    path::lemma_joined_file_name(dir, tmp);
    assert(bin =~= stem + seq!['.'] + "bin"@);
    assert(tmp =~= stem + seq!['.'] + "tmp"@);
}

/// Keys with different checksums have their bodies in different files.
pub proof fn law_files_tell_checksums_apart(
    cache_dir: Seq<char>,
    shard_count: usize,
    a: u32,
    b: u32,
)
    requires
        a != b,
    ensures
        !path::same_path(
            body_path(cache_dir, shard_count, a),
            body_path(cache_dir, shard_count, b),
        ),
{
    let p = body_path(cache_dir, shard_count, a);
    let q = body_path(cache_dir, shard_count, b);
    lemma_file_name(shard_path(cache_dir, shard_of(a, shard_count)), a);
    lemma_file_name(shard_path(cache_dir, shard_of(b, shard_count)), b);
    if path::same_path(p, q) {
        let x = body_stem(a) + seq!['.'] + "bin"@;
        let y = body_stem(b) + seq!['.'] + "bin"@;
        assert(x == y);
        assert(x.len() == body_stem(a).len() + 1 + "bin"@.len());
        assert(y.len() == body_stem(b).len() + 1 + "bin"@.len());
        assert(body_stem(a) =~= x.take(body_stem(a).len() as int));
        assert(body_stem(b) =~= y.take(body_stem(b).len() as int));
        number::lemma_hexadecimal_injective(a as nat, b as nat);
    }
}

/// An entry of the metadata file.
#[derive(Debug)]
pub struct MetadataEntry {
    pub cache_key: String,
    pub metadata: CacheMetadata,
}

/// The contents of a `MetadataEntry`.
pub struct EntryV {
    pub key: Seq<char>,
    pub metadata: MetadataV,
}

impl View for MetadataEntry {
    type V = EntryV;

    open spec fn view(&self) -> EntryV {
        EntryV { key: self.cache_key@, metadata: self.metadata@ }
    }
}

/// The entries that have not outlived their time.
pub open spec fn live(e: Entries, now: Instant) -> Entries {
    Map::new(|k: Seq<char>| e.dom().contains(k) && !e[k].expired(now), |k: Seq<char>| e[k])
}

/// A list that holds each of the given entries once.
pub open spec fn lists_entries(list: Seq<EntryV>, e: Entries) -> bool {
    &&& forall|i: int|
        0 <= i < list.len() ==> e.dom().contains((#[trigger] list[i]).key) && e[list[i].key]
            == list[i].metadata
    &&& forall|k: Seq<char>| #[trigger]
        e.dom().contains(k) ==> exists|i: int| 0 <= i < list.len() && (#[trigger] list[i]).key == k
    &&& forall|i: int, j: int|
        0 <= i < j < list.len() ==> (#[trigger] list[i]).key != (#[trigger] list[j]).key
}

/// The live entries among the first `n` pairs.
spec fn live_up_to(
    e: Entries,
    now: Instant,
    pairs: Seq<(Seq<char>, CacheMetadata)>,
    n: int,
) -> Entries {
    Map::new(
        |k: Seq<char>|
            e.dom().contains(k) && !e[k].expired(now) && exists|j: int|
                0 <= j < n && (#[trigger] pairs[j]).0 == k,
        |k: Seq<char>| e[k],
    )
}

/// One more entry, at the end of a list that does not have its key.
proof fn lemma_lists_one_more(list: Seq<EntryV>, e: Entries, entry: EntryV)
    requires
        lists_entries(list, e),
        !e.dom().contains(entry.key),
    ensures
        lists_entries(list.push(entry), e.insert(entry.key, entry.metadata)),
{
    let more = list.push(entry);
    let all = e.insert(entry.key, entry.metadata);
    assert forall|i: int| 0 <= i < more.len() implies all.dom().contains((#[trigger] more[i]).key)
        && all[more[i].key] == more[i].metadata by {
        if i < list.len() {
            assert(more[i] == list[i]);
        }
    }
    assert forall|k: Seq<char>| #[trigger] all.dom().contains(k) implies exists|i: int|
        0 <= i < more.len() && (#[trigger] more[i]).key == k by {
        if k == entry.key {
            assert(more[list.len() as int].key == k);
        } else {
            assert(e.dom().contains(k));
            let i = choose|i: int| 0 <= i < list.len() && (#[trigger] list[i]).key == k;
            assert(more[i] == list[i]);
        }
    }
    assert forall|i: int, j: int| 0 <= i < j < more.len() implies (#[trigger] more[i]).key != (
    #[trigger] more[j]).key by {
        assert(more[i] == list[i]);
        if j < list.len() {
            assert(more[j] == list[j]);
        } else {
            assert(e.dom().contains(list[i].key));
        }
    }
}

/// The file of an entry that has outlived its time.
pub open spec fn expired_file(e: Entries, now: Instant, file: Seq<char>) -> bool {
    exists|k: Seq<char>| #[trigger]
        e.dom().contains(k) && e[k].expired(now) && e[k].body_path == file
}

/// The files of the entries that have outlived their time, in a list.
pub open spec fn lists_expired_files(files: Seq<Seq<char>>, e: Entries, now: Instant) -> bool {
    &&& forall|i: int| 0 <= i < files.len() ==> expired_file(e, now, #[trigger] files[i])
    &&& forall|k: Seq<char>| #[trigger]
        e.dom().contains(k) && e[k].expired(now) ==> files.contains(e[k].body_path)
}

/// The files that entries use, in a list.
pub open spec fn lists_files(files: Seq<Seq<char>>, e: Entries) -> bool {
    &&& forall|i: int|
        0 <= i < files.len() ==> exists|k: Seq<char>| #[trigger]
            e.dom().contains(k) && e[k].body_path == #[trigger] files[i]
    &&& forall|k: Seq<char>| #[trigger] e.dom().contains(k) ==> files.contains(e[k].body_path)
}

/// A list of paths that holds a path.
pub open spec fn holds_path(files: Seq<Seq<char>>, p: Seq<char>) -> bool {
    exists|i: int| 0 <= i < files.len() && path::same_path(#[trigger] files[i], p)
}

/// A file that an entry uses.
pub open spec fn in_use(e: Entries, p: Seq<char>) -> bool {
    exists|k: Seq<char>| #[trigger] e.dom().contains(k) && path::same_path(e[k].body_path, p)
}

/// What is to be written to disk, and which files are to be deleted where they exist.
pub struct MetadataPlan {
    pub entries: Vec<MetadataEntry>,
    pub expired_files: Vec<String>,
}

/// What is to happen with an entry that was read from disk.
#[derive(Clone, Copy, Debug, PartialEq, Eq, Structural)]
pub enum EntryAction {
    /// It is kept.
    Keep,
    /// It goes.
    Forget,
    /// It goes, and the file of its body too.
    DeleteFile,
}

/// What is to happen with an entry when the metadata are loaded.
pub open spec fn load_action(m: MetadataV, present: bool, now: Instant) -> EntryAction {
    if m.expired(now) {
        if present {
            EntryAction::DeleteFile
        } else {
            EntryAction::Forget
        }
    } else if present {
        EntryAction::Keep
    } else {
        EntryAction::Forget
    }
}

/// The entries once one more has been loaded.
pub open spec fn loaded(e: Entries, entry: EntryV, present: bool, now: Instant) -> Entries {
    if load_action(entry.metadata, present, now) == EntryAction::Keep {
        e.insert(entry.key, entry.metadata)
    } else {
        e
    }
}

/// What is to happen with an entry when the metadata are cleaned.
pub open spec fn clean_action(
    m: MetadataV,
    present: bool,
    used: bool,
    now: Instant,
) -> EntryAction {
    if m.expired(now) {
        if present && !used {
            EntryAction::DeleteFile
        } else {
            EntryAction::Forget
        }
    } else if present {
        EntryAction::Keep
    } else {
        EntryAction::Forget
    }
}

/// The shard of a key.
pub open spec fn key_shard(key: Seq<char>, shard_count: usize) -> nat {
    shard_of(crc32_of(encode_utf8(key)), shard_count)
}

/// A file that holds a body no entry uses.
pub open spec fn orphaned(file: Seq<char>, files: Seq<Seq<char>>) -> bool {
    path::extension(file) == Some("bin"@) && !holds_path(files, file)
}

/// The texts of a list of strings.
pub open spec fn string_views(v: Seq<String>) -> Seq<Seq<char>> {
    views::views(v)
}

/// Whether a list of paths holds a path.
pub fn contains_path(files: &Vec<String>, p: &str) -> (r: bool)
    ensures
        r == holds_path(string_views(files@), p@),
{
    let mut i: usize = 0;
    while i < files.len()
        invariant
            i <= files@.len(),
            forall|j: int|
                0 <= j < i ==> !path::same_path(#[trigger] string_views(files@)[j], p@),
        decreases files@.len() - i,
    {
        assert(string_views(files@)[i as int] == files@[i as int]@);
        if path::path_eq(files[i].as_str(), p) {
            return true;
        }
        i = i + 1;
    }
    false
}

/// The files that the entries of a cache use.
pub fn valid_paths(cache: &SccMemoryCache) -> (r: Vec<String>)
    ensures
        lists_files(string_views(r@), cache.entries()),
{
    let n = cache.cache.len();
    let ghost pairs = cache.cache.pairs();
    let ghost e = cache.entries();
    let mut out: Vec<String> = Vec::new();
    let mut i: usize = 0;
    while i < n
        invariant
            i <= n,
            n == pairs.len(),
            pairs == cache.cache.pairs(),
            e == cache.entries(),
            out@.len() == i,
            forall|j: int|
                0 <= j < i ==> e.dom().contains((#[trigger] pairs[j]).0) && e[pairs[j].0].body_path
                    == out@[j]@,
        decreases n - i,
    {
        let (key, metadata) = cache.cache.entry_at(i);
        assert(e[key@] == metadata@);
        out.push(metadata.body_path.clone());
        i = i + 1;
    }
    proof {
        let files = string_views(out@);
        text_map::lemma_map_of(pairs);
        assert forall|j: int| 0 <= j < files.len() implies exists|k: Seq<char>| #[trigger]
            e.dom().contains(k) && e[k].body_path == #[trigger] files[j] by {
            assert(e.dom().contains(pairs[j].0));
            assert(files[j] == out@[j]@);
        }
        assert forall|k: Seq<char>| #[trigger] e.dom().contains(k) implies files.contains(
            e[k].body_path,
        ) by {
            assert(cache.cache@.dom().contains(k));
            let j = choose|j: int| 0 <= j < pairs.len() && (#[trigger] pairs[j]).0 == k;
            assert(files[j] == out@[j]@);
            assert(files[j] == e[k].body_path);
        }
    }
    out
}

/// What the cache keeps on disk.
pub struct CachePersistence {
    pub config: PersistenceConfig,
}

impl CachePersistence {
    /// Keeps what a configuration says.
    pub fn new(config: PersistenceConfig) -> (r: Self)
        ensures
            r.config == config,
    {
        CachePersistence { config }
    }

    /// The directories that metadata and bodies need: the cache directory, that of the metadata,
    /// then those of all shards.
    pub fn dirs(&self) -> (r: Vec<String>)
        requires
            self.config.shard_count < usize::MAX - 1,
        ensures
            r@.len() == self.config.shard_count + 2,
            r@[0]@ == self.config.cache_dir@,
            r@[1]@ == self.config.metadata_dir@,
            forall|i: int|
                0 <= i < self.config.shard_count ==> (#[trigger] r@[i + 2])@ == shard_path(
                    self.config.cache_dir@,
                    i as nat,
                ),
    {
        let mut out: Vec<String> = Vec::new();
        out.push(self.config.cache_dir.clone());
        out.push(self.config.metadata_dir.clone());
        let mut i: usize = 0;
        while i < self.config.shard_count
            invariant
                i <= self.config.shard_count,
                self.config.shard_count < usize::MAX - 1,
                out@.len() == i + 2,
                out@[0]@ == self.config.cache_dir@,
                out@[1]@ == self.config.metadata_dir@,
                forall|j: int|
                    0 <= j < i ==> (#[trigger] out@[j + 2])@ == shard_path(
                        self.config.cache_dir@,
                        j as nat,
                    ),
            decreases self.config.shard_count - i,
        {
            out.push(self.config.shard_dir(i));
            i = i + 1;
        }
        out
    }

    /// The shard of a key.
    pub fn calculate_shard_id(&self, cache_key: &str) -> (r: usize)
        requires
            shards(self.config.shard_count) > 0,
        ensures
            r == key_shard(cache_key@, self.config.shard_count),
            r < self.config.shard_count,
    {
        shard_for(crc32(cache_key.as_bytes()), self.config.shard_count)
    }

    /// Whether an entry has outlived its time.
    pub fn is_entry_expired(metadata: &CacheMetadata, now: Instant) -> (r: bool)
        ensures
            r == metadata@.expired(now),
    {
        metadata.is_expired(now)
    }

    /// The entries of a cache that have not outlived their time.
    fn live_entries(cache: &SccMemoryCache, now: Instant) -> (r: Vec<MetadataEntry>)
        ensures
            lists_entries(views::views(r@), live(cache.entries(), now)),
    {
        broadcast use views::group_views;

        let n = cache.cache.len();
        let ghost pairs = cache.cache.pairs();
        let ghost e = cache.entries();
        let mut out: Vec<MetadataEntry> = Vec::new();
        let mut i: usize = 0;
        while i < n
            invariant
                i <= n,
                n == pairs.len(),
                pairs == cache.cache.pairs(),
                text_map::distinct(pairs),
                e == cache.entries(),
                lists_entries(views::views(out@), live_up_to(e, now, pairs, i as int)),
            decreases n - i,
        {
            broadcast use views::group_views;

            let (key, metadata) = cache.cache.entry_at(i);
            assert(e.dom().contains(key@) && e[key@] == metadata@);
            let ghost before = live_up_to(e, now, pairs, i as int);
            let ghost list = views::views(out@);
            if CachePersistence::is_entry_expired(metadata, now) {
                assert(live_up_to(e, now, pairs, i + 1) =~= before) by {
                    assert forall|k: Seq<char>| live_up_to(e, now, pairs, i + 1).dom().contains(
                        k,
                    ) implies #[trigger] before.dom().contains(k) by {
                        let j = choose|j: int| 0 <= j < i + 1 && (#[trigger] pairs[j]).0 == k;
                        assert(j < i);
                    }
                    assert forall|k: Seq<char>| before.dom().contains(k) implies #[trigger]
                    live_up_to(e, now, pairs, i + 1).dom().contains(k) by {
                        let j = choose|j: int| 0 <= j < i && (#[trigger] pairs[j]).0 == k;
                        assert(0 <= j < i + 1);
                    }
                }
            } else {
                let entry = MetadataEntry { cache_key: key.to_owned(), metadata: metadata.clone() };
                proof {
                    let after = live_up_to(e, now, pairs, i + 1);
                    assert(!before.dom().contains(key@)) by {
                        if before.dom().contains(key@) {
                            let j = choose|j: int| 0 <= j < i && (#[trigger] pairs[j]).0 == key@;
                            assert(pairs[j].0 != pairs[i as int].0);
                        }
                    }
                    assert(after =~= before.insert(key@, metadata@)) by {
                        assert forall|k: Seq<char>| after.dom().contains(k) implies #[trigger]
                        before.insert(key@, metadata@).dom().contains(k) by {
                            let j = choose|j: int| 0 <= j < i + 1 && (#[trigger] pairs[j]).0 == k;
                            if k != key@ {
                                assert(0 <= j < i);
                            }
                        }
                        assert forall|k: Seq<char>|
                            before.insert(key@, metadata@).dom().contains(
                                k,
                            ) implies #[trigger] after.dom().contains(k) by {
                            if k == key@ {
                                assert(0 <= i < i + 1 && pairs[i as int].0 == k);
                            } else {
                                let j = choose|j: int| 0 <= j < i && (#[trigger] pairs[j]).0 == k;
                                assert(0 <= j < i + 1);
                            }
                        }
                    }
                    lemma_lists_one_more(list, before, entry@);
                }
                out.push(entry);
            }
            i = i + 1;
        }
        proof {
            text_map::lemma_map_of(pairs);
            let all = live_up_to(e, now, pairs, n as int);
            assert forall|k: Seq<char>| live(e, now).dom().contains(k) implies #[trigger]
            all.dom().contains(k) by {
                assert(cache.cache@.dom().contains(k));
                let j = choose|j: int| 0 <= j < pairs.len() && (#[trigger] pairs[j]).0 == k;
                assert(0 <= j < n);
            }
            assert(all =~= live(e, now));
        }
        out
    }

    /// The files of the entries of a cache that have outlived their time.
    fn expired_files(cache: &SccMemoryCache, now: Instant) -> (r: Vec<String>)
        ensures
            lists_expired_files(string_views(r@), cache.entries(), now),
    {
        broadcast use views::group_views;

        let n = cache.cache.len();
        let ghost pairs = cache.cache.pairs();
        let ghost e = cache.entries();
        let mut out: Vec<String> = Vec::new();
        let mut i: usize = 0;
        while i < n
            invariant
                i <= n,
                n == pairs.len(),
                pairs == cache.cache.pairs(),
                e == cache.entries(),
                forall|a: int|
                    0 <= a < out@.len() ==> expired_file(e, now, #[trigger] string_views(out@)[a]),
                forall|j: int|
                    0 <= j < i && e[(#[trigger] pairs[j]).0].expired(now) ==> string_views(
                        out@,
                    ).contains(e[pairs[j].0].body_path),
            decreases n - i,
        {
            broadcast use views::group_views;

            let (key, metadata) = cache.cache.entry_at(i);
            assert(pairs[i as int].0 == key@);
            assert(e.dom().contains(key@) && e[key@] == metadata@);
            let ghost before = string_views(out@);
            if CachePersistence::is_entry_expired(metadata, now) {
                let file = metadata.body_path.clone();
                out.push(file);
                proof {
                    let after = string_views(out@);
                    assert(after == before.push(file@));
                    assert(after[before.len() as int] == file@);
                    assert(expired_file(e, now, file@));
                    assert forall|a: int| 0 <= a < out@.len() implies expired_file(
                        e,
                        now,
                        #[trigger] after[a],
                    ) by {
                        if a < before.len() {
                            assert(after[a] == before[a]);
                        }
                    }
                    assert forall|j: int|
                        0 <= j < i + 1 && e[(#[trigger] pairs[j]).0].expired(
                            now,
                        ) implies after.contains(e[pairs[j].0].body_path) by {
                        if j < i {
                            let a = choose|a: int|
                                0 <= a < before.len() && before[a] == e[pairs[j].0].body_path;
                            assert(after[a] == before[a]);
                        }
                    }
                }
            }
            i = i + 1;
        }
        proof {
            text_map::lemma_map_of(pairs);
            let files = string_views(out@);
            assert forall|k: Seq<char>| #[trigger]
                e.dom().contains(k) && e[k].expired(now) implies files.contains(e[k].body_path) by {
                assert(cache.cache@.dom().contains(k));
                let j = choose|j: int| 0 <= j < pairs.len() && (#[trigger] pairs[j]).0 == k;
                assert(0 <= j < n && e[pairs[j].0].expired(now));
            }
        }
        out
    }

    /// What is to be written of a cache: its entries that have not outlived their time. The files
    /// of the others are to be deleted.
    pub fn plan_metadata(cache: &SccMemoryCache, now: Instant) -> (r: MetadataPlan)
        ensures
            lists_entries(views::views(r.entries@), live(cache.entries(), now)),
            lists_expired_files(string_views(r.expired_files@), cache.entries(), now),
    {
        MetadataPlan {
            entries: CachePersistence::live_entries(cache, now),
            expired_files: CachePersistence::expired_files(cache, now),
        }
    }

    /// Takes an entry that was read from disk into the cache, where its file exists and its time
    /// has not run out.
    pub fn load_entry(
        cache: &mut SccMemoryCache,
        entry: &MetadataEntry,
        present: bool,
        now: Instant,
    ) -> (r: EntryAction)
        ensures
            r == load_action(entry@.metadata, present, now),
            final(cache).settings() == old(cache).settings(),
            final(cache).entries() == loaded(old(cache).entries(), entry@, present, now),
    {
        if CachePersistence::is_entry_expired(&entry.metadata, now) {
            if present {
                EntryAction::DeleteFile
            } else {
                EntryAction::Forget
            }
        } else if present {
            cache.cache.insert(entry.cache_key.clone(), entry.metadata.clone());
            assert(cache.entries() =~= old(cache).entries().insert(
                entry.cache_key@,
                entry.metadata@,
            ));
            EntryAction::Keep
        } else {
            EntryAction::Forget
        }
    }

    /// What is to happen with an entry when the metadata are cleaned, given the files in use.
    pub fn clean_entry(
        entry: &MetadataEntry,
        present: bool,
        valid_paths: &Vec<String>,
        now: Instant,
    ) -> (r: EntryAction)
        ensures
            r == clean_action(
                entry@.metadata,
                present,
                holds_path(string_views(valid_paths@), entry@.metadata.body_path),
                now,
            ),
    {
        if CachePersistence::is_entry_expired(&entry.metadata, now) {
            if present && !contains_path(valid_paths, entry.metadata.body_path.as_str()) {
                EntryAction::DeleteFile
            } else {
                EntryAction::Forget
            }
        } else if present {
            EntryAction::Keep
        } else {
            EntryAction::Forget
        }
    }

    /// What is to happen with an entry when the metadata of one shard are cleaned: those of other
    /// shards are kept.
    pub fn clean_entry_in_shard(
        &self,
        shard_id: usize,
        entry: &MetadataEntry,
        present: bool,
        valid_paths: &Vec<String>,
        now: Instant,
    ) -> (r: EntryAction)
        requires
            shards(self.config.shard_count) > 0,
        ensures
            r == (if key_shard(entry@.key, self.config.shard_count) != shard_id {
                EntryAction::Keep
            } else {
                clean_action(
                    entry@.metadata,
                    present,
                    holds_path(string_views(valid_paths@), entry@.metadata.body_path),
                    now,
                )
            }),
    {
        if self.calculate_shard_id(entry.cache_key.as_str()) != shard_id {
            EntryAction::Keep
        } else {
            CachePersistence::clean_entry(entry, present, valid_paths, now)
        }
    }

    /// Whether a file holds a body that no entry uses.
    pub fn is_orphaned(file: &str, valid_paths: &Vec<String>) -> (r: bool)
        ensures
            r == orphaned(file@, string_views(valid_paths@)),
    {
        path::has_extension(file, "bin") && !contains_path(valid_paths, file)
    }

    /// Whether a file was left behind by a write that did not end.
    pub fn is_stray_temp(file: &str) -> (r: bool)
        ensures
            r == (path::extension(file@) == Some("tmp"@)),
    {
        path::has_extension(file, "tmp")
    }

    /// Whether a directory is that of a shard.
    pub fn is_shard_dir(dir: &str) -> (r: bool)
        ensures
            r == (path::file_name(dir@) matches Some(name) && text::has_prefix(name, "shard-"@)),
    {
        match path::path_file_name(dir) {
            Some(name) => text::starts_with(name, "shard-"),
            None => false,
        }
    }
}

/// What is to happen with an entry when the metadata are cleaned: where only one shard is, those of
/// other shards are kept.
pub open spec fn cleaned_entry(
    entry: EntryV,
    present: bool,
    used: Seq<Seq<char>>,
    shard: Option<usize>,
    shard_count: usize,
    now: Instant,
) -> EntryAction {
    if shard matches Some(id) && key_shard(entry.key, shard_count) != id {
        EntryAction::Keep
    } else {
        clean_action(
            entry.metadata,
            present,
            holds_path(used, entry.metadata.body_path),
            now,
        )
    }
}

/// The entries that cleaning keeps of a list; each comes with whether its file was there when it
/// was looked at.
pub open spec fn kept(
    list: Seq<(EntryV, bool)>,
    used: Seq<Seq<char>>,
    shard: Option<usize>,
    shard_count: usize,
    now: Instant,
) -> Seq<EntryV>
    decreases list.len(),
{
    if list.len() == 0 {
        Seq::empty()
    } else {
        let (entry, present) = list.last();
        let rest = kept(list.drop_last(), used, shard, shard_count, now);
        if cleaned_entry(entry, present, used, shard, shard_count, now) == EntryAction::Keep {
            rest.push(entry)
        } else {
            rest
        }
    }
}

/// The metadata while they are cleaned.
pub struct Cleaning {
    /// The files in use.
    pub valid_paths: Vec<String>,
    /// The shard that is cleaned, where it is not all of them.
    pub shard: Option<usize>,
    pub now: Instant,
    /// The entries that are kept, so far.
    pub retained: Vec<MetadataEntry>,
    /// The entries that have been looked at.
    pub seen: Ghost<Seq<(EntryV, bool)>>,
}

impl Cleaning {
    /// The entries that are kept are those that cleaning keeps of what has been looked at.
    pub open spec fn keeps(self, shard_count: usize) -> bool {
        views::views(self.retained@) == kept(
            self.seen@,
            string_views(self.valid_paths@),
            self.shard,
            shard_count,
            self.now,
        )
    }
}

impl CachePersistence {
    /// Starts to clean the metadata of a cache, or of one of its shards.
    pub fn begin_cleaning(&self, valid_paths: Vec<String>, shard: Option<usize>, now: Instant) -> (r:
        Cleaning)
        ensures
            r.valid_paths == valid_paths,
            r.shard == shard,
            r.now == now,
            r.seen@ == Seq::<(EntryV, bool)>::empty(),
            r.keeps(self.config.shard_count),
    {
        broadcast use views::group_views;

        Cleaning { valid_paths, shard, now, retained: Vec::new(), seen: Ghost(Seq::empty()) }
    }

    /// Looks at one more entry, whose file is there or not. A file that is to be deleted is
    /// returned.
    pub fn clean_next(&self, cleaning: &mut Cleaning, entry: MetadataEntry, present: bool) -> (r:
        Option<String>)
        requires
            old(cleaning).keeps(self.config.shard_count),
            old(cleaning).shard is Some ==> shards(self.config.shard_count) > 0,
        ensures
            final(cleaning).valid_paths == old(cleaning).valid_paths,
            final(cleaning).shard == old(cleaning).shard,
            final(cleaning).now == old(cleaning).now,
            final(cleaning).seen@ == old(cleaning).seen@.push((entry@, present)),
            final(cleaning).keeps(self.config.shard_count),
            views::opt_view(r) == (if cleaned_entry(
                entry@,
                present,
                string_views(old(cleaning).valid_paths@),
                old(cleaning).shard,
                self.config.shard_count,
                old(cleaning).now,
            ) == EntryAction::DeleteFile {
                Some(entry@.metadata.body_path)
            } else {
                None
            }),
    {
        broadcast use views::group_views;

        let action = match cleaning.shard {
            Some(id) => self.clean_entry_in_shard(
                id,
                &entry,
                present,
                &cleaning.valid_paths,
                cleaning.now,
            ),
            None => CachePersistence::clean_entry(
                &entry,
                present,
                &cleaning.valid_paths,
                cleaning.now,
            ),
        };
        let ghost seen = cleaning.seen@.push((entry@, present));
        assert(seen.drop_last() =~= cleaning.seen@);
        cleaning.seen = Ghost(seen);
        match action {
            EntryAction::Keep => {
                cleaning.retained.push(entry);
                None
            },
            EntryAction::Forget => None,
            EntryAction::DeleteFile => Some(entry.metadata.body_path),
        }
    }

    /// The files of a shard that are left over, in their order: bodies that no entry uses, and
    /// where `temps` says so, what a write that did not end left behind.
    pub fn left_over_files(files: &Vec<String>, valid_paths: &Vec<String>, temps: bool) -> (r: Vec<
        String,
    >)
        ensures
            string_views(r@) == left_over(
                string_views(files@),
                string_views(valid_paths@),
                temps,
            ),
    {
        broadcast use views::group_views;

        let ghost all = string_views(files@);
        let ghost used = string_views(valid_paths@);
        let mut out: Vec<String> = Vec::new();
        let mut i: usize = 0;
        assert(all.take(0) =~= Seq::<Seq<char>>::empty());
        while i < files.len()
            invariant
                i <= files@.len(),
                all == string_views(files@),
                used == string_views(valid_paths@),
                string_views(out@) == left_over(all.take(i as int), used, temps),
            decreases files@.len() - i,
        {
            broadcast use views::group_views;

            let file = files[i].as_str();
            proof {
                assert(all.take(i + 1).drop_last() =~= all.take(i as int));
                assert(all.take(i + 1).last() == files@[i as int]@);
            }
            if CachePersistence::is_orphaned(file, valid_paths)
                || (temps && CachePersistence::is_stray_temp(file)) {
                out.push(files[i].clone());
            }
            i = i + 1;
        }
        assert(all.take(i as int) =~= all);
        out
    }
}

/// The files of a list that are left over.
pub open spec fn left_over(files: Seq<Seq<char>>, used: Seq<Seq<char>>, temps: bool) -> Seq<
    Seq<char>,
>
    decreases files.len(),
{
    if files.len() == 0 {
        Seq::empty()
    } else {
        let file = files.last();
        let rest = left_over(files.drop_last(), used, temps);
        if orphaned(file, used) || (temps && path::extension(file) == Some("tmp"@)) {
            rest.push(file)
        } else {
            rest
        }
    }
}

/// Cleaning keeps every entry whose time has not run out and whose file is there, and every entry
/// of a shard that is not cleaned; it keeps no other, and not more than there were.
pub proof fn law_cleaning_keeps_live_entries(
    list: Seq<(EntryV, bool)>,
    used: Seq<Seq<char>>,
    shard: Option<usize>,
    shard_count: usize,
    now: Instant,
    i: int,
)
    ensures
        0 <= i < list.len() && ((!list[i].0.metadata.expired(now) && list[i].1) || (
        shard matches Some(id) && key_shard(list[i].0.key, shard_count) != id)) ==> kept(
            list,
            used,
            shard,
            shard_count,
            now,
        ).contains(list[i].0),
        forall|k: EntryV| #[trigger]
            kept(list, used, shard, shard_count, now).contains(k) ==> exists|j: int|
                0 <= j < list.len() && (#[trigger] list[j]).0 == k && ((!k.metadata.expired(now)
                    && list[j].1) || (shard matches Some(id) && key_shard(k.key, shard_count)
                    != id)),
        kept(list, used, shard, shard_count, now).len() <= list.len(),
    decreases list.len(),
{
    if list.len() > 0 {
        let front = list.drop_last();
        let all = kept(list, used, shard, shard_count, now);
        let rest = kept(front, used, shard, shard_count, now);
        let (last, present) = list.last();
        assert(list[list.len() - 1] == (last, present));
        if all.len() > rest.len() {
            assert(all[rest.len() as int] == last);
            assert forall|k: EntryV| rest.contains(k) implies #[trigger] all.contains(k) by {
                let a = choose|a: int| 0 <= a < rest.len() && rest[a] == k;
                assert(all[a] == k);
            }
        }
        law_cleaning_keeps_live_entries(front, used, shard, shard_count, now, i);
        if 0 <= i < front.len() {
            assert(front[i] == list[i]);
        }
        assert forall|k: EntryV| #[trigger] all.contains(k) implies exists|j: int|
            0 <= j < list.len() && (#[trigger] list[j]).0 == k && ((!k.metadata.expired(now)
                && list[j].1) || (shard matches Some(id) && key_shard(k.key, shard_count) != id)) by {
            let a = choose|a: int| 0 <= a < all.len() && all[a] == k;
            if a < rest.len() {
                assert(rest[a] == k);
                assert(rest.contains(k));
                let j = choose|j: int|
                    0 <= j < front.len() && (#[trigger] front[j]).0 == k && ((!k.metadata.expired(now)
                        && front[j].1) || (shard matches Some(id) && key_shard(k.key, shard_count)
                        != id));
                assert(list[j] == front[j]);
            } else {
                assert(list[list.len() - 1].0 == k);
            }
        }
    }
}

/// The steps of writing and reading the metadata that can fail.
#[derive(Clone, Copy, Debug, PartialEq, Eq, Structural)]
pub enum MetadataStep {
    /// The directories are made.
    Dirs,
    /// The entries are turned into bytes.
    Encode,
    /// The bytes are written.
    WriteFile,
    /// The file gets its name.
    RenameFile,
    /// The file is read.
    ReadFile,
    /// The bytes are turned into entries.
    Decode,
}

impl MetadataStep {
    /// What a failure of the step is called.
    pub open spec fn label(self) -> Seq<char> {
        match self {
            MetadataStep::Dirs => "Failed to initialize directory structure: "@,
            MetadataStep::Encode => "Failed to serialize metadata: "@,
            MetadataStep::WriteFile => "Failed to write metadata file: "@,
            MetadataStep::RenameFile => "Failed to rename metadata file: "@,
            MetadataStep::ReadFile => "Failed to read metadata file: "@,
            MetadataStep::Decode => "Failed to deserialize metadata: "@,
        }
    }

    /// The message for a failure of the step.
    pub fn message(&self, cause: &str) -> (r: String)
        ensures
            r@ == self.label() + cause@,
    {
        let label = match self {
            MetadataStep::Dirs => "Failed to initialize directory structure: ",
            MetadataStep::Encode => "Failed to serialize metadata: ",
            MetadataStep::WriteFile => "Failed to write metadata file: ",
            MetadataStep::RenameFile => "Failed to rename metadata file: ",
            MetadataStep::ReadFile => "Failed to read metadata file: ",
            MetadataStep::Decode => "Failed to deserialize metadata: ",
        };
        String::from_str(label).concat(cause)
    }
}

/// The entries once a whole list has been loaded, where `present` says which files there are.
pub open spec fn all_loaded(
    list: Seq<EntryV>,
    present: spec_fn(Seq<char>) -> bool,
    now: Instant,
    e: Entries,
) -> Entries
    decreases list.len(),
{
    if list.len() == 0 {
        e
    } else {
        let last = list.last();
        loaded(
            all_loaded(list.drop_last(), present, now, e),
            last,
            present(last.metadata.body_path),
            now,
        )
    }
}

proof fn lemma_all_loaded(
    list: Seq<EntryV>,
    present: spec_fn(Seq<char>) -> bool,
    now: Instant,
    e: Entries,
)
    requires
        lists_entries(list, e),
        forall|i: int|
            0 <= i < list.len() ==> present((#[trigger] list[i]).metadata.body_path)
                && !list[i].metadata.expired(now),
    ensures
        forall|k: Seq<char>| #[trigger]
            all_loaded(list, present, now, Map::empty()).dom().contains(k) <==> e.dom().contains(k),
        forall|k: Seq<char>| #[trigger]
            e.dom().contains(k) ==> all_loaded(list, present, now, Map::empty())[k] == e[k],
    decreases list.len(),
{
    if list.len() > 0 {
        let last = list.last();
        let front = list.drop_last();
        let rest = e.remove(last.key);
        assert(last == list[list.len() - 1]);
        assert forall|i: int| 0 <= i < front.len() implies rest.dom().contains(
            (#[trigger] front[i]).key,
        ) && rest[front[i].key] == front[i].metadata && present(front[i].metadata.body_path)
            && !front[i].metadata.expired(now) by {
            assert(front[i] == list[i]);
            assert(list[i].key != list[list.len() - 1].key);
        }
        assert forall|k: Seq<char>| #[trigger] rest.dom().contains(k) implies exists|i: int|
            0 <= i < front.len() && (#[trigger] front[i]).key == k by {
            assert(e.dom().contains(k));
            let i = choose|i: int| 0 <= i < list.len() && (#[trigger] list[i]).key == k;
            assert(front[i] == list[i]);
        }
        assert forall|i: int, j: int| 0 <= i < j < front.len() implies (#[trigger] front[i]).key
            != (#[trigger] front[j]).key by {
            assert(front[i] == list[i] && front[j] == list[j]);
        }
        lemma_all_loaded(front, present, now, rest);
        assert(present(last.metadata.body_path));
        assert(e.dom().contains(last.key) && e[last.key] == last.metadata);
        let all = all_loaded(list, present, now, Map::empty());
        let part = all_loaded(front, present, now, Map::empty());
        assert(all == part.insert(last.key, last.metadata));
        assert forall|k: Seq<char>| #[trigger] all.dom().contains(k) <==> e.dom().contains(k) by {
            if k != last.key {
                assert(part.dom().contains(k) <==> rest.dom().contains(k));
            }
        }
        assert forall|k: Seq<char>| #[trigger] e.dom().contains(k) implies all[k] == e[k] by {
            if k != last.key {
                assert(rest.dom().contains(k));
            }
        }
    } else {
        assert forall|k: Seq<char>| !(#[trigger] e.dom().contains(k)) by {
            if e.dom().contains(k) {
                let i = choose|i: int| 0 <= i < list.len() && (#[trigger] list[i]).key == k;
            }
        }
    }
}

/// What was written to disk is loaded again: an empty cache that loads the entries that were live
/// when they were written gets exactly these, as long as their files exist and their time has not
/// run out in between.
pub proof fn law_written_entries_load_again(
    e: Entries,
    written: Instant,
    list: Seq<EntryV>,
    present: spec_fn(Seq<char>) -> bool,
    now: Instant,
)
    requires
        lists_entries(list, live(e, written)),
        forall|i: int|
            0 <= i < list.len() ==> present((#[trigger] list[i]).metadata.body_path)
                && !list[i].metadata.expired(now),
    ensures
        all_loaded(list, present, now, Map::empty()) == live(e, written),
{
    lemma_all_loaded(list, present, now, live(e, written));
    assert(all_loaded(list, present, now, Map::empty()) =~= live(e, written));
}

/// A file that is left over is a body that no entry uses, or has the extension of what is still
/// being written.
proof fn lemma_left_over(files: Seq<Seq<char>>, used: Seq<Seq<char>>, temps: bool)
    ensures
        forall|f: Seq<char>| #[trigger]
            left_over(files, used, temps).contains(f) ==> orphaned(f, used) || (temps
                && path::extension(f) == Some("tmp"@)),
    decreases files.len(),
{
    if files.len() > 0 {
        lemma_left_over(files.drop_last(), used, temps);
        let all = left_over(files, used, temps);
        let rest = left_over(files.drop_last(), used, temps);
        assert forall|f: Seq<char>| #[trigger] all.contains(f) implies orphaned(f, used) || (temps
            && path::extension(f) == Some("tmp"@)) by {
            let a = choose|a: int| 0 <= a < all.len() && all[a] == f;
            if a < rest.len() {
                assert(rest[a] == f);
                assert(rest.contains(f));
            }
        }
    }
}

/// Cleaning never deletes a file that an entry of the cache uses: neither with the entry it was
/// stored under, nor when directories are searched for what is left over, as long as the file has
/// not the extension of what is still being written.
pub proof fn law_cleaning_spares_files_in_use(
    e: Entries,
    files: Seq<Seq<char>>,
    entry: EntryV,
    present: bool,
    shard: Option<usize>,
    shard_count: usize,
    now: Instant,
    found: Seq<Seq<char>>,
    file: Seq<char>,
    temps: bool,
)
    requires
        lists_files(files, e),
    ensures
        in_use(e, entry.metadata.body_path) ==> cleaned_entry(
            entry,
            present,
            files,
            shard,
            shard_count,
            now,
        ) != EntryAction::DeleteFile,
        in_use(e, file) && path::extension(file) != Some("tmp"@) ==> !left_over(
            found,
            files,
            temps,
        ).contains(file),
{
    lemma_left_over(found, files, temps);
    let p = entry.metadata.body_path;
    if in_use(e, p) {
        let k = choose|k: Seq<char>| #[trigger]
            e.dom().contains(k) && path::same_path(e[k].body_path, p);
        let i = choose|i: int| 0 <= i < files.len() && files[i] == e[k].body_path;
        assert(path::same_path(files[i], p));
    }
    if in_use(e, file) {
        let k = choose|k: Seq<char>| #[trigger]
            e.dom().contains(k) && path::same_path(e[k].body_path, file);
        let i = choose|i: int| 0 <= i < files.len() && files[i] == e[k].body_path;
        assert(path::same_path(files[i], file));
    }
}

} // verus!
