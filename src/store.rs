//! The disk-backed coordinate store: one LMDB file mapping point ids to
//! positions, written in bulk during the collection pass and read by many
//! threads during the final pass.
//!
//! The store lives in a private scratch directory, made in the caller's
//! directory or in the system's temporary directory; the scratch directory is
//! removed when the store is dropped, unless it was asked to retain it.

use vstd::prelude::*;
use lmdb::Transaction;
use crate::codec::{decode_value, key_bytes, spec_decode, value_bytes};
use crate::geometry::Coord;
use crate::osm::OsmElement;
use crate::resolve::{
    filter_view, is_selected, is_shape_of, node_member_ids, node_members, shape_from_lookups,
    spec_selected, Shape,
};
use crate::tables::present;

verus! {

#[verifier::external_type_specification]
#[verifier::external_body]
pub struct ExEnvironment(lmdb::Environment);

#[verifier::external_type_specification]
#[verifier::external_body]
pub struct ExEnvironmentBuilder(lmdb::EnvironmentBuilder);

#[verifier::external_type_specification]
#[verifier::external_body]
pub struct ExDatabase(lmdb::Database);

#[verifier::external_type_specification]
#[verifier::external_body]
pub struct ExLmdbError(lmdb::Error);

#[verifier::external_type_specification]
#[verifier::external_body]
pub struct ExRoTransaction<'env>(lmdb::RoTransaction<'env>);

#[verifier::external_type_specification]
#[verifier::external_body]
pub struct ExRwTransaction<'env>(lmdb::RwTransaction<'env>);

#[verifier::external_type_specification]
#[verifier::external_body]
pub struct ExTempDir(tempfile::TempDir);

#[verifier::external_type_specification]
#[verifier::external_body]
pub struct ExIoError(std::io::Error);

/// Why a store operation failed.
#[derive(Debug)]
pub enum StoreError {
    /// The database reported an error.
    Lmdb(lmdb::Error),
    /// The scratch directory could not be created.
    Io(std::io::Error),
    /// The scratch directory's path is not valid UTF-8.
    Path,
}

/// What a read of one key found.
pub enum StoredValue {
    Found(Vec<u8>),
    Missing,
    Failed(lmdb::Error),
}

/// The most readers that may hold the store open at once.
pub const MAX_READERS: u32 = 126;

/// The largest size the store file may reach: 500 GiB.
pub const MAP_SIZE_BYTES: u64 = 536_870_912_000;

/// The smallest size limit the store falls back to (1 GiB).
///
/// LMDB reserves address space for the whole size limit when it opens the
/// file, before anything is written. Where the process may not reserve
/// `MAP_SIZE_BYTES` (a limit on its address space), opening with it fails
/// outright, whatever the input. The store then halves the limit until it
/// can open, so that inputs that fit the smaller limit still convert; an
/// input that outgrows it fails during the collection pass with LMDB's
/// `MapFull` error instead of at open.
pub const MIN_MAP_SIZE_BYTES: u64 = 1_073_741_824;

/// The name of the store file inside a scratch directory.
pub const STORE_FILE_NAME: &'static str = "coordinates";

/// Relies on `tempfile::tempdir`: creates a fresh private directory that is
/// removed when the returned value is dropped.
#[verifier::external_body]
fn create_scratch_dir() -> (r: Result<tempfile::TempDir, std::io::Error>) {
    tempfile::tempdir()
}

/// Relies on `tempfile::tempdir_in`: creates a fresh private directory inside
/// `dir` that is removed when the returned value is dropped.
#[verifier::external_body]
fn create_scratch_dir_in(dir: &str) -> (r: Result<tempfile::TempDir, std::io::Error>) {
    tempfile::tempdir_in(dir)
}

/// Relies on `tempfile::TempDir::path`: the directory's path, as text when it
/// is valid UTF-8.
#[verifier::external_body]
fn scratch_dir_path(dir: &tempfile::TempDir) -> (r: Option<String>) {
    dir.path().to_str().map(String::from)
}

/// Relies on `tempfile::TempDir::disable_cleanup`: the directory stays on
/// disk when the value is dropped.
#[verifier::external_body]
fn retain_on_drop(dir: &mut tempfile::TempDir) {
    dir.disable_cleanup(true)
}

/// Relies on `lmdb::Environment::new`: a builder with LMDB's defaults.
#[verifier::external_body]
fn environment_builder() -> (r: lmdb::EnvironmentBuilder) {
    lmdb::Environment::new()
}

/// Relies on `lmdb::EnvironmentBuilder::set_flags` with `NO_SUB_DIR`: the
/// store is one file rather than a directory.
#[verifier::external_body]
fn builder_single_file(b: &mut lmdb::EnvironmentBuilder) {
    b.set_flags(lmdb::EnvironmentFlags::NO_SUB_DIR);
}

/// Relies on `lmdb::EnvironmentBuilder::set_max_readers`.
#[verifier::external_body]
fn builder_max_readers(b: &mut lmdb::EnvironmentBuilder, n: u32) {
    b.set_max_readers(n);
}

/// Relies on `lmdb::EnvironmentBuilder::set_map_size`.
#[verifier::external_body]
fn builder_map_size(b: &mut lmdb::EnvironmentBuilder, n: u64) {
    b.set_map_size(n as usize);
}

/// Relies on `lmdb::EnvironmentBuilder::open`: opens or creates the store at `path`.
#[verifier::external_body]
fn builder_open(b: &lmdb::EnvironmentBuilder, path: &str) -> (r: Result<lmdb::Environment, lmdb::Error>) {
    b.open(std::path::Path::new(path))
}

/// Relies on `lmdb::Environment::open_db` with no name: the unnamed database.
#[verifier::external_body]
fn open_main_db(env: &lmdb::Environment) -> (r: Result<lmdb::Database, lmdb::Error>) {
    env.open_db(None)
}

/// Relies on `lmdb::Environment::begin_rw_txn`, which waits while another
/// write transaction is open.
#[verifier::external_body]
fn begin_write(env: &lmdb::Environment) -> (r: Result<lmdb::RwTransaction<'_>, lmdb::Error>) {
    env.begin_rw_txn()
}

/// Relies on `lmdb::RwTransaction::put`: stores `value` under `key`,
/// replacing an earlier value.
#[verifier::external_body]
fn put_value(
    txn: &mut lmdb::RwTransaction<'_>,
    db: lmdb::Database,
    key: &[u8],
    value: &[u8],
) -> (r: Result<(), lmdb::Error>) {
    txn.put(db, &key, &value, lmdb::WriteFlags::empty())
}

/// Relies on `lmdb::Transaction::commit` for a write transaction.
#[verifier::external_body]
fn commit_write(txn: lmdb::RwTransaction<'_>) -> (r: Result<(), lmdb::Error>) {
    txn.commit()
}

/// Relies on `lmdb::Environment::begin_ro_txn`.
#[verifier::external_body]
fn begin_read(env: &lmdb::Environment) -> (r: Result<lmdb::RoTransaction<'_>, lmdb::Error>) {
    env.begin_ro_txn()
}

/// Relies on `lmdb::Transaction::get`: the value under `key`, or
/// `Error::NotFound` when there is none.
#[verifier::external_body]
fn read_value(txn: &lmdb::RoTransaction<'_>, db: lmdb::Database, key: &[u8]) -> (r: StoredValue) {
    match txn.get(db, &key) {
        Ok(v) => StoredValue::Found(v.to_vec()),
        Err(lmdb::Error::NotFound) => StoredValue::Missing,
        Err(e) => StoredValue::Failed(e),
    }
}

/// Relies on `lmdb::Environment::sync`: flushes written data to disk.
#[verifier::external_body]
fn sync_environment(env: &lmdb::Environment, force: bool) -> (r: Result<(), lmdb::Error>) {
    env.sync(force)
}

/// What a read of one key means for a lookup: a well-formed value is a
/// position, an absent or malformed one is none, and a failure is an error.
pub open spec fn spec_lookup_outcome(v: StoredValue) -> Option<Option<Coord>> {
    match v {
        StoredValue::Found(b) => Some(spec_decode(b@)),
        StoredValue::Missing => Some(None),
        StoredValue::Failed(_) => None,
    }
}

/// Turns the result of reading one key into a lookup result.
pub fn lookup_outcome(v: StoredValue) -> (r: Result<Option<Coord>, StoreError>)
    ensures
        match spec_lookup_outcome(v) {
            Some(c) => r == Ok::<Option<Coord>, StoreError>(c),
            None => r is Err,
        },
{
    match v {
        StoredValue::Found(b) => Ok(decode_value(b.as_slice())),
        StoredValue::Missing => Ok(None),
        StoredValue::Failed(e) => Err(StoreError::Lmdb(e)),
    }
}

/// Appends the store file's name to a directory path.
fn store_file_in(dir: &str) -> (r: String)
    ensures
        r@ == dir@ + seq!['/'] + STORE_FILE_NAME@,
{
    let mut cs = crate::filter::chars_of(dir);
    cs.push('/');
    let name = crate::filter::chars_of(STORE_FILE_NAME);
    let ghost before = cs@;
    let mut i: usize = 0;
    while i < name.len()
        invariant
            i <= name.len(),
            cs@ == before + name@.subrange(0, i as int),
        decreases name.len() - i,
    {
        cs.push(name[i]);
        i = i + 1;
        assert(cs@ =~= before + name@.subrange(0, i as int));
    }
    assert(name@.subrange(0, name.len() as int) =~= name@);
    crate::geometry::text_from_chars(cs)
}

/// The size limit tried after `k` refusals: `MAP_SIZE_BYTES` halved `k` times.
pub open spec fn halved_map_size(k: nat) -> int
    decreases k,
{
    if k == 0 {
        MAP_SIZE_BYTES as int
    } else {
        halved_map_size((k - 1) as nat) / 2
    }
}

/// A size limit the store may open with: `MAP_SIZE_BYTES` halved some number
/// of times, and not below `MIN_MAP_SIZE_BYTES`.
pub open spec fn is_allowed_map_size(size: u64) -> bool {
    &&& MIN_MAP_SIZE_BYTES <= size
    &&& exists|k: nat| halved_map_size(k) == size
}

/// The size limit to try after `size` was refused: half of it, or none when
/// that would be below `MIN_MAP_SIZE_BYTES`.
pub fn next_map_size(size: u64) -> (r: Option<u64>)
    ensures
        r == (if size / 2 < MIN_MAP_SIZE_BYTES { None } else { Some((size / 2) as u64) }),
{
    if size / 2 < MIN_MAP_SIZE_BYTES {
        None
    } else {
        Some(size / 2)
    }
}

/// Opens the store file at `path` with the largest size limit the process
/// can reserve, trying `MAP_SIZE_BYTES` first and then each `next_map_size`;
/// when none can be opened the last error is returned.
fn open_environment(path: &str) -> (r: Result<(lmdb::Environment, u64), lmdb::Error>)
    ensures
        match r {
            Ok((_, size)) => is_allowed_map_size(size),
            Err(_) => true,
        },
{
    let mut size: u64 = MAP_SIZE_BYTES;
    assert(halved_map_size(0) == size);
    loop
        invariant
            MIN_MAP_SIZE_BYTES <= size <= MAP_SIZE_BYTES,
            is_allowed_map_size(size),
        decreases size,
    {
        let mut builder = environment_builder();
        builder_single_file(&mut builder);
        builder_max_readers(&mut builder, MAX_READERS);
        builder_map_size(&mut builder, size);
        match builder_open(&builder, path) {
            Ok(env) => {
                return Ok((env, size));
            },
            Err(e) => {
                match next_map_size(size) {
                    Some(next) => {
                        let ghost k = choose|k: nat| halved_map_size(k) == size;
                        assert(halved_map_size(k + 1) == next);
                        size = next;
                    },
                    None => {
                        return Err(e);
                    },
                }
            },
        }
    }
}

/// The disk-backed table of point coordinates.
pub struct CoordinateStorage {
    env: lmdb::Environment,
    db: lmdb::Database,
    map_size: u64,
    scratch: tempfile::TempDir,
    scratch_dir: String,
    location: String,
    retained: bool,
}

impl CoordinateStorage {
    /// Opens a store in a fresh scratch directory inside `db_dir` (which must
    /// exist), or inside the system's temporary directory when none is given;
    /// the scratch directory is removed when the store is dropped.
    pub fn new(db_dir: Option<&str>) -> (r: Result<CoordinateStorage, StoreError>)
        ensures
            match r {
                Ok(s) => s.retained_location() is None,
                Err(_) => true,
            },
    {
        CoordinateStorage::new_with_cleanup(db_dir, false)
    }

    /// Opens a store in a fresh scratch directory inside the system's
    /// temporary directory; it is removed when the store is dropped.
    pub fn new_temp() -> (r: Result<CoordinateStorage, StoreError>)
        ensures
            match r {
                Ok(s) => s.retained_location() is None,
                Err(_) => true,
            },
    {
        CoordinateStorage::new(None)
    }

    /// Opens a store in a fresh scratch directory inside `db_dir` (which must
    /// exist), or inside the system's temporary directory when none is given.
    /// The scratch directory is removed when the store is dropped, unless
    /// `keep_temp_db` asks to retain it.
    pub fn new_with_cleanup(db_dir: Option<&str>, keep_temp_db: bool) -> (r: Result<
        CoordinateStorage,
        StoreError,
    >)
        ensures
            match r {
                Ok(s) => {
                    &&& (s.retained_location() is Some <==> keep_temp_db)
                    &&& s.spec_location()@ == s.spec_scratch_dir()@ + seq!['/'] + STORE_FILE_NAME@
                    &&& is_allowed_map_size(s.spec_map_size())
                },
                Err(_) => true,
            },
    {
        let created = match db_dir {
            Some(d) => create_scratch_dir_in(d),
            None => create_scratch_dir(),
        };
        let mut scratch = match created {
            Ok(d) => d,
            Err(e) => {
                return Err(StoreError::Io(e));
            },
        };
        let dir_path = match scratch_dir_path(&scratch) {
            Some(p) => p,
            None => {
                return Err(StoreError::Path);
            },
        };
        let location = store_file_in(dir_path.as_str());
        let (env, map_size) = match open_environment(location.as_str()) {
            Ok(p) => p,
            Err(e) => {
                return Err(StoreError::Lmdb(e));
            },
        };
        let db = match open_main_db(&env) {
            Ok(d) => d,
            Err(e) => {
                return Err(StoreError::Lmdb(e));
            },
        };
        if keep_temp_db {
            retain_on_drop(&mut scratch);
        }
        Ok(CoordinateStorage { env, db, map_size, scratch, location, retained: keep_temp_db, scratch_dir: dir_path })
    }

    /// The scratch directory holding the store file.
    pub closed spec fn spec_scratch_dir(&self) -> String {
        self.scratch_dir
    }

    /// The path of the store file.
    pub closed spec fn spec_location(&self) -> String {
        self.location
    }

    /// The size limit the store file was opened with.
    pub closed spec fn spec_map_size(&self) -> u64 {
        self.map_size
    }

    /// The scratch directory that is kept after the store is dropped, if any.
    pub closed spec fn retained_location(&self) -> Option<String> {
        if self.retained {
            Some(self.scratch_dir)
        } else {
            None
        }
    }

    /// The scratch directory holding the store file.
    pub fn scratch_dir(&self) -> (r: &String)
        ensures
            *r == self.spec_scratch_dir(),
    {
        &self.scratch_dir
    }

    /// The path of the store file.
    pub fn location(&self) -> (r: &String)
        ensures
            *r == self.spec_location(),
    {
        &self.location
    }

    /// The size limit the store file was opened with.
    pub fn map_size(&self) -> (r: u64)
        ensures
            r == self.spec_map_size(),
    {
        self.map_size
    }

    /// The scratch directory that is kept after the store is dropped, if any.
    pub fn retained_path(&self) -> (r: Option<&String>)
        ensures
            match r {
                Some(p) => self.retained_location() == Some(*p),
                None => self.retained_location() is None,
            },
    {
        if self.retained {
            Some(&self.scratch_dir)
        } else {
            None
        }
    }

    /// Stores one position under `node_id`.
    pub fn store_node(&self, node_id: i64, lat: i32, lon: i32) -> (r: Result<(), StoreError>) {
        let nodes: Vec<(i64, i32, i32)> = vec![(node_id, lat, lon)];
        self.store_nodes(nodes.as_slice())
    }

    /// Stores every `(id, lat, lon)` in one transaction; a later entry for
    /// the same id replaces an earlier one.
    pub fn store_nodes(&self, nodes: &[(i64, i32, i32)]) -> (r: Result<(), StoreError>) {
        let mut txn = match begin_write(&self.env) {
            Ok(t) => t,
            Err(e) => {
                return Err(StoreError::Lmdb(e));
            },
        };
        let mut i: usize = 0;
        while i < nodes.len()
            invariant
                i <= nodes@.len(),
            decreases nodes@.len() - i,
        {
            let (id, lat, lon) = nodes[i];
            let key = key_bytes(id);
            let value = value_bytes(Coord { lat, lon });
            match put_value(&mut txn, self.db, key.as_slice(), value.as_slice()) {
                Ok(()) => {},
                Err(e) => {
                    return Err(StoreError::Lmdb(e));
                },
            }
            i = i + 1;
        }
        match commit_write(txn) {
            Ok(()) => Ok(()),
            Err(e) => Err(StoreError::Lmdb(e)),
        }
    }

    /// The position stored under `node_id`; none when absent or malformed.
    pub fn get_node(&self, node_id: i64) -> (r: Result<Option<Coord>, StoreError>) {
        let ids: Vec<i64> = vec![node_id];
        match self.get_nodes(ids.as_slice()) {
            Ok(v) => Ok(v[0]),
            Err(e) => Err(e),
        }
    }

    /// One lookup per id, in the order of `node_ids`, all in one read
    /// transaction; absent and malformed values are none.
    pub fn get_nodes(&self, node_ids: &[i64]) -> (r: Result<Vec<Option<Coord>>, StoreError>)
        ensures
            match r {
                Ok(v) => v@.len() == node_ids@.len(),
                Err(_) => true,
            },
    {
        let txn = match begin_read(&self.env) {
            Ok(t) => t,
            Err(e) => {
                return Err(StoreError::Lmdb(e));
            },
        };
        let mut result: Vec<Option<Coord>> = Vec::new();
        let mut i: usize = 0;
        while i < node_ids.len()
            invariant
                i <= node_ids@.len(),
                result@.len() == i,
            decreases node_ids@.len() - i,
        {
            let key = key_bytes(node_ids[i]);
            match lookup_outcome(read_value(&txn, self.db, key.as_slice())) {
                Ok(c) => result.push(c),
                Err(e) => {
                    return Err(e);
                },
            }
            i = i + 1;
        }
        Ok(result)
    }

    /// Forces written data to stable storage.
    pub fn sync(&self) -> (r: Result<(), StoreError>) {
        match sync_environment(&self.env, true) {
            Ok(()) => Ok(()),
            Err(e) => Err(StoreError::Lmdb(e)),
        }
    }
}


/// The lookups to use after a bulk read of `n` ids: what the read returned,
/// or, when the store could not be read, `n` unresolved ids.
pub fn lookups_or_unresolved(res: Result<Vec<Option<Coord>>, StoreError>, n: usize) -> (r: Vec<Option<Coord>>)
    ensures
        match res {
            Ok(v) => r@ == v@,
            Err(_) => r@ == Seq::new(n as nat, |i: int| None::<Coord>),
        },
{
    match res {
        Ok(v) => v,
        Err(_) => {
            let mut v: Vec<Option<Coord>> = Vec::new();
            let mut i: usize = 0;
            while i < n
                invariant
                    i <= n,
                    v@ == Seq::new(i as nat, |k: int| None::<Coord>),
                decreases n - i,
            {
                v.push(None);
                i = i + 1;
                assert(v@ =~= Seq::new(i as nat, |k: int| None::<Coord>));
            }
            v
        },
    }
}

/// The point ids whose positions give an element its shape in the two-pass
/// strategy: a way's points, a relation's member points, none for a point.
pub open spec fn spec_lookup_ids(e: OsmElement) -> Seq<i64> {
    match e {
        OsmElement::Node(_) => Seq::empty(),
        OsmElement::Way(w) => w.node_refs@,
        OsmElement::Relation(r) => node_member_ids(r.members@),
    }
}

/// The point ids to read from the store for `e`.
pub fn lookup_ids(e: &OsmElement) -> (r: Vec<i64>)
    ensures
        r@ == spec_lookup_ids(*e),
{
    match e {
        OsmElement::Node(_) => Vec::new(),
        OsmElement::Way(w) => {
            let r = w.node_refs.clone();
            assert(r@ =~= w.node_refs@);
            r
        },
        OsmElement::Relation(rel) => node_members(rel),
    }
}

/// What is written for `e` in the two-pass strategy, given the lookups of its
/// `lookup_ids`: nothing when it is not selected, a point plainly, and a way
/// or relation with the shape of the positions found.
pub fn transform_with_lookups(
    e: &OsmElement,
    filter: &Option<Vec<Vec<String>>>,
    lookups: &Vec<Option<Coord>>,
) -> (r: Option<Shape>)
    requires
        e.wf(),
    ensures
        r is Some <==> spec_selected(*e, filter_view(*filter)),
        match r {
            Some(sh) => match *e {
                OsmElement::Node(_) => sh == Shape::Plain,
                _ => is_shape_of(sh, present(lookups@)),
            },
            None => true,
        },
{
    if !is_selected(e, filter) {
        return None;
    }
    match e {
        OsmElement::Node(_) => Some(Shape::Plain),
        _ => Some(shape_from_lookups(lookups)),
    }
}

/// What is written for `e` in the two-pass strategy, with positions read
/// from the store: ways from their points, relations from their member
/// points. Whatever the store returns, the shape is that of one lookup per
/// id of `lookup_ids`; a failed read leaves every id unresolved.
pub fn transform_with_store(
    e: &OsmElement,
    filter: &Option<Vec<Vec<String>>>,
    storage: &CoordinateStorage,
) -> (r: Option<Shape>)
    requires
        e.wf(),
    ensures
        r is Some <==> spec_selected(*e, filter_view(*filter)),
        match r {
            Some(sh) => match *e {
                OsmElement::Node(_) => sh == Shape::Plain,
                _ => exists|l: Seq<Option<Coord>>|
                    l.len() == spec_lookup_ids(*e).len() && #[trigger] is_shape_of(sh, present(l)),
            },
            None => true,
        },
{
    let ids = lookup_ids(e);
    let read = storage.get_nodes(ids.as_slice());
    let lookups = lookups_or_unresolved(read, ids.len());
    let r = transform_with_lookups(e, filter, &lookups);
    match r {
        Some(sh) => {
            match e {
                OsmElement::Node(_) => {},
                _ => {
                    assert(is_shape_of(sh, present(lookups@)));
                },
            }
        },
        None => {},
    }
    r
}

} // verus!
