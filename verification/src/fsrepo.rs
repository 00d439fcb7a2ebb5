//! The filesystem-backed repository: a directory of executables with
//! JSON sidecar descriptors, and a content-addressed descriptor cache.
//!
//! A program `id` maps to the executable `<root>/<id>` and the sidecar
//! `<root>/<id>.json`. The cache holds one slot per id, keyed by the
//! sidecar's content fingerprint: only a fresh read whose digest differs
//! from the cached one causes a re-parse; there is no time-based expiry
//! and no eviction.

use vstd::prelude::*;

use crate::channel::NamedPipe;
use crate::codec::decode_spec;
use crate::decode::decode_descriptor;
use crate::descriptor::{ProgramInfo, ProgramModel};
use crate::repo::{CheckCompletion, Repo, RepoError};
use crate::sys;
use crate::sys::{sha256_hex, utf8_chars};
use tokio::process::Child;
use vstd::string::StringExecFns;

verus! {

impl CheckCompletion for Child {
    fn is_program_finished(&mut self) -> bool {
        sys::child_try_wait_ok(self)
    }
}

/// What the sidecar bytes denote: the descriptor they decode to, if
/// they are UTF-8 and canonical.
pub open spec fn decode_of(bytes: Seq<u8>) -> Option<ProgramModel> {
    match utf8_chars(bytes) {
        Some(text) => decode_spec(text),
        None => None,
    }
}

/// The cache as a map from id to (descriptor, fingerprint); a later
/// entry for the same id wins.
pub open spec fn cache_map(entries: Seq<(String, (ProgramInfo, String))>) -> Map<
    Seq<char>,
    (ProgramModel, Seq<char>),
>
    decreases entries.len(),
{
    if entries.len() == 0 {
        Map::empty()
    } else {
        cache_map(entries.drop_last()).insert(
            entries.last().0@,
            (entries.last().1.0@, entries.last().1.1@),
        )
    }
}

/// One lookup step over the cache model: the typed outcome and the
/// cache afterwards, as a function of the cache, the id, and the
/// sidecar bytes read.
pub open spec fn lookup_step(
    cache: Map<Seq<char>, (ProgramModel, Seq<char>)>,
    id: Seq<char>,
    bytes: Seq<u8>,
) -> (Result<(ProgramModel, Seq<char>), RepoError>, Map<Seq<char>, (ProgramModel, Seq<char>)>) {
    let fp = sha256_hex(bytes);
    if cache.contains_key(id) && cache[id].1 == fp {
        (Ok(cache[id]), cache)
    } else {
        match decode_of(bytes) {
            Some(d) => (Ok((d, fp)), cache.insert(id, (d, fp))),
            None => (Err(RepoError::MalformedDescriptor), cache),
        }
    }
}

/// The model of an executable lookup result.
pub open spec fn res_view(r: Result<(ProgramInfo, String), RepoError>) -> Result<
    (ProgramModel, Seq<char>),
    RepoError,
> {
    match r {
        Ok(p) => Ok((p.0@, p.1@)),
        Err(e) => Err(e),
    }
}

/// What `get_program` guarantees: either nothing could be read and the
/// cache is untouched, or the outcome is one lookup step over whatever
/// bytes the sidecar held.
pub open spec fn get_program_post(
    old_cache: Map<Seq<char>, (ProgramModel, Seq<char>)>,
    id: Seq<char>,
    res: Result<(ProgramModel, Seq<char>), RepoError>,
    new_cache: Map<Seq<char>, (ProgramModel, Seq<char>)>,
) -> bool {
    ||| (res == Err::<(ProgramModel, Seq<char>), RepoError>(RepoError::NotFound) && new_cache
        == old_cache)
    ||| (exists|bytes: Seq<u8>|
        res == #[trigger] lookup_step(old_cache, id, bytes).0 && new_cache == lookup_step(
            old_cache,
            id,
            bytes,
        ).1)
}

/// A name of the sidecar shape: it ends in `.json`.
pub open spec fn is_sidecar_name(name: Seq<char>) -> bool {
    name.len() >= 5 && name[name.len() - 5] == '.' && name[name.len() - 4] == 'j' && name[name.len()
        - 3] == 's' && name[name.len() - 2] == 'o' && name[name.len() - 1] == 'n'
}

/// A directory's own `.` or `..` entry.
pub open spec fn is_dot_entry(name: Seq<char>) -> bool {
    name =~= "."@ || name =~= ".."@
}

fn has_sidecar_suffix(name: &String) -> (b: bool)
    ensures
        b == is_sidecar_name(name@),
{
    let v = sys::chars_of(name.as_str());
    let n = v.len();
    if n < 5 {
        return false;
    }
    v[n - 5] == '.' && v[n - 4] == 'j' && v[n - 3] == 's' && v[n - 2] == 'o' && v[n - 1] == 'n'
}

fn is_dot_name(name: &String) -> (b: bool)
    ensures
        b == is_dot_entry(name@),
{
    let v = sys::chars_of(name.as_str());
    proof {
        reveal_strlit(".");
        reveal_strlit("..");
    }
    if v.len() == 1 && v[0] == '.' {
        proof {
            assert(name@ =~= "."@);
        }
        true
    } else if v.len() == 2 && v[0] == '.' && v[1] == '.' {
        proof {
            assert(name@ =~= ".."@);
        }
        true
    } else {
        proof {
            assert(!is_dot_entry(name@));
        }
        false
    }
}

/// The names of a listing, as character sequences.
pub open spec fn ids_view(v: Seq<String>) -> Seq<Seq<char>> {
    v.map_values(|s: String| s@)
}

/// A listing entry that stands for a program: neither a dot entry nor a
/// sidecar.
pub open spec fn keep_name(n: Seq<char>) -> bool {
    !is_dot_entry(n) && !is_sidecar_name(n)
}

/// A listing filtered to its program ids, order kept.
pub open spec fn kept_ids(names: Seq<Seq<char>>) -> Seq<Seq<char>>
    decreases names.len(),
{
    if names.len() == 0 {
        Seq::empty()
    } else {
        let rest = kept_ids(names.drop_last());
        if keep_name(names.last()) {
            rest.push(names.last())
        } else {
            rest
        }
    }
}

/// Filters a raw directory listing down to program ids: dot entries and
/// sidecar names are dropped, everything else is kept in order.
pub fn filter_program_ids(names: &Vec<String>) -> (r: Vec<String>)
    ensures
        ids_view(r@) == kept_ids(ids_view(names@)),
        forall|m: int| 0 <= m < r@.len() ==> !is_sidecar_name((#[trigger] r@[m])@),
{
    let ghost nv = ids_view(names@);
    let mut out: Vec<String> = Vec::new();
    let mut k: usize = 0;
    while k < names.len()
        invariant
            k <= names@.len(),
            nv == ids_view(names@),
            nv.len() == names@.len(),
            ids_view(out@) == kept_ids(nv.take(k as int)),
            forall|m: int| 0 <= m < out@.len() ==> !is_sidecar_name((#[trigger] out@[m])@),
        decreases names@.len() - k,
    {
        let name = &names[k];
        proof {
            assert(nv[k as int] == names@[k as int]@);
            assert(nv.take(k as int + 1).drop_last() =~= nv.take(k as int));
            assert(nv.take(k as int + 1).last() == nv[k as int]);
        }
        if !is_dot_name(name) && !has_sidecar_suffix(name) {
            let ghost prev = out@;
            out.push(name.clone());
            proof {
                assert(ids_view(out@) =~= ids_view(prev).push(nv[k as int])) by {
                    assert(ids_view(prev).len() == prev.len());
                    assert forall|m: int|
                        0 <= m < out@.len() implies ids_view(out@)[m] == ids_view(prev).push(
                        nv[k as int],
                    )[m] by {
                        assert(ids_view(out@)[m] == out@[m]@);
                        if m < prev.len() {
                            assert(out@[m] == prev[m]);
                            assert(ids_view(prev)[m] == prev[m]@);
                        }
                    }
                }
            }
        }
        k += 1;
    }
    proof {
        assert(nv.take(nv.len() as int) =~= nv);
    }
    out
}

// ---------------------------------------------------------------------
// Cache lemmas: the map model of the entry list.
// ---------------------------------------------------------------------

proof fn lemma_cache_absent(s: Seq<(String, (ProgramInfo, String))>, k: Seq<char>)
    requires
        forall|j: int| 0 <= j < s.len() ==> (#[trigger] s[j].0)@ != k,
    ensures
        !cache_map(s).contains_key(k),
    decreases s.len(),
{
    if s.len() > 0 {
        assert(s.last() == s[s.len() - 1]);
        assert(forall|j: int| 0 <= j < s.drop_last().len() ==> s.drop_last()[j] == s[j]);
        lemma_cache_absent(s.drop_last(), k);
    }
}

proof fn lemma_cache_found(s: Seq<(String, (ProgramInfo, String))>, k: Seq<char>, idx: int)
    requires
        0 <= idx < s.len(),
        s[idx].0@ == k,
        forall|j: int| idx < j < s.len() ==> (#[trigger] s[j].0)@ != k,
    ensures
        cache_map(s).contains_key(k),
        cache_map(s)[k] == (s[idx].1.0@, s[idx].1.1@),
    decreases s.len(),
{
    assert(s.last() == s[s.len() - 1]);
    if idx == s.len() - 1 {
    } else {
        assert(forall|j: int| 0 <= j < s.drop_last().len() ==> s.drop_last()[j] == s[j]);
        lemma_cache_found(s.drop_last(), k, idx);
        assert(s[s.len() - 1].0@ != k);
    }
}

proof fn lemma_cache_push(
    s: Seq<(String, (ProgramInfo, String))>,
    e: (String, (ProgramInfo, String)),
)
    ensures
        cache_map(s.push(e)) == cache_map(s).insert(e.0@, (e.1.0@, e.1.1@)),
{
    assert(s.push(e).drop_last() =~= s);
    assert(s.push(e).last() == e);
}

// ---------------------------------------------------------------------
// The repository.
// ---------------------------------------------------------------------

/// A repository rooted at one directory, with its per-instance
/// content-addressed descriptor cache.
pub struct DirectoryRepo {
    path: String,
    cache: Vec<(String, (ProgramInfo, String))>,
}

impl DirectoryRepo {
    /// The repository's root directory.
    pub closed spec fn spec_root(&self) -> Seq<char> {
        self.path@
    }

    /// The cache contents, as a map from id to (descriptor, fingerprint).
    pub closed spec fn cache_view(&self) -> Map<Seq<char>, (ProgramModel, Seq<char>)> {
        cache_map(self.cache@)
    }

    /// A repository over the given root directory, with an empty cache.
    pub fn new(path: String) -> (r: DirectoryRepo)
        ensures
            r.spec_root() == path@,
            r.cache_view() =~= Map::<Seq<char>, (ProgramModel, Seq<char>)>::empty(),
    {
        DirectoryRepo { path, cache: Vec::new() }
    }

    /// The root directory, for callers that assemble paths themselves.
    pub fn root(&self) -> (r: &String)
        ensures
            r@ == self.spec_root(),
    {
        &self.path
    }

    /// The cached entry for an id: the one a later insertion wins.
    fn cache_get(&self, program: &String) -> (r: Option<(ProgramInfo, String)>)
        ensures
            (match r {
                Some(p) => self.cache_view().contains_key(program@) && self.cache_view()[program@]
                    == (p.0@, p.1@),
                None => !self.cache_view().contains_key(program@),
            }),
    {
        let n = self.cache.len();
        let mut idx: usize = n;
        while idx > 0
            invariant
                idx <= n,
                n == self.cache@.len(),
                forall|j: int| idx <= j < n ==> (#[trigger] self.cache@[j].0)@ != program@,
            decreases idx,
        {
            idx = idx - 1;
            if self.cache[idx].0 == *program {
                let hit = &self.cache[idx].1;
                proof {
                    lemma_cache_found(self.cache@, program@, idx as int);
                }
                return Some((hit.0.clone(), hit.1.clone()));
            }
        }
        proof {
            lemma_cache_absent(self.cache@, program@);
        }
        None
    }

    /// One lookup over given sidecar bytes: serves the cached descriptor
    /// when the fingerprint is unchanged, re-parses and refreshes the
    /// cache slot when it differs, and touches nothing on a parse
    /// failure.
    pub fn lookup_bytes(&mut self, program: &String, bytes: &Vec<u8>) -> (r: Result<
        (ProgramInfo, String),
        RepoError,
    >)
        ensures
            res_view(r) == lookup_step(old(self).cache_view(), program@, bytes@).0,
            final(self).cache_view() == lookup_step(old(self).cache_view(), program@, bytes@).1,
            final(self).spec_root() == old(self).spec_root(),
    {
        let fp = sys::sha256_hex_of(bytes);
        match self.cache_get(program) {
            Some((cached, cached_fp)) => {
                if cached_fp == fp {
                    return Ok((cached, cached_fp));
                }
            },
            None => {},
        }
        match sys::utf8_to_string(bytes) {
            Some(text) => match decode_descriptor(text.as_str()) {
                Some(info) => {
                    let entry = (program.clone(), (info.clone(), fp.clone()));
                    proof {
                        lemma_cache_push(self.cache@, entry);
                    }
                    self.cache.push(entry);
                    Ok((info, fp))
                },
                None => Err(RepoError::MalformedDescriptor),
            },
            None => Err(RepoError::MalformedDescriptor),
        }
    }

    /// The sidecar path for an id: `<root>/<id>.json`.
    fn sidecar_path(&self, program: &String) -> (r: String)
        ensures
            r@ == self.spec_root() + "/"@ + program@ + ".json"@,
    {
        let mut p = self.path.clone();
        p.append("/");
        p.append(program.as_str());
        p.append(".json");
        p
    }

    /// The executable path for an id: `<root>/<id>`.
    fn program_path(&self, program: &String) -> (r: String)
        ensures
            r@ == self.spec_root() + "/"@ + program@,
    {
        let mut p = self.path.clone();
        p.append("/");
        p.append(program.as_str());
        p
    }
}

/// The whole contents of one file, if it can be opened and read whole;
/// a file beyond the generous size cap counts as unreadable.
fn read_file_bytes(path: &String) -> Option<Vec<u8>> {
    let fd = match sys::open_rdonly(path) {
        Some(fd) => fd,
        None => {
            return None;
        },
    };
    let mut out: Vec<u8> = Vec::new();
    let mut rounds: usize = 262144;
    while rounds > 0
        decreases rounds,
    {
        match sys::fd_read_chunk(fd) {
            Some(chunk) => {
                if chunk.len() == 0 {
                    sys::fd_close(fd);
                    return Some(out);
                }
                let mut c = chunk;
                out.append(&mut c);
            },
            None => {
                sys::fd_close(fd);
                return None;
            },
        }
        rounds -= 1;
    }
    sys::fd_close(fd);
    None
}

/// Every channel of the batch is released; used on the failure paths.
fn release_all(chs: Vec<(String, NamedPipe)>) {
    let mut rest = chs;
    while rest.len() > 0
        decreases rest@.len(),
    {
        match rest.pop() {
            Some((_, pipe)) => {
                pipe.release();
            },
            None => {},
        }
    }
}

/// Whether some already-created channel uses this path.
fn contains_path(chs: &Vec<(String, NamedPipe)>, p: &String) -> (b: bool)
    ensures
        b == exists|k: int| 0 <= k < chs@.len() && (#[trigger] chs@[k].1).spec_path() == p@,
{
    let mut k: usize = 0;
    while k < chs.len()
        invariant
            k <= chs@.len(),
            forall|m: int| 0 <= m < k ==> (#[trigger] chs@[m].1).spec_path() != p@,
        decreases chs@.len() - k,
    {
        if *chs[k].1.path() == *p {
            return true;
        }
        k += 1;
    }
    false
}

/// All backing paths across the two channel batches are distinct.
pub open spec fn paths_distinct(a: Seq<(String, NamedPipe)>, b: Seq<(String, NamedPipe)>) -> bool {
    forall|i: int, j: int|
        0 <= i < j < (a + b).len() ==> ((a + b)[i].1).spec_path() != ((a + b)[j].1).spec_path()
}

/// The channel batch is keyed exactly by the table's names, in order.
pub open spec fn keys_match(
    chs: Seq<(String, NamedPipe)>,
    entries: Seq<(Seq<char>, crate::descriptor::InterfaceModel)>,
) -> bool {
    chs.len() == entries.len() && forall|k: int|
        0 <= k < chs.len() ==> (#[trigger] chs[k].0)@ == entries[k].0
}

impl Repo for DirectoryRepo {
    type InPipe = NamedPipe;

    type Checker = Child;

    type OutPipe = NamedPipe;

    /// Reads the sidecar and performs one cache-aware lookup; `NotFound`
    /// when the sidecar cannot be read, with the cache untouched.
    fn get_program(&mut self, program: &String) -> (r: Result<(ProgramInfo, String), RepoError>)
        ensures
            get_program_post(
                old(self).cache_view(),
                program@,
                res_view(r),
                final(self).cache_view(),
            ),
            final(self).spec_root() == old(self).spec_root(),
    {
        let meta = self.sidecar_path(program);
        match read_file_bytes(&meta) {
            Some(bytes) => {
                let r = self.lookup_bytes(program, &bytes);
                proof {
                    let step = lookup_step(old(self).cache_view(), program@, bytes@);
                    assert(res_view(r) == step.0 && final(self).cache_view() == step.1);
                }
                r
            },
            None => Err(RepoError::NotFound),
        }
    }

    /// Allocates one fresh channel per declared input and output, sets
    /// one environment variable per interface (named exactly as the
    /// interface, holding the channel's path; if an input and an output
    /// share a name, the output's entry wins, it is set later), and
    /// spawns `<root>/<id>`. On any failure every channel created for
    /// this invocation is released first.
    fn exec_program(&self, program: &String, info: &ProgramInfo) -> (r: Result<
        (Vec<(String, NamedPipe)>, Child, Vec<(String, NamedPipe)>),
        RepoError,
    >)
        ensures
            (match r {
                Ok(t) => keys_match(t.0@, info@.inputs) && keys_match(t.2@, info@.outputs)
                    && paths_distinct(t.0@, t.2@),
                Err(e) => e == RepoError::SpawnFailure || e == RepoError::ChannelInitFailure,
            }),
    {
        let exe = self.program_path(program);
        let mut cmd = sys::command_new(&exe);
        let mut ins: Vec<(String, NamedPipe)> = Vec::new();
        let mut k: usize = 0;
        while k < info.inputs.len()
            invariant
                k <= info.inputs@.len(),
                ins@.len() == k,
                forall|m: int| 0 <= m < k ==> (#[trigger] ins@[m].0)@ == info@.inputs[m].0,
                forall|i: int, j: int|
                    0 <= i < j < k ==> ((#[trigger] ins@[i].1).spec_path()) != ((
                    #[trigger] ins@[j].1).spec_path()),
            decreases info.inputs@.len() - k,
        {
            let pipe = match NamedPipe::new() {
                Ok(p) => p,
                Err(_) => {
                    release_all(ins);
                    return Err(RepoError::ChannelInitFailure);
                },
            };
            if contains_path(&ins, pipe.path()) {
                pipe.release();
                release_all(ins);
                return Err(RepoError::ChannelInitFailure);
            }
            sys::command_env(&mut cmd, &info.inputs[k].0, pipe.path());
            let name = info.inputs[k].0.clone();
            ins.push((name, pipe));
            k += 1;
        }
        let mut outs: Vec<(String, NamedPipe)> = Vec::new();
        let mut k2: usize = 0;
        while k2 < info.outputs.len()
            invariant
                k2 <= info.outputs@.len(),
                outs@.len() == k2,
                ins@.len() == info@.inputs.len(),
                forall|m: int| 0 <= m < ins@.len() ==> (#[trigger] ins@[m].0)@ == info@.inputs[m].0,
                forall|m: int| 0 <= m < k2 ==> (#[trigger] outs@[m].0)@ == info@.outputs[m].0,
                forall|i: int, j: int|
                    0 <= i < j < (ins@ + outs@).len() ==> (((ins@ + outs@)[i].1).spec_path()) != ((
                    (ins@ + outs@)[j].1).spec_path()),
            decreases info.outputs@.len() - k2,
        {
            let pipe = match NamedPipe::new() {
                Ok(p) => p,
                Err(_) => {
                    release_all(ins);
                    release_all(outs);
                    return Err(RepoError::ChannelInitFailure);
                },
            };
            if contains_path(&ins, pipe.path()) || contains_path(&outs, pipe.path()) {
                pipe.release();
                release_all(ins);
                release_all(outs);
                return Err(RepoError::ChannelInitFailure);
            }
            sys::command_env(&mut cmd, &info.outputs[k2].0, pipe.path());
            let name = info.outputs[k2].0.clone();
            let ghost prev = outs@;
            outs.push((name, pipe));
            proof {
                assert forall|i: int, j: int|
                    0 <= i < j < (ins@ + outs@).len() implies (((ins@ + outs@)[i].1).spec_path())
                    != (((ins@ + outs@)[j].1).spec_path()) by {
                    if j < (ins@ + prev).len() {
                        assert((ins@ + outs@)[i] == (ins@ + prev)[i]);
                        assert((ins@ + outs@)[j] == (ins@ + prev)[j]);
                    } else {
                        assert((ins@ + outs@)[j].1 == outs@[outs@.len() - 1].1);
                        if i < ins@.len() {
                            assert((ins@ + outs@)[i] == ins@[i]);
                        } else {
                            assert((ins@ + outs@)[i] == prev[i - ins@.len()]);
                        }
                    }
                }
            }
            k2 += 1;
        }
        match sys::command_spawn(&mut cmd) {
            Some(child) => {
                proof {
                    assert(ins@ + outs@ == ins@ + outs@);
                }
                Ok((ins, child, outs))
            },
            None => {
                release_all(ins);
                release_all(outs);
                Err(RepoError::SpawnFailure)
            },
        }
    }

    /// Lists the root directory, dropping the directory's own dot
    /// entries and every sidecar; a listed id is not thereby known to
    /// be a valid program.
    fn ls_programs(&self) -> (r: Result<Vec<String>, RepoError>)
        ensures
            (match r {
                Ok(ids) => forall|k: int|
                    0 <= k < ids@.len() ==> !crate::fsrepo::is_sidecar_name(#[trigger] ids@[k]@),
                Err(e) => e == RepoError::NotFound,
            }),
    {
        let names = match sys::list_dir(&self.path) {
            Some(names) => names,
            None => {
                return Err(RepoError::NotFound);
            },
        };
        Ok(filter_program_ids(&names))
    }
}

// ---------------------------------------------------------------------
// Laws of the lookup step.
// ---------------------------------------------------------------------

/// The same bytes always carry the same fingerprint: the digest is a
/// function of the sidecar bytes alone.
pub proof fn lemma_fingerprint_deterministic(a: Seq<u8>, b: Seq<u8>)
    requires
        a == b,
    ensures
        sha256_hex(a) == sha256_hex(b),
{
}

/// Looking the same sidecar bytes up twice is idempotent: the second
/// step returns the same outcome and leaves the cache exactly as the
/// first step left it.
pub proof fn lemma_lookup_idempotent(
    cache: Map<Seq<char>, (ProgramModel, Seq<char>)>,
    id: Seq<char>,
    bytes: Seq<u8>,
)
    ensures
        lookup_step(lookup_step(cache, id, bytes).1, id, bytes).0 == lookup_step(
            cache,
            id,
            bytes,
        ).0,
        lookup_step(lookup_step(cache, id, bytes).1, id, bytes).1 == lookup_step(
            cache,
            id,
            bytes,
        ).1,
{
}

/// When the sidecar bytes change to ones with a different digest that
/// decode, the next lookup returns the new descriptor under the new
/// fingerprint — never the stale cache entry — and refreshes the slot.
pub proof fn lemma_lookup_sees_change(
    cache: Map<Seq<char>, (ProgramModel, Seq<char>)>,
    id: Seq<char>,
    b1: Seq<u8>,
    b2: Seq<u8>,
)
    requires
        sha256_hex(b2) != sha256_hex(b1),
        lookup_step(cache, id, b1).0 is Ok,
        decode_of(b2) is Some,
    ensures
        lookup_step(lookup_step(cache, id, b1).1, id, b2).0 == Ok::<
            (ProgramModel, Seq<char>),
            RepoError,
        >((decode_of(b2)->Some_0, sha256_hex(b2))),
        lookup_step(lookup_step(cache, id, b1).1, id, b2).1[id] == (
            decode_of(b2)->Some_0,
            sha256_hex(b2),
        ),
{
    let c1 = lookup_step(cache, id, b1).1;
    assert(c1.contains_key(id) && c1[id].1 == sha256_hex(b1));
}

} // verus!
