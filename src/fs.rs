use vstd::prelude::*;
use crate::extract::{
    class_digit, class_of, first_group, opt_view, pattern_accepted, ConfigError, StatusExtractor,
};
use crate::render::{render, rendered};
use vstd::utf8::encode_utf8;
use crate::window::{pushed, minute_spec, Counters, CounterWindow, LATEST_SECS};

verus! {

/// Identifier of the root directory.
pub const INO_DIR: u64 = 1;

/// Identifier of the pretty stats file.
pub const INO_PRETTY_STATS: u64 = 2;

/// Identifier of the stats file.
pub const INO_STATS: u64 = 3;

/// Permission bits of every entry.
pub const PERMISSIONS: u16 = 0o777;

/// Block size that attributes report.
pub const BLOCK_SIZE: u64 = 512;

/// Why a filesystem call is refused.
#[derive(Clone, Copy, Debug, PartialEq, Eq, Structural)]
pub enum FsError {
    /// No such entry.
    EntryNotFound,
}

/// The kind of an entry.
#[derive(Clone, Copy, Debug, PartialEq, Eq, Structural)]
pub enum EntryKind {
    Directory,
    RegularFile,
}

/// The attributes of an entry; times are seconds since the epoch.
#[derive(Clone, Copy, Debug, PartialEq, Eq, Structural)]
pub struct EntryAttr {
    pub ino: u64,
    pub size: u64,
    pub blocks: u64,
    pub kind: EntryKind,
    pub perm: u16,
    pub nlink: u32,
    pub created: u64,
    pub modified: u64,
}

/// One entry of a directory listing; `offset` is the cursor that resumes after it.
pub struct DirEntry {
    pub ino: u64,
    pub offset: i64,
    pub kind: EntryKind,
    pub name: Vec<u8>,
}

/// Number of 512-byte blocks that `size` bytes take.
pub open spec fn blocks_for(size: nat) -> nat {
    (size + 511) as nat / 512
}

fn blocks_of(size: u64) -> (r: u64)
    ensures
        r == blocks_for(size as nat),
{
    size / BLOCK_SIZE + if size % BLOCK_SIZE != 0 { 1 } else { 0 }
}

/// The attributes of the root directory.
pub open spec fn dir_attr_spec() -> EntryAttr {
    EntryAttr {
        ino: INO_DIR,
        size: 0,
        blocks: 0,
        kind: EntryKind::Directory,
        perm: PERMISSIONS,
        nlink: 2,
        created: 0,
        modified: 0,
    }
}

/// The attributes of the root directory.
pub fn dir_attr() -> (r: EntryAttr)
    ensures
        r == dir_attr_spec(),
{
    EntryAttr {
        ino: INO_DIR,
        size: 0,
        blocks: 0,
        kind: EntryKind::Directory,
        perm: PERMISSIONS,
        nlink: 2,
        created: 0,
        modified: 0,
    }
}

/// `pretty_` followed by `name`.
pub open spec fn pretty_name_of(name: Seq<u8>) -> Seq<u8> {
    seq![0x70u8, 0x72u8, 0x65u8, 0x74u8, 0x74u8, 0x79u8, 0x5fu8] + name
}

/// A directory listing entry as plain values: identifier, kind and name.
pub open spec fn listed(ino: u64, kind: EntryKind, name: Seq<u8>) -> (u64, EntryKind, Seq<u8>) {
    (ino, kind, name)
}

fn copy_bytes(s: &[u8]) -> (r: Vec<u8>)
    ensures
        r@ == s@,
{
    let mut out: Vec<u8> = Vec::new();
    let mut i: usize = 0;
    while i < s.len()
        invariant
            i <= s@.len(),
            out@ == s@.subrange(0, i as int),
        decreases s@.len() - i,
    {
        out.push(s[i]);
        i = i + 1;
        assert(out@ =~= s@.subrange(0, i as int));
    }
    assert(s@.subrange(0, i as int) =~= s@);
    out
}

fn same_bytes(a: &[u8], b: &[u8]) -> (r: bool)
    ensures
        r == (a@ == b@),
{
    if a.len() != b.len() {
        return false;
    }
    let mut i: usize = 0;
    while i < a.len()
        invariant
            i <= a@.len(),
            a@.len() == b@.len(),
            forall|j: int| 0 <= j < i ==> a@[j] == b@[j],
        decreases a@.len() - i,
    {
        if a[i] != b[i] {
            return false;
        }
        i = i + 1;
    }
    assert(a@ =~= b@);
    true
}

/// The counters exposed as a filesystem: a root directory holding the stats file and,
/// when enabled, the pretty stats file.
pub struct CounterFS {
    counters: CounterWindow,
    extractor: StatusExtractor,
    file_name: Vec<u8>,
    pretty_file_name: Option<Vec<u8>>,
    created: u64,
    modified: u64,
}

impl CounterFS {
    pub closed spec fn wf(&self) -> bool {
        &&& self.counters.wf()
        &&& match self.pretty_file_name {
            Some(p) => p@ == pretty_name_of(self.file_name@),
            None => true,
        }
    }

    /// The buckets, oldest first.
    pub closed spec fn window(&self) -> Seq<Counters> {
        self.counters@
    }

    /// The most buckets that are kept.
    pub closed spec fn capacity(&self) -> nat {
        self.counters.capacity_spec()
    }

    /// The pattern that classifies writes.
    pub closed spec fn pattern(&self) -> Seq<char> {
        self.extractor.pattern_spec()
    }

    /// The name of the stats file, as UTF-8 bytes.
    pub closed spec fn stats_name(&self) -> Seq<u8> {
        self.file_name@
    }

    /// Whether the pretty stats file exists.
    pub closed spec fn has_pretty(&self) -> bool {
        self.pretty_file_name is Some
    }

    /// When the filesystem was made.
    pub closed spec fn created_at(&self) -> u64 {
        self.created
    }

    /// When an observation was last counted (at first, when the filesystem was made).
    pub closed spec fn modified_at(&self) -> u64 {
        self.modified
    }

    /// The content of the stats file (`pretty == false`) or the pretty stats file.
    pub open spec fn content(&self, pretty: bool) -> Seq<u8> {
        rendered(self.window(), pretty)
    }

    /// Whether `ino` names an existing file, and which one.
    pub open spec fn file_of(&self, ino: u64) -> Option<bool> {
        if ino == INO_STATS {
            Some(false)
        } else if ino == INO_PRETTY_STATS && self.has_pretty() {
            Some(true)
        } else {
            None
        }
    }

    /// The attributes of a file, its size recomputed from its content.
    pub open spec fn file_attr(&self, pretty: bool) -> EntryAttr {
        let size = self.content(pretty).len();
        EntryAttr {
            ino: if pretty { INO_PRETTY_STATS } else { INO_STATS },
            size: size as u64,
            blocks: blocks_for(size) as u64,
            kind: EntryKind::RegularFile,
            perm: PERMISSIONS,
            nlink: 1,
            created: self.created_at(),
            modified: self.modified_at(),
        }
    }

    /// The entries of the root directory, in listing order.
    pub open spec fn listing(&self) -> Seq<(u64, EntryKind, Seq<u8>)> {
        let base = seq![
            listed(INO_DIR, EntryKind::Directory, seq![0x2eu8]),
            listed(INO_DIR, EntryKind::Directory, seq![0x2eu8, 0x2eu8]),
            listed(INO_STATS, EntryKind::RegularFile, self.stats_name()),
        ];
        if self.has_pretty() {
            base.push(listed(INO_PRETTY_STATS, EntryKind::RegularFile, pretty_name_of(self.stats_name())))
        } else {
            base
        }
    }

    /// The filesystem with stats file `file_name`, the pretty file when `has_pretty`,
    /// a window of `time_points` minutes and the status-code pattern `regex_status_code`,
    /// made at `now_secs`. The window starts with one empty bucket for that minute.
    pub fn new(
        file_name: String,
        has_pretty: bool,
        time_points: u16,
        regex_status_code: String,
        now_secs: u64,
    ) -> (r: Result<CounterFS, ConfigError>)
        requires
            now_secs <= LATEST_SECS,
        ensures
            time_points == 0 ==> r == Err::<CounterFS, ConfigError>(ConfigError::EmptyWindow),
            time_points > 0 && !pattern_accepted(regex_status_code@) ==> r == Err::<
                CounterFS,
                ConfigError,
            >(ConfigError::InvalidPattern),
            time_points > 0 && pattern_accepted(regex_status_code@) ==> r is Ok,
            r matches Ok(fs) ==> {
                &&& fs.wf()
                &&& fs.window() == seq![Counters::empty(minute_spec(now_secs))]
                &&& fs.capacity() == time_points as nat
                &&& fs.pattern() == regex_status_code@
                &&& fs.stats_name() == encode_utf8(file_name@)
                &&& fs.has_pretty() == has_pretty
                &&& fs.created_at() == now_secs
                &&& fs.modified_at() == now_secs
            },
    {
        if time_points == 0 {
            return Err(ConfigError::EmptyWindow);
        }
        let extractor = match StatusExtractor::new(regex_status_code.as_str()) {
            Ok(ex) => ex,
            Err(e) => {
                return Err(e);
            },
        };
        let name = copy_bytes(file_name.as_str().as_bytes());
        let pretty_file_name = if has_pretty {
            let mut p: Vec<u8> = vec![0x70u8, 0x72u8, 0x65u8, 0x74u8, 0x74u8, 0x79u8, 0x5fu8];
            let mut i: usize = 0;
            while i < name.len()
                invariant
                    i <= name@.len(),
                    p@ == seq![0x70u8, 0x72u8, 0x65u8, 0x74u8, 0x74u8, 0x79u8, 0x5fu8]
                        + name@.subrange(0, i as int),
                decreases name@.len() - i,
            {
                p.push(name[i]);
                i = i + 1;
                assert(p@ =~= seq![0x70u8, 0x72u8, 0x65u8, 0x74u8, 0x74u8, 0x79u8, 0x5fu8]
                    + name@.subrange(0, i as int));
            }
            assert(name@.subrange(0, i as int) =~= name@);
            Some(p)
        } else {
            None
        };
        Ok(CounterFS {
            counters: CounterWindow::new(time_points as usize, now_secs),
            extractor,
            file_name: name,
            pretty_file_name,
            created: now_secs,
            modified: now_secs,
        })
    }

    /// The buckets, oldest first.
    pub fn buckets(&self) -> (r: &Vec<Counters>)
        requires
            self.wf(),
        ensures
            r@ == self.window(),
    {
        self.counters.snapshot()
    }

    /// The content of the stats file.
    pub fn get_stats_parseable(&self) -> (r: Vec<u8>)
        requires
            self.wf(),
        ensures
            r@ == self.content(false),
    {
        render(self.counters.snapshot(), false)
    }

    /// The content of the pretty stats file.
    pub fn get_stats_pretty(&self) -> (r: Vec<u8>)
        requires
            self.wf(),
        ensures
            r@ == self.content(true),
    {
        render(self.counters.snapshot(), true)
    }

    fn attr_of(&self, pretty: bool) -> (r: EntryAttr)
        requires
            self.wf(),
        ensures
            r == self.file_attr(pretty),
    {
        let content = render(self.counters.snapshot(), pretty);
        let size = content.len() as u64;
        EntryAttr {
            ino: if pretty { INO_PRETTY_STATS } else { INO_STATS },
            size,
            blocks: blocks_of(size),
            kind: EntryKind::RegularFile,
            perm: PERMISSIONS,
            nlink: 1,
            created: self.created,
            modified: self.modified,
        }
    }

    /// The attributes of the entry `name` under `parent`: the stats file or, when it
    /// exists, the pretty stats file; no other name and no other parent is found.
    pub fn lookup(&self, parent: u64, name: &[u8]) -> (r: Result<EntryAttr, FsError>)
        requires
            self.wf(),
        ensures
            parent == INO_DIR && name@ == self.stats_name() ==> r == Ok::<EntryAttr, FsError>(
                self.file_attr(false),
            ),
            parent == INO_DIR && self.has_pretty() && name@ == pretty_name_of(self.stats_name())
                ==> r == Ok::<EntryAttr, FsError>(self.file_attr(true)),
            !(parent == INO_DIR && (name@ == self.stats_name() || (self.has_pretty() && name@
                == pretty_name_of(self.stats_name())))) ==> r == Err::<EntryAttr, FsError>(
                FsError::EntryNotFound,
            ),
    {
        if parent != INO_DIR {
            return Err(FsError::EntryNotFound);
        }
        if same_bytes(name, self.file_name.as_slice()) {
            return Ok(self.attr_of(false));
        }
        match &self.pretty_file_name {
            Some(p) => {
                if same_bytes(name, p.as_slice()) {
                    return Ok(self.attr_of(true));
                }
            },
            None => {},
        }
        Err(FsError::EntryNotFound)
    }

    /// The attributes of the entry `ino`.
    pub fn getattr(&self, ino: u64) -> (r: Result<EntryAttr, FsError>)
        requires
            self.wf(),
        ensures
            ino == INO_DIR ==> r == Ok::<EntryAttr, FsError>(dir_attr_spec()),
            ino != INO_DIR ==> r == match self.file_of(ino) {
                Some(pretty) => Ok::<EntryAttr, FsError>(self.file_attr(pretty)),
                None => Err(FsError::EntryNotFound),
            },
    {
        if ino == INO_DIR {
            Ok(dir_attr())
        } else if ino == INO_STATS {
            Ok(self.attr_of(false))
        } else if ino == INO_PRETTY_STATS && self.pretty_file_name.is_some() {
            Ok(self.attr_of(true))
        } else {
            Err(FsError::EntryNotFound)
        }
    }

    /// The content of file `ino` from byte `offset` on; empty where `offset` is at or
    /// past its end.
    pub fn read(&self, ino: u64, offset: u64) -> (r: Result<Vec<u8>, FsError>)
        requires
            self.wf(),
        ensures
            match self.file_of(ino) {
                Some(pretty) => (r matches Ok(v) && v@ == read_from(self.content(pretty), offset as nat)),
                None => r == Err::<Vec<u8>, FsError>(FsError::EntryNotFound),
            },
    {
        let content = if ino == INO_STATS {
            self.get_stats_parseable()
        } else if ino == INO_PRETTY_STATS && self.pretty_file_name.is_some() {
            self.get_stats_pretty()
        } else {
            return Err(FsError::EntryNotFound);
        };
        let mut out: Vec<u8> = Vec::new();
        let len = content.len();
        let mut i: usize = if offset < len as u64 { offset as usize } else { len };
        let start = i;
        while i < len
            invariant
                start <= i <= len,
                len == content@.len(),
                out@ == content@.subrange(start as int, i as int),
            decreases len - i,
        {
            out.push(content[i]);
            i = i + 1;
            assert(out@ =~= content@.subrange(start as int, i as int));
        }
        Ok(out)
    }

    /// Counts the observation that `capture` selects, made at `now_secs`; a capture
    /// that selects no class changes nothing.
    pub fn record(&mut self, capture: &Option<Vec<u8>>, now_secs: u64)
        requires
            old(self).wf(),
            now_secs <= LATEST_SECS,
        ensures
            final(self).wf(),
            final(self).capacity() == old(self).capacity(),
            final(self).pattern() == old(self).pattern(),
            final(self).stats_name() == old(self).stats_name(),
            final(self).has_pretty() == old(self).has_pretty(),
            final(self).created_at() == old(self).created_at(),
            match class_of(opt_view(*capture)) {
                Some(d) => {
                    &&& final(self).window() == pushed(
                        old(self).window(),
                        old(self).capacity(),
                        d,
                        minute_spec(now_secs),
                    )
                    &&& final(self).modified_at() == now_secs
                },
                None => final(self).window() == old(self).window() && final(self).modified_at()
                    == old(self).modified_at(),
            },
    {
        match class_digit(capture) {
            Some(d) => {
                self.counters.push(d, now_secs);
                self.modified = now_secs;
            },
            None => {},
        }
    }

    /// Writes `payload` to file `ino` at `now_secs`. Only the stats file takes writes:
    /// the status code that the pattern captures in `payload` is counted, a payload
    /// that it does not classify changes nothing, and every byte is reported written.
    pub fn write(&mut self, ino: u64, payload: &[u8], now_secs: u64) -> (r: Result<usize, FsError>)
        requires
            old(self).wf(),
            now_secs <= LATEST_SECS,
        ensures
            final(self).wf(),
            final(self).capacity() == old(self).capacity(),
            final(self).pattern() == old(self).pattern(),
            final(self).stats_name() == old(self).stats_name(),
            final(self).has_pretty() == old(self).has_pretty(),
            final(self).created_at() == old(self).created_at(),
            ino != INO_STATS ==> r == Err::<usize, FsError>(FsError::EntryNotFound),
            ino != INO_STATS ==> final(self).window() == old(self).window(),
            ino != INO_STATS ==> final(self).modified_at() == old(self).modified_at(),
            ino == INO_STATS ==> r == Ok::<usize, FsError>(payload@.len() as usize),
            ino == INO_STATS ==> final(self).window() == match class_of(
                first_group(old(self).pattern(), payload@),
            ) {
                Some(d) => pushed(old(self).window(), old(self).capacity(), d, minute_spec(now_secs)),
                None => old(self).window(),
            },
            ino == INO_STATS ==> final(self).modified_at() == match class_of(
                first_group(old(self).pattern(), payload@),
            ) {
                Some(d) => now_secs,
                None => old(self).modified_at(),
            },
    {
        if ino != INO_STATS {
            return Err(FsError::EntryNotFound);
        }
        let capture = self.extractor.extract(payload);
        self.record(&capture, now_secs);
        Ok(payload.len())
    }

    /// The entries of directory `ino` from cursor `offset` on: `.`, `..`, the stats
    /// file and, when it exists, the pretty stats file.
    pub fn readdir(&self, ino: u64, offset: i64) -> (r: Result<Vec<DirEntry>, FsError>)
        requires
            self.wf(),
        ensures
            ino != INO_DIR ==> r is Err && r->Err_0 == FsError::EntryNotFound,
            ino == INO_DIR ==> r is Ok,
            r matches Ok(v) ==> v@.len() == self.listing().len() - skipped(self.listing().len(), offset),
            r matches Ok(v) ==> forall|i: int|
                #![trigger v@[i]]
                0 <= i < v@.len() ==> listed(v@[i].ino, v@[i].kind, v@[i].name@)
                    == self.listing()[skipped(self.listing().len(), offset) + i],
            r matches Ok(v) ==> forall|i: int|
                #![trigger v@[i]]
                0 <= i < v@.len() ==> v@[i].offset == skipped(self.listing().len(), offset) + i + 1,
    {
        if ino != INO_DIR {
            return Err(FsError::EntryNotFound);
        }
        let ghost all = self.listing();
        let mut names: Vec<(u64, EntryKind, Vec<u8>)> = Vec::new();
        names.push((INO_DIR, EntryKind::Directory, vec![0x2eu8]));
        names.push((INO_DIR, EntryKind::Directory, vec![0x2eu8, 0x2eu8]));
        names.push((INO_STATS, EntryKind::RegularFile, copy_bytes(self.file_name.as_slice())));
        match &self.pretty_file_name {
            Some(p) => {
                names.push((INO_PRETTY_STATS, EntryKind::RegularFile, copy_bytes(p.as_slice())));
            },
            None => {},
        }
        assert(names@.len() == all.len());
        assert(forall|j: int|
            0 <= j < names@.len() ==> listed(#[trigger] names@[j].0, names@[j].1, names@[j].2@) == all[j]);
        let n = names.len();
        let mut i: usize = if offset <= 0 {
            0
        } else if offset as u64 >= n as u64 {
            n
        } else {
            offset as usize
        };
        let start = i;
        assert(start == skipped(all.len(), offset));
        let mut out: Vec<DirEntry> = Vec::new();
        while i < n
            invariant
                start <= i <= n,
                start == skipped(all.len(), offset),
                all == self.listing(),
                n == names@.len(),
                n == all.len(),
                n <= 4,
                out@.len() == i - start,
                forall|j: int|
                    0 <= j < names@.len() ==> listed(#[trigger] names@[j].0, names@[j].1, names@[j].2@) == all[j],
                forall|j: int|
                    #![trigger out@[j]]
                    0 <= j < out@.len() ==> {
                        &&& listed(out@[j].ino, out@[j].kind, out@[j].name@) == all[start + j]
                        &&& out@[j].offset == start + j + 1
                    },
            decreases n - i,
        {
            let entry = &names[i];
            let ghost before = out@;
            let e = DirEntry {
                ino: entry.0,
                offset: (i + 1) as i64,
                kind: entry.1,
                name: copy_bytes(entry.2.as_slice()),
            };
            assert(listed(e.ino, e.kind, e.name@) == all[i as int]) by {
                assert(listed(names@[i as int].0, names@[i as int].1, names@[i as int].2@) == all[i as int]);
            }
            out.push(e);
            assert(forall|j: int| 0 <= j < before.len() ==> out@[j] == before[j]);
            assert(out@[out@.len() - 1] == e);
            i = i + 1;
        }
        assert(out@.len() == all.len() - start);
        assert(forall|k: int|
            #![trigger out@[k]]
            0 <= k < out@.len() ==> {
                &&& listed(out@[k].ino, out@[k].kind, out@[k].name@) == all[start + k]
                &&& out@[k].offset == start + k + 1
            });
        Ok(out)
    }
}

/// The bytes of `content` from `offset` on; none where `offset` is at or past its end.
pub open spec fn read_from(content: Seq<u8>, offset: nat) -> Seq<u8> {
    if offset < content.len() {
        content.subrange(offset as int, content.len() as int)
    } else {
        seq![]
    }
}

/// How many listing entries a cursor `offset` passes over.
pub open spec fn skipped(n: nat, offset: i64) -> int {
    if offset <= 0 {
        0
    } else if offset >= n {
        n as int
    } else {
        offset as int
    }
}

/// A file's content is a function of the window alone: two reads with no write between
/// them see the same bytes.
pub proof fn lemma_content_stable(a: &CounterFS, b: &CounterFS, pretty: bool, offset: nat)
    requires
        a.window() == b.window(),
    ensures
        a.content(pretty) == b.content(pretty),
        read_from(a.content(pretty), offset) == read_from(b.content(pretty), offset),
{
}

/// A payload that the pattern does not match selects no class, so that a write of it
/// leaves the window as it was.
pub proof fn lemma_unmatched_payload_ignored(fs: &CounterFS, payload: Seq<u8>)
    requires
        first_group(fs.pattern(), payload) is None,
    ensures
        class_of(first_group(fs.pattern(), payload)) is None,
{
}

} // verus!
