//! The undo log: an ordered, append-only account of every mutation an
//! installation performed, one record per completed task, kept per kind so
//! that rollback can undo the kinds in a dependency-respecting order.

use vstd::prelude::*;

use crate::file_system::{views_of_names, AbsolutePath, FileName};

verus! {

use vstd::bytes::{
    lemma_auto_spec_u64_to_from_le_bytes, spec_u64_from_le_bytes, spec_u64_to_le_bytes,
    u64_from_le_bytes, u64_to_le_bytes,
};
use vstd::slice::slice_subrange;

/// Evidence that a directory was created at the recorded path.
#[derive(Debug, Clone, PartialEq, Eq)]
pub struct DirectoryRecord(AbsolutePath);

impl View for DirectoryRecord {
    type V = Seq<Seq<u8>>;

    closed spec fn view(&self) -> Seq<Seq<u8>> {
        self.0@
    }
}

impl DirectoryRecord {
    pub fn new(path: AbsolutePath) -> (r: Self)
        ensures
            r@ == path@,
    {
        DirectoryRecord(path)
    }

    pub fn path(&self) -> (r: &AbsolutePath)
        ensures
            r@ == self@,
    {
        &self.0
    }
}

/// Evidence that a file was written at the recorded path.
#[derive(Debug, Clone, PartialEq, Eq)]
pub struct FileRecord(AbsolutePath);

impl View for FileRecord {
    type V = Seq<Seq<u8>>;

    closed spec fn view(&self) -> Seq<Seq<u8>> {
        self.0@
    }
}

impl FileRecord {
    pub fn new(path: AbsolutePath) -> (r: Self)
        ensures
            r@ == path@,
    {
        FileRecord(path)
    }

    pub fn path(&self) -> (r: &AbsolutePath)
        ensures
            r@ == self@,
    {
        &self.0
    }
}

/// Evidence that a link was created at the recorded path.
#[derive(Debug, Clone, PartialEq, Eq)]
pub struct LinkRecord(AbsolutePath);

impl View for LinkRecord {
    type V = Seq<Seq<u8>>;

    closed spec fn view(&self) -> Seq<Seq<u8>> {
        self.0@
    }
}

impl LinkRecord {
    pub fn new(path: AbsolutePath) -> (r: Self)
        ensures
            r@ == path@,
    {
        LinkRecord(path)
    }

    pub fn path(&self) -> (r: &AbsolutePath)
        ensures
            r@ == self@,
    {
        &self.0
    }
}

/// Evidence that an environment entry was set; its attributes are an
/// extension point and carry no data yet.
#[derive(Debug, Clone, PartialEq, Eq)]
pub struct EnvRecord {}

/// The mathematical content of a recorder: the ordered path sequences per
/// kind, and the number of environment records.
pub struct RecorderView {
    pub dirs: Seq<Seq<Seq<u8>>>,
    pub files: Seq<Seq<Seq<u8>>>,
    pub links: Seq<Seq<Seq<u8>>>,
    pub envs: nat,
}

impl RecorderView {
    /// The recorder with nothing recorded.
    pub open spec fn empty() -> RecorderView {
        RecorderView { dirs: Seq::empty(), files: Seq::empty(), links: Seq::empty(), envs: 0 }
    }

    /// How many records the recorder holds in all.
    pub open spec fn total(self) -> nat {
        self.dirs.len() + self.files.len() + self.links.len() + self.envs
    }
}

/// The ordered undo log of one installation attempt.
#[derive(Debug, Clone, PartialEq, Eq)]
pub struct Recorder {
    dir_records: Vec<DirectoryRecord>,
    file_records: Vec<FileRecord>,
    link_records: Vec<LinkRecord>,
    env_records: Vec<EnvRecord>,
}

/// The views of a sequence of directory records.
pub open spec fn views_of_dir_records(s: Seq<DirectoryRecord>) -> Seq<Seq<Seq<u8>>> {
    s.map_values(|r: DirectoryRecord| r@)
}

/// The views of a sequence of file records.
pub open spec fn views_of_file_records(s: Seq<FileRecord>) -> Seq<Seq<Seq<u8>>> {
    s.map_values(|r: FileRecord| r@)
}

/// The views of a sequence of link records.
pub open spec fn views_of_link_records(s: Seq<LinkRecord>) -> Seq<Seq<Seq<u8>>> {
    s.map_values(|r: LinkRecord| r@)
}

impl View for Recorder {
    type V = RecorderView;

    closed spec fn view(&self) -> RecorderView {
        RecorderView {
            dirs: views_of_dir_records(self.dir_records@),
            files: views_of_file_records(self.file_records@),
            links: views_of_link_records(self.link_records@),
            envs: self.env_records@.len(),
        }
    }
}

impl Recorder {
    /// An empty recorder with room reserved for the expected record counts.
    pub fn with_capacity(dir: usize, file: usize, link: usize, env: usize) -> (r: Self)
        ensures
            r@ == RecorderView::empty(),
    {
        let r = Recorder {
            dir_records: Vec::with_capacity(dir),
            file_records: Vec::with_capacity(file),
            link_records: Vec::with_capacity(link),
            env_records: Vec::with_capacity(env),
        };
        proof {
            assert(r@.dirs =~= Seq::<Seq<Seq<u8>>>::empty());
            assert(r@.files =~= Seq::<Seq<Seq<u8>>>::empty());
            assert(r@.links =~= Seq::<Seq<Seq<u8>>>::empty());
        }
        r
    }

    /// Appends the evidence of one created directory.
    pub fn record_directory(&mut self, record: DirectoryRecord)
        ensures
            final(self)@ == (RecorderView { dirs: old(self)@.dirs.push(record@), ..old(self)@ }),
    {
        let ghost rv = record@;
        let ghost before = self.dir_records@;
        self.dir_records.push(record);
        proof {
            assert(views_of_dir_records(before.push(record)) =~= views_of_dir_records(before).push(
                rv,
            ));
        }
    }

    /// Appends the evidence of one written file.
    pub fn record_file(&mut self, record: FileRecord)
        ensures
            final(self)@ == (RecorderView { files: old(self)@.files.push(record@), ..old(self)@ }),
    {
        let ghost rv = record@;
        let ghost before = self.file_records@;
        self.file_records.push(record);
        proof {
            assert(views_of_file_records(before.push(record))
                =~= views_of_file_records(before).push(rv));
        }
    }

    /// Appends the evidence of one created link.
    pub fn record_link(&mut self, record: LinkRecord)
        ensures
            final(self)@ == (RecorderView { links: old(self)@.links.push(record@), ..old(self)@ }),
    {
        let ghost rv = record@;
        let ghost before = self.link_records@;
        self.link_records.push(record);
        proof {
            assert(views_of_link_records(before.push(record))
                =~= views_of_link_records(before).push(rv));
        }
    }

    /// Appends the evidence of one environment mutation.
    pub fn record_env(&mut self, record: EnvRecord)
        ensures
            final(self)@ == (RecorderView { envs: old(self)@.envs + 1, ..old(self)@ }),
    {
        self.env_records.push(record);
    }

    /// The number of directory records.
    pub fn dir_count(&self) -> (r: usize)
        ensures
            r == self@.dirs.len(),
    {
        self.dir_records.len()
    }

    /// The number of file records.
    pub fn file_count(&self) -> (r: usize)
        ensures
            r == self@.files.len(),
    {
        self.file_records.len()
    }

    /// The number of link records.
    pub fn link_count(&self) -> (r: usize)
        ensures
            r == self@.links.len(),
    {
        self.link_records.len()
    }

    /// The number of environment records.
    pub fn env_count(&self) -> (r: usize)
        ensures
            r == self@.envs,
    {
        self.env_records.len()
    }

    /// The recorded directory paths, oldest first.
    pub fn dir_paths(&self) -> (r: &Vec<DirectoryRecord>)
        ensures
            views_of_dir_records(r@) == self@.dirs,
    {
        &self.dir_records
    }

    /// The recorded file paths, oldest first.
    pub fn file_paths(&self) -> (r: &Vec<FileRecord>)
        ensures
            views_of_file_records(r@) == self@.files,
    {
        &self.file_records
    }

    /// The recorded link paths, oldest first.
    pub fn link_paths(&self) -> (r: &Vec<LinkRecord>)
        ensures
            views_of_link_records(r@) == self@.links,
    {
        &self.link_records
    }
}

// --- The binary form of a recorder ---
//
// A length-prefixed encoding: every count and length is eight
// little-endian bytes. A byte string is its length then its bytes; a path
// is its component count then its components; a record section is its
// record count then its records; the whole recorder is the directory,
// file and link sections followed by the environment-record count. The
// decoder is written out as a specification function, the executable
// decoder is proved to agree with it, and decoding is proved to invert
// encoding, so the form round-trips with no loss of record order.

/// The encoding of one byte string.
pub open spec fn enc_bytes(b: Seq<u8>) -> Seq<u8> {
    spec_u64_to_le_bytes(b.len() as u64) + b
}

/// The encodings of a path's components, in order.
pub open spec fn enc_path_items(p: Seq<Seq<u8>>) -> Seq<u8>
    decreases p.len(),
{
    if p.len() == 0 {
        Seq::empty()
    } else {
        enc_bytes(p[0]) + enc_path_items(p.drop_first())
    }
}

/// The encoding of one path.
pub open spec fn enc_path(p: Seq<Seq<u8>>) -> Seq<u8> {
    spec_u64_to_le_bytes(p.len() as u64) + enc_path_items(p)
}

/// The encodings of a section's paths, in order.
pub open spec fn enc_paths_items(ps: Seq<Seq<Seq<u8>>>) -> Seq<u8>
    decreases ps.len(),
{
    if ps.len() == 0 {
        Seq::empty()
    } else {
        enc_path(ps[0]) + enc_paths_items(ps.drop_first())
    }
}

/// The encoding of one record section.
pub open spec fn enc_paths(ps: Seq<Seq<Seq<u8>>>) -> Seq<u8> {
    spec_u64_to_le_bytes(ps.len() as u64) + enc_paths_items(ps)
}

/// The encoding of a whole recorder.
pub open spec fn enc_recorder(v: RecorderView) -> Seq<u8> {
    enc_paths(v.dirs) + enc_paths(v.files) + enc_paths(v.links) + spec_u64_to_le_bytes(
        v.envs as u64,
    )
}

/// Every count in the view fits the eight-byte fields of the encoding. Any
/// recorder actually held in memory is bounded.
pub open spec fn bounded_path(p: Seq<Seq<u8>>) -> bool {
    p.len() <= u64::MAX && forall|i: int| 0 <= i < p.len() ==> (#[trigger] p[i]).len() <= u64::MAX
}

pub open spec fn bounded_paths(ps: Seq<Seq<Seq<u8>>>) -> bool {
    ps.len() <= u64::MAX && forall|i: int| 0 <= i < ps.len() ==> bounded_path(#[trigger] ps[i])
}

pub open spec fn bounded_recorder(v: RecorderView) -> bool {
    bounded_paths(v.dirs) && bounded_paths(v.files) && bounded_paths(v.links) && v.envs
        <= u64::MAX
}

/// Reading one eight-byte count at `pos`.
pub open spec fn dec_u64(d: Seq<u8>, pos: int) -> Option<(u64, int)> {
    if pos + 8 <= d.len() {
        Option::Some((spec_u64_from_le_bytes(d.subrange(pos, pos + 8)), pos + 8))
    } else {
        Option::None
    }
}

/// Reading one length-prefixed byte string at `pos`.
pub open spec fn dec_bytes(d: Seq<u8>, pos: int) -> Option<(Seq<u8>, int)> {
    match dec_u64(d, pos) {
        Option::None => Option::None,
        Option::Some((n, p1)) => {
            if p1 + n <= d.len() {
                Option::Some((d.subrange(p1, p1 + n), p1 + n))
            } else {
                Option::None
            }
        },
    }
}

/// Reading `k` more components of a path, after the ones in `acc`.
pub open spec fn dec_path_items(d: Seq<u8>, pos: int, k: nat, acc: Seq<Seq<u8>>) -> Option<
    (Seq<Seq<u8>>, int),
>
    decreases k,
{
    if k == 0 {
        Option::Some((acc, pos))
    } else {
        match dec_bytes(d, pos) {
            Option::None => Option::None,
            Option::Some((b, p1)) => dec_path_items(d, p1, (k - 1) as nat, acc.push(b)),
        }
    }
}

/// Reading one path at `pos`.
pub open spec fn dec_path(d: Seq<u8>, pos: int) -> Option<(Seq<Seq<u8>>, int)> {
    match dec_u64(d, pos) {
        Option::None => Option::None,
        Option::Some((n, p1)) => dec_path_items(d, p1, n as nat, Seq::empty()),
    }
}

/// Reading `k` more paths of a section, after the ones in `acc`.
pub open spec fn dec_paths_items(d: Seq<u8>, pos: int, k: nat, acc: Seq<Seq<Seq<u8>>>) -> Option<
    (Seq<Seq<Seq<u8>>>, int),
>
    decreases k,
{
    if k == 0 {
        Option::Some((acc, pos))
    } else {
        match dec_path(d, pos) {
            Option::None => Option::None,
            Option::Some((p, p1)) => dec_paths_items(d, p1, (k - 1) as nat, acc.push(p)),
        }
    }
}

/// Reading one record section at `pos`.
pub open spec fn dec_paths(d: Seq<u8>, pos: int) -> Option<(Seq<Seq<Seq<u8>>>, int)> {
    match dec_u64(d, pos) {
        Option::None => Option::None,
        Option::Some((n, p1)) => dec_paths_items(d, p1, n as nat, Seq::empty()),
    }
}

/// Reading a whole recorder; the data must hold exactly one encoding.
pub open spec fn dec_recorder(d: Seq<u8>) -> Option<RecorderView> {
    match dec_paths(d, 0) {
        Option::None => Option::None,
        Option::Some((dirs, p1)) => match dec_paths(d, p1) {
            Option::None => Option::None,
            Option::Some((files, p2)) => match dec_paths(d, p2) {
                Option::None => Option::None,
                Option::Some((links, p3)) => match dec_u64(d, p3) {
                    Option::None => Option::None,
                    Option::Some((envs, p4)) => {
                        if p4 == d.len() {
                            Option::Some(
                                RecorderView { dirs, files, links, envs: envs as nat },
                            )
                        } else {
                            Option::None
                        }
                    },
                },
            },
        },
    }
}

/// Appending one more component extends the component encoding at the end.
proof fn lemma_enc_path_items_snoc(p: Seq<Seq<u8>>, x: Seq<u8>)
    ensures
        enc_path_items(p.push(x)) == enc_path_items(p) + enc_bytes(x),
    decreases p.len(),
{
    if p.len() == 0 {
        assert(p.push(x)[0] == x);
        assert(p.push(x).drop_first() =~= Seq::<Seq<u8>>::empty());
        assert(enc_path_items(Seq::<Seq<u8>>::empty()) == Seq::<u8>::empty());
        assert(enc_bytes(x) + Seq::<u8>::empty() =~= enc_bytes(x));
        assert(Seq::<u8>::empty() + enc_bytes(x) =~= enc_bytes(x));
    } else {
        assert(p.push(x)[0] == p[0]);
        assert(p.push(x).drop_first() =~= p.drop_first().push(x));
        lemma_enc_path_items_snoc(p.drop_first(), x);
        assert(enc_bytes(p[0]) + (enc_path_items(p.drop_first()) + enc_bytes(x)) =~= (enc_bytes(
            p[0],
        ) + enc_path_items(p.drop_first())) + enc_bytes(x));
    }
}

/// Appending one more path extends the section encoding at the end.
proof fn lemma_enc_paths_items_snoc(ps: Seq<Seq<Seq<u8>>>, x: Seq<Seq<u8>>)
    ensures
        enc_paths_items(ps.push(x)) == enc_paths_items(ps) + enc_path(x),
    decreases ps.len(),
{
    if ps.len() == 0 {
        assert(ps.push(x)[0] == x);
        assert(ps.push(x).drop_first() =~= Seq::<Seq<Seq<u8>>>::empty());
        assert(enc_paths_items(Seq::<Seq<Seq<u8>>>::empty()) == Seq::<u8>::empty());
        assert(enc_path(x) + Seq::<u8>::empty() =~= enc_path(x));
        assert(Seq::<u8>::empty() + enc_path(x) =~= enc_path(x));
    } else {
        assert(ps.push(x)[0] == ps[0]);
        assert(ps.push(x).drop_first() =~= ps.drop_first().push(x));
        lemma_enc_paths_items_snoc(ps.drop_first(), x);
        assert(enc_path(ps[0]) + (enc_paths_items(ps.drop_first()) + enc_path(x)) =~= (enc_path(
            ps[0],
        ) + enc_paths_items(ps.drop_first())) + enc_path(x));
    }
}

/// Where the data holds the encoding of a byte string, the decoder reads
/// back exactly that byte string.
proof fn lemma_dec_bytes_enc(d: Seq<u8>, pos: int, b: Seq<u8>)
    requires
        0 <= pos,
        b.len() <= u64::MAX,
        pos + enc_bytes(b).len() <= d.len(),
        d.subrange(pos, pos + enc_bytes(b).len()) == enc_bytes(b),
    ensures
        dec_bytes(d, pos) == Option::Some((b, pos + enc_bytes(b).len())),
{
    lemma_auto_spec_u64_to_from_le_bytes();
    let lenb = spec_u64_to_le_bytes(b.len() as u64);
    assert(enc_bytes(b).len() == 8 + b.len());
    assert(d.subrange(pos, pos + 8) =~= lenb) by {
        assert forall|i: int| 0 <= i < 8 implies d.subrange(pos, pos + 8)[i] == lenb[i] by {
            assert(d.subrange(pos, pos + enc_bytes(b).len())[i] == enc_bytes(b)[i]);
        }
    }
    assert(spec_u64_from_le_bytes(lenb) == b.len() as u64);
    assert(d.subrange(pos + 8, pos + 8 + b.len()) =~= b) by {
        assert forall|i: int| 0 <= i < b.len() implies d.subrange(pos + 8, pos + 8 + b.len())[i]
            == b[i] by {
            assert(d.subrange(pos, pos + enc_bytes(b).len())[8 + i] == enc_bytes(b)[8 + i]);
        }
    }
}

/// Where the data holds the component encodings of a path, the decoder
/// reads back exactly those components, appended to what it already had.
proof fn lemma_dec_path_items_enc(d: Seq<u8>, pos: int, p: Seq<Seq<u8>>, acc: Seq<Seq<u8>>)
    requires
        0 <= pos,
        forall|i: int| 0 <= i < p.len() ==> (#[trigger] p[i]).len() <= u64::MAX,
        pos + enc_path_items(p).len() <= d.len(),
        d.subrange(pos, pos + enc_path_items(p).len()) == enc_path_items(p),
    ensures
        dec_path_items(d, pos, p.len(), acc) == Option::Some(
            (acc + p, pos + enc_path_items(p).len()),
        ),
    decreases p.len(),
{
    if p.len() == 0 {
        assert(acc + p =~= acc);
    } else {
        let e0 = enc_bytes(p[0]);
        let rest = p.drop_first();
        assert(enc_path_items(p) == e0 + enc_path_items(rest));
        assert(d.subrange(pos, pos + e0.len()) =~= e0) by {
            assert forall|i: int| 0 <= i < e0.len() implies d.subrange(pos, pos + e0.len())[i]
                == e0[i] by {
                assert(d.subrange(pos, pos + enc_path_items(p).len())[i] == enc_path_items(p)[i]);
            }
        }
        lemma_dec_bytes_enc(d, pos, p[0]);
        let p1 = pos + e0.len();
        assert(d.subrange(p1, p1 + enc_path_items(rest).len()) =~= enc_path_items(rest)) by {
            assert forall|i: int| 0 <= i < enc_path_items(rest).len() implies d.subrange(
                p1,
                p1 + enc_path_items(rest).len(),
            )[i] == enc_path_items(rest)[i] by {
                assert(d.subrange(pos, pos + enc_path_items(p).len())[e0.len() + i]
                    == enc_path_items(p)[e0.len() + i]);
            }
        }
        assert(forall|i: int| 0 <= i < rest.len() ==> (#[trigger] rest[i]).len() <= u64::MAX);
        lemma_dec_path_items_enc(d, p1, rest, acc.push(p[0]));
        assert(acc.push(p[0]) + rest =~= acc + p);
    }
}

/// Where the data holds the encoding of a path, the decoder reads back
/// exactly that path.
proof fn lemma_dec_path_enc(d: Seq<u8>, pos: int, p: Seq<Seq<u8>>)
    requires
        0 <= pos,
        bounded_path(p),
        pos + enc_path(p).len() <= d.len(),
        d.subrange(pos, pos + enc_path(p).len()) == enc_path(p),
    ensures
        dec_path(d, pos) == Option::Some((p, pos + enc_path(p).len())),
{
    lemma_auto_spec_u64_to_from_le_bytes();
    let lenb = spec_u64_to_le_bytes(p.len() as u64);
    assert(enc_path(p).len() == 8 + enc_path_items(p).len());
    assert(d.subrange(pos, pos + 8) =~= lenb) by {
        assert forall|i: int| 0 <= i < 8 implies d.subrange(pos, pos + 8)[i] == lenb[i] by {
            assert(d.subrange(pos, pos + enc_path(p).len())[i] == enc_path(p)[i]);
        }
    }
    let p1 = pos + 8;
    assert(d.subrange(p1, p1 + enc_path_items(p).len()) =~= enc_path_items(p)) by {
        assert forall|i: int| 0 <= i < enc_path_items(p).len() implies d.subrange(
            p1,
            p1 + enc_path_items(p).len(),
        )[i] == enc_path_items(p)[i] by {
            assert(d.subrange(pos, pos + enc_path(p).len())[8 + i] == enc_path(p)[8 + i]);
        }
    }
    lemma_dec_path_items_enc(d, p1, p, Seq::empty());
    assert(Seq::<Seq<u8>>::empty() + p =~= p);
}

/// Where the data holds the path encodings of a section, the decoder reads
/// back exactly those paths, appended to what it already had.
proof fn lemma_dec_paths_items_enc(d: Seq<u8>, pos: int, ps: Seq<Seq<Seq<u8>>>, acc: Seq<
    Seq<Seq<u8>>,
>)
    requires
        0 <= pos,
        forall|i: int| 0 <= i < ps.len() ==> bounded_path(#[trigger] ps[i]),
        pos + enc_paths_items(ps).len() <= d.len(),
        d.subrange(pos, pos + enc_paths_items(ps).len()) == enc_paths_items(ps),
    ensures
        dec_paths_items(d, pos, ps.len(), acc) == Option::Some(
            (acc + ps, pos + enc_paths_items(ps).len()),
        ),
    decreases ps.len(),
{
    if ps.len() == 0 {
        assert(acc + ps =~= acc);
    } else {
        let e0 = enc_path(ps[0]);
        let rest = ps.drop_first();
        assert(enc_paths_items(ps) == e0 + enc_paths_items(rest));
        assert(d.subrange(pos, pos + e0.len()) =~= e0) by {
            assert forall|i: int| 0 <= i < e0.len() implies d.subrange(pos, pos + e0.len())[i]
                == e0[i] by {
                assert(d.subrange(pos, pos + enc_paths_items(ps).len())[i] == enc_paths_items(
                    ps,
                )[i]);
            }
        }
        lemma_dec_path_enc(d, pos, ps[0]);
        let p1 = pos + e0.len();
        assert(d.subrange(p1, p1 + enc_paths_items(rest).len()) =~= enc_paths_items(rest)) by {
            assert forall|i: int| 0 <= i < enc_paths_items(rest).len() implies d.subrange(
                p1,
                p1 + enc_paths_items(rest).len(),
            )[i] == enc_paths_items(rest)[i] by {
                assert(d.subrange(pos, pos + enc_paths_items(ps).len())[e0.len() + i]
                    == enc_paths_items(ps)[e0.len() + i]);
            }
        }
        assert(forall|i: int| 0 <= i < rest.len() ==> bounded_path(#[trigger] rest[i]));
        lemma_dec_paths_items_enc(d, p1, rest, acc.push(ps[0]));
        assert(acc.push(ps[0]) + rest =~= acc + ps);
    }
}

/// Where the data holds the encoding of a section, the decoder reads back
/// exactly that section.
proof fn lemma_dec_paths_enc(d: Seq<u8>, pos: int, ps: Seq<Seq<Seq<u8>>>)
    requires
        0 <= pos,
        bounded_paths(ps),
        pos + enc_paths(ps).len() <= d.len(),
        d.subrange(pos, pos + enc_paths(ps).len()) == enc_paths(ps),
    ensures
        dec_paths(d, pos) == Option::Some((ps, pos + enc_paths(ps).len())),
{
    lemma_auto_spec_u64_to_from_le_bytes();
    let lenb = spec_u64_to_le_bytes(ps.len() as u64);
    assert(enc_paths(ps).len() == 8 + enc_paths_items(ps).len());
    assert(d.subrange(pos, pos + 8) =~= lenb) by {
        assert forall|i: int| 0 <= i < 8 implies d.subrange(pos, pos + 8)[i] == lenb[i] by {
            assert(d.subrange(pos, pos + enc_paths(ps).len())[i] == enc_paths(ps)[i]);
        }
    }
    let p1 = pos + 8;
    assert(d.subrange(p1, p1 + enc_paths_items(ps).len()) =~= enc_paths_items(ps)) by {
        assert forall|i: int| 0 <= i < enc_paths_items(ps).len() implies d.subrange(
            p1,
            p1 + enc_paths_items(ps).len(),
        )[i] == enc_paths_items(ps)[i] by {
            assert(d.subrange(pos, pos + enc_paths(ps).len())[8 + i] == enc_paths(ps)[8 + i]);
        }
    }
    lemma_dec_paths_items_enc(d, p1, ps, Seq::empty());
    assert(Seq::<Seq<Seq<u8>>>::empty() + ps =~= ps);
}

/// The round trip: decoding the encoding of any bounded recorder yields
/// back exactly that recorder — equal record count and order per kind.
pub proof fn lemma_round_trip(v: RecorderView)
    requires
        bounded_recorder(v),
    ensures
        dec_recorder(enc_recorder(v)) == Option::Some(v),
{
    lemma_auto_spec_u64_to_from_le_bytes();
    let d = enc_recorder(v);
    let a = enc_paths(v.dirs);
    let b = enc_paths(v.files);
    let c = enc_paths(v.links);
    let e = spec_u64_to_le_bytes(v.envs as u64);
    assert(d.len() == a.len() + b.len() + c.len() + 8);
    assert(d.subrange(0, a.len() as int) =~= a);
    lemma_dec_paths_enc(d, 0, v.dirs);
    let p1 = a.len() as int;
    assert(d.subrange(p1, p1 + b.len()) =~= b);
    lemma_dec_paths_enc(d, p1, v.files);
    let p2 = p1 + b.len();
    assert(d.subrange(p2, p2 + c.len()) =~= c);
    lemma_dec_paths_enc(d, p2, v.links);
    let p3 = p2 + c.len();
    assert(d.subrange(p3, p3 + 8) =~= e);
    assert(dec_u64(d, p3) == Option::Some((v.envs as u64, p3 + 8)));
}

/// The encoding is injective on bounded recorders.
pub proof fn lemma_encoding_injective(a: RecorderView, b: RecorderView)
    requires
        bounded_recorder(a),
        bounded_recorder(b),
        enc_recorder(a) == enc_recorder(b),
    ensures
        a == b,
{
    lemma_round_trip(a);
    lemma_round_trip(b);
}

/// Appends the eight little-endian bytes of one count.
fn push_u64(out: &mut Vec<u8>, x: u64)
    ensures
        final(out)@ == old(out)@ + spec_u64_to_le_bytes(x),
{
    let mut b = u64_to_le_bytes(x);
    out.append(&mut b);
}

/// Appends the encoding of one byte string.
fn push_bytes(out: &mut Vec<u8>, b: &Vec<u8>)
    ensures
        final(out)@ == old(out)@ + enc_bytes(b@),
        b@.len() <= u64::MAX,
{
    push_u64(out, b.len() as u64);
    let mut c = b.clone();
    proof {
        assert(c@ =~= b@);
    }
    out.append(&mut c);
    proof {
        assert(out@ =~= old(out)@ + enc_bytes(b@));
    }
}

/// Appends the encoding of one path.
#[verifier::loop_isolation(false)]
fn push_path(out: &mut Vec<u8>, p: &AbsolutePath)
    ensures
        final(out)@ == old(out)@ + enc_path(p@),
        bounded_path(p@),
{
    let parts = p.parts();
    push_u64(out, parts.len() as u64);
    let ghost base = out@;
    let mut i: usize = 0;
    proof {
        assert(base + enc_path_items(p@.take(0)) =~= base);
    }
    while i < parts.len()
        invariant
            0 <= i <= parts@.len(),
            out@ == base + enc_path_items(p@.take(i as int)),
            forall|j: int| 0 <= j < i ==> (#[trigger] p@[j]).len() <= u64::MAX,
        decreases parts@.len() - i,
    {
        let name = &parts[i];
        proof {
            assert(views_of_names(parts@)[i as int] == p@[i as int]);
        }
        push_bytes(out, name.as_bytes());
        proof {
            lemma_enc_path_items_snoc(p@.take(i as int), p@[i as int]);
            assert(p@.take(i + 1) =~= p@.take(i as int).push(p@[i as int]));
            assert(out@ =~= base + enc_path_items(p@.take(i + 1)));
        }
        i = i + 1;
    }
    proof {
        assert(p@.take(p@.len() as int) =~= p@);
        assert(out@ =~= old(out)@ + enc_path(p@));
    }
}

/// Reads one eight-byte count, mirroring `dec_u64`.
fn read_u64(data: &Vec<u8>, pos: usize) -> (r: Option<(u64, usize)>)
    requires
        pos <= data@.len(),
    ensures
        match r {
            Option::Some(pr) => dec_u64(data@, pos as int) == Option::Some((pr.0, pr.1 as int))
                && pos <= pr.1 <= data@.len(),
            Option::None => dec_u64(data@, pos as int) is None,
        },
{
    if data.len() - pos < 8 {
        return Option::None;
    }
    let s = slice_subrange(data.as_slice(), pos, pos + 8);
    let x = u64_from_le_bytes(s);
    Option::Some((x, pos + 8))
}

/// Reads one length-prefixed byte string, mirroring `dec_bytes`.
#[verifier::loop_isolation(false)]
fn read_bytes(data: &Vec<u8>, pos: usize) -> (r: Option<(Vec<u8>, usize)>)
    requires
        pos <= data@.len(),
    ensures
        match r {
            Option::Some(pr) => dec_bytes(data@, pos as int) == Option::Some(
                (pr.0@, pr.1 as int),
            ) && pos <= pr.1 <= data@.len(),
            Option::None => dec_bytes(data@, pos as int) is None,
        },
{
    let (n, p1) = match read_u64(data, pos) {
        Option::Some(pr) => pr,
        Option::None => {
            return Option::None;
        },
    };
    let rem = data.len() - p1;
    if n > rem as u64 {
        return Option::None;
    }
    let cnt = n as usize;
    let mut out: Vec<u8> = Vec::new();
    let mut j: usize = 0;
    proof {
        assert(out@ =~= data@.subrange(p1 as int, p1 as int));
    }
    while j < cnt
        invariant
            0 <= j <= cnt,
            p1 + cnt <= data@.len(),
            out@ == data@.subrange(p1 as int, p1 + j),
        decreases cnt - j,
    {
        out.push(data[p1 + j]);
        proof {
            assert(out@ =~= data@.subrange(p1 as int, p1 + j + 1));
        }
        j = j + 1;
    }
    Option::Some((out, p1 + cnt))
}

/// Reads one path, mirroring `dec_path`.
#[verifier::loop_isolation(false)]
fn read_path(data: &Vec<u8>, pos: usize) -> (r: Option<(AbsolutePath, usize)>)
    requires
        pos <= data@.len(),
    ensures
        match r {
            Option::Some(pr) => dec_path(data@, pos as int) == Option::Some(
                (pr.0@, pr.1 as int),
            ) && pos <= pr.1 <= data@.len(),
            Option::None => dec_path(data@, pos as int) is None,
        },
{
    let (n, p1) = match read_u64(data, pos) {
        Option::Some(pr) => pr,
        Option::None => {
            return Option::None;
        },
    };
    let mut components: Vec<FileName> = Vec::new();
    let mut cur = p1;
    let mut k: u64 = 0;
    proof {
        assert(views_of_names(components@) =~= Seq::<Seq<u8>>::empty());
    }
    while k < n
        invariant
            0 <= k <= n,
            p1 <= cur <= data@.len(),
            dec_path_items(data@, p1 as int, n as nat, Seq::empty()) == dec_path_items(
                data@,
                cur as int,
                (n - k) as nat,
                views_of_names(components@),
            ),
        decreases n - k,
    {
        let (b, p2) = match read_bytes(data, cur) {
            Option::Some(pr) => pr,
            Option::None => {
                return Option::None;
            },
        };
        let ghost before = components@;
        let name = FileName::from_raw(b);
        components.push(name);
        proof {
            assert(views_of_names(components@) =~= views_of_names(before).push(name@));
        }
        cur = p2;
        k = k + 1;
    }
    proof {
        assert(dec_path_items(data@, cur as int, 0, views_of_names(components@))
            == Option::Some((views_of_names(components@), cur as int)));
    }
    let path = AbsolutePath::from_components(components);
    Option::Some((path, cur))
}

/// Reads one record section, mirroring `dec_paths`.
#[verifier::loop_isolation(false)]
fn read_paths(data: &Vec<u8>, pos: usize) -> (r: Option<(Vec<AbsolutePath>, usize)>)
    requires
        pos <= data@.len(),
    ensures
        match r {
            Option::Some(pr) => dec_paths(data@, pos as int) == Option::Some(
                (pr.0@.map_values(|p: AbsolutePath| p@), pr.1 as int),
            ) && pos <= pr.1 <= data@.len(),
            Option::None => dec_paths(data@, pos as int) is None,
        },
{
    let (n, p1) = match read_u64(data, pos) {
        Option::Some(pr) => pr,
        Option::None => {
            return Option::None;
        },
    };
    let mut paths: Vec<AbsolutePath> = Vec::new();
    let mut cur = p1;
    let mut k: u64 = 0;
    proof {
        assert(paths@.map_values(|p: AbsolutePath| p@) =~= Seq::<Seq<Seq<u8>>>::empty());
    }
    while k < n
        invariant
            0 <= k <= n,
            p1 <= cur <= data@.len(),
            dec_paths_items(data@, p1 as int, n as nat, Seq::empty()) == dec_paths_items(
                data@,
                cur as int,
                (n - k) as nat,
                paths@.map_values(|p: AbsolutePath| p@),
            ),
        decreases n - k,
    {
        let (p, p2) = match read_path(data, cur) {
            Option::Some(pr) => pr,
            Option::None => {
                return Option::None;
            },
        };
        let ghost before = paths@;
        let ghost pv = p@;
        paths.push(p);
        proof {
            assert(paths@.map_values(|q: AbsolutePath| q@) =~= before.map_values(
                |q: AbsolutePath| q@,
            ).push(pv));
        }
        cur = p2;
        k = k + 1;
    }
    proof {
        let ghost_views = paths@.map_values(|p: AbsolutePath| p@);
        assert(dec_paths_items(data@, cur as int, 0, ghost_views) == Option::Some(
            (ghost_views, cur as int),
        ));
    }
    Option::Some((paths, cur))
}

impl Recorder {
    /// Serializes the log to its compact binary form. Everything a
    /// recorder can hold is bounded, so the round trip through
    /// `from_binary` is loss-free (`lemma_round_trip`).
    #[verifier::loop_isolation(false)]
    pub fn to_binary(&self) -> (r: Vec<u8>)
        ensures
            r@ == enc_recorder(self@),
            bounded_recorder(self@),
    {
        let mut out: Vec<u8> = Vec::new();
        proof {
            assert(Seq::<u8>::empty() + spec_u64_to_le_bytes(self.dir_records@.len() as u64)
                =~= spec_u64_to_le_bytes(self.dir_records@.len() as u64));
        }
        push_u64(&mut out, self.dir_records.len() as u64);
        let ghost base_d = out@;
        let mut i: usize = 0;
        proof {
            assert(base_d + enc_paths_items(self@.dirs.take(0)) =~= base_d);
        }
        while i < self.dir_records.len()
            invariant
                0 <= i <= self.dir_records@.len(),
                out@ == base_d + enc_paths_items(self@.dirs.take(i as int)),
                forall|j: int| 0 <= j < i ==> bounded_path(#[trigger] self@.dirs[j]),
            decreases self.dir_records@.len() - i,
        {
            proof {
                assert(views_of_dir_records(self.dir_records@)[i as int]
                    == self.dir_records@[i as int]@);
            }
            push_path(&mut out, self.dir_records[i].path());
            proof {
                lemma_enc_paths_items_snoc(self@.dirs.take(i as int), self@.dirs[i as int]);
                assert(self@.dirs.take(i + 1) =~= self@.dirs.take(i as int).push(
                    self@.dirs[i as int],
                ));
                assert(out@ =~= base_d + enc_paths_items(self@.dirs.take(i + 1)));
            }
            i = i + 1;
        }
        proof {
            assert(self@.dirs.take(self@.dirs.len() as int) =~= self@.dirs);
            assert(out@ =~= enc_paths(self@.dirs));
        }
        let ghost done_dirs = out@;
        push_u64(&mut out, self.file_records.len() as u64);
        let ghost base_f = out@;
        let mut i: usize = 0;
        proof {
            assert(base_f + enc_paths_items(self@.files.take(0)) =~= base_f);
        }
        while i < self.file_records.len()
            invariant
                0 <= i <= self.file_records@.len(),
                out@ == base_f + enc_paths_items(self@.files.take(i as int)),
                forall|j: int| 0 <= j < i ==> bounded_path(#[trigger] self@.files[j]),
            decreases self.file_records@.len() - i,
        {
            proof {
                assert(views_of_file_records(self.file_records@)[i as int]
                    == self.file_records@[i as int]@);
            }
            push_path(&mut out, self.file_records[i].path());
            proof {
                lemma_enc_paths_items_snoc(self@.files.take(i as int), self@.files[i as int]);
                assert(self@.files.take(i + 1) =~= self@.files.take(i as int).push(
                    self@.files[i as int],
                ));
                assert(out@ =~= base_f + enc_paths_items(self@.files.take(i + 1)));
            }
            i = i + 1;
        }
        proof {
            assert(self@.files.take(self@.files.len() as int) =~= self@.files);
            assert(out@ =~= done_dirs + enc_paths(self@.files));
        }
        let ghost done_files = out@;
        push_u64(&mut out, self.link_records.len() as u64);
        let ghost base_l = out@;
        let mut i: usize = 0;
        proof {
            assert(base_l + enc_paths_items(self@.links.take(0)) =~= base_l);
        }
        while i < self.link_records.len()
            invariant
                0 <= i <= self.link_records@.len(),
                out@ == base_l + enc_paths_items(self@.links.take(i as int)),
                forall|j: int| 0 <= j < i ==> bounded_path(#[trigger] self@.links[j]),
            decreases self.link_records@.len() - i,
        {
            proof {
                assert(views_of_link_records(self.link_records@)[i as int]
                    == self.link_records@[i as int]@);
            }
            push_path(&mut out, self.link_records[i].path());
            proof {
                lemma_enc_paths_items_snoc(self@.links.take(i as int), self@.links[i as int]);
                assert(self@.links.take(i + 1) =~= self@.links.take(i as int).push(
                    self@.links[i as int],
                ));
                assert(out@ =~= base_l + enc_paths_items(self@.links.take(i + 1)));
            }
            i = i + 1;
        }
        proof {
            assert(self@.links.take(self@.links.len() as int) =~= self@.links);
            assert(out@ =~= done_files + enc_paths(self@.links));
        }
        push_u64(&mut out, self.env_records.len() as u64);
        proof {
            assert(out@ =~= enc_recorder(self@));
        }
        out
    }

    /// Deserializes a log from its binary form; rejects bytes that are not
    /// exactly one encoding. The result agrees with the specification
    /// decoder `dec_recorder`, so on any output of `to_binary` it
    /// reproduces the identical ordered record set.
    pub fn from_binary(data: &Vec<u8>) -> (r: Option<Recorder>)
        ensures
            match r {
                Option::Some(rec) => dec_recorder(data@) == Option::Some(rec@),
                Option::None => dec_recorder(data@) is None,
            },
    {
        let (dirs, p1) = match read_paths(data, 0) {
            Option::Some(pr) => pr,
            Option::None => {
                return Option::None;
            },
        };
        let (files, p2) = match read_paths(data, p1) {
            Option::Some(pr) => pr,
            Option::None => {
                return Option::None;
            },
        };
        let (links, p3) = match read_paths(data, p2) {
            Option::Some(pr) => pr,
            Option::None => {
                return Option::None;
            },
        };
        let (envs, p4) = match read_u64(data, p3) {
            Option::Some(pr) => pr,
            Option::None => {
                return Option::None;
            },
        };
        if p4 != data.len() {
            return Option::None;
        }
        let mut dir_records: Vec<DirectoryRecord> = Vec::new();
        let mut i: usize = 0;
        proof {
            assert(views_of_dir_records(dir_records@) =~= dirs@.map_values(
                |p: AbsolutePath| p@,
            ).take(0));
        }
        while i < dirs.len()
            invariant
                0 <= i <= dirs@.len(),
                views_of_dir_records(dir_records@) == dirs@.map_values(|p: AbsolutePath| p@).take(
                    i as int,
                ),
            decreases dirs@.len() - i,
        {
            let ghost before = dir_records@;
            let record = DirectoryRecord::new(dirs[i].duplicate());
            dir_records.push(record);
            proof {
                assert(views_of_dir_records(dir_records@) =~= views_of_dir_records(before).push(
                    dirs@[i as int]@,
                ));
                assert(views_of_dir_records(dir_records@) =~= dirs@.map_values(
                    |p: AbsolutePath| p@,
                ).take(i + 1));
            }
            i = i + 1;
        }
        let mut file_records: Vec<FileRecord> = Vec::new();
        let mut i: usize = 0;
        proof {
            assert(views_of_file_records(file_records@) =~= files@.map_values(
                |p: AbsolutePath| p@,
            ).take(0));
        }
        while i < files.len()
            invariant
                0 <= i <= files@.len(),
                views_of_file_records(file_records@) == files@.map_values(
                    |p: AbsolutePath| p@,
                ).take(i as int),
            decreases files@.len() - i,
        {
            let ghost before = file_records@;
            let record = FileRecord::new(files[i].duplicate());
            file_records.push(record);
            proof {
                assert(views_of_file_records(file_records@) =~= views_of_file_records(
                    before,
                ).push(files@[i as int]@));
                assert(views_of_file_records(file_records@) =~= files@.map_values(
                    |p: AbsolutePath| p@,
                ).take(i + 1));
            }
            i = i + 1;
        }
        let mut link_records: Vec<LinkRecord> = Vec::new();
        let mut i: usize = 0;
        proof {
            assert(views_of_link_records(link_records@) =~= links@.map_values(
                |p: AbsolutePath| p@,
            ).take(0));
        }
        while i < links.len()
            invariant
                0 <= i <= links@.len(),
                views_of_link_records(link_records@) == links@.map_values(
                    |p: AbsolutePath| p@,
                ).take(i as int),
            decreases links@.len() - i,
        {
            let ghost before = link_records@;
            let record = LinkRecord::new(links[i].duplicate());
            link_records.push(record);
            proof {
                assert(views_of_link_records(link_records@) =~= views_of_link_records(
                    before,
                ).push(links@[i as int]@));
                assert(views_of_link_records(link_records@) =~= links@.map_values(
                    |p: AbsolutePath| p@,
                ).take(i + 1));
            }
            i = i + 1;
        }
        let mut env_records: Vec<EnvRecord> = Vec::new();
        let mut k: u64 = 0;
        while k < envs
            invariant
                0 <= k <= envs,
                env_records@.len() == k,
            decreases envs - k,
        {
            env_records.push(EnvRecord {  });
            k = k + 1;
        }
        let rec = Recorder { dir_records, file_records, link_records, env_records };
        proof {
            assert(dirs@.map_values(|p: AbsolutePath| p@).take(dirs@.len() as int)
                =~= dirs@.map_values(|p: AbsolutePath| p@));
            assert(files@.map_values(|p: AbsolutePath| p@).take(files@.len() as int)
                =~= files@.map_values(|p: AbsolutePath| p@));
            assert(links@.map_values(|p: AbsolutePath| p@).take(links@.len() as int)
                =~= links@.map_values(|p: AbsolutePath| p@));
        }
        Option::Some(rec)
    }
}

/// One undo step of a rollback.
#[derive(Debug, Clone, PartialEq, Eq)]
pub enum UndoAction {
    RemoveFile(AbsolutePath),
    RemoveLink(AbsolutePath),
    RemoveDirectory(AbsolutePath),
    UnsetEnv,
}

/// The mathematical content of one undo step.
pub enum UndoActionView {
    RemoveFile(Seq<Seq<u8>>),
    RemoveLink(Seq<Seq<u8>>),
    RemoveDirectory(Seq<Seq<u8>>),
    UnsetEnv,
}

impl View for UndoAction {
    type V = UndoActionView;

    open spec fn view(&self) -> UndoActionView {
        match self {
            UndoAction::RemoveFile(p) => UndoActionView::RemoveFile(p@),
            UndoAction::RemoveLink(p) => UndoActionView::RemoveLink(p@),
            UndoAction::RemoveDirectory(p) => UndoActionView::RemoveDirectory(p@),
            UndoAction::UnsetEnv => UndoActionView::UnsetEnv,
        }
    }
}

/// The views of a sequence of undo steps.
pub open spec fn views_of_actions(s: Seq<UndoAction>) -> Seq<UndoActionView> {
    s.map_values(|a: UndoAction| a@)
}

/// A sequence reversed, newest first.
pub open spec fn rev_of(s: Seq<Seq<Seq<u8>>>) -> Seq<Seq<Seq<u8>>> {
    Seq::new(s.len(), |i: int| s[s.len() - 1 - i])
}

/// The undo plan of a recorder: the exact reverse of the install order —
/// environment entries first, then links, files and finally directories,
/// each kind newest first — so files and links are removed before the
/// directories that contain them.
pub open spec fn rollback_plan_of(v: RecorderView) -> Seq<UndoActionView> {
    Seq::new(v.envs, |i: int| UndoActionView::UnsetEnv) + rev_of(v.links).map_values(
        |p: Seq<Seq<u8>>| UndoActionView::RemoveLink(p),
    ) + rev_of(v.files).map_values(|p: Seq<Seq<u8>>| UndoActionView::RemoveFile(p)) + rev_of(
        v.dirs,
    ).map_values(|p: Seq<Seq<u8>>| UndoActionView::RemoveDirectory(p))
}

impl Recorder {
    /// The ordered undo steps that reverse this log's mutations: the exact
    /// reverse of the install order, so nothing is asked to remove a
    /// directory before what it contains. Undoing is the caller's work;
    /// this plan only fixes what to undo, and in what order.
    #[verifier::loop_isolation(false)]
    pub fn rollback_plan(&self) -> (r: Vec<UndoAction>)
        ensures
            views_of_actions(r@) == rollback_plan_of(self@),
    {
        let mut plan: Vec<UndoAction> = Vec::new();
        let ghost target = rollback_plan_of(self@);
        let envs = self.env_records.len();
        let mut i: usize = 0;
        proof {
            assert(views_of_actions(plan@) =~= target.take(0));
        }
        while i < envs
            invariant
                0 <= i <= envs,
                views_of_actions(plan@) == target.take(i as int),
            decreases envs - i,
        {
            let ghost before = plan@;
            plan.push(UndoAction::UnsetEnv);
            proof {
                assert(views_of_actions(plan@) =~= views_of_actions(before).push(
                    UndoActionView::UnsetEnv,
                ));
                assert(target[i as int] == UndoActionView::UnsetEnv);
                assert(views_of_actions(plan@) =~= target.take(i + 1));
            }
            i = i + 1;
        }
        let links = self.link_records.len();
        let mut i: usize = 0;
        while i < links
            invariant
                0 <= i <= links,
                views_of_actions(plan@) == target.take(envs + i),
            decreases links - i,
        {
            let ghost before = plan@;
            let action = UndoAction::RemoveLink(self.link_records[links - 1 - i].path().duplicate());
            plan.push(action);
            proof {
                assert(views_of_actions(plan@) =~= views_of_actions(before).push(
                    UndoActionView::RemoveLink(self@.links[links - 1 - i]),
                ));
                assert(target[envs + i] == UndoActionView::RemoveLink(
                    rev_of(self@.links)[i as int],
                ));
                assert(rev_of(self@.links)[i as int] == self@.links[links - 1 - i]);
                assert(views_of_actions(plan@) =~= target.take(envs + i + 1));
            }
            i = i + 1;
        }
        let files = self.file_records.len();
        let mut i: usize = 0;
        while i < files
            invariant
                0 <= i <= files,
                views_of_actions(plan@) == target.take(envs + links + i),
            decreases files - i,
        {
            let ghost before = plan@;
            let action = UndoAction::RemoveFile(self.file_records[files - 1 - i].path().duplicate());
            plan.push(action);
            proof {
                assert(views_of_actions(plan@) =~= views_of_actions(before).push(
                    UndoActionView::RemoveFile(self@.files[files - 1 - i]),
                ));
                assert(target[envs + links + i] == UndoActionView::RemoveFile(
                    rev_of(self@.files)[i as int],
                ));
                assert(rev_of(self@.files)[i as int] == self@.files[files - 1 - i]);
                assert(views_of_actions(plan@) =~= target.take(envs + links + i + 1));
            }
            i = i + 1;
        }
        let dirs = self.dir_records.len();
        let mut i: usize = 0;
        while i < dirs
            invariant
                0 <= i <= dirs,
                views_of_actions(plan@) == target.take(envs + links + files + i),
            decreases dirs - i,
        {
            let ghost before = plan@;
            let action = UndoAction::RemoveDirectory(
                self.dir_records[dirs - 1 - i].path().duplicate(),
            );
            plan.push(action);
            proof {
                assert(views_of_actions(plan@) =~= views_of_actions(before).push(
                    UndoActionView::RemoveDirectory(self@.dirs[dirs - 1 - i]),
                ));
                assert(target[envs + links + files + i] == UndoActionView::RemoveDirectory(
                    rev_of(self@.dirs)[i as int],
                ));
                assert(rev_of(self@.dirs)[i as int] == self@.dirs[dirs - 1 - i]);
                assert(views_of_actions(plan@) =~= target.take(envs + links + files + i + 1));
            }
            i = i + 1;
        }
        proof {
            assert(target.take(target.len() as int) =~= target);
        }
        plan
    }
}

/// The plan positions whose undo attempts did not succeed, given one
/// outcome per plan step. A failed step never blocks the later ones; the
/// failures are collected and reported together.
pub open spec fn failed_prefix(outcomes: Seq<bool>, n: int) -> Seq<usize>
    decreases n,
{
    if n <= 0 {
        Seq::empty()
    } else {
        let prev = failed_prefix(outcomes, n - 1);
        if outcomes[n - 1] {
            prev
        } else {
            prev.push((n - 1) as usize)
        }
    }
}

/// Collects the positions of the undo steps that could not be undone, in
/// plan order, from one outcome per step.
#[verifier::loop_isolation(false)]
pub fn rollback_failures(outcomes: &Vec<bool>) -> (r: Vec<usize>)
    ensures
        r@ == failed_prefix(outcomes@, outcomes@.len() as int),
{
    let mut failed: Vec<usize> = Vec::new();
    let mut i: usize = 0;
    proof {
        assert(failed@ =~= failed_prefix(outcomes@, 0));
    }
    while i < outcomes.len()
        invariant
            0 <= i <= outcomes@.len(),
            failed@ == failed_prefix(outcomes@, i as int),
        decreases outcomes@.len() - i,
    {
        if !outcomes[i] {
            failed.push(i);
        }
        i = i + 1;
    }
    failed
}

impl Default for Recorder {
    /// An empty recorder.
    fn default() -> (r: Self)
        ensures
            r@ == RecorderView::empty(),
    {
        Recorder::with_capacity(0, 0, 0, 0)
    }
}

} // verus!
