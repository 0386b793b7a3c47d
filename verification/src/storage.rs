//! Documents and the store of documents open in the editor.

use vstd::prelude::*;
use vstd::string::StringSliceAdditionalSpecFns;

use crate::error::{Error, IoErrorKind};
use crate::line_index::LineIndex;

verus! {

/// Which revision of a file a document holds.
#[derive(Clone, Copy, Debug, PartialEq, Eq, Structural)]
pub enum DocumentVersion {
    /// Read from disk; the modification time (nanoseconds since the epoch).
    OnDisk { modified: u64 },
    /// Sent by the editor; the editor's revision number.
    InMemory { revision: i32 },
    /// The file does not exist.
    Missing,
    /// The file could not be read.
    IoError,
    /// A stand-in for a file that could not be analyzed (such as an import cycle).
    AnalysisError,
}

/// A file's path, text, version, and line index.
pub struct Document {
    pub path: Vec<u8>,
    pub data: String,
    pub version: DocumentVersion,
    pub line_index: LineIndex,
}

impl Document {
    /// The bytes of the text.
    pub open spec fn bytes(&self) -> Seq<u8> {
        vstd::utf8::encode_utf8(self.data@)
    }

    pub fn new(path: &[u8], data: &str, version: DocumentVersion) -> (r: Document)
        ensures
            r.path@ == path@,
            r.data@ == data@,
            r.version == version,
            r.line_index@ == r.bytes(),
    {
        let line_index = LineIndex::new(data);
        Document {
            path: crate::workspace::copy_range(path, 0, path.len()),
            data: data.to_owned(),
            version,
            line_index,
        }
    }

    /// The document of a file that does not exist: empty text, version `Missing`.
    pub fn empty(path: &[u8]) -> (r: Document)
        ensures
            r.path@ == path@,
            r.data@ == Seq::<char>::empty(),
            r.version == DocumentVersion::Missing,
            r.line_index@ == r.bytes(),
    {
        proof {
            reveal_strlit("");
        }
        Document::new(path, "", DocumentVersion::Missing)
    }
}

/// The entry for `path` among `docs`: the text and version of the last
/// document with that path.
pub open spec fn lookup(docs: Seq<Document>, path: Seq<u8>) -> Option<(Seq<char>, DocumentVersion)>
    decreases docs.len(),
{
    if docs.len() == 0 {
        None
    } else if docs.last().path@ == path {
        Some((docs.last().data@, docs.last().version))
    } else {
        lookup(docs.drop_last(), path)
    }
}

/// Documents the editor holds open, by path. Each path occurs at most once.
pub struct DocumentStorage {
    memory_docs: Vec<Document>,
}

impl DocumentStorage {
    /// Text and version held for `path`, if any.
    pub closed spec fn entry(&self, path: Seq<u8>) -> Option<(Seq<char>, DocumentVersion)> {
        lookup(self.memory_docs@, path)
    }

    pub closed spec fn wf(&self) -> bool {
        forall|k: int|
            0 <= k < self.memory_docs@.len() ==> (#[trigger] self.memory_docs@[k]).line_index@
                == self.memory_docs@[k].bytes()
    }

    pub fn new() -> (r: DocumentStorage)
        ensures
            r.wf(),
            forall|p: Seq<u8>| r.entry(p) is None,
    {
        DocumentStorage { memory_docs: Vec::new() }
    }

    /// Index of the document for `path`.
    fn find(&self, path: &[u8]) -> (r: Option<usize>)
        ensures
            match r {
                Some(k) => k < self.memory_docs@.len() && self.memory_docs@[k as int].path@ == path@
                    && self.entry(path@) == Some(
                    (self.memory_docs@[k as int].data@, self.memory_docs@[k as int].version),
                ),
                None => self.entry(path@) is None,
            },
    {
        let mut k = self.memory_docs.len();
        assert(self.memory_docs@.take(k as int) =~= self.memory_docs@);
        while k > 0
            invariant
                k <= self.memory_docs@.len(),
                lookup(self.memory_docs@, path@) == lookup(self.memory_docs@.take(k as int), path@),
            decreases k,
        {
            assert(self.memory_docs@.take(k as int).drop_last() =~= self.memory_docs@.take(k - 1));
            if bytes_eq(self.memory_docs[k - 1].path.as_slice(), path) {
                return Some(k - 1);
            }
            k -= 1;
        }
        None
    }

    /// Holds `data` as the editor's revision `revision` of `path`.
    pub fn load_to_memory(&mut self, path: &[u8], data: &str, revision: i32)
        requires
            old(self).wf(),
        ensures
            final(self).wf(),
            final(self).entry(path@) == Some((data@, DocumentVersion::InMemory { revision })),
            forall|p: Seq<u8>| p != path@ ==> #[trigger] final(self).entry(p) == old(self).entry(p),
    {
        let doc = Document::new(path, data, DocumentVersion::InMemory { revision });
        self.memory_docs.push(doc);
        proof {
            assert(self.memory_docs@.drop_last() =~= old(self).memory_docs@);
        }
    }

    /// Forgets what the editor held for `path`.
    pub fn unload_from_memory(&mut self, path: &[u8])
        requires
            old(self).wf(),
        ensures
            final(self).wf(),
            final(self).entry(path@) is None,
            forall|p: Seq<u8>| p != path@ ==> #[trigger] final(self).entry(p) == old(self).entry(p),
    {
        let mut rest: Vec<Document> = Vec::new();
        std::mem::swap(&mut rest, &mut self.memory_docs);
        let total = rest.len();
        let ghost docs = rest@;
        assert(docs.len() == total);
        let mut kept: Vec<Document> = Vec::new();
        let mut i: usize = 0;
        assert(docs.skip(0) =~= docs);
        while rest.len() > 0
            invariant
                i <= docs.len(),
                docs.len() <= usize::MAX,
                rest@ == docs.skip(i as int),
                forall|k: int| 0 <= k < docs.len() ==> (#[trigger] docs[k]).line_index@ == docs[k].bytes(),
                forall|k: int| 0 <= k < kept@.len() ==> (#[trigger] kept@[k]).line_index@ == kept@[k].bytes(),
                forall|p: Seq<u8>| p != path@ ==> #[trigger] lookup(kept@, p) == lookup(docs.take(i as int), p),
                lookup(kept@, path@) is None,
            decreases rest@.len(),
        {
            assert(rest@.len() == docs.len() - i);
            let d = rest.remove(0);
            assert(d == docs[i as int]);
            let ghost old_kept = kept@;
            let keep = !bytes_eq(d.path.as_slice(), path);
            if keep {
                kept.push(d);
                assert(kept@.drop_last() =~= old_kept);
            }
            let ghost prefix = docs.take(i + 1);
            assert(prefix.drop_last() =~= docs.take(i as int));
            assert(prefix.last() == docs[i as int]);
            assert(prefix.len() > 0);
            assert forall|p: Seq<u8>| p != path@ implies #[trigger] lookup(kept@, p) == lookup(prefix, p) by {
                assert(lookup(old_kept, p) == lookup(docs.take(i as int), p));
                if keep {
                    assert(kept@.last() == docs[i as int]);
                    assert(kept@.len() > 0);
                } else {
                    assert(docs[i as int].path@ == path@);
                    assert(kept@ == old_kept);
                }
            }
            i += 1;
            assert(rest@ =~= docs.skip(i as int));
        }
        assert(docs.take(docs.len() as int) =~= docs);
        self.memory_docs = kept;
    }

    /// The document the editor holds for `path`.
    pub fn read_memory(&self, path: &[u8]) -> (r: Option<&Document>)
        ensures
            match r {
                Some(d) => self.entry(path@) == Some((d.data@, d.version)) && d.path@ == path@,
                None => self.entry(path@) is None,
            },
    {
        match self.find(path) {
            Some(k) => Some(&self.memory_docs[k]),
            None => None,
        }
    }
}

/// The modification time of the file at `path` (`fs_err::metadata`, then
/// the metadata's `modified`), in nanoseconds since the epoch; a time before
/// the epoch is an error. It depends on the file system; nothing is claimed
/// of it.
#[verifier::external_body]
fn disk_modified(path: &[u8]) -> (r: Result<u64, IoErrorKind>) {
    match fs_err::metadata(&*String::from_utf8_lossy(path)).and_then(|m| m.modified()) {
        Ok(t) => match t.duration_since(std::time::UNIX_EPOCH) {
            Ok(d) => Ok(d.as_nanos() as u64),
            Err(_) => Err(IoErrorKind::Other),
        },
        Err(e) => Err(match e.kind() {
            std::io::ErrorKind::NotFound => IoErrorKind::NotFound,
            std::io::ErrorKind::InvalidData => IoErrorKind::InvalidData,
            _ => IoErrorKind::Other,
        }),
    }
}

/// The text of the file at `path`, from `fs_err::read_to_string`. It depends
/// on the file system; nothing is claimed of it.
#[verifier::external_body]
fn disk_read(path: &[u8]) -> (r: Result<String, IoErrorKind>) {
    match fs_err::read_to_string(&*String::from_utf8_lossy(path)) {
        Ok(s) => Ok(s),
        Err(e) => Err(match e.kind() {
            std::io::ErrorKind::NotFound => IoErrorKind::NotFound,
            std::io::ErrorKind::InvalidData => IoErrorKind::InvalidData,
            _ => IoErrorKind::Other,
        }),
    }
}

impl DocumentStorage {
    /// The version of `path`: the editor's revision when the editor holds
    /// it, else the modification time on disk.
    pub fn read_version(&self, path: &[u8]) -> (r: Result<DocumentVersion, Error>)
        ensures
            self.entry(path@) matches Some(e) ==> r == Ok::<DocumentVersion, Error>(e.1),
            self.entry(path@) is None ==> (r matches Ok(v) ==> v is OnDisk),
    {
        match self.find(path) {
            Some(k) => Ok(self.memory_docs[k].version),
            None => match disk_modified(path) {
                Ok(modified) => Ok(DocumentVersion::OnDisk { modified }),
                Err(kind) => Err(Error::Io { kind }),
            },
        }
    }

    /// The document of `path`: the editor's copy when it holds one, else the
    /// file on disk.
    pub fn read(&self, path: &[u8]) -> (r: Result<Document, Error>)
        ensures
            r matches Ok(d) ==> d.path@ == path@ && d.line_index@ == d.bytes(),
            self.entry(path@) matches Some(e) ==> (r matches Ok(d) && d.data@ == e.0 && d.version == e.1),
            self.entry(path@) is None ==> (r matches Ok(d) ==> d.version is OnDisk),
    {
        match self.find(path) {
            Some(k) => {
                let d = &self.memory_docs[k];
                Ok(Document::new(path, d.data.as_str(), d.version))
            },
            None => {
                let data = match disk_read(path) {
                    Ok(data) => data,
                    Err(kind) => return Err(Error::Io { kind }),
                };
                let version = self.read_version(path)?;
                Ok(Document::new(path, data.as_str(), version))
            },
        }
    }
}

/// Byte-wise equality.
pub fn bytes_eq(a: &[u8], b: &[u8]) -> (r: bool)
    ensures
        r == (a@ == b@),
{
    if a.len() != b.len() {
        return false;
    }
    let mut i: usize = 0;
    while i < a.len()
        invariant
            a@.len() == b@.len(),
            i <= a@.len(),
            forall|j: int| 0 <= j < i ==> a@[j] == b@[j],
        decreases a.len() - i,
    {
        if a[i] != b[i] {
            return false;
        }
        i += 1;
    }
    assert(a@ =~= b@);
    true
}

} // verus!
