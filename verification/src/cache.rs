//! When an analysis result may be reused: times of the next check, and the
//! nodes that remember which file version a result was computed from.
//!
//! Times are milliseconds on a clock that the caller reads.

use vstd::prelude::*;

use crate::storage::{DocumentStorage, DocumentVersion};

verus! {

/// How long the version of a file on disk is trusted without a new look.
pub const CHECK_INTERVAL: u64 = 5000;

/// When the version of a document read at `t` must next be looked at: a
/// file on disk is trusted for `CHECK_INTERVAL`, anything else is looked at
/// every time.
pub open spec fn spec_next_check(t: u64, version: DocumentVersion) -> u64 {
    match version {
        DocumentVersion::OnDisk { .. } => (t + CHECK_INTERVAL) as u64,
        _ => t,
    }
}

/// When a result computed from a document at `t` must next be verified: a
/// result from a file on disk, or from a failure, is trusted for
/// `CHECK_INTERVAL`; one from the editor's copy never.
pub open spec fn spec_next_verify(t: u64, version: DocumentVersion) -> u64 {
    match version {
        DocumentVersion::InMemory { .. } => t,
        _ => (t + CHECK_INTERVAL) as u64,
    }
}

pub fn compute_next_check(t: u64, version: DocumentVersion) -> (r: u64)
    requires
        t + CHECK_INTERVAL <= u64::MAX,
    ensures
        r == spec_next_check(t, version),
{
    match version {
        DocumentVersion::OnDisk { .. } => t + CHECK_INTERVAL,
        _ => t,
    }
}

pub fn compute_next_verify(t: u64, version: DocumentVersion) -> (r: u64)
    requires
        t + CHECK_INTERVAL <= u64::MAX,
    ensures
        r == spec_next_verify(t, version),
{
    match version {
        DocumentVersion::InMemory { .. } => t,
        _ => t + CHECK_INTERVAL,
    }
}

/// The time of a request, and whether shallow results should be refreshed.
#[derive(Clone, Copy, Debug)]
pub struct CacheConfig {
    time: u64,
    update_shallow: bool,
}

impl CacheConfig {
    pub closed spec fn spec_time(self) -> u64 {
        self.time
    }

    pub closed spec fn spec_update_shallow(self) -> bool {
        self.update_shallow
    }

    /// A configuration for a request made at `time`.
    pub fn new(time: u64, update_shallow: bool) -> (r: CacheConfig)
        ensures
            r.spec_time() == time,
            r.spec_update_shallow() == update_shallow,
    {
        CacheConfig { time, update_shallow }
    }

    pub fn time(self) -> (r: u64)
        ensures
            r == self.spec_time(),
    {
        self.time
    }

    pub fn should_update_shallow(self) -> (r: bool)
        ensures
            r == self.spec_update_shallow(),
    {
        self.update_shallow
    }
}

/// Whether a cached result may still be used.
#[derive(Clone, Copy, Debug, PartialEq, Eq, Structural)]
pub enum CacheState {
    /// The result is out of date for good.
    Stale,
    /// The result was good when last verified; it is trusted until `expires`.
    Fresh { expires: u64 },
}

/// A cached analysis result of one file: the version it was computed from,
/// the results it was computed from, and whether it is still good.
pub struct AnalysisNode {
    pub path: Vec<u8>,
    pub version: DocumentVersion,
    pub deps: Vec<AnalysisNode>,
    pub state: CacheState,
}

/// Every node of `nodes` is fresh.
pub open spec fn all_fresh(nodes: Seq<AnalysisNode>) -> bool {
    forall|i: int| 0 <= i < nodes.len() ==> #[trigger] nodes[i].state is Fresh
}

/// Whether the version read back is the one a result was computed from.
pub open spec fn same_version(current: Result<DocumentVersion, crate::error::Error>, version: DocumentVersion) -> bool {
    current matches Ok(v) && v == version
}

/// The state and answer of a node whose trust has expired, once the version
/// of its file has been read back (`current`) and its dependencies have
/// answered (`deps_ok`): good, and trusted anew from `request_time`, when the
/// version is the one it was computed from and the dependencies are good;
/// stale otherwise.
pub open spec fn spec_settle(
    current: Result<DocumentVersion, crate::error::Error>,
    version: DocumentVersion,
    deps_ok: bool,
    request_time: u64,
) -> (CacheState, bool) {
    if same_version(current, version) && deps_ok {
        (CacheState::Fresh { expires: spec_next_verify(request_time, version) }, true)
    } else {
        (CacheState::Stale, false)
    }
}

/// The state and answer of a node whose trust has expired (see
/// `spec_settle`).
pub fn settle(
    current: &Result<DocumentVersion, crate::error::Error>,
    version: DocumentVersion,
    deps_ok: bool,
    request_time: u64,
) -> (r: (CacheState, bool))
    requires
        request_time + CHECK_INTERVAL <= u64::MAX,
    ensures
        r == spec_settle(*current, version, deps_ok, request_time),
{
    let same = match current {
        Ok(v) => *v == version,
        Err(_) => false,
    };
    if same && deps_ok {
        (CacheState::Fresh { expires: compute_next_verify(request_time, version) }, true)
    } else {
        (CacheState::Stale, false)
    }
}

impl AnalysisNode {
    /// A node for a result computed at `request_time` from `version` of
    /// `path`, trusted until the next verification is due.
    pub fn new(path: Vec<u8>, version: DocumentVersion, deps: Vec<AnalysisNode>, request_time: u64) -> (r:
        AnalysisNode)
        requires
            request_time + CHECK_INTERVAL <= u64::MAX,
        ensures
            r.path == path,
            r.version == version,
            r.deps == deps,
            r.state == (CacheState::Fresh { expires: spec_next_verify(request_time, version) }),
    {
        AnalysisNode {
            path,
            version,
            deps,
            state: CacheState::Fresh { expires: compute_next_verify(request_time, version) },
        }
    }

    /// Whether the result is still good at `request_time`. A stale node stays
    /// stale. A fresh node whose trust has not expired is good when its
    /// dependencies are. Otherwise the version of its file is read again: the
    /// node is good when that version is the one it was computed from and
    /// its dependencies are good, and it is then trusted anew. A node found
    /// bad becomes stale.
    pub fn verify(&mut self, request_time: u64, storage: &DocumentStorage) -> (r: bool)
        requires
            request_time + CHECK_INTERVAL <= u64::MAX,
        ensures
            final(self).path == old(self).path,
            final(self).version == old(self).version,
            final(self).deps.len() == old(self).deps.len(),
            forall|j: int|
                0 <= j < old(self).deps@.len() ==> #[trigger] final(self).deps@[j].path == old(self).deps@[j].path,
            old(self).state is Stale ==> !r && final(self).state is Stale,
            r ==> final(self).state is Fresh && all_fresh(final(self).deps@),
            !r ==> final(self).state is Stale,
            (old(self).state matches CacheState::Fresh { expires } && request_time <= expires && r)
                ==> final(self).state == old(self).state,
            (old(self).state matches CacheState::Fresh { expires } && request_time > expires && r)
                ==> final(self).state == (CacheState::Fresh {
                expires: spec_next_verify(request_time, old(self).version),
            }),
            (old(self).state matches CacheState::Fresh { expires } && request_time > expires && r)
                ==> (storage.entry(old(self).path@) matches Some(e) ==> e.1 == old(self).version),
            old(self).state matches CacheState::Fresh { expires } && request_time <= expires ==> r == all_fresh(
                final(self).deps@,
            ),
            old(self).state matches CacheState::Fresh { expires } && request_time > expires ==> exists|
                current: Result<DocumentVersion, crate::error::Error>,
            |
                (storage.entry(old(self).path@) matches Some(e) ==> current == Ok::<
                    DocumentVersion,
                    crate::error::Error,
                >(e.1)) && (!same_version(current, old(self).version) ==> final(self).deps@ == old(self).deps@)
                    && (final(self).state, r) == #[trigger] spec_settle(
                    current,
                    old(self).version,
                    all_fresh(final(self).deps@),
                    request_time,
                ),
        decreases *old(self), 1nat,
    {
        let expires = match self.state {
            CacheState::Stale => return false,
            CacheState::Fresh { expires } => expires,
        };
        if request_time <= expires {
            if !self.verify_deps(request_time, storage) {
                self.state = CacheState::Stale;
                return false;
            }
            return true;
        }
        let current = storage.read_version(self.path.as_slice());
        let same = match &current {
            Ok(v) => *v == self.version,
            Err(_) => false,
        };
        let deps_ok = if same {
            self.verify_deps(request_time, storage)
        } else {
            false
        };
        let (state, ok) = settle(&current, self.version, deps_ok, request_time);
        self.state = state;
        assert(spec_settle(current, self.version, all_fresh(self.deps@), request_time) == (state, ok));
        ok
    }

    /// Verifies the dependencies in order, stopping at the first that is bad.
    fn verify_deps(&mut self, request_time: u64, storage: &DocumentStorage) -> (r: bool)
        requires
            request_time + CHECK_INTERVAL <= u64::MAX,
        ensures
            final(self).path == old(self).path,
            final(self).version == old(self).version,
            final(self).state == old(self).state,
            final(self).deps.len() == old(self).deps.len(),
            r == all_fresh(final(self).deps@),
            forall|j: int|
                0 <= j < old(self).deps@.len() ==> #[trigger] final(self).deps@[j].path == old(self).deps@[j].path
                    && final(self).deps@[j].version == old(self).deps@[j].version,
            !r ==> exists|k: int|
                0 <= k < old(self).deps@.len() && #[trigger] final(self).deps@[k].state is Stale && (forall|j: int|
                    k < j < old(self).deps@.len() ==> #[trigger] final(self).deps@[j] == old(self).deps@[j]),
        decreases *old(self), 0nat,
    {
        let n = self.deps.len();
        let mut i: usize = 0;
        while i < n
            invariant
                n == self.deps@.len(),
                n == old(self).deps@.len(),
                i <= n,
                self.path == old(self).path,
                self.version == old(self).version,
                self.state == old(self).state,
                request_time + CHECK_INTERVAL <= u64::MAX,
                forall|j: int| 0 <= j < i ==> #[trigger] self.deps@[j].state is Fresh,
                forall|j: int| i <= j < n ==> #[trigger] self.deps@[j] == old(self).deps@[j],
                forall|j: int|
                    0 <= j < n ==> #[trigger] self.deps@[j].path == old(self).deps@[j].path
                        && self.deps@[j].version == old(self).deps@[j].version,
            decreases n - i,
        {
            let ghost before = self.deps@;
            proof {
                assert(decreases_to!(*old(self) => old(self).deps));
                assert(decreases_to!(old(self).deps => old(self).deps@));
                assert(decreases_to!(old(self).deps@ => old(self).deps@[i as int]));
            }
            let ok = self.deps[i].verify(request_time, storage);
            assert forall|j: int| 0 <= j < i implies #[trigger] self.deps@[j].state is Fresh by {
                assert(self.deps@[j] == before[j]);
            }
            assert forall|j: int| i < j < n implies #[trigger] self.deps@[j] == old(self).deps@[j] by {
                assert(self.deps@[j] == before[j]);
            }
            assert forall|j: int| 0 <= j < n implies #[trigger] self.deps@[j].path == old(self).deps@[j].path
                && self.deps@[j].version == old(self).deps@[j].version by {
                if j >= i {
                    assert(before[j] == old(self).deps@[j]);
                }
                if j != i {
                    assert(self.deps@[j] == before[j]);
                }
            }
            if !ok {
                assert(self.deps@[i as int].state is Stale);
                return false;
            }
            i += 1;
        }
        true
    }
}

} // verus!
