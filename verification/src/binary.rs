//! Where the `gn` binary is looked for: the prebuilt binaries that Chromium
//! and Fuchsia check in, then `PATH`.

use vstd::prelude::*;

use crate::dotgn::opt_bytes;
use crate::items::lines_view;
use crate::workspace::{copy_range, join, path_exists, spec_join};

verus! {

/// `gn`
pub open spec fn binary_name() -> Seq<u8> {
    seq![103u8, 110u8]
}

/// `buildtools/linux64`, where Chromium keeps its prebuilt `gn`.
pub open spec fn chromium_prebuilt_dir() -> Seq<u8> {
    seq![98u8, 117u8, 105u8, 108u8, 100u8, 116u8, 111u8, 111u8, 108u8, 115u8, 47u8, 108u8, 105u8, 110u8, 117u8, 120u8, 54u8, 52u8]
}

/// `prebuilt/third_party/gn/linux-x64`, where Fuchsia keeps its prebuilt
/// `gn`.
pub open spec fn fuchsia_prebuilt_dir() -> Seq<u8> {
    seq![
        112u8, 114u8, 101u8, 98u8, 117u8, 105u8, 108u8, 116u8, 47u8, 116u8, 104u8, 105u8, 114u8, 100u8, 95u8,
        112u8, 97u8, 114u8, 116u8, 121u8, 47u8, 103u8, 110u8, 47u8, 108u8, 105u8, 110u8, 117u8, 120u8, 45u8,
        120u8, 54u8, 52u8,
    ]
}

/// The prebuilt binaries looked for under the workspace root `root`, in
/// order.
pub open spec fn prebuilt_binaries(root: Seq<u8>) -> Seq<Seq<u8>> {
    seq![
        spec_join(spec_join(root, chromium_prebuilt_dir()), binary_name()),
        spec_join(spec_join(root, fuchsia_prebuilt_dir()), binary_name()),
    ]
}

/// The prebuilt binaries looked for under the workspace root `root`, in
/// order.
pub fn prebuilt_binary_paths(root: &[u8]) -> (r: Vec<Vec<u8>>)
    ensures
        r@.len() == 2,
        r@[0]@ == prebuilt_binaries(root@)[0],
        r@[1]@ == prebuilt_binaries(root@)[1],
{
    let name: &[u8] = &[103u8, 110u8];
    let chromium: &[u8] = &[
        98u8, 117u8, 105u8, 108u8, 100u8, 116u8, 111u8, 111u8, 108u8, 115u8, 47u8, 108u8, 105u8, 110u8, 117u8,
        120u8, 54u8, 52u8,
    ];
    let fuchsia: &[u8] = &[
        112u8, 114u8, 101u8, 98u8, 117u8, 105u8, 108u8, 116u8, 47u8, 116u8, 104u8, 105u8, 114u8, 100u8, 95u8,
        112u8, 97u8, 114u8, 116u8, 121u8, 47u8, 103u8, 110u8, 47u8, 108u8, 105u8, 110u8, 117u8, 120u8, 45u8,
        120u8, 54u8, 52u8,
    ];
    assert(name@ =~= binary_name());
    assert(chromium@ =~= chromium_prebuilt_dir());
    assert(fuchsia@ =~= fuchsia_prebuilt_dir());
    let a = join(root, chromium);
    let b = join(root, fuchsia);
    let mut r: Vec<Vec<u8>> = Vec::new();
    r.push(join(a.as_slice(), name));
    r.push(join(b.as_slice(), name));
    r
}

/// The first `gn` on `PATH` (`which::which`). What comes back depends on the
/// environment and the file system; nothing is claimed of it.
#[verifier::external_body]
fn which_gn() -> (r: Option<Vec<u8>>) {
    match which::which("gn") {
        Ok(p) => Some(p.into_os_string().into_encoded_bytes()),
        Err(_) => None,
    }
}

/// The binary chosen among the prebuilt `candidates` (in order), given
/// whether each is present, and the one found on `PATH`: the first present
/// candidate, else the one on `PATH`.
pub open spec fn select_binary(candidates: Seq<Seq<u8>>, present: Seq<bool>, on_path: Option<Seq<u8>>) -> Option<
    Seq<u8>,
>
    decreases candidates.len(),
{
    if candidates.len() == 0 || present.len() == 0 {
        on_path
    } else if present[0] {
        Some(candidates[0])
    } else {
        select_binary(candidates.drop_first(), present.drop_first(), on_path)
    }
}

/// The binary chosen among the prebuilt `candidates`, given whether each is
/// present, and the one found on `PATH` (see `select_binary`).
pub fn select_gn_binary(candidates: &Vec<Vec<u8>>, present: &Vec<bool>, on_path: Option<Vec<u8>>) -> (r: Option<
    Vec<u8>,
>)
    ensures
        opt_bytes(r) == select_binary(lines_view(candidates@), present@, opt_bytes(on_path)),
{
    let ghost cs = lines_view(candidates@);
    let mut i: usize = 0;
    assert(cs.skip(0) =~= cs);
    assert(present@.skip(0) =~= present@);
    while i < candidates.len() && i < present.len()
        invariant
            i <= candidates@.len(),
            i <= present@.len(),
            cs.len() == candidates@.len(),
            cs == lines_view(candidates@),
            select_binary(cs, present@, opt_bytes(on_path)) == select_binary(
                cs.skip(i as int),
                present@.skip(i as int),
                opt_bytes(on_path),
            ),
        decreases candidates.len() - i,
    {
        proof {
            assert(cs.skip(i as int).drop_first() =~= cs.skip(i + 1));
            assert(present@.skip(i as int).drop_first() =~= present@.skip(i + 1));
            assert(cs.skip(i as int)[0] == candidates@[i as int]@);
            assert(present@.skip(i as int)[0] == present@[i as int]);
        }
        if present[i] {
            let c = copy_range(candidates[i].as_slice(), 0, candidates[i].len());
            assert(c@ =~= candidates@[i as int]@);
            return Some(c);
        }
        i += 1;
    }
    proof {
        assert(cs.skip(i as int).len() == 0 || present@.skip(i as int).len() == 0);
    }
    on_path
}

/// A `gn` binary: a prebuilt one under the workspace root `root_dir` when
/// there is one, else one on `PATH`; nothing without a workspace root. The
/// prebuilt binaries are probed in order until one is present, and `PATH`
/// is searched only when none is; which of them exist, and what `PATH`
/// holds, is up to the machine.
pub fn find_gn_binary(root_dir: Option<&[u8]>) -> (r: Option<Vec<u8>>)
    ensures
        root_dir is None ==> r is None,
        root_dir matches Some(d) ==> exists|present: Seq<bool>, on_path: Option<Seq<u8>>|
            present.len() <= 2 && opt_bytes(r) == #[trigger] select_binary(prebuilt_binaries(d@), present, on_path),
{
    let root = match root_dir {
        Some(d) => d,
        None => return None,
    };
    let candidates = prebuilt_binary_paths(root);
    assert(lines_view(candidates@) =~= prebuilt_binaries(root@));
    let mut present: Vec<bool> = Vec::new();
    let mut found = false;
    let mut i: usize = 0;
    while i < candidates.len() && !found
        invariant
            i <= candidates@.len(),
            present@.len() == i,
            candidates@.len() == 2,
        decreases candidates.len() - i,
    {
        let p = path_exists(candidates[i].as_slice());
        present.push(p);
        found = p;
        i += 1;
    }
    let on_path = if found {
        None
    } else {
        which_gn()
    };
    let r = select_gn_binary(&candidates, &present, on_path);
    assert(opt_bytes(r) == select_binary(prebuilt_binaries(root@), present@, opt_bytes(on_path)));
    r
}

} // verus!
