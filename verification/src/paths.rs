//! Path safety: every file operation path is canonicalized against the
//! extraction root, and the canonical result must stay inside the root.

use vstd::prelude::*;

verus! {

use crate::control::spec_find_char;
use crate::errors::AprilError;
use crate::strutil::str_eq_chars;
use vstd::string::StrSliceExecFns;
use vstd::string::StringExecFns;

/// Relies on `std::path::Path::join` and `Path::canonicalize`: resolves
/// the path joined under the root against the filesystem (following `..`
/// and symbolic links) into an absolute form.  The result depends on what
/// is on disk, so nothing is promised of it; a resolution failure or a
/// non-unicode result gives `None`.
#[verifier::external_body]
fn canonicalize_under(root: &str, path: &str) -> (r: Option<String>) {
    let joined = std::path::Path::new(root).join(path);
    match joined.canonicalize() {
        Ok(p) => p.into_os_string().into_string().ok(),
        Err(_) => None,
    }
}

/// The components of a path string: the pieces between `/` separators,
/// empty pieces dropped.
pub open spec fn spec_path_components(s: Seq<char>) -> Seq<Seq<char>>
    decreases s.len(),
        via spec_path_components_decreases
{
    let i = spec_find_char(s, '/');
    if i == s.len() {
        if s.len() > 0 {
            seq![s]
        } else {
            Seq::empty()
        }
    } else {
        (if i > 0 {
            seq![s.take(i)]
        } else {
            Seq::<Seq<char>>::empty()
        }) + spec_path_components(s.skip(i + 1))
    }
}

#[via_fn]
proof fn spec_path_components_decreases(s: Seq<char>) {
    crate::control::lemma_find_char(s, '/');
}

/// Whether a path string is absolute.
pub open spec fn spec_path_is_abs(s: Seq<char>) -> bool {
    s.len() > 0 && s[0] == '/'
}

/// Whether the candidate path stays within the root: both are absolute or
/// both relative, and the root's components are a prefix of the
/// candidate's.
pub open spec fn spec_path_within(root: Seq<char>, candidate: Seq<char>) -> bool {
    let rc = spec_path_components(root);
    let cc = spec_path_components(candidate);
    &&& spec_path_is_abs(root) == spec_path_is_abs(candidate)
    &&& rc.len() <= cc.len()
    &&& cc.take(rc.len() as int) == rc
}

/// Split a path into its non-empty components.
fn split_path(s: &str) -> (r: Vec<String>)
    ensures
        r@.map_values(|p: String| p@) == spec_path_components(s@),
    decreases s@.len(),
{
    let n = s.unicode_len();
    let mut out: Vec<String> = Vec::new();
    let mut pos: usize = 0;
    proof {
        assert(out@.map_values(|p: String| p@) =~= Seq::<Seq<char>>::empty());
        assert(s@.skip(0) =~= s@);
    }
    while pos < n
        invariant
            n == s@.len(),
            pos <= n,
            spec_path_components(s@) == out@.map_values(|p: String| p@)
                + spec_path_components(s@.skip(pos as int)),
        decreases n - pos,
    {
        let ghost rem = s@.skip(pos as int);
        let ghost out0 = out@.map_values(|p: String| p@);
        // Find the next separator.
        let mut cend: usize = pos;
        while cend < n && s.get_char(cend) != '/'
            invariant
                n == s@.len(),
                pos <= cend <= n,
                forall|m: int| pos <= m < cend ==> s@[m] != '/',
            decreases n - cend,
        {
            cend = cend + 1;
        }
        proof {
            crate::control::lemma_find_char(rem, '/');
            assert(forall|m: int|
                0 <= m < cend - pos ==> rem[m] == s@[pos + m] && rem[m] != '/');
            if cend < n {
                assert(rem[cend - pos] == '/');
                if spec_find_char(rem, '/') < cend - pos {
                    assert(rem[spec_find_char(rem, '/')] != '/');
                }
                assert(spec_find_char(rem, '/') == cend - pos);
            } else {
                if spec_find_char(rem, '/') < rem.len() {
                    assert(rem[spec_find_char(rem, '/')] != '/');
                }
                assert(spec_find_char(rem, '/') == rem.len());
            }
        }
        if cend > pos {
            let piece = s.substring_char(pos, cend).to_owned();
            proof {
                assert(piece@ =~= rem.take(cend - pos));
            }
            out.push(piece);
            proof {
                assert(out@.map_values(|p: String| p@) =~= out0.push(rem.take(cend - pos)));
            }
        }
        if cend >= n {
            proof {
                assert(rem.take(cend - pos) =~= rem);
                assert(spec_path_components(rem) =~= (if rem.len() > 0 {
                    seq![rem]
                } else {
                    Seq::<Seq<char>>::empty()
                }));
                assert(out@.map_values(|p: String| p@) + spec_path_components(
                    s@.skip(n as int),
                ) =~= out@.map_values(|p: String| p@));
                assert(spec_path_components(s@.skip(n as int)).len() == 0);
            }
            pos = n;
        } else {
            proof {
                assert(rem.skip(cend - pos + 1) =~= s@.skip(cend as int + 1));
                assert(out@.map_values(|p: String| p@) + spec_path_components(
                    s@.skip(cend as int + 1),
                ) =~= out0 + spec_path_components(rem));
            }
            pos = cend + 1;
        }
    }
    proof {
        assert(spec_path_components(s@.skip(n as int)).len() == 0);
        assert(out@.map_values(|p: String| p@) + spec_path_components(s@.skip(n as int))
            =~= out@.map_values(|p: String| p@));
    }
    out
}

/// Whether the candidate path stays within the root, component-wise.
pub fn path_is_within(root: &str, candidate: &str) -> (r: bool)
    ensures
        r == spec_path_within(root@, candidate@),
{
    let root_abs = !root.is_empty() && root.get_char(0) == '/';
    let cand_abs = !candidate.is_empty() && candidate.get_char(0) == '/';
    if root_abs != cand_abs {
        return false;
    }
    let rc = split_path(root);
    let cc = split_path(candidate);
    if rc.len() > cc.len() {
        return false;
    }
    let ghost rcv = rc@.map_values(|p: String| p@);
    let ghost ccv = cc@.map_values(|p: String| p@);
    let mut i: usize = 0;
    while i < rc.len()
        invariant
            i <= rc@.len() <= cc@.len(),
            rcv == rc@.map_values(|p: String| p@),
            ccv == cc@.map_values(|p: String| p@),
            rcv == spec_path_components(root@),
            ccv == spec_path_components(candidate@),
            forall|k: int| 0 <= k < i ==> ccv[k] == rcv[k],
        decreases rc@.len() - i,
    {
        proof {
            assert(rcv[i as int] == rc@[i as int]@);
            assert(ccv[i as int] == cc@[i as int]@);
        }
        if !str_eq_chars(rc[i].as_str(), cc[i].as_str()) {
            proof {
                assert(ccv.take(rcv.len() as int)[i as int] == ccv[i as int]);
            }
            return false;
        }
        i = i + 1;
    }
    proof {
        assert(ccv.take(rcv.len() as int) =~= rcv);
    }
    true
}

/// Admit or refuse a canonicalized path: handed the canonical form of a
/// joined path, return exactly that string when it stays within the
/// root, and the path-safety error naming the original path when it
/// does not.
pub fn check_canonical_path(root: &str, path: &str, candidate: String) -> (r: Result<
    String,
    AprilError,
>)
    ensures
        spec_path_within(root@, candidate@) ==> r == Ok::<String, AprilError>(candidate),
        !spec_path_within(root@, candidate@) ==> (r matches Err(AprilError::InvalidFilePath(q))
            && q@ == path@),
{
    if path_is_within(root, candidate.as_str()) {
        Ok(candidate)
    } else {
        Err(AprilError::InvalidFilePath(path.to_owned()))
    }
}

/// Resolve a path against the extraction root: the joined path is
/// canonicalized by the filesystem, and the canonical result, returned
/// unchanged through `check_canonical_path`, is accepted only if it stays
/// within the root.  The canonical form itself depends on what is on
/// disk, so nothing more is promised of it: `Ok` carries a within-root
/// path, the path-safety error names the rejected input, and `Io` means
/// the resolution itself failed.
pub fn resolve_path(root: &str, path: &str) -> (r: Result<String, AprilError>)
    ensures
        match r {
            Ok(p) => spec_path_within(root@, p@),
            Err(e) => e matches AprilError::InvalidFilePath(q) && q@ == path@ || e matches
                AprilError::Io(_),
        },
{
    match canonicalize_under(root, path) {
        None => Err(AprilError::Io(path.to_owned())),
        Some(c) => check_canonical_path(root, path, c),
    }
}

} // verus!
