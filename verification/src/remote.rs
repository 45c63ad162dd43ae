//! The remote-filesystem contract: remote keys under a configured sub-path,
//! listings with their prefix stripped, and the local mirror whose copies
//! are complete or absent. The network transfers themselves happen in the
//! host; this module decides the paths, the statuses and the mirror state,
//! and its laws say that a mirrored download repeats without a fetch and
//! that a deletion leaves no newly emptied ancestor directory behind.
use vstd::prelude::*;
use vstd::string::*;

use crate::error::CubeError;
use crate::numbers::{spec_u64_string, u64_to_string};
use crate::values::{parse_rfc3339_nanos, rfc3339_nanos};

verus! {

/// A listed remote file: its path with the sub-path prefix stripped, and its
/// last modification instant in nanoseconds since the Unix epoch.
#[derive(Debug, Clone, PartialEq, Eq)]
pub struct RemoteFile {
    pub remote_path: String,
    pub updated: i64,
}

/// The sub-path prefix as a character sequence; a missing sub-path reads as
/// empty.
pub open spec fn spec_sub_prefix(sub_path: Option<String>) -> Seq<char> {
    match sub_path {
        Some(s) => s@,
        None => Seq::empty(),
    }
}

/// The remote key of a path: `<sub_path>/<path>`.
pub open spec fn spec_remote_key(sub_path: Option<String>, path: Seq<char>) -> Seq<char> {
    spec_sub_prefix(sub_path) + "/"@ + path
}

/// A listed key with its leading `<sub_path>/` removed; a key without that
/// prefix is kept whole.
pub open spec fn spec_strip_key(sub_path: Option<String>, key: Seq<char>) -> Seq<char> {
    let prefix = spec_sub_prefix(sub_path) + "/"@;
    if key.len() >= prefix.len() && key.subrange(0, prefix.len() as int) == prefix {
        key.skip(prefix.len() as int)
    } else {
        key
    }
}

/// Stripping the key of a path yields the path back: listings round-trip.
pub proof fn lemma_strip_roundtrip(sub_path: Option<String>, path: Seq<char>)
    ensures
        spec_strip_key(sub_path, spec_remote_key(sub_path, path)) == path,
{
    let prefix = spec_sub_prefix(sub_path) + "/"@;
    let key = spec_remote_key(sub_path, path);
    assert(key =~= prefix + path);
    assert(key.subrange(0, prefix.len() as int) =~= prefix);
    assert(key.skip(prefix.len() as int) =~= path);
}

/// After a remote deletion, a listing that no longer carries the deleted
/// key never shows the deleted path: every listed key still starts with the
/// sub-path prefix, so stripping is injective.
pub proof fn lemma_deleted_path_not_listed(
    sub_path: Option<String>,
    keys: Seq<Seq<char>>,
    path: Seq<char>,
)
    requires
        forall|i: int|
            0 <= i < keys.len() ==> {
                let prefix = spec_sub_prefix(sub_path) + "/"@;
                (#[trigger] keys[i]).len() >= prefix.len() && keys[i].subrange(
                    0,
                    prefix.len() as int,
                ) == prefix
            },
        forall|i: int| 0 <= i < keys.len() ==> (#[trigger] keys[i]) != spec_remote_key(
            sub_path,
            path,
        ),
    ensures
        forall|i: int| 0 <= i < keys.len() ==> spec_strip_key(sub_path, #[trigger] keys[i])
            != path,
{
    let prefix = spec_sub_prefix(sub_path) + "/"@;
    assert forall|i: int| 0 <= i < keys.len() implies spec_strip_key(sub_path, #[trigger] keys[i])
        != path by {
        if spec_strip_key(sub_path, keys[i]) == path {
            assert(keys[i].skip(prefix.len() as int) == path);
            assert(keys[i] =~= prefix + path);
            assert(spec_remote_key(sub_path, path) =~= prefix + path);
        }
    }
}

/// `d` is an ancestor directory of the path `p`: a proper prefix of `p`
/// ending right before a separator.
pub open spec fn is_ancestor_dir(d: Seq<char>, p: Seq<char>) -> bool {
    0 < d.len() < p.len() && p.subrange(0, d.len() as int) == d && p[d.len() as int] == '/'
}

/// The mirror holds a complete local copy of this path.
pub open spec fn mirror_has(files: Seq<String>, p: Seq<char>) -> bool {
    exists|i: int| 0 <= i < files.len() && (#[trigger] files[i])@ == p
}

/// The entry already stood in the earlier list.
pub open spec fn entry_from(earlier: Seq<String>, entry: String) -> bool {
    exists|t0: int| 0 <= t0 < earlier.len() && earlier[t0] == entry
}

/// A directory is occupied while some mirrored file or some other tracked
/// directory lies underneath it.
pub open spec fn dir_occupied(files: Seq<String>, dirs: Seq<String>, d: Seq<char>) -> bool {
    ||| exists|i: int| 0 <= i < files.len() && is_ancestor_dir(d, (#[trigger] files[i])@)
    ||| exists|i: int| 0 <= i < dirs.len() && is_ancestor_dir(d, (#[trigger] dirs[i])@)
}

/// The S3-backed remote filesystem's decision state: the configured local
/// mirror root and remote sub-path, and the files and directories present
/// under the mirror root. The bucket handle and its credentials live with
/// the host, which performs the transfers and reports their statuses here.
#[derive(Debug, Clone, PartialEq, Eq)]
pub struct S3RemoteFs {
    pub dir: String,
    pub sub_path: Option<String>,
    pub mirror_files: Vec<String>,
    pub mirror_dirs: Vec<String>,
}

impl S3RemoteFs {
    /// A remote filesystem over an empty local mirror.
    pub fn new(dir: String, sub_path: Option<String>) -> (fs: S3RemoteFs)
        ensures
            fs.dir == dir,
            fs.sub_path == sub_path,
            fs.mirror_files@.len() == 0,
            fs.mirror_dirs@.len() == 0,
    {
        S3RemoteFs { dir, sub_path, mirror_files: Vec::new(), mirror_dirs: Vec::new() }
    }

    /// The remote key of a path: `<sub_path>/<path>`.
    pub fn s3_path(&self, remote_path: &str) -> (r: String)
        ensures
            r@ == spec_remote_key(self.sub_path, remote_path@),
    {
        let base = match &self.sub_path {
            Some(s) => s.clone(),
            None => String::new(),
        };
        let r = base.concat("/").concat(remote_path);
        proof {
            assert(r@ =~= spec_remote_key(self.sub_path, remote_path@));
        }
        r
    }

    /// Check an upload's outcome: success is exactly status 200; any other
    /// status is a user error naming it.
    pub fn upload_status(&self, status: u16) -> (r: Result<(), CubeError>)
        ensures
            r is Ok <==> status == 200,
            r matches Err(e) ==> e.message@ == "S3 upload returned non OK status: "@
                + spec_u64_string(status as int),
    {
        if status != 200 {
            return Err(
                CubeError::user(
                    String::from_str("S3 upload returned non OK status: ").concat(
                        u64_to_string(status as u64).as_str(),
                    ),
                ),
            );
        }
        Ok(())
    }

    /// The root of the local mirror.
    pub fn local_path(&self) -> (r: &String)
        ensures
            r == &self.dir,
    {
        &self.dir
    }

    /// The local mirror location of a path: `<dir>/<path>`.
    pub fn local_file(&self, remote_path: &str) -> (r: String)
        ensures
            r@ == self.dir@ + "/"@ + remote_path@,
    {
        let r = self.dir.clone().concat("/").concat(remote_path);
        proof {
            assert(r@ =~= self.dir@ + "/"@ + remote_path@);
        }
        r
    }

    /// Whether the mirror holds a complete local copy of this path.
    pub fn has_local(&self, remote_path: &str) -> (r: bool)
        ensures
            r == mirror_has(self.mirror_files@, remote_path@),
    {
        let rp = remote_path.to_owned();
        let mut i: usize = 0;
        while i < self.mirror_files.len()
            invariant
                rp@ == remote_path@,
                i <= self.mirror_files@.len(),
                forall|t: int| 0 <= t < i ==> (#[trigger] self.mirror_files@[t])@ != remote_path@,
            decreases self.mirror_files@.len() - i,
        {
            if self.mirror_files[i].eq(&rp) {
                return true;
            }
            i += 1;
        }
        false
    }

    /// Where a download must go: the mirrored local path when a complete
    /// copy exists (no fetch is performed then), or nothing, in which case
    /// the host must fetch and report the completed transfer.
    pub fn download_plan(&self, remote_path: &str) -> (r: Option<String>)
        ensures
            r is Some <==> mirror_has(self.mirror_files@, remote_path@),
            r matches Some(p) ==> p@ == self.dir@ + "/"@ + remote_path@,
    {
        if self.has_local(remote_path) {
            Some(self.local_file(remote_path))
        } else {
            None
        }
    }

    /// Record a completed download of a path. A status other than 200 is the
    /// fetch failing, names the status, and leaves the mirror unchanged; on
    /// success the mirror holds the path and the local file name is
    /// returned.
    pub fn download_complete(&mut self, remote_path: &str, status: u16) -> (r: Result<
        String,
        CubeError,
    >)
        ensures
            final(self).dir == old(self).dir,
            final(self).sub_path == old(self).sub_path,
            final(self).mirror_dirs == old(self).mirror_dirs,
            r is Ok <==> status == 200,
            r matches Err(e) ==> *final(self) == *old(self) && e.message@
                == "S3 download returned non OK status: "@ + spec_u64_string(status as int),
            r matches Ok(p) ==> {
                &&& p@ == old(self).dir@ + "/"@ + remote_path@
                &&& mirror_has(final(self).mirror_files@, remote_path@)
                &&& (forall|q: Seq<char>|
                    mirror_has(old(self).mirror_files@, q) ==> mirror_has(
                        final(self).mirror_files@,
                        q,
                    ))
            },
    {
        if status != 200 {
            return Err(
                CubeError::user(
                    String::from_str("S3 download returned non OK status: ").concat(
                        u64_to_string(status as u64).as_str(),
                    ),
                ),
            );
        }
        if !self.has_local(remote_path) {
            self.mirror_files.push(remote_path.to_owned());
            proof {
                let n = self.mirror_files@.len() - 1;
                assert(self.mirror_files@[n]@ == remote_path@);
                assert forall|q: Seq<char>|
                    mirror_has(old(self).mirror_files@, q) implies mirror_has(
                    self.mirror_files@,
                    q,
                ) by {
                    let i = choose|i: int|
                        0 <= i < old(self).mirror_files@.len() && (#[trigger] old(
                            self,
                        ).mirror_files@[i])@ == q;
                    assert(self.mirror_files@[i] == old(self).mirror_files@[i]);
                }
            }
        }
        Ok(self.local_file(remote_path))
    }

    /// Record a directory created under the mirror root.
    pub fn record_dir(&mut self, dir_path: &str)
        ensures
            final(self).dir == old(self).dir,
            final(self).sub_path == old(self).sub_path,
            final(self).mirror_files == old(self).mirror_files,
            mirror_has(final(self).mirror_dirs@, dir_path@),
            forall|q: Seq<char>|
                mirror_has(old(self).mirror_dirs@, q) ==> mirror_has(
                    final(self).mirror_dirs@,
                    q,
                ),
    {
        self.mirror_dirs.push(dir_path.to_owned());
        proof {
            let n = self.mirror_dirs@.len() - 1;
            assert(self.mirror_dirs@[n]@ == dir_path@);
            assert forall|q: Seq<char>|
                mirror_has(old(self).mirror_dirs@, q) implies mirror_has(
                self.mirror_dirs@,
                q,
            ) by {
                let i = choose|i: int|
                    0 <= i < old(self).mirror_dirs@.len() && (#[trigger] old(
                        self,
                    ).mirror_dirs@[i])@ == q;
                assert(self.mirror_dirs@[i] == old(self).mirror_dirs@[i]);
            }
        }
    }
}

/// A mirrored download repeats without any network fetch: once the mirror
/// holds the path, planning the same download again reports the same local
/// file and performs no state change at all (the plan reads the state).
pub proof fn lemma_download_idempotent(fs: S3RemoteFs, remote_path: Seq<char>)
    requires
        mirror_has(fs.mirror_files@, remote_path),
    ensures
        spec_download_plan(fs, remote_path) == Some(fs.dir@ + "/"@ + remote_path),
{
}

/// What planning a download reports, as a function of the state alone.
pub open spec fn spec_download_plan(fs: S3RemoteFs, remote_path: Seq<char>) -> Option<Seq<char>> {
    if mirror_has(fs.mirror_files@, remote_path) {
        Some(fs.dir@ + "/"@ + remote_path)
    } else {
        None
    }
}

} // verus!

verus! {

/// Whether `d` is an ancestor directory of `p`.
fn is_under(d: &str, p: &str) -> (r: bool)
    ensures
        r == is_ancestor_dir(d@, p@),
{
    let dn = d.unicode_len();
    let pn = p.unicode_len();
    if dn == 0 || dn >= pn {
        return false;
    }
    if p.get_char(dn) != '/' {
        return false;
    }
    let mut i: usize = 0;
    while i < dn
        invariant
            i <= dn,
            dn == d@.len(),
            pn == p@.len(),
            0 < dn < pn,
            forall|t: int| 0 <= t < i ==> p@[t] == d@[t],
        decreases dn - i,
    {
        if p.get_char(i) != d.get_char(i) {
            proof {
                assert(p@.subrange(0, dn as int)[i as int] != d@[i as int]);
            }
            return false;
        }
        i += 1;
    }
    proof {
        assert(p@.subrange(0, dn as int) =~= d@);
    }
    true
}

/// The ancestor directories of a path, shallowest first.
#[verifier::loop_isolation(false)]
fn ancestors_of(path: &str) -> (r: Vec<String>)
    ensures
        forall|k: int| 0 <= k < r@.len() ==> is_ancestor_dir((#[trigger] r@[k])@, path@),
        forall|d: Seq<char>| is_ancestor_dir(d, path@) ==> exists|k: int|
            0 <= k < r@.len() && (#[trigger] r@[k])@ == d,
        forall|k1: int, k2: int|
            0 <= k1 < k2 < r@.len() ==> is_ancestor_dir((#[trigger] r@[k1])@, (#[trigger] r@[k2])@),
{
    let n = path.unicode_len();
    let mut r: Vec<String> = Vec::new();
    let mut i: usize = 0;
    while i < n
        invariant
            i <= n,
            forall|k: int|
                0 <= k < r@.len() ==> is_ancestor_dir((#[trigger] r@[k])@, path@),
            forall|k: int|
                0 <= k < r@.len() ==> (#[trigger] r@[k])@ =~= path@.subrange(
                    0,
                    r@[k]@.len() as int,
                ) && r@[k]@.len() < i,
            forall|j: int|
                0 < j < i && path@[j] == '/' ==> exists|k: int|
                    0 <= k < r@.len() && (#[trigger] r@[k])@.len() == j,
            forall|k1: int, k2: int| 0 <= k1 < k2 < r@.len() ==> r@[k1]@.len() < r@[k2]@.len(),
        decreases n - i,
    {
        let ghost pre_r = r@;
        if i > 0 && path.get_char(i) == '/' {
            let d = path.substring_char(0, i);
            r.push(d.to_owned());
            proof {
                let k = r@.len() - 1;
                assert(r@[k]@ =~= path@.subrange(0, i as int));
                assert(is_ancestor_dir(r@[k]@, path@));
            }
        }
        proof {
            assert forall|j: int| 0 < j < i + 1 && path@[j] == '/' implies exists|k: int|
                0 <= k < r@.len() && (#[trigger] r@[k])@.len() == j by {
                if j < i {
                    let k = choose|k: int| 0 <= k < pre_r.len() && (#[trigger] pre_r[k])@.len()
                        == j;
                    assert(r@[k]@.len() == j);
                } else {
                    assert(r@[r@.len() - 1]@.len() == j);
                }
            }
        }
        i += 1;
    }
    proof {
        assert forall|d: Seq<char>| is_ancestor_dir(d, path@) implies exists|k: int|
            0 <= k < r@.len() && (#[trigger] r@[k])@ == d by {
            let j = d.len() as int;
            assert(path@[j] == '/');
            let k = choose|k: int| 0 <= k < r@.len() && (#[trigger] r@[k])@.len() == j;
            assert(r@[k]@ =~= d);
        }
        assert forall|k1: int, k2: int|
            0 <= k1 < k2 < r@.len() implies is_ancestor_dir(
            (#[trigger] r@[k1])@,
            (#[trigger] r@[k2])@,
        ) by {
            let d1 = r@[k1]@;
            let d2 = r@[k2]@;
            assert(d1 =~= path@.subrange(0, d1.len() as int));
            assert(d2 =~= path@.subrange(0, d2.len() as int));
            assert(d2.subrange(0, d1.len() as int) =~= d1);
            assert(d2[d1.len() as int] == path@[d1.len() as int]);
        }
    }
    r
}

impl S3RemoteFs {
    /// Whether some mirrored file or tracked directory lies under this
    /// directory.
    fn check_occupied(&self, d: &String) -> (r: bool)
        ensures
            r == dir_occupied(self.mirror_files@, self.mirror_dirs@, d@),
    {
        let mut i: usize = 0;
        while i < self.mirror_files.len()
            invariant
                i <= self.mirror_files@.len(),
                forall|t: int|
                    0 <= t < i ==> !is_ancestor_dir(d@, (#[trigger] self.mirror_files@[t])@),
            decreases self.mirror_files@.len() - i,
        {
            if is_under(d.as_str(), self.mirror_files[i].as_str()) {
                return true;
            }
            i += 1;
        }
        let mut j: usize = 0;
        while j < self.mirror_dirs.len()
            invariant
                j <= self.mirror_dirs@.len(),
                forall|t: int|
                    0 <= t < self.mirror_files@.len() ==> !is_ancestor_dir(
                        d@,
                        (#[trigger] self.mirror_files@[t])@,
                    ),
                forall|t: int|
                    0 <= t < j ==> !is_ancestor_dir(d@, (#[trigger] self.mirror_dirs@[t])@),
            decreases self.mirror_dirs@.len() - j,
        {
            if is_under(d.as_str(), self.mirror_dirs[j].as_str()) {
                return true;
            }
            j += 1;
        }
        false
    }

    /// Remove every mirrored-file entry carrying this path.
    fn remove_local_file(&mut self, remote_path: &str)
        ensures
            final(self).dir == old(self).dir,
            final(self).sub_path == old(self).sub_path,
            final(self).mirror_dirs == old(self).mirror_dirs,
            !mirror_has(final(self).mirror_files@, remote_path@),
            forall|q: Seq<char>|
                q != remote_path@ ==> (mirror_has(final(self).mirror_files@, q) <==> mirror_has(
                    old(self).mirror_files@,
                    q,
                )),
    {
        let rp = remote_path.to_owned();
        let mut kept: Vec<String> = Vec::new();
        let mut work: Vec<String> = Vec::new();
        core::mem::swap(&mut work, &mut self.mirror_files);
        let ghost all = work@;
        proof {
            assert(work@ =~= all.subrange(all.len() - work@.len(), all.len() as int));
        }
        while work.len() > 0
            invariant
                rp@ == remote_path@,
                work@.len() <= all.len(),
                work@ == all.subrange(all.len() - work@.len(), all.len() as int),
                forall|t: int| 0 <= t < kept@.len() ==> (#[trigger] kept@[t])@ != remote_path@,
                forall|t: int|
                    0 <= t < kept@.len() ==> exists|t0: int|
                        0 <= t0 < all.len() && (#[trigger] kept@[t]) == all[t0],
                forall|t0: int|
                    0 <= t0 < all.len() - work@.len() && (#[trigger] all[t0])@ != remote_path@
                        ==> exists|t: int|
                        0 <= t < kept@.len() && (#[trigger] kept@[t]) == all[t0],
            decreases work@.len(),
        {
            let ghost k = all.len() - work@.len();
            proof {
                assert(work@[0] == all[k]);
            }
            let f = work.remove(0);
            let ghost pre_kept = kept@;
            if !f.eq(&rp) {
                kept.push(f);
            }
            proof {
                assert(work@ =~= all.subrange(all.len() - work@.len(), all.len() as int));
                assert forall|t0: int|
                    0 <= t0 < k + 1 && (#[trigger] all[t0])@ != remote_path@ implies exists|t: int|
                    0 <= t < kept@.len() && (#[trigger] kept@[t]) == all[t0] by {
                    if t0 < k {
                        let t = choose|t: int|
                            0 <= t < pre_kept.len() && (#[trigger] pre_kept[t]) == all[t0];
                        assert(kept@[t] == all[t0]);
                    } else {
                        assert(kept@[kept@.len() - 1] == all[t0]);
                    }
                }
            }
        }
        self.mirror_files = kept;
    }

    /// Record a completed remote deletion of a path. A status other than 204
    /// is the deletion failing, names the status, and changes nothing. On
    /// success the local mirror drops its copy, and every ancestor directory
    /// left empty by that removal is pruned, deepest first.
    #[verifier::loop_isolation(false)]
    pub fn delete_file(&mut self, remote_path: &str, status: u16) -> (r: Result<(), CubeError>)
        ensures
            final(self).dir == old(self).dir,
            final(self).sub_path == old(self).sub_path,
            r is Ok <==> status == 204,
            r matches Err(e) ==> *final(self) == *old(self) && e.message@
                == "S3 delete returned non OK status: "@ + spec_u64_string(status as int),
            r is Ok ==> {
                &&& !mirror_has(final(self).mirror_files@, remote_path@)
                &&& (forall|q: Seq<char>|
                    q != remote_path@ ==> (mirror_has(final(self).mirror_files@, q)
                        <==> mirror_has(old(self).mirror_files@, q)))
                &&& (forall|d: Seq<char>|
                    is_ancestor_dir(d, remote_path@) && mirror_has(final(self).mirror_dirs@, d)
                        ==> dir_occupied(
                        final(self).mirror_files@,
                        final(self).mirror_dirs@,
                        d,
                    ))
                &&& (forall|q: Seq<char>|
                    !is_ancestor_dir(q, remote_path@) ==> (mirror_has(
                        final(self).mirror_dirs@,
                        q,
                    ) <==> mirror_has(old(self).mirror_dirs@, q)))
                &&& (forall|d: Seq<char>|
                    is_ancestor_dir(d, remote_path@) && mirror_has(old(self).mirror_dirs@, d)
                        && !mirror_has(final(self).mirror_dirs@, d) ==> !dir_occupied(
                        final(self).mirror_files@,
                        final(self).mirror_dirs@,
                        d,
                    ))
            },
    {
        if status != 204 {
            return Err(
                CubeError::user(
                    String::from_str("S3 delete returned non OK status: ").concat(
                        u64_to_string(status as u64).as_str(),
                    ),
                ),
            );
        }
        self.remove_local_file(remote_path);
        let dirs = ancestors_of(remote_path);
        let mut k: usize = dirs.len();
        let ghost files_now = self.mirror_files@;
        while k > 0
            invariant
                k <= dirs@.len(),
                self.mirror_files@ == files_now,
                self.dir == old(self).dir,
                self.sub_path == old(self).sub_path,
                forall|d: Seq<char>|
                    is_ancestor_dir(d, remote_path@) && mirror_has(self.mirror_dirs@, d) && (
                    forall|t: int| 0 <= t < k ==> (#[trigger] dirs@[t])@ != d) ==> dir_occupied(
                        self.mirror_files@,
                        self.mirror_dirs@,
                        d,
                    ),
                forall|q: Seq<char>|
                    !is_ancestor_dir(q, remote_path@) ==> (mirror_has(self.mirror_dirs@, q)
                        <==> mirror_has(old(self).mirror_dirs@, q)),
                forall|d: Seq<char>|
                    is_ancestor_dir(d, remote_path@) && mirror_has(old(self).mirror_dirs@, d)
                        && !mirror_has(self.mirror_dirs@, d) ==> !dir_occupied(
                        self.mirror_files@,
                        self.mirror_dirs@,
                        d,
                    ),
            decreases k,
        {
            k -= 1;
            let d = &dirs[k];
            if self.check_occupied(d) {
                // The deepest surviving ancestor is occupied; everything
                // above it holds it underneath, so pruning stops here.
                if self.dir_present(d) {
                    proof {
                        lemma_chain_occupied(*self, dirs@, k as int, remote_path@);
                    }
                    return Ok(());
                }
            } else {
                let ghost pre = *self;
                self.remove_dir(d.as_str());
                proof {
                    // A directory is dropped only while nothing lies under
                    // it, and shrinking the tracked set cannot occupy one.
                    assert forall|d2: Seq<char>|
                        is_ancestor_dir(d2, remote_path@) && mirror_has(
                            old(self).mirror_dirs@,
                            d2,
                        ) && !mirror_has(self.mirror_dirs@, d2) implies !dir_occupied(
                        self.mirror_files@,
                        self.mirror_dirs@,
                        d2,
                    ) by {
                        assert(!dir_occupied(pre.mirror_files@, pre.mirror_dirs@, d2)) by {
                            if d2 != dirs@[k as int]@ {
                                assert(!mirror_has(pre.mirror_dirs@, d2));
                            }
                        }
                        if dir_occupied(self.mirror_files@, self.mirror_dirs@, d2) {
                            if exists|i: int|
                                0 <= i < self.mirror_dirs@.len() && is_ancestor_dir(
                                    d2,
                                    (#[trigger] self.mirror_dirs@[i])@,
                                ) {
                                let i = choose|i: int|
                                    0 <= i < self.mirror_dirs@.len() && is_ancestor_dir(
                                        d2,
                                        (#[trigger] self.mirror_dirs@[i])@,
                                    );
                                assert(entry_from(pre.mirror_dirs@, self.mirror_dirs@[i]));
                                let t0 = choose|t0: int|
                                    0 <= t0 < pre.mirror_dirs@.len() && pre.mirror_dirs@[t0] == (
                                    #[trigger] self.mirror_dirs@[i]);
                                assert(is_ancestor_dir(d2, pre.mirror_dirs@[t0]@));
                            }
                        }
                    }
                }
            }
        }
        Ok(())
    }

    /// Whether this directory is tracked under the mirror root.
    fn dir_present(&self, d: &String) -> (r: bool)
        ensures
            r == mirror_has(self.mirror_dirs@, d@),
    {
        let mut i: usize = 0;
        while i < self.mirror_dirs.len()
            invariant
                i <= self.mirror_dirs@.len(),
                forall|t: int| 0 <= t < i ==> (#[trigger] self.mirror_dirs@[t])@ != d@,
            decreases self.mirror_dirs@.len() - i,
        {
            if self.mirror_dirs[i].eq(d) {
                return true;
            }
            i += 1;
        }
        false
    }

    /// Remove every tracked-directory entry carrying this path.
    fn remove_dir(&mut self, dir_path: &str)
        ensures
            final(self).dir == old(self).dir,
            final(self).sub_path == old(self).sub_path,
            final(self).mirror_files == old(self).mirror_files,
            !mirror_has(final(self).mirror_dirs@, dir_path@),
            forall|q: Seq<char>|
                q != dir_path@ ==> (mirror_has(final(self).mirror_dirs@, q) <==> mirror_has(
                    old(self).mirror_dirs@,
                    q,
                )),
            forall|t: int|
                0 <= t < final(self).mirror_dirs@.len() ==> #[trigger] entry_from(
                    old(self).mirror_dirs@,
                    final(self).mirror_dirs@[t],
                ),
            forall|d: Seq<char>, t: int|
                0 <= t < final(self).mirror_dirs@.len() && #[trigger] is_ancestor_dir(
                    d,
                    (#[trigger] final(self).mirror_dirs@[t])@,
                ) ==> dir_occupied(old(self).mirror_files@, old(self).mirror_dirs@, d),
    {
        let rp = dir_path.to_owned();
        let mut kept: Vec<String> = Vec::new();
        let mut work: Vec<String> = Vec::new();
        core::mem::swap(&mut work, &mut self.mirror_dirs);
        let ghost all = work@;
        proof {
            assert(work@ =~= all.subrange(all.len() - work@.len(), all.len() as int));
        }
        while work.len() > 0
            invariant
                rp@ == dir_path@,
                work@.len() <= all.len(),
                work@ == all.subrange(all.len() - work@.len(), all.len() as int),
                forall|t: int| 0 <= t < kept@.len() ==> (#[trigger] kept@[t])@ != dir_path@,
                forall|t: int|
                    0 <= t < kept@.len() ==> exists|t0: int|
                        0 <= t0 < all.len() && (#[trigger] kept@[t]) == all[t0],
                forall|t0: int|
                    0 <= t0 < all.len() - work@.len() && (#[trigger] all[t0])@ != dir_path@
                        ==> exists|t: int|
                        0 <= t < kept@.len() && (#[trigger] kept@[t]) == all[t0],
            decreases work@.len(),
        {
            let ghost k = all.len() - work@.len();
            proof {
                assert(work@[0] == all[k]);
            }
            let f = work.remove(0);
            let ghost pre_kept = kept@;
            if !f.eq(&rp) {
                kept.push(f);
            }
            proof {
                assert(work@ =~= all.subrange(all.len() - work@.len(), all.len() as int));
                assert forall|t0: int|
                    0 <= t0 < k + 1 && (#[trigger] all[t0])@ != dir_path@ implies exists|t: int|
                    0 <= t < kept@.len() && (#[trigger] kept@[t]) == all[t0] by {
                    if t0 < k {
                        let t = choose|t: int|
                            0 <= t < pre_kept.len() && (#[trigger] pre_kept[t]) == all[t0];
                        assert(kept@[t] == all[t0]);
                    } else {
                        assert(kept@[kept@.len() - 1] == all[t0]);
                    }
                }
            }
        }
        self.mirror_dirs = kept;
        proof {
            assert forall|t: int|
                0 <= t < self.mirror_dirs@.len() implies #[trigger] entry_from(
                old(self).mirror_dirs@,
                self.mirror_dirs@[t],
            ) by {
                let t0 = choose|t0: int|
                    0 <= t0 < all.len() && (#[trigger] self.mirror_dirs@[t]) == all[t0];
                assert(0 <= t0 < old(self).mirror_dirs@.len() && old(self).mirror_dirs@[t0]
                    == self.mirror_dirs@[t]);
            }
            assert forall|d: Seq<char>, t: int|
                0 <= t < self.mirror_dirs@.len() && #[trigger] is_ancestor_dir(
                    d,
                    (#[trigger] self.mirror_dirs@[t])@,
                ) implies dir_occupied(old(self).mirror_files@, old(self).mirror_dirs@, d) by {
                let t0 = choose|t0: int|
                    0 <= t0 < all.len() && (#[trigger] self.mirror_dirs@[t]) == all[t0];
                assert(is_ancestor_dir(d, old(self).mirror_dirs@[t0]@));
            }
        }
    }
}

/// When pruning stops at a surviving occupied ancestor, every shallower
/// ancestor of the deleted path is occupied too: it holds that surviving
/// directory underneath it.
pub proof fn lemma_chain_occupied(fs: S3RemoteFs, dirs: Seq<String>, k: int, path: Seq<char>)
    requires
        0 <= k < dirs.len(),
        forall|t: int| 0 <= t < dirs.len() ==> is_ancestor_dir((#[trigger] dirs[t])@, path),
        forall|t1: int, t2: int|
            0 <= t1 < t2 < dirs.len() ==> is_ancestor_dir(
                (#[trigger] dirs[t1])@,
                (#[trigger] dirs[t2])@,
            ),
        mirror_has(fs.mirror_dirs@, dirs[k]@),
        dir_occupied(fs.mirror_files@, fs.mirror_dirs@, dirs[k]@),
        forall|d: Seq<char>|
            is_ancestor_dir(d, path) && mirror_has(fs.mirror_dirs@, d) && (forall|t: int|
                0 <= t <= k ==> (#[trigger] dirs[t])@ != d) ==> dir_occupied(
                fs.mirror_files@,
                fs.mirror_dirs@,
                d,
            ),
    ensures
        forall|d: Seq<char>|
            is_ancestor_dir(d, path) && mirror_has(fs.mirror_dirs@, d) ==> dir_occupied(
                fs.mirror_files@,
                fs.mirror_dirs@,
                d,
            ),
{
    assert forall|d: Seq<char>|
        is_ancestor_dir(d, path) && mirror_has(fs.mirror_dirs@, d) implies dir_occupied(
        fs.mirror_files@,
        fs.mirror_dirs@,
        d,
    ) by {
        if exists|t: int| 0 <= t <= k && (#[trigger] dirs[t])@ == d {
            let t = choose|t: int| 0 <= t <= k && (#[trigger] dirs[t])@ == d;
            if t == k {
                assert(dir_occupied(fs.mirror_files@, fs.mirror_dirs@, d));
            } else {
                // The surviving deeper ancestor lies underneath this one.
                assert(is_ancestor_dir(dirs[t]@, dirs[k]@));
                let i = choose|i: int|
                    0 <= i < fs.mirror_dirs@.len() && (#[trigger] fs.mirror_dirs@[i])@ == dirs[k]@;
                assert(is_ancestor_dir(d, fs.mirror_dirs@[i]@));
            }
        }
    }
}

/// Turn one raw listing entry into a listed file: strip the sub-path prefix
/// from the key and read the RFC 3339 timestamp; a timestamp that does not
/// parse is a user error naming the key.
pub fn process_listing_entry(sub_path: &Option<String>, key: &str, last_modified: &str) -> (r:
    Result<RemoteFile, CubeError>)
    ensures
        r is Ok <==> rfc3339_nanos(last_modified@) is Some,
        r matches Ok(f) ==> {
            &&& f.remote_path@ == spec_strip_key(*sub_path, key@)
            &&& Some(f.updated) == rfc3339_nanos(last_modified@)
        },
{
    let updated = match parse_rfc3339_nanos(last_modified) {
        Some(n) => n,
        None => {
            return Err(
                CubeError::user(
                    String::from_str("cannot parse last-modified time of ").concat(key),
                ),
            );
        },
    };
    let prefix = match sub_path {
        Some(s) => s.clone().concat("/"),
        None => String::from_str("/"),
    };
    proof {
        assert(prefix@ =~= spec_sub_prefix(*sub_path) + "/"@);
    }
    let kn = key.unicode_len();
    let pn = prefix.as_str().unicode_len();
    let mut matches_prefix = kn >= pn;
    let mut i: usize = 0;
    while i < pn
        invariant
            i <= pn,
            pn == prefix@.len(),
            kn == key@.len(),
            matches_prefix ==> kn >= pn && (forall|t: int| 0 <= t < i ==> key@[t] == prefix@[t]),
            !matches_prefix ==> !(key@.len() >= prefix@.len() && key@.subrange(0, pn as int)
                == prefix@),
        decreases pn - i,
    {
        if !matches_prefix {
            i = pn;
        } else if key.get_char(i) != prefix.as_str().get_char(i) {
            proof {
                if key@.len() >= prefix@.len() {
                    assert(key@.subrange(0, pn as int)[i as int] != prefix@[i as int]);
                }
            }
            matches_prefix = false;
            i = pn;
        } else {
            i += 1;
        }
    }
    let remote_path = if matches_prefix {
        proof {
            assert(key@.subrange(0, pn as int) =~= prefix@);
        }
        let s = key.substring_char(pn, kn);
        proof {
            assert(s@ =~= key@.skip(pn as int));
        }
        s.to_owned()
    } else {
        key.to_owned()
    };
    Ok(RemoteFile { remote_path, updated })
}

} // verus!

verus! {

/// Turn a raw listing — each entry a key and its last-modified text — into
/// listed files, in order; the first entry whose timestamp does not parse
/// fails the listing.
#[verifier::loop_isolation(false)]
pub fn process_listing(sub_path: &Option<String>, entries: &Vec<(String, String)>) -> (r: Result<
    Vec<RemoteFile>,
    CubeError,
>)
    ensures
        r is Ok <==> (forall|i: int|
            0 <= i < entries@.len() ==> rfc3339_nanos((#[trigger] entries@[i]).1@) is Some),
        r matches Ok(files) ==> {
            &&& files@.len() == entries@.len()
            &&& (forall|i: int|
                0 <= i < entries@.len() ==> {
                    &&& (#[trigger] files@[i]).remote_path@ == spec_strip_key(
                        *sub_path,
                        entries@[i].0@,
                    )
                    &&& Some(files@[i].updated) == rfc3339_nanos(entries@[i].1@)
                })
        },
{
    let mut files: Vec<RemoteFile> = Vec::new();
    let mut i: usize = 0;
    while i < entries.len()
        invariant
            i <= entries@.len(),
            files@.len() == i,
            forall|t: int|
                0 <= t < i ==> {
                    &&& (#[trigger] files@[t]).remote_path@ == spec_strip_key(
                        *sub_path,
                        entries@[t].0@,
                    )
                    &&& Some(files@[t].updated) == rfc3339_nanos(entries@[t].1@)
                },
        decreases entries@.len() - i,
    {
        let entry = &entries[i];
        let f = match process_listing_entry(sub_path, entry.0.as_str(), entry.1.as_str()) {
            Ok(f) => f,
            Err(e) => {
                proof {
                    assert(rfc3339_nanos((entries@[i as int]).1@) is None);
                }
                return Err(e);
            },
        };
        files.push(f);
        i += 1;
    }
    proof {
        assert forall|i2: int|
            0 <= i2 < entries@.len() implies rfc3339_nanos(
            (#[trigger] entries@[i2]).1@,
        ) is Some by {
            assert(Some(files@[i2].updated) == rfc3339_nanos(entries@[i2].1@));
        }
    }
    Ok(files)
}

/// The listed paths alone, in listing order.
pub fn list_paths(files: &Vec<RemoteFile>) -> (r: Vec<String>)
    ensures
        r@.len() == files@.len(),
        forall|i: int|
            0 <= i < files@.len() ==> (#[trigger] r@[i])@ == files@[i].remote_path@,
{
    let mut r: Vec<String> = Vec::new();
    let mut i: usize = 0;
    while i < files.len()
        invariant
            i <= files@.len(),
            r@.len() == i,
            forall|t: int|
                0 <= t < i ==> (#[trigger] r@[t])@ == files@[t].remote_path@,
        decreases files@.len() - i,
    {
        r.push(files[i].remote_path.clone());
        i += 1;
    }
    r
}

} // verus!
