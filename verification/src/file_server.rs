//! The static file server: mounts map URL routes to filesystem locations,
//! and resolution turns a request path into a safe filesystem path. A path
//! with a `..` segment, or an absolute one, is rejected before any mount is
//! consulted, so no request can name a file above a mount root.
use vstd::prelude::*;

use crate::strutil::{
    spec_split, spec_starts_with, spec_trim_char, split_str, starts_with, str_eq, trim_char,
};

verus! {

/// Why mapping or resolution failed.
#[derive(PartialEq, Eq, Structural, Debug, Clone, Copy)]
pub enum FileError {
    /// The route is already mapped.
    AlreadyMapped,
    /// The request path is absolute or climbs with `..`.
    UnsafePath,
    /// No mount covers the request path.
    NoMount,
    /// The resolved path names nothing on disk.
    NotFound,
    /// The resolved path names something other than a regular file.
    NotAFile,
}

/// One mount: a URL route mapped to a filesystem path, as a whole file or as
/// a directory prefix.
#[derive(Debug, PartialEq, Eq, Hash, Clone)]
pub struct MountPoint {
    pub route: String,
    pub fs_path: String,
    pub is_directory: bool,
}

/// The mathematical shape of a mount.
#[verifier::ext_equal]
pub ghost struct MountView {
    pub route: Seq<char>,
    pub fs_path: Seq<char>,
    pub is_directory: bool,
}

impl View for MountPoint {
    type V = MountView;

    open spec fn view(&self) -> MountView {
        MountView { route: self.route@, fs_path: self.fs_path@, is_directory: self.is_directory }
    }
}

/// The file server: its mounts, in registration order.
#[derive(Debug)]
pub struct FileServer {
    pub mount_points: Vec<MountPoint>,
}

/// The mount views of a file server.
pub open spec fn mounts_of(fs: &FileServer) -> Seq<MountView> {
    fs.mount_points@.map_values(|m: MountPoint| m@)
}

/// A relative path that never climbs: it does not start with `/` and no
/// `/`-separated segment is `..`.
pub open spec fn spec_safe_path(s: Seq<char>) -> bool {
    &&& (s.len() == 0 || s[0] != '/')
    &&& forall|k: int|
        0 <= k < spec_split(s, '/').len() ==> #[trigger] spec_split(s, '/')[k] != ".."@
}

/// The first mount at position `i` or later that maps exactly the file route
/// `t`.
pub open spec fn first_file_mount(ms: Seq<MountView>, t: Seq<char>, i: int) -> Option<MountView>
    decreases ms.len() - i,
{
    if i < 0 || i >= ms.len() {
        None
    } else if !ms[i].is_directory && ms[i].route == t {
        Some(ms[i])
    } else {
        first_file_mount(ms, t, i + 1)
    }
}

/// The first directory mount at position `i` or later whose route is a
/// prefix of `t`.
pub open spec fn first_dir_mount(ms: Seq<MountView>, t: Seq<char>, i: int) -> Option<MountView>
    decreases ms.len() - i,
{
    if i < 0 || i >= ms.len() {
        None
    } else if ms[i].is_directory && spec_starts_with(t, ms[i].route) {
        Some(ms[i])
    } else {
        first_dir_mount(ms, t, i + 1)
    }
}

/// Joining a relative name onto a directory path: a `/` stands between them
/// unless one already does or one side is empty.
pub open spec fn spec_join(dir: Seq<char>, name: Seq<char>) -> Seq<char> {
    if name.len() == 0 {
        dir
    } else if dir.len() == 0 {
        name
    } else if dir.last() == '/' {
        dir + name
    } else {
        dir + "/"@ + name
    }
}

/// What resolving a request path against the mounts yields: the path is
/// trimmed of surrounding slashes and must be safe; an exact file mount wins,
/// else the first directory mount whose route prefixes the path serves the
/// remainder joined onto its directory.
pub open spec fn spec_resolve(ms: Seq<MountView>, file: Seq<char>) -> Result<Seq<char>, FileError> {
    let t = spec_trim_char(file, '/');
    if !spec_safe_path(t) {
        Err(FileError::UnsafePath)
    } else {
        match first_file_mount(ms, t, 0) {
            Some(m) => Ok(m.fs_path),
            None => match first_dir_mount(ms, t, 0) {
                Some(m) => Ok(
                    spec_join(m.fs_path, spec_trim_char(t.skip(m.route.len() as int), '/')),
                ),
                None => Err(FileError::NoMount),
            },
        }
    }
}

/// Relies on `std::path::Path::exists`: whether the path names anything on
/// disk. Nothing is promised of the result; it depends on the filesystem.
#[verifier::external_body]
fn path_exists(p: &str) -> bool {
    std::path::Path::new(p).exists()
}

/// Relies on `std::path::Path::is_file`: whether the path names a regular
/// file. Nothing is promised of the result; it depends on the filesystem.
#[verifier::external_body]
fn path_is_file(p: &str) -> bool {
    std::path::Path::new(p).is_file()
}

/// Decides whether a path is a safe relative subpath: not absolute and
/// without any `..` segment.
pub fn is_safe_relative_subpath(path: &str) -> (r: bool)
    ensures
        r == spec_safe_path(path@),
{
    let n = path.unicode_len();
    if n > 0 && path.get_char(0) == '/' {
        return false;
    }
    let segments = split_str(path, '/');
    let ghost segs = spec_split(path@, '/');
    let m = segments.len();
    let mut k: usize = 0;
    while k < m
        invariant
            k <= m,
            m == segments@.len(),
            segments@.map_values(|x: String| x@) == segs,
            segs == spec_split(path@, '/'),
            n == path@.len(),
            n == 0 || path@[0] != '/',
            forall|j: int| 0 <= j < k ==> segs[j] != ".."@,
        decreases m - k,
    {
        if str_eq(segments[k].as_str(), "..") {
            assert(segs[k as int] == ".."@);
            return false;
        }
        proof {
            assert(segs[k as int] == segments@[k as int]@);
        }
        k = k + 1;
    }
    true
}

impl Default for FileServer {
    /// A file server with no mounts.
    fn default() -> (r: FileServer)
        ensures
            mounts_of(&r) == Seq::<MountView>::empty(),
    {
        FileServer::new()
    }
}

impl FileServer {
    /// A file server with no mounts.
    pub fn new() -> (r: FileServer)
        ensures
            mounts_of(&r) == Seq::<MountView>::empty(),
    {
        let r = FileServer { mount_points: Vec::new() };
        proof {
            assert(mounts_of(&r) =~= Seq::<MountView>::empty());
        }
        r
    }

    fn map(self, route: &str, fs_path: &str, is_directory: bool) -> (r: Result<
        FileServer,
        FileError,
    >)
        ensures
            r is Ok <==> !(exists|k: int|
                0 <= k < mounts_of(&self).len() && (#[trigger] mounts_of(&self)[k]).route
                    == spec_trim_char(route@, '/')),
            r matches Ok(fs) ==> mounts_of(&fs) == mounts_of(&self).push(
                MountView {
                    route: spec_trim_char(route@, '/'),
                    fs_path: fs_path@,
                    is_directory,
                },
            ),
            r matches Err(e) ==> e == FileError::AlreadyMapped,
    {
        let trimmed = trim_char(route, '/');
        let n = self.mount_points.len();
        let mut k: usize = 0;
        while k < n
            invariant
                k <= n,
                n == self.mount_points@.len(),
                forall|j: int|
                    0 <= j < k ==> (#[trigger] mounts_of(&self)[j]).route != spec_trim_char(
                        route@,
                        '/',
                    ),
                trimmed@ == spec_trim_char(route@, '/'),
            decreases n - k,
        {
            if str_eq(self.mount_points[k].route.as_str(), trimmed) {
                assert(mounts_of(&self)[k as int].route == spec_trim_char(route@, '/'));
                return Err(FileError::AlreadyMapped);
            }
            proof {
                assert(mounts_of(&self)[k as int].route == self.mount_points@[k as int].route@);
            }
            k = k + 1;
        }
        let mount = MountPoint {
            route: trimmed.to_owned(),
            fs_path: fs_path.to_owned(),
            is_directory,
        };
        let ghost pre = mounts_of(&self);
        let FileServer { mount_points } = self;
        let mut mount_points = mount_points;
        mount_points.push(mount);
        let r = FileServer { mount_points };
        proof {
            assert(mounts_of(&r) =~= pre.push(
                MountView {
                    route: spec_trim_char(route@, '/'),
                    fs_path: fs_path@,
                    is_directory,
                },
            ));
        }
        Ok(r)
    }

    /// Mounts a directory: requests whose path starts with `route` are served
    /// from files under `dir_path`. Fails iff the trimmed route is mapped
    /// already.
    pub fn map_dir(self, route: &str, dir_path: &str) -> (r: Result<FileServer, FileError>)
        ensures
            r is Ok <==> !(exists|k: int|
                0 <= k < mounts_of(&self).len() && (#[trigger] mounts_of(&self)[k]).route
                    == spec_trim_char(route@, '/')),
            r matches Ok(fs) ==> mounts_of(&fs) == mounts_of(&self).push(
                MountView {
                    route: spec_trim_char(route@, '/'),
                    fs_path: dir_path@,
                    is_directory: true,
                },
            ),
            r matches Err(e) ==> e == FileError::AlreadyMapped,
    {
        self.map(route, dir_path, true)
    }

    /// Mounts one file: requests whose trimmed path equals the trimmed route
    /// are served that file. Fails iff the trimmed route is mapped already.
    pub fn map_file(self, route: &str, file_path: &str) -> (r: Result<FileServer, FileError>)
        ensures
            r is Ok <==> !(exists|k: int|
                0 <= k < mounts_of(&self).len() && (#[trigger] mounts_of(&self)[k]).route
                    == spec_trim_char(route@, '/')),
            r matches Ok(fs) ==> mounts_of(&fs) == mounts_of(&self).push(
                MountView {
                    route: spec_trim_char(route@, '/'),
                    fs_path: file_path@,
                    is_directory: false,
                },
            ),
            r matches Err(e) ==> e == FileError::AlreadyMapped,
    {
        self.map(route, file_path, false)
    }

    /// Resolves a request path to the filesystem path its mounts name,
    /// without consulting the disk.
    pub fn get_file_path(&self, file: &str) -> (r: Result<String, FileError>)
        ensures
            r is Ok <==> spec_resolve(mounts_of(self), file@) is Ok,
            r matches Ok(p) ==> spec_resolve(mounts_of(self), file@) == Ok::<Seq<char>, FileError>(
                p@,
            ),
            r matches Err(e) ==> spec_resolve(mounts_of(self), file@) == Err::<
                Seq<char>,
                FileError,
            >(e),
    {
        let ghost ms = mounts_of(self);
        let trimmed = trim_char(file, '/');
        if !is_safe_relative_subpath(trimmed) {
            return Err(FileError::UnsafePath);
        }
        let n = self.mount_points.len();
        let mut k: usize = 0;
        while k < n
            invariant
                k <= n,
                n == self.mount_points@.len(),
                ms == mounts_of(self),
                trimmed@ == spec_trim_char(file@, '/'),
                spec_safe_path(trimmed@),
                first_file_mount(ms, trimmed@, 0) == first_file_mount(ms, trimmed@, k as int),
            decreases n - k,
        {
            let mp = &self.mount_points[k];
            proof {
                assert(ms[k as int] == self.mount_points@[k as int]@);
            }
            if !mp.is_directory && str_eq(mp.route.as_str(), trimmed) {
                return Ok(mp.fs_path.clone());
            }
            k = k + 1;
        }
        let mut k: usize = 0;
        while k < n
            invariant
                k <= n,
                n == self.mount_points@.len(),
                ms == mounts_of(self),
                trimmed@ == spec_trim_char(file@, '/'),
                spec_safe_path(trimmed@),
                first_file_mount(ms, trimmed@, 0) is None,
                first_dir_mount(ms, trimmed@, 0) == first_dir_mount(ms, trimmed@, k as int),
            decreases n - k,
        {
            let mp = &self.mount_points[k];
            proof {
                assert(ms[k as int] == self.mount_points@[k as int]@);
            }
            if mp.is_directory && starts_with(trimmed, mp.route.as_str()) {
                let tn = trimmed.unicode_len();
                let rn = mp.route.as_str().unicode_len();
                let rest = trimmed.substring_char(rn, tn);
                proof {
                    assert(rest@ =~= trimmed@.skip(ms[k as int].route.len() as int));
                }
                let name = trim_char(rest, '/');
                let dir = mp.fs_path.as_str();
                let dn = dir.unicode_len();
                let mut out: String;
                if name.unicode_len() == 0 {
                    out = dir.to_owned();
                } else if dn == 0 {
                    out = name.to_owned();
                } else if dir.get_char(dn - 1) == '/' {
                    out = dir.to_owned();
                    out.append(name);
                } else {
                    out = dir.to_owned();
                    out.append("/");
                    out.append(name);
                }
                proof {
                    assert(out@ == spec_join(ms[k as int].fs_path, spec_trim_char(
                        trimmed@.skip(ms[k as int].route.len() as int),
                        '/',
                    )));
                }
                return Ok(out);
            }
            k = k + 1;
        }
        Err(FileError::NoMount)
    }

    fn validate_file_exists(file_path: &str) -> (r: Result<(), FileError>)
        ensures
            r matches Err(e) ==> e == FileError::NotFound || e == FileError::NotAFile,
    {
        if !path_exists(file_path) {
            return Err(FileError::NotFound);
        }
        if !path_is_file(file_path) {
            return Err(FileError::NotAFile);
        }
        Ok(())
    }

    /// Resolves a request path and then checks that a regular file stands
    /// there. An `Ok` path is always the one that `spec_resolve` names; a
    /// resolution failure is returned as such, and a path naming nothing, or
    /// not a regular file, fails with the disk's verdict.
    pub fn handle_file_access(&self, file: &str) -> (r: Result<String, FileError>)
        ensures
            r matches Ok(p) ==> spec_resolve(mounts_of(self), file@) == Ok::<Seq<char>, FileError>(
                p@,
            ),
            spec_resolve(mounts_of(self), file@) matches Err(e) ==> r == Err::<String, FileError>(
                e,
            ),
            r matches Err(e) ==> (spec_resolve(mounts_of(self), file@) == Err::<
                Seq<char>,
                FileError,
            >(e) || e == FileError::NotFound || e == FileError::NotAFile),
    {
        let file_path = match self.get_file_path(file) {
            Ok(p) => p,
            Err(e) => {
                return Err(e);
            },
        };
        match Self::validate_file_exists(file_path.as_str()) {
            Ok(_) => Ok(file_path),
            Err(e) => Err(e),
        }
    }
}

/// The traversal law: a request path with a `..` segment, or an absolute
/// one, is rejected whatever the mounts are.
pub proof fn lemma_traversal_rejected(ms: Seq<MountView>, file: Seq<char>)
    requires
        ({
            let t = spec_trim_char(file, '/');
            (t.len() > 0 && t[0] == '/') || exists|k: int|
                0 <= k < spec_split(t, '/').len() && #[trigger] spec_split(t, '/')[k] == ".."@
        }),
    ensures
        spec_resolve(ms, file) == Err::<Seq<char>, FileError>(FileError::UnsafePath),
{
}

} // verus!
