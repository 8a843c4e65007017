//! Paths as the file system takes them, and what a failed link can tell of
//! them.
use vstd::prelude::*;
use vstd::string::*;

use crate::path::PathBuf;
use crate::text::{chars_of, concat, concat3, join, starts_with};

verus! {

pub open spec fn is_letter(c: char) -> bool {
    ('a' <= c && c <= 'z') || ('A' <= c && c <= 'Z')
}

/// The path begins with a drive and its root.
pub open spec fn has_drive_root(t: Seq<char>) -> bool {
    t.len() >= 3 && is_letter(t[0]) && t[1] == ':' && crate::server::linker::is_separator(t[2])
}

/// The path begins with two separators and a device, or a server and one of its
/// shares.
pub open spec fn has_network_root(t: Seq<char>) -> bool {
    let e = crate::server::linker::segment_end(t, 2);
    &&& t.len() >= 2
    &&& crate::server::linker::is_separator(t[0])
    &&& crate::server::linker::is_separator(t[1])
    &&& 2 < e < t.len()
    &&& t.subrange(2, e) == seq!['.'] || (e + 1 < t.len() && !crate::server::linker::is_separator(
        t[e + 1],
    ))
}

/// The path is absolute by the rules of Windows.
pub open spec fn is_windows_absolute(t: Seq<char>) -> bool {
    has_drive_root(t) || has_network_root(t)
}

/// The path in the form that Windows takes at any length.
pub open spec fn windows_path(t: Seq<char>) -> Seq<char> {
    if !is_windows_absolute(t) || crate::text::has_prefix(t, "\\\\?\\"@) {
        t
    } else if crate::text::has_prefix(t, "\\\\"@) {
        "\\\\?\\UNC\\"@ + t.skip(2)
    } else {
        "\\\\?\\"@ + t
    }
}

/// A path in the long form stays as it is.
pub proof fn long_form_is_kept(t: Seq<char>)
    ensures
        windows_path(windows_path(t)) == windows_path(t),
{
    reveal_strlit("\\\\?\\");
    reveal_strlit("\\\\?\\UNC\\");
    let w = windows_path(t);
    if w != t {
        assert(w.take("\\\\?\\"@.len() as int) == "\\\\?\\"@);
    }
}

/// A path without a drive stays as it is where it is relative or begins with a
/// single separator.
pub proof fn other_paths_are_kept(t: Seq<char>)
    requires
        !(t.len() >= 2 && is_letter(t[0]) && t[1] == ':'),
        !(t.len() >= 2 && crate::server::linker::is_separator(t[0])
            && crate::server::linker::is_separator(t[1])),
    ensures
        windows_path(t) == t,
{
}

/// An absolute path with a drive, and one on the network, get the long form:
/// what stands before them is all that is added, and of a network path the two
/// backslashes make way for it.
pub proof fn absolute_path_gets_long_form(t: Seq<char>, rest: Seq<char>)
    ensures
        t.len() >= 3 && is_letter(t[0]) && t[1] == ':' && (t[2] == '/' || t[2] == '\\')
            ==> windows_path(t) == "\\\\?\\"@ + t,
        t == "\\\\"@ + rest && has_network_root(t) && !crate::text::has_prefix(rest, "?\\"@)
            ==> windows_path(t) == "\\\\?\\UNC\\"@ + rest,
{
    reveal_strlit("\\\\?\\");
    reveal_strlit("\\\\");
    reveal_strlit("?\\");
    assert("\\\\?\\"@[0] == '\\' && "\\\\"@[0] == '\\');
    if t.len() >= 3 && is_letter(t[0]) && t[1] == ':' {
        if crate::text::has_prefix(t, "\\\\?\\"@) {
            assert(t.take("\\\\?\\"@.len() as int)[0] == '\\');
        }
        if crate::text::has_prefix(t, "\\\\"@) {
            assert(t.take("\\\\"@.len() as int)[0] == '\\');
        }
    }
    if t == "\\\\"@ + rest {
        assert(t.take(2) == "\\\\"@);
        assert(t.skip(2) == rest);
        if crate::text::has_prefix(t, "\\\\?\\"@) {
            let p = t.take("\\\\?\\"@.len() as int);
            assert(p[2] == rest[0] && p[3] == rest[1]);
            assert(rest.take(2) == "?\\"@);
        }
    }
}

fn is_absolute_on_windows(t: &Vec<char>) -> (r: bool)
    ensures
        r == is_windows_absolute(t@),
{
    let n: usize = t.len();
    if n >= 3 && (('a' <= t[0] && t[0] <= 'z') || ('A' <= t[0] && t[0] <= 'Z')) && t[1] == ':' && (
    t[2] == '/' || t[2] == '\\') {
        return true;
    }
    if n < 2 || (t[0] != '/' && t[0] != '\\') || (t[1] != '/' && t[1] != '\\') {
        return false;
    }
    let mut e: usize = 2;
    while e < n && t[e] != '/' && t[e] != '\\'
        invariant
            2 <= e <= n,
            n == t@.len(),
            crate::server::linker::segment_end(t@, e as int) == crate::server::linker::segment_end(
                t@,
                2,
            ),
        decreases n - e,
    {
        e = e + 1;
    }
    let device = e == 3 && n > 2 && t[2] == '.';
    proof {
        let s = t@.subrange(2, e as int);
        if e == 3 {
            if t@[2] == '.' {
                assert(s == seq!['.']);
            } else {
                assert(s[0] != '.');
            }
        } else {
            assert(s.len() != 1);
        }
    }
    2 < e && e < n && (device || (e + 1 < n && t[e + 1] != '/' && t[e + 1] != '\\'))
}

/// The path as it is handed to the file system. On Windows it takes the form
/// that is accepted at any length: an absolute path gets the prefix `\\?\`, with
/// `UNC\` in place of the two leading separators of a network path, and other
/// paths, and those that have the prefix, stay as they are. On other systems
/// every path stays as it is.
pub fn windows_fs_path(path: &PathBuf, on_windows: bool) -> (r: PathBuf)
    ensures
        r@ == (if on_windows {
            windows_path(path@)
        } else {
            path@
        }),
{
    if !on_windows {
        return path.clone();
    }
    let text = path.as_str();
    let chars = chars_of(text);
    if !is_absolute_on_windows(&chars) || starts_with(text, "\\\\?\\") {
        return path.clone();
    }
    if starts_with(text, "\\\\") {
        let rest = crate::text::slice(text, 2, chars.len());
        assert(rest@ == path@.skip(2));
        return PathBuf::new(concat("\\\\?\\UNC\\", rest.as_str()).as_str());
    }
    PathBuf::new(concat("\\\\?\\", text).as_str())
}

/// What stands at a path.
#[derive(Debug, Clone, Copy, PartialEq, Eq, Structural)]
pub enum PathKind {
    Dir,
    File,
    Symlink,
    Other,
    Missing,
}

/// A path that was looked at.
pub struct PathProbe {
    pub path: String,
    pub kind: PathKind,
    /// The first directory on the way to it that is missing.
    pub first_missing: Option<String>,
}

pub open spec fn kind_text(k: PathKind) -> Seq<char> {
    match k {
        PathKind::Dir => "dir"@,
        PathKind::File => "file"@,
        PathKind::Symlink => "symlink"@,
        PathKind::Other => "other"@,
        PathKind::Missing => "missing"@,
    }
}

/// What a look at a path tells.
pub open spec fn probe_text(label: Seq<char>, probe: Option<PathProbe>) -> Seq<char> {
    match probe {
        None => label + "=<none>"@,
        Some(p) => label + "="@ + p.path@ + " (exists="@ + (if p.kind is Missing {
            "false"@
        } else {
            "true"@
        }) + ", type="@ + kind_text(p.kind) + (match p.first_missing {
            Some(m) => ", first_missing="@ + m@,
            None => seq![],
        }) + ")"@,
    }
}

/// What a look at a path tells.
pub fn probe_path(label: &str, probe: &Option<PathProbe>) -> (r: String)
    ensures
        r@ == probe_text(label@, *probe),
{
    match probe {
        None => concat(label, "=<none>"),
        Some(p) => {
            let mut r = concat3(label, "=", p.path.as_str());
            r.append(" (exists=");
            let (exists, kind) = match p.kind {
                PathKind::Dir => ("true", "dir"),
                PathKind::File => ("true", "file"),
                PathKind::Symlink => ("true", "symlink"),
                PathKind::Other => ("true", "other"),
                PathKind::Missing => ("false", "missing"),
            };
            r.append(exists);
            r.append(", type=");
            r.append(kind);
            let ghost before = r@;
            let missing = match &p.first_missing {
                Some(m) => concat(", first_missing=", m.as_str()),
                None => "".to_owned(),
            };
            proof {
                reveal_strlit("");
                if p.first_missing is None {
                    assert(missing@ == Seq::<char>::empty());
                }
            }
            r.append(missing.as_str());
            r.append(")");
            r
        },
    }
}

/// An error of the system that says that a file was not found.
pub open spec fn is_not_found(not_found: bool, raw_os_error: Option<i32>) -> bool {
    not_found || raw_os_error == Some(2i32) || raw_os_error == Some(3i32)
}

/// The message of a link that failed because something was not found: what
/// failed, and what was seen of the two paths and their directories. Any other
/// error is reported as it is.
pub fn link_not_found_diagnostics(
    not_found: bool,
    raw_os_error: Option<i32>,
    operation: &str,
    error: &str,
    download_path: &Option<PathProbe>,
    download_parent: &Option<PathProbe>,
    library_path: &Option<PathProbe>,
    library_parent: &Option<PathProbe>,
) -> (r: Option<String>)
    ensures
        r is Some == is_not_found(not_found, raw_os_error),
        r matches Some(m) ==> m@ == crate::text::joined(
            seq![
                operation@ + " failed with not-found error while linking files: "@ + error@,
                probe_text("download_path"@, *download_path),
                probe_text("download_parent"@, *download_parent),
                probe_text("library_path"@, *library_path),
                probe_text("library_parent"@, *library_parent),
            ],
            " | "@,
        ),
{
    let raw = match raw_os_error {
        Some(n) => n == 2 || n == 3,
        None => false,
    };
    if !not_found && !raw {
        return None;
    }
    let mut details: Vec<String> = Vec::new();
    details.push(
        concat3(operation, " failed with not-found error while linking files: ", error),
    );
    details.push(probe_path("download_path", download_path));
    details.push(probe_path("download_parent", download_parent));
    details.push(probe_path("library_path", library_path));
    details.push(probe_path("library_parent", library_parent));
    let r = join(&details, " | ");
    assert(crate::text::texts(details@) == seq![
        operation@ + " failed with not-found error while linking files: "@ + error@,
        probe_text("download_path"@, *download_path),
        probe_text("download_parent"@, *download_parent),
        probe_text("library_path"@, *library_path),
        probe_text("library_parent"@, *library_parent),
    ]);
    Some(r)
}

/// The path that the first `k` components make up.
pub open spec fn leading_path(p: Seq<Seq<char>>, k: int) -> Seq<char>
    decreases k,
{
    if k <= 0 {
        seq![]
    } else {
        crate::path::path_join(leading_path(p, k - 1), p[k - 1])
    }
}

/// The paths on the way to a path, from its first component on to itself.
pub fn leading_paths(path: &PathBuf) -> (r: Vec<PathBuf>)
    ensures
        r@.len() == crate::path::parts(path@).len(),
        forall|k: int|
            0 <= k < r@.len() ==> (#[trigger] r@[k])@ == leading_path(
                crate::path::parts(path@),
                k + 1,
            ),
{
    let components = path.components();
    let ghost p = crate::path::parts(path@);
    let mut current = PathBuf::new("");
    proof {
        reveal_strlit("");
        assert(current@ == leading_path(p, 0));
    }
    let mut r: Vec<PathBuf> = Vec::new();
    let mut i: usize = 0;
    while i < components.len()
        invariant
            i <= components@.len(),
            crate::text::texts(components@) == p,
            p == crate::path::parts(path@),
            current@ == leading_path(p, i as int),
            r@.len() == i,
            forall|k: int| 0 <= k < i ==> (#[trigger] r@[k])@ == leading_path(p, k + 1),
        decreases components@.len() - i,
    {
        assert(components@[i as int]@ == p[i as int]);
        current = current.join(components[i].as_str());
        r.push(current.clone());
        i = i + 1;
    }
    r
}

/// Each path on the way to a path has the leading components of it.
pub proof fn leading_path_has_leading_parts(t: Seq<char>, k: int)
    requires
        0 <= k <= crate::path::parts(t).len(),
    ensures
        crate::path::parts(leading_path(crate::path::parts(t), k)) == crate::path::parts(t).take(k),
        k > 0 ==> leading_path(crate::path::parts(t), k).len() > 0,
    decreases k,
{
    let p = crate::path::parts(t);
    if k == 0 {
        crate::path::lemma_no_parts();
        assert(p.take(0) == Seq::<Seq<char>>::empty());
    } else {
        leading_path_has_leading_parts(t, k - 1);
        let a = leading_path(p, k - 1);
        let b = p[k - 1];
        crate::path::lemma_part_shapes(t, k - 1);
        assert(p.take(k) == p.take(k - 1).push(b));
        if k == 1 {
            assert(crate::path::path_join(a, b) == b);
            if b == seq!['/'] {
                crate::path::lemma_root_parts();
            } else {
                crate::path::lemma_single_name(b);
            }
        } else {
            crate::path::lemma_single_name(b);
            assert(b[0] != '/');
            crate::path::join_appends_parts(a, b);
        }
    }
}

/// The first path on the way to a path that is missing. `present` tells of each
/// of its leading paths whether it is there.
pub fn first_missing_component(path: &PathBuf, present: &Vec<bool>) -> (r: Option<PathBuf>)
    requires
        present@.len() == crate::path::parts(path@).len(),
    ensures
        match r {
            Some(m) => exists|k: int|
                0 <= k < present@.len() && !(#[trigger] present@[k]) && (forall|j: int|
                    0 <= j < k ==> present@[j]) && m@ == leading_path(
                    crate::path::parts(path@),
                    k + 1,
                ),
            None => forall|k: int| 0 <= k < present@.len() ==> present@[k],
        },
{
    let paths = leading_paths(path);
    let mut i: usize = 0;
    while i < present.len()
        invariant
            i <= present@.len(),
            present@.len() == paths@.len(),
            paths@.len() == crate::path::parts(path@).len(),
            forall|k: int|
                0 <= k < paths@.len() ==> (#[trigger] paths@[k])@ == leading_path(
                    crate::path::parts(path@),
                    k + 1,
                ),
            forall|k: int| 0 <= k < i ==> present@[k],
        decreases present@.len() - i,
    {
        if !present[i] {
            assert(!present@[i as int]);
            return Some(paths[i].clone());
        }
        i = i + 1;
    }
    None
}

/// An error tells that something was not found by its kind, or by the numbers 2
/// and 3, and by nothing else.
pub proof fn missing_file_is_told_by_number(number: Option<i32>)
    ensures
        is_not_found(true, number),
        is_not_found(false, number) <==> (number matches Some(n) && (n == 2 || n == 3)),
{
}

} // verus!
