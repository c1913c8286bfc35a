//! Guards for paths that are meant to stay inside a workspace.
//!
//! How a path splits into components, and how two paths are joined, is a
//! matter of the platform that the library is built for and left to the
//! standard library: what it finds is named here, not spelled out. What
//! the components must look like is decided here.

use std::path::{Component, Path};
use vstd::prelude::*;

verus! {

/// The kind of one component of a path.
#[derive(Clone, Copy, Debug, PartialEq, Eq, Structural)]
pub enum ComponentKind {
    /// A drive or share prefix.
    Prefix,
    /// The root directory.
    RootDir,
    /// A reference to the current directory.
    CurDir,
    /// A reference to the parent directory.
    ParentDir,
    /// An ordinary name.
    Normal,
}

/// Why a path is turned down.
#[derive(Clone, Copy, Debug, PartialEq, Eq, Structural)]
pub enum PathError {
    /// The path is absolute where a relative one is expected.
    AbsolutePath,
    /// The path climbs to a parent, or starts at a root or a prefix.
    Traversal,
    /// The path joined to the workspace root does not lie under it.
    OutsideWorkspace,
}

/// What a target in the workspace is expected to be.
#[derive(Clone, Copy, Debug, PartialEq, Eq, Structural)]
pub enum TargetKind {
    Directory,
    File,
}

/// Why a target in the workspace is turned down.
#[derive(Clone, Copy, Debug, PartialEq, Eq, Structural)]
pub enum TargetError {
    /// The workspace path is no directory.
    WorkspaceNotDirectory,
    /// No directory is found where one is expected.
    DirectoryMissing,
    /// What is found where a directory is expected is none.
    NotDirectory,
    /// No file is found where one is expected.
    FileMissing,
    /// What is found where a file is expected is none.
    NotFile,
}

impl TargetError {
    pub fn message(self) -> (r: &'static str)
        ensures
            r@ == match self {
                TargetError::WorkspaceNotDirectory => "Workspace path must be a directory."@,
                TargetError::DirectoryMissing => "Directory does not exist."@,
                TargetError::NotDirectory => "Target is not a directory."@,
                TargetError::FileMissing => "File does not exist."@,
                TargetError::NotFile => "Target is not a file."@,
            },
    {
        match self {
            TargetError::WorkspaceNotDirectory => "Workspace path must be a directory.",
            TargetError::DirectoryMissing => "Directory does not exist.",
            TargetError::NotDirectory => "Target is not a directory.",
            TargetError::FileMissing => "File does not exist.",
            TargetError::NotFile => "Target is not a file.",
        }
    }
}

/// Why what was found at a target is turned down, if it is: that nothing
/// is there comes first, then that it is of the wrong kind.
pub open spec fn found_error(expected: TargetKind, exists: bool, is_kind: bool) -> Option<
    TargetError,
> {
    if !exists {
        Some(
            match expected {
                TargetKind::Directory => TargetError::DirectoryMissing,
                TargetKind::File => TargetError::FileMissing,
            },
        )
    } else if !is_kind {
        Some(
            match expected {
                TargetKind::Directory => TargetError::NotDirectory,
                TargetKind::File => TargetError::NotFile,
            },
        )
    } else {
        None
    }
}

/// Decides whether what was found at a target is what is expected there.
/// `is_kind` says whether it is of the expected kind.
pub fn check_found(expected: TargetKind, exists: bool, is_kind: bool) -> (r: Result<
    (),
    TargetError,
>)
    ensures
        match r {
            Ok(_) => found_error(expected, exists, is_kind) is None,
            Err(e) => found_error(expected, exists, is_kind) == Some(e),
        },
{
    if !exists {
        match expected {
            TargetKind::Directory => Err(TargetError::DirectoryMissing),
            TargetKind::File => Err(TargetError::FileMissing),
        }
    } else if !is_kind {
        match expected {
            TargetKind::Directory => Err(TargetError::NotDirectory),
            TargetKind::File => Err(TargetError::NotFile),
        }
    } else {
        Ok(())
    }
}

/// Decides whether a canonical path can serve as a workspace.
pub fn check_workspace(is_dir: bool) -> (r: Result<(), TargetError>)
    ensures
        match r {
            Ok(_) => is_dir,
            Err(e) => !is_dir && e == TargetError::WorkspaceNotDirectory,
        },
{
    if is_dir {
        Ok(())
    } else {
        Err(TargetError::WorkspaceNotDirectory)
    }
}

impl PathError {
    pub fn message(self) -> (r: &'static str)
        ensures
            r@ == match self {
                PathError::AbsolutePath => "Relative path expected."@,
                PathError::Traversal => "Path traversal is not allowed."@,
                PathError::OutsideWorkspace => "Target path is outside workspace."@,
            },
    {
        match self {
            PathError::AbsolutePath => "Relative path expected.",
            PathError::Traversal => "Path traversal is not allowed.",
            PathError::OutsideWorkspace => "Target path is outside workspace.",
        }
    }
}

impl ComponentKind {
    /// Whether a component of this kind leaves the directory it is
    /// resolved in.
    pub open spec fn escapes(self) -> bool {
        self == ComponentKind::ParentDir || self == ComponentKind::RootDir || self
            == ComponentKind::Prefix
    }
}

/// Why a path with these properties is no safe relative path, if it is
/// none: an absolute path comes first, then a component that escapes.
pub open spec fn relative_path_error(is_absolute: bool, kinds: Seq<ComponentKind>) -> Option<
    PathError,
> {
    if is_absolute {
        Some(PathError::AbsolutePath)
    } else if exists|k: int| 0 <= k < kinds.len() && (#[trigger] kinds[k]).escapes() {
        Some(PathError::Traversal)
    } else {
        None
    }
}

/// Why a target is turned down, if it is: an unsafe relative path comes
/// first, then a joined path that does not lie under the root.
pub open spec fn target_error(
    is_absolute: bool,
    kinds: Seq<ComponentKind>,
    under_root: bool,
) -> Option<PathError> {
    match relative_path_error(is_absolute, kinds) {
        Some(e) => Some(e),
        None => if under_root {
            None
        } else {
            Some(PathError::OutsideWorkspace)
        },
    }
}

/// Whether the standard library takes a path for absolute.
pub uninterp spec fn platform_absolute(path: Seq<char>) -> bool;

/// The kinds of the components that the standard library splits a path
/// into, in their order.
pub uninterp spec fn platform_components(path: Seq<char>) -> Seq<ComponentKind>;

/// The path that the standard library makes of a root and a path that is
/// resolved against it.
pub uninterp spec fn platform_join(root: Seq<char>, relative: Seq<char>) -> Seq<char>;

/// Whether the standard library finds the components of `base` to be the
/// first components of `path`.
pub uninterp spec fn platform_starts_with(path: Seq<char>, base: Seq<char>) -> bool;

/// What becomes of a path that is meant to be a safe relative path: the
/// path itself, or the reason for which it is turned down.
pub open spec fn safe_relative_path(path: Seq<char>) -> Result<Seq<char>, PathError> {
    match relative_path_error(platform_absolute(path), platform_components(path)) {
        Some(e) => Err(e),
        None => Ok(path),
    }
}

/// What becomes of a relative path that is resolved against the root of a
/// workspace: the joined path, or the reason for which the path is turned
/// down. The joined path is looked at only where the relative path is
/// safe.
pub open spec fn workspace_target(root: Seq<char>, relative: Seq<char>) -> Result<
    Seq<char>,
    PathError,
> {
    let joined = platform_join(root, relative);
    match target_error(
        platform_absolute(relative),
        platform_components(relative),
        platform_starts_with(joined, root),
    ) {
        Some(e) => Err(e),
        None => Ok(joined),
    }
}

/// `Path::is_absolute` on the path that the text stands for. The answer
/// is a matter of the text alone, by the rules of the platform that the
/// library is built for; it is named, not spelled out.
#[verifier::external_body]
fn is_absolute_path(path: &str) -> (r: bool)
    ensures
        r == platform_absolute(path@),
{
    Path::new(path).is_absolute()
}

/// `Path::components` on the path that the text stands for, each component
/// told by its kind. The split is a matter of the text alone, by the rules
/// of the platform that the library is built for; it is named, not spelled
/// out.
#[verifier::external_body]
fn component_kinds(path: &str) -> (kinds: Vec<ComponentKind>)
    ensures
        kinds@ == platform_components(path@),
{
    Path::new(path).components().map(
        |c| match c {
            Component::Prefix(_) => ComponentKind::Prefix,
            Component::RootDir => ComponentKind::RootDir,
            Component::CurDir => ComponentKind::CurDir,
            Component::ParentDir => ComponentKind::ParentDir,
            Component::Normal(_) => ComponentKind::Normal,
        },
    ).collect()
}

/// `Path::join` on the paths that the two texts stand for, as a text
/// again. The joined path is a matter of the two texts alone, and being
/// made of two texts it is a text itself; it is named, not spelled out.
#[verifier::external_body]
fn join_paths(root: &str, relative: &str) -> (joined: String)
    ensures
        joined@ == platform_join(root@, relative@),
{
    Path::new(root).join(relative).to_string_lossy().into_owned()
}

/// `Path::starts_with` on the paths that the two texts stand for: whole
/// components are compared. The answer is a matter of the two texts
/// alone; it is named, not spelled out.
#[verifier::external_body]
fn path_starts_with(path: &str, base: &str) -> (r: bool)
    ensures
        r == platform_starts_with(path@, base@),
{
    Path::new(path).starts_with(base)
}

/// Decides whether a path with these properties is a safe relative path.
pub fn check_relative_path(is_absolute: bool, kinds: &Vec<ComponentKind>) -> (r: Result<
    (),
    PathError,
>)
    ensures
        match r {
            Ok(_) => relative_path_error(is_absolute, kinds@) is None,
            Err(e) => relative_path_error(is_absolute, kinds@) == Some(e),
        },
{
    if is_absolute {
        return Err(PathError::AbsolutePath);
    }
    let mut k: usize = 0;
    while k < kinds.len()
        invariant
            k <= kinds.len(),
            !is_absolute,
            forall|j: int| 0 <= j < k ==> !(#[trigger] kinds@[j]).escapes(),
        decreases kinds.len() - k,
    {
        match kinds[k] {
            ComponentKind::ParentDir | ComponentKind::RootDir | ComponentKind::Prefix => {
                assert(kinds@[k as int].escapes());
                return Err(PathError::Traversal);
            },
            _ => {},
        }
        k += 1;
    }
    Ok(())
}

/// Decides whether a target is accepted, given what was found of the
/// relative path and whether the joined path lies under the root.
pub fn check_target(is_absolute: bool, kinds: &Vec<ComponentKind>, under_root: bool) -> (r: Result<
    (),
    PathError,
>)
    ensures
        match r {
            Ok(_) => target_error(is_absolute, kinds@, under_root) is None,
            Err(e) => target_error(is_absolute, kinds@, under_root) == Some(e),
        },
{
    match check_relative_path(is_absolute, kinds) {
        Err(e) => Err(e),
        Ok(_) => if under_root {
            Ok(())
        } else {
            Err(PathError::OutsideWorkspace)
        },
    }
}

/// Accepts a path that is relative and neither climbs to a parent nor
/// starts at a root or a prefix, and hands it back unchanged. An absolute
/// path is turned down as such, whatever its components are.
pub fn ensure_safe_relative_path(relative_path: &str) -> (r: Result<String, PathError>)
    ensures
        match r {
            Ok(path) => safe_relative_path(relative_path@) == Ok::<Seq<char>, PathError>(path@)
                && path@ == relative_path@,
            Err(e) => safe_relative_path(relative_path@) == Err::<Seq<char>, PathError>(e) && (e
                == PathError::AbsolutePath || e == PathError::Traversal),
        },
{
    let absolute = is_absolute_path(relative_path);
    let kinds = component_kinds(relative_path);
    match check_relative_path(absolute, &kinds) {
        Ok(_) => Ok(relative_path.to_owned()),
        Err(e) => Err(e),
    }
}

/// Resolves a relative path against the root of a workspace and hands back
/// the joined path. A path that is no safe relative path is turned down for
/// the reason for which it is none; a safe one is joined to the root, and
/// turned down if the joined path does not lie under the root.
pub fn resolve_workspace_target(workspace_root: &str, relative_path: &str) -> (r: Result<
    String,
    PathError,
>)
    ensures
        match r {
            Ok(target) => workspace_target(workspace_root@, relative_path@) == Ok::<
                Seq<char>,
                PathError,
            >(target@) && safe_relative_path(relative_path@) is Ok && target@ == platform_join(
                workspace_root@,
                relative_path@,
            ) && platform_starts_with(target@, workspace_root@),
            Err(e) => workspace_target(workspace_root@, relative_path@) == Err::<
                Seq<char>,
                PathError,
            >(e) && (e == PathError::OutsideWorkspace <==> safe_relative_path(relative_path@)
                is Ok),
        },
{
    let absolute = is_absolute_path(relative_path);
    let kinds = component_kinds(relative_path);
    match check_relative_path(absolute, &kinds) {
        Err(e) => Err(e),
        Ok(_) => {
            let joined = join_paths(workspace_root, relative_path);
            let under_root = path_starts_with(joined.as_str(), workspace_root);
            match check_target(absolute, &kinds, under_root) {
                Ok(_) => Ok(joined),
                Err(e) => Err(e),
            }
        },
    }
}

} // verus!
