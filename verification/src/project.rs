//! Nodes of the project tree in the navigation bar.

use vstd::prelude::*;
use crate::paths::{path_file_name, spec_file_name};

verus! {

/// A folder or a file of an open project.
#[derive(Clone, Debug, PartialEq, Eq)]
pub enum ProjectNode {
    Folder { name: String, path: String, open: bool, root: bool },
    File { name: String, path: String },
}

/// Why a path cannot become a project node.
#[derive(Clone, Copy, Debug, PartialEq, Eq, Structural)]
pub enum ProjectNodeError {
    /// The path has no last component to name it by (it is `/` or ends in `..`).
    NoFileName,
}

impl ProjectNode {
    /// The node for the canonical path `path`: a closed, non-root folder when
    /// it is a directory, else a file; named by its last component.
    pub fn new(path: &str, is_dir: bool) -> (r: Result<ProjectNode, ProjectNodeError>)
        ensures
            match spec_file_name(path@) {
                None => r == Err::<ProjectNode, ProjectNodeError>(ProjectNodeError::NoFileName),
                Some(n) => match r {
                    Ok(ProjectNode::Folder { name, path: p, open, root }) => is_dir && name@ == n && p@ == path@ && !open && !root,
                    Ok(ProjectNode::File { name, path: p }) => !is_dir && name@ == n && p@ == path@,
                    Err(_) => false,
                },
            },
    {
        match path_file_name(path) {
            None => Err(ProjectNodeError::NoFileName),
            Some(name) => {
                if is_dir {
                    Ok(ProjectNode::Folder { name, path: String::from_str(path), open: false, root: false })
                } else {
                    Ok(ProjectNode::File { name, path: String::from_str(path) })
                }
            }
        }
    }

    /// The icon of the node: an open or closed folder arrow, or a text file.
    pub fn icon_name(&self) -> (r: &str)
        ensures
            r@ == match self {
                ProjectNode::Folder { open, .. } => if *open { "go-down-symbolic"@ } else { "go-next-symbolic"@ },
                ProjectNode::File { .. } => "text-x-generic"@,
            },
    {
        match self {
            ProjectNode::Folder { open, .. } => {
                if *open {
                    "go-down-symbolic"
                } else {
                    "go-next-symbolic"
                }
            }
            ProjectNode::File { .. } => "text-x-generic",
        }
    }

    /// The name shown for the node.
    pub fn name(&self) -> (r: &str)
        ensures
            r@ == match self {
                ProjectNode::Folder { name, .. } => name@,
                ProjectNode::File { name, .. } => name@,
            },
    {
        match self {
            ProjectNode::Folder { name, .. } => name.as_str(),
            ProjectNode::File { name, .. } => name.as_str(),
        }
    }

    /// Whether the node sorts before `other` by kind alone: folders come
    /// before files; nodes of the same kind are ordered by name.
    pub fn folder_before_file(&self, other: &ProjectNode) -> (r: bool)
        ensures
            r == (self is Folder && other is File),
    {
        match (self, other) {
            (ProjectNode::Folder { .. }, ProjectNode::File { .. }) => true,
            _ => false,
        }
    }
}

} // verus!
