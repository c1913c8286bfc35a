//! What is asked of git, and how its answers are read.

use crate::records::{opt_text, views};
use crate::scan::{lines_of, split_lines};
use crate::text::{blank, chars_of, is_blank, text_from, trim_owned, trimmed};
use vstd::prelude::*;

verus! {

/// What is known of the repository at a path.
#[derive(Debug, PartialEq, Eq)]
pub struct GitStatusResult {
    pub is_repo: bool,
    pub branch: Option<String>,
    pub modified_files: Vec<String>,
}

pub struct GitStatusView {
    pub is_repo: bool,
    pub branch: Option<Seq<char>>,
    pub modified_files: Seq<Seq<char>>,
}

impl View for GitStatusResult {
    type V = GitStatusView;

    open spec fn view(&self) -> GitStatusView {
        GitStatusView {
            is_repo: self.is_repo,
            branch: opt_text(self.branch),
            modified_files: views(self.modified_files@),
        }
    }
}

/// The arguments for a diff of the repository at `path`: of the whole
/// work tree, or of one file where one is named.
pub open spec fn diff_args_of(path: Seq<char>, file: Option<Seq<char>>) -> Seq<Seq<char>> {
    let whole = seq!["-C"@, path, "diff"@];
    match file {
        Some(f) => if is_blank(f) {
            whole
        } else {
            whole + seq!["--"@, f]
        },
        None => whole,
    }
}

/// The paths that a short status lists. A line holds two status characters
/// and a blank, then the path; lines of three characters or fewer name no
/// path.
pub open spec fn status_paths_of(lines: Seq<Seq<char>>) -> Seq<Seq<char>>
    decreases lines.len(),
{
    if lines.len() == 0 {
        Seq::empty()
    } else if lines.last().len() > 3 {
        status_paths_of(lines.drop_last()).push(lines.last().skip(3))
    } else {
        status_paths_of(lines.drop_last())
    }
}

/// The status of a directory, given whether git takes it for a work tree,
/// what git printed as the branch if it printed one, and the short status.
pub open spec fn status_of(inside: bool, branch: Option<Seq<char>>, short_status: Seq<char>)
    -> GitStatusView {
    if inside {
        GitStatusView {
            is_repo: true,
            branch: match branch {
                Some(b) => Some(trimmed(b)),
                None => None,
            },
            modified_files: status_paths_of(lines_of(short_status)),
        }
    } else {
        GitStatusView { is_repo: false, branch: None, modified_files: Seq::empty() }
    }
}

/// The arguments for a diff.
pub fn diff_args(path: String, file: Option<String>) -> (args: Vec<String>)
    ensures
        views(args@) == diff_args_of(path@, opt_text(file)),
{
    let mut args: Vec<String> = Vec::new();
    args.push("-C".to_owned());
    args.push(path);
    args.push("diff".to_owned());
    assert(views(args@) =~= seq!["-C"@, path@, "diff"@]);
    match file {
        Some(f) => {
            if !blank(f.as_str()) {
                let ghost whole = args@;
                args.push("--".to_owned());
                args.push(f);
                assert(views(args@) =~= views(whole) + seq!["--"@, f@]);
            }
        },
        None => {},
    }
    args
}

/// The paths that a short status lists.
pub fn status_paths(short_status: &str) -> (paths: Vec<String>)
    ensures
        views(paths@) == status_paths_of(lines_of(short_status@)),
{
    let lines = split_lines(short_status);
    let mut paths: Vec<String> = Vec::new();
    let mut i: usize = 0;
    assert(views(lines@).take(0) =~= Seq::<Seq<char>>::empty());
    while i < lines.len()
        invariant
            i <= lines@.len(),
            views(paths@) == status_paths_of(views(lines@).take(i as int)),
        decreases lines@.len() - i,
    {
        let chars = chars_of(lines[i].as_str());
        let ghost upto = views(lines@).take(i + 1);
        proof {
            assert(upto.drop_last() =~= views(lines@).take(i as int));
            assert(upto.last() == chars@);
        }
        if chars.len() > 3 {
            let path = text_from(&chars, 3, chars.len());
            proof {
                assert(path@ =~= chars@.skip(3));
                assert(views(paths@.push(path)) =~= views(paths@).push(path@));
            }
            paths.push(path);
        }
        i += 1;
    }
    assert(views(lines@).take(lines@.len() as int) =~= views(lines@));
    paths
}

/// Puts together the status of a directory from the answers of git.
pub fn git_status_from(inside: bool, branch: Option<String>, short_status: &str) -> (r:
    GitStatusResult)
    ensures
        r@ == status_of(inside, opt_text(branch), short_status@),
{
    if inside {
        let r = GitStatusResult {
            is_repo: true,
            branch: match branch {
                Some(b) => Some(trim_owned(b.as_str())),
                None => None,
            },
            modified_files: status_paths(short_status),
        };
        r
    } else {
        let r = GitStatusResult { is_repo: false, branch: None, modified_files: Vec::new() };
        assert(r@.modified_files =~= Seq::<Seq<char>>::empty());
        r
    }
}

} // verus!
