//! The values that the directory display hands to its template: the three
//! parts of the path, the format that applies, and the styles.

use crate::compress::{
    parent_dir, parent_path, truncate, truncate_after_repo_root, truncate_after_root_spec,
    truncate_before_root_dir, truncate_before_root_spec, truncate_spec,
};
use crate::config::SmartDirectoryConfig;
use crate::probe::{Listed, Snapshot};
use crate::segment::{get_path_dirs, path_segments};
use crate::text::names;
use vstd::prelude::*;

verus! {

/// What the template of the directory display is filled with.
pub struct Rendering {
    /// The format string that applies: the plain one outside a repository,
    /// the repository one inside.
    pub format: String,
    /// The directories above the repository root; empty outside a repository.
    pub before_root_path: String,
    /// The name of the repository root; empty outside a repository.
    pub repo_root: String,
    /// The path below the repository root, or the whole path outside one.
    pub path: String,
    pub style: String,
    pub before_repo_root_style: String,
    pub repo_root_style: String,
    pub after_repo_root_style: String,
    pub read_only_style: String,
    /// The read-only symbol, present only for a read-only directory.
    pub read_only: Option<String>,
}

/// The three parts of the displayed path: above the root, the root's name,
/// and below the root. Outside a repository the first two are empty and the
/// third is the whole path.
pub open spec fn parts_spec(
    shown: Seq<char>,
    home: Seq<char>,
    symbol: Seq<char>,
    repo_root: Option<Seq<char>>,
    snap: Listed,
) -> (Seq<char>, Seq<char>, Seq<char>) {
    match repo_root {
        Some(root) => {
            let rdirs = path_segments(root);
            (
                truncate_before_root_spec(
                    parent_dir(rdirs, rdirs.len() - 1),
                    home,
                    symbol,
                    snap,
                ),
                rdirs.last(),
                truncate_after_root_spec(shown, root, snap),
            )
        },
        None => (Seq::empty(), Seq::empty(), truncate_spec(shown, home, symbol, snap)),
    }
}

/// The view of an optional string.
pub open spec fn text_of(s: Option<&str>) -> Option<Seq<char>> {
    match s {
        Some(t) => Some(t@),
        None => None,
    }
}

/// A part's own style if it has one, else the general style.
pub open spec fn style_or(own: Option<&str>, general: &str) -> Seq<char> {
    match own {
        Some(t) => t@,
        None => general@,
    }
}

/// A part's own style if it has one, else the general style.
fn pick_style(own: Option<&str>, general: &str) -> (r: String)
    ensures
        r@ == style_or(own, general),
{
    match own {
        Some(t) => String::from_str(t),
        None => String::from_str(general),
    }
}

/// Computes what the directory display shows.
///
/// The path shown is `logical_dir` or `current_dir`, as the options say.
/// Inside a repository the path is split at `repo_root` into the directories
/// above it, its own name in full, and what lies below; outside, the whole
/// path is compressed and stands in `path`. The repository format applies
/// whenever one of the first two parts is not empty. `read_only` is the
/// caller's finding about the physical directory.
///
/// Nothing is shown for a repository root without a component, which has
/// neither a name nor a parent.
pub fn module(
    logical_dir: &str,
    current_dir: &str,
    home: &str,
    repo_root: Option<&str>,
    read_only: bool,
    config: &SmartDirectoryConfig,
    snap: &Snapshot,
) -> (r: Option<Rendering>)
    ensures
        r.is_none() <==> (repo_root matches Some(root) && path_segments(root@).len() == 0),
        r matches Some(o) ==> {
            let shown = if config.use_logical_path {
                logical_dir@
            } else {
                current_dir@
            };
            &&& (o.before_root_path@, o.repo_root@, o.path@) == parts_spec(
                shown,
                home@,
                config.home_symbol@,
                text_of(repo_root),
                snap@,
            )
            &&& o.format@ == if o.before_root_path@.len() == 0 && o.repo_root@.len() == 0 {
                config.format@
            } else {
                config.repo_root_format@
            }
            &&& o.style@ == config.style@
            &&& o.read_only_style@ == config.read_only_style@
            &&& o.before_repo_root_style@ == style_or(config.before_repo_root_style, config.style)
            &&& o.repo_root_style@ == style_or(config.repo_root_style, config.style)
            &&& o.after_repo_root_style@ == style_or(config.after_repo_root_style, config.style)
            &&& o.read_only.is_some() == read_only
            &&& o.read_only matches Some(mark) ==> mark@ == config.read_only@
        },
{
    let shown = if config.use_logical_path {
        logical_dir
    } else {
        current_dir
    };
    let before_root_path: String;
    let root_name: String;
    let path: String;
    match repo_root {
        Some(root) => {
            let rdirs = get_path_dirs(root);
            if rdirs.len() == 0 {
                return None;
            }
            let last = rdirs.len() - 1;
            let parent = parent_path(&rdirs, last);
            proof {
                assert(names(rdirs@).last() == rdirs@[last as int]@);
            }
            before_root_path = truncate_before_root_dir(
                parent.as_str(),
                home,
                config.home_symbol,
                snap,
            );
            root_name = rdirs[last].clone();
            path = truncate_after_repo_root(shown, root, snap);
        },
        None => {
            before_root_path = String::new();
            root_name = String::new();
            path = truncate(shown, home, config.home_symbol, snap);
        },
    }
    let plain = before_root_path.as_str().unicode_len() == 0
        && root_name.as_str().unicode_len() == 0;
    let format = if plain {
        String::from_str(config.format)
    } else {
        String::from_str(config.repo_root_format)
    };
    let mark = if read_only {
        Some(String::from_str(config.read_only))
    } else {
        None
    };
    Some(
        Rendering {
            format,
            before_root_path,
            repo_root: root_name,
            path,
            style: String::from_str(config.style),
            before_repo_root_style: pick_style(config.before_repo_root_style, config.style),
            repo_root_style: pick_style(config.repo_root_style, config.style),
            after_repo_root_style: pick_style(config.after_repo_root_style, config.style),
            read_only_style: String::from_str(config.read_only_style),
            read_only: mark,
        },
    )
}

} // verus!
