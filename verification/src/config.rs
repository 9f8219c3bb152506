//! The options of the directory display.

use vstd::prelude::*;

verus! {

/// The options of the directory display: which path to show, the two format
/// strings, the styles of the three parts of a path, and the symbols for a
/// read-only directory and for the home directory.
#[derive(Clone)]
pub struct SmartDirectoryConfig<'a> {
    pub use_logical_path: bool,
    pub format: &'a str,
    pub repo_root_format: &'a str,
    pub style: &'a str,
    pub repo_root_style: Option<&'a str>,
    pub before_repo_root_style: Option<&'a str>,
    pub after_repo_root_style: Option<&'a str>,
    pub disabled: bool,
    pub read_only: &'a str,
    pub read_only_style: &'a str,
    pub home_symbol: &'a str,
    pub use_os_path_sep: bool,
}

impl Default for SmartDirectoryConfig<'_> {
    /// The options as they stand when nothing is configured: the display is
    /// disabled, shows the logical path in bold cyan, marks the home
    /// directory with `~`, and gives the three parts of a path in a
    /// repository no style of their own.
    fn default() -> (r: Self)
        ensures
            r.use_logical_path,
            r.format@ == "[$path]($style)[$read_only]($read_only_style) "@,
            r.repo_root_format@
                == "[$before_root_path]($before_repo_root_style)[$repo_root]($repo_root_style)[$after_root_path]($after_repo_root_style)[$read_only]($read_only_style) "@,
            r.style@ == "cyan bold"@,
            r.repo_root_style.is_none(),
            r.before_repo_root_style.is_none(),
            r.after_repo_root_style.is_none(),
            r.disabled,
            r.read_only@ == "🔒"@,
            r.read_only_style@ == "red"@,
            r.home_symbol@ == "~"@,
            r.use_os_path_sep,
    {
        Self {
            use_logical_path: true,
            format: "[$path]($style)[$read_only]($read_only_style) ",
            repo_root_format: "[$before_root_path]($before_repo_root_style)[$repo_root]($repo_root_style)[$after_root_path]($after_repo_root_style)[$read_only]($read_only_style) ",
            style: "cyan bold",
            repo_root_style: None,
            before_repo_root_style: None,
            after_repo_root_style: None,
            disabled: true,
            read_only: "🔒",
            read_only_style: "red",
            home_symbol: "~",
            use_os_path_sep: true,
        }
    }
}

} // verus!
