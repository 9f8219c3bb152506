use smart_directory::compress::{
    parent_path, probe_dirs, shorten_path, truncate, truncate_after_repo_root,
    truncate_before_root_dir,
};
use smart_directory::config::SmartDirectoryConfig;
use smart_directory::module::module;
use smart_directory::probe::{get_siblings, has_sibling_collision, Entry, Listing, Snapshot};
use smart_directory::segment::get_path_dirs;

const BASE: &str = "/tmp/startship_test/render";

/// An in-memory directory tree, grown like `create_dir_all`.
struct Tree {
    snapshot: Snapshot,
}

impl Tree {
    fn new() -> Tree {
        let mut tree = Tree {
            snapshot: Snapshot::new(),
        };
        tree.create_dir_all("");
        tree
    }

    fn join(rel: &str) -> String {
        if rel.is_empty() {
            BASE.to_string()
        } else {
            format!("{}/{}", BASE, rel)
        }
    }

    fn create_dir_all(&mut self, rel: &str) {
        let dirs = get_path_dirs(&Tree::join(rel));
        for level in 0..dirs.len() {
            let parent = parent_path(&dirs, level);
            self.put(&parent, &dirs[level], true);
        }
    }

    fn create_file(&mut self, rel: &str) {
        let dirs = get_path_dirs(&Tree::join(rel));
        let level = dirs.len() - 1;
        let parent = parent_path(&dirs, level);
        self.put(&parent, &dirs[level], false);
    }

    fn put(&mut self, parent: &str, name: &str, is_dir: bool) {
        let listings = &mut self.snapshot.listings;
        let at = match listings.iter().position(|l| l.dir == parent) {
            Some(at) => at,
            None => {
                listings.push(Listing {
                    dir: parent.to_string(),
                    entries: Vec::new(),
                });
                listings.len() - 1
            }
        };
        if !listings[at].entries.iter().any(|e| e.name == name) {
            listings[at].entries.push(Entry {
                name: name.to_string(),
                is_dir,
            });
        }
    }

    fn entries(&self, dir: &str) -> Vec<Entry> {
        match self.snapshot.find(dir) {
            Some(at) => self.snapshot.listings[at]
                .entries
                .iter()
                .map(|e| Entry {
                    name: e.name.clone(),
                    is_dir: e.is_dir,
                })
                .collect(),
            None => Vec::new(),
        }
    }

    /// The siblings of the directory at `rel`, as a probe of it would see them.
    fn siblings(&self, rel: &str) -> Vec<String> {
        let dirs = get_path_dirs(&Tree::join(rel));
        let level = dirs.len() - 1;
        let parent = parent_path(&dirs, level);
        get_siblings(&dirs[level], &self.entries(&parent))
    }

    fn collision(&self, rel: &str) -> bool {
        let dirs = get_path_dirs(&Tree::join(rel));
        let level = dirs.len() - 1;
        let parent = parent_path(&dirs, level);
        has_sibling_collision(&dirs[level], &self.entries(&parent))
    }
}

const UNI_1: &str = "目录";
const UNI_2: &str = "フォルダ";
const UNI_3: &str = "한글";
const UNI_4: &str = "a\u{310}e\u{301}o\u{308}\u{332}";
const UNI_2_TWIN: &str = "フルダォ";

fn unicode_tree(tree: &mut Tree) {
    tree.create_dir_all(&format!("home/me/unicode/{}", UNI_1));
    tree.create_dir_all(&format!("home/me/unicode/{}", UNI_2));
    tree.create_dir_all(&format!("home/me/unicode/{}", UNI_3));
    tree.create_dir_all(&format!("home/me/unicode/{}", UNI_4));
}

#[test]
fn it_shorten_path() {
    let mut tree = Tree::new();
    let prefix = shorten_path(BASE, &tree.snapshot);
    assert_eq!(prefix, "/t/s/r");

    // normal path
    assert_eq!(shorten_path("/", &tree.snapshot), "/");
    assert_eq!(shorten_path("/home", &tree.snapshot), "/h");
    assert_eq!(shorten_path("/home/me", &tree.snapshot), "/h/m");

    // path with hidden dir
    assert_eq!(shorten_path("/home/me/.config", &tree.snapshot), "/h/m/.c");

    // path with unicode dir
    assert_eq!(shorten_path("/home/me/目录", &tree.snapshot), "/h/m/目");
    assert_eq!(shorten_path("/home/me/フォルダ", &tree.snapshot), "/h/m/フ");
    assert_eq!(shorten_path("/home/me/한글", &tree.snapshot), "/h/m/한");
    assert_eq!(
        shorten_path("/home/me/a\u{310}e\u{301}o\u{308}\u{332}", &tree.snapshot),
        "/h/m/a\u{310}"
    );

    // path with multiple unicode dirs
    assert_eq!(
        shorten_path(
            "/目录/フォルダ/한글/a\u{310}e\u{301}o\u{308}\u{332}",
            &tree.snapshot
        ),
        "/目/フ/한/a\u{310}"
    );

    // path with trailing slash
    assert_eq!(shorten_path("/with/trailing/slash/", &tree.snapshot), "/w/t/s");

    // no support for the home symbol: it is a name like any other
    assert_ne!(shorten_path("~/.config/starship", &tree.snapshot), "~/.c/s");
    assert_eq!(shorten_path("~/.config/starship", &tree.snapshot), "/~/.c/s");

    tree.create_dir_all("home/me/.local/share");
    tree.create_dir_all("home/me/.local/state");

    // with sibling collision
    assert_eq!(
        shorten_path(&Tree::join("home/me/.local/share"), &tree.snapshot),
        prefix + "/h/m/.l/share"
    );

    // the empty path
    assert_eq!(shorten_path("", &tree.snapshot), "");
}

#[test]
fn it_get_siblings() {
    let mut tree = Tree::new();

    tree.create_dir_all("home/me/.local/share");
    tree.create_dir_all("home/me/.local/state");
    assert_eq!(tree.siblings("home/me/.local/share"), vec!["state"]);

    tree.create_dir_all("home/me/.config/borders");
    tree.create_dir_all("home/me/.config/ghostty");
    tree.create_dir_all("home/me/.config/nvim");
    tree.create_dir_all("home/me/.config/starship");

    let mut nvim_siblings = tree.siblings("home/me/.config/nvim");
    nvim_siblings.sort();
    assert_eq!(nvim_siblings, vec!["borders", "ghostty", "starship"]);

    assert_eq!(tree.siblings("home/me/.config"), vec![".local"]);

    unicode_tree(&mut tree);
    let mut unicode_dir_siblings = tree.siblings(&format!("home/me/unicode/{}", UNI_1));
    unicode_dir_siblings.sort();
    assert_eq!(unicode_dir_siblings, vec![UNI_4, UNI_2, UNI_3]);

    tree.create_dir_all("Volumes/Data/Lab");
    assert_eq!(tree.siblings("Volumes/Data/Lab"), Vec::<String>::new());
    assert_eq!(tree.siblings("home/me"), Vec::<String>::new());
}

#[test]
fn siblings_leave_out_files_and_the_directory_itself() {
    let entries = vec![
        Entry { name: "src".to_string(), is_dir: true },
        Entry { name: "setup.cfg".to_string(), is_dir: false },
        Entry { name: "scripts".to_string(), is_dir: true },
        Entry { name: "target".to_string(), is_dir: true },
    ];
    assert_eq!(get_siblings("src", &entries), vec!["scripts", "target"]);
    assert_eq!(get_siblings("docs", &entries), vec!["src", "scripts", "target"]);
    assert_eq!(get_siblings("src", &Vec::new()), Vec::<String>::new());
}

#[test]
fn it_has_sibling_collision() {
    let mut tree = Tree::new();

    tree.create_dir_all("home/me/.local/share");
    tree.create_dir_all("home/me/.local/state");

    // `share` and `state` both start with `s`
    assert!(tree.collision("home/me/.local/share"));

    tree.create_dir_all("home/me/.config/borders");
    tree.create_dir_all("home/me/.config/ghostty");
    tree.create_dir_all("home/me/.config/nvim");
    tree.create_dir_all("home/me/.config/starship");

    // no other directory starts with `n`
    assert!(!tree.collision("home/me/.config/nvim"));

    unicode_tree(&mut tree);

    // no other directory starts with the same glyph
    assert!(!tree.collision(&format!("home/me/unicode/{}", UNI_2)));

    tree.create_dir_all(&format!("home/me/unicode/{}", UNI_2_TWIN));

    // now one does
    assert!(tree.collision(&format!("home/me/unicode/{}", UNI_2)));

    tree.create_dir_all("home/me/.cache");

    // `.config` and `.cache` both shorten to `.c`
    assert!(tree.collision("home/me/.config"));
}

#[test]
fn collision_ignores_files_and_unlisted_parents() {
    let mut tree = Tree::new();
    tree.create_dir_all("work/src");
    tree.create_file("work/setup.cfg");

    // a file that starts with `s` is no sibling directory
    assert!(!tree.collision("work/src"));
    assert!(!has_sibling_collision("src", &Vec::new()));

    // a parent that was never listed counts as unreadable
    let empty = Snapshot::new();
    assert!(!empty.collision_at("/work", "src"));
    assert_eq!(shorten_path("/work/src", &empty), "/w/s");

    // the directory's own entry is no sibling, even repeated
    let twice = vec![
        Entry { name: "src".to_string(), is_dir: true },
        Entry { name: "src".to_string(), is_dir: true },
    ];
    assert!(!has_sibling_collision("src", &twice));
}

#[test]
fn snapshot_uses_the_first_listing_of_a_directory() {
    let mut snap = Snapshot::new();
    snap.add(
        "/a".to_string(),
        vec![Entry { name: "bin".to_string(), is_dir: true }, Entry { name: "boot".to_string(), is_dir: true }],
    );
    snap.add("/a".to_string(), vec![Entry { name: "bin".to_string(), is_dir: true }]);
    assert_eq!(snap.find("/a"), Some(0));
    assert_eq!(snap.find("/b"), None);
    assert!(snap.collision_at("/a", "bin"));
    assert_eq!(shorten_path("/a/bin/x", &snap), "/a/bin/x");
}

#[test]
fn it_truncate_before_root_dir() {
    let mut tree = Tree::new();
    let prefix = shorten_path(BASE, &tree.snapshot);

    tree.create_dir_all("home/me/.local/share");
    tree.create_dir_all("home/me/.local/state");

    let home = Tree::join("home/me");

    // before root dir is the home directory
    assert_eq!(
        truncate_before_root_dir(&Tree::join("home/me"), &home, "~", &tree.snapshot),
        "~/"
    );

    // use an emoji as home_symbol
    assert_eq!(
        truncate_before_root_dir(&Tree::join("home/me"), &home, "🏠", &tree.snapshot),
        "🏠/"
    );

    // hidden dir
    assert_eq!(
        truncate_before_root_dir(&Tree::join("home/me/.local"), &home, "~", &tree.snapshot),
        "~/.l/"
    );

    // sibling collision: `share` and `state` both start with `s`
    assert_eq!(
        truncate_before_root_dir(&Tree::join("home/me/.local/share"), &home, "~", &tree.snapshot),
        "~/.l/share/"
    );

    unicode_tree(&mut tree);

    assert_eq!(
        truncate_before_root_dir(&Tree::join("home/me/unicode/目录"), &home, "~", &tree.snapshot),
        "~/u/目/"
    );
    assert_eq!(
        truncate_before_root_dir(&Tree::join("home/me/unicode/フォルダ"), &home, "~", &tree.snapshot),
        "~/u/フ/"
    );
    assert_eq!(
        truncate_before_root_dir(&Tree::join("home/me/unicode/한글"), &home, "~", &tree.snapshot),
        "~/u/한/"
    );
    assert_eq!(
        truncate_before_root_dir(
            &Tree::join("home/me/unicode/a\u{310}e\u{301}o\u{308}\u{332}"),
            &home,
            "~",
            &tree.snapshot
        ),
        "~/u/a\u{310}/"
    );

    tree.create_dir_all("home/me/unicode/フルダォ");

    // unicode with sibling collision
    assert_eq!(
        truncate_before_root_dir(&Tree::join("home/me/unicode/フルダォ"), &home, "~", &tree.snapshot),
        "~/u/フルダォ/"
    );

    tree.create_dir_all("Volumes/Data/Lab");

    // normal dir, outside of the home directory
    assert_eq!(
        truncate_before_root_dir(&Tree::join("Volumes/Data/Lab"), &home, "~", &tree.snapshot),
        prefix + "/V/D/L/"
    );
}

#[test]
fn before_root_edge_cases() {
    let snap = Snapshot::new();
    // the empty path
    assert_eq!(truncate_before_root_dir("", "/home/me", "~", &snap), "");
    // the root directory has no component: only the closing separator
    assert_eq!(truncate_before_root_dir("/", "/home/me", "~", &snap), "/");
    // a text that is the bare separator gets no second one
    assert_eq!(truncate_before_root_dir("/h", "/h", "/", &snap), "/");
}

#[test]
fn it_truncate() {
    let mut tree = Tree::new();
    let prefix = shorten_path(BASE, &tree.snapshot);

    tree.create_dir_all("home/me/.local/share");
    tree.create_dir_all("home/me/.local/share/nvim");
    tree.create_dir_all("home/me/.local/state");
    tree.create_dir_all("home/me/.local/state/nvim");

    let home = Tree::join("home/me");

    // the home directory
    assert_eq!(truncate(&Tree::join("home/me"), &home, "~", &tree.snapshot), "~");

    // the home directory with an emoji as `home_symbol`
    assert_eq!(truncate(&Tree::join("home/me"), &home, "🏠", &tree.snapshot), "🏠");

    // hidden dir
    assert_eq!(
        truncate(&Tree::join("home/me/.local"), &home, "~", &tree.snapshot),
        "~/.local"
    );

    // sibling collision: `share` and `state` both start with `s`
    assert_eq!(
        truncate(&Tree::join("home/me/.local/state/nvim"), &home, "~", &tree.snapshot),
        "~/.l/state/nvim"
    );

    unicode_tree(&mut tree);

    assert_eq!(
        truncate(&Tree::join("home/me/unicode/目录"), &home, "~", &tree.snapshot),
        "~/u/目录"
    );
    assert_eq!(
        truncate(&Tree::join("home/me/unicode/フォルダ"), &home, "~", &tree.snapshot),
        "~/u/フォルダ"
    );
    assert_eq!(
        truncate(&Tree::join("home/me/unicode/한글"), &home, "~", &tree.snapshot),
        "~/u/한글"
    );
    assert_eq!(
        truncate(
            &Tree::join("home/me/unicode/a\u{310}e\u{301}o\u{308}\u{332}"),
            &home,
            "~",
            &tree.snapshot
        ),
        "~/u/a\u{310}e\u{301}o\u{308}\u{332}"
    );

    tree.create_dir_all("Volumes/Data/Lab");

    // normal dir, outside of the home directory
    assert_eq!(
        truncate(&Tree::join("Volumes/Data/Lab"), &home, "~", &tree.snapshot),
        prefix + "/V/D/Lab"
    );
}

#[test]
fn truncate_edge_cases() {
    let snap = Snapshot::new();
    // empty and root paths
    assert_eq!(truncate("", "/home/me", "~", &snap), "");
    assert_eq!(truncate("/", "/home/me", "~", &snap), "");
    assert_eq!(truncate("/", "/", "~", &snap), "");
    // a single component is the last one: shown in full
    assert_eq!(truncate("/etc", "/home/me", "~", &snap), "/etc");
    // a home directory that is not above the path changes nothing
    assert_eq!(truncate("/home/you/src", "/home/me", "~", &snap), "/h/y/src");
    // the same path written with markers and doubled separators
    assert_eq!(truncate("/home//me/./src/", "/home/me", "~", &snap), "~/src");
}

#[test]
fn home_substitution_with_and_without_collision() {
    let mut tree = Tree::new();
    let home = Tree::join("home/me");
    tree.create_dir_all("home/me/sub/leaf");

    assert_eq!(truncate(&home, &home, "~", &tree.snapshot), "~");
    assert_eq!(truncate(&Tree::join("home/me/sub"), &home, "~", &tree.snapshot), "~/sub");
    // no sibling of `sub`: it is shortened
    assert_eq!(
        truncate(&Tree::join("home/me/sub/leaf"), &home, "~", &tree.snapshot),
        "~/s/leaf"
    );

    // a sibling with the same short form: shown in full
    tree.create_dir_all("home/me/src");
    assert_eq!(
        truncate(&Tree::join("home/me/sub/leaf"), &home, "~", &tree.snapshot),
        "~/sub/leaf"
    );
    // the last component stays whole whatever its siblings are
    assert_eq!(truncate(&Tree::join("home/me/sub"), &home, "~", &tree.snapshot), "~/sub");
}

#[test]
fn home_itself_shown_in_full_when_it_collides() {
    let mut tree = Tree::new();
    tree.create_dir_all("home/me/work");
    tree.create_dir_all("home/mo");
    let home = Tree::join("home/me");
    let prefix = shorten_path(BASE, &tree.snapshot);
    assert_eq!(shorten_path(&home, &tree.snapshot), prefix + "/h/me");
    assert_eq!(truncate(&Tree::join("home/me/work"), &home, "~", &tree.snapshot), "~/work");
}

#[test]
fn it_truncate_after_repo_root() {
    let mut tree = Tree::new();
    let mut repo_root = Tree::join("home/me/.config/nvim");

    tree.create_dir_all("home/me/.config/nvim");
    tree.create_dir_all("home/me/.config/nvim/lua");

    // with the sub-directory `lua`
    assert_eq!(
        truncate_after_repo_root(&format!("{}/lua", repo_root), &repo_root, &tree.snapshot),
        "/lua"
    );

    tree.create_dir_all("home/me/.config/nvim/lua/plugins");

    // with the sub-directories `lua/plugins`
    assert_eq!(
        truncate_after_repo_root(&format!("{}/lua/plugins", repo_root), &repo_root, &tree.snapshot),
        "/l/plugins"
    );

    tree.create_dir_all("home/me/.config/nvim/lsp");

    // sibling collision since `lua` and `lsp` start with `l`
    assert_eq!(
        truncate_after_repo_root(&format!("{}/lua/plugins", repo_root), &repo_root, &tree.snapshot),
        "/lua/plugins"
    );

    // use `home/me/unicode` as `repo_root`
    repo_root = Tree::join("home/me/unicode");
    unicode_tree(&mut tree);

    assert_eq!(
        truncate_after_repo_root(&format!("{}/目录", repo_root), &repo_root, &tree.snapshot),
        "/目录"
    );
    assert_eq!(
        truncate_after_repo_root(&format!("{}/フォルダ", repo_root), &repo_root, &tree.snapshot),
        "/フォルダ"
    );
    assert_eq!(
        truncate_after_repo_root(&format!("{}/한글", repo_root), &repo_root, &tree.snapshot),
        "/한글"
    );
    assert_eq!(
        truncate_after_repo_root(
            &format!("{}/a\u{310}e\u{301}o\u{308}\u{332}", repo_root),
            &repo_root,
            &tree.snapshot
        ),
        "/a\u{310}e\u{301}o\u{308}\u{332}"
    );

    tree.create_dir_all("home/me/unicode/目录/フォルダ/한글/a\u{310}e\u{301}o\u{308}\u{332}");

    // nested unicode
    assert_eq!(
        truncate_after_repo_root(
            &format!("{}/目录/フォルダ/한글/a\u{310}e\u{301}o\u{308}\u{332}", repo_root),
            &repo_root,
            &tree.snapshot
        ),
        "/目/フ/한/a\u{310}e\u{301}o\u{308}\u{332}"
    );

    tree.create_dir_all("home/me/unicode/目录/フルダォ");

    // nested unicode with sibling collision
    assert_eq!(
        truncate_after_repo_root(
            &format!("{}/目录/フォルダ/한글/a\u{310}e\u{301}o\u{308}\u{332}", repo_root),
            &repo_root,
            &tree.snapshot
        ),
        "/目/フォルダ/한/a\u{310}e\u{301}o\u{308}\u{332}"
    );
}

#[test]
fn after_root_at_and_below_the_root() {
    let mut tree = Tree::new();
    let root = Tree::join("repo");
    tree.create_dir_all("repo/x");
    tree.create_dir_all("repo/xylophone");
    tree.create_dir_all("repo/a/b");

    // the root itself
    assert_eq!(truncate_after_repo_root(&root, &root, &tree.snapshot), "");
    // a direct child is the last component: whole, whatever its siblings are
    assert_eq!(truncate_after_repo_root(&format!("{}/x", root), &root, &tree.snapshot), "/x");
    assert_eq!(
        truncate_after_repo_root(&format!("{}/xylophone", root), &root, &tree.snapshot),
        "/xylophone"
    );
    // nested: `a` is shortened, `b` is not
    assert_eq!(truncate_after_repo_root(&format!("{}/a/b", root), &root, &tree.snapshot), "/a/b");
    tree.create_dir_all("repo/abc/b");
    assert_eq!(
        truncate_after_repo_root(&format!("{}/abc/b", root), &root, &tree.snapshot),
        "/abc/b"
    );
    tree.create_dir_all("repo/long/b");
    assert_eq!(
        truncate_after_repo_root(&format!("{}/long/b", root), &root, &tree.snapshot),
        "/l/b"
    );
}

#[test]
fn before_root_holds_nothing_of_the_root() {
    let mut tree = Tree::new();
    tree.create_dir_all("Volumes/Data/Lab/starship/src");
    let prefix = shorten_path(BASE, &tree.snapshot);
    let home = Tree::join("home/me");
    let before = truncate_before_root_dir(&Tree::join("Volumes/Data/Lab"), &home, "~", &tree.snapshot);
    assert_eq!(before, prefix + "/V/D/L/");
    assert!(!before.contains("starship"));
    assert!(!before.contains("src"));
}

#[test]
fn probe_dirs_names_the_parent_of_each_component() {
    assert_eq!(probe_dirs("/home/me/src"), vec!["/", "/home", "/home/me"]);
    assert_eq!(probe_dirs("/"), Vec::<String>::new());
    assert_eq!(probe_dirs("home//me/"), vec!["/", "/home"]);
    let dirs = get_path_dirs("/a/b/c");
    assert_eq!(parent_path(&dirs, 0), "/");
    assert_eq!(parent_path(&dirs, 1), "/a");
    assert_eq!(parent_path(&dirs, 3), "/a/b/c");
}

#[test]
fn it_module() {
    let mut tree = Tree::new();
    let prefix = shorten_path(BASE, &tree.snapshot);
    let home = Tree::join("home/me");
    tree.create_dir_all("home/me");
    let config = SmartDirectoryConfig::default();

    // in the home directory
    let shown = module(&home, &home, &home, None, false, &config, &tree.snapshot).unwrap();
    assert_eq!(shown.path, "~");
    assert_eq!(shown.before_root_path, "");
    assert_eq!(shown.repo_root, "");
    assert_eq!(shown.format, "[$path]($style)[$read_only]($read_only_style) ");
    assert_eq!(shown.style, "cyan bold");
    assert_eq!(shown.read_only, None);

    // `config.home_symbol`
    let mut with_symbol = SmartDirectoryConfig::default();
    with_symbol.home_symbol = "🏠";
    let shown = module(&home, &home, &home, None, false, &with_symbol, &tree.snapshot).unwrap();
    assert_eq!(shown.path, "🏠");

    // a read-only path
    let shown = module("/etc", "/etc", &home, None, true, &config, &tree.snapshot).unwrap();
    assert_eq!(shown.path, "/etc");
    assert_eq!(shown.read_only, Some("🔒".to_string()));
    assert_eq!(shown.read_only_style, "red");

    // `config.read_only`
    let mut with_mark = SmartDirectoryConfig::default();
    with_mark.read_only = "RO";
    let shown = module("/etc", "/etc", &home, None, true, &with_mark, &tree.snapshot).unwrap();
    assert_eq!(shown.read_only, Some("RO".to_string()));

    // `config.read_only_style`
    let mut with_style = SmartDirectoryConfig::default();
    with_style.read_only_style = "yellow";
    let shown = module("/etc", "/etc", &home, None, true, &with_style, &tree.snapshot).unwrap();
    assert_eq!(shown.read_only_style, "yellow");
    assert_eq!(shown.read_only, Some("🔒".to_string()));

    tree.create_dir_all("Volumes/Data/Lab");
    let lab = Tree::join("Volumes/Data/Lab");

    // outside of the home directory
    let shown = module(&lab, &lab, &home, None, false, &config, &tree.snapshot).unwrap();
    assert_eq!(shown.path, prefix.clone() + "/V/D/Lab");

    // `config.style`
    let mut blue = SmartDirectoryConfig::default();
    blue.style = "blue";
    let shown = module(&lab, &lab, &home, None, false, &blue, &tree.snapshot).unwrap();
    assert_eq!(shown.style, "blue");
    assert_eq!(shown.repo_root_style, "blue");
    assert_eq!(shown.path, prefix.clone() + "/V/D/Lab");

    // `config.format`
    let mut at = SmartDirectoryConfig::default();
    at.format = "at [$path]($style)[$read_only]($read_only_style) ";
    let shown = module(&lab, &lab, &home, None, false, &at, &tree.snapshot).unwrap();
    assert_eq!(shown.format, "at [$path]($style)[$read_only]($read_only_style) ");

    tree.create_dir_all("Volumes/Data/Lab/starship/src/modules/unix");
    tree.create_dir_all("Volumes/Data/Lab/starship/src/modules/windows");
    let root = Tree::join("Volumes/Data/Lab/starship");

    // in a repository
    let shown = module(&root, &root, &home, Some(&root), false, &config, &tree.snapshot).unwrap();
    assert_eq!(shown.before_root_path, prefix.clone() + "/V/D/L/");
    assert_eq!(shown.repo_root, "starship");
    assert_eq!(shown.path, "");
    assert_eq!(shown.format, config.repo_root_format);

    let src = format!("{}/src", root);
    let shown = module(&src, &src, &home, Some(&root), false, &config, &tree.snapshot).unwrap();
    assert_eq!(shown.before_root_path, prefix.clone() + "/V/D/L/");
    assert_eq!(shown.repo_root, "starship");
    assert_eq!(shown.path, "/src");

    let modules = format!("{}/src/modules", root);
    let shown = module(&modules, &modules, &home, Some(&root), false, &config, &tree.snapshot).unwrap();
    assert_eq!(shown.path, "/s/modules");

    let windows = format!("{}/src/modules/windows", root);
    let shown = module(&windows, &windows, &home, Some(&root), false, &config, &tree.snapshot).unwrap();
    assert_eq!(shown.before_root_path, prefix.clone() + "/V/D/L/");
    assert_eq!(shown.repo_root, "starship");
    assert_eq!(shown.path, "/s/m/windows");

    // the three styles of a repository path
    let mut styled = SmartDirectoryConfig::default();
    styled.before_repo_root_style = Some("yellow");
    styled.repo_root_style = Some("cyan");
    styled.after_repo_root_style = Some("blue");
    let shown = module(&windows, &windows, &home, Some(&root), false, &styled, &tree.snapshot).unwrap();
    assert_eq!(shown.before_repo_root_style, "yellow");
    assert_eq!(shown.repo_root_style, "cyan");
    assert_eq!(shown.after_repo_root_style, "blue");
    assert_eq!(shown.style, "cyan bold");

    // one style of its own, the others fall back
    let mut one = SmartDirectoryConfig::default();
    one.repo_root_style = Some("yellow");
    let shown = module(&root, &root, &home, Some(&root), false, &one, &tree.snapshot).unwrap();
    assert_eq!(shown.repo_root_style, "yellow");
    assert_eq!(shown.before_repo_root_style, "cyan bold");
    assert_eq!(shown.after_repo_root_style, "cyan bold");
}

#[test]
fn module_picks_the_path_by_the_options() {
    let snap = Snapshot::new();
    let mut config = SmartDirectoryConfig::default();
    let shown = module("/link/here", "/real/place/here", "/home/me", None, false, &config, &snap).unwrap();
    assert_eq!(shown.path, "/l/here");
    config.use_logical_path = false;
    let shown = module("/link/here", "/real/place/here", "/home/me", None, false, &config, &snap).unwrap();
    assert_eq!(shown.path, "/r/p/here");
}

#[test]
fn module_shows_nothing_for_a_root_without_a_name() {
    let snap = Snapshot::new();
    let config = SmartDirectoryConfig::default();
    assert!(module("/a", "/a", "/home/me", Some("/"), false, &config, &snap).is_none());
    // a repository right under the root directory
    let shown = module("/repo/src", "/repo/src", "/home/me", Some("/repo"), false, &config, &snap).unwrap();
    assert_eq!(shown.before_root_path, "/");
    assert_eq!(shown.repo_root, "repo");
    assert_eq!(shown.path, "/src");
}

#[test]
fn default_options() {
    let config = SmartDirectoryConfig::default();
    assert!(config.use_logical_path);
    assert_eq!(config.format, "[$path]($style)[$read_only]($read_only_style) ");
    assert_eq!(
        config.repo_root_format,
        "[$before_root_path]($before_repo_root_style)[$repo_root]($repo_root_style)[$after_root_path]($after_repo_root_style)[$read_only]($read_only_style) "
    );
    assert_eq!(config.style, "cyan bold");
    assert_eq!(config.repo_root_style, None);
    assert_eq!(config.before_repo_root_style, None);
    assert_eq!(config.after_repo_root_style, None);
    assert!(config.disabled);
    assert_eq!(config.read_only, "🔒");
    assert_eq!(config.read_only_style, "red");
    assert_eq!(config.home_symbol, "~");
    assert!(config.use_os_path_sep);
}
