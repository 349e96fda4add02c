use goose::summarize::{
    build_gitignore, build_prompt, check_call, count_lines, get_tools, refusal_text,
    should_include_file, summary_answer, summary_system_prompt, Collector, DirEntry, EntryKind,
    FileContent, ResolvedPath, SummaryRefusal, Work, MAX_FILE_SIZE, MAX_TOTAL_SIZE,
};

const ROOT: &str = "/base";

const MAIN: &str = "fn main() {\n    println!(\"Hello\");\n}\n";
const LIB: &str = "pub struct Foo;\n\nimpl Foo {\n    pub fn new() -> Self { Self }\n}\n";

fn tree() -> Vec<(&'static str, EntryKind, String)> {
    vec![
        ("/base/src", EntryKind::Directory, String::new()),
        ("/base/src/main.rs", EntryKind::File, MAIN.to_string()),
        ("/base/src/lib.rs", EntryKind::File, LIB.to_string()),
        ("/base/.gitignore", EntryKind::File, "node_modules/\n*.log\n".to_string()),
        ("/base/node_modules", EntryKind::Directory, String::new()),
        ("/base/node_modules/pkg.js", EntryKind::File, "module.exports = {}".to_string()),
        ("/base/debug.log", EntryKind::File, "some logs".to_string()),
    ]
}

fn entries(all: &Vec<(&'static str, EntryKind, String)>, dir: &str) -> Vec<DirEntry> {
    all.iter()
        .filter_map(|(path, kind, _)| {
            let name = path.strip_prefix(dir)?.strip_prefix("/")?;
            if name.contains('/') {
                return None;
            }
            Some(DirEntry {
                name: name.to_string(),
                path: path.to_string(),
                kind: Some(*kind),
            })
        })
        .collect()
}

fn collect(
    all: &Vec<(&'static str, EntryKind, String)>,
    asked: &str,
    canonical: &str,
    extensions: Option<Vec<String>>,
) -> Result<Vec<FileContent>, String> {
    let ignore = build_gitignore(&Some("node_modules/\n*.log\n".to_string()));
    let mut c = Collector::new(ROOT.to_string(), ignore, extensions);
    let found = all.iter().find(|(p, _, _)| *p == canonical);
    let kind = match found {
        Some((_, k, _)) => *k,
        None => EntryKind::Directory,
    };
    c.add_path(
        asked,
        ResolvedPath {
            joined: format!("{ROOT}/{asked}"),
            exists: true,
            canonical: Ok(canonical.to_string()),
            inside: canonical.starts_with(ROOT),
            kind,
        },
    )?;
    while let Some(w) = c.next_work() {
        match w {
            Work::Directory(d) => c.add_entries(Ok(entries(all, &d)))?,
            Work::File(p) => {
                let content = all.iter().find(|(q, _, _)| *q == p).map(|(_, _, t)| t.clone());
                let size = content.as_ref().map(|t| t.len() as u64).unwrap_or(0);
                c.add_file(&p, Ok(size), content)?
            }
        }
    }
    Ok(c.files)
}

#[test]
fn test_collect_files_respects_gitignore() {
    let files = collect(&tree(), ".", ROOT, None).unwrap();
    assert!(!files.iter().any(|f| f.path.contains("node_modules")));
    assert!(!files.iter().any(|f| f.path.contains(".log")));
    let paths: Vec<&str> = files.iter().map(|f| f.path.as_str()).collect();
    assert_eq!(paths, vec!["/base/.gitignore", "/base/src/lib.rs", "/base/src/main.rs"]);
}

#[test]
fn test_collect_files_extension_filter() {
    let mut all = tree();
    all.push(("/base/src/script.py", EntryKind::File, "print('hello')".to_string()));
    let files = collect(&all, "src", "/base/src", Some(vec!["py".to_string()])).unwrap();
    assert_eq!(files.len(), 1);
    assert!(files[0].path.ends_with("script.py"));
}

#[test]
fn test_collect_files_rejects_absolute_paths() {
    let result = collect(&tree(), "/etc/passwd", "/etc/passwd", None);
    assert!(result.is_err());
    assert!(result.unwrap_err().contains("Absolute paths are not allowed"));
}

#[test]
fn test_collect_files_rejects_path_traversal() {
    let result = collect(&tree(), "../../../etc/passwd", "/etc/passwd", None);
    assert!(result.is_err());
}

#[test]
fn test_collect_file_skips_large_files() {
    let mut all = tree();
    let large = "x".repeat((MAX_FILE_SIZE + 1) as usize);
    all.push(("/base/src/large.rs", EntryKind::File, large));
    let files = collect(&all, "src", "/base/src", None).unwrap();
    assert!(!files.iter().any(|f| f.path.ends_with("large.rs")));
}

#[test]
fn test_collect_files_skips_symlinks() {
    let mut all = tree();
    all.push(("/base/src/link.rs", EntryKind::Link, MAIN.to_string()));
    let files = collect(&all, "src", "/base/src", None).unwrap();
    assert!(!files.iter().any(|f| f.path.ends_with("link.rs")));
    assert_eq!(files.len(), 2);
}

fn empty_collector() -> Collector {
    Collector::new(ROOT.to_string(), vec![], None)
}

fn path(exists: bool, canonical: Result<&str, &str>, inside: bool) -> ResolvedPath {
    ResolvedPath {
        joined: "/base/x".to_string(),
        exists,
        canonical: canonical.map(|s| s.to_string()).map_err(|s| s.to_string()),
        inside,
        kind: EntryKind::File,
    }
}

#[test]
fn paths_that_cannot_be_read_are_errors() {
    let mut c = empty_collector();
    assert_eq!(
        c.add_path("x", path(false, Ok("/base/x"), true)),
        Err("Path does not exist: /base/x".to_string())
    );
    assert_eq!(
        c.add_path("x", path(true, Err("loop"), true)),
        Err("Failed to canonicalize path /base/x: loop".to_string())
    );
    assert_eq!(
        c.add_path("x", path(true, Ok("/etc/x"), false)),
        Err("Path escapes working directory: /base/x".to_string())
    );
    assert_eq!(
        c.add_entries(Err("denied".to_string())),
        Err("Failed to read directory: denied".to_string())
    );
    assert_eq!(
        c.add_file("/base/x", Err("gone".to_string()), None),
        Err("Failed to get metadata for /base/x: gone".to_string())
    );
    assert_eq!(c.add_path("x", path(true, Ok("/base/x"), true)), Ok(()));
    assert_eq!(c.next_work(), Some(Work::File("/base/x".to_string())));
}

#[test]
fn all_files_together_are_limited() {
    let mut c = empty_collector();
    let piece = "x".repeat(MAX_FILE_SIZE as usize);
    let mut taken: u64 = 0;
    while taken + MAX_FILE_SIZE <= MAX_TOTAL_SIZE {
        c.add_file("/base/a", Ok(MAX_FILE_SIZE), Some(piece.clone())).unwrap();
        taken += MAX_FILE_SIZE;
    }
    assert_eq!(c.total_size, taken);
    let e = c.add_file("/base/b", Ok(MAX_FILE_SIZE), Some(piece)).unwrap_err();
    assert_eq!(
        e,
        format!(
            "Total content size limit exceeded: {} bytes over the 1048576 byte limit",
            taken + MAX_FILE_SIZE - MAX_TOTAL_SIZE
        )
    );
    assert_eq!(c.total_size, taken);
}

#[test]
fn sizes_count_bytes() {
    let mut c = empty_collector();
    c.add_file("/base/a", Ok(4), Some("a\u{e9}\u{20ac}\u{1f680}".to_string())).unwrap();
    assert_eq!(c.total_size, 10);
}

#[test]
fn extensions_are_compared_in_lower_case() {
    let wanted = Some(vec!["RS".to_string()]);
    assert!(should_include_file("/a/b.rs", &wanted));
    assert!(should_include_file("/a/b.Rs", &wanted));
    assert!(!should_include_file("/a/b.py", &wanted));
    assert!(!should_include_file("/a/b", &wanted));
    assert!(should_include_file("/a/b", &None));
}

fn file(path: &str, content: &str) -> FileContent {
    FileContent { path: path.to_string(), content: content.to_string() }
}

#[test]
fn the_model_is_asked_about_the_files() {
    let files = vec![file("/base/a.rs", "one\ntwo"), file("/base/b.rs", "three\n")];
    assert_eq!(count_lines(&files), 3);
    let prompt = build_prompt(&files, "what?", "/base");
    assert!(prompt.contains("a.rs"));
    assert!(prompt.contains("three"));
    assert!(prompt.contains("what?"));
    assert!(!summary_system_prompt().is_empty());
    let answer = summary_answer(&vec!["It is".to_string(), "fine".to_string()], &files);
    assert!(answer.starts_with("It is\nfine\n\n---\n*Analyzed 2 "));
}

#[test]
fn calls_are_checked() {
    assert!(check_call("summarize", true, None, 1).is_none());
    let text = |r: Option<SummaryRefusal<'_>>| refusal_text(r.unwrap());
    assert!(text(check_call("other", true, None, 1)).contains("other"));
    assert!(text(check_call("summarize", false, None, 1)).len() > 0);
    assert!(text(check_call("summarize", true, Some("bad"), 1)).contains("bad"));
    assert!(text(check_call("summarize", true, None, 0)).len() > 0);
    assert_eq!(get_tools(vec![])[0].name, "summarize");
}
