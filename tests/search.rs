use extension_searcher::command::{
    search_request, CliError, INVALID_SUBCOMMAND, MISSING_DIRECTORY, MISSING_EXTENSIONS,
};
use extension_searcher::filter::{should_print, ExtensionFilter};
use walkdir::WalkDir;

fn strings(items: &[&str]) -> Vec<String> {
    items.iter().map(|s| s.to_string()).collect()
}

fn printed_paths(paths: &[&str], extensions: &[&str]) -> Vec<String> {
    let extensions = strings(extensions);
    paths
        .iter()
        .filter(|p| should_print(p, &extensions))
        .map(|p| p.to_string())
        .collect()
}

fn validation_message(r: Result<extension_searcher::command::SearchRequest, CliError>) -> String {
    match r {
        Err(CliError::ValidationError(m)) => m,
        Err(CliError::IoError(e)) => panic!("unexpected io error {:?}", e),
        Ok(_) => panic!("unexpected success"),
    }
}

#[test]
fn matches_ignore_case_and_exclude_others() {
    let out = printed_paths(&["root/a.txt", "root/b.TXT", "root/c.md"], &["txt"]);
    assert_eq!(out, vec!["root/a.txt".to_string(), "root/b.TXT".to_string()]);
}

#[test]
fn requested_extension_case_is_ignored() {
    let out = printed_paths(&["x.txt", "y.Txt", "z.md"], &["TXT"]);
    assert_eq!(out, vec!["x.txt".to_string(), "y.Txt".to_string()]);
}

#[test]
fn nested_entries_match() {
    let out = printed_paths(&["root", "root/sub", "root/sub/d.txt"], &["txt"]);
    assert_eq!(out, vec!["root/sub/d.txt".to_string()]);
}

#[test]
fn missing_root_prints_nothing() {
    let extensions = strings(&["txt"]);
    let mut out: Vec<String> = Vec::new();
    for entry in WalkDir::new("no/such/root/for/this/scan").into_iter().filter_map(|e| e.ok()) {
        let path = entry.path().to_string_lossy().into_owned();
        if should_print(&path, &extensions) {
            out.push(path);
        }
    }
    assert!(out.is_empty());
}

#[test]
fn no_matching_file_prints_nothing() {
    let out = printed_paths(&["root", "root/a.rs", "root/b.md", "root/c"], &["txt", "toml"]);
    assert!(out.is_empty());
}

#[test]
fn names_without_extension_never_match() {
    assert!(!should_print("Makefile", &strings(&["makefile"])));
    assert!(!should_print("dir/.bashrc", &strings(&["bashrc"])));
    assert!(!should_print("a.txt", &strings(&["a.txt"])));
    assert!(!should_print("a.txt", &strings(&[".txt"])));
}

#[test]
fn extension_is_text_after_last_dot() {
    assert!(should_print("archive.tar.gz", &strings(&["gz"])));
    assert!(!should_print("archive.tar.gz", &strings(&["tar"])));
    assert!(should_print("dir.d/file.RS", &strings(&["md", "rs"])));
}

#[test]
fn duplicate_extensions_are_harmless() {
    assert!(should_print("a.txt", &strings(&["txt", "TXT", "txt"])));
}

#[test]
fn scanning_twice_prints_the_same() {
    let paths = ["r/a.txt", "r/b.TXT", "r/c.md", "r/s/d.txt"];
    assert_eq!(printed_paths(&paths, &["txt"]), printed_paths(&paths, &["txt"]));
}

#[test]
fn filter_accepts_as_should_print() {
    let extensions = strings(&["Md", "txt"]);
    let filter = ExtensionFilter::new(&extensions);
    for p in ["a.md", "b.MD", "c.txt", "d.rs", "e", ".md"] {
        assert_eq!(filter.accepts(p), should_print(p, &extensions));
    }
    assert!(filter.accepts("b.MD"));
    assert!(!filter.accepts(".md"));
}

#[test]
fn search_request_accepts_full_invocation() {
    let r = search_request(Some("search".to_string()), Some("dir".to_string()), strings(&["txt", "md"]));
    match r {
        Ok(req) => {
            assert_eq!(req.root_dir, "dir");
            assert_eq!(req.extensions, strings(&["txt", "md"]));
        }
        Err(e) => panic!("unexpected error {:?}", e),
    }
}

#[test]
fn search_request_rejects_empty_extensions() {
    let r = search_request(Some("search".to_string()), Some("dir".to_string()), Vec::new());
    assert_eq!(validation_message(r), MISSING_EXTENSIONS);
}

#[test]
fn search_request_rejects_missing_directory() {
    let r = search_request(Some("search".to_string()), None, strings(&["txt"]));
    assert_eq!(validation_message(r), MISSING_DIRECTORY);
}

#[test]
fn search_request_rejects_missing_subcommand() {
    let r = search_request(None, None, Vec::new());
    assert_eq!(validation_message(r), "Invalid subcommand");
}

#[test]
fn search_request_rejects_other_subcommand() {
    let r = search_request(Some("find".to_string()), Some("dir".to_string()), strings(&["txt"]));
    assert_eq!(validation_message(r), INVALID_SUBCOMMAND);
}

#[test]
fn io_error_converts() {
    let e = CliError::from(std::io::Error::new(std::io::ErrorKind::Other, "boom"));
    assert!(matches!(e, CliError::IoError(_)));
}
