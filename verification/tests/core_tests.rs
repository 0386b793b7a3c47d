use gn_language_server::binary::{find_gn_binary, prebuilt_binary_paths, select_gn_binary};
use std::sync::Arc;

use gn_language_server::builtins::{builtins, is_declare_args, is_foreach, is_import, is_template};
use gn_language_server::cache::{compute_next_check, compute_next_verify, AnalysisNode, CacheConfig, CacheState};
use gn_language_server::dotgn::evaluate_dot_gn;
use gn_language_server::environment::Environment;
use gn_language_server::error::{Error, IoErrorKind};
use gn_language_server::line_index::Range;
use gn_language_server::workspace_symbol::{drop_shadowed, WorkspaceSymbol, WorkspaceSymbolKind};
use gn_language_server::storage::{DocumentStorage, DocumentVersion};
use gn_language_server::util::{is_after_dot, is_exported, parse_simple_literal};
use gn_language_server::workspace::{
    find_nearest_workspace_root, find_workspace_root, format_path, join, parent, require_absolute, resolve_path, search_step, strip_prefix,
    SearchStep, WorkspaceContext, WorkspaceFinder,
};

fn text(v: &[u8]) -> &str {
    std::str::from_utf8(v).unwrap()
}

#[test]
fn environment_get_finds_locals_before_imports() {
    let mut base: Environment<u64> = Environment::new();
    base.insert(b"a", 1);
    base.insert(b"b", 2);
    let base = Arc::new(base);
    let mut env: Environment<u64> = Environment::new();
    env.import(&base);
    env.insert(b"a", 10);
    assert_eq!(env.get(b"a"), Some(&10));
    assert_eq!(env.get(b"b"), Some(&2));
    assert_eq!(env.get(b"c"), None);
    assert!(env.contains(b"b"));
    assert!(!env.contains(b"c"));
    assert_eq!(env.get_local(b"b"), None);
}

#[test]
fn environment_insert_replaces() {
    let mut env: Environment<u64> = Environment::new();
    env.insert(b"x", 1);
    env.insert(b"x", 2);
    assert_eq!(env.get(b"x"), Some(&2));
    assert_eq!(env.locals().len(), 1);
}

#[test]
fn environment_all_items_names_every_visible_name_once() {
    let mut base: Environment<u64> = Environment::new();
    base.insert(b"a", 1);
    base.insert(b"b", 2);
    let base = Arc::new(base);
    let mut env: Environment<u64> = Environment::new();
    env.import(&base);
    env.insert(b"a", 10);
    env.insert(b"c", 3);
    let mut items = env.all_items();
    items.sort();
    assert_eq!(items, vec![(b"a".to_vec(), 10), (b"b".to_vec(), 2), (b"c".to_vec(), 3)]);
}

#[test]
fn environment_ensure_and_merge() {
    let mut env: Environment<u64> = Environment::new();
    *env.ensure(b"n", || 5) += 1;
    *env.ensure(b"n", || 100) += 1;
    assert_eq!(env.get(b"n"), Some(&7));
    let mut other: Environment<u64> = Environment::new();
    other.insert(b"n", 1);
    other.insert(b"m", 2);
    env.merge(other);
    assert_eq!(env.get(b"n"), Some(&1));
    assert_eq!(env.get(b"m"), Some(&2));
}

#[test]
fn storage_memory_documents() {
    let mut storage = DocumentStorage::new();
    storage.load_to_memory(b"/nonexistent_ws/BUILD.gn", "a = 1\n", 3);
    let doc = storage.read_memory(b"/nonexistent_ws/BUILD.gn").unwrap();
    assert_eq!(doc.data, "a = 1\n");
    assert_eq!(doc.version, DocumentVersion::InMemory { revision: 3 });
    let read = storage.read(b"/nonexistent_ws/BUILD.gn").unwrap();
    assert_eq!(read.data, "a = 1\n");
    assert_eq!(storage.read_version(b"/nonexistent_ws/BUILD.gn").unwrap(), DocumentVersion::InMemory { revision: 3 });
    storage.load_to_memory(b"/nonexistent_ws/BUILD.gn", "b = 2\n", 4);
    assert_eq!(storage.read(b"/nonexistent_ws/BUILD.gn").unwrap().data, "b = 2\n");
    storage.unload_from_memory(b"/nonexistent_ws/BUILD.gn");
    assert!(storage.read_memory(b"/nonexistent_ws/BUILD.gn").is_none());
    match storage.read(b"/nonexistent_ws/BUILD.gn") {
        Err(e) => assert!(e.is_not_found()),
        Ok(_) => panic!("a file that is neither open nor on disk was read"),
    }
}

#[test]
fn error_not_found() {
    assert!(Error::not_found().is_not_found());
    assert!(!Error::General(b"x".to_vec()).is_not_found());
}

#[test]
fn paths_resolve_and_format() {
    assert_eq!(resolve_path(b"//foo/bar.gni", b"/ws", b"/ws/a"), b"/ws/foo/bar.gni".to_vec());
    assert_eq!(resolve_path(b"bar.gni", b"/ws", b"/ws/a"), b"/ws/a/bar.gni".to_vec());
    assert_eq!(resolve_path(b"/abs/x.gni", b"/ws", b"/ws/a"), b"/abs/x.gni".to_vec());
    assert_eq!(format_path(b"/ws/a/BUILD.gn", b"/ws"), b"//a/BUILD.gn".to_vec());
    assert_eq!(format_path(b"/other/BUILD.gn", b"/ws"), b"/other/BUILD.gn".to_vec());
    assert_eq!(strip_prefix(b"/ws/a", b"/ws"), Some(b"a".to_vec()));
    assert_eq!(strip_prefix(b"/wsx/a", b"/ws"), None);
    assert_eq!(join(b"/ws", b"a"), b"/ws/a".to_vec());
    assert_eq!(join(b"/ws/", b"a"), b"/ws/a".to_vec());
    assert_eq!(join(b"/ws", b"/b"), b"/b".to_vec());
    assert_eq!(parent(b"/ws/a/BUILD.gn"), Some(b"/ws/a".to_vec()));
    assert_eq!(parent(b"/ws"), Some(b"/".to_vec()));
    assert_eq!(parent(b"/"), None);
    assert_eq!(parent(b""), None);
}

#[test]
fn format_then_resolve_gives_the_path_back() {
    let root: &[u8] = b"/ws";
    for path in [&b"/ws/a/BUILD.gn"[..], &b"/ws/x.gni"[..]] {
        let shown = format_path(path, root);
        assert_eq!(resolve_path(&shown, root, b"/elsewhere"), path.to_vec());
    }
}

#[test]
fn workspace_roots_off_disk() {
    match find_workspace_root(b"/nonexistent_ws_root/a/BUILD.gn") {
        Err(e) => {
            assert!(e.is_not_found());
            match e {
                Error::NotFound(m) => assert_eq!(text(&m), "Workspace not found for /nonexistent_ws_root/a/BUILD.gn"),
                other => panic!("unexpected error {:?}", other),
            }
        }
        Ok(root) => panic!("found a workspace at {}", text(&root)),
    }
    assert_eq!(find_nearest_workspace_root(b"/nonexistent_ws_root/a"), None);
    let finder = WorkspaceFinder::new(None);
    assert_eq!(finder.find_for(b"/nonexistent_ws_root/a/BUILD.gn"), None);
}

#[test]
fn workspace_context_paths() {
    let ctx = WorkspaceContext {
        root: b"/ws".to_vec(),
        dot_gn_version: DocumentVersion::InMemory { revision: 1 },
        build_config: b"/ws/build/BUILDCONFIG.gn".to_vec(),
    };
    assert_eq!(ctx.resolve_path(b"//x.gni", b"/ws/a"), b"/ws/x.gni".to_vec());
    assert_eq!(ctx.format_path(b"/ws/a/BUILD.gn"), b"//a/BUILD.gn".to_vec());
}

#[test]
fn dot_gn_build_config() {
    let r = evaluate_dot_gn(b"/ws", "buildconfig = \"//build/BUILDCONFIG.gn\"\n");
    assert_eq!(r.unwrap(), b"/ws/build/BUILDCONFIG.gn".to_vec());
}

fn dot_gn_error(input: &str) -> String {
    match evaluate_dot_gn(b"/ws", input) {
        Err(Error::General(m)) => String::from_utf8(m).unwrap(),
        other => panic!("unexpected result {:?}", other),
    }
}

#[test]
fn dot_gn_problems() {
    assert_eq!(dot_gn_error("x = 1\n"), "/ws/.gn: buildconfig is not assigned directly");
    assert_eq!(
        dot_gn_error("buildconfig = \"//a.gn\"\nbuildconfig = \"//b.gn\"\n"),
        "/ws/.gn:2:1: buildconfig is assigned multiple times"
    );
    assert_eq!(dot_gn_error("buildconfig = 1\n"), "/ws/.gn:1:1: buildconfig is not a simple string");
    assert_eq!(dot_gn_error("buildconfig += \"//a.gn\"\n"), "/ws/.gn:1:1: buildconfig must be assigned exactly once");
}

#[test]
fn next_check_times() {
    assert_eq!(compute_next_check(100, DocumentVersion::OnDisk { modified: 1 }), 5100);
    assert_eq!(compute_next_check(100, DocumentVersion::InMemory { revision: 1 }), 100);
    assert_eq!(compute_next_verify(100, DocumentVersion::OnDisk { modified: 1 }), 5100);
    let config = CacheConfig::new(42, true);
    assert_eq!(config.time(), 42);
    assert!(config.should_update_shallow());
}

#[test]
fn stale_in_memory_node() {
    let mut storage = DocumentStorage::new();
    storage.load_to_memory(b"/nonexistent_ws/a.gni", "a = 1\n", 1);
    let mut node = AnalysisNode::new(b"/nonexistent_ws/a.gni".to_vec(), DocumentVersion::InMemory { revision: 1 }, Vec::new(), 0);
    assert!(node.verify(0, &storage));
    storage.load_to_memory(b"/nonexistent_ws/a.gni", "a = 2\n", 2);
    // Still trusted at the instant it was computed for.
    assert!(node.verify(0, &storage));
    assert!(!node.verify(1, &storage));
    assert_eq!(node.state, CacheState::Stale);
    assert!(!node.verify(0, &storage));
}

#[test]
fn builtin_names() {
    assert!(is_import(b"import"));
    assert!(is_template(b"template"));
    assert!(is_declare_args(b"declare_args"));
    assert!(is_foreach(b"foreach"));
    assert!(!is_import(b"imports"));
    let b = builtins();
    let all = b.all();
    assert_eq!(all.len(), b.targets.len() + b.functions.len() + b.predefined_variables.len() + b.target_variables.len());
    assert!(all.iter().any(|s| s.name == "executable"));
}

#[test]
fn literals_and_names() {
    assert_eq!(parse_simple_literal(b"foo"), Some(&b"foo"[..]));
    assert_eq!(parse_simple_literal(b"a$b"), None);
    assert_eq!(parse_simple_literal(b"a\\b"), None);
    assert!(is_exported(b"foo"));
    assert!(!is_exported(b"_foo"));
    assert!(is_after_dot(b"a.bc", 4));
    assert!(!is_after_dot(b"a bc", 4));
}

#[test]
fn build_arguments_shadow_other_symbols() {
    let symbol = |name: &str, kind: WorkspaceSymbolKind| WorkspaceSymbol {
        name: name.as_bytes().to_vec(),
        kind,
        path: b"/ws/a.gni".to_vec(),
        range: Range::default(),
    };
    let all = vec![
        symbol("x", WorkspaceSymbolKind::Variable),
        symbol("x", WorkspaceSymbolKind::Constant),
        symbol("y", WorkspaceSymbolKind::Variable),
        symbol("x", WorkspaceSymbolKind::Function),
    ];
    let kept = drop_shadowed(&all);
    let kinds: Vec<(String, WorkspaceSymbolKind)> =
        kept.iter().map(|s| (String::from_utf8(s.name.clone()).unwrap(), s.kind)).collect();
    assert_eq!(
        kinds,
        vec![("x".to_string(), WorkspaceSymbolKind::Constant), ("y".to_string(), WorkspaceSymbolKind::Variable)]
    );
}

#[test]
fn prebuilt_gn_binaries_under_a_root() {
    assert_eq!(
        prebuilt_binary_paths(b"/src"),
        vec![b"/src/buildtools/linux64/gn".to_vec(), b"/src/prebuilt/third_party/gn/linux-x64/gn".to_vec()]
    );
    assert_eq!(
        prebuilt_binary_paths(b"/src/"),
        vec![b"/src/buildtools/linux64/gn".to_vec(), b"/src/prebuilt/third_party/gn/linux-x64/gn".to_vec()]
    );
    assert_eq!(find_gn_binary(None), None);
    // Nothing is prebuilt under a root that does not exist: what is found
    // comes from `PATH`, if anything.
    let found = find_gn_binary(Some(&b"/nonexistent-gn-root"[..]));
    assert!(found.map_or(true, |p| !p.starts_with(b"/nonexistent-gn-root")));
}

#[test]
fn separators_after_the_root_count_once() {
    assert_eq!(format_path(b"/ws//a", b"/ws"), b"//a".to_vec());
    assert_eq!(format_path(b"/ws/", b"/ws"), b"//".to_vec());
    assert_eq!(strip_prefix(b"/wsx/a", b"/ws"), None);
}

#[test]
fn workspace_search_steps() {
    assert!(matches!(search_step(Ok(true)), SearchStep::Found));
    assert!(matches!(search_step(Ok(false)), SearchStep::Up));
    assert!(matches!(search_step(Err(IoErrorKind::Other)), SearchStep::Failed(IoErrorKind::Other)));
}

#[test]
fn gn_binary_selection_prefers_the_tree() {
    let candidates = vec![b"/r/buildtools/linux64/gn".to_vec(), b"/r/prebuilt/third_party/gn/linux-x64/gn".to_vec()];
    let on_path = Some(b"/usr/bin/gn".to_vec());
    assert_eq!(select_gn_binary(&candidates, &vec![true], on_path.clone()), Some(candidates[0].clone()));
    assert_eq!(select_gn_binary(&candidates, &vec![false, true], on_path.clone()), Some(candidates[1].clone()));
    assert_eq!(select_gn_binary(&candidates, &vec![false, false], on_path.clone()), on_path);
    assert_eq!(select_gn_binary(&candidates, &vec![false, false], None), None);
}

#[test]
fn new_node_is_fresh_at_its_request_time() {
    // The version is not read back before the node's trust expires.
    let storage = DocumentStorage::new();
    let mut node = AnalysisNode::new(b"/nonexistent_ws/b.gni".to_vec(), DocumentVersion::OnDisk { modified: 7 }, Vec::new(), 100);
    assert!(node.verify(100, &storage));
    assert!(node.verify(5100, &storage));
    // After it, the file is read again; it is gone, so the node goes stale.
    assert!(!node.verify(5101, &storage));
    assert_eq!(node.state, CacheState::Stale);
}

#[test]
fn only_absolute_paths_are_analyzed() {
    assert!(require_absolute(b"/ws/BUILD.gn").is_ok());
    match require_absolute(b"ws/BUILD.gn") {
        Err(Error::General(m)) => assert_eq!(text(&m), "Path must be absolute"),
        other => panic!("unexpected {:?}", other),
    }
}
