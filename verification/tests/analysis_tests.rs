use std::sync::Arc;

use gn_language_server::analyzed::{import_requests, ImportTable};
use gn_language_server::builtins::builtins;
use gn_language_server::definition::{template_definition, variable_definitions};
use gn_language_server::diagnostics::builtin_scope;
use gn_language_server::file::{AnalyzedFile, Completion, Definition};
use gn_language_server::files::{completion_dir, filename_completions};
use gn_language_server::help::{format_template_help, template_help_for, variable_help_for};
use gn_language_server::items::{AssignmentSite, FileEnvironment};
use gn_language_server::line_index::{Position, Range};
use gn_language_server::links::AnalyzedLink;
use gn_language_server::parser::parse;
use gn_language_server::references::{overlapping_targets, target_link_fragment, target_position, target_references};
use gn_language_server::report::compute_diagnostics;
use gn_language_server::shallow::{shallow_environment, shallow_imports};
use gn_language_server::shallow_analyzer::{ShallowAnalyzer, ShallowRun};
use gn_language_server::storage::{DocumentStorage, DocumentVersion};
use gn_language_server::symbols::SymbolKind;
use gn_language_server::workspace::{parent, WorkspaceContext};
use gn_language_server::workspace_symbol::{drop_shadowed, workspace_symbols, WorkspaceSymbolKind};

const BUILD_CONFIG: &str = "is_linux = true\n";

const CONFIG_GNI: &str = "# Enables optimization.
enable_opt = false
_private = 1
template(\"my_rule\") {
  forward_variables_from(invoker, [ \"deps\" ])
}
declare_args() {
  use_goma = false
}
";

const BUILD_GN: &str = "import(\"//config.gni\")

# The library.
_lib = \"lib\"

executable(\"main\") {
  sources = [ \"main.cc\" ]
  deps = [ \"//:rule\" ]
}

my_rule(\"rule\") {
}

if (enable_opt) {
  x = undefined_thing
}
";

fn context() -> WorkspaceContext {
    WorkspaceContext {
        root: b"/ws".to_vec(),
        dot_gn_version: DocumentVersion::InMemory { revision: 1 },
        build_config: b"/ws/build/BUILDCONFIG.gn".to_vec(),
    }
}

fn storage() -> DocumentStorage {
    let mut storage = DocumentStorage::new();
    storage.load_to_memory(b"/ws/build/BUILDCONFIG.gn", BUILD_CONFIG, 1);
    storage.load_to_memory(b"/ws/config.gni", CONFIG_GNI, 1);
    storage.load_to_memory(b"/ws/BUILD.gn", BUILD_GN, 1);
    storage
}

fn shallow(analyzer: &mut ShallowAnalyzer, storage: &DocumentStorage, path: &[u8]) -> FileEnvironment {
    let mut run = ShallowRun::new(0);
    analyzer.begin(&mut run, path, storage);
    while !analyzer.step(&mut run, storage) {}
    run.result().unwrap().share()
}

fn analyze(analyzer: &mut ShallowAnalyzer, storage: &DocumentStorage, path: &[u8]) -> AnalyzedFile {
    let ctx = context();
    let build = shallow(analyzer, storage, &ctx.build_config);
    let document = storage.read(path).unwrap();
    let ast = parse(&document.data);
    let dir = parent(path).unwrap();
    let mut entries = Vec::new();
    for request in import_requests(&ast, &ctx.root, &dir) {
        let env = shallow(analyzer, storage, &request);
        entries.push((request, Arc::new(env)));
    }
    AnalyzedFile::analyze(document, &ctx, ImportTable { entries }, Arc::new(build), Vec::new(), 0)
}

fn position_of(text: &str, needle: &str, delta: usize) -> Position {
    let offset = text.find(needle).unwrap() + delta;
    let mut line = 0;
    let mut character = 0;
    for (i, c) in text.char_indices() {
        if i == offset {
            break;
        }
        if c == '\n' {
            line += 1;
            character = 0;
        } else {
            character += c.len_utf16() as u32;
        }
    }
    Position::new(line, character)
}

fn strings(v: Vec<Vec<u8>>) -> Vec<String> {
    v.into_iter().map(|p| String::from_utf8(p).unwrap()).collect()
}

#[test]
fn analyze_in_memory_workspace() {
    let storage = storage();
    let mut analyzer = ShallowAnalyzer::new(context());
    let file = analyze(&mut analyzer, &storage, b"/ws/BUILD.gn");
    assert!(file.ast.errors().is_empty());
    let variables = file.variables_at(0);
    assert!(variables.get(b"enable_opt").is_some());
    assert!(variables.get(b"_lib").is_some());
    assert!(variables.get(b"is_linux").is_some());
    assert!(variables.get(b"use_goma").unwrap().is_args);
    assert!(variables.get(b"_private").is_none());
    let templates = file.templates_at(0);
    assert!(templates.get(b"my_rule").is_some());
}

#[test]
fn shallow_exports_skip_private_names() {
    let ast = parse(CONFIG_GNI);
    assert!(shallow_imports(&ast, b"/ws/config.gni").is_empty());
    let env = shallow_environment(&ast, b"/ws/config.gni", &Vec::new());
    assert!(env.variables().get(b"enable_opt").is_some());
    assert!(env.variables().get(b"_private").is_none());
    assert!(env.templates().get(b"my_rule").is_some());
    let enable_opt = env.variables().get(b"enable_opt").unwrap();
    assert!(!enable_opt.is_args);
    assert_eq!(enable_opt.assignments.len(), 1);
    assert_eq!(enable_opt.assignments[0].comments, vec![b" Enables optimization.".to_vec()]);
    let build = parse(BUILD_GN);
    assert_eq!(shallow_imports(&build, b"/ws/BUILD.gn"), vec![b"//config.gni".to_vec()]);
}

#[test]
fn hover_on_imported_variable() {
    let storage = storage();
    let mut analyzer = ShallowAnalyzer::new(context());
    let file = analyze(&mut analyzer, &storage, b"/ws/BUILD.gn");
    let b = builtins();
    let hover = file.hover_at(position_of(BUILD_GN, "enable_opt)", 2), &b).unwrap();
    assert!(hover.template.is_none());
    assert!(hover.builtin.is_none());
    let variable = hover.variable.unwrap();
    assert_eq!(variable.assignments.len(), 1);
    assert_eq!(variable.assignments[0].path, b"/ws/config.gni".to_vec());
    let help = variable_help_for(b"enable_opt", &variable, &file.document, &storage, b"/ws").unwrap();
    assert_eq!(
        strings(help),
        vec![
            "```gn\nenable_opt = false\n```".to_string(),
            "```text\nEnables optimization.\n```".to_string(),
            "Defined at [//config.gni:2:1](file:///ws/config.gni#L2,1)".to_string(),
        ]
    );
}

#[test]
fn hover_on_builtin() {
    let storage = storage();
    let mut analyzer = ShallowAnalyzer::new(context());
    let file = analyze(&mut analyzer, &storage, b"/ws/BUILD.gn");
    let b = builtins();
    let hover = file.hover_at(position_of(BUILD_GN, "executable", 1), &b).unwrap();
    assert_eq!(hover.builtin.unwrap().name, "executable");
    assert!(file.hover_at(position_of(BUILD_GN, "\n\n# The", 1), &b).is_none());
}

#[test]
fn template_help_text() {
    let storage = storage();
    let mut analyzer = ShallowAnalyzer::new(context());
    let file = analyze(&mut analyzer, &storage, b"/ws/BUILD.gn");
    let templates = file.templates_at(0);
    let template = templates.get(b"my_rule").unwrap();
    let help = template_help_for(template, &file.document, &storage, b"/ws").unwrap();
    assert_eq!(
        strings(help),
        vec![
            "```gn\ntemplate(\"my_rule\") { ... }\n```".to_string(),
            "Defined at [//config.gni:4:1](file:///ws/config.gni#L4,1)".to_string(),
        ]
    );
    let document = storage.read(b"/ws/config.gni").unwrap();
    assert_eq!(format_template_help(template, &document, b"/other").len(), 2);
}

#[test]
fn variable_help_of_local_assignment() {
    let storage = storage();
    let mut analyzer = ShallowAnalyzer::new(context());
    let file = analyze(&mut analyzer, &storage, b"/ws/BUILD.gn");
    let variables = file.variables_at(0);
    let lib = variables.get(b"_lib").unwrap();
    match lib.assignments[0].site {
        AssignmentSite::Assignment { .. } => {},
        _ => panic!("an assignment statement was recorded as a call"),
    }
    let help = variable_help_for(b"_lib", lib, &file.document, &storage, b"/ws").unwrap();
    assert_eq!(
        strings(help),
        vec![
            "```gn\n_lib = \"lib\"\n```".to_string(),
            "```text\nThe library.\n```".to_string(),
            "Defined at [//BUILD.gn:4:1](file:///ws/BUILD.gn#L4,1)".to_string(),
        ]
    );
}

#[test]
fn completion_items_and_files() {
    let storage = storage();
    let mut analyzer = ShallowAnalyzer::new(context());
    let file = analyze(&mut analyzer, &storage, b"/ws/BUILD.gn");
    let b = builtins();
    match file.completion_at(position_of(BUILD_GN, "main.cc", 2), &b) {
        Completion::Files { prefix } => assert_eq!(prefix, b"ma".to_vec()),
        _ => panic!("expected file completion"),
    }
    match file.completion_at(position_of(BUILD_GN, "//:rule", 2), &b) {
        Completion::Nothing => {},
        _ => panic!("labels are not completed"),
    }
    match file.completion_at(position_of(BUILD_GN, "if (", 0), &b) {
        Completion::Items { variables, templates, functions, builtin_variables, keywords } => {
            assert!(variables.iter().any(|(n, _)| n == b"enable_opt"));
            assert!(variables.iter().any(|(n, _)| n == b"_lib"));
            assert!(templates.iter().any(|(n, _)| n == b"my_rule"));
            assert_eq!(functions.len(), b.functions.len() + b.targets.len());
            assert_eq!(builtin_variables.len(), b.predefined_variables.len() + b.target_variables.len());
            assert_eq!(strings(keywords), vec!["true", "false", "if", "else"]);
        },
        _ => panic!("expected identifiers"),
    }
}

#[test]
fn file_name_completion() {
    assert_eq!(completion_dir(b"/ws/a/BUILD.gn", b"ma"), Some((b"/ws/a/".to_vec(), b"ma".to_vec())));
    assert_eq!(completion_dir(b"/ws/a/BUILD.gn", b"sub/dir/x"), Some((b"/ws/a/sub/dir".to_vec(), b"x".to_vec())));
    assert_eq!(completion_dir(b"/", b"x"), None);
    let entries = vec![
        (b"main.cc".to_vec(), false),
        (b"BUILD.gn".to_vec(), false),
        (b"mains".to_vec(), true),
        (b"maa.h".to_vec(), false),
    ];
    let items = filename_completions(&entries, b"ma");
    assert_eq!(
        items,
        vec![(b"maa.h".to_vec(), false), (b"main.cc".to_vec(), false), (b"mains/".to_vec(), true)]
    );
    assert_eq!(filename_completions(&entries, b"").len(), 4);
}

#[test]
fn definitions() {
    let storage = storage();
    let mut analyzer = ShallowAnalyzer::new(context());
    let file = analyze(&mut analyzer, &storage, b"/ws/BUILD.gn");
    match file.definition_at(position_of(BUILD_GN, "enable_opt)", 0)) {
        Definition::Symbols { template, variable, .. } => {
            assert!(template.is_none());
            let variable = variable.unwrap();
            let docs = vec![storage.read(b"/ws/config.gni").unwrap()];
            let targets = variable_definitions(&variable, &docs);
            assert_eq!(targets.len(), 1);
            assert_eq!(targets[0].path, b"/ws/config.gni".to_vec());
            assert_eq!(targets[0].range, Range { start: Position::new(1, 0), end: Position::new(1, 18) });
            assert_eq!(targets[0].selection, Range { start: Position::new(1, 0), end: Position::new(1, 10) });
            assert!(variable_definitions(&variable, &Vec::new()).is_empty());
        },
        _ => panic!("expected a variable"),
    }
    match file.definition_at(position_of(BUILD_GN, "my_rule(", 1)) {
        Definition::Symbols { template, .. } => {
            let template = template.unwrap();
            let docs = vec![storage.read(b"/ws/config.gni").unwrap()];
            let target = template_definition(&template, &docs).unwrap();
            assert_eq!(target.selection, Range { start: Position::new(3, 0), end: Position::new(3, 8) });
        },
        _ => panic!("expected a template"),
    }
    match file.definition_at(position_of(BUILD_GN, "//:rule", 3)) {
        Definition::Link(k) => match &file.links[k] {
            AnalyzedLink::Target { path, name, .. } => {
                assert_eq!(path, &b"/ws/BUILD.gn".to_vec());
                assert_eq!(name, &b"rule".to_vec());
            },
            _ => panic!("expected a target link"),
        },
        _ => panic!("expected a link"),
    }
}

#[test]
fn target_names_and_references() {
    let storage = storage();
    let mut analyzer = ShallowAnalyzer::new(context());
    let file = analyze(&mut analyzer, &storage, b"/ws/BUILD.gn");
    assert_eq!(file.target_at(position_of(BUILD_GN, "\"rule\"", 2)), Some(b"rule".to_vec()));
    assert_eq!(file.target_at(position_of(BUILD_GN, "\"main\"", 1)), Some(b"main".to_vec()));
    assert_eq!(file.target_at(position_of(BUILD_GN, "\"main\"", 0)), None);
    assert!(overlapping_targets(&file.ast, b"rule").is_empty());
    assert_eq!(overlapping_targets(&file.ast, b"ma"), vec![b"main".to_vec()]);
    let refs = target_references(&file, b"rule", &vec![&file]);
    assert_eq!(refs.len(), 1);
    assert_eq!(refs[0].0, b"/ws/BUILD.gn".to_vec());
    assert_eq!(refs[0].1.start, position_of(BUILD_GN, "\"//:rule\"", 0));
    assert!(target_references(&file, b"main", &vec![&file]).is_empty());
}

#[test]
fn target_link_positions() {
    let storage = storage();
    let mut analyzer = ShallowAnalyzer::new(context());
    let _ = analyze(&mut analyzer, &storage, b"/ws/BUILD.gn");
    let _ = shallow(&mut analyzer, &storage, b"/ws/BUILD.gn");
    let files = analyzer.files();
    let build = files.iter().find(|f| f.path == b"/ws/BUILD.gn".to_vec()).unwrap();
    assert_eq!(target_position(build, b"rule"), Position::new(10, 0));
    assert_eq!(String::from_utf8(target_link_fragment(build, b"rule")).unwrap(), "L11,1");
    assert_eq!(String::from_utf8(target_link_fragment(build, b"mainly")).unwrap(), "L6,1");
    assert_eq!(String::from_utf8(target_link_fragment(build, b"zzz")).unwrap(), "L1,1");
}

#[test]
fn diagnostics_of_file() {
    let storage = storage();
    let mut analyzer = ShallowAnalyzer::new(context());
    let file = analyze(&mut analyzer, &storage, b"/ws/BUILD.gn");
    let b = builtins();
    let scope = Arc::new(builtin_scope(&b));
    assert!(compute_diagnostics(&file, &scope, false).is_empty());
    let diags = compute_diagnostics(&file, &scope, true);
    assert_eq!(diags.len(), 1);
    assert_eq!(String::from_utf8(diags[0].message.clone()).unwrap(), "undefined_thing not defined");
    assert_eq!(diags[0].range.start, position_of(BUILD_GN, "undefined_thing", 0));
}

#[test]
fn syntax_error_diagnostic() {
    let mut storage = DocumentStorage::new();
    storage.load_to_memory(b"/ws/build/BUILDCONFIG.gn", "", 1);
    storage.load_to_memory(b"/ws/BUILD.gn", "a = [1, 2 3]\n", 1);
    let mut analyzer = ShallowAnalyzer::new(context());
    let file = analyze(&mut analyzer, &storage, b"/ws/BUILD.gn");
    let scope = Arc::new(builtin_scope(&builtins()));
    let diags = compute_diagnostics(&file, &scope, false);
    assert_eq!(diags.len(), 1);
    assert_eq!(String::from_utf8(diags[0].message.clone()).unwrap(), "Syntax error");
    assert_eq!(diags[0].range.start, Position::new(0, 9));
}

#[test]
fn outline() {
    let storage = storage();
    let mut analyzer = ShallowAnalyzer::new(context());
    let file = analyze(&mut analyzer, &storage, b"/ws/BUILD.gn");
    let names: Vec<String> = file.symbols.iter().map(|s| String::from_utf8(s.name.clone()).unwrap()).collect();
    assert_eq!(names, vec!["_lib = ...", "executable(\"main\")", "my_rule(\"rule\")", "if (enable_opt)"]);
    assert_eq!(file.symbols[0].kind, SymbolKind::Variable);
    assert_eq!(file.symbols[1].children.len(), 2);
}

#[test]
fn workspace_symbol_search() {
    let storage = storage();
    let mut analyzer = ShallowAnalyzer::new(context());
    let _ = shallow(&mut analyzer, &storage, b"/ws/config.gni");
    let found = workspace_symbols(analyzer.files(), b"OPT");
    assert_eq!(found.len(), 1);
    assert_eq!(found[0].name, b"enable_opt".to_vec());
    assert_eq!(found[0].kind, WorkspaceSymbolKind::Variable);
    assert_eq!(found[0].path, b"/ws/config.gni".to_vec());
    assert_eq!(found[0].range.start, Position::new(1, 0));
    let goma = workspace_symbols(analyzer.files(), b"goma");
    assert_eq!(goma.len(), 1);
    assert_eq!(goma[0].kind, WorkspaceSymbolKind::Constant);
    let rules = workspace_symbols(analyzer.files(), b"rule");
    assert_eq!(rules.len(), 1);
    assert_eq!(rules[0].kind, WorkspaceSymbolKind::Function);
    let everything = workspace_symbols(analyzer.files(), b"");
    assert_eq!(drop_shadowed(&everything).len(), everything.len());
}

#[test]
fn gn_file_names() {
    use_names(&[("BUILD.gn", true), ("config.gni", true), ("a.gn.txt", false), ("gn", false), (".gn", true)]);
}

fn use_names(cases: &[(&str, bool)]) {
    for (name, expected) in cases {
        assert_eq!(gn_language_server::files::is_gn_file_name(name.as_bytes()), *expected, "{}", name);
    }
}
