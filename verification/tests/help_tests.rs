use gn_language_server::help::{format_variable_help, hover_sections, variable_help_for};
use gn_language_server::parser::parse;
use gn_language_server::shallow::shallow_environment;
use gn_language_server::storage::{DocumentStorage, DocumentVersion};
use gn_language_server::workspace::WorkspaceContext;

const FILE: &str = "a = 1
a += 2
long = [
  1,
  2,
  3,
  4,
  5,
]
# First line.
#   Second line.
short = [ 1 ]
";

fn help_of(name: &str) -> Vec<String> {
    let mut storage = DocumentStorage::new();
    storage.load_to_memory(b"/ws/x.gni", FILE, 1);
    let document = storage.read(b"/ws/x.gni").unwrap();
    let env = shallow_environment(&parse(FILE), b"/ws/x.gni", &Vec::new());
    let variables = env.variables();
    let variable = variables.get(name.as_bytes()).unwrap();
    let help = variable_help_for(name.as_bytes(), variable, &document, &storage, b"/ws").unwrap();
    let direct = format_variable_help(name.as_bytes(), variable, &document, b"/ws").unwrap();
    assert_eq!(help, direct);
    help.into_iter().map(|p| String::from_utf8(p).unwrap()).collect()
}

#[test]
fn help_of_variable_set_twice() {
    assert_eq!(
        help_of("a"),
        vec!["```gn\na = ...\n```".to_string(), "Defined and modified in 2 locations".to_string()]
    );
}

#[test]
fn help_of_long_value() {
    assert_eq!(
        help_of("long"),
        vec![
            "```gn\nlong = ...\n```".to_string(),
            "```text\n\n```".to_string(),
            "Defined at [//x.gni:3:1](file:///ws/x.gni#L3,1)".to_string(),
        ]
    );
}

#[test]
fn help_keeps_inner_comment_lines() {
    assert_eq!(
        help_of("short"),
        vec![
            "```gn\nshort = [ 1 ]\n```".to_string(),
            "```text\nFirst line.\n   Second line.\n```".to_string(),
            "Defined at [//x.gni:12:1](file:///ws/x.gni#L12,1)".to_string(),
        ]
    );
}

#[test]
fn help_outside_the_workspace_shows_the_full_path() {
    let mut storage = DocumentStorage::new();
    storage.load_to_memory(b"/ws/x.gni", FILE, 1);
    let document = storage.read(b"/ws/x.gni").unwrap();
    let env = shallow_environment(&parse(FILE), b"/ws/x.gni", &Vec::new());
    let variables = env.variables();
    let help = format_variable_help(b"short", variables.get(b"short").unwrap(), &document, b"/elsewhere").unwrap();
    assert_eq!(String::from_utf8(help[2].clone()).unwrap(), "Defined at [/ws/x.gni:12:1](file:///ws/x.gni#L12,1)");
}

#[test]
fn help_of_a_changed_file_is_withheld() {
    let mut storage = DocumentStorage::new();
    storage.load_to_memory(b"/ws/x.gni", FILE, 1);
    let env = shallow_environment(&parse(FILE), b"/ws/x.gni", &Vec::new());
    storage.load_to_memory(b"/ws/x.gni", "", 2);
    let document = storage.read(b"/ws/x.gni").unwrap();
    let variables = env.variables();
    assert!(format_variable_help(b"short", variables.get(b"short").unwrap(), &document, b"/ws").is_none());
}

#[test]
fn workspace_context_from_dot_gn_in_memory() {
    let mut storage = DocumentStorage::new();
    storage.load_to_memory(b"/ws/.gn", "buildconfig = \"//build/BUILDCONFIG.gn\"\n", 7);
    let ctx = WorkspaceContext::for_root(b"/ws", &storage).unwrap();
    assert_eq!(ctx.root, b"/ws".to_vec());
    assert_eq!(ctx.build_config, b"/ws/build/BUILDCONFIG.gn".to_vec());
    assert_eq!(ctx.dot_gn_version, DocumentVersion::InMemory { revision: 7 });
}

#[test]
fn hover_sections_are_separated_by_rules() {
    let template = Some(vec![b"t1".to_vec(), b"t2".to_vec()]);
    let variable = Some(vec![b"v".to_vec()]);
    assert_eq!(
        hover_sections(template.clone(), variable.clone(), Some("doc")),
        Some(vec![b"t1".to_vec(), b"t2".to_vec(), b"---".to_vec(), b"v".to_vec(), b"---".to_vec(), b"doc".to_vec()])
    );
    assert_eq!(hover_sections(None, variable, None), Some(vec![b"v".to_vec()]));
    assert_eq!(hover_sections(template, None, Some("doc")), Some(vec![b"t1".to_vec(), b"t2".to_vec(), b"---".to_vec(), b"doc".to_vec()]));
    assert_eq!(hover_sections(None, None, Some("doc")), Some(vec![b"doc".to_vec()]));
    assert_eq!(hover_sections(None, None, None), None);
}
