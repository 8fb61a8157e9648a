use project_manager::args::{get_initial_scope_from_args, tokenize_args, ArgToken};
use project_manager::autocapture::auto_capture_workspaces;
use project_manager::desugar::{desugar_mapping, get_base_key};
use project_manager::errors::ErrorKind;
use project_manager::expand::{
    expand_project_config, expand_scope, expand_task_collection, expand_variables,
};
use project_manager::load::process_project_config;
use project_manager::node::{soft_merge_mappings, ConfigNode, Entries};
use project_manager::normalize::{normalize_key, parse_unserialized_sequence};
use project_manager::pathutil::looks_like_path;
use project_manager::resolve::{list_commands, resolve_command};
use project_manager::command::CommandScope;

fn s(x: &str) -> ConfigNode {
    ConfigNode::Str(x.to_string())
}

fn m(entries: Vec<(&str, ConfigNode)>) -> ConfigNode {
    ConfigNode::Mapping(entries.into_iter().map(|(k, v)| (k.to_string(), v)).collect())
}

fn me(entries: Vec<(&str, ConfigNode)>) -> Entries {
    entries.into_iter().map(|(k, v)| (k.to_string(), v)).collect()
}

fn sq(items: Vec<ConfigNode>) -> ConfigNode {
    ConfigNode::Sequence(items)
}

#[test]
fn task_collection_splits_compound_tasks() {
    let out = expand_task_collection("t", s("a && b && c")).unwrap();
    let expected = m(vec![("tasks", sq(vec![s("a"), s("b"), s("c")]))]);
    assert_eq!(out, expected);
}

#[test]
fn task_collection_expansion_is_idempotent() {
    let once = expand_task_collection("t", s("a && b && c")).unwrap();
    let twice = expand_task_collection("t", once.deep_clone()).unwrap();
    assert_eq!(once, twice);
}

#[test]
fn task_collection_trims_pieces() {
    let out = expand_task_collection("t", s("  a  &&  b  ")).unwrap();
    assert_eq!(out, m(vec![("tasks", sq(vec![s("a"), s("b")]))]));
}

#[test]
fn task_collection_rejects_non_string_tasks() {
    let err = expand_task_collection("t", ConfigNode::Int(5)).unwrap_err();
    assert_eq!(err.kind, ErrorKind::TaskFormat);
    let err2 = expand_task_collection("t", m(vec![("tasks", ConfigNode::Bool(true))])).unwrap_err();
    assert_eq!(err2.kind, ErrorKind::TaskFormat);
}

#[test]
fn explicit_value_wins_over_shorthand_and_empty_flag_is_true() {
    let mut tree = me(vec![("test?foo=bar&baz", m(vec![("foo", s("explicit"))]))]);
    desugar_mapping("commands", &mut tree).unwrap();
    let expected = me(vec![(
        "test",
        m(vec![("foo", s("explicit")), ("baz", ConfigNode::Bool(true))]),
    )]);
    assert_eq!(tree, expected);
}

#[test]
fn implicit_scope_key_injects_in_property() {
    let (base, props) = normalize_key("!install").unwrap();
    assert_eq!(base, "install".to_string());
    assert_eq!(props, me(vec![("in", s("install"))]));
}

#[test]
fn implicit_scope_does_not_override_explicit_in() {
    let (base, props) = normalize_key("!install?in=other").unwrap();
    assert_eq!(base, "install".to_string());
    assert_eq!(props, me(vec![("in", s("other"))]));
}

#[test]
fn query_values_parse_as_literals() {
    let (base, props) = normalize_key("k?x=5&b=true&t=text").unwrap();
    assert_eq!(base, "k".to_string());
    assert_eq!(
        props,
        me(vec![
            ("b", ConfigNode::Bool(true)),
            ("t", s("text")),
            ("x", ConfigNode::Int(5)),
        ])
    );
}

#[test]
fn two_query_sections_are_a_syntax_error() {
    let err = normalize_key("a?b?c").unwrap_err();
    assert_eq!(err.kind, ErrorKind::ShorthandSyntax);
}

#[test]
fn unparsable_query_value_is_a_literal_error() {
    let err = normalize_key("a?x=[").unwrap_err();
    assert_eq!(err.kind, ErrorKind::LiteralParse);
}

#[test]
fn shorthand_cannot_merge_into_a_scalar() {
    let mut tree = me(vec![("a?x=1", s("scalar"))]);
    let err = desugar_mapping("commands", &mut tree).unwrap_err();
    assert_eq!(err.kind, ErrorKind::MergeTarget);
}

#[test]
fn base_keys_strip_implicit_prefix_and_query() {
    assert_eq!(get_base_key("!install?in=x", true), "install");
    assert_eq!(get_base_key("!install?in=x", false), "!install");
    assert_eq!(project_manager::normalize::get_base_key("!a?q"), "a");
}

#[test]
fn run_key_becomes_the_default_command() {
    let mut scope = me(vec![("run", s("build"))]);
    expand_scope("commands", ".", &mut scope, true).unwrap();
    let expected = me(vec![(
        "commands",
        m(vec![(".", m(vec![("tasks", sq(vec![s("build")]))]))]),
    )]);
    assert_eq!(scope, expected);
}

#[test]
fn bare_string_keys_become_commands() {
    let mut scope = me(vec![("build", s("make && test"))]);
    expand_scope("commands", ".", &mut scope, true).unwrap();
    let expected = me(vec![(
        "commands",
        m(vec![("build", m(vec![("tasks", sq(vec![s("make"), s("test")]))]))]),
    )]);
    assert_eq!(scope, expected);
}

#[test]
fn shorthand_variables_move_under_variables() {
    let mut scope = me(vec![("$x", ConfigNode::Int(1)), ("build", s("make"))]);
    expand_scope("commands", ".", &mut scope, true).unwrap();
    let expected = me(vec![
        ("variables", m(vec![("x", m(vec![("value", ConfigNode::Int(1))]))])),
        ("commands", m(vec![("build", m(vec![("tasks", sq(vec![s("make")]))]))])),
    ]);
    assert_eq!(scope, expected);
}

#[test]
fn variables_wrap_every_value() {
    let mut vars = me(vec![("$a", ConfigNode::Int(1)), ("b", s("two"))]);
    expand_variables("state.variables", &mut vars).unwrap();
    let expected = me(vec![
        ("b", m(vec![("value", s("two"))])),
        ("a", m(vec![("value", ConfigNode::Int(1))])),
    ]);
    assert_eq!(vars, expected);
}

#[test]
fn reserved_key_left_over_is_an_error() {
    let mut scope = me(vec![("tasks", ConfigNode::Int(3))]);
    let err = expand_scope("commands", ".", &mut scope, true).unwrap_err();
    assert_eq!(err.kind, ErrorKind::ReservedKey);
}

#[test]
fn unknown_scalar_key_is_an_error_only_under_strictness() {
    let mut strict_scope = me(vec![("x", ConfigNode::Int(1))]);
    let err = expand_scope("commands", ".", &mut strict_scope, true).unwrap_err();
    assert_eq!(err.kind, ErrorKind::UnknownKey);
    let mut lax_scope = me(vec![("x", ConfigNode::Int(1))]);
    expand_scope("commands", ".", &mut lax_scope, false).unwrap();
    assert_eq!(lax_scope, me(vec![("x", ConfigNode::Int(1))]));
}

#[test]
fn ws_reference_in_values_are_kept_and_bare_names_deferred() {
    let mut scope = me(vec![("in", s("ws:api"))]);
    expand_scope("commands", ".", &mut scope, true).unwrap();
    assert_eq!(scope, me(vec![("in", s("ws:api"))]));
    let mut scope2 = me(vec![("in", s("api"))]);
    expand_scope("commands", ".", &mut scope2, true).unwrap();
    assert_eq!(scope2, me(vec![("in", s("ws:api"))]));
}

#[test]
fn unknown_root_key_fails_the_load() {
    let mut doc = me(vec![("scripts", m(vec![("x", s("y"))]))]);
    let err = process_project_config(".", &mut doc, &vec![]).unwrap_err();
    assert_eq!(err.kind, ErrorKind::UnknownKey);
    let mut doc2 = me(vec![("scripts", s("x"))]);
    let err2 = expand_project_config(".", &mut doc2).unwrap_err();
    assert_eq!(err2.kind, ErrorKind::UnknownKey);
}

#[test]
fn auto_capture_skips_conflicts_and_adds_the_rest() {
    let mut ws = me(vec![("api", s("/repo/api"))]);
    let subdirs = vec![
        ("api".to_string(), "/elsewhere/api".to_string()),
        ("web".to_string(), "/repo/web".to_string()),
        (".git".to_string(), "/repo/.git".to_string()),
        ("dup".to_string(), "/repo/api".to_string()),
        ("my dir".to_string(), "/repo/my dir".to_string()),
    ];
    auto_capture_workspaces("workspaces", &mut ws, &subdirs).unwrap();
    let expected = me(vec![
        ("api", s("/repo/api")),
        ("web", s("/repo/web")),
        ("my-dir", s("/repo/my dir")),
    ]);
    assert_eq!(ws, expected);
}

#[test]
fn deeper_scope_resets_win_and_variables_survive() {
    let config = me(vec![(
        "commands",
        m(vec![(
            "a",
            m(vec![
                ("variables", m(vec![("x", m(vec![("value", ConfigNode::Int(1))]))])),
                ("in", s("/w")),
                (
                    "b",
                    m(vec![
                        ("-in", ConfigNode::Bool(true)),
                        ("commands", m(vec![("b", m(vec![("tasks", sq(vec![s("t")]))]))])),
                    ]),
                ),
            ]),
        )]),
    )]);
    let scope = resolve_command("a:b", CommandScope::new(), &config).unwrap();
    assert_eq!(scope.variables, me(vec![("x", ConfigNode::Int(1))]));
    assert_eq!(scope.working_dir, None);
    assert_eq!(scope.command.tasks, vec!["t".to_string()]);
}

#[test]
fn default_command_wins_over_same_named_sibling() {
    let config = me(vec![(
        "commands",
        m(vec![(
            "a",
            m(vec![(
                "commands",
                m(vec![
                    (".", m(vec![("tasks", sq(vec![s("dot")]))])),
                    ("a", m(vec![("tasks", sq(vec![s("sibling")]))])),
                ]),
            )]),
        )]),
    )]);
    let scope = resolve_command("a", CommandScope::new(), &config).unwrap();
    assert_eq!(scope.command.tasks, vec!["dot".to_string()]);
}

#[test]
fn missing_middle_segment_fails_with_scope_not_found() {
    let config = me(vec![("commands", m(vec![]))]);
    let err = resolve_command("miss:leaf", CommandScope::new(), &config).unwrap_err();
    assert_eq!(err.kind, ErrorKind::ScopeNotFound);
}

#[test]
fn missing_target_fails_with_command_not_found() {
    let config = me(vec![("commands", m(vec![]))]);
    let err = resolve_command("nope", CommandScope::new(), &config).unwrap_err();
    assert_eq!(err.kind, ErrorKind::CommandNotFound);
}

#[test]
fn config_without_commands_cannot_run() {
    let config = me(vec![("state", m(vec![]))]);
    let err = resolve_command("x", CommandScope::new(), &config).unwrap_err();
    assert_eq!(err.kind, ErrorKind::NoCommands);
}

#[test]
fn whole_pipeline_canonicalizes_and_resolves() {
    let mut doc = me(vec![("commands", m(vec![("build", s("make && test"))]))]);
    process_project_config(".", &mut doc, &vec![]).unwrap();
    let scope = resolve_command("build", CommandScope::new(), &doc).unwrap();
    assert_eq!(scope.command.tasks, vec!["make".to_string(), "test".to_string()]);
}

#[test]
fn desugaring_twice_changes_nothing_more() {
    let mut tree = me(vec![
        ("test?foo=bar&baz", m(vec![("foo", s("explicit"))])),
        ("plain", m(vec![("inner?x=1", m(vec![]))])),
    ]);
    desugar_mapping("commands", &mut tree).unwrap();
    let once: Entries = tree.iter().map(|(k, v)| (k.clone(), v.deep_clone())).collect();
    desugar_mapping("commands", &mut tree).unwrap();
    assert_eq!(tree, once);
}

#[test]
fn list_commands_enumerates_dotted_paths() {
    let config = me(vec![(
        "commands",
        m(vec![
            ("commands", m(vec![("build", m(vec![("tasks", sq(vec![s("x")]))]))])),
            (
                "web",
                m(vec![(
                    "commands",
                    m(vec![
                        (".", m(vec![("tasks", sq(vec![s("y")]))])),
                        ("deploy", m(vec![("tasks", sq(vec![s("z")]))])),
                    ]),
                )]),
            ),
        ]),
    )]);
    let mut listed = list_commands(&config);
    listed.sort_unstable();
    assert_eq!(
        listed,
        vec!["build".to_string(), "web".to_string(), "web::deploy".to_string()]
    );
}

#[test]
fn tokenizer_handles_flags_params_and_terminator() {
    let args: Vec<String> = vec!["prog", "run", "--verbose", "-o=a=b", "--name", "x", "--", "-raw"]
        .into_iter()
        .map(|x| x.to_string())
        .collect();
    let tokens = tokenize_args(&args).unwrap();
    assert_eq!(
        tokens,
        vec![
            ArgToken::Constant("run".to_string()),
            ArgToken::Flag("verbose".to_string()),
            ArgToken::Param("o".to_string(), "ab".to_string()),
            ArgToken::Param("name".to_string(), "x".to_string()),
            ArgToken::Terminator,
            ArgToken::Constant("-raw".to_string()),
        ]
    );
}

#[test]
fn leading_flags_seed_the_initial_scope() {
    let tokens = vec![
        ArgToken::Flag("verbose".to_string()),
        ArgToken::Param("name".to_string(), "x".to_string()),
        ArgToken::Constant("run".to_string()),
        ArgToken::Flag("late".to_string()),
    ];
    let scope = get_initial_scope_from_args(&tokens).unwrap();
    assert_eq!(
        scope.variables,
        me(vec![])
    );
    assert_eq!(scope.working_dir, None);
}

#[test]
fn path_heuristic_needs_a_separator() {
    assert!(looks_like_path("/abs"));
    assert!(looks_like_path("./rel"));
    assert!(looks_like_path("a/b"));
    assert!(looks_like_path("C:\\x"));
    assert!(!looks_like_path("name"));
    assert!(!looks_like_path("name-2"));
}

#[test]
fn soft_merge_adds_only_missing_keys() {
    let mut base = me(vec![("a", s("keep")), ("m", m(vec![("x", ConfigNode::Int(1))]))]);
    let merger = me(vec![
        ("a", s("lose")),
        ("b", s("new")),
        ("m", m(vec![("x", ConfigNode::Int(9)), ("y", ConfigNode::Int(2))])),
    ]);
    soft_merge_mappings(&mut base, &merger);
    let expected = me(vec![
        ("a", s("keep")),
        ("m", m(vec![("x", ConfigNode::Int(1)), ("y", ConfigNode::Int(2))])),
        ("b", s("new")),
    ]);
    assert_eq!(base, expected);
}

#[test]
fn all_string_sequences_reparse_as_literals() {
    let mut items = vec![s("6"), s("7.5"), s("true")];
    parse_unserialized_sequence(&mut items).unwrap();
    assert_eq!(items[0], ConfigNode::Int(6));
    assert_eq!(items[2], ConfigNode::Bool(true));
    let mut mixed = vec![s("6"), ConfigNode::Int(7)];
    parse_unserialized_sequence(&mut mixed).unwrap();
    assert_eq!(mixed, vec![s("6"), ConfigNode::Int(7)]);
}

#[test]
fn state_section_allows_only_variables() {
    let mut doc = me(vec![("state", m(vec![("other", m(vec![]))]))]);
    let err = expand_project_config(".", &mut doc).unwrap_err();
    assert_eq!(err.kind, ErrorKind::UnknownKey);
    let mut doc2 = me(vec![("state", m(vec![("variables", m(vec![("a", ConfigNode::Int(1))]))]))]);
    expand_project_config(".", &mut doc2).unwrap();
    let expected = me(vec![(
        "state",
        m(vec![("variables", m(vec![("a", m(vec![("value", ConfigNode::Int(1))]))]))]),
    )]);
    assert_eq!(doc2, expected);
}

#[test]
fn workspace_values_canonicalize_to_absolute_directories() {
    let mut ws = me(vec![("here", s("/"))]);
    project_manager::expand::expand_workspaces("workspaces", ".", &mut ws).unwrap();
    match &ws[0].1 {
        ConfigNode::Str(p) => {
            assert!(looks_like_path(p));
        }
        other => panic!("expected a path string, got {other:?}"),
    }
}

#[test]
fn missing_workspace_directory_is_a_path_error() {
    let mut ws = me(vec![("w", s("/definitely/not/present/anywhere-zz"))]);
    let err = project_manager::expand::expand_workspaces("workspaces", ".", &mut ws).unwrap_err();
    assert_eq!(err.kind, ErrorKind::PathNotFound);
}

#[test]
fn workspace_file_path_is_not_a_directory() {
    let mut ws = me(vec![("w", s("/proc/version"))]);
    let err = project_manager::expand::expand_workspaces("workspaces", ".", &mut ws).unwrap_err();
    assert_eq!(err.kind, ErrorKind::NotADirectory);
}

#[test]
fn bare_workspace_name_cannot_resolve() {
    let mut ws = me(vec![("w", s("bare-name"))]);
    let err = project_manager::expand::expand_workspaces("workspaces", ".", &mut ws).unwrap_err();
    assert_eq!(err.kind, ErrorKind::WorkspaceNotFound);
}

#[test]
fn non_mapping_variables_section_is_an_error() {
    let mut doc = me(vec![("state", m(vec![("variables", ConfigNode::Int(5))]))]);
    let err = expand_project_config(".", &mut doc).unwrap_err();
    assert_eq!(err.kind, ErrorKind::InvalidStructure);
}

#[test]
fn non_string_workspace_value_is_an_error() {
    let mut ws = me(vec![("w", ConfigNode::Int(1))]);
    let err = project_manager::expand::expand_workspaces("workspaces", ".", &mut ws).unwrap_err();
    assert_eq!(err.kind, ErrorKind::InvalidStructure);
}
