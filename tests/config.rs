use askama_parser::{CompileError, Config, General, RawConfig, RawEscaper, RawSyntax, Syntax, WhitespaceHandling};

const ROOT: &str = "/project";

fn syntax_record(name: &str) -> RawSyntax {
    RawSyntax {
        name: name.to_string(),
        block_start: None,
        block_end: None,
        expr_start: None,
        expr_end: None,
        comment_start: None,
        comment_end: None,
    }
}

fn general(default_syntax: Option<&str>, whitespace: WhitespaceHandling) -> General {
    General { dirs: None, default_syntax: default_syntax.map(|s| s.to_string()), whitespace }
}

fn with_syntaxes(default_syntax: Option<&str>, list: Vec<RawSyntax>) -> RawConfig {
    RawConfig {
        general: default_syntax.map(|d| general(Some(d), WhitespaceHandling::Preserve)),
        syntax: Some(list),
        escaper: None,
    }
}

fn set(v: &[&str]) -> Vec<String> {
    v.iter().map(|s| s.to_string()).collect()
}

// The template tree the locator tests run against.
fn on_disk(p: &str) -> bool {
    matches!(
        p,
        "/project/templates/a.html"
            | "/project/templates/b.html"
            | "/project/templates/sub/b.html"
            | "/project/templates/sub/c.html"
            | "/project/templates/sub/sub1/d.html"
    )
}

fn find(config: &Config, path: &str, start_at: Option<&str>) -> Result<String, CompileError> {
    let found: Vec<bool> = config.template_candidates(path, start_at).iter().map(|c| on_disk(c)).collect();
    config.find_template(path, start_at, &found)
}

fn assert_eq_rooted(actual: &str, expected: &str) {
    assert_eq!(actual.strip_prefix("/project/templates/").unwrap(), expected);
}

#[test]
fn test_default_config() {
    let config = Config::from_raw(ROOT, &RawConfig::empty()).unwrap();
    assert_eq!(config.dirs(), &vec!["/project/templates".to_string()]);
}

#[test]
fn test_config_dirs() {
    let raw = RawConfig {
        general: Some(General { dirs: Some(set(&["tpl"])), default_syntax: None, whitespace: WhitespaceHandling::Preserve }),
        syntax: None,
        escaper: None,
    };
    let config = Config::from_raw(ROOT, &raw).unwrap();
    assert_eq!(config.dirs(), &vec!["/project/tpl".to_string()]);
}

#[test]
fn find_absolute() {
    let config = Config::from_raw(ROOT, &RawConfig::empty()).unwrap();
    let root = find(&config, "a.html", None).unwrap();
    let path = find(&config, "sub/b.html", Some(root.as_str())).unwrap();
    assert_eq_rooted(&path, "sub/b.html");
}

#[test]
#[should_panic]
fn find_relative_nonexistent() {
    let config = Config::from_raw(ROOT, &RawConfig::empty()).unwrap();
    let root = find(&config, "a.html", None).unwrap();
    find(&config, "c.html", Some(root.as_str())).unwrap();
}

#[test]
fn find_relative() {
    let config = Config::from_raw(ROOT, &RawConfig::empty()).unwrap();
    let root = find(&config, "sub/b.html", None).unwrap();
    let path = find(&config, "c.html", Some(root.as_str())).unwrap();
    assert_eq_rooted(&path, "sub/c.html");
}

#[test]
fn find_relative_sub() {
    let config = Config::from_raw(ROOT, &RawConfig::empty()).unwrap();
    let root = find(&config, "sub/b.html", None).unwrap();
    let path = find(&config, "sub1/d.html", Some(root.as_str())).unwrap();
    assert_eq_rooted(&path, "sub/sub1/d.html");
}

#[test]
fn sibling_wins_over_search_root() {
    let config = Config::from_raw("/r", &RawConfig {
        general: Some(General { dirs: Some(set(&["root"])), default_syntax: None, whitespace: WhitespaceHandling::Preserve }),
        syntax: None,
        escaper: None,
    })
    .unwrap();
    let candidates = config.template_candidates("c.html", Some("a/b.html"));
    assert_eq!(candidates, vec!["a/c.html".to_string(), "/r/root/c.html".to_string()]);
    let found = vec![true, true];
    assert_eq!(config.find_template("c.html", Some("a/b.html"), &found).unwrap(), "a/c.html");
    let found = vec![false, true];
    assert_eq!(config.find_template("c.html", Some("a/b.html"), &found).unwrap(), "/r/root/c.html");
}

#[test]
fn template_not_found_names_directories() {
    let config = Config::from_raw(ROOT, &RawConfig::empty()).unwrap();
    let err = config.find_template("x.html", None, &vec![false]).unwrap_err();
    assert_eq!(
        err,
        CompileError::TemplateNotFound { path: "x.html".to_string(), dirs: vec!["/project/templates".to_string()] }
    );
}

fn check_foo_bar(config: &Config) {
    let default_syntax = Syntax::default();
    assert_eq!(config.default_syntax(), "foo");

    let foo = config.syntax("foo").unwrap();
    assert_eq!(foo.block_start, "{<");
    assert_eq!(foo.block_end, default_syntax.block_end);
    assert_eq!(foo.expr_start, default_syntax.expr_start);
    assert_eq!(foo.expr_end, default_syntax.expr_end);
    assert_eq!(foo.comment_start, default_syntax.comment_start);
    assert_eq!(foo.comment_end, default_syntax.comment_end);

    let bar = config.syntax("bar").unwrap();
    assert_eq!(bar.block_start, default_syntax.block_start);
    assert_eq!(bar.block_end, default_syntax.block_end);
    assert_eq!(bar.expr_start, "{!");
    assert_eq!(bar.expr_end, default_syntax.expr_end);
    assert_eq!(bar.comment_start, default_syntax.comment_start);
    assert_eq!(bar.comment_end, default_syntax.comment_end);
}

#[test]
fn add_syntax() {
    let mut foo = syntax_record("foo");
    foo.block_start = Some("{<".to_string());
    let mut bar = syntax_record("bar");
    bar.expr_start = Some("{!".to_string());
    let config = Config::from_raw(ROOT, &with_syntaxes(Some("foo"), vec![foo, bar])).unwrap();
    check_foo_bar(&config);
}

#[test]
fn add_syntax_two() {
    let mut foo = syntax_record("foo");
    foo.block_start = Some("{<".to_string());
    let mut bar = syntax_record("bar");
    bar.expr_start = Some("{!".to_string());
    let raw = RawConfig {
        general: Some(general(Some("foo"), WhitespaceHandling::Preserve)),
        syntax: Some(vec![foo, bar]),
        escaper: None,
    };
    let config = Config::from_raw(ROOT, &raw).unwrap();
    check_foo_bar(&config);
}

#[test]
#[should_panic]
fn use_default_at_syntax_name() {
    let raw = with_syntaxes(None, vec![syntax_record("default")]);
    let _config = Config::from_raw(ROOT, &raw).unwrap();
}

#[test]
#[should_panic]
fn duplicated_syntax_name_on_list() {
    let mut a = syntax_record("foo");
    a.block_start = Some("~<".to_string());
    let mut b = syntax_record("foo");
    b.block_start = Some("%%".to_string());
    let _config = Config::from_raw(ROOT, &with_syntaxes(None, vec![a, b])).unwrap();
}

#[test]
#[should_panic]
fn is_not_exist_default_syntax() {
    let raw = RawConfig { general: Some(general(Some("foo"), WhitespaceHandling::Preserve)), syntax: None, escaper: None };
    let _config = Config::from_raw(ROOT, &raw).unwrap();
}

#[test]
fn default_syntax_not_found_error() {
    let raw = RawConfig { general: Some(general(Some("foo"), WhitespaceHandling::Preserve)), syntax: None, escaper: None };
    assert_eq!(Config::from_raw(ROOT, &raw).unwrap_err(), CompileError::DefaultSyntaxNotFound("foo".to_string()));
}

#[test]
fn syntax_errors_name_the_syntax() {
    assert_eq!(
        Config::from_raw(ROOT, &with_syntaxes(None, vec![syntax_record("default")])).unwrap_err(),
        CompileError::DuplicateSyntax("default".to_string())
    );
    let mut short = syntax_record("short");
    short.block_end = Some("%".to_string());
    assert_eq!(
        Config::from_raw(ROOT, &with_syntaxes(None, vec![short])).unwrap_err(),
        CompileError::DelimiterLength("short".to_string())
    );
    let mut bad = syntax_record("bad");
    bad.block_start = Some("<%".to_string());
    assert_eq!(
        Config::from_raw(ROOT, &with_syntaxes(None, vec![bad])).unwrap_err(),
        CompileError::BadDelimiters("bad".to_string())
    );
    let mut shared_second = syntax_record("ok");
    shared_second.block_start = Some("<{".to_string());
    shared_second.expr_start = Some("({".to_string());
    shared_second.comment_start = Some("#{".to_string());
    assert!(Config::from_raw(ROOT, &with_syntaxes(None, vec![shared_second])).is_ok());
}

#[test]
fn escape_modes() {
    let raw = RawConfig {
        general: None,
        syntax: None,
        escaper: Some(vec![RawEscaper { path: "::askama::Js".to_string(), extensions: set(&["js"]) }]),
    };
    let config = Config::from_raw(ROOT, &raw).unwrap();
    assert_eq!(
        config.escapers(),
        &vec![
            (set(&["js"]), "::askama::Js".to_string()),
            (set(&["html", "htm", "xml"]), "::askama::Html".to_string()),
            (set(&["md", "none", "txt", "yml", ""]), "::askama::Text".to_string()),
            (set(&["j2", "jinja", "jinja2"]), "::askama::Html".to_string()),
        ]
    );
    assert_eq!(config.find_escaper("js").as_deref(), Some("::askama::Js"));
}

#[test]
fn builtin_escaper_resolution() {
    let config = Config::from_raw(ROOT, &RawConfig::empty()).unwrap();
    assert_eq!(config.find_escaper("html").as_deref(), Some("::askama::Html"));
    assert_eq!(config.find_escaper("csv"), None);
    assert_eq!(config.find_escaper("md").as_deref(), Some("::askama::Text"));
    assert_eq!(config.find_escaper("").as_deref(), Some("::askama::Text"));
    assert_eq!(config.find_escaper("jinja2").as_deref(), Some("::askama::Html"));
}

#[test]
fn user_escaper_comes_first() {
    let raw = RawConfig {
        general: None,
        syntax: None,
        escaper: Some(vec![RawEscaper { path: "::my::Esc".to_string(), extensions: set(&["html"]) }]),
    };
    let config = Config::from_raw(ROOT, &raw).unwrap();
    assert_eq!(config.find_escaper("html").as_deref(), Some("::my::Esc"));
}

#[test]
fn test_whitespace_parsing() {
    let with = |w| RawConfig { general: Some(general(None, w)), syntax: None, escaper: None };
    let config = Config::from_raw(ROOT, &with(WhitespaceHandling::Suppress)).unwrap();
    assert_eq!(config.whitespace(), WhitespaceHandling::Suppress);

    let config = Config::from_raw(ROOT, &RawConfig::empty()).unwrap();
    assert_eq!(config.whitespace(), WhitespaceHandling::Preserve);

    let config = Config::from_raw(ROOT, &with(WhitespaceHandling::Preserve)).unwrap();
    assert_eq!(config.whitespace(), WhitespaceHandling::Preserve);

    let config = Config::from_raw(ROOT, &with(WhitespaceHandling::Minimize)).unwrap();
    assert_eq!(config.whitespace(), WhitespaceHandling::Minimize);
}

#[test]
fn default_syntax_is_builtin() {
    let config = Config::from_raw(ROOT, &RawConfig::empty()).unwrap();
    assert_eq!(config.default_syntax(), "default");
    let s = config.syntax("default").unwrap();
    assert_eq!(s.block_start, "{%");
    assert_eq!(s.comment_end, "#}");
    assert!(config.syntax("nope").is_none());
}

#[test]
fn absolute_dirs_stand_alone() {
    let raw = RawConfig {
        general: Some(General { dirs: Some(set(&["/abs", "rel/"])), default_syntax: None, whitespace: WhitespaceHandling::Preserve }),
        syntax: None,
        escaper: None,
    };
    let config = Config::from_raw("/project/", &raw).unwrap();
    assert_eq!(config.dirs(), &vec!["/abs".to_string(), "/project/rel/".to_string()]);
    assert_eq!(config.template_candidates("x.html", None), vec!["/abs/x.html".to_string(), "/project/rel/x.html".to_string()]);
}
