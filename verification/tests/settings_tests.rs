use rustfilefinder::settings::{
    apply_cfg, merge_search_args, query_from_args, AppConfig, Preset, SearchArgs, SearchConfig,
};

fn defaults() -> SearchArgs {
    SearchArgs {
        preset: None,
        dir: ".".to_string(),
        include_pdf: false,
        name: None,
        content: None,
        format: "md".to_string(),
        max_bytes: 2_000_000,
        ext: None,
        limit: None,
        verbose: false,
    }
}

fn empty() -> SearchConfig {
    SearchConfig {
        dir: None,
        include_pdf: None,
        name: None,
        content: None,
        format: None,
        max_bytes: None,
        ext: None,
        limit: None,
    }
}

fn full() -> SearchConfig {
    SearchConfig {
        dir: Some("samples".to_string()),
        include_pdf: Some(true),
        name: Some("report".to_string()),
        content: Some("(?i)rust".to_string()),
        format: Some("json".to_string()),
        max_bytes: Some(500),
        ext: Some("txt,md".to_string()),
        limit: Some(7),
    }
}

#[test]
fn apply_cfg_fills_in_what_was_left_at_its_default() {
    let mut args = defaults();
    apply_cfg(&mut args, &full());
    assert_eq!(
        args,
        SearchArgs {
            preset: None,
            dir: "samples".to_string(),
            include_pdf: true,
            name: Some("report".to_string()),
            content: Some("(?i)rust".to_string()),
            format: "json".to_string(),
            max_bytes: 500,
            ext: Some("txt,md".to_string()),
            limit: Some(7),
            verbose: false,
        }
    );
}

#[test]
fn apply_cfg_leaves_what_was_given() {
    let given = SearchArgs {
        preset: Some("p".to_string()),
        dir: "here".to_string(),
        include_pdf: true,
        name: Some("n".to_string()),
        content: Some("c".to_string()),
        format: "json".to_string(),
        max_bytes: 9,
        ext: Some("rs".to_string()),
        limit: Some(1),
        verbose: true,
    };
    let mut args = given.clone();
    let mut cfg = full();
    cfg.include_pdf = Some(false);
    cfg.format = Some("md".to_string());
    apply_cfg(&mut args, &cfg);
    assert_eq!(args, given);
}

#[test]
fn apply_cfg_with_an_empty_configuration_changes_nothing() {
    let mut args = defaults();
    apply_cfg(&mut args, &empty());
    assert_eq!(args, defaults());
}

#[test]
fn apply_cfg_decides_setting_by_setting() {
    let mut args = defaults();
    args.name = Some("mine".to_string());
    args.max_bytes = 42;
    let mut cfg = empty();
    cfg.name = Some("theirs".to_string());
    cfg.max_bytes = Some(500);
    cfg.limit = Some(3);
    cfg.include_pdf = Some(false);
    apply_cfg(&mut args, &cfg);
    assert_eq!(args.name, Some("mine".to_string()));
    assert_eq!(args.max_bytes, 42);
    assert_eq!(args.limit, Some(3));
    assert!(!args.include_pdf);
    assert_eq!(args.dir, ".");
    assert_eq!(args.format, "md");
}

#[test]
fn merge_without_configuration_keeps_the_settings() {
    let mut args = defaults();
    args.preset = Some("demo".to_string());
    assert_eq!(merge_search_args(args.clone(), None), args);
}

#[test]
fn merge_applies_defaults_before_the_preset() {
    let mut d = empty();
    d.format = Some("json".to_string());
    d.max_bytes = Some(1000);
    d.dir = Some("from-defaults".to_string());
    let mut p = empty();
    p.dir = Some("from-preset".to_string());
    p.ext = Some("pdf".to_string());
    p.max_bytes = Some(9);
    let cfg = AppConfig {
        defaults: Some(d),
        presets: Some(vec![Preset { name: "demo".to_string(), settings: p }]),
    };
    let mut args = defaults();
    args.preset = Some("demo".to_string());
    let merged = merge_search_args(args, Some(cfg));
    assert_eq!(merged.format, "json");
    assert_eq!(merged.max_bytes, 1000);
    assert_eq!(merged.dir, "from-defaults");
    assert_eq!(merged.ext, Some("pdf".to_string()));
    assert_eq!(merged.preset, Some("demo".to_string()));
}

#[test]
fn merge_finds_the_preset_by_name() {
    let mut one = empty();
    one.ext = Some("txt".to_string());
    let mut two = empty();
    two.ext = Some("pdf".to_string());
    let cfg = AppConfig {
        defaults: None,
        presets: Some(vec![
            Preset { name: "demo_text".to_string(), settings: one },
            Preset { name: "demo_pdf".to_string(), settings: two },
        ]),
    };
    let mut args = defaults();
    args.preset = Some("demo_pdf".to_string());
    assert_eq!(merge_search_args(args, Some(cfg.clone())).ext, Some("pdf".to_string()));
    let mut args = defaults();
    args.preset = Some("demo_text".to_string());
    assert_eq!(merge_search_args(args, Some(cfg.clone())).ext, Some("txt".to_string()));
    let mut args = defaults();
    args.preset = Some("absent".to_string());
    assert_eq!(merge_search_args(args.clone(), Some(cfg.clone())), args);
    assert_eq!(merge_search_args(defaults(), Some(cfg)), defaults());
}

#[test]
fn merge_without_presets_applies_the_defaults_only() {
    let cfg = AppConfig { defaults: Some(full()), presets: None };
    let mut args = defaults();
    args.preset = Some("demo".to_string());
    let merged = merge_search_args(args, Some(cfg));
    assert_eq!(merged.dir, "samples");
    assert_eq!(merged.limit, Some(7));
    let cfg = AppConfig { defaults: None, presets: None };
    assert_eq!(merge_search_args(defaults(), Some(cfg)), defaults());
}

#[test]
fn query_from_args_compiles_and_normalizes() {
    let mut args = defaults();
    args.name = Some("Report".to_string());
    args.content = Some("hel+o".to_string());
    args.ext = Some(" TXT,md ".to_string());
    args.limit = Some(5);
    args.verbose = true;
    let q = match query_from_args(&args) {
        Ok(q) => q,
        Err(e) => panic!("{}", e.message),
    };
    assert_eq!(q.dir, ".");
    assert_eq!(q.name, Some("Report".to_string()));
    assert_eq!(q.content.as_ref().map(|p| p.as_str().to_string()), Some("hel+o".to_string()));
    assert!(!q.include_pdf);
    assert_eq!(q.max_bytes, 2_000_000);
    assert_eq!(q.allowed_ext, Some(vec!["txt".to_string(), "md".to_string()]));
    assert_eq!(q.limit, Some(5));
    assert!(q.verbose);
}

#[test]
fn query_from_args_refuses_an_invalid_pattern() {
    let mut args = defaults();
    args.content = Some("(unclosed".to_string());
    match query_from_args(&args) {
        Ok(_) => panic!("an unclosed group compiled"),
        Err(e) => assert!(!e.message.is_empty()),
    }
    assert!(query_from_args(&defaults()).is_ok());
}

#[test]
fn of_presets_with_one_name_the_first_counts() {
    let mut one = empty();
    one.ext = Some("txt".to_string());
    let mut two = empty();
    two.ext = Some("pdf".to_string());
    two.limit = Some(4);
    let cfg = AppConfig {
        defaults: None,
        presets: Some(vec![
            Preset { name: "demo".to_string(), settings: one },
            Preset { name: "demo".to_string(), settings: two },
        ]),
    };
    let mut args = defaults();
    args.preset = Some("demo".to_string());
    let merged = merge_search_args(args, Some(cfg));
    assert_eq!(merged.ext, Some("txt".to_string()));
    assert_eq!(merged.limit, None);
}

#[test]
fn the_order_of_presets_with_different_names_does_not_matter() {
    let mut one = empty();
    one.ext = Some("txt".to_string());
    let mut two = empty();
    two.ext = Some("pdf".to_string());
    let a = Preset { name: "text".to_string(), settings: one };
    let b = Preset { name: "pdf".to_string(), settings: two };
    let forward = AppConfig { defaults: None, presets: Some(vec![a.clone(), b.clone()]) };
    let backward = AppConfig { defaults: None, presets: Some(vec![b, a]) };
    for name in ["text", "pdf", "other"] {
        let mut args = defaults();
        args.preset = Some(name.to_string());
        assert_eq!(
            merge_search_args(args.clone(), Some(forward.clone())),
            merge_search_args(args, Some(backward.clone()))
        );
    }
}

#[test]
fn query_from_args_is_refused_exactly_where_the_pattern_does_not_compile() {
    for (pattern, compiles) in [("a+", true), ("a(", false), ("*", false), ("x|y", true)] {
        let mut args = defaults();
        args.content = Some(pattern.to_string());
        assert_eq!(query_from_args(&args).is_ok(), compiles, "for {pattern:?}");
    }
}
