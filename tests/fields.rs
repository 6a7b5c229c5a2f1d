use tomlfuse::emit::get_doc_comment;
use tomlfuse::{
    extract_comments, parse_document, GenerationError, Pattern, PatternSegment, RootModule,
    RootModuleSource, TomlField, TomlFields, TomlValue, ROOT,
};

fn pattern(segments: &[&str]) -> Pattern {
    Pattern::new(
        segments
            .iter()
            .map(|s| match *s {
                "*" => PatternSegment::Star,
                "**" => PatternSegment::DoubleStar,
                other => PatternSegment::Ident(other.to_string()),
            })
            .collect(),
    )
}

fn set(globs: &[&str]) -> globset::GlobSet {
    let mut builder = globset::GlobSetBuilder::new();
    for g in globs {
        builder.add(globset::Glob::new(g).unwrap());
    }
    builder.build().unwrap()
}

fn build<'a>(doc: &'a TomlValue, text: &str, incl: &[&str], excl: &[&str]) -> TomlFields<'a> {
    let mut literals: Vec<String> = incl.iter().map(|s| s.to_string()).collect();
    literals.extend(excl.iter().map(|s| format!("!{}", s)));
    TomlFields::new()
        .with_root(doc)
        .with_inclusion_globs(Some(set(incl)))
        .with_exclusion_globs(Some(set(excl)))
        .with_pat_literals(literals)
        .with_comments(extract_comments(text))
        .with_aliases(None)
        .build()
}

#[test]
fn test_extract_all_paths() {
    let text = "[package]\nname = \"test-crate\"\nversion = \"0.1.0\"\n\n[dependencies]\nserde = \"1.0\"\n\n[dependencies.tokio]\nversion = \"1.0\"\nfeatures = [\"full\"]\n";
    let doc = parse_document(text).unwrap();
    let fields = build(&doc, text, &["**"], &[]);
    let paths: Vec<&str> = fields.fields.iter().map(|f| f.path.as_str()).collect();
    for p in [
        "",
        "package",
        "package.name",
        "package.version",
        "dependencies",
        "dependencies.serde",
        "dependencies.tokio",
        "dependencies.tokio.version",
        "dependencies.tokio.features",
    ] {
        assert!(paths.contains(&p), "missing {}", p);
    }
    assert_eq!(fields.fields[0].name, ROOT);
    for (i, f) in fields.fields.iter().enumerate().skip(1) {
        assert!(f.parent.unwrap() < i);
    }
}

#[test]
fn exclusion_wins_over_inclusion() {
    let text = "[a]\nx = 1\ny = 2\n";
    let doc = parse_document(text).unwrap();
    let fields = build(&doc, text, &["a.*"], &["a.y"]);
    assert!(fields.get_by_name("x").is_some());
    assert!(fields.get_by_name("y").is_none());
    assert!(fields.get_by_name("a").unwrap().is_table());
}

#[test]
fn relative_path_drops_pattern_segments() {
    let text = "[a.b]\nc = 1\n";
    let doc = parse_document(text).unwrap();
    let fields = build(&doc, text, &["a.b.*"], &[]);
    let c = fields.get_by_name("c").unwrap();
    assert_eq!(c.relative_path.as_deref(), Some("c"));
    assert_eq!(c.effective_module_path(), vec!["c".to_string()]);
    let parent = fields.get_relative_parent_of_field(c).unwrap();
    assert_eq!(parent.name, ROOT);
    let c_idx = fields.index_of(c).unwrap();
    assert_eq!(fields.get_relative_children_of(0).contains(&c_idx), true);
    let b_idx = fields.index_of(fields.get_by_name("b").unwrap()).unwrap();
    assert_eq!(fields.get_toml_children_of(b_idx), vec![c_idx]);
    assert!(fields.get_relative_parent_of(fields.fields.len()).is_none());
}

#[test]
fn comment_lookup_falls_back_to_document_spelling() {
    let text = "[dev-dependencies]\n# the test tool\ntool = \"1\"\n";
    let doc = parse_document(text).unwrap();
    let fields = build(&doc, text, &["**"], &[]);
    let tool = fields.get_by_name("tool").unwrap();
    assert_eq!(tool.path, "dev_dependencies.tool");
    assert_eq!(tool.comment.as_deref(), Some("the test tool"));
    assert_eq!(get_doc_comment(tool).as_deref(), Some("the test tool"));
}

#[test]
fn field_builders_set_one_attribute() {
    let value = TomlValue::Integer(3);
    let f = TomlField::new("n", "a.n", &value, Some(1))
        .with_alias(ROOT)
        .with_comment("")
        .with_toml_path("a.n");
    assert!(f.alias.is_none());
    assert_eq!(f.toml_path.as_deref(), Some("a.n"));
    assert!(get_doc_comment(&f).is_none());
    let f = f.with_alias("m").with_path("m").with_name("m").with_parent(0).with_relative_path("m");
    assert_eq!(f.alias.as_deref(), Some("m"));
    assert_eq!((f.path.as_str(), f.name.as_str(), f.parent), ("m", "m", Some(0)));
    assert!(!f.is_table());
    let root = TomlField::root(&value);
    assert_eq!((root.name.as_str(), root.path.as_str(), root.parent), ("", "", None));
}

#[test]
fn uncompilable_glob_is_reported() {
    let doc = parse_document("a = 1\n").unwrap();
    let source = RootModuleSource {
        name: "r".to_string(),
        inclusion_pats: vec![pattern(&["a["])],
        exclusion_pats: Vec::new(),
        aliases: Vec::new(),
        comments: extract_comments(""),
    };
    match RootModule::new(source, &doc, extract_comments("")) {
        Err(GenerationError::BadGlob(p)) => assert_eq!(p, "a["),
        _ => panic!("expected a bad glob"),
    }
}

#[test]
fn patterns_compare_by_segments() {
    assert!(pattern(&["a", "*"]) == pattern(&["a", "*"]));
    assert!(pattern(&["a", "*"]) != pattern(&["a", "**"]));
    assert!(pattern(&["a"]) != pattern(&["a", "b"]));
    assert_eq!(pattern(&["dev_dependencies", "**"]).to_string(), "dev_dependencies.**");
}

#[test]
fn root_module_selects_with_its_block() {
    let text = "[package]\n# the name\nname = \"x\"\n";
    let doc = parse_document(text).unwrap();
    let source = RootModuleSource {
        name: "pkg".to_string(),
        inclusion_pats: vec![pattern(&["package", "*"])],
        exclusion_pats: Vec::new(),
        aliases: Vec::new(),
        comments: extract_comments(""),
    };
    let module = RootModule::new(source, &doc, extract_comments(text)).ok().unwrap();
    let name = module.fields.get_by_name("name").unwrap();
    assert_eq!(name.comment.as_deref(), Some("the name"));
    assert_eq!(name.relative_path.as_deref(), Some("name"));
}

#[test]
fn document_path_keeps_the_document_spelling() {
    let text = "[dev-dependencies]\n# doc\nmy_crate = \"1\"\n";
    let doc = parse_document(text).unwrap();
    let fields = build(&doc, text, &["**"], &[]);
    let f = fields.get_by_name("my_crate").unwrap();
    assert_eq!(f.path, "dev_dependencies.my_crate");
    assert_eq!(f.toml_path.as_deref(), Some("dev-dependencies.my_crate"));
    assert_eq!(f.comment.as_deref(), Some("doc"));
}

#[test]
fn shortest_residue_counts_bytes() {
    let text = "[ab]\n\"é\" = 1\n";
    let doc = parse_document(text).unwrap();
    let fields = build(&doc, text, &["é.*", "ab.*"], &[]);
    let f = fields.get_by_name("é").unwrap();
    assert_eq!(f.relative_path.as_deref(), Some("ab"));
    let fields = build(&doc, text, &["ab.*", "é.*"], &[]);
    let f = fields.get_by_name("é").unwrap();
    assert_eq!(f.relative_path.as_deref(), Some("é"));
}

#[test]
fn root_module_keeps_its_selection() {
    let text = "[package]\nname = \"x\"\n";
    let doc = parse_document(text).unwrap();
    let source = RootModuleSource {
        name: "pkg".to_string(),
        inclusion_pats: vec![pattern(&["package", "*"])],
        exclusion_pats: vec![pattern(&["package", "z"])],
        aliases: vec![(pattern(&["n"]), pattern(&["package", "name"]))],
        comments: extract_comments(""),
    };
    let module = RootModule::new(source, &doc, extract_comments(text)).ok().unwrap();
    assert_eq!(module.fields.patterns.literals, vec!["package.*".to_string(), "!package.z".to_string()]);
    assert_eq!(module.fields.patterns.inclusions.as_ref().unwrap().len(), 1);
    assert_eq!(module.fields.patterns.exclusions.as_ref().unwrap().len(), 1);
    assert_eq!(module.fields.aliases.as_ref().unwrap().len(), 1);
    assert!(module.fields.get_by_name("n").is_some());
}
