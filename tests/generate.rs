use proc_macro2::{Delimiter as Delim, TokenStream, TokenTree};
use tomlfuse::{
    convert_value_to_tokens, declares_workspace, expand_document, parse_document, Delimiter,
    GenerationError, Item, Literal, MacroInput, SyntaxErrorKind, Token, TomlValue, TypeDesc,
};

fn convert(ts: TokenStream) -> Vec<Token> {
    ts.into_iter()
        .map(|tt| match tt {
            TokenTree::Ident(i) => Token::Ident(i.to_string()),
            TokenTree::Punct(p) => Token::Punct(p.as_char()),
            TokenTree::Literal(l) => Token::Literal(l.to_string()),
            TokenTree::Group(g) => {
                let d = match g.delimiter() {
                    Delim::Parenthesis => Delimiter::Parenthesis,
                    Delim::Brace => Delimiter::Brace,
                    Delim::Bracket => Delimiter::Bracket,
                    Delim::None => Delimiter::Invisible,
                };
                Token::Group(d, convert(g.stream()))
            },
        })
        .collect()
}

fn tokens(src: &str) -> Vec<Token> {
    convert(src.parse::<TokenStream>().unwrap())
}

fn generate(selection: &str, document: &str) -> Vec<Item> {
    let input = MacroInput::parse(&tokens(selection)).unwrap();
    expand_document(&input, document).unwrap()
}

fn module<'a>(items: &'a [Item], name: &str) -> Option<&'a Vec<Item>> {
    items.iter().find_map(|i| match i {
        Item::Module { name: n, items, .. } if n == name => Some(items),
        _ => None,
    })
}

fn constant<'a>(items: &'a [Item], name: &str) -> Option<(&'a TypeDesc, &'a Literal, &'a Option<String>)> {
    items.iter().find_map(|i| match i {
        Item::Const { name: n, ty, value, doc } if n == name => Some((ty, value, doc)),
        _ => None,
    })
}

fn str_lit(l: &Literal) -> &str {
    match l {
        Literal::Str(s) => s,
        other => panic!("not a string: {:?}", other),
    }
}

#[test]
fn inline_and_preceding_comment_document_a_constant() {
    let doc = "# header\n[package]\n# version doc\nversion = \"0.1.0\" # inline\n";
    let items = generate("[package] package.*", doc);
    let package = module(&items, "package").unwrap();
    let (ty, value, doc) = constant(package, "VERSION").unwrap();
    assert_eq!(*ty, TypeDesc::Str);
    assert_eq!(str_lit(value), "0.1.0");
    assert_eq!(doc.as_deref(), Some("version doc\ninline"));
}

#[test]
fn blank_line_resets_documentation() {
    let items = generate("[root] *", "# first\n\n# second\nkey = true\n");
    let root = module(&items, "root").unwrap();
    let (ty, value, doc) = constant(root, "KEY").unwrap();
    assert_eq!(*ty, TypeDesc::Bool);
    assert!(matches!(value, Literal::Bool(true)));
    assert_eq!(doc.as_deref(), Some("second"));
}

#[test]
fn multiline_string_hides_comments() {
    let doc = "value = \"\"\"\n# not a comment\n\"\"\"\n# real\nother = 1\n";
    let items = generate("[root] *", doc);
    let root = module(&items, "root").unwrap();
    let (ty, value, doc) = constant(root, "OTHER").unwrap();
    assert_eq!(*ty, TypeDesc::I64);
    assert!(matches!(value, Literal::Int(1)));
    assert_eq!(doc.as_deref(), Some("real"));
    let (_, _, value_doc) = constant(root, "VALUE").unwrap();
    assert!(value_doc.is_none());
}

#[test]
fn alias_renames_a_leaf() {
    let items = generate(
        "[deps] dependencies.* alias syn_dep = dependencies.syn",
        "[dependencies]\nsyn = \"2.0\"\n",
    );
    let deps = module(&items, "deps").unwrap();
    let (_, value, _) = constant(deps, "SYN_DEP").unwrap();
    assert_eq!(str_lit(value), "2.0");
    assert!(constant(deps, "SYN").is_none());
}

#[test]
fn negation_excludes_a_branch() {
    let items = generate(
        "[pkg] package.* !package.metadata.*",
        "[package]\nname=\"x\"\n[package.metadata]\nfoo=\"y\"\n",
    );
    let pkg = module(&items, "pkg").unwrap();
    let (_, value, _) = constant(pkg, "NAME").unwrap();
    assert_eq!(str_lit(value), "x");
    assert!(module(pkg, "metadata").is_none());
    assert!(constant(pkg, "FOO").is_none());
}

#[test]
fn header_scope_flattens_deep_paths() {
    let items = generate("[x] a.b.c.*", "[a.b.c]\nkey = 1\n");
    let x = module(&items, "x").unwrap();
    let (_, value, _) = constant(x, "KEY").unwrap();
    assert!(matches!(value, Literal::Int(1)));
    assert!(module(x, "a").is_none());
}

#[test]
fn no_inclusions_keeps_every_leaf() {
    let items = generate("[all] !b", "a = 1\nb = 2\n");
    let all = module(&items, "all").unwrap();
    assert!(constant(all, "A").is_some());
    assert!(constant(all, "B").is_none());
}

#[test]
fn aliased_leaf_kept_outside_the_selection() {
    let items = generate("[r] other.* alias short = deep.value", "[deep]\nvalue = 7\nother = 8\n");
    let r = module(&items, "r").unwrap();
    let (_, value, _) = constant(r, "SHORT").unwrap();
    assert!(matches!(value, Literal::Int(7)));
    assert!(constant(r, "OTHER").is_none());
}

#[test]
fn nested_tables_become_namespaces() {
    let doc = "[dependencies.tokio]\n# tokio version\nversion = \"1.0\"\nfeatures = [\"full\"]\n";
    let items = generate("[deps] dependencies.**", doc);
    let deps = module(&items, "deps").unwrap();
    let tokio = module(deps, "tokio").unwrap();
    let (ty, value, doc) = constant(tokio, "VERSION").unwrap();
    assert_eq!(*ty, TypeDesc::Str);
    assert_eq!(str_lit(value), "1.0");
    assert_eq!(doc.as_deref(), Some("tokio version"));
    let (ty, value, _) = constant(tokio, "FEATURES").unwrap();
    assert_eq!(*ty, TypeDesc::Slice(Box::new(TypeDesc::Str)));
    match value {
        Literal::List(items) => {
            assert_eq!(items.len(), 1);
            assert_eq!(str_lit(&items[0]), "full");
        },
        other => panic!("not a list: {:?}", other),
    }
}

#[test]
fn kebab_keys_become_snake_identifiers() {
    let doc = "[special-chars]\n# dashed doc\nwith-dash = \"dashed\"\n";
    let items = generate("[mixed] special-chars.*", doc);
    let mixed = module(&items, "mixed").unwrap();
    let (_, value, doc) = constant(mixed, "WITH_DASH").unwrap();
    assert_eq!(str_lit(value), "dashed");
    assert_eq!(doc.as_deref(), Some("dashed doc"));
}

#[test]
fn every_emitted_namespace_has_a_body() {
    fn check(items: &[Item]) {
        for i in items {
            if let Item::Module { items, .. } = i {
                assert!(!items.is_empty());
                check(items);
            }
        }
    }
    let doc = "[a]\nx = 1\n[a.empty]\n[b.c]\ny = 2\n[b.d]\n";
    let items = generate("[all] a.** b.**", doc);
    check(&module(&items, "all").unwrap());
    let all = module(&items, "all").unwrap();
    assert!(module(all, "empty").is_none());
}

#[test]
fn leading_literal_gives_the_document_path() {
    let input = MacroInput::parse(&tokens("\"tests/test.toml\" [main] section.*")).unwrap();
    assert_eq!(input.toml_path.as_deref(), Some("tests/test.toml"));
    assert_eq!(input.root_module_sources.len(), 1);
    assert_eq!(input.root_module_sources[0].name, "main");
    assert_eq!(input.root_module_sources[0].inclusion_pats[0].to_string(), "section.*");
}

#[test]
fn blocks_collect_patterns_and_aliases() {
    let input = MacroInput::parse(&tokens(
        "[deps] dependencies.* !dev-dependencies.** alias a = x.y alias a = x.z [pkg] package.name",
    ))
    .unwrap();
    assert!(input.toml_path.is_none());
    assert_eq!(input.root_module_sources.len(), 2);
    let deps = &input.root_module_sources[0];
    assert_eq!(deps.inclusion_pats.len(), 1);
    assert_eq!(deps.exclusion_pats[0].to_string(), "dev_dependencies.**");
    assert_eq!(deps.aliases.len(), 1);
    assert_eq!(deps.aliases[0].1.to_string(), "x.z");
    assert_eq!(input.root_module_sources[1].name, "pkg");
}

#[test]
fn syntax_errors_name_the_token() {
    let missing_header = MacroInput::parse(&tokens("package.*")).err().unwrap();
    assert_eq!(missing_header.kind, SyntaxErrorKind::ExpectedHeader);
    assert_eq!(missing_header.position, 0);
    let missing_eq = MacroInput::parse(&tokens("[r] alias a b")).err().unwrap();
    assert_eq!(missing_eq.kind, SyntaxErrorKind::ExpectedEquals);
    assert_eq!(missing_eq.position, 3);
    let dangling_dash = MacroInput::parse(&tokens("[r] a-")).err().unwrap();
    assert_eq!(dangling_dash.kind, SyntaxErrorKind::ExpectedIdent);
    let empty_header = MacroInput::parse(&tokens("[] a")).err().unwrap();
    assert_eq!(empty_header.kind, SyntaxErrorKind::ExpectedHeaderName);
    let long_header = MacroInput::parse(&tokens("[a b] c")).err().unwrap();
    assert_eq!(long_header.kind, SyntaxErrorKind::UnexpectedToken);
    let no_pattern = MacroInput::parse(&tokens("[r] !")).err().unwrap();
    assert_eq!(no_pattern.kind, SyntaxErrorKind::ExpectedPattern);
}

#[test]
fn malformed_document_is_reported() {
    let input = MacroInput::parse(&tokens("[r] *")).unwrap();
    let err = expand_document(&input, "key = ").err().unwrap();
    assert!(matches!(err, GenerationError::Document(_)));
}

#[test]
fn declaration_mapping_by_variant() {
    let (ty, lit) = convert_value_to_tokens(&TomlValue::String("test".to_string()));
    assert_eq!(ty, TypeDesc::Str);
    assert_eq!(str_lit(&lit), "test");
    let (ty, lit) = convert_value_to_tokens(&TomlValue::Integer(42));
    assert_eq!(ty, TypeDesc::I64);
    assert!(matches!(lit, Literal::Int(42)));
    let (ty, lit) = convert_value_to_tokens(&TomlValue::Boolean(false));
    assert_eq!(ty, TypeDesc::Bool);
    assert!(matches!(lit, Literal::Bool(false)));
    let (ty, lit) = convert_value_to_tokens(&TomlValue::Float("3.14".to_string()));
    assert_eq!(ty, TypeDesc::F64);
    assert!(matches!(lit, Literal::Float(ref f) if f == "3.14"));
    let (ty, lit) = convert_value_to_tokens(&TomlValue::Array(Vec::new(), "[]".to_string()));
    assert_eq!(ty, TypeDesc::Slice(Box::new(TypeDesc::Str)));
    assert!(matches!(lit, Literal::List(ref v) if v.is_empty()));
}

#[test]
fn mixed_array_falls_back_to_its_rendering() {
    let doc = parse_document("mixed = [\"a\", 1]\n").unwrap();
    let value = doc.get("mixed").unwrap();
    let (ty, lit) = convert_value_to_tokens(value);
    assert_eq!(ty, TypeDesc::Str);
    assert!(str_lit(&lit).contains("[String(\"a\"), Integer(1)]"));
}

#[test]
fn datetime_becomes_its_rendering() {
    let doc = parse_document("date = 2023-01-01T12:00:00Z\n").unwrap();
    let (ty, lit) = convert_value_to_tokens(doc.get("date").unwrap());
    assert_eq!(ty, TypeDesc::Str);
    assert!(str_lit(&lit).contains("2023-01-01"));
    assert!(str_lit(&lit).contains("12:00:00"));
}

#[test]
fn workspace_documents_are_recognised() {
    assert!(declares_workspace("[workspace]\nmembers = [\"pkg\"]"));
    assert!(!declares_workspace("[package]\nname = \"pkg\""));
    assert!(!declares_workspace("not toml ="));
}

#[test]
fn keywords_are_not_pattern_identifiers() {
    let err = MacroInput::parse(&tokens("[r] type.x")).err().unwrap();
    assert_eq!(err.kind, SyntaxErrorKind::ExpectedIdent);
    assert_eq!(err.position, 1);
}

#[test]
fn alias_with_later_binding_replaces_earlier() {
    let items = generate(
        "[r] other.* alias k = a.x alias k = a.y",
        "[a]\nx = 1\ny = 2\n",
    );
    let r = module(&items, "r").unwrap();
    let (_, value, _) = constant(r, "K").unwrap();
    assert!(matches!(value, Literal::Int(2)));
}

#[test]
fn test_parse_meta_config() {
    let config = MacroInput::parse(&tokens("[package] version name !private_field")).unwrap();
    assert_eq!(config.root_module_sources.len(), 1);
    let s = &config.root_module_sources[0];
    assert_eq!(s.name, "package");
    assert_eq!(s.inclusion_pats.len(), 2);
    assert_eq!(s.inclusion_pats[0].to_string(), "version");
    assert_eq!(s.inclusion_pats[1].to_string(), "name");
    assert_eq!(s.exclusion_pats.len(), 1);
    assert_eq!(s.exclusion_pats[0].to_string(), "private_field");
}

#[test]
fn test_parse_aliases() {
    let config =
        MacroInput::parse(&tokens("[deps] dependencies.* alias dependencies.serde = serde_dep")).unwrap();
    assert_eq!(config.root_module_sources.len(), 1);
    let aliases = &config.root_module_sources[0].aliases;
    assert_eq!(aliases.len(), 1);
    assert_eq!(aliases[0].0.to_string(), "dependencies.serde");
    assert_eq!(aliases[0].1.to_string(), "serde_dep");
}

#[test]
fn test_parse_multiple_sections() {
    let config = MacroInput::parse(&tokens("[package] version name [deps] dependencies.*")).unwrap();
    assert_eq!(config.root_module_sources.len(), 2);
    assert_eq!(config.root_module_sources[0].name, "package");
    assert_eq!(config.root_module_sources[1].name, "deps");
}

#[test]
fn test_glob_pattern_matching() {
    let doc = "[dependencies]\nserde = 1\ntokio = 2\n[dev-dependencies]\nserde = 3\n";
    let items = generate("[d] dependencies.*", doc);
    let d = module(&items, "d").unwrap();
    assert!(matches!(constant(d, "SERDE").unwrap().1, Literal::Int(1)));
    assert!(matches!(constant(d, "TOKIO").unwrap().1, Literal::Int(2)));
    assert!(module(d, "dev_dependencies").is_none());
}

#[test]
fn namespace_names_are_lowercased() {
    let items = generate("[cfg] Settings.**", "[Settings.Inner]\nValue = 1\n");
    let cfg = module(&items, "cfg").unwrap();
    let inner = module(cfg, "inner").unwrap();
    assert!(matches!(constant(inner, "VALUE").unwrap().1, Literal::Int(1)));
}
