use docu_formatter::docu::{DocuComment, DocuInfo};
use docu_formatter::parser::{parse, parse_doc_comments, ErrorKind};

const DOC_SHOW: &str = "/// Display the document using the document manager ID\n///\n/// @param docID document manager ID\nfunc void Doc_Show(var int docID) {};\n";

const EXAMPLE: &str = r#"
/// Sets up the visual of an NPC
///
/// @param npc NPC to be affected
/// @param body_mesh mesh to be used as the body e.g. `HUM_BODY_NAKED0`
func void Mdl_SetVisualBody( var instance npc,
                            var string body_mesh ) {};


/// Display the document using the document manager ID
///
/// @param docID document manager ID
func void Doc_Show(var int docID) {};


/// Create a new instance of the document manager.
///
/// @return Returns the ID of the document manager instance.
func int Doc_CreateMap() {};
"#;

fn unit(name: &str, infos: Vec<DocuInfo>) -> DocuComment {
    DocuComment {
        description: None,
        infos,
        func_string: format!("func void {}() {{}};", name),
        func_name: name.to_string(),
        parameters: vec![],
    }
}

#[test]
fn doc_show_renders_heading_code_and_one_parameter() {
    let md = parse(DOC_SHOW).ok().unwrap();
    let expected = "### `Doc_Show`\n!!! function \"`Doc_Show`\"\n    Display the document using the document manager ID\n    ```dae\n    func void Doc_Show(var int docID) {};\n    ```\n\n    **Parameters**  \n\n    - `#!dae docID` - document manager ID\n";
    assert_eq!(md, expected);
    assert!(md.starts_with("### `Doc_Show`\n"));
    assert_eq!(md.matches("    - `#!dae").count(), 1);
}

#[test]
fn doc_show_unit_fields() {
    let units = parse_doc_comments(DOC_SHOW).ok().unwrap();
    assert_eq!(units.len(), 1);
    let u = &units[0];
    assert_eq!(u.func_name, "Doc_Show");
    assert_eq!(u.description.as_deref(), Some("Display the document using the document manager ID"));
    assert_eq!(u.parameters, vec!["var int docID".to_string()]);
    assert_eq!(u.func_string, "func void Doc_Show(var int docID) {};");
    assert_eq!(u.infos.len(), 1);
    match &u.infos[0] {
        DocuInfo::Parameter(n, d) => {
            assert_eq!(n, "docID");
            assert_eq!(d, "document manager ID");
        }
        _ => panic!("expected a parameter"),
    }
}

#[test]
fn return_only_block_has_no_parameter_or_global_section() {
    let md = parse("/// Creates a map.\n///\n/// @return Returns the ID.\nfunc int Doc_CreateMap() {};").ok().unwrap();
    assert!(md.contains("\n    **Return value**  \n    The function returns Returns the ID.\n"));
    assert!(!md.contains("**Parameters**"));
    assert!(!md.contains("**Globals**"));
}

#[test]
fn bare_block_renders_heading_callout_and_code_only() {
    let md = parse("///\nfunc void Foo() {};").ok().unwrap();
    assert_eq!(md, "### `Foo`\n!!! function \"`Foo`\"\n    ```dae\n    func void Foo() {};\n    ```\n");
}

#[test]
fn empty_parentheses_give_no_parameters() {
    let units = parse_doc_comments("/// x\nfunc int F() {};").ok().unwrap();
    assert_eq!(units[0].parameters.len(), 0);
    let units = parse_doc_comments("/// x\nfunc int F(  ) {};").ok().unwrap();
    assert_eq!(units[0].parameters.len(), 0);
}

#[test]
fn parameters_are_trimmed_and_split_at_commas() {
    let units = parse_doc_comments("/// x\nfunc void F( var int a ,\n  var string b) {};").ok().unwrap();
    assert_eq!(units[0].parameters, vec!["var int a".to_string(), "var string b".to_string()]);
}

#[test]
fn only_first_return_is_rendered() {
    let md = parse("/// @return first\n/// @return second\nfunc int F() {};").ok().unwrap();
    assert!(md.contains("The function returns first\n"));
    assert!(!md.contains("second"));
    let units = parse_doc_comments("/// @return first\n/// @return second\nfunc int F() {};").ok().unwrap();
    assert_eq!(units[0].infos.len(), 2);
}

#[test]
fn missing_terminator_fails_without_output() {
    let err = parse("/// Shows it\nfunc void Doc_Show(var int docID)\n").err().unwrap();
    assert_eq!(err.kind, ErrorKind::MalformedBlock);
    assert_eq!(err.context, "/// Shows it\nfunc void Doc_Show(var int docID)\n");
    let err = parse(&format!("{}\n/// more\nfunc void G() {{}}", DOC_SHOW)).err().unwrap();
    assert_eq!(err.kind, ErrorKind::MalformedBlock);
}

#[test]
fn text_without_comment_is_malformed() {
    let err = parse("func void F() {};").err().unwrap();
    assert_eq!(err.kind, ErrorKind::MalformedBlock);
}

#[test]
fn tag_without_description_is_invalid_annotation() {
    let err = parse("/// @param x\nfunc void F(var int x) {};").err().unwrap();
    assert_eq!(err.kind, ErrorKind::InvalidAnnotation);
    assert_eq!(err.context, "/// @param x");
    let err = parse("/// @return\nfunc int F() {};").err().unwrap();
    assert_eq!(err.kind, ErrorKind::InvalidAnnotation);
    let err = parse("/// @global 9x bad name\nfunc int F() {};").err().unwrap();
    assert_eq!(err.kind, ErrorKind::InvalidAnnotation);
}

#[test]
fn declaration_without_three_tokens_is_invalid() {
    let err = parse("/// x\nfunc Foo() {};").err().unwrap();
    assert_eq!(err.kind, ErrorKind::InvalidDeclaration);
    assert_eq!(err.context, "func Foo() ");
    let err = parse("/// x\nfunc void Foo {};").err().unwrap();
    assert_eq!(err.kind, ErrorKind::InvalidDeclaration);
}

#[test]
fn text_after_tags_is_malformed() {
    let err = parse("/// a\n/// @param x y\n/// stray\nfunc void F() {};").err().unwrap();
    assert_eq!(err.kind, ErrorKind::MalformedBlock);
}

#[test]
fn multi_line_description_is_joined() {
    let units = parse_doc_comments("/// first line\n///   second line  \n///\nfunc void F() {};").ok().unwrap();
    assert_eq!(units[0].description.as_deref(), Some("first line second line"));
}

#[test]
fn globals_are_rendered_in_their_own_section() {
    let md = parse("/// @param a the a\n/// @global g the g\n///\n/// @param b the b\nfunc void F(var int a, var int b) {};").ok().unwrap();
    let expected_tail = "\n    **Parameters**  \n\n    - `#!dae a` - the a\n    - `#!dae b` - the b\n\n    **Globals**  \n\n    - `#!dae g` - the g\n";
    assert!(md.ends_with(expected_tail));
}

#[test]
fn one_heading_per_block_in_order() {
    let md = parse(EXAMPLE).ok().unwrap();
    let headings: Vec<&str> = md.lines().filter(|l| l.starts_with("### ")).collect();
    assert_eq!(headings, vec!["### `Mdl_SetVisualBody`", "### `Doc_Show`", "### `Doc_CreateMap`"]);
    assert!(md.contains("`HUM_BODY_NAKED0`\n\n### `Doc_Show`"));
}

#[test]
fn multi_line_declaration_is_indented() {
    let md = parse(EXAMPLE).ok().unwrap();
    assert!(md.contains("    func void Mdl_SetVisualBody( var instance npc,\n                                var string body_mesh ) {};\n"));
}

#[test]
fn same_input_gives_same_output() {
    assert_eq!(parse(EXAMPLE).ok().unwrap(), parse(EXAMPLE).ok().unwrap());
}

#[test]
fn empty_input_gives_empty_output() {
    assert_eq!(parse("").ok().unwrap(), "");
    assert_eq!(parse("  \n\n ").ok().unwrap(), "");
}

#[test]
fn generate_md_lists_globals_and_first_return() {
    let u = unit(
        "F",
        vec![
            DocuInfo::Global("g".to_string(), "state".to_string()),
            DocuInfo::Return("one".to_string()),
            DocuInfo::Return("two".to_string()),
        ],
    );
    assert!(u.has_globals());
    assert!(!u.has_params());
    assert!(u.has_return());
    assert_eq!(
        u.generate_md(),
        "### `F`\n!!! function \"`F`\"\n    ```dae\n    func void F() {};\n    ```\n\n    **Globals**  \n\n    - `#!dae g` - state\n\n    **Return value**  \n    The function returns one\n"
    );
}

#[test]
fn multi_line_texts_stay_indented() {
    let mut u = unit(
        "F",
        vec![
            DocuInfo::Parameter("p".to_string(), "one\ntwo".to_string()),
            DocuInfo::Return("r1\nr2".to_string()),
        ],
    );
    u.description = Some("x\n### y".to_string());
    let md = u.generate_md();
    assert!(md.contains("    x\n    ### y\n"));
    assert!(md.contains("    - `#!dae p` - one\n    two\n"));
    assert!(md.contains("    The function returns r1\n    r2\n"));
    assert_eq!(md.lines().filter(|l| l.starts_with("### ")).count(), 1);
}

#[test]
fn invalid_annotation_names_the_whole_comment_line() {
    let err = parse("/// d\n///\n/// @global g   \nfunc void f() {};").err().unwrap();
    assert_eq!(err.kind, ErrorKind::InvalidAnnotation);
    assert_eq!(err.context, "/// @global g");
}

#[test]
fn empty_parentheses_with_any_whitespace_give_no_parameters() {
    let units = parse_doc_comments("/// x\nfunc\tint \n Get_Value (\t\n ) \n{};").ok().unwrap();
    assert_eq!(units[0].func_name, "Get_Value");
    assert!(units[0].parameters.is_empty());
}

#[test]
fn parameters_are_trimmed_of_unicode_whitespace() {
    let units = parse_doc_comments("/// x\nfunc void f(a\u{0C}, \u{A0}var int b\u{3000}) {};").ok().unwrap();
    assert_eq!(units[0].parameters, vec!["a".to_string(), "var int b".to_string()]);
    let units = parse_doc_comments("/// x\nfunc void f(a\u{0C}) {};").ok().unwrap();
    assert_eq!(units[0].parameters, vec!["a".to_string()]);
}

#[test]
fn description_lines_are_trimmed_of_unicode_whitespace() {
    let units = parse_doc_comments("/// \u{A0}Shows it\u{2003}\nfunc void f() {};").ok().unwrap();
    assert_eq!(units[0].description.as_deref(), Some("Shows it"));
}
