use rdom::mustache::{
    compile, render, Feature, MustacheData, MustacheParser, MustacheToken, MustacheValue, TemplateError,
};

fn s(v: &str) -> String {
    v.to_string()
}

fn scalar(v: &str) -> MustacheValue {
    MustacheValue::Scalar(s(v))
}

fn data(values: Vec<(String, MustacheValue)>) -> MustacheData {
    MustacheData::new(values)
}

fn run(template: &str, values: Vec<(String, MustacheValue)>) -> Result<String, TemplateError> {
    let tree = compile(template)?;
    render(&tree, &data(values))
}

#[test]
fn literal_template_renders_to_itself() {
    for t in ["Hello, world!", "", "x", "a { b } c", "open {{ but never closed", "}} stray"] {
        assert_eq!(run(t, vec![]), Ok(s(t)));
    }
}

#[test]
fn variable_is_substituted() {
    assert_eq!(
        run("Hello, {{name}}!", vec![(s("name"), scalar("World"))]),
        Ok(s("Hello, World!"))
    );
}

#[test]
fn variable_name_is_trimmed() {
    assert_eq!(run("[{{ name }}]", vec![(s("name"), scalar("W"))]), Ok(s("[W]")));
}

#[test]
fn escaped_variable_is_html_escaped() {
    assert_eq!(run("{{v}}", vec![(s("v"), scalar("<b>"))]), Ok(s("&lt;b&gt;")));
    assert_eq!(
        run("{{v}}", vec![(s("v"), scalar("&<>\"'x"))]),
        Ok(s("&amp;&lt;&gt;&quot;&#39;x"))
    );
}

#[test]
fn triple_mustache_is_raw() {
    assert_eq!(run("{{{v}}}", vec![(s("v"), scalar("<b>"))]), Ok(s("<b>")));
    assert_eq!(run("{{{ v }}}", vec![(s("v"), scalar("<b>"))]), Ok(s("<b>")));
}

#[test]
fn ampersand_variable_is_raw() {
    assert_eq!(run("{{& v}}", vec![(s("v"), scalar("<b>"))]), Ok(s("<b>")));
}

#[test]
fn missing_or_non_scalar_variable_renders_nothing() {
    assert_eq!(run("[{{v}}]", vec![]), Ok(s("[]")));
    assert_eq!(run("[{{v}}]", vec![(s("v"), MustacheValue::Object(vec![]))]), Ok(s("[]")));
    assert_eq!(run("[{{{v}}}]", vec![(s("v"), MustacheValue::Array(vec![]))]), Ok(s("[]")));
    assert_eq!(run("[{{v}}]", vec![(s("v"), MustacheValue::Lamba())]), Ok(s("[]")));
}

#[test]
fn inverted_section_renders_when_unbound() {
    assert_eq!(run("{{^empty}}none{{/empty}}", vec![]), Ok(s("none")));
}

#[test]
fn inverted_section_suppressed_when_bound() {
    let values = [
        scalar(""),
        scalar("x"),
        MustacheValue::Object(vec![]),
        MustacheValue::Array(vec![]),
        MustacheValue::Lamba(),
    ];
    for v in values {
        assert_eq!(run("{{^empty}}none{{/empty}}", vec![(s("empty"), v)]), Ok(s("")));
    }
}

#[test]
fn inverted_section_body_sees_no_bindings() {
    assert_eq!(run("{{^e}}[{{x}}]{{/e}}", vec![(s("x"), scalar("outer"))]), Ok(s("[]")));
}

#[test]
fn array_section_iterates_in_order() {
    let items = MustacheValue::Array(vec![vec![(s("v"), scalar("a"))], vec![(s("v"), scalar("b"))]]);
    assert_eq!(run("{{#items}}{{v}},{{/items}}", vec![(s("items"), items)]), Ok(s("a,b,")));
}

#[test]
fn empty_array_section_renders_nothing() {
    assert_eq!(
        run("[{{#items}}{{v}}{{/items}}]", vec![(s("items"), MustacheValue::Array(vec![]))]),
        Ok(s("[]"))
    );
}

#[test]
fn object_section_uses_object_fields() {
    let o = MustacheValue::Object(vec![(s("x"), scalar("inner"))]);
    assert_eq!(run("{{#o}}[{{x}}]{{/o}}", vec![(s("x"), scalar("outer")), (s("o"), o)]), Ok(s("[inner]")));
}

#[test]
fn outer_binding_is_invisible_in_object_section() {
    let o = MustacheValue::Object(vec![(s("y"), scalar("other"))]);
    assert_eq!(run("{{#o}}[{{x}}]{{/o}}", vec![(s("x"), scalar("outer")), (s("o"), o)]), Ok(s("[]")));
}

#[test]
fn scalar_and_missing_sections_render_nothing() {
    // A section bound to a scalar is falsy here, unlike canonical Mustache.
    assert_eq!(run("[{{#v}}body{{/v}}]", vec![(s("v"), scalar("yes"))]), Ok(s("[]")));
    assert_eq!(run("[{{#v}}body{{/v}}]", vec![]), Ok(s("[]")));
}

#[test]
fn nested_sections_render() {
    let inner = MustacheValue::Object(vec![(s("deep"), scalar("d"))]);
    let items = MustacheValue::Array(vec![
        vec![(s("t"), scalar("1")), (s("inner"), inner)],
        vec![(s("t"), scalar("2"))],
    ]);
    assert_eq!(
        run("{{#s}}<{{t}}{{#inner}}:{{deep}}{{/inner}}>{{/s}}", vec![(s("s"), items)]),
        Ok(s("<1:d><2>"))
    );
}

#[test]
fn comment_renders_nothing() {
    assert_eq!(run("a{{! note }}b", vec![]), Ok(s("ab")));
}

#[test]
fn unmatched_section_end_is_an_error() {
    assert_eq!(compile("{{/x}}"), Err(TemplateError::UnmatchedSectionEnd(s("x"))));
    assert_eq!(compile("a{{#y}}b{{/y}}{{/x}}"), Err(TemplateError::UnmatchedSectionEnd(s("x"))));
}

#[test]
fn unclosed_section_is_an_error() {
    assert_eq!(compile("{{#a}}x"), Err(TemplateError::UnclosedSection(s("a"))));
    assert_eq!(compile("{{#a}}{{#a}}x{{/a}}"), Err(TemplateError::UnclosedSection(s("a"))));
}

#[test]
fn end_tag_naming_another_section_is_an_error() {
    assert_eq!(compile("{{#a}}x{{/b}}"), Err(TemplateError::UnmatchedSectionEnd(s("b"))));
}

#[test]
fn section_may_reopen_under_its_own_name() {
    let inner = MustacheValue::Object(vec![(s("a"), MustacheValue::Object(vec![(s("v"), scalar("in"))]))]);
    assert_eq!(run("{{#a}}<{{#a}}{{v}}{{/a}}>{{/a}}", vec![(s("a"), inner)]), Ok(s("<in>")));
}

#[test]
fn unicode_whitespace_around_tag_names_is_trimmed() {
    assert_eq!(run("{{\u{3000}name\u{a0}}}", vec![(s("name"), scalar("W"))]), Ok(s("W")));
}

#[test]
fn empty_tag_is_malformed() {
    assert_eq!(compile("{{}}"), Err(TemplateError::MalformedTag));
    assert_eq!(compile("a {{   }} b"), Err(TemplateError::MalformedTag));
}

#[test]
fn set_delimiter_is_unsupported() {
    assert_eq!(
        compile("{{=<% %>=}}"),
        Err(TemplateError::UnsupportedFeature(Feature::SetDelimiter))
    );
}

#[test]
fn partial_is_unsupported_at_render() {
    assert_eq!(run("a{{> footer}}", vec![]), Err(TemplateError::UnsupportedFeature(Feature::Partial)));
}

#[test]
fn lambda_section_is_unsupported() {
    assert_eq!(
        run("{{#f}}x{{/f}}", vec![(s("f"), MustacheValue::Lamba())]),
        Err(TemplateError::UnsupportedFeature(Feature::Lambda))
    );
}

#[test]
fn compile_is_deterministic() {
    let t = "Hi {{name}}{{#items}}<{{v}}>{{/items}}{{^none}}-{{/none}}{{{raw}}}";
    assert_eq!(compile(t), compile(t));
    assert!(compile(t).is_ok());
}

#[test]
fn parser_tokens_cover_the_input() {
    let mut p = MustacheParser::new(s("a{{#s}}b{{/s}}c"));
    let t = p.run().unwrap();
    let data = MustacheData::new(vec![(s("s"), MustacheValue::Object(vec![]))]);
    assert_eq!(t.replace(data), Ok(s("abc")));
}

#[test]
fn token_create_classifies_by_first_character() {
    assert_eq!(MustacheToken::create(s("# sec ")), Ok(MustacheToken::SectionStart(s("sec"))));
    assert_eq!(MustacheToken::create(s("/sec")), Ok(MustacheToken::SectionEnd(s("sec"))));
    assert_eq!(MustacheToken::create(s("^ sec")), Ok(MustacheToken::InvertedSectionStart(s("sec"))));
    assert_eq!(MustacheToken::create(s("! hi")), Ok(MustacheToken::Comment(s("hi"))));
    assert_eq!(MustacheToken::create(s("> part")), Ok(MustacheToken::Partial(s("part"))));
    assert_eq!(MustacheToken::create(s("& raw")), Ok(MustacheToken::NonEscapedVariable(s("raw"))));
    assert_eq!(MustacheToken::create(s("{ raw }")), Ok(MustacheToken::NonEscapedVariable(s("raw"))));
    assert_eq!(MustacheToken::create(s(" name ")), Ok(MustacheToken::EscapedVariable(s("name"))));
    assert_eq!(MustacheToken::create(s("")), Err(TemplateError::MalformedTag));
    assert_eq!(
        MustacheToken::create(s("=| |=")),
        Err(TemplateError::UnsupportedFeature(Feature::SetDelimiter))
    );
}

#[test]
fn block_tags_may_stand_alone() {
    assert!(MustacheToken::SectionStart(s("a")).can_have_leading_new_line());
    assert!(MustacheToken::Comment(s("a")).can_have_leading_new_line());
    assert!(!MustacheToken::Unmodified(s("a")).can_have_leading_new_line());
    assert!(!MustacheToken::EscapedVariable(s("a")).can_have_leading_new_line());
}

#[test]
fn value_kinds() {
    assert!(scalar("a").is_scalar());
    assert!(MustacheValue::Object(vec![]).is_object());
    assert!(MustacheValue::Array(vec![]).is_array());
    assert!(MustacheValue::Lamba().is_lamba());
    assert!(!scalar("a").is_array());
}

#[test]
fn first_binding_wins() {
    assert_eq!(
        run("{{v}}", vec![(s("v"), scalar("first")), (s("v"), scalar("second"))]),
        Ok(s("first"))
    );
}

#[test]
fn nested_braces_in_tag_are_balanced() {
    assert_eq!(run("{{a}} and {{b", vec![(s("a"), scalar("A"))]), Ok(s("A and {{b")));
}
