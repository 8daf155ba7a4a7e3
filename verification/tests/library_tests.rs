use emmet_parser::emmet_to_html;
use emmet_parser::parse_emmet;
use emmet_parser::Attribute;
use emmet_parser::EmmetElement;
use emmet_parser::EmmetError;
use emmet_parser::EmmetParser;

#[test]
fn test_blank_inputs_of_all_whitespace_kinds() {
    assert_eq!(emmet_to_html("\t").unwrap(), "");
    assert_eq!(emmet_to_html(" \t\r\n ").unwrap(), "");
}

#[test]
fn test_multiplier_is_concatenation_of_single_renders() {
    let once = emmet_to_html("p.x{hi}*1").unwrap();
    let plain = emmet_to_html("p.x{hi}").unwrap();
    assert_eq!(once, plain);
    let thrice = emmet_to_html("p.x{hi}*3").unwrap();
    assert_eq!(thrice, format!("{}{}{}", once, once, once));
}

#[test]
fn test_multiplier_zero_yields_empty_subtree() {
    assert_eq!(emmet_to_html("div*0>p{gone}").unwrap(), "");
}

#[test]
fn test_self_closing_never_renders_text_or_children() {
    let html = emmet_to_html("img{Hello}").unwrap();
    assert_eq!(html, "<img />");
    assert!(!html.contains("</img>"));
    let html = emmet_to_html("br>p{child}").unwrap();
    assert_eq!(html, "<br />");
    assert!(!html.contains("</br>"));
    assert!(!html.contains("child"));
    let html = emmet_to_html("input[type=text]{note}").unwrap();
    assert!(html.ends_with(" />"));
    assert!(!html.contains("note"));
}

#[test]
fn test_all_self_closing_tags() {
    for tag in ["img", "input", "br", "hr", "meta", "link"] {
        let html = emmet_to_html(tag).unwrap();
        assert_eq!(html, format!("<{} />", tag));
    }
}

#[test]
fn test_attribute_and_class_order_is_preserved() {
    let html = emmet_to_html("div.a.b.c[x=1][y=2][z]").unwrap();
    assert_eq!(html, "<div class=\"a b c\" x=\"1\" y=\"2\" z></div>");
}

#[test]
fn test_sibling_after_child_attaches_to_enclosing_list() {
    let trees = parse_emmet("a>b+c").unwrap();
    assert_eq!(trees.len(), 1);
    assert_eq!(trees[0].tag, "a");
    assert_eq!(trees[0].children.len(), 2);
    assert_eq!(trees[0].children[0].tag, "b");
    assert_eq!(trees[0].children[1].tag, "c");
}

#[test]
fn test_child_after_sibling_belongs_to_second_only() {
    let trees = parse_emmet("a+b>c").unwrap();
    assert_eq!(trees.len(), 2);
    assert_eq!(trees[0].tag, "a");
    assert_eq!(trees[0].children.len(), 0);
    assert_eq!(trees[1].tag, "b");
    assert_eq!(trees[1].children.len(), 1);
    assert_eq!(trees[1].children[0].tag, "c");
}

#[test]
fn test_unclosed_quoted_value_is_unclosed_bracket() {
    let result = parse_emmet("div[a=\"open");
    assert!(matches!(result, Err(EmmetError::UnclosedBracket)));
}

#[test]
fn test_unclosed_attribute_list_is_unclosed_bracket() {
    assert!(matches!(parse_emmet("div["), Err(EmmetError::UnclosedBracket)));
    assert!(matches!(parse_emmet("div[a"), Err(EmmetError::UnclosedBracket)));
    assert!(matches!(parse_emmet("div[a=b"), Err(EmmetError::UnclosedBracket)));
    assert!(matches!(parse_emmet("div[a=b, "), Err(EmmetError::UnclosedBracket)));
    let e = parse_emmet("div[").unwrap_err();
    assert_eq!(e.message(), "Unclosed bracket");
}

#[test]
fn test_missing_attribute_name_is_invalid_attribute() {
    let result = parse_emmet("div[=value]");
    assert!(matches!(result, Err(EmmetError::InvalidAttribute)));
}

#[test]
fn test_empty_unquoted_value_is_invalid_attribute() {
    let result = parse_emmet("div[a=]");
    assert!(matches!(result, Err(EmmetError::InvalidAttribute)));
}

#[test]
fn test_missing_identifier_is_invalid_syntax() {
    assert!(matches!(parse_emmet("div#"), Err(EmmetError::InvalidSyntax(_))));
    assert!(matches!(parse_emmet("div.."), Err(EmmetError::InvalidSyntax(_))));
}

#[test]
fn test_missing_number_is_invalid_syntax() {
    assert!(matches!(parse_emmet("div*"), Err(EmmetError::InvalidSyntax(_))));
    assert!(matches!(parse_emmet("div*abc"), Err(EmmetError::InvalidSyntax(_))));
}

#[test]
fn test_oversized_multiplier_is_invalid_syntax() {
    let trees = parse_emmet("div*4294967295").unwrap();
    assert_eq!(trees[0].multiplier, Some(4294967295));
    let result = parse_emmet("div*4294967296");
    assert!(matches!(result, Err(EmmetError::InvalidSyntax(_))));
}

#[test]
fn test_error_messages() {
    let e = parse_emmet("div{open").unwrap_err();
    assert_eq!(e.message(), "Unclosed bracket");
    let e = parse_emmet("div[=x]").unwrap_err();
    assert_eq!(e.message(), "Invalid attribute syntax");
    let e = parse_emmet("div*x").unwrap_err();
    assert_eq!(e.message(), "Invalid syntax: Expected number");
    let e = parse_emmet("div#.a").unwrap_err();
    assert_eq!(e.message(), "Invalid syntax: Expected identifier");
}

#[test]
fn test_end_to_end_example_exact_output() {
    let html = emmet_to_html("div#main.container>p{Hello}+span.world*2").unwrap();
    assert_eq!(
        html,
        "<div id=\"main\" class=\"container\"><p>Hello</p><span class=\"world\"></span><span class=\"world\"></span></div>"
    );
    assert!(html.contains("<div id=\"main\" class=\"container\">"));
    assert!(html.contains("<p>Hello</p>"));
    assert_eq!(html.matches("<span class=\"world\"></span>").count(), 2);
}

#[test]
fn test_trailing_unrecognised_text_is_dropped() {
    assert_eq!(emmet_to_html("div)").unwrap(), "<div></div>");
    assert_eq!(emmet_to_html("]").unwrap(), "");
    assert_eq!(emmet_to_html("a>b]c").unwrap(), "<a><b></b></a>");
}

#[test]
fn test_whitespace_separates_siblings() {
    let html = emmet_to_html("div p").unwrap();
    assert_eq!(html, "<div></div><p></p>");
}

#[test]
fn test_whitespace_separated_attribute_values() {
    let html = emmet_to_html("meter[min=4 max=6]").unwrap();
    assert_eq!(html, "<meter min=\"4\" max=\"6\"></meter>");
}

#[test]
fn test_comma_separated_attributes() {
    let html = emmet_to_html("div[a=1,b=2]").unwrap();
    assert_eq!(html, "<div a=\"1\" b=\"2\"></div>");
}

#[test]
fn test_value_with_spaces_kept_whole_before_bracket() {
    let html = emmet_to_html("input[placeholder=Enter name]").unwrap();
    assert_eq!(html, "<input placeholder=\"Enter name\" />");
}

#[test]
fn test_quoted_value_taken_verbatim() {
    let html = emmet_to_html("div[data=\"a>b+c\"]").unwrap();
    assert_eq!(html, "<div data=\"a>b+c\"></div>");
}

#[test]
fn test_empty_attribute_list() {
    let html = emmet_to_html("div[]").unwrap();
    assert_eq!(html, "<div></div>");
}

#[test]
fn test_implicit_div_tag() {
    let html = emmet_to_html("#main.wide").unwrap();
    assert_eq!(html, "<div id=\"main\" class=\"wide\"></div>");
    let html = emmet_to_html(".only").unwrap();
    assert_eq!(html, "<div class=\"only\"></div>");
    let html = emmet_to_html("{words}").unwrap();
    assert_eq!(html, "<div>words</div>");
}

#[test]
fn test_parser_type_directly() {
    let mut parser = EmmetParser::new("span{x}*2");
    let trees = parser.parse().unwrap();
    assert_eq!(trees.len(), 1);
    assert_eq!(trees[0].tag, "span");
    assert_eq!(trees[0].text, Some("x".to_string()));
    assert_eq!(trees[0].multiplier, Some(2));
    // a drained parser yields nothing more
    let rest = parser.parse().unwrap();
    assert_eq!(rest.len(), 0);
}

#[test]
fn test_element_clone_is_deep() {
    let trees = parse_emmet("div#main.container>p{Hello}+i[x=1]*2").unwrap();
    let copy = trees[0].clone();
    assert_eq!(copy, trees[0]);
    assert_eq!(copy.to_html(), trees[0].to_html());
}

#[test]
fn test_element_new_and_to_html() {
    let e = EmmetElement::new("span");
    assert_eq!(e.tag, "span");
    assert_eq!(e.to_html(), "<span></span>");
    let e = EmmetElement::new("img");
    assert_eq!(e.to_html(), "<img />");
}

#[test]
fn test_hand_built_element_renders() {
    let mut e = EmmetElement::new("a");
    e.id = Some("top".to_string());
    e.classes.push("nav".to_string());
    e.attributes.push(Attribute {
        name: "href".to_string(),
        value: Some("x".to_string()),
    });
    e.attributes.push(Attribute {
        name: "hidden".to_string(),
        value: None,
    });
    e.text = Some("go".to_string());
    e.multiplier = Some(2);
    assert_eq!(
        e.to_html(),
        "<a id=\"top\" class=\"nav\" href=\"x\" hidden>go</a><a id=\"top\" class=\"nav\" href=\"x\" hidden>go</a>"
    );
}

#[test]
fn test_second_id_starts_a_new_element() {
    // an element takes a single `#id`; a second `#` opens a fresh implicit div
    let html = emmet_to_html("div#one#two").unwrap();
    assert_eq!(html, "<div id=\"one\"></div><div id=\"two\"></div>");
}

#[test]
fn test_text_before_multiplier_order() {
    // `*` after `{}` multiplies; `{}` after `*` is a new implicit element
    assert_eq!(emmet_to_html("b{x}*2").unwrap(), "<b>x</b><b>x</b>");
    assert_eq!(emmet_to_html("b*2{x}").unwrap(), "<b></b><b></b><div>x</div>");
}
