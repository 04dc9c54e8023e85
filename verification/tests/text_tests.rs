use bayes_star::creators;
use bayes_star::creators::{conjunction, constant, implication, predicate, variable};
use bayes_star::diagram::{diagram_argument, diagram_domain, diagram_implication, diagram_predicate, diagram_proposition_group, diagram_relation};
use bayes_star::error::BayesError;
use bayes_star::objects::{Domain, Relation, RoleMap, VariableArgument};
use bayes_star::render;
use bayes_star::render_utils::{concatenate_file_contents, do_replaces, render_against_custom_body, render_app_body};
use bayes_star::setup::{options_from_arguments, parse_i32, parse_u32};
use bayes_star::text::{decimal_string, join_strings, replace_string, sort_strings, text_le};

#[test]
fn joining_and_sorting() {
    assert_eq!(join_strings(&vec!["a".into(), "b".into(), "c".into()], ", "), "a, b, c");
    assert_eq!(join_strings(&vec![], ", "), "");
    assert_eq!(sort_strings(vec!["b".into(), "a".into(), "ab".into(), "".into()]), vec!["".to_string(), "a".into(), "ab".into(), "b".into()]);
    assert!(text_le("ab", "b") && !text_le("b", "ab") && text_le("", ""));
}

#[test]
fn decimal_text() {
    assert_eq!(decimal_string(0), "0");
    assert_eq!(decimal_string(4294967295), "4294967295");
    assert_eq!(decimal_string(1024), "1024");
}

#[test]
fn replacing_text_like_str_replace() {
    for (s, f, t) in [("aaa", "aa", "b"), ("abc", "", "-"), ("xyz", "q", "r"), ("", "", "x"), ("abab", "ab", "")] {
        assert_eq!(replace_string(s, f, t), s.replace(f, t));
    }
}

#[test]
fn replacements_apply_in_order() {
    let base = "{a} and {b}".to_string();
    let subs = vec![("{a}".to_string(), "{b}".to_string()), ("{b}".to_string(), "x".to_string())];
    assert_eq!(do_replaces(&base, &subs), "x and x");
    assert_eq!(render::do_replaces(&base, &vec![]), base);
    assert_eq!(render::render_component("<p>{a}</p>", &vec![("{a}".to_string(), "hi".to_string())]), "<p>hi</p>");
}

#[test]
fn pages_around_a_body() {
    let template = "<html><style>/* css here */</style><body>{body_html}</body></html>";
    assert_eq!(
        render_against_custom_body("<p>x</p>", template, "p{}"),
        "<html><style>p{}</style><body><p>x</p></body></html>"
    );
    assert_eq!(render_app_body("", template, ""), "<html><style></style><body></body></html>");
    assert_eq!(render::internal_index(template, "c"), "<html><style>c</style><body></body></html>");
    assert_eq!(render::render_app_body("B", "title", "<div>{body}</div>"), "<div>B</div>");
    assert_eq!(render::render_app_body_unsafe("B", "title", "{body}{body}"), "BB");
    assert_eq!(concatenate_file_contents(&vec!["a".into(), "b".into()]), "a\n\nb\n\n");
}

#[test]
fn diagrams() {
    assert_eq!(
        diagram_domain("Jack"),
        "\n                <span class='domain_span'>\n                    <span class='domain_label'>Jack</span>\n                    <span><img src='/static/images/domains/Jack.png' class='domain_icon' /></span>\n                </span>\n    "
    );
    assert_eq!(
        diagram_argument(&constant(Domain::Jill, "l1".into())),
        "<div>Constant Argument: <br>Domain: Jill<br>Entity ID: l1</div>"
    );
    let p = predicate("rich".into(), vec![creators::sub(constant(Domain::Jack, "j".into()))]);
    assert_eq!(
        diagram_predicate(&p),
        "\n        <span class='relation'>\n            <span class='relation_name'>\n                rich\n            </span>\n            <span class='role_name'>sub</span><div>Constant Argument: <br>Domain: Jack<br>Entity ID: j</div>\n        </span>\n    "
    );
    let r = Relation { relation_name: "like".into(), types: vec![VariableArgument { domain: Domain::Jack }, VariableArgument { domain: Domain::Jill }] };
    assert!(diagram_relation(&r).contains("like\n            </span>\n            <span class='argument_part'>Jack</span><span class='argument_part'>Jill</span>"));
    let g = conjunction(vec![p.clone(), p.clone()]);
    let d = diagram_proposition_group(&g);
    assert!(d.starts_with("<div class='predicate_group'>") && d.ends_with("</div>"));
    assert_eq!(d.matches("<span class='and_separator'>&and;</span>").count(), 1);
    let x = variable(Domain::Jack);
    let imp = implication(
        conjunction(vec![predicate("a".into(), vec![creators::sub(x.clone())])]),
        predicate("b".into(), vec![creators::sub(x)]),
        vec![RoleMap::new(vec![("sub".into(), "sub".into())])],
    );
    let di = diagram_implication(&imp);
    assert!(di.contains("&or;") && di.contains("implication_box"));
}

#[test]
fn reading_numbers() {
    assert_eq!(parse_i32("42"), Some(42));
    assert_eq!(parse_i32("+7"), Some(7));
    assert_eq!(parse_i32("-2147483648"), Some(i32::MIN));
    assert_eq!(parse_i32("2147483647"), Some(i32::MAX));
    assert_eq!(parse_i32("2147483648"), None);
    assert_eq!(parse_i32("-2147483649"), None);
    for bad in ["", "-", "+", "1x", " 1", "--1"] {
        assert_eq!(parse_i32(bad), None, "{:?}", bad);
        assert_eq!(parse_i32(bad).is_some(), bad.parse::<i32>().is_ok());
    }
    assert_eq!(parse_u32("4294967295"), Some(u32::MAX));
    assert_eq!(parse_u32("4294967296"), None);
    assert_eq!(parse_u32("-0"), None);
    assert_eq!(parse_u32("+0"), Some(0));
    for s in ["0", "007", "+12", "-3", "99999999999", "12a"] {
        assert_eq!(parse_i32(s), s.parse::<i32>().ok(), "{:?}", s);
        assert_eq!(parse_u32(s), s.parse::<u32>().ok(), "{:?}", s);
    }
}

#[test]
fn options_from_command_line_values() {
    let o = options_from_arguments("SimpleDating".into(), None, "1024", true, Some("3".into()), None).unwrap();
    assert_eq!(o.entities_per_domain, 1024);
    assert_eq!(o.test_example, Some(3));
    assert!(o.print_training_loss);
    assert_eq!(
        options_from_arguments("s".into(), None, "many", false, None, None).err(),
        Some(BayesError::InvalidOption("entities_per_domain".into()))
    );
    assert_eq!(
        options_from_arguments("s".into(), None, "5", false, Some("-1".into()), None).err(),
        Some(BayesError::InvalidOption("test_example".into()))
    );
}
