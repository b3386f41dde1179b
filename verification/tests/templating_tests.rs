use dotpatina::patina::Patina;
use dotpatina::patina_file::PatinaFile;
use dotpatina::templating::render_patina;
use dotpatina::vars::VarValue;

fn s(x: &str) -> String {
    x.to_string()
}

const HELLO_TEMPLATE: &str = r#"Hello, {{ name.first }} {{ name.last }}!
This is an example Patina template file.
Templates use the Handebars templating language. For more information, see <https://handlebarsjs.com/guide/>.
"#;

fn name_vars() -> VarValue {
    VarValue::Object(vec![(
        s("name"),
        VarValue::Object(vec![
            (s("first"), VarValue::Str(s("Patina"))),
            (s("last"), VarValue::Str(s("User"))),
        ]),
    )])
}

#[test]
fn test_render_patina() {
    let patina = Patina {
        base_path: None,
        name: s("sample-patina"),
        description: s("This is a sample Patina"),
        vars: Some(name_vars()),
        files: vec![PatinaFile::new(
            "template.txt.hbs",
            "tests/fixtures/template.txt",
        )],
    };

    let sources = vec![(s("template.txt.hbs"), Ok(s(HELLO_TEMPLATE)))];
    let render = render_patina(&patina, None, sources);

    assert!(render.is_ok());
    let render = render.unwrap();
    assert_eq!(render.len(), 1);
    let render = &render[0];

    assert_eq!(render.patina_file, patina.files[0]);

    assert_eq!(
        render.render_str,
        r#"Hello, Patina User!
This is an example Patina template file.
Templates use the Handebars templating language. For more information, see <https://handlebarsjs.com/guide/>.
"#
    );
}

#[test]
fn test_render_patina_multiple_templates() {
    let patina = Patina {
        base_path: None,
        name: s("multi-template-patina"),
        description: s("This is a patina with multiple templates"),
        vars: Some(VarValue::Object(vec![
            (s("A"), VarValue::Str(s("template_a"))),
            (s("B"), VarValue::Str(s("template_b"))),
            (s("C"), VarValue::Str(s("template_c"))),
        ])),
        files: vec![
            PatinaFile::new("template_a.txt.hbs", "output_a.txt"),
            PatinaFile::new("template_b.txt.hbs", "output_b.txt"),
            PatinaFile::new("template_c.txt.hbs", "output_c.txt"),
        ],
    };

    let sources = vec![
        (s("template_a.txt.hbs"), Ok(s("This is {{ A }}."))),
        (s("template_b.txt.hbs"), Ok(s("This is {{ B }}."))),
        (s("template_c.txt.hbs"), Ok(s("This is {{ C }}."))),
    ];
    let render = render_patina(&patina, None, sources);

    assert!(render.is_ok());
    let render = render.unwrap();

    assert_eq!(render.len(), 3);
    assert_eq!(render[0].render_str, "This is template_a.");
    assert_eq!(render[1].render_str, "This is template_b.");
    assert_eq!(render[2].render_str, "This is template_c.");
}

#[test]
fn test_render_patina_missing_variable() {
    let patina = Patina {
        base_path: None,
        name: s("sample-patina"),
        description: s("This is a sample Patina"),
        vars: Some(VarValue::Object(vec![])),
        files: vec![PatinaFile::new(
            "template.txt.hbs",
            "tests/fixtures/template.txt",
        )],
    };

    let sources = vec![(s("template.txt.hbs"), Ok(s(HELLO_TEMPLATE)))];
    let render = render_patina(&patina, None, sources);

    assert!(render.is_err());
    let render = render.unwrap_err();
    assert!(render.is_render_template());
    let (_, reason) = render.as_render_template().unwrap();
    assert_eq!(
        reason,
        "Failed to access variable in strict mode Some(\"name.first\")"
    );
}

#[test]
fn test_render_patina_invalid_template() {
    let invalid_template = r#"
        Hello, {{ name }!

        This is an example Patina template file.

        Templates use the Handebars templating language. For more information, see <https://handlebarsjs.com/guide/>.
    "#;

    let patina = Patina {
        base_path: None,
        name: s("sample-patina"),
        description: s("This is a sample Patina"),
        vars: Some(VarValue::Object(vec![])),
        files: vec![PatinaFile::new(
            "invalid_template.txt.hbs",
            "tests/fixtures/template.txt",
        )],
    };

    let sources = vec![(s("invalid_template.txt.hbs"), Ok(s(invalid_template)))];
    let render = render_patina(&patina, None, sources);

    assert!(render.is_err());
    assert!(render.unwrap_err().is_render_template());
}

#[test]
fn test_render_patina_escaped_handlebars() {
    let patina = Patina {
        name: s("escaped_handlebars"),
        description: s("this patina shows escaping handlebars"),
        base_path: None,
        vars: None,
        files: vec![PatinaFile::new(
            "template_with_escaped_handlebars.hbs",
            "tests/fixtures/output.txt",
        )],
    };

    let sources = vec![(
        s("template_with_escaped_handlebars.hbs"),
        Ok(s("This file has \\{{ escaped }} handlebars\n")),
    )];
    let render = render_patina(&patina, None, sources);
    assert!(render.is_ok());
    assert_eq!(
        render.unwrap()[0].render_str,
        "This file has {{ escaped }} handlebars\n"
    );
}

#[test]
fn test_render_patina_unreadable_template() {
    let patina = Patina {
        base_path: None,
        name: s("sample-patina"),
        description: s("This is a sample Patina"),
        vars: None,
        files: vec![PatinaFile::new(
            "this/template/does/not/exist.txt",
            "./output.txt",
        )],
    };

    let sources = vec![(
        s("this/template/does/not/exist.txt"),
        Err(s("No such file or directory (os error 2)")),
    )];
    let render = render_patina(&patina, None, sources);
    assert!(render.is_err());
    assert!(render.unwrap_err().is_file_read());
}
