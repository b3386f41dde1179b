use dotpatina::patina::Patina;
use dotpatina::patina_file::PatinaFile;
use dotpatina::vars::VarValue;

fn s(x: &str) -> String {
    x.to_string()
}

#[test]
fn test_patina_deserialize() {
    let patina = r#"
        name = "simple-patina"
        description = "This is a simple Patina example"

        [vars]
        name = "Patina"

        [[files]]
        template = "./templates/hello.txt"
        target = "./output/hello.txt"
    "#;

    let patina = Patina::from_toml_str(patina, "patina.toml");
    assert!(patina.is_ok());
    let patina = patina.unwrap();

    assert_eq!(patina.name, "simple-patina");
    assert_eq!(patina.description, "This is a simple Patina example");

    // assert vars
    assert!(patina.vars.is_some());
    let vars = patina.vars.unwrap();
    assert_eq!(
        vars,
        VarValue::Object(vec![(s("name"), VarValue::Str(s("Patina")))])
    );

    let patina_files = patina.files;
    assert_eq!(patina_files.len(), 1);
    let patina_file = &patina_files[0];
    assert_eq!(patina_file.template, s("./templates/hello.txt"));
    assert_eq!(patina_file.target, s("./output/hello.txt"));
}

#[test]
fn test_patina_deserialize_name_missing() {
    let patina = r#"
        description = "This is a simple Patina example"

        [vars]
        name = "Patina"

        [[files]]
        template = "./templates/hello.txt"
        target = "./output/hello.txt"
    "#;

    let patina = Patina::from_toml_str(patina, "patina.toml");
    assert!(patina.is_err());
    assert_eq!(patina.unwrap_err().message(), "missing field `name`");
}

#[test]
fn test_patina_deserialize_default_description() {
    let patina = r#"
        name = "simple-patina"

        [vars]
        name = "Patina"

        [[files]]
        template = "./templates/hello.txt"
        target = "./output/hello.txt"
    "#;

    let patina = Patina::from_toml_str(patina, "patina.toml");
    assert!(patina.is_ok());
    let patina = patina.unwrap();

    assert!(patina.description.is_empty());
}

#[test]
fn test_patina_deserialize_default_files() {
    let patina = r#"
        name = "simple-patina"
        description = "This is a simple Patina example"

        [vars]
        name = "Patina"
    "#;

    let patina = Patina::from_toml_str(patina, "patina.toml");
    assert!(patina.is_ok());
    let patina = patina.unwrap();

    assert!(patina.files.is_empty());
}

#[test]
fn test_patina_file_template_missing() {
    let patina = r#"
        name = "simple-patina"
        description = "This is a simple Patina example"

        [vars]
        name = "Patina"

        [[files]]
        target = "./output/hello.txt"
    "#;

    let patina = Patina::from_toml_str(patina, "patina.toml");
    assert!(patina.is_err());
    assert_eq!(patina.unwrap_err().message(), "missing field `template`");
}

#[test]
fn test_patina_file_target_missing() {
    let patina = r#"
        name = "simple-patina"
        description = "This is a simple Patina example"

        [vars]
        name = "Patina"

        [[files]]
        template = "./templates/hello.txt"
    "#;

    let patina = Patina::from_toml_str(patina, "patina.toml");
    assert!(patina.is_err());
    assert_eq!(patina.unwrap_err().message(), "missing field `target`");
}

#[test]
fn test_patina_get_patina_path_in_home_dir() {
    let patina = Patina {
        name: s("test"),
        description: s(""),
        base_path: Some(s("tests")),
        vars: None,
        files: vec![],
    };

    let home_dir = dirs::home_dir().unwrap();
    let home_dir = home_dir.to_str().unwrap();

    let result = patina.get_patina_path("~/.dotpatina/home-dir-test.txt");
    assert_eq!(format!("{}/.dotpatina/home-dir-test.txt", home_dir), result);
}

#[test]
fn test_patina_get_patina_path_absolute_dir() {
    let patina = Patina {
        name: s("test"),
        description: s(""),
        base_path: Some(s("tests")),
        vars: None,
        files: vec![],
    };

    let result = patina.get_patina_path("/tmp/dotpatina/absolute-test.txt");
    assert_eq!(s("/tmp/dotpatina/absolute-test.txt"), result);
}

#[test]
fn test_patina_get_patina_path_combine_parts() {
    let patina = Patina {
        name: s("test"),
        description: s(""),
        base_path: Some(s("tests")),
        vars: None,
        files: vec![],
    };

    let result = patina.get_patina_path("fixtures/test.txt");
    assert_eq!(s("tests/fixtures/test.txt"), result);
}

#[test]
fn test_patina_files_for_tags() {
    let patina = Patina {
        name: s("test"),
        description: s(""),
        base_path: None,
        vars: None,
        files: vec![
            PatinaFile {
                template: s("a.hbs"),
                target: s("a.txt"),
                tags: vec![s("a")],
            },
            PatinaFile {
                template: s("b.hbs"),
                target: s("b.txt"),
                tags: vec![s("b")],
            },
            PatinaFile {
                template: s("ab.hbs"),
                target: s("ab.txt"),
                tags: vec![s("a"), s("b")],
            },
        ],
    };

    let patina_file_a = &patina.files[0];
    let patina_file_b = &patina.files[1];
    let patina_file_ab = &patina.files[2];

    let tags = None;
    let filter_none = patina.files_for_tags(tags);
    assert_eq!(filter_none.len(), 3);

    let tags = Some(vec![s("a")]);
    let filter_a = patina.files_for_tags(tags);
    assert_eq!(filter_a.len(), 2);
    assert_eq!(&filter_a[0], patina_file_a);
    assert_eq!(&filter_a[1], patina_file_ab);

    let tags = Some(vec![s("b")]);
    let filter_b = patina.files_for_tags(tags);
    assert_eq!(filter_b.len(), 2);
    assert_eq!(&filter_b[0], patina_file_b);
    assert_eq!(&filter_b[1], patina_file_ab);

    let tags = Some(vec![s("a"), s("b")]);
    let filter_ab = patina.files_for_tags(tags);
    assert_eq!(filter_ab.len(), 3);
    assert_eq!(&filter_ab[0], patina_file_a);
    assert_eq!(&filter_ab[1], patina_file_b);
    assert_eq!(&filter_ab[2], patina_file_ab);
}

#[test]
fn test_patina_files_for_tags_untagged_excluded_under_filter() {
    // Entries with tags {}, {x}, {y}, {x,y}: filtering on {x} selects
    // exactly the entries whose tag set intersects {x}, in order; the
    // untagged entry is excluded whenever a filter is active.
    let patina = Patina {
        name: s("test"),
        description: s(""),
        base_path: None,
        vars: None,
        files: vec![
            PatinaFile {
                template: s("plain.hbs"),
                target: s("plain.txt"),
                tags: vec![],
            },
            PatinaFile {
                template: s("x.hbs"),
                target: s("x.txt"),
                tags: vec![s("x")],
            },
            PatinaFile {
                template: s("y.hbs"),
                target: s("y.txt"),
                tags: vec![s("y")],
            },
            PatinaFile {
                template: s("xy.hbs"),
                target: s("xy.txt"),
                tags: vec![s("x"), s("y")],
            },
        ],
    };

    let all = patina.files_for_tags(None);
    assert_eq!(all.len(), 4);
    assert_eq!(all[0].template, s("plain.hbs"));

    let filter_x = patina.files_for_tags(Some(vec![s("x")]));
    assert_eq!(filter_x.len(), 2);
    assert_eq!(filter_x[0].template, s("x.hbs"));
    assert_eq!(filter_x[1].template, s("xy.hbs"));
}

#[test]
fn test_load_vars_files() {
    let patina_toml = r#"
        name = "patina-vars"
        description = "This is a patina with variables"

        [vars]
        me.name = "Patina"

        [[files]]
        template = "hello-vars.txt.hbs"
        target = "./output/vars.txt"
    "#;
    let vars_a = r#"
        me.email = "aaa@mail.com"
        a_var = "aaa"
        example_var = "aaa"
    "#;
    let vars_b = r#"
        me.email = "bbb@mail.com"
        b_var = "bbb"
        example_var = "bbb"
    "#;

    let patina = Patina::from_toml_str(patina_toml, "patina-vars.toml");
    assert!(patina.is_ok());
    let mut patina = patina.unwrap();

    let files = vec![s("vars-a.toml"), s("vars-b.toml")];
    let texts = vec![Ok(s(vars_a)), Ok(s(vars_b))];
    let load_vars = patina.load_vars_files(&files, texts);
    assert!(load_vars.is_ok());

    // Keys parse in sorted order; overlays keep existing keys in place and
    // append new ones, so the merged tree reads: me, a_var, example_var,
    // b_var, with the later overlay's values winning.
    let expected = VarValue::Object(vec![
        (
            s("me"),
            VarValue::Object(vec![
                (s("name"), VarValue::Str(s("Patina"))),
                (s("email"), VarValue::Str(s("bbb@mail.com"))),
            ]),
        ),
        (s("a_var"), VarValue::Str(s("aaa"))),
        (s("example_var"), VarValue::Str(s("bbb"))),
        (s("b_var"), VarValue::Str(s("bbb"))),
    ]);
    assert_eq!(patina.vars, Some(expected));
}

#[test]
fn test_load_vars_files_file_does_not_exist() {
    let patina_toml = r#"
        name = "patina-vars"
        description = "This is a patina with variables"

        [vars]
        name = "Patina"

        [[files]]
        template = "hello-vars.txt.hbs"
        target = "./output/vars.txt"
    "#;

    let patina = Patina::from_toml_str(patina_toml, "patina-vars.toml");
    assert!(patina.is_ok());
    let mut patina = patina.unwrap();

    let files = vec![s("this/path/does/not/exist.toml")];
    let texts = vec![Err(s("No such file or directory (os error 2)"))];
    let load_vars = patina.load_vars_files(&files, texts);
    assert!(load_vars.is_err());
    let err = load_vars.unwrap_err();
    assert!(err.is_file_read())
}

#[test]
fn test_load_vars_files_invalid_file_contents() {
    let patina_toml = r#"
        name = "patina-vars"
        description = "This is a patina with variables"

        [vars]
        name = "Patina"

        [[files]]
        template = "hello-vars.txt.hbs"
        target = "./output/vars.txt"
    "#;
    let invalid_vars = r#"
        [[]]1]1[1[1]]1
    "#;

    let patina = Patina::from_toml_str(patina_toml, "patina-vars.toml");
    assert!(patina.is_ok());
    let mut patina = patina.unwrap();

    let files = vec![s("invalid_vars.toml")];
    let texts = vec![Ok(s(invalid_vars))];
    let load_vars = patina.load_vars_files(&files, texts);
    assert!(load_vars.is_err());
    let err = load_vars.unwrap_err();
    assert!(err.is_toml_parse())
}
