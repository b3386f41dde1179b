use dotpatina::engine::{
    apply_decision, is_affirmative, ApplyCmd, ApplyDecision, ApplyEvent, ApplyPhase, ApplyRun,
    CliPatinaInterface, PatinaEngine,
};
use dotpatina::engine::finish_output;

fn s(x: &str) -> String {
    x.to_string()
}

const TEMPLATE_PATINA_TOML: &str = r#"
    name = "template-patina"
    description = "This is a Patina for a test template file"

    [vars]
    name.first = "Patina"
    name.last = "User"

    [[files]]
    template = "template.txt.hbs"
    target = "template.txt"
"#;

const TEMPLATE_HBS: &str = r#"Hello, {{ name.first }} {{ name.last }}!
This is an example Patina template file.
Templates use the Handebars templating language. For more information, see <https://handlebarsjs.com/guide/>.
"#;

const RENDERED: &str = r#"Hello, Patina User!
This is an example Patina template file.
Templates use the Handebars templating language. For more information, see <https://handlebarsjs.com/guide/>.
"#;

#[test]
fn engine_test_render_patina() {
    let engine = PatinaEngine::new("template_patina.toml", vec![], vec![]);
    let patina = engine
        .load_patina(Ok(s(TEMPLATE_PATINA_TOML)), vec![])
        .unwrap();

    let sources = vec![(s("template.txt.hbs"), Ok(s(TEMPLATE_HBS)))];
    let render = engine.render_patina(&patina, sources);

    assert!(render.is_ok());
    let (renders, output) = render.unwrap();
    assert_eq!(renders.len(), 1);

    assert_eq!(
        output,
        r#"Rendered 1 files

template.txt.hbs
Hello, Patina User!
This is an example Patina template file.
Templates use the Handebars templating language. For more information, see <https://handlebarsjs.com/guide/>.

"#
    );
}

#[test]
fn test_render_patina_failed_file_load() {
    let engine = PatinaEngine::new("this/path/does/not/exist.toml", vec![], vec![]);
    let load = engine.load_patina(
        Err(s("No such file or directory (os error 2)")),
        vec![],
    );
    assert!(load.is_err());
    assert!(load.unwrap_err().is_file_read());
}

#[test]
fn test_render_patina_render_fails() {
    let missing_template_patina = r#"
        name = "missing-template-patina"
        description = "This is a Patina that references a template file that does not exist"

        [vars]
        name = "Patina"

        [[files]]
        template = "this/template/does/not/exist.txt"
        target = "./output.txt"
    "#;
    let engine = PatinaEngine::new("missing_template_patina.toml", vec![], vec![]);
    let patina = engine
        .load_patina(Ok(s(missing_template_patina)), vec![])
        .unwrap();

    let sources = vec![(
        s("this/template/does/not/exist.txt"),
        Err(s("No such file or directory (os error 2)")),
    )];
    let render = engine.render_patina(&patina, sources);
    assert!(render.is_err());
    assert!(render.unwrap_err().is_file_read());
}

#[test]
fn test_apply_patina() {
    // An apply run end to end: no existing target, so the diff is
    // all-insert, confirmation is affirmative, and the rendered content is
    // written verbatim.
    let engine = PatinaEngine::new("template_patina.toml", vec![], vec![]);
    let patina = engine
        .load_patina(Ok(s(TEMPLATE_PATINA_TOML)), vec![])
        .unwrap();
    let sources = vec![(s("template.txt.hbs"), Ok(s(TEMPLATE_HBS)))];
    let (mut renders, _) = engine.render_patina(&patina, sources).unwrap();

    let target_paths = vec![patina.get_patina_path("template.txt")];
    let target_texts: Vec<Option<String>> = vec![None];
    let (any_changes, display) =
        engine.generate_and_display_diffs(&mut renders, &target_paths, &target_texts);
    assert!(any_changes);
    assert_eq!(renders[0].any_changes, Some(true));

    let pi = CliPatinaInterface::new();
    let confirmed = is_affirmative("y\n");
    assert!(confirmed);
    let (decision, message) = apply_decision(any_changes, &pi, Some(confirmed));
    assert_eq!(decision, ApplyDecision::Proceed);

    let mut all_output = display;
    all_output.push_str(&message);

    assert!(all_output.contains(
        r#"+   1 | Hello, Patina User!
+   2 | This is an example Patina template file.
+   3 | Templates use the Handebars templating language. For more information, see <https://handlebarsjs.com/guide/>.


Applying patina files"#
    ));

    let mut run = ApplyRun::new(renders, &target_paths, false);
    let (cmd, _out) = run.next(ApplyEvent::Begin);
    match cmd {
        ApplyCmd::WriteTarget { path, content } => {
            assert_eq!(path, "template.txt");
            assert_eq!(content, RENDERED);
        },
        _ => panic!("expected a write"),
    }
    let (cmd, out) = run.next(ApplyEvent::Wrote(None));
    assert!(out.contains("\u{2713}"));
    match cmd {
        ApplyCmd::Done { num_trashed } => assert_eq!(num_trashed, 0),
        _ => panic!("expected the run to finish"),
    }
    assert_eq!(finish_output(0), "Done\n");
}

#[test]
fn test_apply_patina_abort_without_user_confirmation() {
    let engine = PatinaEngine::new("template_patina.toml", vec![], vec![]);
    let patina = engine
        .load_patina(Ok(s(TEMPLATE_PATINA_TOML)), vec![])
        .unwrap();
    let sources = vec![(s("template.txt.hbs"), Ok(s(TEMPLATE_HBS)))];
    let (mut renders, _) = engine.render_patina(&patina, sources).unwrap();

    let target_paths = vec![patina.get_patina_path("template.txt")];
    let target_texts: Vec<Option<String>> = vec![None];
    let (any_changes, _) =
        engine.generate_and_display_diffs(&mut renders, &target_paths, &target_texts);

    let pi = CliPatinaInterface::new();
    let (decision, message) = apply_decision(any_changes, &pi, Some(false));
    assert_eq!(decision, ApplyDecision::Declined);
    assert!(message.contains("Not applying patina."));
}

#[test]
fn test_apply_patina_does_nothing_if_there_are_no_changes() {
    let no_files_patina = r#"
        name = "no files"
        description = "this patina has no files"
    "#;
    let engine = PatinaEngine::new("no_files_patina.toml", vec![], vec![]);
    let patina = engine.load_patina(Ok(s(no_files_patina)), vec![]).unwrap();
    let (mut renders, _) = engine.render_patina(&patina, vec![]).unwrap();

    let target_paths: Vec<String> = vec![];
    let target_texts: Vec<Option<String>> = vec![];
    let (any_changes, _) =
        engine.generate_and_display_diffs(&mut renders, &target_paths, &target_texts);
    assert!(!any_changes);

    let pi = CliPatinaInterface::new();
    let (decision, message) = apply_decision(any_changes, &pi, None);
    assert_eq!(decision, ApplyDecision::NoChanges);
    assert!(message.contains("No file changes detected in the patina"));
}

#[test]
fn test_apply_identical_target_reports_no_changes() {
    // Rendered content byte-identical to the existing target: no changes,
    // no confirmation, nothing to write.
    let engine = PatinaEngine::new("template_patina.toml", vec![], vec![]);
    let patina = engine
        .load_patina(Ok(s(TEMPLATE_PATINA_TOML)), vec![])
        .unwrap();
    let sources = vec![(s("template.txt.hbs"), Ok(s(TEMPLATE_HBS)))];
    let (mut renders, _) = engine.render_patina(&patina, sources).unwrap();

    let target_paths = vec![s("template.txt")];
    let target_texts = vec![Some(s(RENDERED))];
    let (any_changes, display) =
        engine.generate_and_display_diffs(&mut renders, &target_paths, &target_texts);
    assert!(!any_changes);
    assert_eq!(renders[0].any_changes, Some(false));
    assert!(display.contains("Files without changes:"));
    assert!(display.contains("3 lines, no changes detected"));

    let pi = CliPatinaInterface::new();
    let (decision, _) = apply_decision(any_changes, &pi, None);
    assert_eq!(decision, ApplyDecision::NoChanges);
}

#[test]
fn test_apply_with_backup_trashes_before_write() {
    // Backup enabled, an existing differing target, affirmative answer:
    // the original is moved to the trash strictly before the write, and
    // one trashed file is reported.
    let engine = PatinaEngine::new("template_patina.toml", vec![], vec![]);
    let patina = engine
        .load_patina(Ok(s(TEMPLATE_PATINA_TOML)), vec![])
        .unwrap();
    let sources = vec![(s("template.txt.hbs"), Ok(s(TEMPLATE_HBS)))];
    let (mut renders, _) = engine.render_patina(&patina, sources).unwrap();

    let target_paths = vec![s("template.txt")];
    let target_texts = vec![Some(s("something older\n"))];
    let (any_changes, _) =
        engine.generate_and_display_diffs(&mut renders, &target_paths, &target_texts);
    assert!(any_changes);

    let pi = CliPatinaInterface::new();
    let (decision, _) = apply_decision(any_changes, &pi, Some(is_affirmative("Y\n")));
    assert_eq!(decision, ApplyDecision::Proceed);

    let mut run = ApplyRun::new(renders, &target_paths, true);
    let (cmd, _) = run.next(ApplyEvent::Begin);
    assert!(matches!(cmd, ApplyCmd::CheckTarget { .. }));
    let (cmd, _) = run.next(ApplyEvent::TargetIsFile(true));
    match cmd {
        ApplyCmd::TrashTarget { path } => assert_eq!(path, "template.txt"),
        _ => panic!("expected the original to be trashed before the write"),
    }
    let (cmd, _) = run.next(ApplyEvent::Trashed(None));
    match cmd {
        ApplyCmd::WriteTarget { path, content } => {
            assert_eq!(path, "template.txt");
            assert_eq!(content, RENDERED);
        },
        _ => panic!("expected the write after the trash"),
    }
    let (cmd, _) = run.next(ApplyEvent::Wrote(None));
    match cmd {
        ApplyCmd::Done { num_trashed } => assert_eq!(num_trashed, 1),
        _ => panic!("expected the run to finish"),
    }
    assert_eq!(
        finish_output(1),
        "Done (original files moved to trash)\n"
    );
}

#[test]
fn test_apply_unchanged_file_is_skipped() {
    let engine = PatinaEngine::new("template_patina.toml", vec![], vec![]);
    let patina = engine
        .load_patina(Ok(s(TEMPLATE_PATINA_TOML)), vec![])
        .unwrap();
    let sources = vec![(s("template.txt.hbs"), Ok(s(TEMPLATE_HBS)))];
    let (mut renders, _) = engine.render_patina(&patina, sources).unwrap();

    let target_paths = vec![s("template.txt")];
    let target_texts = vec![Some(s(RENDERED))];
    engine.generate_and_display_diffs(&mut renders, &target_paths, &target_texts);

    let mut run = ApplyRun::new(renders, &target_paths, true);
    let (cmd, out) = run.next(ApplyEvent::Begin);
    assert!(out.contains("(no change)"));
    match cmd {
        ApplyCmd::Done { num_trashed } => assert_eq!(num_trashed, 0),
        _ => panic!("an unchanged file must not be written or trashed"),
    }
    assert_eq!(run.phase, ApplyPhase::Finished);
}

#[test]
fn test_apply_trash_failure_aborts_run() {
    let engine = PatinaEngine::new("template_patina.toml", vec![], vec![]);
    let patina = engine
        .load_patina(Ok(s(TEMPLATE_PATINA_TOML)), vec![])
        .unwrap();
    let sources = vec![(s("template.txt.hbs"), Ok(s(TEMPLATE_HBS)))];
    let (mut renders, _) = engine.render_patina(&patina, sources).unwrap();

    let target_paths = vec![s("template.txt")];
    let target_texts = vec![Some(s("older\n"))];
    engine.generate_and_display_diffs(&mut renders, &target_paths, &target_texts);

    let mut run = ApplyRun::new(renders, &target_paths, true);
    let (_, _) = run.next(ApplyEvent::Begin);
    let (_, _) = run.next(ApplyEvent::TargetIsFile(true));
    let (cmd, _) = run.next(ApplyEvent::Trashed(Some(s("trash unavailable"))));
    match cmd {
        ApplyCmd::Failed { error } => {
            assert_eq!(error.message(), "trash unavailable");
        },
        _ => panic!("a trash failure must abort the run"),
    }
    assert_eq!(run.phase, ApplyPhase::Finished);
}

#[test]
fn test_apply_write_failure_aborts_run() {
    let engine = PatinaEngine::new("template_patina.toml", vec![], vec![]);
    let patina = engine
        .load_patina(Ok(s(TEMPLATE_PATINA_TOML)), vec![])
        .unwrap();
    let sources = vec![(s("template.txt.hbs"), Ok(s(TEMPLATE_HBS)))];
    let (mut renders, _) = engine.render_patina(&patina, sources).unwrap();

    let target_paths = vec![s("template.txt")];
    let target_texts = vec![None];
    engine.generate_and_display_diffs(&mut renders, &target_paths, &target_texts);

    let mut run = ApplyRun::new(renders, &target_paths, false);
    let (_, _) = run.next(ApplyEvent::Begin);
    let (cmd, _) = run.next(ApplyEvent::Wrote(Some(s("Permission denied (os error 13)"))));
    match cmd {
        ApplyCmd::Failed { error } => {
            assert!(error.message().contains("Permission denied"));
            assert!(error.message().contains("template.txt"));
        },
        _ => panic!("a write failure must abort the run"),
    }
    assert_eq!(run.phase, ApplyPhase::Finished);
}

#[test]
fn test_declining_confirmation_makes_no_run() {
    // A negative or empty response declines; the decision step yields
    // Declined and no apply run is started, so the target is untouched.
    assert!(!is_affirmative("n\n"));
    assert!(!is_affirmative(""));
    assert!(!is_affirmative("\n"));
    assert!(!is_affirmative("yes\n"));
    assert!(is_affirmative("y"));
    assert!(is_affirmative("Y"));
    assert!(is_affirmative("  y  \n"));

    let pi = CliPatinaInterface::new();
    let (decision, message) = apply_decision(true, &pi, Some(is_affirmative("n\n")));
    assert_eq!(decision, ApplyDecision::Declined);
    assert_eq!(message, "Not applying patina.");
}

#[test]
fn test_input_disabled_skips_confirmation() {
    let mut pi = CliPatinaInterface::new();
    assert!(pi.is_input_enabled());
    pi.set_is_input_enabled(false);
    assert!(!pi.is_input_enabled());

    let (decision, _) = apply_decision(true, &pi, None);
    assert_eq!(decision, ApplyDecision::Proceed);
}

#[test]
fn test_render_hello_template() {
    // A Patina with one file whose template greets by first and last name
    // renders to exactly the greeting.
    let patina_toml = r#"
        name = "hello"

        [vars]
        name.first = "Patina"
        name.last = "User"

        [[files]]
        template = "hello.hbs"
        target = "hello.txt"
    "#;
    let engine = PatinaEngine::new("hello_patina.toml", vec![], vec![]);
    let patina = engine.load_patina(Ok(s(patina_toml)), vec![]).unwrap();
    let sources = vec![(
        s("hello.hbs"),
        Ok(s("Hello, {{name.first}} {{name.last}}!")),
    )];
    let (renders, _) = engine.render_patina(&patina, sources).unwrap();
    assert_eq!(renders[0].render_str, "Hello, Patina User!");
}
