use pgx_new::{
    create_cargo_toml, create_control_file, create_crate_template, create_directory_structure,
    create_dotcargo_config, create_git_ignore, create_lib_rs, render, validate_extension_name, New,
    NameError, Runner, ScaffoldStep, TemplateVariant, Templates,
};

fn templates() -> Templates {
    Templates {
        control: b"comment = '{name}: Created by pgx'\nmodule_pathname = '$libdir/{name}'\n".to_vec(),
        cargo_toml: b"[package]\nname = \"{name}\"\n[features]\ndefault = [\"pg13\"]\n".to_vec(),
        cargo_config: b"[build]\n# {name} stays as it is\nrustflags = [\"-C\", \"link-arg=-undefined\"]\n"
            .to_vec(),
        lib_rs: b"pg_module_magic!();\n#[pg_extern]\nfn hello_{name}() -> &'static str {{ \"Hello, {name}\" }}\n"
            .to_vec(),
        bgworker_lib_rs: b"#[pg_guard]\npub extern \"C\" fn _PG_init() {{ BackgroundWorkerBuilder::new(\"{name}\").load(); }}\n"
            .to_vec(),
        gitignore: b".DS_Store\n.idea/\n/target\n*.iml\n**/*.rs.bk\nCargo.lock\n".to_vec(),
    }
}

fn file(path: &str, contents: &[u8]) -> ScaffoldStep {
    ScaffoldStep::WriteFile { path: path.to_string(), contents: contents.to_vec() }
}

fn dir(path: &str) -> ScaffoldStep {
    ScaffoldStep::CreateDir { path: path.to_string() }
}

fn contents(step: &ScaffoldStep) -> Vec<u8> {
    match step {
        ScaffoldStep::WriteFile { contents, .. } => contents.clone(),
        ScaffoldStep::CreateDir { .. } => panic!("not a file"),
    }
}

#[test]
fn accepts_lowercase_digits_and_underscore() {
    for name in ["my_ext", "abc", "ext123", "_", "a_1_b", "0", ""] {
        assert_eq!(validate_extension_name(name), Ok(()), "{name}");
    }
}

#[test]
fn rejects_uppercase_space_and_punctuation() {
    for name in ["My_ext", "myExt", "MY", "my ext", "my-ext", "ext!", "a.b", "é", "tab\t"] {
        assert_eq!(validate_extension_name(name), Err(NameError), "{name}");
    }
}

#[test]
fn name_error_message_names_the_set() {
    assert_eq!(NameError.message(), "Extension name must be in the set of [a-z0-9_]");
}

#[test]
fn render_substitutes_every_placeholder() {
    assert_eq!(render(b"x {name} y {name}", b"my_ext"), b"x my_ext y my_ext".to_vec());
}

#[test]
fn render_unescapes_double_braces() {
    assert_eq!(render(b"fn f() {{ {name} }}", b"ab"), b"fn f() { ab }".to_vec());
    assert_eq!(render(b"{{name}}", b"ab"), b"{name}".to_vec());
}

#[test]
fn render_keeps_text_without_placeholder() {
    assert_eq!(render(b"plain text", b"my_ext"), b"plain text".to_vec());
    assert_eq!(render(b"{nam }", b"zz"), b"{nam }".to_vec());
    assert_eq!(render(b"", b"zz"), Vec::<u8>::new());
}

#[test]
fn render_with_empty_name() {
    assert_eq!(render(b"a{name}b", b""), b"ab".to_vec());
}

#[test]
fn directory_structure_is_src_cargo_sql() {
    assert_eq!(create_directory_structure(), vec![dir("src"), dir(".cargo"), dir("sql")]);
}

#[test]
fn full_tree_for_my_ext() {
    let t = templates();
    let steps = create_crate_template("my_ext", false, &t);
    assert_eq!(
        steps,
        vec![
            dir("src"),
            dir(".cargo"),
            dir("sql"),
            file(
                "my_ext.control",
                b"comment = 'my_ext: Created by pgx'\nmodule_pathname = '$libdir/my_ext'\n"
            ),
            file("Cargo.toml", b"[package]\nname = \"my_ext\"\n[features]\ndefault = [\"pg13\"]\n"),
            file(".cargo/config", &t.cargo_config),
            file(
                "src/lib.rs",
                b"pg_module_magic!();\n#[pg_extern]\nfn hello_my_ext() -> &'static str { \"Hello, my_ext\" }\n"
            ),
            file(".gitignore", &t.gitignore),
        ]
    );
}

#[test]
fn single_file_steps() {
    let t = templates();
    assert_eq!(
        create_control_file("ab", &t),
        file("ab.control", b"comment = 'ab: Created by pgx'\nmodule_pathname = '$libdir/ab'\n")
    );
    assert_eq!(
        create_cargo_toml("ab", &t),
        file("Cargo.toml", b"[package]\nname = \"ab\"\n[features]\ndefault = [\"pg13\"]\n")
    );
    assert_eq!(create_dotcargo_config("ab", &t), file(".cargo/config", &t.cargo_config));
    assert_eq!(create_git_ignore("ab", &t), file(".gitignore", &t.gitignore));
    assert_eq!(
        create_lib_rs("ab", TemplateVariant::Worker, &t),
        file(
            "src/lib.rs",
            b"#[pg_guard]\npub extern \"C\" fn _PG_init() { BackgroundWorkerBuilder::new(\"ab\").load(); }\n"
        )
    );
}

#[test]
fn substituted_files_hold_the_name_only_at_placeholders() {
    let t = templates();
    let steps = create_crate_template("my_ext", false, &t);
    let control = String::from_utf8(contents(&steps[3])).unwrap();
    let manifest = String::from_utf8(contents(&steps[4])).unwrap();
    let entry = String::from_utf8(contents(&steps[6])).unwrap();
    assert_eq!(control.matches("my_ext").count(), 2);
    assert_eq!(manifest.matches("my_ext").count(), 1);
    assert_eq!(entry.matches("my_ext").count(), 2);
    assert!(!control.contains("{name}") && !manifest.contains("{name}") && !entry.contains("{name}"));
}

#[test]
fn variants_differ_only_in_entry_point() {
    let t = templates();
    let standard = create_crate_template("my_ext", false, &t);
    let worker = create_crate_template("my_ext", true, &t);
    assert_eq!(standard.len(), 8);
    assert_eq!(worker.len(), 8);
    for i in 0..8 {
        if i == 6 {
            assert_ne!(standard[i], worker[i]);
        } else {
            assert_eq!(standard[i], worker[i]);
        }
    }
}

#[test]
fn variant_from_flag() {
    assert_eq!(TemplateVariant::from_flag(true), TemplateVariant::Worker);
    assert_eq!(TemplateVariant::from_flag(false), TemplateVariant::Standard);
}

#[test]
fn verbatim_files_do_not_depend_on_name() {
    let t = templates();
    let a = create_crate_template("first", false, &t);
    let b = create_crate_template("second_2", true, &t);
    assert_eq!(contents(&a[5]), t.cargo_config);
    assert_eq!(contents(&a[7]), t.gitignore);
    assert_eq!(a[5], b[5]);
    assert_eq!(a[7], b[7]);
}

#[test]
fn failed_directory_step_stops_before_any_file() {
    let mut r = Runner::new(8);
    assert_eq!(r.next_step(), Some(0));
    r.record(false);
    assert_eq!(r.next_step(), None);
    assert_eq!(r.failed_step(), Some(0));
    assert!(!r.is_complete());
}

#[test]
fn failure_in_middle_stops_there() {
    let mut r = Runner::new(8);
    for i in 0..4 {
        assert_eq!(r.next_step(), Some(i));
        r.record(true);
    }
    assert_eq!(r.next_step(), Some(4));
    r.record(false);
    assert_eq!(r.next_step(), None);
    assert_eq!(r.failed_step(), Some(4));
}

#[test]
fn all_steps_succeed() {
    let mut r = Runner::new(8);
    let mut seen = Vec::new();
    while let Some(i) = r.next_step() {
        seen.push(i);
        r.record(true);
    }
    assert_eq!(seen, (0..8).collect::<Vec<usize>>());
    assert!(r.is_complete());
    assert_eq!(r.failed_step(), None);
}

#[test]
fn empty_plan_is_complete_at_once() {
    let r = Runner::new(0);
    assert_eq!(r.next_step(), None);
    assert!(r.is_complete());
}

#[test]
fn regenerating_gives_identical_steps() {
    let t = templates();
    assert_eq!(create_crate_template("my_ext", true, &t), create_crate_template("my_ext", true, &t));
}

#[test]
fn execute_validates_before_planning() {
    let t = templates();
    let bad = New { name: "My-Ext".to_string(), bgworker: false, verbose: 0 };
    assert_eq!(bad.execute(&t).unwrap_err(), NameError);
    let good = New { name: "my_ext".to_string(), bgworker: true, verbose: 1 };
    assert_eq!(good.execute(&t).unwrap(), create_crate_template("my_ext", true, &t));
}
