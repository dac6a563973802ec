//! The project model: loading, defaults, derived paths, makefile output.

use latexbuild::generate::MakeDependency;
use latexbuild::paths::{with_extension, with_prepend};
use latexbuild::ConfigField;
use latexbuild::ConfigIncludes;
use latexbuild::Error;
use latexbuild::Includes;
use latexbuild::Makefile;
use latexbuild::Project;
use latexbuild::ProjectConfig;
use latexbuild::StdErrLogger;

fn object() -> ProjectConfig {
    ProjectConfig {
        is_object: true,
        latex: ConfigField::Absent,
        bin: ConfigField::Absent,
        entry: ConfigField::Absent,
        includes: ConfigIncludes::Absent,
    }
}

fn text(s: &str) -> ConfigField {
    ConfigField::Text(s.to_string())
}

fn wrong_message(r: Result<Project, Error>) -> String {
    match r {
        Err(Error::WrongConfigFormat(m)) => m,
        _ => panic!("expected WrongConfigFormat"),
    }
}

#[test]
fn default_project_values() {
    let p = Project::new();
    assert_eq!(p.latex().as_str(), "pdflatex");
    assert_eq!(p.bin().as_str(), "bin");
    assert_eq!(p.pdf().as_str(), "bin/index.pdf");
    assert_eq!(p.aux().as_str(), "bin/index.aux");
    assert_eq!(p.entry().as_str(), "index.tex");
    assert_eq!(p.files(), &vec!["index.tex".to_string()]);
}

#[test]
fn config_fills_every_field() {
    let cfg = ProjectConfig {
        is_object: true,
        latex: text("xelatex"),
        bin: text("out"),
        entry: text("main.tex"),
        includes: ConfigIncludes::Items(vec![text("chapters"), text("extra.tex")]),
    };
    let p = Project::from_config(&cfg).unwrap();
    assert_eq!(p.latex().as_str(), "xelatex");
    assert_eq!(p.bin().as_str(), "out");
    assert_eq!(p.entry().as_str(), "main.tex");
    assert_eq!(p.pdf().as_str(), "out/main.pdf");
    assert_eq!(p.aux().as_str(), "out/main.aux");
    assert_eq!(
        p.files(),
        &vec!["chapters".to_string(), "extra.tex".to_string(), "main.tex".to_string()]
    );
}

#[test]
fn config_defaults_match_the_default_project() {
    let p = Project::from_config(&object()).unwrap();
    assert_eq!(p.latex().as_str(), "pdflatex");
    assert_eq!(p.bin().as_str(), "bin");
    assert_eq!(p.entry().as_str(), "index.tex");
    assert_eq!(p.pdf().as_str(), "bin/index.pdf");
    assert_eq!(p.aux().as_str(), "bin/index.aux");
    assert_eq!(p.files(), &vec!["index.tex".to_string()]);
}

#[test]
fn config_rejects_non_object() {
    let mut cfg = object();
    cfg.is_object = false;
    assert_eq!(wrong_message(Project::from_config(&cfg)), "expecting object");
}

#[test]
fn config_rejects_non_string_latex() {
    let mut cfg = object();
    cfg.latex = ConfigField::Wrong;
    assert_eq!(wrong_message(Project::from_config(&cfg)), "\"latex\" should be a string");
}

#[test]
fn config_rejects_non_string_bin() {
    let mut cfg = object();
    cfg.bin = ConfigField::Wrong;
    assert_eq!(wrong_message(Project::from_config(&cfg)), "\"bin\" should be a string");
}

#[test]
fn config_rejects_non_string_entry() {
    let mut cfg = object();
    cfg.entry = ConfigField::Wrong;
    assert_eq!(wrong_message(Project::from_config(&cfg)), "\"entry\" should be a string");
}

#[test]
fn config_rejects_non_array_includes() {
    let mut cfg = object();
    cfg.includes = ConfigIncludes::Wrong;
    assert_eq!(wrong_message(Project::from_config(&cfg)), "\"includes\" should be an array");
}

#[test]
fn config_rejects_non_string_include_item() {
    let mut cfg = object();
    cfg.includes = ConfigIncludes::Items(vec![text("ok.tex"), ConfigField::Wrong]);
    assert_eq!(wrong_message(Project::from_config(&cfg)), "items in \"includes\" strings");
}

#[test]
fn config_error_precedence_is_top_down() {
    let cfg = ProjectConfig {
        is_object: true,
        latex: ConfigField::Wrong,
        bin: ConfigField::Wrong,
        entry: ConfigField::Wrong,
        includes: ConfigIncludes::Wrong,
    };
    assert_eq!(wrong_message(Project::from_config(&cfg)), "\"latex\" should be a string");
}

#[test]
fn root_path_prefixes_every_relative_path() {
    let mut p = Project::new();
    p.use_root_path(&"proj".to_string());
    assert_eq!(p.bin().as_str(), "proj/bin");
    assert_eq!(p.entry().as_str(), "proj/index.tex");
    assert_eq!(p.pdf().as_str(), "proj/bin/index.pdf");
    assert_eq!(p.aux().as_str(), "proj/bin/index.aux");
    assert_eq!(p.files(), &vec!["proj/index.tex".to_string()]);
    assert_eq!(p.latex().as_str(), "pdflatex");
}

#[test]
fn root_path_leaves_absolute_paths_alone() {
    let mut cfg = object();
    cfg.entry = text("/abs/main.tex");
    let mut p = Project::from_config(&cfg).unwrap();
    p.use_root_path(&"proj".to_string());
    assert_eq!(p.entry().as_str(), "/abs/main.tex");
    assert_eq!(p.bin().as_str(), "proj/bin");
}

#[test]
fn joining_adds_exactly_one_separator() {
    assert_eq!(with_prepend(&"a.tex".to_string(), &"dir".to_string()), "dir/a.tex");
    assert_eq!(with_prepend(&"a.tex".to_string(), &"dir/".to_string()), "dir/a.tex");
    assert_eq!(with_prepend(&"a.tex".to_string(), &"".to_string()), "a.tex");
    assert_eq!(with_prepend(&"/abs/a.tex".to_string(), &"dir".to_string()), "/abs/a.tex");
}

#[test]
fn extension_swaps_only_the_file_name_suffix() {
    assert_eq!(with_extension(&"bin/index.tex".to_string(), "pdf"), "bin/index.pdf");
    assert_eq!(with_extension(&"noext".to_string(), "pdf"), "noext.pdf");
    assert_eq!(with_extension(&"a.b.c".to_string(), "pdf"), "a.b.pdf");
    assert_eq!(with_extension(&".profile".to_string(), "pdf"), ".profile.pdf");
    assert_eq!(with_extension(&"dir.d/name".to_string(), "pdf"), "dir.d/name.pdf");
}

#[test]
fn makefile_holds_both_conventional_targets() {
    let cfg = ProjectConfig {
        is_object: true,
        latex: ConfigField::Absent,
        bin: ConfigField::Absent,
        entry: ConfigField::Absent,
        includes: ConfigIncludes::Items(vec![text("a.tex")]),
    };
    let p = Project::from_config(&cfg).unwrap();
    let m = p.to_make().unwrap();
    assert_eq!(m.targets.len(), 2);
    assert_eq!(m.targets[0].target, "bin/index.pdf");
    assert_eq!(m.targets[0].command, "pdflatex -output-directory=bin index.tex");
    assert_eq!(m.targets[0].dependencies.len(), 3);
    assert!(matches!(&m.targets[0].dependencies[0], MakeDependency::Regular(s) if s == "a.tex"));
    assert!(
        matches!(&m.targets[0].dependencies[1], MakeDependency::Regular(s) if s == "index.tex")
    );
    assert!(matches!(&m.targets[0].dependencies[2], MakeDependency::OrderOnly(s) if s == "bin"));
    assert_eq!(m.targets[1].target, "bin");
    assert_eq!(m.targets[1].command, "mkdir bin");
    assert!(m.targets[1].dependencies.is_empty());
}

#[test]
fn makefile_renders_exactly() {
    let cfg = ProjectConfig {
        is_object: true,
        latex: ConfigField::Absent,
        bin: ConfigField::Absent,
        entry: ConfigField::Absent,
        includes: ConfigIncludes::Items(vec![text("a.tex")]),
    };
    let p = Project::from_config(&cfg).unwrap();
    let m = p.to_make().unwrap();
    let expected = "bin/index.pdf: a.tex index.tex | bin\n\
                    \tpdflatex -output-directory=bin index.tex\n\
                    bin: \n\
                    \tmkdir bin\n";
    assert_eq!(m.render(), expected);
}

#[test]
fn empty_makefile_renders_to_nothing() {
    let m = Makefile::new();
    assert_eq!(m.render(), "");
}

#[test]
fn error_messages() {
    assert_eq!(Error::PathNotFound("a.tex".to_string()).message(), "a.tex not found");
    assert_eq!(Error::IO.message(), "io error");
    assert_eq!(Error::WrongConfigFormat("oops".to_string()).message(), "oops");
    assert_eq!(Error::NoEntry.message(), "no entry specified");
    assert_eq!(Error::Encoding.message(), "encoding error");
}

#[test]
fn includes_checker_always_requests_a_build() {
    let mut inc = Includes::new(vec!["chapters".to_string()]);
    assert!(!inc.has_traversed);
    assert!(inc.needs_build());
    assert!(inc.has_traversed);
    assert!(inc.needs_build());
}

#[test]
fn stderr_logger_handle_exists() {
    let _ = StdErrLogger::new();
}
