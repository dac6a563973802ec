//! The decision engine end to end: resolution, staleness, convergence.

use latexbuild::build_check::{NeedsBuildChecker, Phase};
use latexbuild::can_build;
use latexbuild::is_stale;
use latexbuild::needs_rebuild;
use latexbuild::resolve_includes;
use latexbuild::Error;
use latexbuild::Node;
use latexbuild::Snapshot;

fn file(path: &str, modified: Option<u64>) -> Node {
    Node::File { path: path.to_string(), modified }
}

fn dir(path: &str, children: Vec<usize>) -> Node {
    Node::Dir { path: path.to_string(), children }
}

fn sorted(r: Vec<usize>) -> Vec<usize> {
    let mut v = r;
    v.sort();
    v
}

#[test]
fn resolve_keeps_declared_files() {
    let fs = Snapshot {
        nodes: vec![file("a.tex", Some(1)), file("b.tex", Some(2))],
    };
    let r = resolve_includes(&fs, &vec![0, 1]).unwrap();
    assert_eq!(sorted(r), vec![0, 1]);
}

#[test]
fn resolve_expands_directories() {
    // includes = ["chapters/"] holding chapters/a.tex and chapters/sub/b.tex,
    // plus the entry file: exactly the three leaf files come back.
    let fs = Snapshot {
        nodes: vec![
            file("entry.tex", Some(1)),
            dir("chapters", vec![2, 3]),
            file("chapters/a.tex", Some(1)),
            dir("chapters/sub", vec![4]),
            file("chapters/sub/b.tex", Some(1)),
        ],
    };
    let r = resolve_includes(&fs, &vec![1, 0]).unwrap();
    assert_eq!(sorted(r), vec![0, 2, 4]);
}

#[test]
fn resolve_returns_each_file_once() {
    // a.tex is declared directly and also reachable through its directory
    let fs = Snapshot {
        nodes: vec![dir("chapters", vec![1, 2]), file("chapters/a.tex", Some(1)), file(
            "chapters/b.tex",
            Some(1),
        )],
    };
    let r = resolve_includes(&fs, &vec![1, 0, 0]).unwrap();
    assert_eq!(sorted(r), vec![1, 2]);
}

#[test]
fn resolve_reports_first_missing_path() {
    let fs = Snapshot {
        nodes: vec![
            file("a.tex", Some(1)),
            Node::Missing { path: "ghost.tex".to_string() },
            Node::Missing { path: "phantom.tex".to_string() },
        ],
    };
    match resolve_includes(&fs, &vec![0, 1, 2]) {
        Err(Error::PathNotFound(p)) => assert_eq!(p, "ghost.tex"),
        _ => panic!("expected PathNotFound"),
    }
}

#[test]
fn resolve_fails_on_unlistable_directory() {
    let fs = Snapshot {
        nodes: vec![dir("top", vec![1]), Node::UnreadableDir { path: "top/locked".to_string() }],
    };
    assert!(matches!(resolve_includes(&fs, &vec![0]), Err(Error::IO)));
}

#[test]
fn stale_when_dependency_newer() {
    let fs = Snapshot { nodes: vec![file("a.tex", Some(100))] };
    assert_eq!(is_stale(&fs, 99, &vec![0]).unwrap(), true);
}

#[test]
fn tie_break_equal_is_not_stale() {
    // a dependency modified at exactly the artifact's instant does not
    // force a rebuild ...
    let fs = Snapshot { nodes: vec![file("a.tex", Some(100))] };
    assert_eq!(is_stale(&fs, 100, &vec![0]).unwrap(), false);
}

#[test]
fn tie_break_one_tick_newer_is_stale() {
    // ... and one a single nanosecond later does.
    let fs = Snapshot { nodes: vec![file("a.tex", Some(101))] };
    assert_eq!(is_stale(&fs, 100, &vec![0]).unwrap(), true);
}

#[test]
fn stale_recurses_into_directories() {
    let fs = Snapshot {
        nodes: vec![dir("inc", vec![1, 2]), file("inc/old.tex", Some(5)), dir("inc/sub", vec![3]),
            file("inc/sub/new.tex", Some(50))],
    };
    assert_eq!(is_stale(&fs, 10, &vec![0]).unwrap(), true);
    assert_eq!(is_stale(&fs, 50, &vec![0]).unwrap(), false);
}

#[test]
fn stale_is_idempotent() {
    // with no modification time changed, asking twice gives the same answer
    let fs = Snapshot {
        nodes: vec![dir("inc", vec![1]), file("inc/a.tex", Some(7)), file("b.tex", Some(3))],
    };
    let first = is_stale(&fs, 5, &vec![0, 2]).unwrap();
    let second = is_stale(&fs, 5, &vec![0, 2]).unwrap();
    assert_eq!(first, second);
    assert_eq!(first, true);
}

#[test]
fn stale_fails_on_unreadable_metadata() {
    let fs = Snapshot { nodes: vec![file("a.tex", None)] };
    assert!(matches!(is_stale(&fs, 5, &vec![0]), Err(Error::IO)));
}

#[test]
fn stale_fails_on_missing_dependency() {
    let fs = Snapshot { nodes: vec![Node::Missing { path: "gone.tex".to_string() }] };
    match is_stale(&fs, 5, &vec![0]) {
        Err(Error::PathNotFound(p)) => assert_eq!(p, "gone.tex"),
        _ => panic!("expected PathNotFound"),
    }
}

#[test]
fn rebuild_needed_when_artifact_missing() {
    let fs = Snapshot {
        nodes: vec![file("index.tex", Some(1)), Node::Missing {
            path: "bin/index.pdf".to_string(),
        }],
    };
    assert_eq!(needs_rebuild(&fs, 1, &vec![0]).unwrap(), true);
}

#[test]
fn rebuild_compares_against_artifact_time() {
    let fs = Snapshot {
        nodes: vec![file("index.tex", Some(10)), file("bin/index.pdf", Some(20))],
    };
    assert_eq!(needs_rebuild(&fs, 1, &vec![0]).unwrap(), false);
    let fs2 = Snapshot {
        nodes: vec![file("index.tex", Some(30)), file("bin/index.pdf", Some(20))],
    };
    assert_eq!(needs_rebuild(&fs2, 1, &vec![0]).unwrap(), true);
}

#[test]
fn rebuild_fails_on_unreadable_artifact_time() {
    let fs = Snapshot { nodes: vec![file("index.tex", Some(10)), file("bin/index.pdf", None)] };
    assert!(matches!(needs_rebuild(&fs, 1, &vec![0]), Err(Error::IO)));
}

#[test]
fn can_build_requires_entry() {
    let fs = Snapshot {
        nodes: vec![file("index.tex", Some(1)), Node::Missing { path: "other.tex".to_string() }],
    };
    assert!(can_build(&fs, 0).is_ok());
    assert!(matches!(can_build(&fs, 1), Err(Error::NoEntry)));
}

#[test]
fn converges_after_two_passes_writing_same_side_output() {
    // no artifact yet: the source check short-circuits to "build required";
    // pass 1 writes "ref1", pass 2 writes "ref1" again: converged, 2 passes.
    let fs = Snapshot {
        nodes: vec![file("index.tex", Some(1)), Node::Missing {
            path: "bin/index.pdf".to_string(),
        }],
    };
    let mut checker = NeedsBuildChecker::new(None, 10);
    assert_eq!(checker.check_sources(&fs, 1, &vec![0]).unwrap(), true);
    assert!(checker.needs_build());

    checker.on_pass_result(true, Vec::new());
    checker.on_side_output(Some(b"ref1".to_vec()));
    assert!(checker.needs_build());

    checker.on_pass_result(true, Vec::new());
    checker.on_side_output(Some(b"ref1".to_vec()));
    assert!(!checker.needs_build());
    assert!(matches!(checker.phase, Phase::Converged));
    assert_eq!(checker.iterations, 2);
}

#[test]
fn oscillating_side_output_stops_at_ceiling() {
    // the side-output alternates between two values forever; with a ceiling
    // of 3 the controller stops after 3 passes instead of looping.
    let mut checker = NeedsBuildChecker::new(None, 3);
    let fs = Snapshot {
        nodes: vec![file("index.tex", Some(1)), Node::Missing { path: "out.pdf".to_string() }],
    };
    assert_eq!(checker.check_sources(&fs, 1, &vec![0]).unwrap(), true);
    let outputs = [b"A".to_vec(), b"B".to_vec(), b"A".to_vec()];
    let mut passes = 0;
    for side in outputs.iter() {
        assert!(checker.needs_build());
        checker.on_pass_result(true, Vec::new());
        checker.on_side_output(Some(side.clone()));
        passes += 1;
    }
    assert!(!checker.needs_build());
    assert!(matches!(checker.phase, Phase::ConvergenceTimeout));
    assert_eq!(passes, 3);
    assert_eq!(checker.iterations, 3);
}

#[test]
fn converges_one_pass_after_output_stabilises() {
    // the side-output becomes "C" and stays: converged exactly 1 pass
    // beyond the pass that first produced "C".
    let mut checker = NeedsBuildChecker::new(Some(b"old".to_vec()), 10);
    let fs = Snapshot {
        nodes: vec![file("index.tex", Some(9)), file("out.pdf", Some(2))],
    };
    assert_eq!(checker.check_sources(&fs, 1, &vec![0]).unwrap(), true);

    checker.on_pass_result(true, Vec::new());
    checker.on_side_output(Some(b"C".to_vec()));
    let first_c_pass = checker.iterations;
    assert!(checker.needs_build());

    checker.on_pass_result(true, Vec::new());
    checker.on_side_output(Some(b"C".to_vec()));
    assert!(matches!(checker.phase, Phase::Converged));
    assert_eq!(checker.iterations, first_c_pass + 1);
}

#[test]
fn up_to_date_project_converges_with_zero_passes() {
    let fs = Snapshot {
        nodes: vec![file("index.tex", Some(10)), file("out.pdf", Some(20))],
    };
    let mut checker = NeedsBuildChecker::new(Some(b"aux".to_vec()), 10);
    assert_eq!(checker.check_sources(&fs, 1, &vec![0]).unwrap(), false);
    assert!(matches!(checker.phase, Phase::Converged));
    assert_eq!(checker.iterations, 0);
}

#[test]
fn source_check_error_is_fatal() {
    let fs = Snapshot {
        nodes: vec![Node::Missing { path: "index.tex".to_string() }, file("out.pdf", Some(20))],
    };
    let mut checker = NeedsBuildChecker::new(None, 10);
    match checker.check_sources(&fs, 1, &vec![0]) {
        Err(Error::PathNotFound(p)) => assert_eq!(p, "index.tex"),
        _ => panic!("expected PathNotFound"),
    }
    assert!(matches!(checker.phase, Phase::Failed));
}

#[test]
fn failed_pass_stops_the_loop_and_keeps_output() {
    let fs = Snapshot {
        nodes: vec![file("index.tex", Some(1)), Node::Missing { path: "out.pdf".to_string() }],
    };
    let mut checker = NeedsBuildChecker::new(None, 10);
    assert_eq!(checker.check_sources(&fs, 1, &vec![0]).unwrap(), true);
    checker.on_pass_result(false, b"! Undefined control sequence.".to_vec());
    assert!(matches!(checker.phase, Phase::Failed));
    assert!(!checker.needs_build());
    assert_eq!(checker.last_output_text().unwrap(), "! Undefined control sequence.");
}

#[test]
fn invalid_output_bytes_are_an_encoding_error() {
    let fs = Snapshot {
        nodes: vec![file("index.tex", Some(1)), Node::Missing { path: "out.pdf".to_string() }],
    };
    let mut checker = NeedsBuildChecker::new(None, 10);
    assert_eq!(checker.check_sources(&fs, 1, &vec![0]).unwrap(), true);
    checker.on_pass_result(false, vec![0xff, 0xfe]);
    assert!(matches!(checker.last_output_text(), Err(Error::Encoding)));
}

#[test]
fn unreadable_side_output_on_first_build_means_another_pass() {
    let fs = Snapshot {
        nodes: vec![file("index.tex", Some(1)), Node::Missing { path: "out.pdf".to_string() }],
    };
    let mut checker = NeedsBuildChecker::new(None, 10);
    assert_eq!(checker.check_sources(&fs, 1, &vec![0]).unwrap(), true);
    checker.on_pass_result(true, Vec::new());
    checker.on_side_output(None);
    assert!(checker.needs_build());
    // a second unreadable read is the fail-safe: treat as converged
    checker.on_pass_result(true, Vec::new());
    checker.on_side_output(None);
    assert!(matches!(checker.phase, Phase::Converged));
}

#[test]
fn unreadable_side_output_with_previous_aux_converges() {
    let fs = Snapshot {
        nodes: vec![file("index.tex", Some(9)), file("out.pdf", Some(2))],
    };
    let mut checker = NeedsBuildChecker::new(Some(b"aux".to_vec()), 10);
    assert_eq!(checker.check_sources(&fs, 1, &vec![0]).unwrap(), true);
    checker.on_pass_result(true, Vec::new());
    checker.on_side_output(None);
    assert!(matches!(checker.phase, Phase::Converged));
}

#[test]
fn ceiling_of_one_times_out_on_changing_output() {
    let fs = Snapshot {
        nodes: vec![file("index.tex", Some(1)), Node::Missing { path: "out.pdf".to_string() }],
    };
    let mut checker = NeedsBuildChecker::new(None, 1);
    assert_eq!(checker.check_sources(&fs, 1, &vec![0]).unwrap(), true);
    checker.on_pass_result(true, Vec::new());
    checker.on_side_output(Some(b"first".to_vec()));
    assert!(matches!(checker.phase, Phase::ConvergenceTimeout));
    assert_eq!(checker.iterations, 1);
}

#[test]
fn bytes_equal_compares_contents() {
    assert!(latexbuild::build_check::bytes_equal(&b"abc".to_vec(), &b"abc".to_vec()));
    assert!(!latexbuild::build_check::bytes_equal(&b"abc".to_vec(), &b"abd".to_vec()));
    assert!(!latexbuild::build_check::bytes_equal(&b"abc".to_vec(), &b"ab".to_vec()));
}

#[test]
fn resolve_of_nothing_is_empty() {
    let fs = Snapshot { nodes: vec![] };
    assert_eq!(resolve_includes(&fs, &vec![]).unwrap(), Vec::<usize>::new());
}

#[test]
fn resolve_of_empty_directory_is_empty() {
    let fs = Snapshot { nodes: vec![dir("empty", vec![])] };
    assert_eq!(resolve_includes(&fs, &vec![0]).unwrap(), Vec::<usize>::new());
}

#[test]
fn nothing_is_stale_without_dependencies() {
    let fs = Snapshot { nodes: vec![] };
    assert_eq!(is_stale(&fs, 0, &vec![]).unwrap(), false);
}

#[test]
fn rebuild_fails_when_artifact_is_a_directory() {
    let fs = Snapshot {
        nodes: vec![file("index.tex", Some(1)), dir("bin/index.pdf", vec![])],
    };
    assert!(matches!(needs_rebuild(&fs, 1, &vec![0]), Err(Error::IO)));
}
