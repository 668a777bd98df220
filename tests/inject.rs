use jumake::inject::{inject, inject_text, Injection, InjectionError};

fn updated(r: Injection) -> String {
    match r {
        Injection::Updated(s) => s,
        other => panic!("expected an update, got {:?}", other),
    }
}

#[test]
fn end_to_end_private_section() {
    let doc = ["target_sources(${P}", "    PRIVATE", "        A.cpp", ")"].join("\n");
    let out = updated(inject_text(&doc, "B.cpp"));
    let expected = [
        "target_sources(${P}",
        "    PRIVATE",
        "        A.cpp",
        "        B.cpp",
        ")",
    ]
    .join("\n");
    assert_eq!(out, expected);
}

#[test]
fn second_injection_changes_nothing() {
    let doc = ["target_sources(${P}", "    PRIVATE", "        A.cpp", ")"].join("\n");
    let once = updated(inject_text(&doc, "X.cpp"));
    assert!(matches!(inject_text(&once, "X.cpp"), Injection::NoChangeNeeded));
    let bytes = once.clone().into_bytes();
    assert!(matches!(inject(&bytes, "X.cpp"), Ok(Injection::NoChangeNeeded)));
}

#[test]
fn present_entry_is_left_alone() {
    let doc = "target_sources(${P}\n    PRIVATE\n        A.cpp\n)\n";
    assert!(matches!(inject_text(doc, "A.cpp"), Injection::NoChangeNeeded));
}

#[test]
fn markers_win_over_generic_block() {
    let doc = [
        "target_sources(${PROJECT_NAME}",
        "    PRIVATE",
        "        Main.cpp",
        ")",
        "set(EXTRA",
        "  # jumake:sources-begin",
        "  Extra.cpp",
        "  # jumake:sources-end",
        ")",
    ]
    .join("\n");
    let out = updated(inject_text(&doc, "New.cpp"));
    let lines: Vec<&str> = out.split('\n').collect();
    assert_eq!(lines.len(), 10);
    assert_eq!(lines[7], "  New.cpp");
    assert_eq!(lines[8], "  # jumake:sources-end");
    assert_eq!(lines[2], "        Main.cpp");
    assert_eq!(lines[3], ")");
}

#[test]
fn end_marker_before_begin_marker_is_ignored() {
    let doc = ["# jumake:sources-end", "# jumake:sources-begin", "target_sources(app", "  PRIVATE", "    a.cpp", ")"]
        .join("\n");
    let out = updated(inject_text(&doc, "b.cpp"));
    let lines: Vec<&str> = out.split('\n').collect();
    assert_eq!(lines[5], "    b.cpp");
    assert_eq!(lines[6], ")");
}

#[test]
fn indentation_follows_first_entry() {
    let doc = "target_sources(app\n\tPRIVATE\n\t\tA.cpp\n\tPUBLIC\n\t\tB.h\n)";
    let out = updated(inject_text(doc, "C.cpp"));
    assert_eq!(out, "target_sources(app\n\tPRIVATE\n\t\tA.cpp\n\t\tC.cpp\n\tPUBLIC\n\t\tB.h\n)");
}

#[test]
fn empty_label_gets_one_step_more() {
    let doc = "  target_sources(app\n  PRIVATE\n  )";
    let out = updated(inject_text(doc, "C.cpp"));
    assert_eq!(out, "  target_sources(app\n  PRIVATE\n      C.cpp\n  )");
}

#[test]
fn missing_label_is_added() {
    let doc = "target_sources(app\n    INTERFACE x.h\n)";
    let out = updated(inject_text(doc, "C.cpp"));
    assert_eq!(out, "target_sources(app\n    PRIVATE\n        C.cpp\n    INTERFACE x.h\n)");
}

#[test]
fn unterminated_block_runs_to_the_end() {
    let doc = "target_sources(app\n    PRIVATE\n        A.cpp";
    let out = updated(inject_text(doc, "B.cpp"));
    assert_eq!(out, "target_sources(app\n    PRIVATE\n        A.cpp\n        B.cpp");
}

#[test]
fn unrecognised_script_gets_a_block_and_a_warning() {
    let doc = "cmake_minimum_required(VERSION 3.24)\n";
    match inject_text(doc, "New.cpp") {
        Injection::AppendedWithWarning(s) => assert_eq!(
            s,
            "cmake_minimum_required(VERSION 3.24)\n\ntarget_sources(${PROJECT_NAME}\n    PRIVATE\n        # jumake:sources-begin\n        New.cpp\n        # jumake:sources-end\n)"
        ),
        other => panic!("expected a warning, got {:?}", other),
    }
}

#[test]
fn appended_block_is_used_next_time() {
    let first = match inject_text("", "A.cpp") {
        Injection::AppendedWithWarning(s) => s,
        other => panic!("expected a warning, got {:?}", other),
    };
    let second = updated(inject_text(&first, "B.cpp"));
    assert!(second.contains("        A.cpp\n        B.cpp\n        # jumake:sources-end"));
}

#[test]
fn bytes_that_are_not_utf8_are_refused() {
    let bytes = vec![b't', 0xff, 0xfe, b'\n'];
    assert_eq!(inject(&bytes, "A.cpp").unwrap_err(), InjectionError::NotText);
}

#[test]
fn bytes_are_decoded_before_editing() {
    let doc = "target_sources(app\n  PRIVATE\n    Ä.cpp\n)";
    match inject(doc.as_bytes(), "B.cpp") {
        Ok(Injection::Updated(s)) => assert_eq!(s, "target_sources(app\n  PRIVATE\n    Ä.cpp\n    B.cpp\n)"),
        other => panic!("unexpected {:?}", other),
    }
}

#[test]
fn entry_that_closes_block_sets_indentation() {
    let doc = ["target_sources(${PROJECT_NAME}", "  PRIVATE", "    a.cpp)"].join("\n");
    let out = updated(inject_text(&doc, "B.cpp"));
    assert_eq!(out, ["target_sources(${PROJECT_NAME}", "  PRIVATE", "    B.cpp", "    a.cpp)"].join("\n"));
}

#[test]
fn blank_line_after_label_is_skipped() {
    let doc = ["target_sources(${PROJECT_NAME}", "    PRIVATE", "", "        A.cpp", ")"].join("\n");
    let out = updated(inject_text(&doc, "B.cpp"));
    assert_eq!(
        out,
        ["target_sources(${PROJECT_NAME}", "    PRIVATE", "", "        A.cpp", "        B.cpp", ")"].join("\n")
    );
}

#[test]
fn label_with_only_blank_lines_gets_one_step_more() {
    let doc = "target_sources(app\n  PRIVATE\n   \n)";
    let out = updated(inject_text(doc, "B.cpp"));
    assert_eq!(out, "target_sources(app\n  PRIVATE\n   \n      B.cpp\n)");
}
