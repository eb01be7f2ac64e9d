use adamas_codegen::collapse::{collapse, harmless, reckless, watched, Between};

#[test]
fn a_neighbouring_pair_goes_away() {
    let text = "\
define i64 @f(ptr %v) {
entry:
  %t0 = call ptr @adamas_dup(ptr %v)
  call void @adamas_drop(ptr %v, ptr @adamas_release_extern)
  ret i64 7
}
";
    let (out, report) = collapse(text, Between::Watched);
    assert_eq!(report.cancelled, 1);
    assert!(!out.contains("adamas_dup"), "{out}");
    assert!(!out.contains("adamas_drop"), "{out}");
}

#[test]
fn a_call_between_them_keeps_the_pair() {
    let text = "\
define i64 @f(ptr %v) {
entry:
  %t0 = call ptr @adamas_dup(ptr %v)
  %t1 = call i32 @adamas_is_unique(ptr %v)
  call void @adamas_drop(ptr %v, ptr @adamas_release_extern)
  ret i64 7
}
";
    let (out, report) = collapse(text, Between::Watched);
    assert_eq!(report.cancelled, 0);
    assert_eq!(report.refused, 1);
    assert!(out.contains("adamas_dup"), "{out}");
}

#[test]
fn the_reckless_mode_takes_what_the_watched_one_refuses() {
    let text = "\
define i64 @f(ptr %v) {
entry:
  %t0 = call ptr @adamas_dup(ptr %v)
  %t1 = call i32 @adamas_is_unique(ptr %v)
  call void @adamas_drop(ptr %v, ptr @adamas_release_extern)
  ret i64 7
}
";
    let (out, report) = collapse(text, Between::Ignored);
    assert_eq!(report.cancelled, 1);
    assert!(out.contains("adamas_is_unique"), "{out}");
    assert!(!out.contains("adamas_dup"), "{out}");
}

#[test]
fn different_registers_are_not_a_pair() {
    let text = "\
define i64 @f(ptr %v, ptr %w) {
entry:
  %t0 = call ptr @adamas_dup(ptr %w)
  call void @adamas_drop(ptr %v, ptr @adamas_release_extern)
  ret i64 7
}
";
    let (_, report) = collapse(text, Between::Watched);
    assert_eq!(report.cancelled, 0);
    assert_eq!(report.refused, 0);
}

#[test]
fn a_read_result_holds_the_pair() {
    let text = "\
define ptr @f(ptr %v) {
entry:
  %t0 = call ptr @adamas_dup(ptr %v)
  call void @adamas_drop(ptr %v, ptr @adamas_release_extern)
  ret ptr %t0
}
";
    let (_, report) = collapse(text, Between::Watched);
    assert_eq!(report.cancelled, 0);
    assert_eq!(report.live, 1);
}

#[test]
fn the_declaration_is_not_a_call() {
    let text = "declare ptr @adamas_dup(ptr)\ndeclare void @adamas_drop(ptr, ptr)\n";
    let (out, report) = collapse(text, Between::Watched);
    assert_eq!(report.dups, 0);
    assert_eq!(report.drops, 0);
    assert_eq!(out, text);
}

#[test]
fn a_longer_name_is_not_the_same_name() {
    let text = "\
define i64 @f(ptr %v) {
entry:
  %t1 = call ptr @adamas_dup(ptr %v)
  %t10 = add i64 1, 2
  call void @adamas_drop(ptr %v, ptr @adamas_release_extern)
  ret i64 %t10
}
";
    let (_, report) = collapse(text, Between::Watched);
    assert_eq!(report.live, 0);
    assert_eq!(report.cancelled, 1);
}

#[test]
fn an_unknown_instruction_is_a_barrier() {
    assert!(harmless("%t0 = add i64 %a, %b"));
    assert!(harmless(
        "  %t1 = getelementptr inbounds nuw i8, ptr %v, i64 8"
    ));
    assert!(!harmless("%t2 = load i32, ptr %v"));
    assert!(!harmless("store i32 0, ptr %v"));
    assert!(!harmless("%t3 = tail call i64 @g()"));
    assert!(!harmless("br label %next"));
    assert!(!harmless("%t4 = atomicrmw add ptr %v, i32 1 seq_cst"));
}

#[test]
fn the_pipeline_form_and_the_mutant_agree_with_collapse() {
    let text = "\
define i64 @f(ptr %v) {
entry:
  %t0 = call ptr @adamas_dup(ptr %v)
  %t1 = call i32 @adamas_is_unique(ptr %v)
  call void @adamas_drop(ptr %v, ptr @adamas_release_extern)
  ret i64 7
}
";
    assert_eq!(watched(text), collapse(text, Between::Watched).0);
    assert_eq!(reckless(text), collapse(text, Between::Ignored).0);
    assert_eq!(
        reckless(text),
        "define i64 @f(ptr %v) {\nentry:\n  %t1 = call i32 @adamas_is_unique(ptr %v)\n  ret i64 7\n}\n"
    );
}

#[test]
fn removal_comes_in_pairs_and_touches_only_the_calls() {
    let text = "\
; module
define i64 @f(ptr %v, ptr %w) {
entry:
  %t0 = call ptr @adamas_dup(ptr %v)
  %t1 = call ptr @adamas_dup(ptr %w)
  %t2 = add i64 1, 2
  call void @adamas_drop(ptr %w, ptr @adamas_release_extern)
  call void @adamas_drop(ptr %v, ptr @adamas_release_extern)
  ret i64 %t2
}
";
    let (out, report) = collapse(text, Between::Watched);
    assert_eq!(report.dups, 2);
    assert_eq!(report.drops, 2);
    assert_eq!(report.cancelled, 1);
    assert_eq!(report.refused, 1);
    assert_eq!(
        out,
        "; module\ndefine i64 @f(ptr %v, ptr %w) {\nentry:\n  %t0 = call ptr @adamas_dup(ptr %v)\n  %t2 = add i64 1, 2\n  call void @adamas_drop(ptr %v, ptr @adamas_release_extern)\n  ret i64 %t2\n}\n"
    );
    let (careless, report) = collapse(text, Between::Ignored);
    assert_eq!(report.cancelled, 2);
    assert_eq!(
        careless,
        "; module\ndefine i64 @f(ptr %v, ptr %w) {\nentry:\n  %t2 = add i64 1, 2\n  ret i64 %t2\n}\n"
    );
}

#[test]
fn windows_line_ends_become_plain_ones() {
    let (out, report) = collapse("a\r\nb\n\nc", Between::Watched);
    assert_eq!(out, "a\nb\n\nc\n");
    assert_eq!(report, adamas_codegen::collapse::Report::default());
}

#[test]
fn a_kept_drop_between_them_is_a_barrier() {
    let text = "\
define void @f(ptr %v, ptr %w) {
entry:
  %t0 = call ptr @adamas_dup(ptr %v)
  call void @adamas_drop(ptr %w, ptr @adamas_release_extern)
  call void @adamas_drop(ptr %v, ptr @adamas_release_extern)
  ret void
}
";
    let (out, report) = collapse(text, Between::Watched);
    assert_eq!(report.cancelled, 0);
    assert_eq!(report.refused, 1);
    assert_eq!(out, text);
}

#[test]
fn pairs_do_not_cross_a_function_boundary() {
    let text = "\
define void @f(ptr %v) {
entry:
  %t0 = call ptr @adamas_dup(ptr %v)
  ret void
}
define void @g(ptr %v) {
entry:
  call void @adamas_drop(ptr %v, ptr @adamas_release_extern)
  ret void
}
";
    let (out, report) = collapse(text, Between::Ignored);
    assert_eq!(report.dups, 1);
    assert_eq!(report.drops, 1);
    assert_eq!(report.cancelled, 0);
    assert_eq!(out, text);
}

#[test]
fn comments_and_blank_lines_between_do_not_hold_the_pair() {
    let text = "\
define void @f(ptr %v) {
entry:
  %t0 = call ptr @adamas_dup(ptr %v)
  ; a remark

  %t1 = getelementptr i8, ptr %v, i64 8
  call void @adamas_drop(ptr %v, ptr @adamas_release_extern)
  ret void
}
";
    let (out, report) = collapse(text, Between::Watched);
    assert_eq!(report.cancelled, 1);
    assert_eq!(
        out,
        "define void @f(ptr %v) {\nentry:\n  ; a remark\n\n  %t1 = getelementptr i8, ptr %v, i64 8\n  ret void\n}\n"
    );
}

#[test]
fn the_careless_pass_removes_everything_the_careful_one_does() {
    let text = "\
define void @f(ptr %v, ptr %w) {
entry:
  %t0 = call ptr @adamas_dup(ptr %v)
  %t1 = load i32, ptr %w
  %t2 = call ptr @adamas_dup(ptr %w)
  %t3 = add i32 %t1, 1
  call void @adamas_drop(ptr %w, ptr @adamas_release_extern)
  call void @adamas_drop(ptr %v, ptr @adamas_release_extern)
  ret void
}
";
    let (careful, watched_report) = collapse(text, Between::Watched);
    let (careless, ignored_report) = collapse(text, Between::Ignored);
    assert_eq!(watched_report.cancelled, 1);
    assert_eq!(ignored_report.cancelled, 2);
    assert_eq!(
        careful,
        "define void @f(ptr %v, ptr %w) {\nentry:\n  %t0 = call ptr @adamas_dup(ptr %v)\n  %t1 = load i32, ptr %w\n  %t3 = add i32 %t1, 1\n  call void @adamas_drop(ptr %v, ptr @adamas_release_extern)\n  ret void\n}\n"
    );
    for line in text.lines() {
        if !careful.lines().any(|kept| kept == line) {
            assert!(!careless.lines().any(|kept| kept == line), "{line}");
        }
    }
}
