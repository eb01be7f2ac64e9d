use adamas_codegen::llvm::Outcome;
use adamas_codegen::native::{written, Job};
use adamas_codegen::native::{fresh, object_name, rewrite, Native, NativeError, CC_VARIABLE};

#[test]
fn generated_c_is_built_beside_the_runtime_it_includes() {
    let native = Native::with("/b".to_string(), "cc".to_string());
    assert_eq!(native.dir(), "/b");
    assert_eq!(native.cc(), "cc");
    assert_eq!(native.runtime_dir(), "/b/runtime");
    let objects = vec!["/b/runtime/object.o".to_string(), "/b/runtime/print.o".to_string()];
    let plan = native.build("prog", &objects);
    assert_eq!(plan.source, "/b/prog.c");
    assert_eq!(plan.binary, "/b/prog");
    assert_eq!(plan.compile.what, "prog");
    assert_eq!(plan.compile.program, "cc");
    assert_eq!(
        plan.compile.arguments,
        vec![
            "-std=c11",
            "-O1",
            "-ffp-contract=off",
            "-Wno-unused",
            "-I",
            "/b/runtime",
            "/b/prog.c",
            "/b/runtime/object.o",
            "/b/runtime/print.o",
            "-o",
            "/b/prog"
        ]
    );
}

#[test]
fn an_object_from_llvm_is_linked_with_its_companion() {
    let native = Native::with("/b".to_string(), "clang".to_string());
    let plan = native.link("prog", "/w/prog.o", &["/b/runtime/object.o".to_string()]);
    assert_eq!(plan.source, "/b/prog.support.c");
    assert_eq!(plan.compiled, "/b/prog.support.o");
    assert_eq!(plan.binary, "/b/prog");
    assert_eq!(plan.support.what, "спутник prog");
    assert_eq!(
        plan.support.arguments,
        vec![
            "-std=c11",
            "-O1",
            "-ffp-contract=off",
            "-Wno-unused",
            "-c",
            "-I",
            "/b/runtime",
            "/b/prog.support.c",
            "-o",
            "/b/prog.support.o"
        ]
    );
    assert_eq!(plan.link.program, "clang");
    assert_eq!(
        plan.link.arguments,
        vec!["/w/prog.o", "/b/prog.support.o", "/b/runtime/object.o", "-o", "/b/prog"]
    );
}

#[test]
fn only_translation_units_of_the_runtime_are_compiled() {
    let native = Native::with("/b".to_string(), "cc".to_string());
    let header = native.unit("adamas.h");
    assert_eq!(header.path, "/b/runtime/adamas.h");
    assert!(header.object.is_none());
    let unit = native.unit("object.c");
    assert_eq!(unit.path, "/b/runtime/object.c");
    let (object, call) = unit.object.expect("a translation unit");
    assert_eq!(object, "/b/runtime/object.o");
    assert_eq!(call.what, "рантайм object.c");
    assert_eq!(
        call.arguments,
        vec!["-std=c11", "-O1", "-c", "-I", "/b/runtime", "/b/runtime/object.c", "-o", "/b/runtime/object.o"]
    );
}

#[test]
fn the_runtime_is_rewritten_only_when_it_changed() {
    assert!(rewrite(None, "int x;"));
    assert!(rewrite(Some("int y;"), "int x;"));
    assert!(!rewrite(Some("int x;"), "int x;"));
}

#[test]
fn an_object_is_rebuilt_unless_it_is_not_older_than_its_source() {
    assert!(fresh(Some(10), Some(10)));
    assert!(fresh(Some(11), Some(10)));
    assert!(!fresh(Some(9), Some(10)));
    assert!(!fresh(None, Some(10)));
    assert!(!fresh(Some(10), None));
}

#[test]
fn native_errors_read_as_the_driver_prints_them() {
    let missing = NativeError::Missing { cc: "cc".to_string(), why: "нет".to_string() };
    assert_eq!(missing.message(), format!("компилятор C `cc` не запускается (нет); другой задаёт `{CC_VARIABLE}`"));
    let failed = NativeError::Failed { what: "prog".to_string(), output: "oops".to_string() };
    assert_eq!(failed.message(), "prog: компилятор C отказал\noops");
    let write = NativeError::Write { path: "/b/x".to_string(), why: "ro".to_string() };
    assert_eq!(write.message(), "не записать /b/x: ro");
}

#[test]
fn the_named_compiler_wins_unless_the_name_is_empty() {
    let named = Native::from_value("/b".to_string(), Some("clang".to_string()), "gcc".to_string());
    assert_eq!(named.cc(), "clang");
    assert_eq!(named.dir(), "/b");
    let empty = Native::from_value("/b".to_string(), Some(String::new()), "gcc".to_string());
    assert_eq!(empty.cc(), "gcc");
    let unset = Native::from_value("/b".to_string(), None, "gcc".to_string());
    assert_eq!(unset.cc(), "gcc");
}

#[test]
fn a_build_writes_its_source_before_it_compiles() {
    let native = Native::with("/b".to_string(), "cc".to_string());
    let jobs = native.build("p", &[]).jobs("int main;".to_string());
    assert_eq!(jobs.len(), 2);
    assert!(matches!(&jobs[0], Job::Write { path, text } if path == "/b/p.c" && text == "int main;"));
    assert!(matches!(&jobs[1], Job::Run(call) if call.what == "p"));
    let jobs = native.link("p", "/w/p.o", &[]).jobs("companion".to_string());
    assert_eq!(jobs.len(), 3);
    assert!(matches!(&jobs[0], Job::Write { path, .. } if path == "/b/p.support.c"));
    assert!(matches!(&jobs[1], Job::Run(call) if call.what == "спутник p"));
    assert!(matches!(&jobs[2], Job::Run(call) if call.what == "p"));
}

#[test]
fn failures_of_a_build_name_what_failed() {
    let native = Native::with("/b".to_string(), "clang".to_string());
    assert!(written("/b/p.c", None).is_ok());
    match written("/b/p.c", Some("ro".to_string())) {
        Err(NativeError::Write { path, why }) => assert_eq!((path.as_str(), why.as_str()), ("/b/p.c", "ro")),
        other => panic!("{other:?}"),
    }
    let call = native.unit("object.c").object.unwrap().1;
    match native.ran(&call, Outcome::Unstarted { why: "нет".to_string() }) {
        Err(NativeError::Missing { cc, why }) => assert_eq!((cc.as_str(), why.as_str()), ("clang", "нет")),
        other => panic!("{other:?}"),
    }
    let failed = Outcome::Exited { success: false, stdout: "a".to_string(), stderr: "b".to_string() };
    match native.ran(&call, failed) {
        Err(NativeError::Failed { what, output }) => assert_eq!((what.as_str(), output.as_str()), ("рантайм object.c", "ab")),
        other => panic!("{other:?}"),
    }
    let done = Outcome::Exited { success: true, stdout: "x".to_string(), stderr: String::new() };
    assert!(native.ran(&call, done).is_ok());
}

#[test]
fn the_runtime_gives_the_objects_of_its_units_in_order() {
    let native = Native::with("/b".to_string(), "cc".to_string());
    let objects = native.runtime_objects(&["adamas.h", "object.c", "notes.txt", "print.c"]);
    assert_eq!(objects, vec!["/b/runtime/object.o", "/b/runtime/print.o"]);
}

#[test]
fn a_runtime_object_replaces_the_sources_extension() {
    assert_eq!(object_name("object.c"), "object.o");
    assert_eq!(object_name("print.c"), "print.o");
    assert_eq!(object_name("x.cc"), "x.cc.o");
}
