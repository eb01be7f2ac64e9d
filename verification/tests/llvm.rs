use adamas_codegen::llvm::{after_run, begin_runs, Next, Outcome};
use adamas_codegen::llvm::{parse_major, Pipeline, Stage, ToolError, Toolchain, MINIMUM_MAJOR};

#[test]
fn the_major_is_read_from_what_llvm_as_prints() {
    let printed = "LLVM (http://llvm.org/):\n  LLVM version 18.1.8\n  Optimized build.\n";
    assert_eq!(parse_major(printed), Some(18));
}

#[test]
fn a_line_without_a_version_is_not_guessed() {
    assert_eq!(parse_major("совсем не то"), None);
}

#[test]
fn a_newer_major_is_read_whole() {
    assert_eq!(parse_major("  LLVM version 21.1.8\n"), Some(21));
    assert!(parse_major("LLVM version 21.1.8\n").unwrap() >= MINIMUM_MAJOR);
}

#[test]
fn a_version_without_digits_or_at_the_very_end_is_not_read() {
    assert_eq!(parse_major("LLVM version x.1"), None);
    assert_eq!(parse_major("LLVM version 18"), None);
    assert_eq!(parse_major("LLVM version 99999999999.0"), None);
}

#[test]
fn a_tool_is_looked_up_in_the_named_directory() {
    let tools = Toolchain::at("/opt/llvm/bin".to_string());
    assert_eq!(tools.tool("llc"), "/opt/llvm/bin/llc");
    let slashed = Toolchain::at("/opt/llvm/bin/".to_string());
    assert_eq!(slashed.tool("opt"), "/opt/llvm/bin/opt");
    assert_eq!(Toolchain::from_path().tool("llvm-as"), "llvm-as");
}

#[test]
fn an_unreadable_version_names_the_parser_and_what_it_printed() {
    let tools = Toolchain::at("/opt/llvm/bin".to_string());
    assert_eq!(tools.version("LLVM version 19.1.0\n").ok(), Some(19));
    match tools.version("  нечто  \n") {
        Err(ToolError::Version { tool, output }) => {
            assert_eq!(tool, "/opt/llvm/bin/llvm-as");
            assert_eq!(output, "нечто");
        },
        other => panic!("{other:?}"),
    }
}

#[test]
fn tool_errors_read_as_the_driver_prints_them() {
    let missing = ToolError::Missing { tool: "llc".to_string(), why: "нет файла".to_string() };
    assert_eq!(
        missing.message(),
        "llc не запускается (нет файла); каталог задаёт `ADAMAS_LLVM_BIN`, а в dev-shell он есть"
    );
    let failed = ToolError::Failed { tool: "opt".to_string(), output: "bad".to_string() };
    assert_eq!(failed.message(), "opt отказал:\nbad");
    let version = ToolError::Version { tool: "llvm-as".to_string(), output: "??".to_string() };
    assert_eq!(version.message(), "версия llvm-as не прочиталась из `??`");
}

#[test]
fn the_standard_pipeline_optimises_between_parsing_and_code() {
    let pipeline = Pipeline::optimised();
    let tools: Vec<&str> = pipeline.stages.iter().map(|s| s.tool.as_str()).collect();
    assert_eq!(tools, vec!["llvm-as", "opt", "llc"]);
    assert_eq!(pipeline.stages[1].arguments, vec!["-O2".to_string()]);
    assert_eq!(
        pipeline.stages[2].arguments,
        vec!["-O2".to_string(), "-filetype=obj".to_string(), "-relocation-model=pic".to_string()]
    );
    let plain = Pipeline::plain();
    let tools: Vec<&str> = plain.stages.iter().map(|s| s.tool.as_str()).collect();
    assert_eq!(tools, vec!["llvm-as", "llc"]);
    assert_eq!(plain.stages[1].arguments[0], "-O0");
}

#[test]
fn each_stage_reads_the_file_the_one_before_wrote() {
    let tools = Toolchain::at("/t".to_string());
    let runs = Pipeline::optimised().runs(&tools, "/w/prog.ll", "prog");
    assert_eq!(runs.len(), 3);
    assert_eq!(runs[0].program, "/t/llvm-as");
    assert_eq!(runs[0].arguments, vec!["/w/prog.ll", "-o", "/w/prog.bc"]);
    assert_eq!(runs[1].program, "/t/opt");
    assert_eq!(runs[1].arguments, vec!["-O2", "/w/prog.bc", "-o", "/w/prog.opt.bc"]);
    assert_eq!(runs[2].program, "/t/llc");
    assert_eq!(
        runs[2].arguments,
        vec![
            "-O2",
            "-filetype=obj",
            "-relocation-model=pic",
            "/w/prog.opt.bc",
            "-o",
            "/w/prog.o"
        ]
    );
    assert_eq!(runs[2].output, "/w/prog.o");
}

#[test]
fn a_bare_source_writes_beside_itself() {
    let runs = Pipeline::plain().runs(&Toolchain::from_path(), "prog.ll", "p");
    assert_eq!(runs[0].program, "llvm-as");
    assert_eq!(runs[0].output, "p.bc");
    assert_eq!(runs[1].output, "p.o");
}

#[test]
fn a_stage_may_bring_a_second_input_before_the_first() {
    let pipeline = Pipeline { stages: vec![Stage::new("llvm-link", &["runtime.bc"], "linked.bc")] };
    let runs = pipeline.runs(&Toolchain::from_path(), "/w/in.bc", "out");
    assert_eq!(runs[0].arguments, vec!["runtime.bc", "/w/in.bc", "-o", "/w/out.linked.bc"]);
}

#[test]
fn no_stages_run_nothing() {
    let runs = Pipeline { stages: Vec::new() }.runs(&Toolchain::from_path(), "a.ll", "a");
    assert!(runs.is_empty());
}

#[test]
fn an_empty_variable_counts_as_unnamed() {
    assert_eq!(Toolchain::from_value(None).tool("opt"), "opt");
    assert_eq!(Toolchain::from_value(Some(String::new())).tool("opt"), "opt");
    assert_eq!(Toolchain::from_value(Some("/l".to_string())).tool("opt"), "/l/opt");
}

#[test]
fn carrying_out_the_runs_ends_with_the_last_file_or_the_first_failure() {
    let tools = Toolchain::at("/t".to_string());
    let runs = Pipeline::plain().runs(&tools, "/w/p.ll", "p");
    assert!(matches!(begin_runs(&runs, "/w/p.ll"), Next::Run(0)));
    let ok = || Outcome::Exited { success: true, stdout: String::new(), stderr: String::new() };
    assert!(matches!(after_run(&runs, 0, ok()), Next::Run(1)));
    match after_run(&runs, 1, ok()) {
        Next::Stop(Ok(path)) => assert_eq!(path, "/w/p.o"),
        other => panic!("{other:?}"),
    }
    match after_run(&runs, 0, Outcome::Unstarted { why: "нет".to_string() }) {
        Next::Stop(Err(ToolError::Missing { tool, why })) => {
            assert_eq!(tool, "/t/llvm-as");
            assert_eq!(why, "нет");
        },
        other => panic!("{other:?}"),
    }
    let failed = Outcome::Exited { success: false, stdout: "out;".to_string(), stderr: "err".to_string() };
    match after_run(&runs, 1, failed) {
        Next::Stop(Err(ToolError::Failed { tool, output })) => {
            assert_eq!(tool, "/t/llc");
            assert_eq!(output, "out;err");
        },
        other => panic!("{other:?}"),
    }
    match begin_runs(&[], "/w/p.ll") {
        Next::Stop(Ok(path)) => assert_eq!(path, "/w/p.ll"),
        other => panic!("{other:?}"),
    }
}
