use adamas_codegen::emit_llvm::{
    escaped, escaped_name, integral, machine, terminated, Dwarf, LlvmError, Metadata, Module, Notes,
    Tail, ENTRY_SYMBOL, HEADER,
};
use adamas_codegen::prim::PrimTy;
use adamas_codegen::repr::Repr;

#[test]
fn a_node_with_the_same_text_is_made_once() {
    let mut metadata = Metadata::new();
    let first = metadata.node("!DIBasicType(name: \"Int64\", size: 64)");
    let second = metadata.node("!{}");
    let again = metadata.node("!DIBasicType(name: \"Int64\", size: 64)");
    assert_eq!(first, "!0");
    assert_eq!(second, "!1");
    assert_eq!(again, "!0");
    let mut out = String::new();
    metadata.print(&mut out);
    assert_eq!(out, "!0 = !DIBasicType(name: \"Int64\", size: 64)\n!1 = !{}\n");
}

#[test]
fn a_distinct_node_is_always_new() {
    let mut metadata = Metadata::new();
    let a = metadata.node("distinct !DISubprogram(name: \"f\")");
    let b = metadata.node("distinct !DISubprogram(name: \"f\")");
    assert_eq!(a, "!0");
    assert_eq!(b, "!1");
}

#[test]
fn numbers_past_nine_are_written_whole() {
    let mut metadata = Metadata::new();
    let mut last = String::new();
    for k in 0..12 {
        last = metadata.node(&format!("!{{i32 {k}}}"));
    }
    assert_eq!(last, "!11");
}

#[test]
fn named_lists_are_printed_before_the_nodes() {
    let mut metadata = Metadata::new();
    let unit = metadata.node("!{}");
    metadata.name("llvm.ident", vec![unit, "!7".to_string()]);
    let mut out = String::from("head\n");
    metadata.print(&mut out);
    assert_eq!(out, "head\n!llvm.ident = !{!0, !7}\n!0 = !{}\n");
}

#[test]
fn the_dwarf_header_numbers_its_nodes_in_order() {
    let mut metadata = Metadata::new();
    let dwarf = Dwarf::new(&mut metadata, "main.adm", "/src");
    assert_eq!(dwarf.file, "!1");
    assert_eq!(dwarf.unit, "!2");
    let mut out = String::new();
    metadata.print(&mut out);
    assert_eq!(
        out,
        "!llvm.dbg.cu = !{!2}\n\
         !llvm.module.flags = !{!3, !4}\n\
         !0 = !{}\n\
         !1 = !DIFile(filename: \"main.adm\", directory: \"/src\")\n\
         !2 = distinct !DICompileUnit(language: DW_LANG_C99, file: !1, producer: \"adamas\", isOptimized: false, runtimeVersion: 0, emissionKind: FullDebug, enums: !0)\n\
         !3 = !{i32 7, !\"Dwarf Version\", i32 5}\n\
         !4 = !{i32 2, !\"Debug Info Version\", i32 3}\n"
    );
}

#[test]
fn notes_follow_the_instruction_after_a_comma() {
    assert_eq!(Notes::none().suffix(), "");
    assert_eq!(Notes::none().and("dbg", "!5").suffix(), ", !dbg !5");
    assert_eq!(Notes::none().and("dbg", "!5").and("tbaa", "!6").suffix(), ", !dbg !5, !tbaa !6");
}

#[test]
fn a_tail_call_says_so() {
    assert_eq!(Tail::Must.prefix(), "musttail ");
    assert_eq!(Tail::Plain.prefix(), "");
}

#[test]
fn flat_values_take_their_width() {
    assert_eq!(machine(PrimTy::Int8), "i8");
    assert_eq!(machine(PrimTy::UInt16), "i16");
    assert_eq!(machine(PrimTy::Int32), "i32");
    assert_eq!(machine(PrimTy::UInt64), "i64");
    assert_eq!(machine(PrimTy::Float32), "float");
    assert_eq!(machine(PrimTy::Float64), "double");
}

#[test]
fn string_constants_escape_everything_but_printable_ascii() {
    assert_eq!(escaped(b"ok \"q\"\\"), "ok \\22q\\22\\5C");
    assert_eq!(escaped("ё".as_bytes()), "\\D1\\91");
    assert_eq!(terminated("ab"), vec![b'a', b'b', 0]);
    assert_eq!(escaped(&terminated("x")), "x\\00");
}

#[test]
fn names_in_metadata_escape_backslash_and_quote() {
    assert_eq!(escaped_name("a\"b\\c"), "a\\\"b\\\\c");
}

#[test]
fn the_module_frame_calls_the_entry_function() {
    let module = Module { bodies: "; bodies\n".to_string(), metadata: Metadata::new(), dwarf: None };
    let text = module.finish(3, PrimTy::Int64);
    assert!(text.starts_with(HEADER));
    assert!(text.contains("@.str.tag = private unnamed_addr constant [54 x i8] c\""));
    assert!(text.contains("; bodies\n"));
    assert!(text.contains(&format!("define i64 @{ENTRY_SYMBOL}() nounwind {{\n")));
    assert!(text.contains("  %answer = call tailcc i64 @fn_3()\n  ret i64 %answer\n}\n"));
    assert!(text.ends_with("}\n"));
    assert!(!text.contains("llvm.dbg.declare"));
}

#[test]
fn a_module_with_a_source_declares_the_debug_intrinsic_and_prints_metadata() {
    let mut metadata = Metadata::new();
    let dwarf = Dwarf::new(&mut metadata, "m.adm", ".");
    let module = Module { bodies: String::new(), metadata, dwarf: Some(dwarf) };
    let text = module.finish(0, PrimTy::Int32);
    assert!(text.contains("declare void @llvm.dbg.declare(metadata, metadata, metadata)"));
    assert!(text.contains("@fn_0()"));
    assert!(text.ends_with("!4 = !{i32 2, !\"Debug Info Version\", i32 3}\n"));
}

#[test]
fn refusals_name_the_function() {
    let node = LlvmError::Node { function: "f".to_string(), node: "Perform" };
    assert_eq!(node.message(), "`f`: Perform - узел вне скалярного фрагмента");
    let detached = LlvmError::Detached { function: "g".to_string() };
    assert_eq!(detached.message(), "`g`: вторая форма понижения - кадров этот срез не кладёт");
}

#[test]
fn only_flat_integers_are_integral() {
    assert_eq!(integral(Repr::Flat(PrimTy::UInt32)), Some(PrimTy::UInt32));
    assert_eq!(integral(Repr::Flat(PrimTy::Float64)), None);
    assert_eq!(integral(Repr::Boxed), None);
    assert_eq!(integral(Repr::Packed(1)), None);
}

#[test]
fn slot_types_are_named_as_in_adamas_and_made_once() {
    let mut metadata = Metadata::new();
    let wide = Dwarf::ty(&mut metadata, Repr::Flat(PrimTy::UInt64));
    let narrow = Dwarf::ty(&mut metadata, Repr::Flat(PrimTy::Int8));
    let object = Dwarf::ty(&mut metadata, Repr::Boxed);
    let again = Dwarf::ty(&mut metadata, Repr::Flat(PrimTy::UInt64));
    assert_eq!((wide.as_str(), narrow.as_str(), object.as_str()), ("!0", "!1", "!2"));
    assert_eq!(again, wide);
    let mut out = String::new();
    metadata.print(&mut out);
    assert_eq!(
        out,
        "!0 = !DIBasicType(name: \"UInt64\", size: 64, encoding: DW_ATE_unsigned)\n\
         !1 = !DIBasicType(name: \"Int8\", size: 8, encoding: DW_ATE_signed)\n\
         !2 = !DIDerivedType(tag: DW_TAG_pointer_type, name: \"объект\", baseType: null, size: 64)\n"
    );
}

#[test]
fn a_subprogram_names_the_function_as_written() {
    let mut metadata = Metadata::new();
    let dwarf = Dwarf::new(&mut metadata, "m.adm", "/src");
    let int = Dwarf::ty(&mut metadata, Repr::Flat(PrimTy::Int64));
    let scope = dwarf.subprogram(&mut metadata, "f'", 12, 3, &[int.clone(), int]);
    assert_eq!(scope.subprogram, "!8");
    assert_eq!(scope.here, "!9");
    assert_eq!(scope.prologue, "!10");
    assert_eq!((scope.line, scope.column), (12, 3));
    let mut out = String::new();
    metadata.print(&mut out);
    assert!(out.contains("!6 = !{!5, !5}\n"));
    assert!(out.contains("!7 = !DISubroutineType(types: !6)\n"));
    assert!(out.contains(
        "!8 = distinct !DISubprogram(name: \"f'\", scope: !1, file: !1, line: 12, type: !7, scopeLine: 12, spFlags: DISPFlagDefinition | DISPFlagLocalToUnit, unit: !2)\n"
    ));
    assert!(out.contains("!9 = !DILocation(line: 12, column: 3, scope: !8)\n"));
    assert!(out.ends_with("!10 = !DILocation(line: 0, scope: !8)\n"));
}
