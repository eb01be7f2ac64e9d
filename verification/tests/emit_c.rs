use adamas_codegen::emit_c::{
    branches_signature, c_type, chunk_signature, comparison, dispatch, escaped,
    frame_release_signature, table, ConstructorRow, Dispatch, EmitError, Verdict,
    from_word, into_word, lane_word, local, outward, preamble, release_signature, returnable,
    scalar, trampoline, trampoline_symbol, vector_loose_type, vector_type, vector_word_type,
    vectors, worded, FORWARD, HIDDEN, LOOSE_COMMENT, VECTORS_COMMENT,
};
use adamas_codegen::prim::{PrimCmp, PrimTy};
use adamas_codegen::repr::Repr;

#[test]
fn foreign_and_exported_symbols_get_their_own_names() {
    assert_eq!(local("printf"), "adamas_foreign_printf");
    assert_eq!(outward("entry"), "adamas_export_entry");
    assert_eq!(trampoline_symbol(0), "adamas_callback_0");
    assert_eq!(trampoline_symbol(42), "adamas_callback_42");
}

#[test]
fn canonical_signatures_spell_the_runtime_forms() {
    assert_eq!(
        trampoline("closure_3"),
        "static adamas_value closure_3(adamas_value self, const adamas_evidence *ev, adamas_kont *kont, adamas_value arg)"
    );
    assert_eq!(
        branches_signature(7),
        "static adamas_value handler_7(adamas_frame *h, adamas_kont *kont, uint32_t op, adamas_value *args, size_t count)"
    );
    assert_eq!(frame_release_signature("drop_env"), "static void drop_env(adamas_frame *h, adamas_kont *kont)");
    assert_eq!(release_signature(12), "static void release_12(adamas_frame *h, adamas_kont *kont)");
    assert_eq!(
        chunk_signature("f_chunk_1"),
        "static adamas_value f_chunk_1(adamas_frame *h, adamas_kont *kont, adamas_value incoming)"
    );
    assert_eq!(HIDDEN, "const adamas_evidence *ev, adamas_kont *kont");
    assert_eq!(FORWARD, "ev, kont");
}

#[test]
fn every_unit_starts_with_the_preamble() {
    let mut out = String::from("/* x */\n");
    preamble(&mut out);
    assert!(out.starts_with("/* x */\n/* "));
    assert!(out.contains("#include \"adamas.h\"\n"));
    assert!(out.contains("#define ADAMAS_ERASED adamas_con0(0xFFFCu)\n"));
    assert!(out.ends_with("#  define ADAMAS_MUSTTAIL\n#endif\n\n"));
}

#[test]
fn vectors_are_named_by_lanes_and_lane_type() {
    assert_eq!(vector_type(8, PrimTy::Float32), "adamas_simd_8_Float32");
    assert_eq!(vector_loose_type(4, PrimTy::Int64), "adamas_loose_4_Int64");
    assert_eq!(vector_word_type(16, PrimTy::UInt8), "adamas_usimd_16_UInt8");
    assert_eq!(lane_word(PrimTy::Int8), "uint8_t");
    assert_eq!(lane_word(PrimTy::Float32), "uint32_t");
    assert_eq!(lane_word(PrimTy::Float64), "uint64_t");
}

#[test]
fn comparisons_have_the_helper_names() {
    assert_eq!(comparison(PrimCmp::Eq), "eq");
    assert_eq!(comparison(PrimCmp::Ne), "ne");
    assert_eq!(comparison(PrimCmp::Lt), "lt");
    assert_eq!(comparison(PrimCmp::Le), "le");
    assert_eq!(comparison(PrimCmp::Gt), "gt");
    assert_eq!(comparison(PrimCmp::Ge), "ge");
}

#[test]
fn a_name_never_closes_the_comment_it_is_printed_in() {
    assert_eq!(escaped("Boxes.Wrap"), "Boxes.Wrap");
    assert_eq!(escaped("a\"b"), "a\\\"b");
    assert_eq!(escaped("a\\b"), "a\\\\b");
    assert_eq!(escaped("*/"), "* /");
    assert_eq!(escaped("**/"), "** /");
    assert_eq!(escaped("*//"), "* //");
    for name in ["*/*/", "/**/", "x*/y*/", "***///"] {
        assert!(!escaped(name).contains("*/"), "{name}");
    }
}

#[test]
fn heap_objects_are_one_word_and_flat_values_their_scalar() {
    for repr in [Repr::Boxed, Repr::Array, Repr::Region, Repr::Record, Repr::Resumption] {
        assert_eq!(scalar(repr), "adamas_value");
        assert!(worded(repr));
        assert!(returnable(repr));
        assert_eq!(repr.primitive(), None);
    }
    assert_eq!(scalar(Repr::Layout), "adamas_layout");
    assert_eq!(scalar(Repr::Opaque), "char *");
    assert_eq!(scalar(Repr::Flat(PrimTy::UInt16)), "uint16_t");
    assert_eq!(scalar(Repr::Flat(PrimTy::Float64)), "double");
    assert_eq!(Repr::Flat(PrimTy::Int32).primitive(), Some(PrimTy::Int32));
}

#[test]
fn aggregates_and_vectors_have_types_of_their_own() {
    assert_eq!(c_type(Repr::Packed(3)), "adamas_pack_3");
    assert_eq!(c_type(Repr::Simd { lanes: 4, lane: PrimTy::Float32 }), "adamas_simd_4_Float32");
    assert_eq!(c_type(Repr::Flat(PrimTy::Int64)), "int64_t");
    assert_eq!(c_type(Repr::Boxed), "adamas_value");
    assert!(!worded(Repr::Packed(0)));
    assert!(!worded(Repr::Opaque));
    assert!(!worded(Repr::Simd { lanes: 2, lane: PrimTy::Int64 }));
    assert!(worded(Repr::Flat(PrimTy::Float32)));
    assert!(!returnable(Repr::Packed(0)));
    assert!(!returnable(Repr::Simd { lanes: 2, lane: PrimTy::Int64 }));
    assert!(!returnable(Repr::Layout));
    assert!(!returnable(Repr::Opaque));
    assert!(returnable(Repr::Flat(PrimTy::UInt8)));
}

#[test]
fn flat_values_cross_a_chunk_boundary_as_bits() {
    let flat = Repr::Flat(PrimTy::Int64);
    assert_eq!(into_word(flat, "x"), "adamas_slot_of(adamas_word_Int64(x))");
    assert_eq!(from_word(flat, "w"), "adamas_bits_Int64(adamas_slot_word(w))");
    assert_eq!(into_word(Repr::Boxed, "x"), "x");
    assert_eq!(from_word(Repr::Record, "w"), "w");
}

#[test]
fn a_program_without_vectors_gets_no_vector_types() {
    let mut out = String::from("head\n");
    vectors(&mut out, &[], &[]);
    assert_eq!(out, "head\n");
}

#[test]
fn vector_types_are_printed_once_by_width_then_lane_name() {
    let noted = [
        (8, PrimTy::Int8),
        (4, PrimTy::Float32),
        (8, PrimTy::Int8),
        (4, PrimTy::Int16),
    ];
    let mut out = String::new();
    vectors(&mut out, &noted, &[(4, PrimTy::Float32)]);
    let expected = format!(
        "{VECTORS_COMMENT}\
typedef float adamas_simd_4_Float32 __attribute__((vector_size(16)));
_Static_assert(sizeof(adamas_simd_4_Float32) == 16u, \"ширина вектора разошлась с §4.9\");
typedef int16_t adamas_simd_4_Int16 __attribute__((vector_size(8)));
_Static_assert(sizeof(adamas_simd_4_Int16) == 8u, \"ширина вектора разошлась с §4.9\");
typedef uint16_t adamas_usimd_4_Int16 __attribute__((vector_size(8)));
typedef int8_t adamas_simd_8_Int8 __attribute__((vector_size(8)));
_Static_assert(sizeof(adamas_simd_8_Int8) == 8u, \"ширина вектора разошлась с §4.9\");
typedef uint8_t adamas_usimd_8_Int8 __attribute__((vector_size(8)));
{LOOSE_COMMENT}\
typedef float adamas_loose_4_Float32 __attribute__((vector_size(16), aligned(4)));
_Static_assert(_Alignof(adamas_loose_4_Float32) == 4u, \"граница окна разошлась с шагом колонки (§4.11)\");

"
    );
    assert_eq!(out, expected);
}

#[test]
fn the_order_shapes_were_met_in_does_not_show() {
    let mut one = String::new();
    vectors(&mut one, &[(2, PrimTy::Int64), (2, PrimTy::Int8), (16, PrimTy::UInt8)], &[]);
    let mut other = String::new();
    vectors(&mut other, &[(16, PrimTy::UInt8), (2, PrimTy::Int8), (2, PrimTy::Int64), (2, PrimTy::Int8)], &[]);
    assert_eq!(one, other);
    let int64 = one.find("adamas_simd_2_Int64").unwrap();
    let int8 = one.find("adamas_simd_2_Int8").unwrap();
    let wide = one.find("adamas_simd_16_UInt8").unwrap();
    assert!(int64 < int8 && int8 < wide);
}

#[test]
fn a_general_branch_gets_its_resumption_last() {
    let arm = Dispatch {
        case: "3",
        title: "yield",
        env: 2,
        function: 7,
        written: 1,
        verdict: Verdict::General,
        multi: true,
    };
    let mut out = String::new();
    dispatch(&mut out, &arm);
    assert_eq!(
        out,
        "    case 3: { /* yield */\n\
         \x20       if (count < 1u) { adamas_fail(\"ветке `yield` не хватило аргументов\"); }\n\
         \x20       for (size_t extra = 1u; extra < count; extra += 1) { adamas_drop_value(args[extra]); }\n\
         \x20       adamas_value seized = adamas_segment_multi(adamas_segment_value(adamas_kont_cut(kont, h)));\n\
         \x20       return fn_7(ev, kont, adamas_dup(env[0]), adamas_dup(env[1]), args[0], seized);\n\
         \x20   }\n"
    );
}

#[test]
fn an_abortive_branch_cuts_before_it_runs() {
    let arm = Dispatch {
        case: "ADAMAS_HANDLER_RETURN",
        title: "return",
        env: 0,
        function: 2,
        written: 0,
        verdict: Verdict::Abortive,
        multi: false,
    };
    let mut out = String::new();
    dispatch(&mut out, &arm);
    assert!(out.starts_with("    case ADAMAS_HANDLER_RETURN: { /* return */\n"));
    assert!(out.contains(
        "        adamas_segment_unwind(kont, adamas_kont_cut(kont, h));\n        return fn_2(ev, kont);\n    }\n"
    ));
    assert!(!out.contains("seized"));
}

#[test]
fn a_tail_resumptive_branch_leaves_the_segment_alone() {
    let arm = Dispatch {
        case: "0",
        title: "get",
        env: 1,
        function: 4,
        written: 2,
        verdict: Verdict::Tail,
        multi: false,
    };
    let mut out = String::new();
    dispatch(&mut out, &arm);
    assert!(out.contains("        return fn_4(ev, kont, adamas_dup(env[0]), args[0], args[1]);\n"));
    assert!(!out.contains("adamas_kont_cut"));
    let general = Dispatch { verdict: Verdict::General, ..arm };
    let mut seized = String::new();
    dispatch(&mut seized, &general);
    assert!(seized.contains("        adamas_value seized = adamas_segment_value(adamas_kont_cut(kont, h));\n"));
}

#[test]
fn the_constructor_table_lists_every_slot_with_its_start() {
    let rows = vec![
        ConstructorRow {
            name: "Nil".to_string(),
            data: "List".to_string(),
            kinds: vec![],
            labels: vec![],
            written: 0,
        },
        ConstructorRow {
            name: "Cons".to_string(),
            data: "List".to_string(),
            kinds: vec![4, 0],
            labels: vec![None, None],
            written: 0,
        },
        ConstructorRow {
            name: "Point".to_string(),
            data: "Point\"".to_string(),
            kinds: vec![4, 4, 0],
            labels: vec![Some("x".to_string()), Some("y".to_string()), None],
            written: 3,
        },
    ];
    let mut out = String::new();
    table(&mut out, &rows);
    let expected = "/* Конструкторы программы по тегу. Хвостовой элемент - чтобы массив не
 * оказался пустым у программы без единого конструктора. */
#define ADAMAS_CONSTRUCTORS 3u
static const char *const adamas_con_name[] = {
    \"Nil\", /* List */
    \"Cons\", /* List */
    \"Point\", /* Point\\\" */
    \"\"
};

static const uint16_t adamas_con_slots[] = {
    0u,
    2u,
    3u,
    0u
};

/* Сорт каждого слота: `ADAMAS_FLAT_BOXED` - ссылка, иначе примитив.
 * Слоты конструкторов идут подряд, начало каждого - в `adamas_con_slot0`. */
static const uint16_t adamas_con_slot0[] = {
    0u,
    0u,
    2u,
    5u
};

static const uint8_t adamas_slot_kind[] = {
    4u, /* Cons */
    0u, /* Cons */
    4u, /* Point */
    4u, /* Point */
    0u, /* Point */
    ADAMAS_FLAT_BOXED
};

/* Метки полей записи по слотам; `NULL` у конструктора семейства.
 * Слоты идут подряд, начало каждого - в `adamas_con_slot0`. */
static const char *const adamas_slot_label[] = {
    NULL,
    NULL,
    \"x\",
    \"y\",
    NULL,
    NULL
};

/* Сколько полей у записи написано; ноль - конструктор семейства.
 * Больше числа слотов - печатать её нечем: часть полей стёрта. */
static const uint16_t adamas_con_labels[] = {
    0u,
    0u,
    3u,
    0u
};

";
    assert_eq!(out, expected);
}

#[test]
fn a_program_without_constructors_still_has_its_arrays() {
    let mut out = String::new();
    table(&mut out, &[]);
    assert!(out.contains("#define ADAMAS_CONSTRUCTORS 0u\n"));
    assert!(out.contains("static const uint16_t adamas_con_slot0[] = {\n    0u\n};\n"));
    assert!(out.ends_with("static const uint16_t adamas_con_labels[] = {\n    0u\n};\n\n"));
}

#[test]
fn emission_refusals_name_the_function() {
    let hidden = EmitError::Hidden { caller: "f".to_string(), callee: "g".to_string() };
    assert_eq!(hidden.message(), "`f` первой формы зовёт `g`: скрытых аргументов у неё нет");
    let parked = EmitError::Parked { function: "h".to_string(), shape: "плотный агрегат".to_string() };
    assert_eq!(
        parked.message(),
        "`h`: плотный агрегат переживает точку приостановки - слот кадра шире не бывает (§4.11)"
    );
    let lanewise = EmitError::Lanewise { function: "v".to_string(), op: "div".to_string() };
    assert_eq!(lanewise.message(), "`v`: `div` подорожечной не бывает - ограждений у неё нет (§4.9)");
}
