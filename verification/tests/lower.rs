use adamas_codegen::lower::LowerError;
use adamas_codegen::prim::{PrimCmp, PrimTy};

#[test]
fn refusals_of_lowering_name_what_they_refuse() {
    assert_eq!(LowerError::Unknown { name: "f".to_string() }.message(), "имя `f` не объявлено");
    assert_eq!(
        LowerError::Postulate { name: "p".to_string() }.message(),
        "`p` - постулат: тела нет, и понижать нечего"
    );
    assert_eq!(
        LowerError::Verdict { effect: "E".to_string(), operation: "op".to_string(), why: "абортивна" }
            .message(),
        "ветка `op` хендлера `E` абортивна"
    );
    assert_eq!(LowerError::Unsupported { form: "with" }.message(), "with этим срезом не берётся");
    assert_eq!(
        LowerError::FunctionAnswer.message(),
        "ответ программы - функция: печатать её нечем"
    );
}

#[test]
fn numbers_in_refusals_are_printed_in_decimal() {
    assert_eq!(
        LowerError::TooManyConstructors { limit: 65532 }.message(),
        "конструкторов больше 65532: верх диапазона тегов занят рантаймом"
    );
    assert_eq!(
        LowerError::Unbound { index: 0 }.message(),
        "переменная #0 вне захваченной среды"
    );
    assert_eq!(
        LowerError::Missing { name: "g".to_string(), binder: 12 }.message(),
        "`g`: живому связыванию #12 не досталось аргумента"
    );
}

#[test]
fn refusals_about_records_and_layout() {
    assert_eq!(
        LowerError::Descriptor.message(),
        "дескриптор укладки ожидался записью `{ layout = { size, align } }` (§4.11)"
    );
    assert_eq!(
        LowerError::NoField { label: "x".to_string(), shape: "{ y }".to_string() }.message(),
        "`.x`: поля нет в форме `{ y }` (§4.2)"
    );
    assert_eq!(
        LowerError::Representation { at: "аргумент", want: "Int64".to_string(), got: "ptr".to_string() }
            .message(),
        "аргумент: ожидалось Int64, а пришло ptr (§4.11)"
    );
}

#[test]
fn primitive_types_know_their_names_and_widths() {
    assert_eq!(PrimTy::Int64.name(), "Int64");
    assert_eq!(PrimTy::UInt8.name(), "UInt8");
    assert_eq!(PrimTy::Float32.size(), 4);
    assert_eq!(PrimTy::UInt16.size(), 2);
    assert_eq!(PrimTy::Float64.size(), 8);
    assert!(PrimTy::Int32.signed());
    assert!(!PrimTy::UInt32.signed());
    assert!(!PrimTy::Float64.signed());
    assert_ne!(PrimCmp::Lt, PrimCmp::Le);
}
