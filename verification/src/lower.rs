//! Why lowering of core terms refuses.
//!
//! Lowering itself reads the core language's terms and signatures, which are
//! another crate's; what stands here is its vocabulary of refusals and the
//! text each one is reported with.

use vstd::prelude::*;

use crate::text::{decimal, extend, push_str, spec_decimal, text_of};

verus! {

/// Why lowering refused.
#[derive(Debug)]
pub enum LowerError {
    /// A name the signature does not declare.
    Unknown {
        /// The name itself.
        name: String,
    },
    /// A postulate: a type without a body, nothing to lower.
    Postulate {
        /// The postulate's name.
        name: String,
    },
    /// A nursery in a position where no circle can be set up.
    Nursery {
        /// The postulate or operation.
        name: String,
        /// What is wrong with the position.
        why: &'static str,
    },
    /// An eliminator of a handler this lowering does not install.
    Handler {
        /// The eliminator.
        name: String,
        /// Why it is not taken.
        why: &'static str,
    },
    /// A handler branch this lowering does not lower.
    Verdict {
        /// The handler's label.
        effect: String,
        /// Whose branch it is.
        operation: String,
        /// What the verdict came out as.
        why: &'static str,
    },
    /// An effect label or its operation where it has no value.
    Operation {
        /// The label or operation.
        name: String,
        /// Why it is not lowered.
        why: &'static str,
    },
    /// A type family in the position of a value.
    TypeValue {
        /// The family.
        name: String,
    },
    /// A form of term outside the pure fragment.
    Unsupported {
        /// What was met.
        form: &'static str,
    },
    /// The program's answer is a function.
    FunctionAnswer,
    /// More constructors than tags: the top of the range belongs to the runtime.
    TooManyConstructors {
        /// How many fit.
        limit: u16,
    },
    /// A variable outside the captured environment.
    Unbound {
        /// Its de Bruijn index.
        index: u32,
    },
    /// A live binding got no argument.
    Missing {
        /// Whose.
        name: String,
        /// Which binding.
        binder: usize,
    },
    /// The representation of a value differs from that of its position.
    Representation {
        /// In which position.
        at: &'static str,
        /// What is declared there.
        want: String,
        /// What came.
        got: String,
    },
    /// A primitive operation without both arguments.
    Partial {
        /// The operation.
        name: String,
    },
    /// An array operation without all its arguments.
    PartialArray {
        /// The operation.
        name: String,
    },
    /// The program's answer is an array.
    ArrayAnswer,
    /// A region operation without all its arguments.
    PartialRegion {
        /// The operation.
        name: String,
    },
    /// A region payload without a flat layout.
    RegionPayload {
        /// How the payload's representation is written.
        written: String,
    },
    /// The program's answer is a region block.
    RegionAnswer,
    /// The program's answer is a flat aggregate, which has no header to print by.
    PackedAnswer,
    /// A layout descriptor written as the wrong record.
    Descriptor,
    /// A projection from a value whose record shape is lost.
    Shapeless {
        /// The field taken.
        label: String,
    },
    /// A scope exit without both suspended computations.
    Scope,
    /// A projection of a field the record shape does not have.
    NoField {
        /// The field taken.
        label: String,
        /// The shape it is taken from.
        shape: String,
    },
}

/// The text that reports a refusal.
pub open spec fn spec_lower_message(error: LowerError) -> Seq<char> {
    match error {
        LowerError::Unknown { name } => "имя `"@ + name@ + "` не объявлено"@,
        LowerError::Postulate { name } => "`"@ + name@ + "` - постулат: тела нет, и понижать нечего"@,
        LowerError::Nursery { name, why } => "`"@ + name@ + "` - питомник (§5.2): "@ + why@,
        LowerError::Handler { name, why } => "`"@ + name@ + "` - "@ + why@,
        LowerError::Verdict { effect, operation, why } => "ветка `"@ + operation@ + "` хендлера `"@ + effect@ + "` "@ + why@,
        LowerError::Operation { name, why } => "`"@ + name@ + "` - "@ + why@,
        LowerError::TypeValue { name } => "`"@ + name@ + "` - семейство типов: значения у него в рантайме нет"@,
        LowerError::Unsupported { form } => form@ + " этим срезом не берётся"@,
        LowerError::FunctionAnswer => "ответ программы - функция: печатать её нечем"@,
        LowerError::TooManyConstructors { limit } => "конструкторов больше "@ + spec_decimal(limit as nat) + ": верх диапазона тегов занят рантаймом"@,
        LowerError::Unbound { index } => "переменная #"@ + spec_decimal(index as nat) + " вне захваченной среды"@,
        LowerError::Missing { name, binder } => "`"@ + name@ + "`: живому связыванию #"@ + spec_decimal(binder as nat) + " не досталось аргумента"@,
        LowerError::Representation { at, want, got } => at@ + ": ожидалось "@ + want@ + ", а пришло "@ + got@ + " (§4.11)"@,
        LowerError::Partial { name } => "`"@ + name@ + "` без обоих аргументов: примитив значением требует дескриптора layout (§4.11)"@,
        LowerError::PartialArray { name } => "`"@ + name@ + "` без всех аргументов: операция над массивом значением этим срезом не берётся"@,
        LowerError::ArrayAnswer => "ответ программы - массив: печатать его нечем (§4.11)"@,
        LowerError::PartialRegion { name } => "`"@ + name@ + "` без всех аргументов: операция над регионом значением этим срезом не берётся"@,
        LowerError::RegionPayload { written } => "нагрузка региона `"@ + written@ + "` плоской укладки в понижении не имеет (§3.6, §4.11)"@,
        LowerError::RegionAnswer => "ответ программы - блок региона: печатать его нечем (§3.6)"@,
        LowerError::PackedAnswer => "ответ программы - плоский агрегат: заголовка у него нет, печатать нечем (§4.11)"@,
        LowerError::Descriptor => "дескриптор укладки ожидался записью `{ layout = { size, align } }` (§4.11)"@,
        LowerError::Shapeless { label } => "`."@ + label@ + "`: форма записи потеряна, слот брать неоткуда (§4.2)"@,
        LowerError::Scope => "выход из scope без обоих приостановленных вычислений (§3.3)"@,
        LowerError::NoField { label, shape } => "`."@ + label@ + "`: поля нет в форме `"@ + shape@ + "` (§4.2)"@,
    }
}

impl LowerError {
    /// The text that reports the refusal.
    pub fn message(&self) -> (m: String)
        ensures
            m@ == spec_lower_message(*self),
    {
        let mut out: Vec<char> = Vec::new();
        match self {
            LowerError::Unknown { name } => {
                push_str(&mut out, "имя `");
                push_str(&mut out, name.as_str());
                push_str(&mut out, "` не объявлено");
            },
            LowerError::Postulate { name } => {
                push_str(&mut out, "`");
                push_str(&mut out, name.as_str());
                push_str(&mut out, "` - постулат: тела нет, и понижать нечего");
            },
            LowerError::Nursery { name, why } => {
                push_str(&mut out, "`");
                push_str(&mut out, name.as_str());
                push_str(&mut out, "` - питомник (§5.2): ");
                push_str(&mut out, why);
            },
            LowerError::Handler { name, why } => {
                push_str(&mut out, "`");
                push_str(&mut out, name.as_str());
                push_str(&mut out, "` - ");
                push_str(&mut out, why);
            },
            LowerError::Verdict { effect, operation, why } => {
                push_str(&mut out, "ветка `");
                push_str(&mut out, operation.as_str());
                push_str(&mut out, "` хендлера `");
                push_str(&mut out, effect.as_str());
                push_str(&mut out, "` ");
                push_str(&mut out, why);
            },
            LowerError::Operation { name, why } => {
                push_str(&mut out, "`");
                push_str(&mut out, name.as_str());
                push_str(&mut out, "` - ");
                push_str(&mut out, why);
            },
            LowerError::TypeValue { name } => {
                push_str(&mut out, "`");
                push_str(&mut out, name.as_str());
                push_str(&mut out, "` - семейство типов: значения у него в рантайме нет");
            },
            LowerError::Unsupported { form } => {
                push_str(&mut out, form);
                push_str(&mut out, " этим срезом не берётся");
            },
            LowerError::FunctionAnswer => {
                push_str(&mut out, "ответ программы - функция: печатать её нечем");
            },
            LowerError::TooManyConstructors { limit } => {
                push_str(&mut out, "конструкторов больше ");
                extend(&mut out, &decimal(*limit as u64));
                push_str(&mut out, ": верх диапазона тегов занят рантаймом");
            },
            LowerError::Unbound { index } => {
                push_str(&mut out, "переменная #");
                extend(&mut out, &decimal(*index as u64));
                push_str(&mut out, " вне захваченной среды");
            },
            LowerError::Missing { name, binder } => {
                push_str(&mut out, "`");
                push_str(&mut out, name.as_str());
                push_str(&mut out, "`: живому связыванию #");
                extend(&mut out, &decimal(*binder as u64));
                push_str(&mut out, " не досталось аргумента");
            },
            LowerError::Representation { at, want, got } => {
                push_str(&mut out, at);
                push_str(&mut out, ": ожидалось ");
                push_str(&mut out, want.as_str());
                push_str(&mut out, ", а пришло ");
                push_str(&mut out, got.as_str());
                push_str(&mut out, " (§4.11)");
            },
            LowerError::Partial { name } => {
                push_str(&mut out, "`");
                push_str(&mut out, name.as_str());
                push_str(&mut out, "` без обоих аргументов: примитив значением требует дескриптора layout (§4.11)");
            },
            LowerError::PartialArray { name } => {
                push_str(&mut out, "`");
                push_str(&mut out, name.as_str());
                push_str(&mut out, "` без всех аргументов: операция над массивом значением этим срезом не берётся");
            },
            LowerError::ArrayAnswer => {
                push_str(&mut out, "ответ программы - массив: печатать его нечем (§4.11)");
            },
            LowerError::PartialRegion { name } => {
                push_str(&mut out, "`");
                push_str(&mut out, name.as_str());
                push_str(&mut out, "` без всех аргументов: операция над регионом значением этим срезом не берётся");
            },
            LowerError::RegionPayload { written } => {
                push_str(&mut out, "нагрузка региона `");
                push_str(&mut out, written.as_str());
                push_str(&mut out, "` плоской укладки в понижении не имеет (§3.6, §4.11)");
            },
            LowerError::RegionAnswer => {
                push_str(&mut out, "ответ программы - блок региона: печатать его нечем (§3.6)");
            },
            LowerError::PackedAnswer => {
                push_str(&mut out, "ответ программы - плоский агрегат: заголовка у него нет, печатать нечем (§4.11)");
            },
            LowerError::Descriptor => {
                push_str(&mut out, "дескриптор укладки ожидался записью `{ layout = { size, align } }` (§4.11)");
            },
            LowerError::Shapeless { label } => {
                push_str(&mut out, "`.");
                push_str(&mut out, label.as_str());
                push_str(&mut out, "`: форма записи потеряна, слот брать неоткуда (§4.2)");
            },
            LowerError::Scope => {
                push_str(&mut out, "выход из scope без обоих приостановленных вычислений (§3.3)");
            },
            LowerError::NoField { label, shape } => {
                push_str(&mut out, "`.");
                push_str(&mut out, label.as_str());
                push_str(&mut out, "`: поля нет в форме `");
                push_str(&mut out, shape.as_str());
                push_str(&mut out, "` (§4.2)");
            },
        }
        text_of(&out)
    }
}

} // verus!
