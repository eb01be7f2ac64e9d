//! Names and signatures the C emitter prints.
//!
//! The emitter turns the IR into one portable C translation unit. What stands
//! here is the part of it that does not read the IR: the names it gives to
//! foreign and exported symbols, the canonical signatures of trampolines,
//! handler branches and frame chunks, the text every unit starts with, and
//! the spelling of vector types.

use vstd::prelude::*;

use crate::prim::{spec_floating, spec_name, spec_signed, spec_size, PrimCmp, PrimTy};
use crate::repr::{spec_primitive, Repr};
use crate::text::{
    chars_of, decimal, joined, lemma_concat_next, push_str, spec_concat, spec_decimal, spec_joined,
    text_of,
};

verus! {

/// Why emission to C refused.
#[derive(Debug)]
pub enum EmitError {
    /// A function of the first form calls one of the second directly: the
    /// first has no hidden arguments to hand on.
    Hidden {
        /// Whose first form.
        caller: String,
        /// Whom it calls.
        callee: String,
    },
    /// An operation in a function whose answer is flat: the answer of an
    /// abort is a value, and such a function has nothing to return it in.
    Aborting {
        /// Whose function.
        function: String,
    },
    /// A binding that lives across a suspension point but does not fit a
    /// frame slot.
    Parked {
        /// Whose function.
        function: String,
        /// What did not fit.
        shape: String,
    },
    /// An operation that has no lane-wise form.
    Lanewise {
        /// Whose function.
        function: String,
        /// The operation, as it is printed.
        op: String,
    },
}

/// The text that reports an emission refusal.
pub open spec fn spec_emit_message(error: EmitError) -> Seq<char> {
    match error {
        EmitError::Hidden { caller, callee } => "`"@ + caller@ + "` первой формы зовёт `"@ + callee@
            + "`: скрытых аргументов у неё нет"@,
        EmitError::Aborting { function } => "`"@ + function@
            + "`: операция в функции с плоским ответом - обрыв вернуть нечем (§4.11)"@,
        EmitError::Parked { function, shape } => "`"@ + function@ + "`: "@ + shape@
            + " переживает точку приостановки - слот кадра шире не бывает (§4.11)"@,
        EmitError::Lanewise { function, op } => "`"@ + function@ + "`: `"@ + op@
            + "` подорожечной не бывает - ограждений у неё нет (§4.9)"@,
    }
}

impl EmitError {
    /// The text that reports the refusal.
    pub fn message(&self) -> (m: String)
        ensures
            m@ == spec_emit_message(*self),
    {
        let mut out = chars_of("`");
        match self {
            EmitError::Hidden { caller, callee } => {
                push_str(&mut out, caller.as_str());
                push_str(&mut out, "` первой формы зовёт `");
                push_str(&mut out, callee.as_str());
                push_str(&mut out, "`: скрытых аргументов у неё нет");
            },
            EmitError::Aborting { function } => {
                push_str(&mut out, function.as_str());
                push_str(&mut out, "`: операция в функции с плоским ответом - обрыв вернуть нечем (§4.11)");
            },
            EmitError::Parked { function, shape } => {
                push_str(&mut out, function.as_str());
                push_str(&mut out, "`: ");
                push_str(&mut out, shape.as_str());
                push_str(&mut out, " переживает точку приостановки - слот кадра шире не бывает (§4.11)");
            },
            EmitError::Lanewise { function, op } => {
                push_str(&mut out, function.as_str());
                push_str(&mut out, "`: `");
                push_str(&mut out, op.as_str());
                push_str(&mut out, "` подорожечной не бывает - ограждений у неё нет (§4.9)");
            },
        }
        text_of(&out)
    }
}

/// Hidden arguments of the second form, in the order of
/// `adamas_lowered_second`: the evidence vector, then the stack handle.
pub const HIDDEN: &'static str = "const adamas_evidence *ev, adamas_kont *kont";

/// The same arguments at a call site.
pub const FORWARD: &'static str = "ev, kont";

/// Name of a foreign symbol inside the generated unit.
///
/// The real name may be taken by a system header; the linker still sees the
/// author's symbol through an `__asm__` label.
pub fn local(symbol: &str) -> (name: String)
    ensures
        name@ == "adamas_foreign_"@ + symbol@,
{
    let mut out = chars_of("adamas_foreign_");
    push_str(&mut out, symbol);
    text_of(&out)
}

/// Name of an export wrapper inside the generated unit.
pub fn outward(symbol: &str) -> (name: String)
    ensures
        name@ == "adamas_export_"@ + symbol@,
{
    let mut out = chars_of("adamas_export_");
    push_str(&mut out, symbol);
    text_of(&out)
}

/// Name of the trampoline of the level-2 callback with this number.
pub fn trampoline_symbol(id: usize) -> (name: String)
    ensures
        name@ == "adamas_callback_"@ + spec_decimal(id as nat),
{
    let mut out = chars_of("adamas_callback_");
    crate::text::extend(&mut out, &decimal(id as u64));
    text_of(&out)
}

/// Signature of a closure trampoline: the canonical code form of `adamas.h`.
pub fn trampoline(name: &str) -> (signature: String)
    ensures
        signature@ == "static adamas_value "@ + name@
            + "(adamas_value self, const adamas_evidence *ev, adamas_kont *kont, adamas_value arg)"@,
{
    let mut out = chars_of("static adamas_value ");
    push_str(&mut out, name);
    push_str(
        &mut out,
        "(adamas_value self, const adamas_evidence *ev, adamas_kont *kont, adamas_value arg)",
    );
    text_of(&out)
}

/// Signature of the branches of handler `at`: the form of
/// `adamas_handler_code`.
pub fn branches_signature(at: usize) -> (signature: String)
    ensures
        signature@ == "static adamas_value handler_"@ + spec_decimal(at as nat)
            + "(adamas_frame *h, adamas_kont *kont, uint32_t op, adamas_value *args, size_t count)"@,
{
    let mut out = chars_of("static adamas_value handler_");
    crate::text::extend(&mut out, &decimal(at as u64));
    push_str(
        &mut out,
        "(adamas_frame *h, adamas_kont *kont, uint32_t op, adamas_value *args, size_t count)",
    );
    text_of(&out)
}

/// Signature of the release of a frame environment: the form of
/// `adamas_frame_release`.
pub fn frame_release_signature(name: &str) -> (signature: String)
    ensures
        signature@ == "static void "@ + name@ + "(adamas_frame *h, adamas_kont *kont)"@,
{
    let mut out = chars_of("static void ");
    push_str(&mut out, name);
    push_str(&mut out, "(adamas_frame *h, adamas_kont *kont)");
    text_of(&out)
}

/// Signature of the release of the frame environment of handler `at`.
pub fn release_signature(at: usize) -> (signature: String)
    ensures
        signature@ == "static void "@ + ("release_"@ + spec_decimal(at as nat))
            + "(adamas_frame *h, adamas_kont *kont)"@,
{
    let mut name = chars_of("release_");
    crate::text::extend(&mut name, &decimal(at as u64));
    frame_release_signature(text_of(&name).as_str())
}

/// Signature of a chunk of a split body: the form of `adamas_frame_code`.
pub fn chunk_signature(name: &str) -> (signature: String)
    ensures
        signature@ == "static adamas_value "@ + name@
            + "(adamas_frame *h, adamas_kont *kont, adamas_value incoming)"@,
{
    let mut out = chars_of("static adamas_value ");
    push_str(&mut out, name);
    push_str(&mut out, "(adamas_frame *h, adamas_kont *kont, adamas_value incoming)");
    text_of(&out)
}

/// What a handler branch does with the stack segment.
#[derive(Clone, Copy, Debug, PartialEq, Eq, Structural)]
pub enum Verdict {
    /// Tail-resumptive: the segment is left alone, and the branch's answer is
    /// the value of the operation.
    Tail,
    /// Abortive: the segment is cut and its unwinding is put down before the
    /// branch runs.
    Abortive,
    /// General: the segment is cut into a value and handed to the branch.
    General,
}

/// One arm of the `switch` of a handler's branches: all that tells branches
/// apart.
#[derive(Clone, Copy, Debug)]
pub struct Dispatch<'a> {
    /// The `case` label: the operation's number or `ADAMAS_HANDLER_RETURN`.
    pub case: &'a str,
    /// The operation's name, written in the generated C.
    pub title: &'a str,
    /// Slots in the frame's environment.
    pub env: usize,
    /// The number of the function of the branch's body.
    pub function: usize,
    /// How many arguments of the operation it binds.
    pub written: usize,
    /// Its verdict.
    pub verdict: Verdict,
    /// Whether the handler is multi-shot.
    pub multi: bool,
}

/// The resumption a general branch gets: the segment cut into a value,
/// marked as multi-shot when the handler is.
pub open spec fn spec_seized(multi: bool) -> Seq<char> {
    if multi {
        "adamas_segment_multi("@ + "adamas_segment_value(adamas_kont_cut(kont, h))"@ + ")"@
    } else {
        "adamas_segment_value(adamas_kont_cut(kont, h))"@
    }
}

/// What a branch's function is called with: the hidden arguments, a new
/// reference to each slot of the environment, the operation's arguments as
/// they came, and the seized resumption for a general branch.
pub open spec fn spec_given(env: nat, written: nat, verdict: Verdict) -> Seq<Seq<char>> {
    seq![FORWARD@] + Seq::new(env, |slot: int| "adamas_dup(env["@ + spec_decimal(slot as nat) + "])"@)
        + Seq::new(written, |slot: int| "args["@ + spec_decimal(slot as nat) + "]"@) + if verdict
        == Verdict::General {
        seq!["seized"@]
    } else {
        seq![]
    }
}

/// The head of an arm: its label, the check that enough arguments came, and
/// the drop of the extra ones.
pub open spec fn spec_dispatch_head(arm: Dispatch) -> Seq<char> {
    let written = spec_decimal(arm.written as nat);
    "    case "@ + arm.case@ + ": { /* "@ + arm.title@ + " */\n"@ + "        if (count < "@ + written
        + "u) { adamas_fail(\"ветке `"@ + arm.title@ + "` не хватило аргументов\"); }\n"@
        + "        for (size_t extra = "@ + written
        + "u; extra < count; extra += 1) { adamas_drop_value(args[extra]); }\n"@
}

/// The cut of an abortive branch's segment, put down before the branch.
pub open spec fn spec_dispatch_cut(verdict: Verdict) -> Seq<char> {
    if verdict == Verdict::Abortive {
        "        adamas_segment_unwind(kont, adamas_kont_cut(kont, h));\n"@
    } else {
        seq![]
    }
}

/// The seizing of a general branch's resumption.
pub open spec fn spec_dispatch_seize(verdict: Verdict, multi: bool) -> Seq<char> {
    if verdict == Verdict::General {
        "        adamas_value seized = "@ + spec_seized(multi) + ";\n"@
    } else {
        seq![]
    }
}

/// The call of the branch's function, and the end of the arm.
pub open spec fn spec_dispatch_call(arm: Dispatch) -> Seq<char> {
    "        return fn_"@ + spec_decimal(arm.function as nat) + "("@ + spec_joined(
        spec_given(arm.env as nat, arm.written as nat, arm.verdict),
        ", "@,
    ) + ");\n"@ + "    }\n"@
}

/// The text of one arm of a handler's `switch`.
pub open spec fn spec_dispatch(arm: Dispatch) -> Seq<char> {
    spec_dispatch_head(arm) + spec_dispatch_cut(arm.verdict) + spec_dispatch_seize(
        arm.verdict,
        arm.multi,
    ) + spec_dispatch_call(arm)
}

fn dispatch_head(arm: &Dispatch) -> (text: Vec<char>)
    ensures
        text@ == spec_dispatch_head(*arm),
{
    let written = decimal(arm.written as u64);
    let mut c = chars_of("    case ");
    push_str(&mut c, arm.case);
    push_str(&mut c, ": { /* ");
    push_str(&mut c, arm.title);
    push_str(&mut c, " */\n");
    push_str(&mut c, "        if (count < ");
    crate::text::extend(&mut c, &written);
    push_str(&mut c, "u) { adamas_fail(\"ветке `");
    push_str(&mut c, arm.title);
    push_str(&mut c, "` не хватило аргументов\"); }\n");
    push_str(&mut c, "        for (size_t extra = ");
    crate::text::extend(&mut c, &written);
    push_str(&mut c, "u; extra < count; extra += 1) { adamas_drop_value(args[extra]); }\n");
    c
}

fn dispatch_seize(verdict: Verdict, multi: bool) -> (text: Vec<char>)
    ensures
        text@ == spec_dispatch_seize(verdict, multi),
{
    if verdict == Verdict::General {
        let mut c = chars_of("        adamas_value seized = ");
        if multi {
            push_str(&mut c, "adamas_segment_multi(");
            push_str(&mut c, "adamas_segment_value(adamas_kont_cut(kont, h))");
            push_str(&mut c, ")");
        } else {
            push_str(&mut c, "adamas_segment_value(adamas_kont_cut(kont, h))");
        }
        push_str(&mut c, ";\n");
        c
    } else {
        let c: Vec<char> = Vec::new();
        assert(c@ =~= seq![]);
        c
    }
}

fn dispatch_call(arm: &Dispatch) -> (text: Vec<char>)
    ensures
        text@ == spec_dispatch_call(*arm),
{
    let mut c = chars_of("        return fn_");
    crate::text::extend(&mut c, &decimal(arm.function as u64));
    push_str(&mut c, "(");
    let args = given(arm.env, arm.written, arm.verdict);
    crate::text::extend(&mut c, &joined(&args, ", "));
    push_str(&mut c, ");\n");
    push_str(&mut c, "    }\n");
    c
}

fn given(env: usize, written: usize, verdict: Verdict) -> (args: Vec<String>)
    ensures
        args@.map_values(|s: String| s@) == spec_given(env as nat, written as nat, verdict),
{
    let mut args: Vec<String> = Vec::new();
    args.push(text_of(&chars_of(FORWARD)));
    let ghost first = seq![FORWARD@];
    assert(args@.map_values(|s: String| s@) =~= first);
    let ghost dups = Seq::new(env as nat, |slot: int| "adamas_dup(env["@ + spec_decimal(slot as nat) + "])"@);
    let mut slot: usize = 0;
    while slot < env
        invariant
            slot <= env,
            dups == Seq::new(env as nat, |slot: int| "adamas_dup(env["@ + spec_decimal(slot as nat) + "])"@),
            args@.map_values(|s: String| s@) == first + dups.subrange(0, slot as int),
        decreases env - slot,
    {
        let ghost before = args@.map_values(|s: String| s@);
        let mut c = chars_of("adamas_dup(env[");
        crate::text::extend(&mut c, &decimal(slot as u64));
        push_str(&mut c, "])");
        args.push(text_of(&c));
        assert(args@.map_values(|s: String| s@) =~= before.push(dups[slot as int]));
        slot += 1;
        assert(dups.subrange(0, slot as int) =~= dups.subrange(0, slot - 1).push(dups[slot - 1]));
    }
    assert(dups.subrange(0, env as int) =~= dups);
    let ghost taken = Seq::new(written as nat, |slot: int| "args["@ + spec_decimal(slot as nat) + "]"@);
    let mut slot: usize = 0;
    while slot < written
        invariant
            slot <= written,
            taken == Seq::new(written as nat, |slot: int| "args["@ + spec_decimal(slot as nat) + "]"@),
            args@.map_values(|s: String| s@) == first + dups + taken.subrange(0, slot as int),
        decreases written - slot,
    {
        let ghost before = args@.map_values(|s: String| s@);
        let mut c = chars_of("args[");
        crate::text::extend(&mut c, &decimal(slot as u64));
        push_str(&mut c, "]");
        args.push(text_of(&c));
        assert(args@.map_values(|s: String| s@) =~= before.push(taken[slot as int]));
        slot += 1;
        assert(taken.subrange(0, slot as int) =~= taken.subrange(0, slot - 1).push(taken[slot - 1]));
    }
    assert(taken.subrange(0, written as int) =~= taken);
    if verdict == Verdict::General {
        let ghost before = args@.map_values(|s: String| s@);
        args.push(text_of(&chars_of("seized")));
        assert(args@.map_values(|s: String| s@) =~= before + seq!["seized"@]);
    } else {
        assert(args@.map_values(|s: String| s@) =~= first + dups + taken + seq![]);
    }
    args
}

/// Writes one arm of the `switch` of a handler's branches.
///
/// The frame's environment belongs to the frame and the branch's function
/// takes its arguments by ownership, so each slot gets a new reference; the
/// operation's arguments come owned and go on as they are, and the extra
/// ones, which only this place knows to be extra, are dropped here.
pub fn dispatch(out: &mut String, arm: &Dispatch)
    ensures
        final(out)@ == old(out)@ + spec_dispatch(*arm),
{
    let mut c = chars_of(out.as_str());
    let ghost start = c@;
    let head = dispatch_head(arm);
    crate::text::extend(&mut c, &head);
    if arm.verdict == Verdict::Abortive {
        push_str(&mut c, "        adamas_segment_unwind(kont, adamas_kont_cut(kont, h));\n");
    } else {
        assert(c@ =~= c@ + spec_dispatch_cut(arm.verdict));
    }
    let ghost cut = c@;
    let seize = dispatch_seize(arm.verdict, arm.multi);
    crate::text::extend(&mut c, &seize);
    let call = dispatch_call(arm);
    crate::text::extend(&mut c, &call);
    assert(c@ =~= start + (head@ + spec_dispatch_cut(arm.verdict) + seize@ + call@));
    *out = text_of(&c);
}

/// The text every generated unit starts with: what it is, the runtime
/// header, the erased-position macro and the `musttail` macro.
pub open spec fn spec_preamble() -> Seq<char> {
    PREAMBLE@
}

/// The head of every generated unit.
pub const PREAMBLE: &'static str = "/* Порождено понижением Adamas. Править нечего: правится тот, кто породил.\n *\n * Договор с рантаймом - `adamas.h`; форма значения, владение и кадры\n * описаны там. Здесь только код программы.\n */\n\n#include \"adamas.h\"\n\n#include <stdio.h>\n\n/* Стёртая позиция (§3.3): значения в рантайме нет. Макрос стоит там, где\n * стёртое связывание всё-таки упомянули бы, и печатается заметно. */\n#define ADAMAS_ERASED adamas_con0(0xFFFCu)\n\n/* Самохвостовой вызов: гарантия §6, а не оптимизация.\n *\n * Приставка стоит ровно там, где вызываемый есть сама функция, - тогда\n * прототипы совпадают дословно, и требование обоих компиляторов выполнено\n * по построению. Она снимает два условия, от которых иначе зависит\n * гарантия: уровень оптимизации (свёртку соседнего вызова gcc включает с\n * `-O2`, а порождённое собирается `-O1`) и отсутствие локали, чей адрес\n * ушёл наружу (`adamas_kont` у применения замыкания - ровно такая).\n *\n * Где приставки нет, макрос пуст, и гарантия возвращается к тому, чем\n * была: свёртке соседнего вызова при `-O2`. Это ослабление, а не отказ\n * сборки, и названо оно тем же порядком, каким §9 называет границы\n * `musttail`: clang с 13, gcc с 15.1. */\n#if defined(__has_attribute)\n#  if __has_attribute(musttail)\n#    define ADAMAS_MUSTTAIL __attribute__((musttail))\n#  endif\n#endif\n#ifndef ADAMAS_MUSTTAIL\n#  define ADAMAS_MUSTTAIL\n#endif\n\n";

/// Appends the head of a generated unit.
pub fn preamble(out: &mut String)
    ensures
        final(out)@ == old(out)@ + spec_preamble(),
{
    let mut c = chars_of(out.as_str());
    push_str(&mut c, PREAMBLE);
    *out = text_of(&c);
}

pub(crate) proof fn lemma_widths()
    ensures
        spec_decimal(8) == seq!['8'],
        spec_decimal(16) == seq!['1', '6'],
        spec_decimal(32) == seq!['3', '2'],
        spec_decimal(64) == seq!['6', '4'],
{
    reveal_with_fuel(spec_decimal, 2);
    assert(spec_decimal(16) =~= seq!['1', '6']);
    assert(spec_decimal(32) =~= seq!['3', '2']);
    assert(spec_decimal(64) =~= seq!['6', '4']);
}

/// A flat value's C type has the width and the sign of its type: an integer
/// is `intN_t` when signed and `uintN_t` when not, `N` its width in bits;
/// a four-byte float is `float` and an eight-byte one `double`.
pub proof fn lemma_scalar_width(ty: PrimTy)
    ensures
        !spec_floating(ty) ==> spec_scalar(Repr::Flat(ty)) == (if spec_signed(ty) {
            "int"@
        } else {
            "uint"@
        }) + spec_decimal((8 * spec_size(ty)) as nat) + "_t"@,
        spec_floating(ty) ==> spec_scalar(Repr::Flat(ty)) == (if spec_size(ty) == 4 {
            "float"@
        } else {
            "double"@
        }),
{
    lemma_widths();
    reveal_strlit("int");
    reveal_strlit("uint");
    reveal_strlit("_t");
    reveal_strlit("int8_t");
    reveal_strlit("int16_t");
    reveal_strlit("int32_t");
    reveal_strlit("int64_t");
    reveal_strlit("uint8_t");
    reveal_strlit("uint16_t");
    reveal_strlit("uint32_t");
    reveal_strlit("uint64_t");
    match ty {
        PrimTy::Int8 => assert("int8_t"@ =~= "int"@ + seq!['8'] + "_t"@),
        PrimTy::Int16 => assert("int16_t"@ =~= "int"@ + seq!['1', '6'] + "_t"@),
        PrimTy::Int32 => assert("int32_t"@ =~= "int"@ + seq!['3', '2'] + "_t"@),
        PrimTy::Int64 => assert("int64_t"@ =~= "int"@ + seq!['6', '4'] + "_t"@),
        PrimTy::UInt8 => assert("uint8_t"@ =~= "uint"@ + seq!['8'] + "_t"@),
        PrimTy::UInt16 => assert("uint16_t"@ =~= "uint"@ + seq!['1', '6'] + "_t"@),
        PrimTy::UInt32 => assert("uint32_t"@ =~= "uint"@ + seq!['3', '2'] + "_t"@),
        PrimTy::UInt64 => assert("uint64_t"@ =~= "uint"@ + seq!['6', '4'] + "_t"@),
        _ => {},
    }
}

/// The word vector arithmetic runs in is unsigned and exactly as wide as the
/// lane, whatever the lane's type: `uintN_t`, `N` the lane's width in bits.
pub proof fn lemma_lane_word_width(lane: PrimTy)
    ensures
        spec_lane_word(lane) == "uint"@ + spec_decimal((8 * spec_size(lane)) as nat) + "_t"@,
{
    lemma_widths();
    reveal_strlit("uint");
    reveal_strlit("_t");
    reveal_strlit("uint8_t");
    reveal_strlit("uint16_t");
    reveal_strlit("uint32_t");
    reveal_strlit("uint64_t");
    assert("uint8_t"@ =~= "uint"@ + seq!['8'] + "_t"@);
    assert("uint16_t"@ =~= "uint"@ + seq!['1', '6'] + "_t"@);
    assert("uint32_t"@ =~= "uint"@ + seq!['3', '2'] + "_t"@);
    assert("uint64_t"@ =~= "uint"@ + seq!['6', '4'] + "_t"@);
}

/// The C type of everything but a flat aggregate and a vector: these names
/// do not depend on anything else.
pub open spec fn spec_scalar(repr: Repr) -> Seq<char> {
    match repr {
        Repr::Boxed | Repr::Array | Repr::Region | Repr::Record | Repr::Resumption => "adamas_value"@,
        Repr::Layout => "adamas_layout"@,
        Repr::Opaque => "char *"@,
        Repr::Flat(PrimTy::Int8) => "int8_t"@,
        Repr::Flat(PrimTy::Int16) => "int16_t"@,
        Repr::Flat(PrimTy::Int32) => "int32_t"@,
        Repr::Flat(PrimTy::Int64) => "int64_t"@,
        Repr::Flat(PrimTy::UInt8) => "uint8_t"@,
        Repr::Flat(PrimTy::UInt16) => "uint16_t"@,
        Repr::Flat(PrimTy::UInt32) => "uint32_t"@,
        Repr::Flat(PrimTy::UInt64) => "uint64_t"@,
        Repr::Flat(PrimTy::Float32) => "float"@,
        Repr::Flat(PrimTy::Float64) => "double"@,
        Repr::Packed(_) => "adamas_pack"@,
        Repr::Simd { .. } => "adamas_simd"@,
    }
}

/// The C type of everything but a flat aggregate: heap objects of every
/// sort are one word, a flat value is its C scalar.
pub fn scalar(repr: Repr) -> (ty: &'static str)
    ensures
        ty@ == spec_scalar(repr),
{
    match repr {
        Repr::Boxed | Repr::Array | Repr::Region | Repr::Record | Repr::Resumption => "adamas_value",
        Repr::Layout => "adamas_layout",
        Repr::Opaque => "char *",
        Repr::Flat(PrimTy::Int8) => "int8_t",
        Repr::Flat(PrimTy::Int16) => "int16_t",
        Repr::Flat(PrimTy::Int32) => "int32_t",
        Repr::Flat(PrimTy::Int64) => "int64_t",
        Repr::Flat(PrimTy::UInt8) => "uint8_t",
        Repr::Flat(PrimTy::UInt16) => "uint16_t",
        Repr::Flat(PrimTy::UInt32) => "uint32_t",
        Repr::Flat(PrimTy::UInt64) => "uint64_t",
        Repr::Flat(PrimTy::Float32) => "float",
        Repr::Flat(PrimTy::Float64) => "double",
        Repr::Packed(_) => "adamas_pack",
        Repr::Simd { .. } => "adamas_simd",
    }
}

/// The C type of a binding: a flat aggregate has the type of its layout, a
/// vector the type of its width and lane.
pub open spec fn spec_c_type(repr: Repr) -> Seq<char> {
    match repr {
        Repr::Packed(pack) => "adamas_pack_"@ + spec_decimal(pack as nat),
        Repr::Simd { lanes, lane } => "adamas_simd_"@ + spec_decimal(lanes as nat) + "_"@
            + spec_name(lane),
        other => spec_scalar(other),
    }
}

/// The C type of a binding.
pub fn c_type(repr: Repr) -> (ty: String)
    ensures
        ty@ == spec_c_type(repr),
{
    match repr {
        Repr::Packed(pack) => {
            let mut out = chars_of("adamas_pack_");
            crate::text::extend(&mut out, &decimal(pack as u64));
            text_of(&out)
        },
        Repr::Simd { lanes, lane } => vector_type(lanes, lane),
        other => text_of(&chars_of(scalar(other))),
    }
}

/// Whether a value fits a frame slot whole: a heap object of any sort, or a
/// flat value of a primitive type as bits. A flat aggregate is wider than a
/// word, and a flat element of unknown type is a buffer on the frame.
pub open spec fn spec_worded(repr: Repr) -> bool {
    spec_primitive(repr) is Some || spec_scalar(repr) == "adamas_value"@
}

/// Whether a value fits a frame slot whole.
pub fn worded(repr: Repr) -> (fits: bool)
    ensures
        fits == spec_worded(repr),
{
    repr.primitive().is_some() || crate::text::same_text(scalar(repr), "adamas_value")
}

/// A value as a word: a flat primitive by its bits, anything else as it is.
pub open spec fn spec_into_word(repr: Repr, value: Seq<char>) -> Seq<char> {
    match spec_primitive(repr) {
        Some(ty) => "adamas_slot_of(adamas_word_"@ + spec_name(ty) + "("@ + value + "))"@,
        None => value,
    }
}

/// A value as a word.
pub fn into_word(repr: Repr, value: &str) -> (word: String)
    ensures
        word@ == spec_into_word(repr, value@),
{
    match repr.primitive() {
        Some(ty) => {
            let mut out = chars_of("adamas_slot_of(adamas_word_");
            push_str(&mut out, ty.name());
            push_str(&mut out, "(");
            push_str(&mut out, value);
            push_str(&mut out, "))");
            text_of(&out)
        },
        None => text_of(&chars_of(value)),
    }
}

/// A word back into a value of the declared representation.
pub open spec fn spec_from_word(repr: Repr, value: Seq<char>) -> Seq<char> {
    match spec_primitive(repr) {
        Some(ty) => "adamas_bits_"@ + spec_name(ty) + "(adamas_slot_word("@ + value + "))"@,
        None => value,
    }
}

/// A word back into a value.
pub fn from_word(repr: Repr, value: &str) -> (back: String)
    ensures
        back@ == spec_from_word(repr, value@),
{
    match repr.primitive() {
        Some(ty) => {
            let mut out = chars_of("adamas_bits_");
            push_str(&mut out, ty.name());
            push_str(&mut out, "(adamas_slot_word(");
            push_str(&mut out, value);
            push_str(&mut out, "))");
            text_of(&out)
        },
        None => text_of(&chars_of(value)),
    }
}

/// Whether an answer of this representation may carry the `musttail`
/// prefix: what leaves in a register, a heap object's word or a flat scalar.
/// A flat aggregate, a vector and a layout descriptor come back as C values
/// of composite type, and an opaque element is never an answer.
pub open spec fn spec_returnable(repr: Repr) -> bool {
    match repr {
        Repr::Boxed | Repr::Array | Repr::Region | Repr::Record | Repr::Resumption
        | Repr::Flat(_) => true,
        _ => false,
    }
}

/// Whether an answer of this representation may carry `musttail`.
pub fn returnable(repr: Repr) -> (fits: bool)
    ensures
        fits == spec_returnable(repr),
{
    match repr {
        Repr::Boxed | Repr::Array | Repr::Region | Repr::Record | Repr::Resumption
        | Repr::Flat(_) => true,
        _ => false,
    }
}

/// Whether text `a` comes before text `b`, character by character, a proper
/// prefix first: the order of `str`.
pub open spec fn spec_text_less(a: Seq<char>, b: Seq<char>) -> bool
    decreases a.len(),
{
    if b.len() == 0 {
        false
    } else if a.len() == 0 {
        true
    } else if a[0] != b[0] {
        a[0] < b[0]
    } else {
        spec_text_less(a.drop_first(), b.drop_first())
    }
}

proof fn lemma_text_less_transitive(a: Seq<char>, b: Seq<char>, c: Seq<char>)
    requires
        spec_text_less(a, b),
        spec_text_less(b, c),
    ensures
        spec_text_less(a, c),
    decreases a.len(),
{
    if a.len() > 0 && a[0] == b[0] && b[0] == c[0] {
        lemma_text_less_transitive(a.drop_first(), b.drop_first(), c.drop_first());
    }
}

proof fn lemma_text_less_irreflexive(a: Seq<char>)
    ensures
        !spec_text_less(a, a),
    decreases a.len(),
{
    if a.len() > 0 {
        lemma_text_less_irreflexive(a.drop_first());
    }
}

fn text_less(a: &str, b: &str) -> (less: bool)
    ensures
        less == spec_text_less(a@, b@),
{
    let x = chars_of(a);
    let y = chars_of(b);
    let mut i: usize = 0;
    proof {
        assert(x@.subrange(0, x@.len() as int) =~= x@);
        assert(y@.subrange(0, y@.len() as int) =~= y@);
    }
    while i < x.len() && i < y.len() && x[i] == y[i]
        invariant
            i <= x@.len(),
            i <= y@.len(),
            spec_text_less(a@, b@) == spec_text_less(x@.subrange(i as int, x@.len() as int), y@.subrange(i as int, y@.len() as int)),
            x@ == a@,
            y@ == b@,
        decreases x@.len() - i,
    {
        let ghost xs = x@.subrange(i as int, x@.len() as int);
        let ghost ys = y@.subrange(i as int, y@.len() as int);
        assert(xs.drop_first() =~= x@.subrange(i + 1, x@.len() as int));
        assert(ys.drop_first() =~= y@.subrange(i + 1, y@.len() as int));
        i += 1;
    }
    proof {
        assert(x@.subrange(0, x@.len() as int) =~= x@);
        assert(y@.subrange(0, y@.len() as int) =~= y@);
    }
    if i == y.len() {
        false
    } else if i == x.len() {
        true
    } else {
        x[i] < y[i]
    }
}

/// The order vector shapes are printed in: by the number of lanes, then by
/// the lane's name.
pub open spec fn spec_shape_before(a: (u32, PrimTy), b: (u32, PrimTy)) -> bool {
    a.0 < b.0 || (a.0 == b.0 && spec_text_less(spec_name(a.1), spec_name(b.1)))
}

proof fn lemma_shape_before_transitive(a: (u32, PrimTy), b: (u32, PrimTy), c: (u32, PrimTy))
    requires
        spec_shape_before(a, b),
        spec_shape_before(b, c),
    ensures
        spec_shape_before(a, c),
{
    if a.0 == b.0 && b.0 == c.0 {
        lemma_text_less_transitive(spec_name(a.1), spec_name(b.1), spec_name(c.1));
    }
}

fn shape_before(a: (u32, PrimTy), b: (u32, PrimTy)) -> (before: bool)
    ensures
        before == spec_shape_before(a, b),
{
    a.0 < b.0 || (a.0 == b.0 && text_less(a.1.name(), b.1.name()))
}

/// The first position from `p` on before whose shape `x` goes, or the end.
pub open spec fn spec_place_from(r: Seq<(u32, PrimTy)>, x: (u32, PrimTy), p: int) -> int
    decreases r.len() - p,
{
    if p < 0 || p >= r.len() {
        r.len() as int
    } else if spec_shape_before(x, r[p]) {
        p
    } else {
        spec_place_from(r, x, p + 1)
    }
}

/// `x` put into the arranged shapes `r`, unless it is there already.
pub open spec fn spec_put(r: Seq<(u32, PrimTy)>, x: (u32, PrimTy)) -> Seq<(u32, PrimTy)> {
    if r.contains(x) {
        r
    } else {
        r.insert(spec_place_from(r, x, 0), x)
    }
}

/// The shapes from `k` on put into `acc` one by one.
pub open spec fn spec_arranged_from(s: Seq<(u32, PrimTy)>, k: int, acc: Seq<(u32, PrimTy)>) -> Seq<
    (u32, PrimTy),
>
    decreases s.len() - k,
{
    if k < 0 || k >= s.len() {
        acc
    } else {
        spec_arranged_from(s, k + 1, spec_put(acc, s[k]))
    }
}

/// The shapes as they are printed: each once, in the order of
/// [`spec_shape_before`].
pub open spec fn spec_arranged(s: Seq<(u32, PrimTy)>) -> Seq<(u32, PrimTy)> {
    spec_arranged_from(s, 0, seq![])
}

/// Whether shapes are each once and in print order.
pub open spec fn spec_in_order(r: Seq<(u32, PrimTy)>) -> bool {
    &&& forall|i: int, j: int| 0 <= i < j < r.len() ==> #[trigger] r[i] != #[trigger] r[j]
    &&& forall|i: int, j: int|
        0 <= i < j < r.len() ==> !spec_shape_before(#[trigger] r[j], #[trigger] r[i])
}

proof fn lemma_place_from(r: Seq<(u32, PrimTy)>, x: (u32, PrimTy), p: int)
    requires
        0 <= p <= r.len(),
    ensures
        p <= spec_place_from(r, x, p) <= r.len(),
        forall|i: int| p <= i < spec_place_from(r, x, p) ==> !spec_shape_before(x, #[trigger] r[i]),
        spec_place_from(r, x, p) < r.len() ==> spec_shape_before(x, r[spec_place_from(r, x, p)]),
    decreases r.len() - p,
{
    if p < r.len() && !spec_shape_before(x, r[p]) {
        lemma_place_from(r, x, p + 1);
    }
}

proof fn lemma_put(r: Seq<(u32, PrimTy)>, x: (u32, PrimTy))
    requires
        spec_in_order(r),
    ensures
        spec_in_order(spec_put(r, x)),
        forall|y: (u32, PrimTy)| spec_put(r, x).contains(y) <==> (r.contains(y) || y == x),
{
    if !r.contains(x) {
        lemma_place_from(r, x, 0);
        let p = spec_place_from(r, x, 0);
        let n = r.insert(p, x);
        assert forall|i: int, j: int| 0 <= i < j < n.len() implies !spec_shape_before(
            #[trigger] n[j],
            #[trigger] n[i],
        ) && n[i] != n[j] by {
            if j < p {
                assert(n[i] == r[i] && n[j] == r[j]);
            } else if j == p {
                assert(n[i] == r[i]);
                assert(n[j] == x);
                assert(!spec_shape_before(x, r[i]));
                assert(r.contains(r[i]));
            } else if i == p {
                assert(n[i] == x);
                assert(n[j] == r[j - 1]);
                lemma_text_less_irreflexive(spec_name(r[j - 1].1));
                assert(r.contains(r[j - 1]));
                if spec_shape_before(r[j - 1], x) {
                    assert(spec_shape_before(x, r[p]));
                    lemma_shape_before_transitive(r[j - 1], x, r[p]);
                    assert(p <= j - 1);
                    if p < j - 1 {
                        assert(!spec_shape_before(r[j - 1], r[p]));
                    }
                }
            } else if i < p {
                assert(n[i] == r[i] && n[j] == r[j - 1]);
            } else {
                assert(n[i] == r[i - 1] && n[j] == r[j - 1]);
            }
        }
        assert forall|y: (u32, PrimTy)| n.contains(y) <==> (r.contains(y) || y == x) by {
            if n.contains(y) {
                let k = choose|k: int| 0 <= k < n.len() && n[k] == y;
                if k < p {
                    assert(r[k] == y);
                } else if k > p {
                    assert(r[k - 1] == y);
                }
            }
            if r.contains(y) {
                let k = choose|k: int| 0 <= k < r.len() && r[k] == y;
                if k < p {
                    assert(n[k] == y);
                } else {
                    assert(n[k + 1] == y);
                }
            }
            if y == x {
                assert(n[p] == y);
            }
        }
    }
}

proof fn lemma_arranged_from(s: Seq<(u32, PrimTy)>, k: int, acc: Seq<(u32, PrimTy)>)
    requires
        0 <= k <= s.len(),
        spec_in_order(acc),
        forall|y: (u32, PrimTy)| acc.contains(y) <==> exists|i: int| 0 <= i < k && s[i] == y,
    ensures
        spec_in_order(spec_arranged_from(s, k, acc)),
        forall|y: (u32, PrimTy)| spec_arranged_from(s, k, acc).contains(y) <==> s.contains(y),
    decreases s.len() - k,
{
    if k < s.len() {
        lemma_put(acc, s[k]);
        let next = spec_put(acc, s[k]);
        assert forall|y: (u32, PrimTy)| next.contains(y) <==> exists|i: int| 0 <= i < k + 1 && s[i] == y by {
            if next.contains(y) && y != s[k] {
                assert(acc.contains(y));
            }
            if exists|i: int| 0 <= i < k + 1 && s[i] == y {
                let i = choose|i: int| 0 <= i < k + 1 && s[i] == y;
                if i < k {
                    assert(acc.contains(y));
                }
            }
        }
        lemma_arranged_from(s, k + 1, next);
    } else {
        assert forall|y: (u32, PrimTy)| acc.contains(y) <==> s.contains(y) by {
            if s.contains(y) {
                let i = choose|i: int| 0 <= i < s.len() && s[i] == y;
                assert(0 <= i < k && s[i] == y);
            }
        }
    }
}

proof fn lemma_text_less_total(a: Seq<char>, b: Seq<char>)
    requires
        a != b,
    ensures
        spec_text_less(a, b) || spec_text_less(b, a),
    decreases a.len(),
{
    if a.len() > 0 && b.len() > 0 && a[0] == b[0] {
        if a.drop_first() == b.drop_first() {
            assert(a =~= seq![a[0]] + a.drop_first());
            assert(b =~= seq![b[0]] + b.drop_first());
        }
        lemma_text_less_total(a.drop_first(), b.drop_first());
    } else if a.len() == 0 && b.len() == 0 {
        assert(a =~= b);
    }
}

proof fn lemma_names_differ(x: PrimTy, y: PrimTy)
    requires
        x != y,
    ensures
        spec_name(x) != spec_name(y),
{
    reveal_strlit("Int8");
    reveal_strlit("Int16");
    reveal_strlit("Int32");
    reveal_strlit("Int64");
    reveal_strlit("UInt8");
    reveal_strlit("UInt16");
    reveal_strlit("UInt32");
    reveal_strlit("UInt64");
    reveal_strlit("Float32");
    reveal_strlit("Float64");
    assert(spec_name(x).len() != spec_name(y).len() || spec_name(x)[0] != spec_name(y)[0] || spec_name(x)[1] != spec_name(y)[1] || spec_name(x)[3] != spec_name(y)[3] || spec_name(x)[4] != spec_name(y)[4] || spec_name(x)[5] != spec_name(y)[5]);
}

/// Vector shapes come out each once, strictly ordered by width and then by
/// lane name, and exactly the shapes that were noted: the order in which
/// they were noted does not show in the text.
pub proof fn lemma_arranged(s: Seq<(u32, PrimTy)>)
    ensures
        spec_in_order(spec_arranged(s)),
        forall|i: int, j: int|
            0 <= i < j < spec_arranged(s).len() ==> spec_shape_before(
                #[trigger] spec_arranged(s)[i],
                #[trigger] spec_arranged(s)[j],
            ),
        forall|y: (u32, PrimTy)| spec_arranged(s).contains(y) <==> s.contains(y),
{
    lemma_arranged_from(s, 0, seq![]);
    let r = spec_arranged(s);
    assert forall|i: int, j: int| 0 <= i < j < r.len() implies spec_shape_before(
        #[trigger] r[i],
        #[trigger] r[j],
    ) by {
        assert(r[i] != r[j] && !spec_shape_before(r[j], r[i]));
        if r[i].0 == r[j].0 {
            lemma_names_differ(r[i].1, r[j].1);
            lemma_text_less_total(spec_name(r[i].1), spec_name(r[j].1));
        }
    }
}

fn put(r: &mut Vec<(u32, PrimTy)>, x: (u32, PrimTy))
    ensures
        final(r)@ == spec_put(old(r)@, x),
{
    let mut i: usize = 0;
    while i < r.len()
        invariant
            i <= r@.len(),
            forall|j: int| 0 <= j < i ==> r@[j] != x,
        decreases r@.len() - i,
    {
        if r[i].0 == x.0 && r[i].1 == x.1 {
            assert(r@[i as int] == x);
            assert(old(r)@.contains(x));
            return;
        }
        i += 1;
    }
    assert(!r@.contains(x));
    let mut p: usize = 0;
    while p < r.len() && !shape_before(x, r[p])
        invariant
            p <= r@.len(),
            spec_place_from(r@, x, 0) == spec_place_from(r@, x, p as int),
        decreases r@.len() - p,
    {
        p += 1;
    }
    r.insert(p, x);
}

/// The shapes each once, in print order.
fn arranged(s: &[(u32, PrimTy)]) -> (r: Vec<(u32, PrimTy)>)
    ensures
        r@ == spec_arranged(s@),
{
    let mut r: Vec<(u32, PrimTy)> = Vec::new();
    let mut k: usize = 0;
    while k < s.len()
        invariant
            k <= s@.len(),
            spec_arranged(s@) == spec_arranged_from(s@, k as int, r@),
        decreases s@.len() - k,
    {
        put(&mut r, s[k]);
        k += 1;
    }
    r
}

/// Comment above the vector types.
pub const VECTORS_COMMENT: &'static str = "/* Векторы (§4.9): дорожки лежат подряд и обрабатываются одной\n * инструкцией. `vector_size` - расширение gcc и clang; структура из\n * полей дала бы тот же ответ и потому свидетелем не является. */\n";

/// Comment above the unaligned twins of vector types.
pub const LOOSE_COMMENT: &'static str = "/* Невыровненные близнецы (§4.9): ими читается и пишется окно\n * колонки. Граница у них - ширина дорожки, то есть ровно та,\n * которую обещает плоская укладка §4.11; выровненный тип дал бы\n * компилятору право на `movaps` и обрыв на первой же колонке,\n * чьё начало не кратно ширине регистра. */\n";

/// Bytes of a vector of this shape.
pub open spec fn spec_vector_bytes(shape: (u32, PrimTy)) -> nat {
    (shape.0 * spec_size(shape.1)) as nat
}

/// The typedef of a vector type, its size check, and for integer lanes the
/// typedef of its unsigned twin.
pub open spec fn spec_vector_lines(shape: (u32, PrimTy)) -> Seq<char> {
    let (lanes, lane) = shape;
    let name = "adamas_simd_"@ + spec_decimal(lanes as nat) + "_"@ + spec_name(lane);
    let bytes = spec_decimal(spec_vector_bytes(shape));
    "typedef "@ + spec_scalar(Repr::Flat(lane)) + " "@ + name + " __attribute__((vector_size("@
        + bytes + ")));\n"@ + "_Static_assert(sizeof("@ + name + ") == "@ + bytes
        + "u, \""@ + "ширина вектора разошлась с §4.9"@ + "\");\n"@ + if spec_floating(lane) {
        seq![]
    } else {
        "typedef "@ + spec_lane_word(lane) + " "@ + ("adamas_usimd_"@ + spec_decimal(lanes as nat)
            + "_"@ + spec_name(lane)) + " __attribute__((vector_size("@ + bytes + ")));\n"@
    }
}

/// The typedef of the unaligned twin of a vector type and its check.
pub open spec fn spec_loose_lines(shape: (u32, PrimTy)) -> Seq<char> {
    let (lanes, lane) = shape;
    let name = "adamas_loose_"@ + spec_decimal(lanes as nat) + "_"@ + spec_name(lane);
    let bytes = spec_decimal(spec_vector_bytes(shape));
    let align = spec_decimal(spec_size(lane) as nat);
    "typedef "@ + spec_scalar(Repr::Flat(lane)) + " "@ + name + " __attribute__((vector_size("@
        + bytes + "), aligned("@ + align + ")));\n"@ + "_Static_assert(_Alignof("@ + name + ") == "@
        + align + "u, \""@ + "граница окна разошлась с шагом колонки (§4.11)"@ + "\");\n"@
}

/// The lines of each shape in turn.
pub open spec fn spec_vectors_text(shapes: Seq<(u32, PrimTy)>) -> Seq<char>
    decreases shapes.len(),
{
    if shapes.len() == 0 {
        seq![]
    } else {
        spec_vectors_text(shapes.drop_last()) + spec_vector_lines(shapes.last())
    }
}

/// The lines of each unaligned twin in turn.
pub open spec fn spec_loose_text(shapes: Seq<(u32, PrimTy)>) -> Seq<char>
    decreases shapes.len(),
{
    if shapes.len() == 0 {
        seq![]
    } else {
        spec_loose_text(shapes.drop_last()) + spec_loose_lines(shapes.last())
    }
}

/// The vector types of a program: nothing if it uses none; otherwise the
/// comment, every shape once in print order, and then, if any shape goes to
/// memory, the unaligned twins of those shapes, with an empty line last.
pub open spec fn spec_vectors(noted: Seq<(u32, PrimTy)>, loose: Seq<(u32, PrimTy)>) -> Seq<char> {
    let shapes = spec_arranged(noted);
    let twins = spec_arranged(loose);
    if shapes.len() == 0 {
        seq![]
    } else {
        VECTORS_COMMENT@ + spec_vectors_text(shapes) + (if twins.len() == 0 {
            seq![]
        } else {
            LOOSE_COMMENT@ + spec_loose_text(twins)
        }) + seq!['\n']
    }
}

/// Whether the bytes of every shape fit a `u32`.
pub open spec fn spec_sizes_fit(shapes: Seq<(u32, PrimTy)>) -> bool {
    forall|k: int| 0 <= k < shapes.len() ==> spec_vector_bytes(#[trigger] shapes[k]) <= u32::MAX
}

fn typedef_line(scalar: &str, name: &str, bytes: &Vec<char>, tail: &str) -> (line: Vec<char>)
    ensures
        line@ == "typedef "@ + scalar@ + " "@ + name@ + " __attribute__((vector_size("@ + bytes@
            + tail@,
{
    let mut line = chars_of("typedef ");
    push_str(&mut line, scalar);
    push_str(&mut line, " ");
    push_str(&mut line, name);
    push_str(&mut line, " __attribute__((vector_size(");
    crate::text::extend(&mut line, bytes);
    push_str(&mut line, tail);
    line
}

fn check_line(head: &str, name: &str, value: &Vec<char>, message: &str) -> (line: Vec<char>)
    ensures
        line@ == head@ + name@ + ") == "@ + value@ + "u, \""@ + message@ + "\");\n"@,
{
    let mut line = chars_of(head);
    push_str(&mut line, name);
    push_str(&mut line, ") == ");
    crate::text::extend(&mut line, value);
    push_str(&mut line, "u, \"");
    push_str(&mut line, message);
    push_str(&mut line, "\");\n");
    line
}

fn vector_lines(out: &mut Vec<char>, shape: (u32, PrimTy))
    requires
        spec_vector_bytes(shape) <= u32::MAX,
    ensures
        final(out)@ == old(out)@ + spec_vector_lines(shape),
{
    let (lanes, lane) = shape;
    let name = vector_type(lanes, lane);
    let bytes = decimal((lanes * lane.size()) as u64);
    let first = typedef_line(scalar(Repr::Flat(lane)), name.as_str(), &bytes, ")));\n");
    let second = check_line(
        "_Static_assert(sizeof(",
        name.as_str(),
        &bytes,
        "ширина вектора разошлась с §4.9",
    );
    let third = if !lane.floating() {
        typedef_line(lane_word(lane), vector_word_type(lanes, lane).as_str(), &bytes, ")));\n")
    } else {
        Vec::new()
    };
    proof {
        assert(third@ == (if spec_floating(lane) {
            seq![]
        } else {
            "typedef "@ + spec_lane_word(lane) + " "@ + ("adamas_usimd_"@ + spec_decimal(
                lanes as nat,
            ) + "_"@ + spec_name(lane)) + " __attribute__((vector_size("@ + bytes@ + ")));\n"@
        }));
        assert(first@ + second@ + third@ =~= spec_vector_lines(shape));
    }
    crate::text::extend(out, &first);
    crate::text::extend(out, &second);
    crate::text::extend(out, &third);
    assert(out@ =~= old(out)@ + (first@ + second@ + third@));
}

fn loose_lines(out: &mut Vec<char>, shape: (u32, PrimTy))
    requires
        spec_vector_bytes(shape) <= u32::MAX,
    ensures
        final(out)@ == old(out)@ + spec_loose_lines(shape),
{
    let (lanes, lane) = shape;
    let name = vector_loose_type(lanes, lane);
    let bytes = decimal((lanes * lane.size()) as u64);
    let align = decimal(lane.size() as u64);
    let mut tail = chars_of("), aligned(");
    crate::text::extend(&mut tail, &align);
    push_str(&mut tail, ")));\n");
    let first = typedef_line(scalar(Repr::Flat(lane)), name.as_str(), &bytes, text_of(&tail).as_str());
    let second = check_line(
        "_Static_assert(_Alignof(",
        name.as_str(),
        &align,
        "граница окна разошлась с шагом колонки (§4.11)",
    );
    proof {
        assert(first@ + second@ =~= spec_loose_lines(shape));
    }
    crate::text::extend(out, &first);
    crate::text::extend(out, &second);
    assert(out@ =~= old(out)@ + (first@ + second@));
}

proof fn lemma_shape_before_irreflexive(a: (u32, PrimTy))
    ensures
        !spec_shape_before(a, a),
{
    lemma_text_less_irreflexive(spec_name(a.1));
}

proof fn lemma_ordered_unique(r: Seq<(u32, PrimTy)>, q: Seq<(u32, PrimTy)>)
    requires
        forall|i: int, j: int| 0 <= i < j < r.len() ==> spec_shape_before(#[trigger] r[i], #[trigger] r[j]),
        forall|i: int, j: int| 0 <= i < j < q.len() ==> spec_shape_before(#[trigger] q[i], #[trigger] q[j]),
        forall|y: (u32, PrimTy)| r.contains(y) <==> q.contains(y),
    ensures
        r == q,
    decreases r.len(),
{
    if r.len() == 0 {
        if q.len() > 0 {
            assert(q.contains(q[0]));
        }
        assert(r =~= q);
    } else if q.len() == 0 {
        assert(r.contains(r[0]));
    } else {
        assert(r.contains(r[0]) && q.contains(q[0]));
        if r[0] != q[0] {
            let k = choose|k: int| 0 <= k < q.len() && q[k] == r[0];
            let m = choose|m: int| 0 <= m < r.len() && r[m] == q[0];
            assert(spec_shape_before(q[0], q[k]));
            assert(spec_shape_before(r[0], r[m]));
            lemma_shape_before_transitive(r[0], q[0], r[0]);
            lemma_shape_before_irreflexive(r[0]);
        }
        let r1 = r.drop_first();
        let q1 = q.drop_first();
        assert forall|i: int, j: int| 0 <= i < j < r1.len() implies spec_shape_before(
            #[trigger] r1[i],
            #[trigger] r1[j],
        ) by {
            assert(r1[i] == r[i + 1] && r1[j] == r[j + 1]);
        }
        assert forall|i: int, j: int| 0 <= i < j < q1.len() implies spec_shape_before(
            #[trigger] q1[i],
            #[trigger] q1[j],
        ) by {
            assert(q1[i] == q[i + 1] && q1[j] == q[j + 1]);
        }
        assert forall|y: (u32, PrimTy)| r1.contains(y) <==> q1.contains(y) by {
            if r1.contains(y) {
                let i = choose|i: int| 0 <= i < r1.len() && r1[i] == y;
                assert(r[i + 1] == y);
                assert(spec_shape_before(r[0], r[i + 1]));
                lemma_shape_before_irreflexive(y);
                assert(q.contains(y));
                let k = choose|k: int| 0 <= k < q.len() && q[k] == y;
                assert(k != 0);
                assert(q1[k - 1] == y);
            }
            if q1.contains(y) {
                let i = choose|i: int| 0 <= i < q1.len() && q1[i] == y;
                assert(q[i + 1] == y);
                assert(spec_shape_before(q[0], q[i + 1]));
                lemma_shape_before_irreflexive(y);
                assert(r.contains(y));
                let k = choose|k: int| 0 <= k < r.len() && r[k] == y;
                assert(k != 0);
                assert(r1[k - 1] == y);
            }
        }
        lemma_ordered_unique(r1, q1);
        assert(r =~= seq![r[0]] + r1);
        assert(q =~= seq![q[0]] + q1);
    }
}

/// The vector types printed do not depend on the order in which shapes were
/// met, nor on how often: the same shapes give the same text.
pub proof fn lemma_vectors_reproducible(
    noted: Seq<(u32, PrimTy)>,
    loose: Seq<(u32, PrimTy)>,
    other_noted: Seq<(u32, PrimTy)>,
    other_loose: Seq<(u32, PrimTy)>,
)
    requires
        forall|y: (u32, PrimTy)| noted.contains(y) <==> other_noted.contains(y),
        forall|y: (u32, PrimTy)| loose.contains(y) <==> other_loose.contains(y),
    ensures
        spec_vectors(noted, loose) == spec_vectors(other_noted, other_loose),
{
    lemma_arranged(noted);
    lemma_arranged(other_noted);
    lemma_arranged(loose);
    lemma_arranged(other_loose);
    let (a, b) = (spec_arranged(noted), spec_arranged(other_noted));
    assert forall|y: (u32, PrimTy)| a.contains(y) <==> b.contains(y) by {
        assert(a.contains(y) <==> noted.contains(y));
        assert(b.contains(y) <==> other_noted.contains(y));
    }
    lemma_ordered_unique(a, b);
    let (c, d) = (spec_arranged(loose), spec_arranged(other_loose));
    assert forall|y: (u32, PrimTy)| c.contains(y) <==> d.contains(y) by {
        assert(c.contains(y) <==> loose.contains(y));
        assert(d.contains(y) <==> other_loose.contains(y));
    }
    lemma_ordered_unique(c, d);
}

/// Prints the vector types a program uses.
///
/// `noted` are the vector shapes met in the program, width and lane, in the
/// order met and as often as met; `loose` are those met in a load or a
/// store, which also need an unaligned twin for the window of a column.
/// The order of the text does not depend on the order of meeting: it is by
/// width, then by the lane's name.
pub fn vectors(out: &mut String, noted: &[(u32, PrimTy)], loose: &[(u32, PrimTy)])
    requires
        spec_sizes_fit(noted@),
        spec_sizes_fit(loose@),
    ensures
        final(out)@ == old(out)@ + spec_vectors(noted@, loose@),
{
    let shapes = arranged(noted);
    let twins = arranged(loose);
    proof {
        lemma_arranged(noted@);
        lemma_arranged(loose@);
    }
    if shapes.len() == 0 {
        assert(old(out)@ + spec_vectors(noted@, loose@) =~= old(out)@);
        return;
    }
    let mut c = chars_of(out.as_str());
    let ghost start = c@;
    push_str(&mut c, VECTORS_COMMENT);
    let ghost head = c@;
    let mut k: usize = 0;
    while k < shapes.len()
        invariant
            k <= shapes@.len(),
            shapes@ == spec_arranged(noted@),
            spec_sizes_fit(noted@),
            forall|y: (u32, PrimTy)| shapes@.contains(y) <==> noted@.contains(y),
            c@ == head + spec_vectors_text(shapes@.subrange(0, k as int)),
        decreases shapes@.len() - k,
    {
        assert(shapes@.contains(shapes@[k as int]));
        let ghost m = choose|m: int| 0 <= m < noted@.len() && noted@[m] == shapes@[k as int];
        assert(spec_vector_bytes(noted@[m]) <= u32::MAX);
        vector_lines(&mut c, shapes[k]);
        assert(shapes@.subrange(0, k + 1).drop_last() =~= shapes@.subrange(0, k as int));
        k += 1;
    }
    assert(shapes@.subrange(0, k as int) =~= shapes@);
    if twins.len() > 0 {
        push_str(&mut c, LOOSE_COMMENT);
        let ghost second = c@;
        let mut k: usize = 0;
        while k < twins.len()
            invariant
                k <= twins@.len(),
                twins@ == spec_arranged(loose@),
                spec_sizes_fit(loose@),
                forall|y: (u32, PrimTy)| twins@.contains(y) <==> loose@.contains(y),
                c@ == second + spec_loose_text(twins@.subrange(0, k as int)),
            decreases twins@.len() - k,
        {
            assert(twins@.contains(twins@[k as int]));
            let ghost m = choose|m: int| 0 <= m < loose@.len() && loose@[m] == twins@[k as int];
            assert(spec_vector_bytes(loose@[m]) <= u32::MAX);
            loose_lines(&mut c, twins[k]);
            assert(twins@.subrange(0, k + 1).drop_last() =~= twins@.subrange(0, k as int));
            k += 1;
        }
        assert(twins@.subrange(0, k as int) =~= twins@);
        assert(c@ =~= start + (VECTORS_COMMENT@ + spec_vectors_text(shapes@) + (LOOSE_COMMENT@
            + spec_loose_text(twins@))));
    } else {
        assert(c@ =~= start + (VECTORS_COMMENT@ + spec_vectors_text(shapes@) + seq![]));
    }
    let ghost before = c@;
    c.push('\n');
    assert(c@ =~= before + seq!['\n']);
    *out = text_of(&c);
}

/// The unsigned type of a lane's width: vector arithmetic runs in it so that
/// integer wrapping holds as it does for scalars.
pub open spec fn spec_lane_word(lane: PrimTy) -> Seq<char> {
    match lane {
        PrimTy::Int8 | PrimTy::UInt8 => "uint8_t"@,
        PrimTy::Int16 | PrimTy::UInt16 => "uint16_t"@,
        PrimTy::Int32 | PrimTy::UInt32 | PrimTy::Float32 => "uint32_t"@,
        PrimTy::Int64 | PrimTy::UInt64 | PrimTy::Float64 => "uint64_t"@,
    }
}

/// The unsigned type of the lane's width.
pub fn lane_word(lane: PrimTy) -> (ty: &'static str)
    ensures
        ty@ == spec_lane_word(lane),
{
    match lane {
        PrimTy::Int8 | PrimTy::UInt8 => "uint8_t",
        PrimTy::Int16 | PrimTy::UInt16 => "uint16_t",
        PrimTy::Int32 | PrimTy::UInt32 | PrimTy::Float32 => "uint32_t",
        PrimTy::Int64 | PrimTy::UInt64 | PrimTy::Float64 => "uint64_t",
    }
}

fn vector_named(prefix: &str, lanes: u32, lane: PrimTy) -> (name: String)
    ensures
        name@ == prefix@ + spec_decimal(lanes as nat) + "_"@ + spec_name(lane),
{
    let mut out = chars_of(prefix);
    crate::text::extend(&mut out, &decimal(lanes as u64));
    push_str(&mut out, "_");
    push_str(&mut out, lane.name());
    text_of(&out)
}

/// The C type of a vector: `adamas_simd_8_Float32`.
pub fn vector_type(lanes: u32, lane: PrimTy) -> (name: String)
    ensures
        name@ == "adamas_simd_"@ + spec_decimal(lanes as nat) + "_"@ + spec_name(lane),
{
    vector_named("adamas_simd_", lanes, lane)
}

/// The unaligned twin of the same vector, for column windows:
/// `adamas_loose_8_Float32`.
pub fn vector_loose_type(lanes: u32, lane: PrimTy) -> (name: String)
    ensures
        name@ == "adamas_loose_"@ + spec_decimal(lanes as nat) + "_"@ + spec_name(lane),
{
    vector_named("adamas_loose_", lanes, lane)
}

/// The unsigned companion of the same vector, where integer arithmetic runs.
pub fn vector_word_type(lanes: u32, lane: PrimTy) -> (name: String)
    ensures
        name@ == "adamas_usimd_"@ + spec_decimal(lanes as nat) + "_"@ + spec_name(lane),
{
    vector_named("adamas_usimd_", lanes, lane)
}

/// Name of a comparison in `flat.c`: what `adamas_lt_Int64` is spelt with.
pub open spec fn spec_comparison(op: PrimCmp) -> Seq<char> {
    match op {
        PrimCmp::Eq => "eq"@,
        PrimCmp::Ne => "ne"@,
        PrimCmp::Lt => "lt"@,
        PrimCmp::Le => "le"@,
        PrimCmp::Gt => "gt"@,
        PrimCmp::Ge => "ge"@,
    }
}

/// Name of a comparison in `flat.c`.
pub fn comparison(op: PrimCmp) -> (name: &'static str)
    ensures
        name@ == spec_comparison(op),
{
    match op {
        PrimCmp::Eq => "eq",
        PrimCmp::Ne => "ne",
        PrimCmp::Lt => "lt",
        PrimCmp::Le => "le",
        PrimCmp::Gt => "gt",
        PrimCmp::Ge => "ge",
    }
}

/// Each `c` in `s` from `i` on replaced by `r`.
pub open spec fn spec_replace_char_from(
    s: Seq<char>,
    c: char,
    r: Seq<char>,
    i: int,
    acc: Seq<char>,
) -> Seq<char>
    decreases s.len() - i,
{
    if i < 0 || i >= s.len() {
        acc
    } else if s[i] == c {
        spec_replace_char_from(s, c, r, i + 1, acc + r)
    } else {
        spec_replace_char_from(s, c, r, i + 1, acc.push(s[i]))
    }
}

/// `str::replace` of one character by a text.
pub open spec fn spec_replace_char(s: Seq<char>, c: char, r: Seq<char>) -> Seq<char> {
    spec_replace_char_from(s, c, r, 0, seq![])
}

/// Each `*/` in `s` from `i` on, left to right, replaced by `* /`.
pub open spec fn spec_open_comment_from(s: Seq<char>, i: int, acc: Seq<char>) -> Seq<char>
    decreases s.len() - i,
{
    if i < 0 || i >= s.len() {
        acc
    } else if s[i] == '*' && i + 1 < s.len() && s[i + 1] == '/' {
        spec_open_comment_from(s, i + 2, acc + seq!['*', ' ', '/'])
    } else {
        spec_open_comment_from(s, i + 1, acc.push(s[i]))
    }
}

/// A name made safe inside a C string literal and a C comment: backslash
/// and quote escaped, `*/` broken by a space.
pub open spec fn spec_escaped(name: Seq<char>) -> Seq<char> {
    spec_open_comment_from(
        spec_replace_char(spec_replace_char(name, '\\', seq!['\\', '\\']), '"', seq!['\\', '"']),
        0,
        seq![],
    )
}

/// Whether a text can stand inside a C comment: no `*/` in it.
pub open spec fn spec_comment_safe(t: Seq<char>) -> bool {
    forall|k: int| 0 <= k < t.len() - 1 ==> !(#[trigger] t[k] == '*' && t[k + 1] == '/')
}

proof fn lemma_open_comment_safe(s: Seq<char>, i: int, acc: Seq<char>)
    requires
        0 <= i <= s.len(),
        spec_comment_safe(acc),
        acc.len() > 0 && acc.last() == '*' && i < s.len() ==> s[i] != '/',
    ensures
        spec_comment_safe(spec_open_comment_from(s, i, acc)),
    decreases s.len() - i,
{
    if i < s.len() {
        if s[i] == '*' && i + 1 < s.len() && s[i + 1] == '/' {
            let next = acc + seq!['*', ' ', '/'];
            assert forall|k: int| 0 <= k < next.len() - 1 implies !(#[trigger] next[k] == '*'
                && next[k + 1] == '/') by {
                if k < acc.len() - 1 {
                    assert(next[k] == acc[k] && next[k + 1] == acc[k + 1]);
                }
            }
            lemma_open_comment_safe(s, i + 2, next);
        } else {
            let next = acc.push(s[i]);
            assert forall|k: int| 0 <= k < next.len() - 1 implies !(#[trigger] next[k] == '*'
                && next[k + 1] == '/') by {
                if k < acc.len() - 1 {
                    assert(next[k] == acc[k] && next[k + 1] == acc[k + 1]);
                } else {
                    assert(next[k] == acc.last());
                }
            }
            lemma_open_comment_safe(s, i + 1, next);
        }
    }
}

/// An escaped name never closes the C comment it is printed in.
pub proof fn lemma_escaped_keeps_comment_open(name: Seq<char>)
    ensures
        spec_comment_safe(spec_escaped(name)),
{
    let s = spec_replace_char(spec_replace_char(name, '\\', seq!['\\', '\\']), '"', seq!['\\', '"']);
    lemma_open_comment_safe(s, 0, seq![]);
}

pub(crate) fn replace_char(s: &Vec<char>, c: char, r: &Vec<char>) -> (out: Vec<char>)
    ensures
        out@ == spec_replace_char(s@, c, r@),
{
    let mut out: Vec<char> = Vec::new();
    let mut i: usize = 0;
    while i < s.len()
        invariant
            i <= s@.len(),
            spec_replace_char(s@, c, r@) == spec_replace_char_from(s@, c, r@, i as int, out@),
        decreases s@.len() - i,
    {
        if s[i] == c {
            crate::text::extend(&mut out, r);
        } else {
            out.push(s[i]);
        }
        i += 1;
    }
    out
}

fn open_comment(s: &Vec<char>) -> (out: Vec<char>)
    ensures
        out@ == spec_open_comment_from(s@, 0, seq![]),
{
    let mut out: Vec<char> = Vec::new();
    let mut i: usize = 0;
    while i < s.len()
        invariant
            i <= s@.len(),
            spec_open_comment_from(s@, 0, seq![]) == spec_open_comment_from(s@, i as int, out@),
        decreases s@.len() - i,
    {
        if s[i] == '*' && i + 1 < s.len() && s[i + 1] == '/' {
            let ghost before = out@;
            out.push('*');
            out.push(' ');
            out.push('/');
            assert(out@ =~= before + seq!['*', ' ', '/']);
            i += 2;
        } else {
            out.push(s[i]);
            i += 1;
        }
    }
    out
}

/// A name made safe inside a C string literal and a C comment.
///
/// Names in Adamas may be operators and paths (`+`, `Boxes.Wrap`); of their
/// characters exactly three are unsafe: the quote and the backslash break a
/// literal, and `*/` ends a comment early.
pub fn escaped(name: &str) -> (safe: String)
    ensures
        safe@ == spec_escaped(name@),
{
    let s = chars_of(name);
    let mut backslashes: Vec<char> = Vec::new();
    backslashes.push('\\');
    backslashes.push('\\');
    let mut quote: Vec<char> = Vec::new();
    quote.push('\\');
    quote.push('"');
    assert(backslashes@ =~= seq!['\\', '\\']);
    assert(quote@ =~= seq!['\\', '"']);
    let first = replace_char(&s, '\\', &backslashes);
    let second = replace_char(&first, '"', &quote);
    text_of(&open_comment(&second))
}

/// One constructor of the program as the runtime's tables see it.
#[derive(Clone, Debug)]
pub struct ConstructorRow {
    /// The constructor's name.
    pub name: String,
    /// The name of its family.
    pub data: String,
    /// The sort of each slot: `ADAMAS_FLAT_BOXED`, that is 0, for a
    /// reference, otherwise the number `flat.c` gives the primitive type.
    pub kinds: Vec<u8>,
    /// The label of each slot's field, for a record; `None` for the slots of
    /// a family's constructor. One entry per slot.
    pub labels: Vec<Option<String>>,
    /// How many fields the record has written; 0 for a family's constructor.
    pub written: usize,
}

/// Comment above the constructor table.
pub const TABLE_COMMENT: &'static str = "/* Конструкторы программы по тегу. Хвостовой элемент - чтобы массив не\n * оказался пустым у программы без единого конструктора. */\n";

/// Comment and head of the array of first slots.
pub const SLOTS_COMMENT: &'static str = "/* Сорт каждого слота: `ADAMAS_FLAT_BOXED` - ссылка, иначе примитив.\n * Слоты конструкторов идут подряд, начало каждого - в `adamas_con_slot0`. */\nstatic const uint16_t adamas_con_slot0[] = {\n";

/// Comment and head of the array of slot labels.
pub const LABELS_COMMENT: &'static str = "/* Метки полей записи по слотам; `NULL` у конструктора семейства.\n * Слоты идут подряд, начало каждого - в `adamas_con_slot0`. */\nstatic const char *const adamas_slot_label[] = {\n";

/// Comment and head of the array of written field counts.
pub const WRITTEN_COMMENT: &'static str = "/* Сколько полей у записи написано; ноль - конструктор семейства.\n * Больше числа слотов - печатать её нечем: часть полей стёрта. */\nstatic const uint16_t adamas_con_labels[] = {\n";

/// A number as an element of an array.
pub open spec fn spec_number_line(n: nat) -> Seq<char> {
    "    "@ + spec_decimal(n) + "u,\n"@
}

/// A constructor's name, with its family's in a comment.
pub open spec fn spec_name_line(row: ConstructorRow) -> Seq<char> {
    "    \""@ + spec_escaped(row.name@) + "\", /* "@ + spec_escaped(row.data@) + " */\n"@
}

/// The sort of one slot, with its constructor's name in a comment.
pub open spec fn spec_kind_line(kind: u8, name: Seq<char>) -> Seq<char> {
    "    "@ + spec_decimal(kind as nat) + "u, /* "@ + spec_escaped(name) + " */\n"@
}

/// The label of one slot, or `NULL`.
pub open spec fn spec_label_line(label: Option<String>) -> Seq<char> {
    match label {
        Some(l) => "    \""@ + spec_escaped(l@) + "\",\n"@,
        None => "    NULL,\n"@,
    }
}

/// Whether every row has one label entry for each of its slots.
pub open spec fn spec_rows_match(rows: Seq<ConstructorRow>) -> bool {
    forall|k: int| 0 <= k < rows.len() ==> (#[trigger] rows[k]).labels@.len() == rows[k].kinds@.len()
}

/// The slots of the constructors, all together.
pub open spec fn spec_slot_total(rows: Seq<ConstructorRow>) -> nat
    decreases rows.len(),
{
    if rows.len() == 0 {
        0
    } else {
        spec_slot_total(rows.drop_last()) + rows.last().kinds@.len()
    }
}

/// The sorts of one constructor's slots.
pub open spec fn spec_row_kinds(row: ConstructorRow) -> Seq<char> {
    spec_concat(row.kinds@.map_values(|k: u8| spec_kind_line(k, row.name@)))
}

/// The labels of one constructor's slots.
pub open spec fn spec_row_labels(row: ConstructorRow) -> Seq<char> {
    spec_concat(row.labels@.map_values(|l: Option<String>| spec_label_line(l)))
}

/// The first part of the table: how many constructors, their names by tag
/// and their slot counts.
pub open spec fn spec_table_names(rows: Seq<ConstructorRow>) -> Seq<char> {
    TABLE_COMMENT@ + "#define ADAMAS_CONSTRUCTORS "@ + spec_decimal(rows.len()) + "u\n"@
        + "static const char *const adamas_con_name[] = {\n"@ + spec_concat(
        rows.map_values(|r: ConstructorRow| spec_name_line(r)),
    ) + "    \"\"\n};\n\nstatic const uint16_t adamas_con_slots[] = {\n"@ + spec_concat(
        rows.map_values(|r: ConstructorRow| spec_number_line(r.kinds@.len())),
    ) + "    0u\n};\n\n"@
}

/// The first slot of each constructor: the slots of those before it; then
/// all of them.
pub open spec fn spec_first_slots(rows: Seq<ConstructorRow>) -> Seq<Seq<char>> {
    Seq::new(rows.len(), |k: int| spec_number_line(spec_slot_total(rows.subrange(0, k))))
}

/// The second part: where each constructor's slots begin, and the sort of
/// every slot.
pub open spec fn spec_table_slots(rows: Seq<ConstructorRow>) -> Seq<char> {
    SLOTS_COMMENT@ + spec_concat(spec_first_slots(rows)) + "    "@ + spec_decimal(
        spec_slot_total(rows),
    ) + "u\n};\n\n"@ + "static const uint8_t adamas_slot_kind[] = {\n"@ + spec_concat(
        rows.map_values(|r: ConstructorRow| spec_row_kinds(r)),
    ) + "    ADAMAS_FLAT_BOXED\n};\n\n"@
}

/// The third part: the label of every slot, and how many fields each record
/// has written.
pub open spec fn spec_table_labels(rows: Seq<ConstructorRow>) -> Seq<char> {
    LABELS_COMMENT@ + spec_concat(rows.map_values(|r: ConstructorRow| spec_row_labels(r)))
        + "    NULL\n};\n\n"@ + WRITTEN_COMMENT@ + spec_concat(
        rows.map_values(|r: ConstructorRow| spec_number_line(r.written as nat)),
    ) + "    0u\n};\n\n"@
}

/// The constructor table of a program.
pub open spec fn spec_table(rows: Seq<ConstructorRow>) -> Seq<char> {
    spec_table_names(rows) + spec_table_slots(rows) + spec_table_labels(rows)
}

proof fn lemma_slot_total_prefix(rows: Seq<ConstructorRow>, k: int)
    requires
        0 <= k <= rows.len(),
    ensures
        spec_slot_total(rows.subrange(0, k)) <= spec_slot_total(rows),
    decreases rows.len(),
{
    if k == rows.len() {
        assert(rows.subrange(0, k) =~= rows);
    } else {
        assert(rows.drop_last().subrange(0, k) =~= rows.subrange(0, k));
        lemma_slot_total_prefix(rows.drop_last(), k);
    }
}

/// In the table, each constructor's slots begin where the one before it
/// ends: the first slot of the next is this one's first slot plus its slot
/// count, and after the last comes the total.
pub proof fn lemma_first_slots_follow(rows: Seq<ConstructorRow>, k: int)
    requires
        0 <= k < rows.len(),
    ensures
        spec_slot_total(rows.subrange(0, k + 1)) == spec_slot_total(rows.subrange(0, k))
            + rows[k].kinds@.len(),
        spec_slot_total(rows.subrange(0, rows.len() as int)) == spec_slot_total(rows),
{
    assert(rows.subrange(0, k + 1).drop_last() =~= rows.subrange(0, k));
    assert(rows.subrange(0, rows.len() as int) =~= rows);
}

fn number_line(out: &mut Vec<char>, n: u64)
    ensures
        final(out)@ == old(out)@ + spec_number_line(n as nat),
{
    push_str(out, "    ");
    crate::text::extend(out, &decimal(n));
    push_str(out, "u,\n");
}

fn table_names(rows: &[ConstructorRow]) -> (c: Vec<char>)
    ensures
        c@ == spec_table_names(rows@),
{
    let mut c = chars_of(TABLE_COMMENT);
    push_str(&mut c, "#define ADAMAS_CONSTRUCTORS ");
    crate::text::extend(&mut c, &decimal(rows.len() as u64));
    push_str(&mut c, "u\n");
    push_str(&mut c, "static const char *const adamas_con_name[] = {\n");
    let ghost head = c@;
    let ghost lines = rows@.map_values(|r: ConstructorRow| spec_name_line(r));
    let mut k: usize = 0;
    while k < rows.len()
        invariant
            k <= rows@.len(),
            lines == rows@.map_values(|r: ConstructorRow| spec_name_line(r)),
            c@ == head + spec_concat(lines.subrange(0, k as int)),
        decreases rows@.len() - k,
    {
        let ghost before = c@;
        push_str(&mut c, "    \"");
        push_str(&mut c, escaped(rows[k].name.as_str()).as_str());
        push_str(&mut c, "\", /* ");
        push_str(&mut c, escaped(rows[k].data.as_str()).as_str());
        push_str(&mut c, " */\n");
        proof {
            lemma_concat_next(lines, k as int);
            assert(lines[k as int] == spec_name_line(rows@[k as int]));
            assert(c@ =~= before + lines[k as int]);
        }
        k += 1;
    }
    assert(lines.subrange(0, k as int) =~= lines);
    push_str(&mut c, "    \"\"\n};\n\nstatic const uint16_t adamas_con_slots[] = {\n");
    let ghost middle = c@;
    let ghost counts = rows@.map_values(|r: ConstructorRow| spec_number_line(r.kinds@.len()));
    let mut k: usize = 0;
    while k < rows.len()
        invariant
            k <= rows@.len(),
            counts == rows@.map_values(|r: ConstructorRow| spec_number_line(r.kinds@.len())),
            c@ == middle + spec_concat(counts.subrange(0, k as int)),
        decreases rows@.len() - k,
    {
        let ghost before = c@;
        number_line(&mut c, rows[k].kinds.len() as u64);
        proof {
            lemma_concat_next(counts, k as int);
            assert(counts[k as int] == spec_number_line(rows@[k as int].kinds@.len()));
        }
        k += 1;
    }
    assert(counts.subrange(0, k as int) =~= counts);
    push_str(&mut c, "    0u\n};\n\n");
    assert(c@ =~= spec_table_names(rows@));
    c
}

fn row_kinds(out: &mut Vec<char>, row: &ConstructorRow)
    ensures
        final(out)@ == old(out)@ + spec_row_kinds(*row),
{
    let ghost start = out@;
    let ghost lines = row.kinds@.map_values(|k: u8| spec_kind_line(k, row.name@));
    let name = escaped(row.name.as_str());
    let mut m: usize = 0;
    while m < row.kinds.len()
        invariant
            m <= row.kinds@.len(),
            name@ == spec_escaped(row.name@),
            lines == row.kinds@.map_values(|k: u8| spec_kind_line(k, row.name@)),
            out@ == start + spec_concat(lines.subrange(0, m as int)),
        decreases row.kinds@.len() - m,
    {
        let ghost before = out@;
        push_str(out, "    ");
        crate::text::extend(out, &decimal(row.kinds[m] as u64));
        push_str(out, "u, /* ");
        push_str(out, name.as_str());
        push_str(out, " */\n");
        proof {
            lemma_concat_next(lines, m as int);
            assert(lines[m as int] == spec_kind_line(row.kinds@[m as int], row.name@));
            assert(out@ =~= before + lines[m as int]);
        }
        m += 1;
    }
    assert(lines.subrange(0, m as int) =~= lines);
}

fn row_labels(out: &mut Vec<char>, row: &ConstructorRow)
    ensures
        final(out)@ == old(out)@ + spec_row_labels(*row),
{
    let ghost start = out@;
    let ghost lines = row.labels@.map_values(|l: Option<String>| spec_label_line(l));
    let mut m: usize = 0;
    while m < row.labels.len()
        invariant
            m <= row.labels@.len(),
            lines == row.labels@.map_values(|l: Option<String>| spec_label_line(l)),
            out@ == start + spec_concat(lines.subrange(0, m as int)),
        decreases row.labels@.len() - m,
    {
        let ghost before = out@;
        match &row.labels[m] {
            Some(label) => {
                push_str(out, "    \"");
                push_str(out, escaped(label.as_str()).as_str());
                push_str(out, "\",\n");
            },
            None => {
                push_str(out, "    NULL,\n");
            },
        }
        proof {
            lemma_concat_next(lines, m as int);
            assert(lines[m as int] == spec_label_line(row.labels@[m as int]));
            assert(out@ =~= before + lines[m as int]);
        }
        m += 1;
    }
    assert(lines.subrange(0, m as int) =~= lines);
}

fn table_slots(rows: &[ConstructorRow]) -> (c: Vec<char>)
    requires
        spec_slot_total(rows@) <= usize::MAX,
    ensures
        c@ == spec_table_slots(rows@),
{
    let mut c = chars_of(SLOTS_COMMENT);
    let ghost head = c@;
    let ghost firsts = spec_first_slots(rows@);
    let mut first: usize = 0;
    let mut k: usize = 0;
    while k < rows.len()
        invariant
            k <= rows@.len(),
            spec_slot_total(rows@) <= usize::MAX,
            firsts == spec_first_slots(rows@),
            first == spec_slot_total(rows@.subrange(0, k as int)),
            c@ == head + spec_concat(firsts.subrange(0, k as int)),
        decreases rows@.len() - k,
    {
        number_line(&mut c, first as u64);
        proof {
            lemma_concat_next(firsts, k as int);
            assert(rows@.subrange(0, k + 1).drop_last() =~= rows@.subrange(0, k as int));
            lemma_slot_total_prefix(rows@, k + 1);
        }
        first = first + rows[k].kinds.len();
        k += 1;
    }
    assert(firsts.subrange(0, k as int) =~= firsts);
    assert(rows@.subrange(0, k as int) =~= rows@);
    push_str(&mut c, "    ");
    crate::text::extend(&mut c, &decimal(first as u64));
    push_str(&mut c, "u\n};\n\n");
    push_str(&mut c, "static const uint8_t adamas_slot_kind[] = {\n");
    let ghost middle = c@;
    let ghost kinds = rows@.map_values(|r: ConstructorRow| spec_row_kinds(r));
    let mut k: usize = 0;
    while k < rows.len()
        invariant
            k <= rows@.len(),
            kinds == rows@.map_values(|r: ConstructorRow| spec_row_kinds(r)),
            c@ == middle + spec_concat(kinds.subrange(0, k as int)),
        decreases rows@.len() - k,
    {
        row_kinds(&mut c, &rows[k]);
        proof {
            lemma_concat_next(kinds, k as int);
        }
        k += 1;
    }
    assert(kinds.subrange(0, k as int) =~= kinds);
    push_str(&mut c, "    ADAMAS_FLAT_BOXED\n};\n\n");
    assert(c@ =~= spec_table_slots(rows@));
    c
}

fn table_labels(rows: &[ConstructorRow]) -> (c: Vec<char>)
    ensures
        c@ == spec_table_labels(rows@),
{
    let mut c = chars_of(LABELS_COMMENT);
    let ghost head = c@;
    let ghost labels = rows@.map_values(|r: ConstructorRow| spec_row_labels(r));
    let mut k: usize = 0;
    while k < rows.len()
        invariant
            k <= rows@.len(),
            labels == rows@.map_values(|r: ConstructorRow| spec_row_labels(r)),
            c@ == head + spec_concat(labels.subrange(0, k as int)),
        decreases rows@.len() - k,
    {
        row_labels(&mut c, &rows[k]);
        proof {
            lemma_concat_next(labels, k as int);
        }
        k += 1;
    }
    assert(labels.subrange(0, k as int) =~= labels);
    push_str(&mut c, "    NULL\n};\n\n");
    push_str(&mut c, WRITTEN_COMMENT);
    let ghost middle = c@;
    let ghost written = rows@.map_values(|r: ConstructorRow| spec_number_line(r.written as nat));
    let mut k: usize = 0;
    while k < rows.len()
        invariant
            k <= rows@.len(),
            written == rows@.map_values(|r: ConstructorRow| spec_number_line(r.written as nat)),
            c@ == middle + spec_concat(written.subrange(0, k as int)),
        decreases rows@.len() - k,
    {
        number_line(&mut c, rows[k].written as u64);
        proof {
            lemma_concat_next(written, k as int);
        }
        k += 1;
    }
    assert(written.subrange(0, k as int) =~= written);
    push_str(&mut c, "    0u\n};\n\n");
    assert(c@ =~= spec_table_labels(rows@));
    c
}

/// Writes the table of the program's constructors by tag: names, slot
/// counts, where each constructor's slots begin, the sort and the label of
/// every slot, and how many fields each record has written.
///
/// Both back ends read this one table: printing and the release of children
/// are the same `print.c` and `release.c` for both.
pub fn table(out: &mut String, rows: &[ConstructorRow])
    requires
        spec_rows_match(rows@),
        spec_slot_total(rows@) <= usize::MAX,
    ensures
        final(out)@ == old(out)@ + spec_table(rows@),
{
    let mut c = chars_of(out.as_str());
    let ghost start = c@;
    let names = table_names(rows);
    crate::text::extend(&mut c, &names);
    let slots = table_slots(rows);
    crate::text::extend(&mut c, &slots);
    let labels = table_labels(rows);
    crate::text::extend(&mut c, &labels);
    assert(c@ =~= start + spec_table(rows@));
    *out = text_of(&c);
}

} // verus!
