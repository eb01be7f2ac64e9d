//! The LLVM emitter's own text: the module frame, metadata numbering, DWARF
//! header nodes, string constants.
//!
//! The emitter writes `.ll` text, not calls into an LLVM library, and keeps
//! to a conservative subset of the IR that the oldest supported `llvm-as`
//! reads. What stands here is the part that does not read the IR: the frame
//! of the module around the function bodies, the numbering of metadata nodes
//! with their sharing, the DWARF header, and byte strings in `.ll` form.

use vstd::prelude::*;
use vstd::string::StringSliceAdditionalSpecFns;

use crate::emit_c::{replace_char, spec_replace_char};
use crate::prim::{spec_floating, spec_name, spec_signed, spec_size, PrimTy};
use crate::repr::{spec_primitive, Repr};
use crate::text::{
    chars_of, decimal, extend, joined, push_str, spec_decimal, spec_joined, spec_starts_with,
    starts_with, text_of,
};

verus! {

/// Why emission to LLVM refused.
#[derive(Debug)]
pub enum LlvmError {
    /// A node of the representation outside the scalar fragment.
    Node {
        /// Whose function.
        function: String,
        /// Which node.
        node: &'static str,
    },
    /// A representation that does not fit an integer register.
    Shape {
        /// Whose function.
        function: String,
        /// Where: parameter, answer, intermediate value.
        place: String,
        /// How it is represented.
        shape: String,
    },
    /// Floating arithmetic.
    Real {
        /// Whose function.
        function: String,
        /// Of which type.
        ty: &'static str,
    },
    /// The second lowering form: the frame is detached to the heap.
    Detached {
        /// Whose function.
        function: String,
    },
    /// A match that binds fields of an object.
    Fields {
        /// Whose function.
        function: String,
        /// Of which constructor.
        constructor: String,
    },
}

/// The text that describes an emission refusal.
pub open spec fn spec_llvm_message(error: LlvmError) -> Seq<char> {
    match error {
        LlvmError::Node { function, node } => "`"@ + function@ + "`: "@ + node@
            + " - узел вне скалярного фрагмента"@,
        LlvmError::Shape { function, place, shape } => "`"@ + function@ + "`: "@ + place@ + " - "@
            + shape@ + ", а срез берёт только плоское целое"@,
        LlvmError::Real { function, ty } => "`"@ + function@ + "`: плавающее "@ + ty@
            + " - флаги контракции ставит трек F"@,
        LlvmError::Detached { function } => "`"@ + function@
            + "`: вторая форма понижения - кадров этот срез не кладёт"@,
        LlvmError::Fields { function, constructor } => "`"@ + function@
            + "`: ветвь связывает поля `"@ + constructor@ + "` - объектов срез не читает"@,
    }
}

impl LlvmError {
    /// The text that describes the refusal.
    pub fn message(&self) -> (m: String)
        ensures
            m@ == spec_llvm_message(*self),
    {
        let mut out = chars_of("`");
        match self {
            LlvmError::Node { function, node } => {
                push_str(&mut out, function.as_str());
                push_str(&mut out, "`: ");
                push_str(&mut out, node);
                push_str(&mut out, " - узел вне скалярного фрагмента");
            },
            LlvmError::Shape { function, place, shape } => {
                push_str(&mut out, function.as_str());
                push_str(&mut out, "`: ");
                push_str(&mut out, place.as_str());
                push_str(&mut out, " - ");
                push_str(&mut out, shape.as_str());
                push_str(&mut out, ", а срез берёт только плоское целое");
            },
            LlvmError::Real { function, ty } => {
                push_str(&mut out, function.as_str());
                push_str(&mut out, "`: плавающее ");
                push_str(&mut out, ty);
                push_str(&mut out, " - флаги контракции ставит трек F");
            },
            LlvmError::Detached { function } => {
                push_str(&mut out, function.as_str());
                push_str(&mut out, "`: вторая форма понижения - кадров этот срез не кладёт");
            },
            LlvmError::Fields { function, constructor } => {
                push_str(&mut out, function.as_str());
                push_str(&mut out, "`: ветвь связывает поля `");
                push_str(&mut out, constructor.as_str());
                push_str(&mut out, "` - объектов срез не читает");
            },
        }
        text_of(&out)
    }
}

/// What emission gives: the `.ll` text and its C companion.
#[derive(Clone, Debug)]
pub struct Artefacts {
    /// The `.ll` text: the whole program.
    pub ll: String,
    /// The C companion: printing the answer and the entry point.
    pub support: String,
}

/// The entry point the companion calls in the `.ll`.
pub const ENTRY_SYMBOL: &'static str = "adamas_entry";

/// The constant holding the message for an unknown tag.
pub const TAG_MESSAGE: &'static str = "@.str.tag";

/// The constant holding the message of the children release.
pub const RELEASE_MESSAGE: &'static str = "@.str.release";

/// Attributes of a function definition: there is no unwinding in generated
/// code.
pub const DEFINITION_ATTRIBUTES: &'static str = "nounwind";

/// Calling convention of generated functions: `tailcc` lets a tail call pass
/// more arguments than the caller has.
pub const CONVENTION: &'static str = "tailcc";

/// Message for an unknown tag.
pub const TAG_TEXT: &'static str = "разбор не знает конструктора";

/// Message of the children release.
pub const RELEASE_TEXT: &'static str = "release в скалярном фрагменте: у нульарного детей нет";

/// Head of the module: what it is, and the runtime's entries.
pub const HEADER: &'static str = "; Порождено понижением Adamas. Править нечего: правится тот, кто\n; породил. Договор с рантаймом - `adamas.h`.\n;\n; Подмножество IR консервативное (`emit_llvm.rs`): ни `nsw`/`nuw` у\n; арифметики, ни `getelementptr`, ни строк цели - её берёт `llc` у\n; хоста. Проверяется прогоном на минимальной версии, а не грепом.\n\n; Рантайм: те же точки входа, что зовёт C-бэкенд.\ndeclare ptr @adamas_con0(i16)\ndeclare i16 @adamas_tag(ptr)\ndeclare ptr @adamas_dup(ptr)\ndeclare void @adamas_drop(ptr, ptr)\ndeclare void @adamas_fail(ptr) noreturn\n\n";

/// Declaration of the debug intrinsic, for a module with debug information.
pub const DEBUG_DECLARATION: &'static str = "; Отладочная информация. Вызов интринсика, а не запись\n; `#dbg_declare`: записи не читает восемнадцатая версия, а\n; вызов читают обе.\ndeclare void @llvm.dbg.declare(metadata, metadata, metadata)\n\n";

/// Comment above the release of children.
pub const RELEASE_COMMENT: &'static str = "; Дроп детей: срез берёт только нульарные конструкторы, а они\n; непосредственны (`adamas_con0`) и до release не доходят вовсе.\n; Не отказ, а обрыв: доехав сюда, срез считал бы не то, что обещал.\n";

/// The LLVM type of a flat value; signedness lives in the instructions.
pub open spec fn spec_machine(ty: PrimTy) -> Seq<char> {
    match ty {
        PrimTy::Int8 | PrimTy::UInt8 => "i8"@,
        PrimTy::Int16 | PrimTy::UInt16 => "i16"@,
        PrimTy::Int32 | PrimTy::UInt32 => "i32"@,
        PrimTy::Int64 | PrimTy::UInt64 => "i64"@,
        PrimTy::Float32 => "float"@,
        PrimTy::Float64 => "double"@,
    }
}

/// The LLVM type of a flat integer is the integer type of its width, `iN`
/// with `N` its width in bits, whatever its sign; a four-byte float is
/// `float` and an eight-byte one `double`.
pub proof fn lemma_machine_width(ty: PrimTy)
    ensures
        !spec_floating(ty) ==> spec_machine(ty) == "i"@ + spec_decimal((8 * spec_size(ty)) as nat),
        spec_floating(ty) ==> spec_machine(ty) == (if spec_size(ty) == 4 {
            "float"@
        } else {
            "double"@
        }),
{
    crate::emit_c::lemma_widths();
    reveal_strlit("i");
    reveal_strlit("i8");
    reveal_strlit("i16");
    reveal_strlit("i32");
    reveal_strlit("i64");
    assert("i8"@ =~= "i"@ + seq!['8']);
    assert("i16"@ =~= "i"@ + seq!['1', '6']);
    assert("i32"@ =~= "i"@ + seq!['3', '2']);
    assert("i64"@ =~= "i"@ + seq!['6', '4']);
}

/// The LLVM type of a flat value.
pub fn machine(ty: PrimTy) -> (name: &'static str)
    ensures
        name@ == spec_machine(ty),
{
    match ty {
        PrimTy::Int8 | PrimTy::UInt8 => "i8",
        PrimTy::Int16 | PrimTy::UInt16 => "i16",
        PrimTy::Int32 | PrimTy::UInt32 => "i32",
        PrimTy::Int64 | PrimTy::UInt64 => "i64",
        PrimTy::Float32 => "float",
        PrimTy::Float64 => "double",
    }
}

/// Kind of a call.
#[derive(Clone, Copy, Debug, PartialEq, Eq, Structural)]
pub enum Tail {
    /// Ordinary: the caller's frame lives on.
    Plain,
    /// The callee's frame replaces the caller's; a `ret` of the same value
    /// must follow at once.
    Must,
}

impl Tail {
    /// The prefix of the call instruction.
    pub fn prefix(self) -> (prefix: &'static str)
        ensures
            prefix@ == (if self == Tail::Must { "musttail "@ } else { ""@ }),
    {
        match self {
            Tail::Plain => "",
            Tail::Must => "musttail ",
        }
    }
}

/// Metadata of one instruction, in print order.
#[derive(Clone, Debug)]
pub struct Notes {
    items: Vec<String>,
}

impl View for Notes {
    type V = Seq<Seq<char>>;

    closed spec fn view(&self) -> Seq<Seq<char>> {
        self.items@.map_values(|s: String| s@)
    }
}

impl Notes {
    /// No metadata.
    pub fn none() -> (notes: Self)
        ensures
            notes@ == Seq::<Seq<char>>::empty(),
    {
        let notes = Notes { items: Vec::new() };
        assert(notes@ =~= Seq::<Seq<char>>::empty());
        notes
    }

    /// One more node: `!kind node`.
    pub fn and(self, kind: &str, node: &str) -> (notes: Self)
        ensures
            notes@ == self@.push("!"@ + kind@ + " "@ + node@),
    {
        let mut items = self.items;
        let ghost before = items@.map_values(|s: String| s@);
        let mut c = chars_of("!");
        push_str(&mut c, kind);
        push_str(&mut c, " ");
        push_str(&mut c, node);
        items.push(text_of(&c));
        let notes = Notes { items };
        assert(notes@ =~= before.push("!"@ + kind@ + " "@ + node@));
        notes
    }

    /// The tail of the instruction: `, ` and the nodes, or nothing at all.
    pub fn suffix(self) -> (tail: String)
        ensures
            tail@ == (if self@.len() == 0 { seq![] } else { ", "@ + spec_joined(self@, ", "@) }),
    {
        if self.items.len() == 0 {
            let empty: Vec<char> = Vec::new();
            assert(empty@ =~= seq![]);
            return text_of(&empty);
        }
        let mut c = chars_of(", ");
        let tail = joined(&self.items, ", ");
        extend(&mut c, &tail);
        text_of(&c)
    }
}

/// Metadata as the specification sees it: the nodes by number, the texts
/// already numbered with their references, and the named lists.
pub struct MetadataView {
    pub nodes: Seq<Seq<char>>,
    pub seen: Seq<(Seq<char>, Seq<char>)>,
    pub named: Seq<(Seq<char>, Seq<Seq<char>>)>,
}

/// Metadata nodes of the module, numbered in the order they are made.
#[derive(Debug)]
pub struct Metadata {
    nodes: Vec<String>,
    seen: Vec<(String, String)>,
    named: Vec<(String, Vec<String>)>,
}

impl View for Metadata {
    type V = MetadataView;

    closed spec fn view(&self) -> MetadataView {
        MetadataView {
            nodes: self.nodes@.map_values(|s: String| s@),
            seen: self.seen@.map_values(|p: (String, String)| (p.0@, p.1@)),
            named: self.named@.map_values(
                |p: (String, Vec<String>)| (p.0@, p.1@.map_values(|s: String| s@)),
            ),
        }
    }
}

/// The reference to node number `at`: `!at`.
pub open spec fn spec_reference(at: nat) -> Seq<char> {
    seq!['!'] + spec_decimal(at)
}

/// Whether a node is written `distinct`, so that copies stay apart.
pub open spec fn spec_distinct(text: Seq<char>) -> bool {
    spec_starts_with(text, "distinct "@)
}

/// The reference already given to `text`, looking from entry `k` on.
pub open spec fn spec_lookup_from(seen: Seq<(Seq<char>, Seq<char>)>, text: Seq<char>, k: int) -> Option<
    Seq<char>,
>
    decreases seen.len() - k,
{
    if k < 0 || k >= seen.len() {
        None
    } else if seen[k].0 == text {
        Some(seen[k].1)
    } else {
        spec_lookup_from(seen, text, k + 1)
    }
}

/// The reference already given to `text`, if any.
pub open spec fn spec_lookup(seen: Seq<(Seq<char>, Seq<char>)>, text: Seq<char>) -> Option<Seq<char>> {
    spec_lookup_from(seen, text, 0)
}

/// A node made from `text`: the reference given to it before, or a new
/// number, remembered unless the node is `distinct`.
pub open spec fn spec_node(m: MetadataView, text: Seq<char>) -> (MetadataView, Seq<char>) {
    match spec_lookup(m.seen, text) {
        Some(known) => (m, known),
        None => {
            let reference = spec_reference(m.nodes.len());
            (
                MetadataView {
                    nodes: m.nodes.push(text),
                    seen: if spec_distinct(text) {
                        m.seen
                    } else {
                        m.seen.push((text, reference))
                    },
                    named: m.named,
                },
                reference,
            )
        },
    }
}

/// What the metadata keeps true: each text is remembered once, never a
/// `distinct` one, and under the reference of a node made from that text.
pub open spec fn spec_metadata_wf(m: MetadataView) -> bool {
    &&& forall|i: int, j: int|
        0 <= i < j < m.seen.len() ==> #[trigger] m.seen[i].0 != #[trigger] m.seen[j].0
    &&& forall|i: int|
        0 <= i < m.seen.len() ==> !spec_distinct(#[trigger] m.seen[i].0) && exists|n: int|
            0 <= n < m.nodes.len() && m.seen[i].1 == spec_reference(n as nat) && #[trigger] m.nodes[n]
                == m.seen[i].0
}

proof fn lemma_lookup_found(seen: Seq<(Seq<char>, Seq<char>)>, text: Seq<char>, k: int)
    requires
        0 <= k,
        spec_lookup_from(seen, text, k) is Some,
    ensures
        exists|i: int|
            k <= i < seen.len() && #[trigger] seen[i] == (text, spec_lookup_from(seen, text, k)->0),
    decreases seen.len() - k,
{
    if seen[k].0 != text {
        lemma_lookup_found(seen, text, k + 1);
    } else {
        assert(seen[k] == (text, spec_lookup_from(seen, text, k)->0));
    }
}

proof fn lemma_lookup_absent(seen: Seq<(Seq<char>, Seq<char>)>, text: Seq<char>, k: int)
    requires
        0 <= k,
        forall|i: int| k <= i < seen.len() ==> (#[trigger] seen[i]).0 != text,
    ensures
        spec_lookup_from(seen, text, k) is None,
    decreases seen.len() - k,
{
    if k < seen.len() {
        lemma_lookup_absent(seen, text, k + 1);
    }
}

proof fn lemma_lookup_none(seen: Seq<(Seq<char>, Seq<char>)>, text: Seq<char>, k: int)
    requires
        0 <= k,
        spec_lookup_from(seen, text, k) is None,
    ensures
        forall|i: int| k <= i < seen.len() ==> (#[trigger] seen[i]).0 != text,
    decreases seen.len() - k,
{
    if k < seen.len() {
        lemma_lookup_none(seen, text, k + 1);
    }
}

proof fn lemma_lookup_push(
    seen: Seq<(Seq<char>, Seq<char>)>,
    entry: (Seq<char>, Seq<char>),
    text: Seq<char>,
    k: int,
)
    requires
        0 <= k <= seen.len(),
        spec_lookup_from(seen, text, k) is None,
        entry.0 == text,
    ensures
        spec_lookup_from(seen.push(entry), text, k) == Some(entry.1),
    decreases seen.len() - k,
{
    if k < seen.len() {
        assert(seen.push(entry)[k] == seen[k]);
        lemma_lookup_push(seen, entry, text, k + 1);
    } else {
        assert(seen.push(entry)[k] == entry);
    }
}

proof fn lemma_node_keeps_wf(m: MetadataView, text: Seq<char>)
    requires
        spec_metadata_wf(m),
    ensures
        spec_metadata_wf(spec_node(m, text).0),
        exists|n: int|
            0 <= n < spec_node(m, text).0.nodes.len() && spec_node(m, text).1 == spec_reference(
                n as nat,
            ) && #[trigger] spec_node(m, text).0.nodes[n] == text,
        spec_node(m, text).0.nodes.len() >= m.nodes.len(),
        forall|n: int| 0 <= n < m.nodes.len() ==> #[trigger] spec_node(m, text).0.nodes[n] == m.nodes[n],
{
    match spec_lookup(m.seen, text) {
        Some(known) => {
            lemma_lookup_found(m.seen, text, 0);
            let i = choose|i: int| 0 <= i < m.seen.len() && #[trigger] m.seen[i] == (text, known);
            assert(m.seen[i].0 == text);
        },
        None => {
            lemma_lookup_none(m.seen, text, 0);
            let next = spec_node(m, text).0;
            let at = m.nodes.len() as int;
            assert(next.nodes[at] == text);
            assert forall|i: int| 0 <= i < next.seen.len() implies !spec_distinct(
                #[trigger] next.seen[i].0,
            ) && exists|n: int|
                0 <= n < next.nodes.len() && next.seen[i].1 == spec_reference(n as nat)
                    && #[trigger] next.nodes[n] == next.seen[i].0 by {
                if i < m.seen.len() {
                    assert(next.seen[i] == m.seen[i]);
                    let n = choose|n: int|
                        0 <= n < m.nodes.len() && m.seen[i].1 == spec_reference(n as nat)
                            && #[trigger] m.nodes[n] == m.seen[i].0;
                    assert(next.nodes[n] == m.nodes[n]);
                } else {
                    assert(next.seen[i] == (text, spec_reference(at as nat)));
                    assert(next.nodes[at] == text);
                }
            }
            assert forall|i: int, j: int| 0 <= i < j < next.seen.len() implies #[trigger] next.seen[i].0
                != #[trigger] next.seen[j].0 by {
                if j == m.seen.len() {
                    assert(m.seen[i].0 != text);
                } else {
                    assert(next.seen[i] == m.seen[i]);
                    assert(next.seen[j] == m.seen[j]);
                }
            }
        },
    }
}

/// A node asked for twice with the same text, unless written `distinct`, is
/// made once: the second request gives the same reference back and leaves
/// the metadata as the first left it.
pub proof fn lemma_node_shared(m: MetadataView, text: Seq<char>)
    requires
        !spec_distinct(text),
    ensures
        spec_node(spec_node(m, text).0, text) == spec_node(m, text),
{
    if spec_lookup(m.seen, text) is None {
        let reference = spec_reference(m.nodes.len());
        lemma_lookup_push(m.seen, (text, reference), text, 0);
    }
}

/// A `distinct` node is always made anew, as the next number, and is not
/// remembered.
pub proof fn lemma_distinct_is_new(m: MetadataView, text: Seq<char>)
    requires
        spec_metadata_wf(m),
        spec_distinct(text),
    ensures
        spec_node(m, text).0 == (MetadataView { nodes: m.nodes.push(text), ..m }),
        spec_node(m, text).1 == spec_reference(m.nodes.len()),
{
    assert forall|i: int| 0 <= i < m.seen.len() implies (#[trigger] m.seen[i]).0 != text by {
        assert(!spec_distinct(m.seen[i].0));
    }
    lemma_lookup_absent(m.seen, text, 0);
}

/// Making a node keeps the metadata well formed, and the reference it gives
/// names a node with exactly that text; nodes made before keep their numbers.
pub proof fn lemma_node_names_its_text(m: MetadataView, text: Seq<char>)
    requires
        spec_metadata_wf(m),
    ensures
        spec_metadata_wf(spec_node(m, text).0),
        exists|n: int|
            0 <= n < spec_node(m, text).0.nodes.len() && spec_node(m, text).1 == spec_reference(
                n as nat,
            ) && #[trigger] spec_node(m, text).0.nodes[n] == text,
        spec_node(m, text).0.nodes.len() >= m.nodes.len(),
        forall|n: int| 0 <= n < m.nodes.len() ==> #[trigger] spec_node(m, text).0.nodes[n] == m.nodes[n],
{
    lemma_node_keeps_wf(m, text);
}

/// Two nodes asked for one after the other with different texts get
/// different references.
pub proof fn lemma_different_texts_differ(m: MetadataView, first: Seq<char>, second: Seq<char>)
    requires
        spec_metadata_wf(m),
        first != second,
    ensures
        spec_node(m, first).1 != spec_node(spec_node(m, first).0, second).1,
{
    let m1 = spec_node(m, first).0;
    lemma_node_keeps_wf(m, first);
    lemma_node_keeps_wf(m1, second);
    let m2 = spec_node(m1, second).0;
    let n1 = choose|n: int|
        0 <= n < m1.nodes.len() && spec_node(m, first).1 == spec_reference(n as nat)
            && #[trigger] m1.nodes[n] == first;
    let n2 = choose|n: int|
        0 <= n < m2.nodes.len() && spec_node(m1, second).1 == spec_reference(n as nat)
            && #[trigger] m2.nodes[n] == second;
    assert(m2.nodes[n1] == first);
    if spec_node(m, first).1 == spec_node(m1, second).1 {
        assert(spec_reference(n1 as nat).drop_first() == spec_decimal(n1 as nat));
        assert(spec_reference(n2 as nat).drop_first() == spec_decimal(n2 as nat));
        crate::text::lemma_decimal_injective(n1 as nat, n2 as nat);
    }
}

/// A named list added.
pub open spec fn spec_named(m: MetadataView, name: Seq<char>, refs: Seq<Seq<char>>) -> MetadataView {
    MetadataView { named: m.named.push((name, refs)), ..m }
}

/// Named lists printed from `k` on: `!name = !{refs}`.
pub open spec fn spec_named_lines(named: Seq<(Seq<char>, Seq<Seq<char>>)>, k: int, acc: Seq<char>) -> Seq<
    char,
>
    decreases named.len() - k,
{
    if k < 0 || k >= named.len() {
        acc
    } else {
        spec_named_lines(
            named,
            k + 1,
            acc + "!"@ + named[k].0 + " = !{"@ + spec_joined(named[k].1, ", "@) + "}\n"@,
        )
    }
}

/// Numbered nodes printed from `k` on: `!k = node`.
pub open spec fn spec_node_lines(nodes: Seq<Seq<char>>, k: int, acc: Seq<char>) -> Seq<char>
    decreases nodes.len() - k,
{
    if k < 0 || k >= nodes.len() {
        acc
    } else {
        spec_node_lines(nodes, k + 1, acc + spec_reference(k as nat) + " = "@ + nodes[k] + "\n"@)
    }
}

/// All of the metadata: named lists first, then numbered nodes.
pub open spec fn spec_print(m: MetadataView) -> Seq<char> {
    spec_node_lines(m.nodes, 0, spec_named_lines(m.named, 0, seq![]))
}

fn reference(at: usize) -> (r: String)
    ensures
        r@ == spec_reference(at as nat),
{
    let mut c: Vec<char> = Vec::new();
    c.push('!');
    extend(&mut c, &decimal(at as u64));
    assert(c@ =~= seq!['!'] + spec_decimal(at as nat));
    text_of(&c)
}

impl Metadata {
    /// No nodes.
    pub fn new() -> (m: Self)
        ensures
            m@.nodes.len() == 0,
            m@.seen.len() == 0,
            m@.named.len() == 0,
            spec_metadata_wf(m@),
    {
        Metadata { nodes: Vec::new(), seen: Vec::new(), named: Vec::new() }
    }

    /// Makes a node and gives the reference to it.
    ///
    /// A node with the text of one made before, unless written `distinct`,
    /// is not made twice: its old reference comes back.
    pub fn node(&mut self, text: &str) -> (reference: String)
        ensures
            (final(self)@, reference@) == spec_node(old(self)@, text@),
            spec_metadata_wf(old(self)@) ==> spec_metadata_wf(final(self)@),
    {
        proof {
            if spec_metadata_wf(self@) {
                lemma_node_keeps_wf(self@, text@);
            }
        }
        let mut k: usize = 0;
        while k < self.seen.len()
            invariant
                k <= self.seen@.len(),
                spec_lookup(self@.seen, text@) == spec_lookup_from(self@.seen, text@, k as int),
            decreases self.seen@.len() - k,
        {
            assert(self@.seen[k as int] == (self.seen@[k as int].0@, self.seen@[k as int].1@));
            if crate::text::same_text(self.seen[k].0.as_str(), text) {
                return self.seen[k].1.clone();
            }
            k += 1;
        }
        let ghost before = self@;
        let at = self.nodes.len();
        let r = reference(at);
        self.nodes.push(text_of(&chars_of(text)));
        let distinct = starts_with(&chars_of(text), &chars_of("distinct "));
        if !distinct {
            self.seen.push((text_of(&chars_of(text)), r.clone()));
        }
        assert(self@.nodes =~= before.nodes.push(text@));
        assert(self@.seen =~= (if spec_distinct(text@) {
            before.seen
        } else {
            before.seen.push((text@, r@))
        }));
        assert(self@.named =~= before.named);
        r
    }

    /// Adds a named list: `!name = !{...}`.
    pub fn name(&mut self, name: &str, refs: Vec<String>)
        ensures
            final(self)@ == spec_named(old(self)@, name@, refs@.map_values(|s: String| s@)),
            spec_metadata_wf(old(self)@) ==> spec_metadata_wf(final(self)@),
    {
        let ghost before = self@;
        self.named.push((text_of(&chars_of(name)), refs));
        assert(self@.named =~= before.named.push((name@, refs@.map_values(|s: String| s@))));
        assert(self@.nodes =~= before.nodes);
        assert(self@.seen =~= before.seen);
    }

    fn print_into(&self, out: &mut Vec<char>)
        ensures
            final(out)@ == old(out)@ + spec_print(self@),
    {
        let ghost view = self@;
        let ghost start = out@;
        let mut k: usize = 0;
        assert(start + spec_named_lines(view.named, 0, seq![]) =~= spec_named_lines(
            view.named,
            0,
            start,
        )) by {
            lemma_named_lines_shift(view.named, 0, seq![], start);
        }
        while k < self.named.len()
            invariant
                k <= self.named@.len(),
                view == self@,
                spec_named_lines(view.named, 0, start) == spec_named_lines(
                    view.named,
                    k as int,
                    out@,
                ),
            decreases self.named@.len() - k,
        {
            let ghost before = out@;
            push_str(out, "!");
            push_str(out, self.named[k].0.as_str());
            push_str(out, " = !{");
            let refs = joined(&self.named[k].1, ", ");
            extend(out, &refs);
            push_str(out, "}\n");
            assert(view.named[k as int] == (
                self.named@[k as int].0@,
                self.named@[k as int].1@.map_values(|s: String| s@),
            ));
            assert(out@ =~= before + "!"@ + view.named[k as int].0 + " = !{"@ + spec_joined(
                view.named[k as int].1,
                ", "@,
            ) + "}\n"@);
            k += 1;
        }
        let ghost middle = out@;
        assert(middle + spec_node_lines(view.nodes, 0, seq![]) =~= spec_node_lines(
            view.nodes,
            0,
            middle,
        )) by {
            lemma_node_lines_shift(view.nodes, 0, seq![], middle);
        }
        let mut at: usize = 0;
        while at < self.nodes.len()
            invariant
                at <= self.nodes@.len(),
                view == self@,
                spec_node_lines(view.nodes, 0, middle) == spec_node_lines(
                    view.nodes,
                    at as int,
                    out@,
                ),
            decreases self.nodes@.len() - at,
        {
            let ghost before = out@;
            let r = reference(at);
            push_str(out, r.as_str());
            push_str(out, " = ");
            push_str(out, self.nodes[at].as_str());
            push_str(out, "\n");
            assert(out@ =~= before + spec_reference(at as nat) + " = "@ + view.nodes[at as int]
                + "\n"@);
            at += 1;
        }
        assert(spec_print(view) == spec_node_lines(
            view.nodes,
            0,
            spec_named_lines(view.named, 0, seq![]),
        ));
        assert(middle == spec_named_lines(view.named, 0, start));
        assert(spec_node_lines(view.nodes, 0, middle) == start + spec_print(view)) by {
            lemma_node_lines_shift(
                view.nodes,
                0,
                spec_named_lines(view.named, 0, seq![]),
                start,
            );
            lemma_named_lines_shift(view.named, 0, seq![], start);
        }
    }

    /// Prints everything: named lists first, then the numbered nodes.
    pub fn print(&self, out: &mut String)
        ensures
            final(out)@ == old(out)@ + spec_print(self@),
    {
        let mut c = chars_of(out.as_str());
        self.print_into(&mut c);
        *out = text_of(&c);
    }
}

proof fn lemma_named_lines_shift(
    named: Seq<(Seq<char>, Seq<Seq<char>>)>,
    k: int,
    acc: Seq<char>,
    head: Seq<char>,
)
    ensures
        head + spec_named_lines(named, k, acc) == spec_named_lines(named, k, head + acc),
    decreases named.len() - k,
{
    if 0 <= k < named.len() {
        let line = "!"@ + named[k].0 + " = !{"@ + spec_joined(named[k].1, ", "@) + "}\n"@;
        assert(head + acc + "!"@ + named[k].0 + " = !{"@ + spec_joined(named[k].1, ", "@)
            + "}\n"@ =~= head + (acc + "!"@ + named[k].0 + " = !{"@ + spec_joined(
            named[k].1,
            ", "@,
        ) + "}\n"@));
        lemma_named_lines_shift(
            named,
            k + 1,
            acc + "!"@ + named[k].0 + " = !{"@ + spec_joined(named[k].1, ", "@) + "}\n"@,
            head,
        );
    }
}

proof fn lemma_node_lines_shift(nodes: Seq<Seq<char>>, k: int, acc: Seq<char>, head: Seq<char>)
    ensures
        head + spec_node_lines(nodes, k, acc) == spec_node_lines(nodes, k, head + acc),
    decreases nodes.len() - k,
{
    if 0 <= k < nodes.len() {
        assert(head + acc + spec_reference(k as nat) + " = "@ + nodes[k] + "\n"@ =~= head + (acc
            + spec_reference(k as nat) + " = "@ + nodes[k] + "\n"@));
        lemma_node_lines_shift(
            nodes,
            k + 1,
            acc + spec_reference(k as nat) + " = "@ + nodes[k] + "\n"@,
            head,
        );
    }
}

/// The DWARF nodes every function shares: the file and the compile unit.
#[derive(Clone, Debug)]
pub struct Dwarf {
    /// Reference to `!DIFile`.
    pub file: String,
    /// Reference to `!DICompileUnit`.
    pub unit: String,
}

/// The `!DIFile` node of a source.
pub open spec fn spec_file_node(file: Seq<char>, directory: Seq<char>) -> Seq<char> {
    "!DIFile(filename: \""@ + file + "\", directory: \""@ + directory + "\")"@
}

/// The `!DICompileUnit` node: C99 as the language, so that the debugger
/// parses expressions with C syntax.
pub open spec fn spec_unit_node(file: Seq<char>, empty: Seq<char>) -> Seq<char> {
    "distinct !DICompileUnit(language: DW_LANG_C99, file: "@ + file
        + ", producer: \"adamas\", isOptimized: false, runtimeVersion: 0, emissionKind: FullDebug, enums: "@
        + empty + ")"@
}

/// The metadata and the header after [`Dwarf::new`].
pub open spec fn spec_dwarf(m: MetadataView, file: Seq<char>, directory: Seq<char>) -> (
    MetadataView,
    Seq<char>,
    Seq<char>,
) {
    let (m1, empty) = spec_node(m, "!{}"@);
    let (m2, file_ref) = spec_node(m1, spec_file_node(file, directory));
    let (m3, unit) = spec_node(m2, spec_unit_node(file_ref, empty));
    let (m4, dwarf_version) = spec_node(m3, "!{i32 7, !\"Dwarf Version\", i32 5}"@);
    let (m5, info_version) = spec_node(m4, "!{i32 2, !\"Debug Info Version\", i32 3}"@);
    let m6 = spec_named(m5, "llvm.dbg.cu"@, seq![unit]);
    let m7 = spec_named(m6, "llvm.module.flags"@, seq![dwarf_version, info_version]);
    (m7, file_ref, unit)
}

impl Dwarf {
    /// Makes the DWARF header: module flags, file, compile unit.
    ///
    /// Both versions are required: without "Debug Info Version" the verifier
    /// drops the metadata and the `.ll` builds silently without DWARF.
    pub fn new(metadata: &mut Metadata, file: &str, directory: &str) -> (dwarf: Self)
        ensures
            (final(metadata)@, dwarf.file@, dwarf.unit@) == spec_dwarf(
                old(metadata)@,
                file@,
                directory@,
            ),
    {
        let empty = metadata.node("!{}");
        let mut f = chars_of("!DIFile(filename: \"");
        push_str(&mut f, file);
        push_str(&mut f, "\", directory: \"");
        push_str(&mut f, directory);
        push_str(&mut f, "\")");
        let file_ref = metadata.node(text_of(&f).as_str());
        let mut u = chars_of("distinct !DICompileUnit(language: DW_LANG_C99, file: ");
        push_str(&mut u, file_ref.as_str());
        push_str(
            &mut u,
            ", producer: \"adamas\", isOptimized: false, runtimeVersion: 0, emissionKind: FullDebug, enums: ",
        );
        push_str(&mut u, empty.as_str());
        push_str(&mut u, ")");
        let unit = metadata.node(text_of(&u).as_str());
        let dwarf_version = metadata.node("!{i32 7, !\"Dwarf Version\", i32 5}");
        let info_version = metadata.node("!{i32 2, !\"Debug Info Version\", i32 3}");
        let mut units: Vec<String> = Vec::new();
        units.push(unit.clone());
        assert(units@.map_values(|s: String| s@) =~= seq![unit@]);
        metadata.name("llvm.dbg.cu", units);
        let mut flags: Vec<String> = Vec::new();
        flags.push(dwarf_version);
        flags.push(info_version);
        assert(flags@.map_values(|s: String| s@) =~= seq![dwarf_version@, info_version@]);
        metadata.name("llvm.module.flags", flags);
        Dwarf { file: file_ref, unit }
    }
}

/// A flat integer representation; anything else, floats included, is not.
pub open spec fn spec_integral(repr: Repr) -> Option<PrimTy> {
    match spec_primitive(repr) {
        Some(ty) => if spec_floating(ty) {
            None
        } else {
            Some(ty)
        },
        None => None,
    }
}

/// A flat integer representation, if the representation is one.
pub fn integral(repr: Repr) -> (ty: Option<PrimTy>)
    ensures
        ty == spec_integral(repr),
{
    match repr.primitive() {
        Some(ty) => if ty.floating() {
            None
        } else {
            Some(ty)
        },
        None => None,
    }
}

/// The DWARF type node of a slot: an integer is named as in Adamas, its
/// signedness in the encoding and its width in bits; a heap object is a
/// pointer without a name of its own.
pub open spec fn spec_type_node(repr: Repr) -> Seq<char> {
    match spec_integral(repr) {
        Some(prim) => "!DIBasicType(name: \""@ + spec_name(prim) + "\", size: "@ + spec_decimal(
            (spec_size(prim) * 8) as nat,
        ) + ", encoding: "@ + (if spec_signed(prim) {
            "DW_ATE_signed"@
        } else {
            "DW_ATE_unsigned"@
        }) + ")"@,
        None => "!DIDerivedType(tag: DW_TAG_pointer_type, name: \"объект\", baseType: null, size: 64)"@,
    }
}

/// The nodes of a function's debug information after
/// [`Dwarf::subprogram`]: the metadata, and the references to the
/// subprogram, to the location of the body and to that of the prologue.
pub open spec fn spec_subprogram(
    m: MetadataView,
    file: Seq<char>,
    unit: Seq<char>,
    name: Seq<char>,
    line: nat,
    column: nat,
    signature: Seq<Seq<char>>,
) -> (MetadataView, Seq<char>, Seq<char>, Seq<char>) {
    let (m1, types) = spec_node(m, "!{"@ + spec_joined(signature, ", "@) + "}"@);
    let (m2, subroutine) = spec_node(m1, "!DISubroutineType(types: "@ + types + ")"@);
    let (m3, subprogram) = spec_node(
        m2,
        "distinct !DISubprogram(name: \""@ + spec_escaped_name(name) + "\", scope: "@ + file
            + ", file: "@ + file + ", line: "@ + spec_decimal(line) + ", type: "@ + subroutine
            + ", scopeLine: "@ + spec_decimal(line)
            + ", spFlags: DISPFlagDefinition | DISPFlagLocalToUnit, unit: "@ + unit + ")"@,
    );
    let (m4, here) = spec_node(
        m3,
        "!DILocation(line: "@ + spec_decimal(line) + ", column: "@ + spec_decimal(column)
            + ", scope: "@ + subprogram + ")"@,
    );
    let (m5, prologue) = spec_node(m4, "!DILocation(line: 0, scope: "@ + subprogram + ")"@);
    (m5, subprogram, here, prologue)
}

/// The debug scope of one function.
#[derive(Clone, Debug)]
pub struct Scope {
    /// Reference to the `!DISubprogram`.
    pub subprogram: String,
    /// Location of the body: the line of the definition.
    pub here: String,
    /// Location of the prologue: line zero.
    pub prologue: String,
    /// The line the definition is written on; local variables are dated by it.
    pub line: usize,
    /// Its column.
    pub column: usize,
}

/// The type node of a representation asked for a second time gives the same
/// reference and makes nothing: one node per type, however often slots of
/// that type are described.
pub proof fn lemma_type_node_shared(m: MetadataView, repr: Repr)
    ensures
        spec_node(spec_node(m, spec_type_node(repr)).0, spec_type_node(repr)) == spec_node(
            m,
            spec_type_node(repr),
        ),
{
    let t = spec_type_node(repr);
    reveal_strlit("distinct ");
    reveal_strlit("!DIBasicType(name: \"");
    reveal_strlit("!DIDerivedType(tag: DW_TAG_pointer_type, name: \"объект\", baseType: null, size: 64)");
    assert(t[0] == '!');
    assert("distinct "@[0] == 'd');
    if spec_distinct(t) {
        assert(t.subrange(0, 9)[0] == t[0]);
    }
    lemma_node_shared(m, t);
}

impl Dwarf {
    /// The DWARF type of a slot's representation: named as in Adamas
    /// (`UInt64`, not `i64`), so that the debugger shows the language's
    /// types.
    pub fn ty(metadata: &mut Metadata, repr: Repr) -> (reference: String)
        ensures
            (final(metadata)@, reference@) == spec_node(old(metadata)@, spec_type_node(repr)),
    {
        match integral(repr) {
            Some(prim) => {
                let encoding = if prim.signed() {
                    "DW_ATE_signed"
                } else {
                    "DW_ATE_unsigned"
                };
                let mut text = chars_of("!DIBasicType(name: \"");
                push_str(&mut text, prim.name());
                push_str(&mut text, "\", size: ");
                extend(&mut text, &decimal((prim.size() * 8) as u64));
                push_str(&mut text, ", encoding: ");
                push_str(&mut text, encoding);
                push_str(&mut text, ")");
                metadata.node(text_of(&text).as_str())
            },
            None => metadata.node(
                "!DIDerivedType(tag: DW_TAG_pointer_type, name: \"объект\", baseType: null, size: 64)",
            ),
        }
    }

    /// Makes the `!DISubprogram` of a function and the locations of its body
    /// and its prologue.
    ///
    /// No `linkageName` is written: with it the debugger shows the symbol
    /// `fn_3` in the frame, without it the name in Adamas. The prologue is
    /// on line zero, so that the first breakpoint comes after the parameters
    /// are stored.
    pub fn subprogram(
        &self,
        metadata: &mut Metadata,
        name: &str,
        line: usize,
        column: usize,
        signature: &[String],
    ) -> (scope: Scope)
        ensures
            (final(metadata)@, scope.subprogram@, scope.here@, scope.prologue@) == spec_subprogram(
                old(metadata)@,
                self.file@,
                self.unit@,
                name@,
                line as nat,
                column as nat,
                signature@.map_values(|s: String| s@),
            ),
            scope.line == line,
            scope.column == column,
    {
        let mut t = chars_of("!{");
        extend(&mut t, &joined(signature, ", "));
        push_str(&mut t, "}");
        let types = metadata.node(text_of(&t).as_str());
        let mut r = chars_of("!DISubroutineType(types: ");
        push_str(&mut r, types.as_str());
        push_str(&mut r, ")");
        let subroutine = metadata.node(text_of(&r).as_str());
        let escaped = escaped_name(name);
        let line_text = decimal(line as u64);
        let column_text = decimal(column as u64);
        let mut p = chars_of("distinct !DISubprogram(name: \"");
        push_str(&mut p, escaped.as_str());
        push_str(&mut p, "\", scope: ");
        push_str(&mut p, self.file.as_str());
        push_str(&mut p, ", file: ");
        push_str(&mut p, self.file.as_str());
        push_str(&mut p, ", line: ");
        extend(&mut p, &line_text);
        push_str(&mut p, ", type: ");
        push_str(&mut p, subroutine.as_str());
        push_str(&mut p, ", scopeLine: ");
        extend(&mut p, &line_text);
        push_str(&mut p, ", spFlags: DISPFlagDefinition | DISPFlagLocalToUnit, unit: ");
        push_str(&mut p, self.unit.as_str());
        push_str(&mut p, ")");
        let subprogram = metadata.node(text_of(&p).as_str());
        let mut h = chars_of("!DILocation(line: ");
        extend(&mut h, &line_text);
        push_str(&mut h, ", column: ");
        extend(&mut h, &column_text);
        push_str(&mut h, ", scope: ");
        push_str(&mut h, subprogram.as_str());
        push_str(&mut h, ")");
        let here = metadata.node(text_of(&h).as_str());
        let mut g = chars_of("!DILocation(line: 0, scope: ");
        push_str(&mut g, subprogram.as_str());
        push_str(&mut g, ")");
        let prologue = metadata.node(text_of(&g).as_str());
        Scope { subprogram, here, prologue, line, column }
    }
}

/// A name inside metadata quotes: backslash and quote escaped.
pub open spec fn spec_escaped_name(name: Seq<char>) -> Seq<char> {
    spec_replace_char(spec_replace_char(name, '\\', seq!['\\', '\\']), '"', seq!['\\', '"'])
}

/// A name inside metadata quotes.
pub fn escaped_name(name: &str) -> (safe: String)
    ensures
        safe@ == spec_escaped_name(name@),
{
    let s = chars_of(name);
    let mut backslashes: Vec<char> = Vec::new();
    backslashes.push('\\');
    backslashes.push('\\');
    let mut quote: Vec<char> = Vec::new();
    quote.push('\\');
    quote.push('"');
    assert(backslashes@ =~= seq!['\\', '\\']);
    assert(quote@ =~= seq!['\\', '"']);
    let first = replace_char(&s, '\\', &backslashes);
    text_of(&replace_char(&first, '"', &quote))
}

/// The bytes of a text with a terminating zero.
pub fn terminated(text: &str) -> (bytes: Vec<u8>)
    ensures
        bytes@ == text.spec_bytes().push(0u8),
{
    let raw = text.as_bytes();
    let mut bytes: Vec<u8> = Vec::new();
    let mut i: usize = 0;
    while i < raw.len()
        invariant
            i <= raw@.len(),
            bytes@ == raw@.subrange(0, i as int),
        decreases raw@.len() - i,
    {
        bytes.push(raw[i]);
        i += 1;
        assert(bytes@ =~= raw@.subrange(0, i as int));
    }
    assert(raw@.subrange(0, raw@.len() as int) =~= raw@);
    bytes.push(0);
    bytes
}

/// Whether a byte is printed as itself in a `.ll` string: a space or a
/// printable ASCII character other than quote and backslash.
pub open spec fn spec_plain_byte(b: u8) -> bool {
    b == 0x20 || (0x21 <= b && b <= 0x7e && b != 0x22 && b != 0x5c)
}

/// An upper-case hexadecimal digit.
pub open spec fn spec_hex(n: u8) -> char {
    if n < 10 {
        (48 + n) as char
    } else {
        (55 + n) as char
    }
}

/// The bytes from `i` on in `.ll` form: plain bytes as they are, every other
/// as `\XX`.
pub open spec fn spec_escaped_bytes_from(bytes: Seq<u8>, i: int, acc: Seq<char>) -> Seq<char>
    decreases bytes.len() - i,
{
    if i < 0 || i >= bytes.len() {
        acc
    } else if spec_plain_byte(bytes[i]) {
        spec_escaped_bytes_from(bytes, i + 1, acc.push(bytes[i] as char))
    } else {
        spec_escaped_bytes_from(
            bytes,
            i + 1,
            acc + seq!['\\', spec_hex(bytes[i] / 16), spec_hex(bytes[i] % 16)],
        )
    }
}

/// The bytes of a string constant in `.ll` form.
pub open spec fn spec_escaped_bytes(bytes: Seq<u8>) -> Seq<char> {
    spec_escaped_bytes_from(bytes, 0, seq![])
}

fn hex(n: u8) -> (c: char)
    requires
        n < 16,
    ensures
        c == spec_hex(n),
{
    if n < 10 {
        (48 + n) as char
    } else {
        (55 + n) as char
    }
}

/// The bytes of a string constant in `.ll` form.
///
/// Everything but printable ASCII and the space is escaped: Russian text
/// takes two bytes a letter, and printing them raw would rest on the file's
/// encoding where `.ll` declares bytes.
pub fn escaped(bytes: &[u8]) -> (text: String)
    ensures
        text@ == spec_escaped_bytes(bytes@),
{
    let mut out: Vec<char> = Vec::new();
    let mut i: usize = 0;
    while i < bytes.len()
        invariant
            i <= bytes@.len(),
            spec_escaped_bytes(bytes@) == spec_escaped_bytes_from(bytes@, i as int, out@),
        decreases bytes@.len() - i,
    {
        let b = bytes[i];
        if b == 0x20 || (0x21 <= b && b <= 0x7e && b != 0x22 && b != 0x5c) {
            out.push(b as char);
        } else {
            let ghost before = out@;
            out.push('\\');
            out.push(hex(b / 16));
            out.push(hex(b % 16));
            assert(out@ =~= before + seq!['\\', spec_hex(b / 16), spec_hex(b % 16)]);
        }
        i += 1;
    }
    text_of(&out)
}

/// A string constant: `NAME = private unnamed_addr constant [N x i8] c"..."`.
pub open spec fn spec_constant(name: Seq<char>, text: Seq<u8>) -> Seq<char> {
    name + " = private unnamed_addr constant ["@ + spec_decimal((text.len() + 1) as nat)
        + " x i8] c\""@ + spec_escaped_bytes(text.push(0u8)) + "\""@
}

/// The module frame around the function bodies.
pub open spec fn spec_finish(
    bodies: Seq<char>,
    metadata: MetadataView,
    debug: bool,
    entry: nat,
    answer: PrimTy,
) -> Seq<char> {
    let ty = spec_machine(answer);
    HEADER@ + (if debug { DEBUG_DECLARATION@ } else { seq![] }) + spec_constant(
        TAG_MESSAGE@,
        TAG_TEXT.spec_bytes(),
    ) + "\n"@ + spec_constant(RELEASE_MESSAGE@, RELEASE_TEXT.spec_bytes()) + "\n\n"@
        + RELEASE_COMMENT@ + "define internal void @adamas_release_none(ptr %value) "@
        + DEFINITION_ATTRIBUTES@ + " {\n"@ + "entry:\n"@ + "  call void @adamas_fail(ptr "@
        + RELEASE_MESSAGE@ + ")\n"@ + "  unreachable\n}\n\n"@ + bodies
        + "; Точка входа для спутника на C.\n"@
        + "; Соглашение здесь C - её зовёт спутник; порождённые между собой\n; ходят по `"@
        + CONVENTION@ + "` (трек D), и вызов ниже это называет.\n"@ + "define "@ + ty + " @"@
        + ENTRY_SYMBOL@ + "() "@ + DEFINITION_ATTRIBUTES@ + " {\n"@ + "entry:\n"@
        + "  %answer = call "@ + CONVENTION@ + " "@ + ty + " @fn_"@ + spec_decimal(entry)
        + "()\n"@ + "  ret "@ + ty + " %answer\n"@ + "}\n"@ + (if metadata.nodes.len() == 0 {
        seq![]
    } else {
        "\n"@ + spec_print(metadata)
    })
}

fn constant(out: &mut Vec<char>, name: &str, text: &str)
    ensures
        final(out)@ == old(out)@ + spec_constant(name@, text.spec_bytes()),
{
    let bytes = terminated(text);
    push_str(out, name);
    push_str(out, " = private unnamed_addr constant [");
    extend(out, &decimal(bytes.len() as u64));
    push_str(out, " x i8] c\"");
    extend(out, &chars_of(escaped(&bytes).as_str()));
    push_str(out, "\"");
}

/// The module: function bodies, metadata, and the DWARF header if the
/// program names its source.
#[derive(Debug)]
pub struct Module {
    /// The function bodies, already printed.
    pub bodies: String,
    /// Metadata nodes of the module.
    pub metadata: Metadata,
    /// The DWARF header; none when the program has no source.
    pub dwarf: Option<Dwarf>,
}

impl Module {
    /// Puts the module together: head, declarations, constants, bodies, the
    /// entry point for the C companion, metadata.
    pub fn finish(self, entry: usize, answer: PrimTy) -> (text: String)
        ensures
            text@ == spec_finish(
                self.bodies@,
                self.metadata@,
                self.dwarf is Some,
                entry as nat,
                answer,
            ),
    {
        let ty = machine(answer);
        let mut out = chars_of(HEADER);
        if self.dwarf.is_some() {
            push_str(&mut out, DEBUG_DECLARATION);
        }
        constant(&mut out, TAG_MESSAGE, TAG_TEXT);
        push_str(&mut out, "\n");
        constant(&mut out, RELEASE_MESSAGE, RELEASE_TEXT);
        push_str(&mut out, "\n\n");
        push_str(&mut out, RELEASE_COMMENT);
        push_str(&mut out, "define internal void @adamas_release_none(ptr %value) ");
        push_str(&mut out, DEFINITION_ATTRIBUTES);
        push_str(&mut out, " {\n");
        push_str(&mut out, "entry:\n");
        push_str(&mut out, "  call void @adamas_fail(ptr ");
        push_str(&mut out, RELEASE_MESSAGE);
        push_str(&mut out, ")\n");
        push_str(&mut out, "  unreachable\n}\n\n");
        push_str(&mut out, self.bodies.as_str());
        push_str(&mut out, "; Точка входа для спутника на C.\n");
        push_str(
            &mut out,
            "; Соглашение здесь C - её зовёт спутник; порождённые между собой\n; ходят по `",
        );
        push_str(&mut out, CONVENTION);
        push_str(&mut out, "` (трек D), и вызов ниже это называет.\n");
        push_str(&mut out, "define ");
        push_str(&mut out, ty);
        push_str(&mut out, " @");
        push_str(&mut out, ENTRY_SYMBOL);
        push_str(&mut out, "() ");
        push_str(&mut out, DEFINITION_ATTRIBUTES);
        push_str(&mut out, " {\n");
        push_str(&mut out, "entry:\n");
        push_str(&mut out, "  %answer = call ");
        push_str(&mut out, CONVENTION);
        push_str(&mut out, " ");
        push_str(&mut out, ty);
        push_str(&mut out, " @fn_");
        extend(&mut out, &decimal(entry as u64));
        push_str(&mut out, "()\n");
        push_str(&mut out, "  ret ");
        push_str(&mut out, ty);
        push_str(&mut out, " %answer\n");
        push_str(&mut out, "}\n");
        let ghost before = out@;
        if self.metadata.nodes.len() > 0 {
            push_str(&mut out, "\n");
            self.metadata.print_into(&mut out);
        }
        proof {
            assert(self.metadata@.nodes.len() == self.metadata.nodes@.len());
        }
        text_of(&out)
    }
}

} // verus!
