//! Cancelling `adamas_dup`/`adamas_drop` pairs after inlining.
//!
//! A pass from `.ll` text to `.ll` text, run right after `opt`. Inlining puts
//! the caller's `dup` and the callee's `drop` of the same register into one
//! body; when nobody looks at the reference count between them, both calls
//! can go (`rc + 1 - 1 = rc`).
//!
//! What counts as "nobody looks" is a white list: between the pair only
//! instructions without memory and without control are allowed. Any call,
//! `load`, `store`, terminator or unknown instruction is a barrier, and the
//! pair stays. [`Between::Ignored`] is the same pass without that check; it
//! exists only so that tests can tell the careful pass from the careless one.

use vstd::prelude::*;

use crate::text::{
    lemma_find_from_matches, views,
    blank, chars_of, same_chars, same_text_chars, spec_starts_with, starts_with, text_of, extend, find, find_from, slice_of, spec_back_blank, spec_blank, spec_find,
    spec_find_from, spec_matches_at, spec_trim, trim,
};

verus! {

/// What the pass accepts between a `dup` and its `drop`.
#[derive(Clone, Copy, Debug, PartialEq, Eq, Structural)]
pub enum Between {
    /// Only instructions without memory and control may stand between:
    /// every call, `adamas_dup` and `adamas_drop` ones included, is a
    /// barrier, and so is a line the white list does not know.
    Watched,
    /// The middle is not looked at: a `dup` cancels with the next `drop` of
    /// the same register anywhere later in the function.
    Ignored,
}

/// What the pass did.
#[derive(Clone, Copy, Debug, Default, PartialEq, Eq)]
pub struct Report {
    /// Calls of `adamas_dup` in function bodies.
    pub dups: usize,
    /// Calls of `adamas_drop` in function bodies.
    pub drops: usize,
    /// Pairs removed.
    pub cancelled: usize,
    /// Drops of a register that had a `dup` in the function, kept because a
    /// barrier stood between.
    pub refused: usize,
    /// `dup` calls kept because their result is read.
    pub live: usize,
}

// ---------------------------------------------------------------- lines

/// One line without the `\r` that ended it together with `\n`.
pub open spec fn spec_strip_cr(s: Seq<char>) -> Seq<char> {
    if s.len() > 0 && s.last() == '\r' {
        s.drop_last()
    } else {
        s
    }
}

/// `str::lines` from position `i`, with the current line starting at
/// `start` and the lines found so far in `acc`.
pub open spec fn spec_lines_from(t: Seq<char>, i: int, start: int, acc: Seq<Seq<char>>) -> Seq<
    Seq<char>,
>
    decreases t.len() - i,
{
    if i >= t.len() {
        if start < t.len() {
            acc.push(t.subrange(start, t.len() as int))
        } else {
            acc
        }
    } else if t[i] == '\n' {
        spec_lines_from(t, i + 1, i + 1, acc.push(spec_strip_cr(t.subrange(start, i))))
    } else {
        spec_lines_from(t, i + 1, start, acc)
    }
}

/// The lines of a text, as `str::lines` splits it: at each `\n`, dropping a
/// `\r` right before it, and without an empty piece after the last `\n`.
pub open spec fn spec_lines(t: Seq<char>) -> Seq<Seq<char>> {
    spec_lines_from(t, 0, 0, seq![])
}

fn strip_cr(s: Vec<char>) -> (out: Vec<char>)
    ensures
        out@ == spec_strip_cr(s@),
{
    let mut s = s;
    if s.len() > 0 && s[s.len() - 1] == '\r' {
        s.pop();
    }
    s
}

fn split_lines(t: &[char]) -> (lines: Vec<Vec<char>>)
    ensures
        views(lines@) == spec_lines(t@),
{
    let mut lines: Vec<Vec<char>> = Vec::new();
    assert(views(lines@) =~= seq![]);
    let mut start: usize = 0;
    let mut i: usize = 0;
    while i < t.len()
        invariant
            start <= i <= t@.len(),
            spec_lines(t@) == spec_lines_from(t@, i as int, start as int, views(lines@)),
        decreases t@.len() - i,
    {
        if t[i] == '\n' {
            let line = strip_cr(slice_of(t, start, i));
            let ghost before = views(lines@);
            lines.push(line);
            assert(views(lines@) =~= before.push(spec_strip_cr(t@.subrange(start as int, i as int))));
            start = i + 1;
        }
        i += 1;
    }
    if start < t.len() {
        let line = slice_of(t, start, t.len());
        let ghost before = views(lines@);
        lines.push(line);
        assert(views(lines@) =~= before.push(t@.subrange(start as int, t@.len() as int)));
    }
    lines
}

// ---------------------------------------------------------------- calls

/// Position of the bracket closing an already open one, scanning from `i`
/// with `depth` brackets opened since.
pub open spec fn spec_closing_from(t: Seq<char>, i: int, depth: nat) -> Option<int>
    decreases t.len() - i,
{
    if i < 0 || i >= t.len() {
        None
    } else if t[i] == '(' {
        spec_closing_from(t, i + 1, depth + 1)
    } else if t[i] == ')' {
        if depth == 0 {
            Some(i)
        } else {
            spec_closing_from(t, i + 1, (depth - 1) as nat)
        }
    } else {
        spec_closing_from(t, i + 1, depth)
    }
}

/// `@name(` as it stands in a call.
pub open spec fn spec_needle(name: Seq<char>) -> Seq<char> {
    seq!['@'] + name + seq!['(']
}

/// The arguments of the first call of `@name` in the line, if it has one.
pub open spec fn spec_call_to(text: Seq<char>, name: Seq<char>) -> Option<Seq<char>> {
    let needle = spec_needle(name);
    match spec_find(text, needle) {
        None => None,
        Some(at) => {
            let from = at + needle.len();
            match spec_closing_from(text, from, 0) {
                None => None,
                Some(end) => Some(text.subrange(from, end)),
            }
        },
    }
}

fn closing_from(t: &[char], from: usize) -> (end: Option<usize>)
    requires
        from <= t@.len(),
    ensures
        end matches Some(e) ==> spec_closing_from(t@, from as int, 0) == Some(e as int) && from
            <= e < t@.len(),
        end is None ==> spec_closing_from(t@, from as int, 0) is None,
{
    let mut depth: usize = 0;
    let mut i = from;
    while i < t.len()
        invariant
            from <= i <= t@.len(),
            depth <= i - from,
            spec_closing_from(t@, from as int, 0) == spec_closing_from(t@, i as int, depth as nat),
        decreases t@.len() - i,
    {
        if t[i] == '(' {
            depth += 1;
        } else if t[i] == ')' {
            if depth == 0 {
                return Some(i);
            }
            depth -= 1;
        }
        i += 1;
    }
    None
}

fn call_to(text: &[char], name: &[char]) -> (args: Option<Vec<char>>)
    ensures
        args matches Some(a) ==> spec_call_to(text@, name@) == Some(a@),
        args is None ==> spec_call_to(text@, name@) is None,
{
    let mut needle: Vec<char> = Vec::new();
    needle.push('@');
    extend(&mut needle, name);
    needle.push('(');
    assert(needle@ =~= spec_needle(name@));
    match find(text, &needle) {
        None => None,
        Some(at) => {
            proof {
                lemma_find_from_matches(text@, needle@, 0);
            }
            assert(text@.len() == text.len());
            let from = at + needle.len();
            match closing_from(text, from) {
                None => None,
                Some(end) => Some(slice_of(text, from, end)),
            }
        },
    }
}

// ---------------------------------------------------------------- operands

/// Whether a character opens a bracket that `top_level` counts.
pub open spec fn spec_opens(c: char) -> bool {
    c == '(' || c == '[' || c == '{' || c == '<'
}

/// Whether a character closes a bracket that `top_level` counts.
pub open spec fn spec_closes(c: char) -> bool {
    c == ')' || c == ']' || c == '}' || c == '>'
}

/// Pieces of `a` between top-level commas, scanning from `i`.
pub open spec fn spec_top_level_from(
    a: Seq<char>,
    i: int,
    depth: nat,
    start: int,
    acc: Seq<Seq<char>>,
) -> Seq<Seq<char>>
    decreases a.len() - i,
{
    if i >= a.len() {
        acc.push(a.subrange(start, a.len() as int))
    } else if spec_opens(a[i]) {
        spec_top_level_from(a, i + 1, depth + 1, start, acc)
    } else if spec_closes(a[i]) {
        spec_top_level_from(a, i + 1, if depth == 0 { 0 } else { (depth - 1) as nat }, start, acc)
    } else if a[i] == ',' && depth == 0 {
        spec_top_level_from(a, i + 1, 0, i + 1, acc.push(a.subrange(start, i)))
    } else {
        spec_top_level_from(a, i + 1, depth, start, acc)
    }
}

/// Arguments split at commas outside any bracket.
pub open spec fn spec_top_level(a: Seq<char>) -> Seq<Seq<char>> {
    spec_top_level_from(a, 0, 0, 0, seq![])
}

proof fn lemma_top_level_nonempty(
    a: Seq<char>,
    i: int,
    depth: nat,
    start: int,
    acc: Seq<Seq<char>>,
)
    requires
        0 <= i,
    ensures
        spec_top_level_from(a, i, depth, start, acc).len() > 0,
        acc.len() > 0 ==> spec_top_level_from(a, i, depth, start, acc)[0] == acc[0],
    decreases a.len() - i,
{
    if i < a.len() {
        if spec_opens(a[i]) {
            lemma_top_level_nonempty(a, i + 1, depth + 1, start, acc);
        } else if spec_closes(a[i]) {
            lemma_top_level_nonempty(
                a,
                i + 1,
                if depth == 0 { 0 } else { (depth - 1) as nat },
                start,
                acc,
            );
        } else if a[i] == ',' && depth == 0 {
            lemma_top_level_nonempty(a, i + 1, 0, i + 1, acc.push(a.subrange(start, i)));
        } else {
            lemma_top_level_nonempty(a, i + 1, depth, start, acc);
        }
    }
}

fn top_level(a: &[char]) -> (parts: Vec<Vec<char>>)
    ensures
        views(parts@) == spec_top_level(a@),
        parts.len() > 0,
{
    let mut parts: Vec<Vec<char>> = Vec::new();
    assert(views(parts@) =~= seq![]);
    let mut depth: usize = 0;
    let mut start: usize = 0;
    let mut i: usize = 0;
    while i < a.len()
        invariant
            start <= i <= a@.len(),
            depth <= i,
            spec_top_level(a@) == spec_top_level_from(
                a@,
                i as int,
                depth as nat,
                start as int,
                views(parts@),
            ),
        decreases a@.len() - i,
    {
        let c = a[i];
        if c == '(' || c == '[' || c == '{' || c == '<' {
            depth += 1;
        } else if c == ')' || c == ']' || c == '}' || c == '>' {
            depth = if depth == 0 {
                0
            } else {
                depth - 1
            };
        } else if c == ',' && depth == 0 {
            let ghost before = views(parts@);
            parts.push(slice_of(a, start, i));
            assert(views(parts@) =~= before.push(a@.subrange(start as int, i as int)));
            start = i + 1;
        }
        i += 1;
    }
    let ghost before = views(parts@);
    parts.push(slice_of(a, start, a.len()));
    assert(views(parts@) =~= before.push(a@.subrange(start as int, a@.len() as int)));
    parts
}

/// Start of the word that ends at `j`.
pub open spec fn spec_word_start(s: Seq<char>, j: int) -> int
    decreases j,
{
    if 0 < j <= s.len() && !spec_blank(s[j - 1]) {
        spec_word_start(s, j - 1)
    } else {
        j
    }
}

/// The last white-space separated word, as `split_whitespace().next_back()`.
pub open spec fn spec_last_word(s: Seq<char>) -> Option<Seq<char>> {
    let j = spec_back_blank(s, s.len() as int);
    if j <= 0 {
        None
    } else {
        Some(s.subrange(spec_word_start(s, j), j))
    }
}

/// The register the argument names, if it names one: its last word, when
/// that starts with `%`.
pub open spec fn spec_first_register(argument: Seq<char>) -> Option<Seq<char>> {
    match spec_last_word(argument) {
        Some(w) => if w.len() > 0 && w[0] == '%' {
            Some(w)
        } else {
            None
        },
        None => None,
    }
}

proof fn lemma_back_blank_bounds(s: Seq<char>, j: int)
    requires
        0 <= j <= s.len(),
    ensures
        0 <= spec_back_blank(s, j) <= j,
        spec_back_blank(s, j) > 0 ==> !spec_blank(s[spec_back_blank(s, j) - 1]),
    decreases j,
{
    if j > 0 && spec_blank(s[j - 1]) {
        lemma_back_blank_bounds(s, j - 1);
    }
}

proof fn lemma_word_start_bounds(s: Seq<char>, j: int)
    requires
        0 <= j <= s.len(),
    ensures
        0 <= spec_word_start(s, j) <= j,
    decreases j,
{
    if 0 < j && !spec_blank(s[j - 1]) {
        lemma_word_start_bounds(s, j - 1);
    }
}

fn first_register(argument: &[char]) -> (register: Option<Vec<char>>)
    ensures
        register matches Some(r) ==> spec_first_register(argument@) == Some(r@),
        register is None ==> spec_first_register(argument@) is None,
{
    let s = argument;
    let mut j = s.len();
    while j > 0 && blank(s[j - 1])
        invariant
            j <= s@.len(),
            spec_back_blank(s@, s@.len() as int) == spec_back_blank(s@, j as int),
        decreases j,
    {
        j -= 1;
    }
    if j == 0 {
        return None;
    }
    let mut i = j;
    while i > 0 && !blank(s[i - 1])
        invariant
            i <= j <= s@.len(),
            spec_word_start(s@, j as int) == spec_word_start(s@, i as int),
        decreases i,
    {
        i -= 1;
    }
    if s[i] == '%' {
        Some(slice_of(s, i, j))
    } else {
        None
    }
}

/// ` = `, the separator between a result and its instruction.
pub open spec fn spec_assign() -> Seq<char> {
    seq![' ', '=', ' ']
}

/// The name an instruction assigns its result to.
pub open spec fn spec_assigned(text: Seq<char>) -> Option<Seq<char>> {
    match spec_find(text, spec_assign()) {
        None => None,
        Some(at) => {
            let left = spec_trim(text.subrange(0, at));
            if left.len() > 0 && left[0] == '%' {
                Some(left)
            } else {
                None
            }
        },
    }
}

fn assign() -> (s: Vec<char>)
    ensures
        s@ == spec_assign(),
{
    let mut s = Vec::new();
    s.push(' ');
    s.push('=');
    s.push(' ');
    assert(s@ =~= spec_assign());
    s
}

fn assigned(text: &[char]) -> (name: Option<Vec<char>>)
    ensures
        name matches Some(n) ==> spec_assigned(text@) == Some(n@) && n@.len() > 0,
        name is None ==> spec_assigned(text@) is None,
{
    match find(text, &assign()) {
        None => None,
        Some(at) => {
            proof {
                lemma_find_from_matches(text@, spec_assign(), 0);
            }
            let left = trim(&slice_of(text, 0, at));
            if left.len() > 0 && left[0] == '%' {
                Some(left)
            } else {
                None
            }
        },
    }
}

/// A character an LLVM name may continue with.
pub open spec fn spec_identifier(c: char) -> bool {
    ||| ('a' <= c && c <= 'z')
    ||| ('A' <= c && c <= 'Z')
    ||| ('0' <= c && c <= '9')
    ||| c == '_'
    ||| c == '.'
    ||| c == '$'
    ||| c == '-'
}

fn identifier(c: char) -> (b: bool)
    ensures
        b == spec_identifier(c),
{
    ('a' <= c && c <= 'z') || ('A' <= c && c <= 'Z') || ('0' <= c && c <= '9') || c == '_' || c
        == '.' || c == '$' || c == '-'
}

/// Whether `name` occurs whole in `line` at or after `from`: an occurrence
/// followed by a character that continues a name is skipped over.
pub open spec fn spec_mentions_from(line: Seq<char>, name: Seq<char>, from: int) -> bool
    decreases line.len() + 1 - from,
{
    match spec_find_from(line, name, from) {
        None => false,
        Some(at) => {
            let after = at + name.len();
            if after < line.len() && spec_identifier(line[after]) {
                if from < after {
                    spec_mentions_from(line, name, after)
                } else {
                    true
                }
            } else {
                true
            }
        },
    }
}

/// Whether `name` occurs whole in `line`.
pub open spec fn spec_mentions(line: Seq<char>, name: Seq<char>) -> bool {
    spec_mentions_from(line, name, 0)
}

fn mentions(line: &[char], name: &[char]) -> (b: bool)
    requires
        name@.len() > 0,
    ensures
        b == spec_mentions(line@, name@),
{
    let mut from: usize = 0;
    loop
        invariant
            name@.len() > 0,
            from <= line@.len(),
            spec_mentions(line@, name@) == spec_mentions_from(line@, name@, from as int),
        decreases line@.len() - from,
    {
        proof {
            lemma_find_from_matches(line@, name@, from as int);
        }
        match find_from(line, name, from) {
            None => {
                return false;
            },
            Some(at) => {
                assert(line@.len() == line.len());
                let after = at + name.len();
                if after < line.len() && identifier(line[after]) {
                    from = after;
                } else {
                    return true;
                }
            },
        }
    }
}

/// Whether a line of the body other than `own` reads `name`.
pub open spec fn spec_used_elsewhere(body: Seq<Seq<char>>, own: int, name: Seq<char>) -> bool {
    exists|k: int| 0 <= k < body.len() && k != own && #[trigger] spec_mentions(body[k], name)
}

fn used_elsewhere(lines: &Vec<Vec<char>>, start: usize, end: usize, own: usize, name: &[char]) -> (b:
    bool)
    requires
        start <= end <= lines@.len(),
        name@.len() > 0,
    ensures
        b == spec_used_elsewhere(
            views(lines@).subrange(start as int, end as int),
            own as int,
            name@,
        ),
{
    let ghost body = views(lines@).subrange(start as int, end as int);
    let mut k: usize = start;
    while k < end
        invariant
            start <= k <= end <= lines@.len(),
            body == views(lines@).subrange(start as int, end as int),
            name@.len() > 0,
            forall|m: int| 0 <= m < k - start && m != own ==> !spec_mentions(body[m], name@),
        decreases end - k,
    {
        if k - start != own && mentions(&lines[k], name) {
            assert(body[k - start] == lines[k as int]@);
            return true;
        }
        assert(body[k - start] == lines[k as int]@);
        k += 1;
    }
    false
}

// ---------------------------------------------------------------- barriers

/// Words of `s` from position `i`; `current` is where the word being read
/// began, if one is being read.
pub open spec fn spec_words_from(s: Seq<char>, i: int, current: Option<int>, acc: Seq<Seq<char>>) -> Seq<
    Seq<char>,
>
    decreases s.len() - i,
{
    if i >= s.len() {
        match current {
            Some(st) => acc.push(s.subrange(st, s.len() as int)),
            None => acc,
        }
    } else if spec_blank(s[i]) {
        match current {
            Some(st) => spec_words_from(s, i + 1, None, acc.push(s.subrange(st, i))),
            None => spec_words_from(s, i + 1, None, acc),
        }
    } else {
        match current {
            Some(st) => spec_words_from(s, i + 1, current, acc),
            None => spec_words_from(s, i + 1, Some(i), acc),
        }
    }
}

/// The white-space separated words of `s`, as `split_whitespace` gives them.
pub open spec fn spec_words(s: Seq<char>) -> Seq<Seq<char>> {
    spec_words_from(s, 0, None, seq![])
}

fn words(s: &[char]) -> (ws: Vec<Vec<char>>)
    ensures
        views(ws@) == spec_words(s@),
{
    let mut ws: Vec<Vec<char>> = Vec::new();
    assert(views(ws@) =~= seq![]);
    let mut current: Option<usize> = None;
    let mut i: usize = 0;
    while i < s.len()
        invariant
            i <= s@.len(),
            current matches Some(st) ==> st < i,
            spec_words(s@) == spec_words_from(
                s@,
                i as int,
                match current {
                    Some(st) => Some(st as int),
                    None => None,
                },
                views(ws@),
            ),
        decreases s@.len() - i,
    {
        if blank(s[i]) {
            if let Some(st) = current {
                let ghost before = views(ws@);
                ws.push(slice_of(s, st, i));
                assert(views(ws@) =~= before.push(s@.subrange(st as int, i as int)));
            }
            current = None;
        } else if current.is_none() {
            current = Some(i);
        }
        i += 1;
    }
    if let Some(st) = current {
        let ghost before = views(ws@);
        ws.push(slice_of(s, st, s.len()));
        assert(views(ws@) =~= before.push(s@.subrange(st as int, s@.len() as int)));
    }
    ws
}

/// A call modifier that stands before `call`.
pub open spec fn spec_call_modifier(w: Seq<char>) -> bool {
    w == "tail"@ || w == "musttail"@ || w == "notail"@
}

/// The first word from `k` on that is not a call modifier; empty if none.
pub open spec fn spec_opcode_from(ws: Seq<Seq<char>>, k: int) -> Seq<char>
    decreases ws.len() - k,
{
    if k < 0 || k >= ws.len() {
        seq![]
    } else if spec_call_modifier(ws[k]) {
        spec_opcode_from(ws, k + 1)
    } else {
        ws[k]
    }
}

/// Instructions that cannot see a reference count: no memory, no control,
/// no call.
///
/// The list is a white list on purpose: an instruction it does not name is
/// a barrier.
pub open spec fn spec_harmless_opcode(w: Seq<char>) -> bool {
    ||| w == "add"@
    ||| w == "and"@
    ||| w == "ashr"@
    ||| w == "bitcast"@
    ||| w == "extractvalue"@
    ||| w == "fadd"@
    ||| w == "fcmp"@
    ||| w == "fdiv"@
    ||| w == "fmul"@
    ||| w == "fneg"@
    ||| w == "fpext"@
    ||| w == "fptosi"@
    ||| w == "fptoui"@
    ||| w == "fptrunc"@
    ||| w == "freeze"@
    ||| w == "fsub"@
    ||| w == "getelementptr"@
    ||| w == "icmp"@
    ||| w == "insertvalue"@
    ||| w == "inttoptr"@
    ||| w == "lshr"@
    ||| w == "mul"@
    ||| w == "or"@
    ||| w == "phi"@
    ||| w == "ptrtoint"@
    ||| w == "sdiv"@
    ||| w == "select"@
    ||| w == "sext"@
    ||| w == "shl"@
    ||| w == "sitofp"@
    ||| w == "srem"@
    ||| w == "sub"@
    ||| w == "trunc"@
}

/// The instruction part of a line: what follows ` = `, or the whole line.
pub open spec fn spec_instruction(text: Seq<char>) -> Seq<char> {
    match spec_find(text, spec_assign()) {
        Some(at) => text.subrange(at + 3, text.len() as int),
        None => text,
    }
}

/// Whether an instruction leaves a `dup`/`drop` pair cancellable: its opcode,
/// past any `tail`, `musttail` or `notail`, is on the white list.
pub open spec fn spec_harmless(text: Seq<char>) -> bool {
    spec_harmless_opcode(spec_opcode_from(spec_words(spec_instruction(text)), 0))
}

/// The white list is exactly the instructions without memory and without
/// control: integer and floating arithmetic, comparisons, casts,
/// `getelementptr`, `select`, `phi`, `freeze` and the aggregate value
/// operations. An opcode lets a pair be cancelled across it if and only if it
/// is one of these; every other opcode, `load`, `store`, `call` and every
/// terminator among them, is a barrier.
pub proof fn lemma_white_list(w: Seq<char>)
    ensures
        spec_harmless_opcode(w) <==> seq![
            "add"@,
            "and"@,
            "ashr"@,
            "bitcast"@,
            "extractvalue"@,
            "fadd"@,
            "fcmp"@,
            "fdiv"@,
            "fmul"@,
            "fneg"@,
            "fpext"@,
            "fptosi"@,
            "fptoui"@,
            "fptrunc"@,
            "freeze"@,
            "fsub"@,
            "getelementptr"@,
            "icmp"@,
            "insertvalue"@,
            "inttoptr"@,
            "lshr"@,
            "mul"@,
            "or"@,
            "phi"@,
            "ptrtoint"@,
            "sdiv"@,
            "select"@,
            "sext"@,
            "shl"@,
            "sitofp"@,
            "srem"@,
            "sub"@,
            "trunc"@,
        ].contains(w),
{
    let list = seq![
        "add"@,
            "and"@,
            "ashr"@,
            "bitcast"@,
            "extractvalue"@,
            "fadd"@,
            "fcmp"@,
            "fdiv"@,
            "fmul"@,
            "fneg"@,
            "fpext"@,
            "fptosi"@,
            "fptoui"@,
            "fptrunc"@,
            "freeze"@,
            "fsub"@,
            "getelementptr"@,
            "icmp"@,
            "insertvalue"@,
            "inttoptr"@,
            "lshr"@,
            "mul"@,
            "or"@,
            "phi"@,
            "ptrtoint"@,
            "sdiv"@,
            "select"@,
            "sext"@,
            "shl"@,
            "sitofp"@,
            "srem"@,
            "sub"@,
            "trunc"@,
    ];
    if spec_harmless_opcode(w) {
        if w == "add"@ {
            assert(list[0] == w);
        }
        if w == "and"@ {
            assert(list[1] == w);
        }
        if w == "ashr"@ {
            assert(list[2] == w);
        }
        if w == "bitcast"@ {
            assert(list[3] == w);
        }
        if w == "extractvalue"@ {
            assert(list[4] == w);
        }
        if w == "fadd"@ {
            assert(list[5] == w);
        }
        if w == "fcmp"@ {
            assert(list[6] == w);
        }
        if w == "fdiv"@ {
            assert(list[7] == w);
        }
        if w == "fmul"@ {
            assert(list[8] == w);
        }
        if w == "fneg"@ {
            assert(list[9] == w);
        }
        if w == "fpext"@ {
            assert(list[10] == w);
        }
        if w == "fptosi"@ {
            assert(list[11] == w);
        }
        if w == "fptoui"@ {
            assert(list[12] == w);
        }
        if w == "fptrunc"@ {
            assert(list[13] == w);
        }
        if w == "freeze"@ {
            assert(list[14] == w);
        }
        if w == "fsub"@ {
            assert(list[15] == w);
        }
        if w == "getelementptr"@ {
            assert(list[16] == w);
        }
        if w == "icmp"@ {
            assert(list[17] == w);
        }
        if w == "insertvalue"@ {
            assert(list[18] == w);
        }
        if w == "inttoptr"@ {
            assert(list[19] == w);
        }
        if w == "lshr"@ {
            assert(list[20] == w);
        }
        if w == "mul"@ {
            assert(list[21] == w);
        }
        if w == "or"@ {
            assert(list[22] == w);
        }
        if w == "phi"@ {
            assert(list[23] == w);
        }
        if w == "ptrtoint"@ {
            assert(list[24] == w);
        }
        if w == "sdiv"@ {
            assert(list[25] == w);
        }
        if w == "select"@ {
            assert(list[26] == w);
        }
        if w == "sext"@ {
            assert(list[27] == w);
        }
        if w == "shl"@ {
            assert(list[28] == w);
        }
        if w == "sitofp"@ {
            assert(list[29] == w);
        }
        if w == "srem"@ {
            assert(list[30] == w);
        }
        if w == "sub"@ {
            assert(list[31] == w);
        }
        if w == "trunc"@ {
            assert(list[32] == w);
        }
    }
    if list.contains(w) {
        let i = choose|i: int| 0 <= i < list.len() && list[i] == w;
        if i == 0 {
            assert(w == "add"@);
        }
        if i == 1 {
            assert(w == "and"@);
        }
        if i == 2 {
            assert(w == "ashr"@);
        }
        if i == 3 {
            assert(w == "bitcast"@);
        }
        if i == 4 {
            assert(w == "extractvalue"@);
        }
        if i == 5 {
            assert(w == "fadd"@);
        }
        if i == 6 {
            assert(w == "fcmp"@);
        }
        if i == 7 {
            assert(w == "fdiv"@);
        }
        if i == 8 {
            assert(w == "fmul"@);
        }
        if i == 9 {
            assert(w == "fneg"@);
        }
        if i == 10 {
            assert(w == "fpext"@);
        }
        if i == 11 {
            assert(w == "fptosi"@);
        }
        if i == 12 {
            assert(w == "fptoui"@);
        }
        if i == 13 {
            assert(w == "fptrunc"@);
        }
        if i == 14 {
            assert(w == "freeze"@);
        }
        if i == 15 {
            assert(w == "fsub"@);
        }
        if i == 16 {
            assert(w == "getelementptr"@);
        }
        if i == 17 {
            assert(w == "icmp"@);
        }
        if i == 18 {
            assert(w == "insertvalue"@);
        }
        if i == 19 {
            assert(w == "inttoptr"@);
        }
        if i == 20 {
            assert(w == "lshr"@);
        }
        if i == 21 {
            assert(w == "mul"@);
        }
        if i == 22 {
            assert(w == "or"@);
        }
        if i == 23 {
            assert(w == "phi"@);
        }
        if i == 24 {
            assert(w == "ptrtoint"@);
        }
        if i == 25 {
            assert(w == "sdiv"@);
        }
        if i == 26 {
            assert(w == "select"@);
        }
        if i == 27 {
            assert(w == "sext"@);
        }
        if i == 28 {
            assert(w == "shl"@);
        }
        if i == 29 {
            assert(w == "sitofp"@);
        }
        if i == 30 {
            assert(w == "srem"@);
        }
        if i == 31 {
            assert(w == "sub"@);
        }
        if i == 32 {
            assert(w == "trunc"@);
        }
    }
}

fn call_modifier(w: &[char]) -> (b: bool)
    ensures
        b == spec_call_modifier(w@),
{
    same_text_chars(w, "tail") || same_text_chars(w, "musttail") || same_text_chars(w, "notail")
}

fn harmless_opcode(w: &[char]) -> (b: bool)
    ensures
        b == spec_harmless_opcode(w@),
{
    same_text_chars(w, "add") || same_text_chars(w, "and") || same_text_chars(w, "ashr") || same_text_chars(w, "bitcast") || same_text_chars(
        w,
        "extractvalue",
    ) || same_text_chars(w, "fadd") || same_text_chars(w, "fcmp") || same_text_chars(w, "fdiv") || same_text_chars(w, "fmul") || same_text_chars(
        w,
        "fneg",
    ) || same_text_chars(w, "fpext") || same_text_chars(w, "fptosi") || same_text_chars(w, "fptoui") || same_text_chars(w, "fptrunc")
        || same_text_chars(w, "freeze") || same_text_chars(w, "fsub") || same_text_chars(w, "getelementptr") || same_text_chars(w, "icmp")
        || same_text_chars(w, "insertvalue") || same_text_chars(w, "inttoptr") || same_text_chars(w, "lshr") || same_text_chars(w, "mul")
        || same_text_chars(w, "or") || same_text_chars(w, "phi") || same_text_chars(w, "ptrtoint") || same_text_chars(w, "sdiv") || same_text_chars(
        w,
        "select",
    ) || same_text_chars(w, "sext") || same_text_chars(w, "shl") || same_text_chars(w, "sitofp") || same_text_chars(w, "srem") || same_text_chars(
        w,
        "sub",
    ) || same_text_chars(w, "trunc")
}

fn harmless_chars(text: &[char]) -> (b: bool)
    ensures
        b == spec_harmless(text@),
{
    let body = match find(text, &assign()) {
        Some(at) => {
            proof {
                lemma_find_from_matches(text@, spec_assign(), 0);
            }
            assert(text@.len() == text.len());
            slice_of(text, at + 3, text.len())
        },
        None => slice_of(text, 0, text.len()),
    };
    assert(text@.subrange(0, text@.len() as int) =~= text@);
    let ws = words(&body);
    let mut k: usize = 0;
    while k < ws.len() && call_modifier(&ws[k])
        invariant
            k <= ws@.len(),
            spec_opcode_from(views(ws@), 0) == spec_opcode_from(views(ws@), k as int),
        decreases ws@.len() - k,
    {
        assert(views(ws@)[k as int] == ws@[k as int]@);
        k += 1;
    }
    if k < ws.len() {
        assert(views(ws@)[k as int] == ws@[k as int]@);
        harmless_opcode(&ws[k])
    } else {
        let empty: Vec<char> = Vec::new();
        assert(empty@ =~= seq![]);
        harmless_opcode(&empty)
    }
}

/// Whether the instruction leaves a `dup`/`drop` pair cancellable.
pub fn harmless(text: &str) -> (b: bool)
    ensures
        b == spec_harmless(text@),
{
    harmless_chars(&chars_of(text))
}


// ---------------------------------------------------------------- the pass

/// The runtime entry that takes an extra reference.
pub open spec fn dup_name() -> Seq<char> {
    "adamas_dup"@
}

/// The runtime entry that gives it back.
pub open spec fn drop_name() -> Seq<char> {
    "adamas_drop"@
}

/// Where the pass stands: the `dup`s waiting for their `drop` (line number
/// in the file and register), the registers a `dup` was seen for in this
/// function, the line numbers marked for removal, and the counts.
pub struct Scan {
    pub pending: Seq<(int, Seq<char>)>,
    pub seen: Seq<Seq<char>>,
    pub removed: Set<int>,
    pub dups: nat,
    pub drops: nat,
    pub cancelled: nat,
    pub refused: nat,
    pub live: nat,
}

/// The state at the start of the file.
pub open spec fn spec_initial() -> Scan {
    Scan {
        pending: seq![],
        seen: seq![],
        removed: Set::empty(),
        dups: 0,
        drops: 0,
        cancelled: 0,
        refused: 0,
        live: 0,
    }
}

/// The same state with the per-function part forgotten.
pub open spec fn spec_cleared(st: Scan) -> Scan {
    Scan { pending: seq![], seen: seq![], ..st }
}

/// Position of the last waiting `dup` of `register` among the first `k`.
pub open spec fn spec_last_pending_below(
    pending: Seq<(int, Seq<char>)>,
    register: Seq<char>,
    k: int,
) -> Option<int>
    decreases k,
{
    if k <= 0 {
        None
    } else if pending[k - 1].1 == register {
        Some(k - 1)
    } else {
        spec_last_pending_below(pending, register, k - 1)
    }
}

/// Position of the last waiting `dup` of `register`.
pub open spec fn spec_last_pending(pending: Seq<(int, Seq<char>)>, register: Seq<char>) -> Option<
    int,
> {
    spec_last_pending_below(pending, register, pending.len() as int)
}

/// Whether the result a `dup` line assigns is read elsewhere in the body.
pub open spec fn spec_read(body: Seq<Seq<char>>, i: int, text: Seq<char>) -> bool {
    match spec_assigned(text) {
        Some(result) => spec_used_elsewhere(body, i, result),
        None => false,
    }
}

/// A barrier: in the watched mode no waiting `dup` survives it.
pub open spec fn spec_barrier(between: Between, st: Scan) -> Scan {
    if between == Between::Watched {
        Scan { pending: seq![], ..st }
    } else {
        st
    }
}

/// What the pass does with line `i` of a function body whose first line is
/// line `offset` of the file.
pub open spec fn spec_step(
    body: Seq<Seq<char>>,
    i: int,
    offset: int,
    between: Between,
    st: Scan,
) -> Scan {
    let text = spec_trim(body[i]);
    if text.len() == 0 || text[0] == ';' {
        st
    } else if spec_call_to(text, dup_name()) is Some {
        let counted = spec_barrier(between, Scan { dups: st.dups + 1, ..st });
        match spec_first_register(spec_call_to(text, dup_name())->0) {
            None => counted,
            Some(register) => if spec_read(body, i, text) {
                Scan { live: counted.live + 1, ..counted }
            } else {
                Scan {
                    seen: counted.seen.push(register),
                    pending: counted.pending.push((offset + i, register)),
                    ..counted
                }
            },
        }
    } else if spec_call_to(text, drop_name()) is Some {
        let counted = Scan { drops: st.drops + 1, ..st };
        let args = spec_call_to(text, drop_name())->0;
        match spec_first_register(spec_top_level(args)[0]) {
            Some(register) => match spec_last_pending(counted.pending, register) {
                Some(k) => Scan {
                    pending: counted.pending.remove(k),
                    removed: counted.removed.insert(counted.pending[k].0).insert(offset + i),
                    cancelled: counted.cancelled + 1,
                    ..counted
                },
                None => spec_barrier(
                    between,
                    if counted.seen.contains(register) {
                        Scan { refused: counted.refused + 1, ..counted }
                    } else {
                        counted
                    },
                ),
            },
            None => spec_barrier(between, counted),
        }
    } else if between == Between::Watched && !spec_harmless(text) {
        Scan { pending: seq![], ..st }
    } else {
        st
    }
}

/// The pass over the body from line `i` on.
pub open spec fn spec_scan_from(
    body: Seq<Seq<char>>,
    i: int,
    offset: int,
    between: Between,
    st: Scan,
) -> Scan
    decreases body.len() - i,
{
    if i < 0 || i >= body.len() {
        st
    } else {
        spec_scan_from(body, i + 1, offset, between, spec_step(body, i, offset, between, st))
    }
}

/// The first line at or after `e` that closes a function, or the end.
pub open spec fn spec_body_end(lines: Seq<Seq<char>>, e: int) -> int
    decreases lines.len() - e,
{
    if 0 <= e < lines.len() && lines[e] != seq!['}'] {
        spec_body_end(lines, e + 1)
    } else {
        e
    }
}

/// The pass over the file from line `at` on: each `define` line opens a body
/// that runs to the next `}` line.
pub open spec fn spec_walk(lines: Seq<Seq<char>>, at: int, between: Between, st: Scan) -> Scan
    decreases lines.len() - at,
{
    if at < 0 || at >= lines.len() {
        st
    } else if spec_starts_with(lines[at], "define "@) {
        let start = at + 1;
        let end = spec_body_end(lines, start);
        let done = spec_cleared(
            spec_scan_from(lines.subrange(start, end), 0, start, between, spec_cleared(st)),
        );
        if at <= end < lines.len() {
            spec_walk(lines, end + 1, between, done)
        } else {
            done
        }
    } else {
        spec_walk(lines, at + 1, between, st)
    }
}

/// The lines from `i` on that are not removed, each ended by `\n`.
pub open spec fn spec_kept_from(lines: Seq<Seq<char>>, removed: Set<int>, i: int, acc: Seq<char>) -> Seq<
    char,
>
    decreases lines.len() - i,
{
    if i < 0 || i >= lines.len() {
        acc
    } else if removed.contains(i) {
        spec_kept_from(lines, removed, i + 1, acc)
    } else {
        spec_kept_from(lines, removed, i + 1, acc + lines[i] + seq!['\n'])
    }
}

/// The state of the whole pass over a text.
pub open spec fn spec_collapse(text: Seq<char>, between: Between) -> Scan {
    spec_walk(spec_lines(text), 0, between, spec_initial())
}

/// The text the pass gives back.
pub open spec fn spec_collapsed(text: Seq<char>, between: Between) -> Seq<char> {
    spec_kept_from(spec_lines(text), spec_collapse(text, between).removed, 0, seq![])
}

/// Whether the report holds the counts of the state.
pub open spec fn spec_reports(report: Report, st: Scan) -> bool {
    &&& report.dups == st.dups
    &&& report.drops == st.drops
    &&& report.cancelled == st.cancelled
    &&& report.refused == st.refused
    &&& report.live == st.live
}

/// The set of line numbers marked in `marks`.
pub open spec fn spec_marked(marks: Seq<bool>) -> Set<int> {
    Set::new(|k: int| 0 <= k < marks.len() && marks[k])
}

/// The waiting `dup`s as the specification sees them.
pub open spec fn spec_pending(p: Seq<(usize, Vec<char>)>) -> Seq<(int, Seq<char>)> {
    p.map_values(|e: (usize, Vec<char>)| (e.0 as int, e.1@))
}

/// The state held by the executable variables.
pub open spec fn spec_state(
    pending: Seq<(usize, Vec<char>)>,
    seen: Seq<Vec<char>>,
    marks: Seq<bool>,
    report: Report,
) -> Scan {
    Scan {
        pending: spec_pending(pending),
        seen: views(seen),
        removed: spec_marked(marks),
        dups: report.dups as nat,
        drops: report.drops as nat,
        cancelled: report.cancelled as nat,
        refused: report.refused as nat,
        live: report.live as nat,
    }
}

/// Bounds that keep the counts from overflowing.
pub open spec fn spec_counted(report: Report, lines: int) -> bool {
    &&& report.live <= report.dups
    &&& report.cancelled + report.refused <= report.drops
    &&& report.dups + report.drops <= lines
}

fn last_pending(pending: &Vec<(usize, Vec<char>)>, register: &Vec<char>) -> (k: Option<usize>)
    ensures
        k matches Some(i) ==> spec_last_pending(spec_pending(pending@), register@) == Some(
            i as int,
        ) && i < pending@.len(),
        k is None ==> spec_last_pending(spec_pending(pending@), register@) is None,
{
    let ghost p = spec_pending(pending@);
    let mut k = pending.len();
    while k > 0
        invariant
            k <= pending@.len(),
            p == spec_pending(pending@),
            spec_last_pending(p, register@) == spec_last_pending_below(p, register@, k as int),
        decreases k,
    {
        assert(p[k - 1].1 == pending@[k - 1].1@);
        if same_chars(&pending[k - 1].1, register) {
            return Some(k - 1);
        }
        k -= 1;
    }
    None
}

fn seen_contains(seen: &Vec<Vec<char>>, register: &Vec<char>) -> (found: bool)
    ensures
        found == views(seen@).contains(register@),
{
    let mut k: usize = 0;
    while k < seen.len()
        invariant
            k <= seen@.len(),
            forall|m: int| 0 <= m < k ==> views(seen@)[m] != register@,
        decreases seen@.len() - k,
    {
        if same_chars(&seen[k], register) {
            assert(views(seen@)[k as int] == register@);
            return true;
        }
        k += 1;
    }
    false
}

/// One function body: marks the pairs for removal.
///
/// `start` and `end` bound the body in the file: the marks and the line
/// numbers in them are the file's.
fn scan(
    lines: &Vec<Vec<char>>,
    start: usize,
    end: usize,
    between: Between,
    dup: &Vec<char>,
    drop: &Vec<char>,
    removed: &mut Vec<bool>,
    report: &mut Report,
)
    requires
        start <= end <= lines@.len(),
        old(removed)@.len() == lines@.len(),
        dup@ == dup_name(),
        drop@ == drop_name(),
        spec_counted(*old(report), start as int),
    ensures
        final(removed)@.len() == lines@.len(),
        spec_counted(*final(report), end as int),
        spec_state(seq![], seq![], final(removed)@, *final(report)) == spec_cleared(
            spec_scan_from(
                views(lines@).subrange(start as int, end as int),
                0,
                start as int,
                between,
                spec_state(seq![], seq![], old(removed)@, *old(report)),
            ),
        ),
{
    let ghost body = views(lines@).subrange(start as int, end as int);
    let ghost first = spec_state(seq![], seq![], removed@, *report);
    let mut pending: Vec<(usize, Vec<char>)> = Vec::new();
    let mut seen: Vec<Vec<char>> = Vec::new();
    proof {
        assert(spec_pending(pending@) =~= seq![]);
        assert(views(seen@) =~= seq![]);
    }
    let mut index: usize = 0;
    while index < end - start
        invariant
            start <= end <= lines@.len(),
            index <= end - start,
            body == views(lines@).subrange(start as int, end as int),
            removed@.len() == lines@.len(),
            dup@ == dup_name(),
            drop@ == drop_name(),
            spec_counted(*report, start + index),
            forall|k: int|
                0 <= k < pending@.len() ==> start <= #[trigger] pending@[k].0 < start + index,
            spec_scan_from(body, 0, start as int, between, first) == spec_scan_from(
                body,
                index as int,
                start as int,
                between,
                spec_state(pending@, seen@, removed@, *report),
            ),
        decreases end - start - index,
    {
        let ghost before = spec_state(pending@, seen@, removed@, *report);
        let line = start + index;
        assert(body[index as int] == lines@[line as int]@);
        let text = trim(&lines[line]);
        if text.len() == 0 || text[0] == ';' {
        } else {
            match call_to(&text, dup) {
                Some(args) => {
                    report.dups += 1;
                    if between == Between::Watched {
                        pending.clear();
                        assert(spec_pending(pending@) =~= seq![]);
                    }
                    match first_register(&args) {
                        None => {},
                        Some(register) => {
                            let read = match assigned(&text) {
                                Some(result) => used_elsewhere(lines, start, end, index, &result),
                                None => false,
                            };
                            if read {
                                report.live += 1;
                            } else {
                                let copy = slice_of(&register, 0, register.len());
                                assert(register@.subrange(0, register@.len() as int) =~= register@);
                                let ghost pending_before = spec_pending(pending@);
                                let ghost seen_before = views(seen@);
                                seen.push(copy);
                                pending.push((line, register));
                                assert(spec_pending(pending@) =~= pending_before.push(
                                    (line as int, register@),
                                ));
                                assert(views(seen@) =~= seen_before.push(register@));
                            }
                        },
                    }
                },
                None => {
                    match call_to(&text, drop) {
                        Some(args) => {
                            report.drops += 1;
                            let parts = top_level(&args);
                            assert(views(parts@)[0] == parts@[0]@);
                            let mut cancelled = false;
                            match first_register(&parts[0]) {
                                Some(register) => {
                                    match last_pending(&pending, &register) {
                                        Some(position) => {
                                            let ghost pending_before = spec_pending(pending@);
                                            let ghost marks_before = spec_marked(removed@);
                                            let (dup_line, _) = pending.remove(position);
                                            assert(spec_pending(pending@) =~= pending_before.remove(
                                                position as int,
                                            ));
                                            removed.set(dup_line, true);
                                            removed.set(line, true);
                                            assert(spec_marked(removed@) =~= marks_before.insert(
                                                dup_line as int,
                                            ).insert(line as int));
                                            report.cancelled += 1;
                                            cancelled = true;
                                        },
                                        None => {
                                            if seen_contains(&seen, &register) {
                                                report.refused += 1;
                                            }
                                        },
                                    }
                                },
                                None => {},
                            }
                            if !cancelled && between == Between::Watched {
                                pending.clear();
                                assert(spec_pending(pending@) =~= seq![]);
                            }
                        },
                        None => {
                            if between == Between::Watched && !harmless_chars(&text) {
                                pending.clear();
                                assert(spec_pending(pending@) =~= seq![]);
                            }
                        },
                    }
                },
            }
        }
        assert(spec_state(pending@, seen@, removed@, *report) == spec_step(
            body,
            index as int,
            start as int,
            between,
            before,
        ));
        index += 1;
    }
    assert(spec_state(seq![], seq![], removed@, *report) == spec_cleared(
        spec_state(pending@, seen@, removed@, *report),
    ));
}

/// Whether the line closes a function body.
fn closes(line: &Vec<char>) -> (b: bool)
    ensures
        b == (line@ == seq!['}']),
{
    if line.len() == 1 && line[0] == '}' {
        assert(line@ =~= seq!['}']);
        true
    } else {
        false
    }
}

/// Removes the cancellable pairs and gives the text back with a report.
pub fn collapse(text: &str, between: Between) -> (result: (String, Report))
    ensures
        result.0@ == spec_collapsed(text@, between),
        spec_reports(result.1, spec_collapse(text@, between)),
{
    let chars = chars_of(text);
    let lines = split_lines(&chars);
    let ghost all = views(lines@);
    let dup = chars_of("adamas_dup");
    let drop = chars_of("adamas_drop");
    let define = chars_of("define ");
    let mut removed: Vec<bool> = Vec::new();
    while removed.len() < lines.len()
        invariant
            removed@.len() <= lines@.len(),
            forall|k: int| 0 <= k < removed@.len() ==> !removed@[k],
        decreases lines@.len() - removed@.len(),
    {
        removed.push(false);
    }
    let mut report = Report { dups: 0, drops: 0, cancelled: 0, refused: 0, live: 0 };
    proof {
        assert(spec_marked(removed@) =~= Set::empty());
        assert(spec_pending(seq![]) =~= seq![]);
        assert(views(seq![]) =~= seq![]);
        assert(spec_state(seq![], seq![], removed@, report) == spec_initial());
    }
    let mut at: usize = 0;
    while at < lines.len()
        invariant
            at <= lines@.len(),
            all == views(lines@),
            removed@.len() == lines@.len(),
            dup@ == dup_name(),
            drop@ == drop_name(),
            define@ == "define "@,
            spec_counted(report, at as int),
            spec_walk(all, 0, between, spec_initial()) == spec_walk(
                all,
                at as int,
                between,
                spec_state(seq![], seq![], removed@, report),
            ),
        decreases lines@.len() - at,
    {
        assert(all[at as int] == lines@[at as int]@);
        if starts_with(&lines[at], &define) {
            let start = at + 1;
            let mut end = start;
            while end < lines.len() && !closes(&lines[end])
                invariant
                    start <= end <= lines@.len(),
                    all == views(lines@),
                    spec_body_end(all, start as int) == spec_body_end(all, end as int),
                decreases lines@.len() - end,
            {
                assert(all[end as int] == lines@[end as int]@);
                end += 1;
            }
            proof {
                if end < lines.len() {
                    assert(all[end as int] == lines@[end as int]@);
                }
            }
            let ghost st = spec_state(seq![], seq![], removed@, report);
            proof {
                assert(spec_pending(seq![]) =~= seq![]);
                assert(views(seq![]) =~= seq![]);
                assert(spec_cleared(st) == st);
                assert(spec_body_end(all, start as int) == end as int);
            }
            let ghost from = at as int;
            scan(&lines, start, end, between, &dup, &drop, &mut removed, &mut report);
            if end < lines.len() {
                at = end + 1;
            } else {
                at = end;
            }
            proof {
                assert(spec_walk(all, from, between, st) == spec_walk(
                    all,
                    at as int,
                    between,
                    spec_state(seq![], seq![], removed@, report),
                ));
            }
        } else {
            at += 1;
        }
    }
    let mut out: Vec<char> = Vec::new();
    let ghost marked = spec_marked(removed@);
    let mut index: usize = 0;
    while index < lines.len()
        invariant
            index <= lines@.len(),
            all == views(lines@),
            removed@.len() == lines@.len(),
            marked == spec_marked(removed@),
            spec_kept_from(all, marked, 0, seq![]) == spec_kept_from(
                all,
                marked,
                index as int,
                out@,
            ),
        decreases lines@.len() - index,
    {
        assert(all[index as int] == lines@[index as int]@);
        let ghost acc = out@;
        assert(marked.contains(index as int) == removed@[index as int]);
        if !removed[index] {
            extend(&mut out, &lines[index]);
            out.push('\n');
            assert(out@ =~= acc + all[index as int] + seq!['\n']);
        }
        index += 1;
    }
    (text_of(&out), report)
}

/// The pass as the pipeline runs it.
pub fn watched(text: &str) -> (out: String)
    ensures
        out@ == spec_collapsed(text@, Between::Watched),
{
    collapse(text, Between::Watched).0
}

/// The pass without looking at the middle of a pair: a mutant kept so that
/// tests can tell the careful pass from the careless one.
pub fn reckless(text: &str) -> (out: String)
    ensures
        out@ == spec_collapsed(text@, Between::Ignored),
{
    collapse(text, Between::Ignored).0
}

} // verus!
