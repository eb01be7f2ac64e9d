//! The LLVM pipeline: `.ll` text to an object file by `llvm-as`, `opt` and
//! `llc`, each a separate process.
//!
//! The pipeline is data, a list of [`Stage`]s, so that a pass of our own
//! (the pair collapse) can stand between inlining and the rest. What runs
//! the processes lives outside the library; here are the stages, the paths
//! each one reads and writes, and the reading of `llvm-as --version`.

use vstd::prelude::*;

use crate::path::{join, parent, spec_join, spec_parent};
use crate::text::{
    chars_of, find, push_str, spec_find, spec_trim, text_of, trim_bounds, slice_of, views,
};

verus! {

/// Lowest supported major version of LLVM.
pub const MINIMUM_MAJOR: u32 = 18;

/// Environment variable naming the directory with `llvm-as`, `opt`, `llc`.
pub const TOOLS_VARIABLE: &'static str = "ADAMAS_LLVM_BIN";

/// The same for the minimum supported version.
pub const MINIMUM_TOOLS_VARIABLE: &'static str = "ADAMAS_LLVM_MIN_BIN";

/// Why the pipeline did not get through.
#[derive(Debug)]
pub enum ToolError {
    /// The tool is neither in the named directory nor in `PATH`.
    Missing {
        /// Which tool.
        tool: String,
        /// What the operating system said.
        why: String,
    },
    /// A stage ended with a non-zero code.
    Failed {
        /// Which tool.
        tool: String,
        /// Its whole output.
        output: String,
    },
    /// The version could not be read from `--version`.
    Version {
        /// Which tool.
        tool: String,
        /// What it printed.
        output: String,
    },
}

/// The text that describes a tool error.
pub open spec fn spec_tool_message(error: ToolError) -> Seq<char> {
    match error {
        ToolError::Missing { tool, why } => tool@ + " не запускается ("@ + why@
            + "); каталог задаёт `"@ + TOOLS_VARIABLE@ + "`, а в dev-shell он есть"@,
        ToolError::Failed { tool, output } => tool@ + " отказал:\n"@ + output@,
        ToolError::Version { tool, output } => "версия "@ + tool@ + " не прочиталась из `"@
            + output@ + "`"@,
    }
}

impl ToolError {
    /// The text that describes the error.
    pub fn message(&self) -> (m: String)
        ensures
            m@ == spec_tool_message(*self),
    {
        let mut out: Vec<char> = Vec::new();
        match self {
            ToolError::Missing { tool, why } => {
                push_str(&mut out, tool.as_str());
                push_str(&mut out, " не запускается (");
                push_str(&mut out, why.as_str());
                push_str(&mut out, "); каталог задаёт `");
                push_str(&mut out, TOOLS_VARIABLE);
                push_str(&mut out, "`, а в dev-shell он есть");
            },
            ToolError::Failed { tool, output } => {
                push_str(&mut out, tool.as_str());
                push_str(&mut out, " отказал:\n");
                push_str(&mut out, output.as_str());
            },
            ToolError::Version { tool, output } => {
                push_str(&mut out, "версия ");
                push_str(&mut out, tool.as_str());
                push_str(&mut out, " не прочиталась из `");
                push_str(&mut out, output.as_str());
                push_str(&mut out, "`");
            },
        }
        text_of(&out)
    }
}

/// Where `llvm-as`, `opt` and `llc` come from: one directory, or `PATH`.
#[derive(Clone, Debug)]
pub struct Toolchain {
    directory: Option<String>,
}

impl View for Toolchain {
    type V = Option<Seq<char>>;

    closed spec fn view(&self) -> Option<Seq<char>> {
        match self.directory {
            Some(d) => Some(d@),
            None => None,
        }
    }
}

/// The path of a tool: inside the directory, or the bare name for `PATH`.
pub open spec fn spec_tool(tools: Option<Seq<char>>, name: Seq<char>) -> Seq<char> {
    match tools {
        Some(directory) => spec_join(directory, name),
        None => name,
    }
}

/// What comes before a tool's name in its path: the directory with a
/// separator after it, or nothing for `PATH`.
pub open spec fn spec_tool_prefix(tools: Option<Seq<char>>) -> Seq<char> {
    match tools {
        Some(directory) => if directory.len() == 0 || directory.last() == '/' {
            directory
        } else {
            directory + seq!['/']
        },
        None => seq![],
    }
}

/// Every tool of one chain is taken from the same place: its path is one
/// prefix, the same for all tools, followed by the tool's name.
pub proof fn lemma_tools_share_a_directory(tools: Option<Seq<char>>, name: Seq<char>)
    requires
        name.len() > 0,
        name[0] != '/',
    ensures
        spec_tool(tools, name) == spec_tool_prefix(tools) + name,
{
    match tools {
        Some(directory) => {},
        None => {
            assert(seq![] + name =~= name);
        },
    }
}

impl Toolchain {
    /// The toolchain in the named directory.
    pub fn at(directory: String) -> (tools: Self)
        ensures
            tools@ == Some(directory@),
    {
        Toolchain { directory: Some(directory) }
    }

    /// The toolchain found through `PATH`.
    pub fn from_path() -> (tools: Self)
        ensures
            tools@ is None,
    {
        Toolchain { directory: None }
    }

    /// The toolchain named by the value of an environment variable, or the
    /// one in `PATH` when the variable is unset or empty: a matrix in CI
    /// gives an unfilled branch as an empty string, not as nothing.
    pub fn from_value(value: Option<String>) -> (tools: Self)
        ensures
            tools@ == (match value {
                Some(v) => if v@.len() == 0 {
                    None
                } else {
                    Some(v@)
                },
                None => None,
            }),
    {
        match value {
            Some(v) => if v.as_str().is_empty() {
                Toolchain::from_path()
            } else {
                Toolchain::at(v)
            },
            None => Toolchain::from_path(),
        }
    }

    /// The path of a tool.
    pub fn tool(&self, name: &str) -> (path: String)
        ensures
            path@ == spec_tool(self@, name@),
    {
        match &self.directory {
            Some(directory) => join(directory.as_str(), name),
            None => text_of(&chars_of(name)),
        }
    }

    /// The major version from what `llvm-as --version` printed.
    ///
    /// The error names `llvm-as` in this toolchain and carries the printed
    /// text without white space at its ends.
    pub fn version(&self, printed: &str) -> (major: Result<u32, ToolError>)
        ensures
            spec_parse_major(printed@) matches Some(m) ==> major == Ok::<u32, ToolError>(m),
            spec_parse_major(printed@) is None ==> (major matches Err(ToolError::Version {
                tool,
                output,
            }) && tool@ == spec_tool(self@, "llvm-as"@) && output@ == spec_trim(printed@)),
    {
        match parse_major(printed) {
            Some(major) => Ok(major),
            None => {
                let chars = chars_of(printed);
                let (a, b) = trim_bounds(&chars);
                let output = text_of(&slice_of(&chars, a, b));
                Err(ToolError::Version { tool: self.tool("llvm-as"), output })
            },
        }
    }
}

/// Whether a character is an ASCII digit.
pub open spec fn spec_digit_char(c: char) -> bool {
    '0' <= c && c <= '9'
}

/// Value of a run of ASCII digits.
pub open spec fn spec_digits_value(s: Seq<char>) -> nat
    decreases s.len(),
{
    if s.len() == 0 {
        0
    } else {
        spec_digits_value(s.drop_last()) * 10 + ((s.last() as int - '0' as int) as nat)
    }
}

/// The end of the run of digits that starts at `k`.
pub open spec fn spec_digits_end(t: Seq<char>, k: int) -> int
    decreases t.len() - k,
{
    if 0 <= k < t.len() && spec_digit_char(t[k]) {
        spec_digits_end(t, k + 1)
    } else {
        k
    }
}

/// A non-empty run of digits read as a `u32`, or nothing if it does not fit.
pub open spec fn spec_number(s: Seq<char>) -> Option<u32> {
    if s.len() == 0 || spec_digits_value(s) > u32::MAX {
        None
    } else {
        Some(spec_digits_value(s) as u32)
    }
}

/// The major version in the output of `--version`: the digits right after
/// `LLVM version `, which must be followed by some other character.
pub open spec fn spec_parse_major(t: Seq<char>) -> Option<u32> {
    match spec_find(t, "LLVM version "@) {
        None => None,
        Some(i) => {
            let at = i + "LLVM version "@.len();
            let end = spec_digits_end(t, at);
            if end >= t.len() {
                None
            } else {
                spec_number(t.subrange(at, end))
            }
        },
    }
}

proof fn lemma_digits_prefix(s: Seq<char>, k: int)
    requires
        0 <= k <= s.len(),
    ensures
        spec_digits_value(s.subrange(0, k)) <= spec_digits_value(s),
    decreases s.len(),
{
    if k < s.len() {
        assert(s.drop_last().subrange(0, k) =~= s.subrange(0, k));
        lemma_digits_prefix(s.drop_last(), k);
    } else {
        assert(s.subrange(0, k) =~= s);
    }
}

fn number(t: &[char], from: usize, to: usize) -> (n: Option<u32>)
    requires
        from <= to <= t@.len(),
        forall|k: int| from <= k < to ==> spec_digit_char(#[trigger] t@[k]),
    ensures
        n == spec_number(t@.subrange(from as int, to as int)),
{
    let ghost s = t@.subrange(from as int, to as int);
    if from == to {
        return None;
    }
    let mut value: u64 = 0;
    let mut k = from;
    while k < to
        invariant
            from <= k <= to <= t@.len(),
            s == t@.subrange(from as int, to as int),
            forall|m: int| from <= m < to ==> spec_digit_char(#[trigger] t@[m]),
            value <= u32::MAX,
            value == spec_digits_value(s.subrange(0, k - from)),
        decreases to - k,
    {
        let d = (t[k] as u32 - '0' as u32) as u64;
        proof {
            let p = s.subrange(0, k - from + 1);
            assert(p.drop_last() =~= s.subrange(0, k - from));
            assert(p.last() == t@[k as int]);
        }
        value = value * 10 + d;
        k += 1;
        if value > u32::MAX as u64 {
            proof {
                lemma_digits_prefix(s, k - from);
            }
            return None;
        }
    }
    assert(s.subrange(0, to - from) =~= s);
    Some(value as u32)
}

/// The major version from the output of `llvm-as --version`.
pub fn parse_major(text: &str) -> (major: Option<u32>)
    ensures
        major == spec_parse_major(text@),
{
    let t = chars_of(text);
    let needle = chars_of("LLVM version ");
    match find(&t, &needle) {
        None => None,
        Some(i) => {
            proof {
                crate::text::lemma_find_from_matches(t@, needle@, 0);
            }
            assert(t@.len() == t.len());
            let at = i + needle.len();
            let mut end = at;
            while end < t.len() && '0' <= t[end] && t[end] <= '9'
                invariant
                    at <= end <= t@.len(),
                    spec_digits_end(t@, at as int) == spec_digits_end(t@, end as int),
                    forall|k: int| at <= k < end ==> spec_digit_char(#[trigger] t@[k]),
                decreases t@.len() - end,
            {
                end += 1;
            }
            if end >= t.len() {
                None
            } else {
                number(&t, at, end)
            }
        },
    }
}

/// One stage of the pipeline: a tool, its options and the extension of the
/// file it writes.
#[derive(Clone, Debug)]
pub struct Stage {
    /// The tool's name, looked up in the toolchain.
    pub tool: String,
    /// Options put before the input file.
    pub arguments: Vec<String>,
    /// Extension of the file the stage produces.
    pub extension: String,
}

/// The texts of a list of strings.
pub open spec fn texts(v: Seq<String>) -> Seq<Seq<char>> {
    v.map_values(|s: String| s@)
}

/// The texts of a list of string slices.
pub open spec fn slice_texts(v: Seq<&str>) -> Seq<Seq<char>> {
    v.map_values(|s: &str| s@)
}

impl View for Stage {
    type V = (Seq<char>, Seq<Seq<char>>, Seq<char>);

    open spec fn view(&self) -> (Seq<char>, Seq<Seq<char>>, Seq<char>) {
        (self.tool@, texts(self.arguments@), self.extension@)
    }
}

pub(crate) fn owned(arguments: &[&str]) -> (out: Vec<String>)
    ensures
        texts(out@) == slice_texts(arguments@),
{
    let mut out: Vec<String> = Vec::new();
    let mut i: usize = 0;
    while i < arguments.len()
        invariant
            i <= arguments@.len(),
            texts(out@) == slice_texts(arguments@).subrange(0, i as int),
        decreases arguments@.len() - i,
    {
        let ghost before = texts(out@);
        out.push(arguments[i].to_owned());
        assert(texts(out@) =~= before.push(arguments@[i as int]@));
        i += 1;
        assert(slice_texts(arguments@).subrange(0, i as int) =~= before.push(
            arguments@[i - 1]@,
        ));
    }
    assert(slice_texts(arguments@).subrange(0, i as int) =~= slice_texts(arguments@));
    out
}

impl Stage {
    /// The stage from a tool's name, its options and an extension.
    pub fn new(tool: &str, arguments: &[&str], extension: &str) -> (stage: Self)
        ensures
            stage@ == (tool@, slice_texts(arguments@), extension@),
    {
        Stage {
            tool: tool.to_owned(),
            arguments: owned(arguments),
            extension: extension.to_owned(),
        }
    }
}

/// Options of `llc` at the given optimisation level.
fn llc(level: &'static str) -> (options: [&'static str; 3])
    ensures
        slice_texts(options@) == seq![level@, "-filetype=obj"@, "-relocation-model=pic"@],
{
    let options = [level, "-filetype=obj", "-relocation-model=pic"];
    assert(slice_texts(options@) =~= seq![level@, "-filetype=obj"@, "-relocation-model=pic"@]);
    options
}

/// The pipeline: stages in the order they run.
#[derive(Clone, Debug)]
pub struct Pipeline {
    /// The stages.
    pub stages: Vec<Stage>,
}

impl View for Pipeline {
    type V = Seq<(Seq<char>, Seq<Seq<char>>, Seq<char>)>;

    open spec fn view(&self) -> Self::V {
        self.stages@.map_values(|s: Stage| s@)
    }
}

/// One run of a tool: the program, all its arguments, and the file it
/// writes.
#[derive(Clone, Debug)]
pub struct Invocation {
    /// Path of the program.
    pub program: String,
    /// Its arguments in order.
    pub arguments: Vec<String>,
    /// The file it writes.
    pub output: String,
}

impl View for Invocation {
    type V = (Seq<char>, Seq<Seq<char>>, Seq<char>);

    open spec fn view(&self) -> (Seq<char>, Seq<Seq<char>>, Seq<char>) {
        (self.program@, texts(self.arguments@), self.output@)
    }
}

/// The runs of the stages from `k` on, each reading the file the one before
/// wrote: options, the input, `-o`, and `<directory>/<stem>.<extension>`.
pub open spec fn spec_runs_from(
    stages: Seq<(Seq<char>, Seq<Seq<char>>, Seq<char>)>,
    k: int,
    tools: Option<Seq<char>>,
    directory: Seq<char>,
    stem: Seq<char>,
    input: Seq<char>,
    acc: Seq<(Seq<char>, Seq<Seq<char>>, Seq<char>)>,
) -> Seq<(Seq<char>, Seq<Seq<char>>, Seq<char>)>
    decreases stages.len() - k,
{
    if k < 0 || k >= stages.len() {
        acc
    } else {
        let stage = stages[k];
        let output = spec_join(directory, stem + seq!['.'] + stage.2);
        let run = (spec_tool(tools, stage.0), stage.1 + seq![input, "-o"@, output], output);
        spec_runs_from(stages, k + 1, tools, directory, stem, output, acc.push(run))
    }
}

/// The directory the pipeline writes into: that of the source, or `.`.
pub open spec fn spec_directory(source: Seq<char>) -> Seq<char> {
    match spec_parent(source) {
        Some(p) => p,
        None => "."@,
    }
}

/// The runs of a pipeline on a source file.
pub open spec fn spec_runs(
    pipeline: Seq<(Seq<char>, Seq<Seq<char>>, Seq<char>)>,
    tools: Option<Seq<char>>,
    source: Seq<char>,
    stem: Seq<char>,
) -> Seq<(Seq<char>, Seq<Seq<char>>, Seq<char>)> {
    spec_runs_from(pipeline, 0, tools, spec_directory(source), stem, source, seq![])
}

/// The run of stage `j`: its options, `input`, `-o` and its own file.
pub open spec fn spec_run_at(
    stages: Seq<(Seq<char>, Seq<Seq<char>>, Seq<char>)>,
    j: int,
    tools: Option<Seq<char>>,
    directory: Seq<char>,
    stem: Seq<char>,
    input: Seq<char>,
) -> (Seq<char>, Seq<Seq<char>>, Seq<char>) {
    let output = spec_join(directory, stem + seq!['.'] + stages[j].2);
    (spec_tool(tools, stages[j].0), stages[j].1 + seq![input, "-o"@, output], output)
}

/// The first `n` runs each read what the run before wrote, the first one
/// reading `first`.
pub open spec fn spec_chained(
    runs: Seq<(Seq<char>, Seq<Seq<char>>, Seq<char>)>,
    stages: Seq<(Seq<char>, Seq<Seq<char>>, Seq<char>)>,
    tools: Option<Seq<char>>,
    directory: Seq<char>,
    stem: Seq<char>,
    first: Seq<char>,
    n: int,
) -> bool {
    forall|j: int|
        0 <= j < n ==> #[trigger] runs[j] == spec_run_at(
            stages,
            j,
            tools,
            directory,
            stem,
            if j == 0 {
                first
            } else {
                runs[j - 1].2
            },
        )
}

proof fn lemma_runs_from(
    stages: Seq<(Seq<char>, Seq<Seq<char>>, Seq<char>)>,
    k: int,
    tools: Option<Seq<char>>,
    directory: Seq<char>,
    stem: Seq<char>,
    first: Seq<char>,
    input: Seq<char>,
    acc: Seq<(Seq<char>, Seq<Seq<char>>, Seq<char>)>,
)
    requires
        0 <= k <= stages.len(),
        acc.len() == k,
        spec_chained(acc, stages, tools, directory, stem, first, k),
        input == (if k == 0 {
            first
        } else {
            acc[k - 1].2
        }),
    ensures
        spec_runs_from(stages, k, tools, directory, stem, input, acc).len() == stages.len(),
        spec_chained(
            spec_runs_from(stages, k, tools, directory, stem, input, acc),
            stages,
            tools,
            directory,
            stem,
            first,
            stages.len() as int,
        ),
    decreases stages.len() - k,
{
    if k < stages.len() {
        let run = spec_run_at(stages, k, tools, directory, stem, input);
        let next = acc.push(run);
        assert forall|j: int| 0 <= j < k + 1 implies #[trigger] next[j] == spec_run_at(
            stages,
            j,
            tools,
            directory,
            stem,
            if j == 0 {
                first
            } else {
                next[j - 1].2
            },
        ) by {
            if j < k {
                assert(next[j] == acc[j]);
                if j > 0 {
                    assert(next[j - 1] == acc[j - 1]);
                }
            } else if j > 0 {
                assert(next[j - 1] == acc[j - 1]);
            }
        }
        lemma_runs_from(stages, k + 1, tools, directory, stem, first, run.2, next);
    }
}

/// A pipeline runs each stage once, in order: the first reads the source,
/// every other reads the file the stage before it wrote, and each writes
/// `<stem>.<extension>` beside the source.
pub proof fn lemma_each_stage_reads_the_last(
    pipeline: Seq<(Seq<char>, Seq<Seq<char>>, Seq<char>)>,
    tools: Option<Seq<char>>,
    source: Seq<char>,
    stem: Seq<char>,
)
    ensures
        spec_runs(pipeline, tools, source, stem).len() == pipeline.len(),
        spec_chained(
            spec_runs(pipeline, tools, source, stem),
            pipeline,
            tools,
            spec_directory(source),
            stem,
            source,
            pipeline.len() as int,
        ),
{
    lemma_runs_from(pipeline, 0, tools, spec_directory(source), stem, source, source, seq![]);
}

impl Pipeline {
    /// The standard pipeline: parse, `opt -O2`, object file.
    pub fn optimised() -> (pipeline: Self)
        ensures
            pipeline@ == seq![
                ("llvm-as"@, seq![], "bc"@),
                ("opt"@, seq!["-O2"@], "opt.bc"@),
                ("llc"@, seq!["-O2"@, "-filetype=obj"@, "-relocation-model=pic"@], "o"@),
            ],
    {
        let none: [&str; 0] = [];
        let o2: [&str; 1] = ["-O2"];
        let stages = vec![
            Stage::new("llvm-as", &none, "bc"),
            Stage::new("opt", &o2, "opt.bc"),
            Stage::new("llc", &llc("-O2"), "o"),
        ];
        let pipeline = Pipeline { stages };
        assert(slice_texts(none@) =~= seq![]);
        assert(slice_texts(o2@) =~= seq!["-O2"@]);
        assert(pipeline@ =~= seq![
            ("llvm-as"@, seq![], "bc"@),
            ("opt"@, seq!["-O2"@], "opt.bc"@),
            ("llc"@, seq!["-O2"@, "-filetype=obj"@, "-relocation-model=pic"@], "o"@),
        ]);
        pipeline
    }

    /// The same pipeline without optimisation.
    pub fn plain() -> (pipeline: Self)
        ensures
            pipeline@ == seq![
                ("llvm-as"@, seq![], "bc"@),
                ("llc"@, seq!["-O0"@, "-filetype=obj"@, "-relocation-model=pic"@], "o"@),
            ],
    {
        let none: [&str; 0] = [];
        let stages = vec![Stage::new("llvm-as", &none, "bc"), Stage::new("llc", &llc("-O0"), "o")];
        let pipeline = Pipeline { stages };
        assert(slice_texts(none@) =~= seq![]);
        assert(pipeline@ =~= seq![
            ("llvm-as"@, seq![], "bc"@),
            ("llc"@, seq!["-O0"@, "-filetype=obj"@, "-relocation-model=pic"@], "o"@),
        ]);
        pipeline
    }

    /// The runs that carry `source` through the pipeline, in order; the last
    /// one writes the result, and with no stages the source is the result.
    pub fn runs(&self, tools: &Toolchain, source: &str, stem: &str) -> (runs: Vec<Invocation>)
        ensures
            runs@.map_values(|r: Invocation| r@) == spec_runs(self@, tools@, source@, stem@),
    {
        let directory = match parent(source) {
            Some(p) => p,
            None => text_of(&chars_of(".")),
        };
        let mut runs: Vec<Invocation> = Vec::new();
        let mut input = text_of(&chars_of(source));
        let ghost all = self@;
        assert(runs@.map_values(|r: Invocation| r@) =~= seq![]);
        let mut k: usize = 0;
        while k < self.stages.len()
            invariant
                k <= self.stages@.len(),
                all == self@,
                directory@ == spec_directory(source@),
                spec_runs(all, tools@, source@, stem@) == spec_runs_from(
                    all,
                    k as int,
                    tools@,
                    directory@,
                    stem@,
                    input@,
                    runs@.map_values(|r: Invocation| r@),
                ),
            decreases self.stages@.len() - k,
        {
            let stage = &self.stages[k];
            assert(all[k as int] == stage@);
            let mut name: Vec<char> = chars_of(stem);
            name.push('.');
            push_str(&mut name, stage.extension.as_str());
            assert(name@ =~= stem@ + seq!['.'] + all[k as int].2);
            let output = join(directory.as_str(), text_of(&name).as_str());
            let mut arguments: Vec<String> = Vec::new();
            let mut i: usize = 0;
            while i < stage.arguments.len()
                invariant
                    i <= stage.arguments@.len(),
                    texts(arguments@) == texts(stage.arguments@).subrange(0, i as int),
                decreases stage.arguments@.len() - i,
            {
                let ghost before = texts(arguments@);
                arguments.push(stage.arguments[i].clone());
                assert(texts(arguments@) =~= before.push(stage.arguments@[i as int]@));
                i += 1;
                assert(texts(stage.arguments@).subrange(0, i as int) =~= before.push(
                    stage.arguments@[i - 1]@,
                ));
            }
            let ghost previous = input@;
            arguments.push(input);
            arguments.push(text_of(&chars_of("-o")));
            arguments.push(output.clone());
            assert(texts(stage.arguments@).subrange(0, i as int) =~= texts(stage.arguments@));
            assert(texts(arguments@) =~= stage@.1 + seq![previous, "-o"@, output@]);
            let run = Invocation { program: tools.tool(stage.tool.as_str()), arguments, output };
            let ghost before = runs@.map_values(|r: Invocation| r@);
            input = run.output.clone();
            runs.push(run);
            assert(runs@.map_values(|r: Invocation| r@) =~= before.push(run@));
            assert(run@ == (
                spec_tool(tools@, all[k as int].0),
                all[k as int].1 + seq![previous, "-o"@, output@],
                output@,
            ));
            assert(input@ == output@);
            k += 1;
        }
        runs
    }
}

/// How one run of a tool ended.
#[derive(Clone, Debug)]
pub enum Outcome {
    /// The process did not start; what the operating system said.
    Unstarted {
        /// Why.
        why: String,
    },
    /// The process ran and exited.
    Exited {
        /// Whether with code zero.
        success: bool,
        /// What it printed to its standard output.
        stdout: String,
        /// What it printed to its standard error.
        stderr: String,
    },
}

/// What comes next while a pipeline's runs are carried out.
#[derive(Debug)]
pub enum Next {
    /// Carry out the run with this number.
    Run(usize),
    /// Stop: the path of the last file, or why the pipeline did not get
    /// through.
    Stop(Result<String, ToolError>),
}

/// How carrying out the runs begins: with the first run, or, when there are
/// none, with the source itself as the result.
pub fn begin_runs(runs: &[Invocation], source: &str) -> (next: Next)
    ensures
        runs@.len() == 0 ==> (next matches Next::Stop(Ok(path)) && path@ == source@),
        runs@.len() > 0 ==> next == Next::Run(0),
{
    if runs.len() == 0 {
        Next::Stop(Ok(text_of(&chars_of(source))))
    } else {
        Next::Run(0)
    }
}

/// What follows run `at` given how it ended: a run that did not start stops
/// the pipeline as `Missing`, one that failed as `Failed` with its standard
/// output and then its standard error; after a run that succeeded comes the
/// next one, and after the last the file it wrote is the result.
pub fn after_run(runs: &[Invocation], at: usize, outcome: Outcome) -> (next: Next)
    requires
        at < runs@.len(),
    ensures
        match outcome {
            Outcome::Unstarted { why } => next matches Next::Stop(Err(ToolError::Missing { tool, why: said }))
                && tool@ == runs@[at as int].program@ && said@ == why@,
            Outcome::Exited { success, stdout, stderr } => if !success {
                next matches Next::Stop(Err(ToolError::Failed { tool, output })) && tool@
                    == runs@[at as int].program@ && output@ == stdout@ + stderr@
            } else if at + 1 < runs@.len() {
                next == Next::Run((at + 1) as usize)
            } else {
                next matches Next::Stop(Ok(path)) && path@ == runs@[at as int].output@
            },
        },
{
    let program = text_of(&chars_of(runs[at].program.as_str()));
    match outcome {
        Outcome::Unstarted { why } => Next::Stop(Err(ToolError::Missing { tool: program, why })),
        Outcome::Exited { success, stdout, stderr } => {
            if !success {
                let mut output = chars_of(stdout.as_str());
                push_str(&mut output, stderr.as_str());
                Next::Stop(Err(ToolError::Failed { tool: program, output: text_of(&output) }))
            } else if at + 1 < runs.len() {
                Next::Run(at + 1)
            } else {
                Next::Stop(Ok(text_of(&chars_of(runs[at].output.as_str()))))
            }
        },
    }
}

} // verus!
