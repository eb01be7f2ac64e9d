//! Generated code into an executable: `cc`, the runtime, linking.
//!
//! Someone has to know the options, where the runtime goes and the order of
//! linking, and that someone is not the driver. The library says which files
//! go where and which compiler runs get them there; running them is left to
//! the caller.
//!
//! Layout on disk:
//!
//! ```text
//! <build directory>/
//!   runtime/adamas.h, object.c, ...   the runtime sources as they are
//!   runtime/object.o, ...             their objects, shared by all builds
//!   <name>.c                          the generated code
//!   <name>                            what runs
//! ```

use vstd::prelude::*;

use crate::llvm::{owned, slice_texts, texts, Outcome};
use crate::path::{join, spec_join};
use crate::text::{chars_of, push_str, text_of};

verus! {

/// Environment variable naming the C compiler.
pub const CC_VARIABLE: &'static str = "ADAMAS_CC";

/// Why a build did not get through.
#[derive(Debug)]
pub enum NativeError {
    /// The compiler is missing or does not start.
    Missing {
        /// What was started.
        cc: String,
        /// What the operating system said.
        why: String,
    },
    /// Compiling or linking failed.
    Failed {
        /// What was being built.
        what: String,
        /// The compiler's whole output.
        output: String,
    },
    /// A file was not written or a directory not made.
    Write {
        /// Which path.
        path: String,
        /// What the operating system said.
        why: String,
    },
}

/// The text that describes a build error.
pub open spec fn spec_native_message(error: NativeError) -> Seq<char> {
    match error {
        NativeError::Missing { cc, why } => "компилятор C `"@ + cc@ + "` не запускается ("@ + why@
            + "); другой задаёт `"@ + CC_VARIABLE@ + "`"@,
        NativeError::Failed { what, output } => what@ + ": компилятор C отказал\n"@ + output@,
        NativeError::Write { path, why } => "не записать "@ + path@ + ": "@ + why@,
    }
}

impl NativeError {
    /// The text that describes the error.
    pub fn message(&self) -> (m: String)
        ensures
            m@ == spec_native_message(*self),
    {
        let mut out: Vec<char> = Vec::new();
        match self {
            NativeError::Missing { cc, why } => {
                push_str(&mut out, "компилятор C `");
                push_str(&mut out, cc.as_str());
                push_str(&mut out, "` не запускается (");
                push_str(&mut out, why.as_str());
                push_str(&mut out, "); другой задаёт `");
                push_str(&mut out, CC_VARIABLE);
                push_str(&mut out, "`");
            },
            NativeError::Failed { what, output } => {
                push_str(&mut out, what.as_str());
                push_str(&mut out, ": компилятор C отказал\n");
                push_str(&mut out, output.as_str());
            },
            NativeError::Write { path, why } => {
                push_str(&mut out, "не записать ");
                push_str(&mut out, path.as_str());
                push_str(&mut out, ": ");
                push_str(&mut out, why.as_str());
            },
        }
        text_of(&out)
    }
}

/// Options for the generated code: those the corpus was checked with.
/// `-ffp-contract=off` keeps `a * b + c` from being contracted.
pub open spec fn spec_program_flags() -> Seq<Seq<char>> {
    seq!["-std=c11"@, "-O1"@, "-ffp-contract=off"@, "-Wno-unused"@]
}

/// Options for the runtime: its own C, where warnings are findings.
pub open spec fn spec_runtime_flags() -> Seq<Seq<char>> {
    seq!["-std=c11"@, "-O1"@]
}

fn program_flags() -> (flags: Vec<String>)
    ensures
        texts(flags@) == spec_program_flags(),
{
    let flags: [&str; 4] = ["-std=c11", "-O1", "-ffp-contract=off", "-Wno-unused"];
    assert(slice_texts(flags@) =~= spec_program_flags());
    owned(&flags)
}

fn runtime_flags() -> (flags: Vec<String>)
    ensures
        texts(flags@) == spec_runtime_flags(),
{
    let flags: [&str; 2] = ["-std=c11", "-O1"];
    assert(slice_texts(flags@) =~= spec_runtime_flags());
    owned(&flags)
}

/// One run of the C compiler.
#[derive(Clone, Debug)]
pub struct Call {
    /// What is being built, for the error message.
    pub what: String,
    /// The compiler.
    pub program: String,
    /// Its arguments in order.
    pub arguments: Vec<String>,
}

impl View for Call {
    type V = (Seq<char>, Seq<char>, Seq<Seq<char>>);

    open spec fn view(&self) -> (Seq<char>, Seq<char>, Seq<Seq<char>>) {
        (self.what@, self.program@, texts(self.arguments@))
    }
}

/// Building generated C: where its source goes, where the program goes, and
/// the run of the compiler between them.
#[derive(Clone, Debug)]
pub struct Build {
    /// Where the generated C is written.
    pub source: String,
    /// The program the build makes.
    pub binary: String,
    /// Compiling and linking in one run.
    pub compile: Call,
}

/// Linking an object file from the LLVM path with its C companion.
#[derive(Clone, Debug)]
pub struct Link {
    /// Where the companion's C is written.
    pub source: String,
    /// Its object file.
    pub compiled: String,
    /// The program the link makes.
    pub binary: String,
    /// Compiling the companion.
    pub support: Call,
    /// Linking everything.
    pub link: Call,
}

/// One file of the runtime: where it is laid out and, for a `.c` file, its
/// object and the run that makes it.
#[derive(Clone, Debug)]
pub struct Unit {
    /// Where the file is written.
    pub path: String,
    /// Its object file and the compiler run, for a translation unit.
    pub object: Option<(String, Call)>,
}

/// The C compiler together with the directory it works in.
#[derive(Clone, Debug)]
pub struct Native {
    cc: String,
    dir: String,
}

impl View for Native {
    type V = (Seq<char>, Seq<char>);

    closed spec fn view(&self) -> (Seq<char>, Seq<char>) {
        (self.cc@, self.dir@)
    }
}

/// Where the runtime is laid out.
pub open spec fn spec_runtime_dir(dir: Seq<char>) -> Seq<char> {
    spec_join(dir, "runtime"@)
}

/// The texts of the compiler run that builds generated C.
pub open spec fn spec_build_arguments(
    dir: Seq<char>,
    source: Seq<char>,
    objects: Seq<Seq<char>>,
    binary: Seq<char>,
) -> Seq<Seq<char>> {
    spec_program_flags() + seq!["-I"@, spec_runtime_dir(dir), source] + objects + seq![
        "-o"@,
        binary,
    ]
}

/// `Path::extension` of a file name: what follows its last `.`, unless that
/// `.` opens the name.
pub uninterp spec fn spec_extension(name: Seq<char>) -> Option<Seq<char>>;

/// The extension of a file name.
///
/// Trusted: calls `std::path::Path::extension`; the contract names its
/// answer, which depends on the name alone.
#[verifier::external_body]
fn extension(name: &str) -> (ext: Option<String>)
    ensures
        ext is Some <==> spec_extension(name@) is Some,
        ext matches Some(e) ==> spec_extension(name@) == Some(e@),
{
    match std::path::Path::new(name).extension() {
        Some(e) => Some(e.to_string_lossy().into_owned()),
        None => None,
    }
}

/// Whether a runtime file is a translation unit: its extension is `c`.
pub open spec fn spec_translation_unit(name: Seq<char>) -> bool {
    spec_extension(name) == Some("c"@)
}

/// Whether a runtime file must be written again: what lies on disk, if
/// anything, differs from the text it should hold.
pub fn rewrite(existing: Option<&str>, text: &str) -> (again: bool)
    ensures
        again == !(existing matches Some(e) && e@ == text@),
{
    match existing {
        Some(e) => !crate::text::same_text(e, text),
        None => true,
    }
}

/// Whether an object file is fresh: both modification times are known and
/// the object is not older than its source. Times are counted in
/// nanoseconds from one origin.
pub fn fresh(object: Option<i128>, source: Option<i128>) -> (up_to_date: bool)
    ensures
        up_to_date == (match (object, source) {
            (Some(o), Some(s)) => o >= s,
            _ => false,
        }),
{
    match (object, source) {
        (Some(o), Some(s)) => o >= s,
        _ => false,
    }
}

/// The object file of a runtime source: its `.c` replaced by `.o`
/// (`object.c` gives `object.o`); a name without `.c` at its end gets `.o`
/// after it.
pub open spec fn spec_object_name(name: Seq<char>) -> Seq<char> {
    if name.len() >= 2 && name[name.len() - 2] == '.' && name[name.len() - 1] == 'c' {
        name.subrange(0, name.len() - 2) + ".o"@
    } else {
        name + ".o"@
    }
}

/// The object file of a runtime source.
pub fn object_name(name: &str) -> (object: String)
    ensures
        object@ == spec_object_name(name@),
{
    let c = chars_of(name);
    let n = c.len();
    if n >= 2 && c[n - 2] == '.' && c[n - 1] == 'c' {
        let mut stem = crate::text::slice_of(&c, 0, n - 2);
        push_str(&mut stem, ".o");
        text_of(&stem)
    } else {
        with_suffix(name, ".o")
    }
}

fn with_suffix(name: &str, suffix: &str) -> (s: String)
    ensures
        s@ == name@ + suffix@,
{
    let mut c = chars_of(name);
    push_str(&mut c, suffix);
    text_of(&c)
}

fn copy(s: &str) -> (t: String)
    ensures
        t@ == s@,
{
    text_of(&chars_of(s))
}

impl Native {
    /// The build in the named directory with the named compiler.
    pub fn with(dir: String, cc: String) -> (native: Self)
        ensures
            native@ == (cc@, dir@),
    {
        Native { cc, dir }
    }

    /// The build in the named directory with the compiler named by the
    /// value of `ADAMAS_CC`, or, when that is unset or empty, the compiler
    /// the runtime was built with.
    pub fn from_value(dir: String, value: Option<String>, built_with: String) -> (native: Self)
        ensures
            native@ == (
                match value {
                    Some(v) => if v@.len() == 0 {
                        built_with@
                    } else {
                        v@
                    },
                    None => built_with@,
                },
                dir@,
            ),
    {
        let cc = match value {
            Some(v) => if v.as_str().is_empty() {
                built_with
            } else {
                v
            },
            None => built_with,
        };
        Native { cc, dir }
    }

    /// The build directory.
    pub fn dir(&self) -> (dir: &str)
        ensures
            dir@ == self@.1,
    {
        self.dir.as_str()
    }

    /// The compiler.
    pub fn cc(&self) -> (cc: &str)
        ensures
            cc@ == self@.0,
    {
        self.cc.as_str()
    }

    /// The directory the runtime is laid out in.
    pub fn runtime_dir(&self) -> (dir: String)
        ensures
            dir@ == spec_runtime_dir(self@.1),
    {
        join(self.dir.as_str(), "runtime")
    }

    /// How generated C becomes a program: `<name>.c` and `<name>` in the build
    /// directory, compiled against the runtime headers and linked with the
    /// runtime's objects.
    pub fn build(&self, name: &str, objects: &[String]) -> (plan: Build)
        ensures
            plan.source@ == spec_join(self@.1, name@ + ".c"@),
            plan.binary@ == spec_join(self@.1, name@),
            plan.compile@ == (
                name@,
                self@.0,
                spec_build_arguments(self@.1, plan.source@, texts(objects@), plan.binary@),
            ),
    {
        let source = join(self.dir.as_str(), with_suffix(name, ".c").as_str());
        let binary = join(self.dir.as_str(), name);
        let mut arguments = program_flags();
        let ghost flags = texts(arguments@);
        arguments.push(copy("-I"));
        arguments.push(self.runtime_dir());
        arguments.push(source.clone());
        let ghost head = texts(arguments@);
        assert(head =~= flags + seq!["-I"@, spec_runtime_dir(self@.1), source@]);
        let mut i: usize = 0;
        while i < objects.len()
            invariant
                i <= objects@.len(),
                texts(arguments@) == head + texts(objects@).subrange(0, i as int),
            decreases objects@.len() - i,
        {
            let ghost before = texts(arguments@);
            arguments.push(objects[i].clone());
            assert(texts(arguments@) =~= before.push(objects@[i as int]@));
            i += 1;
            assert(texts(objects@).subrange(0, i as int) =~= texts(objects@).subrange(
                0,
                i - 1,
            ).push(objects@[i - 1]@));
        }
        assert(texts(objects@).subrange(0, i as int) =~= texts(objects@));
        arguments.push(copy("-o"));
        arguments.push(binary.clone());
        assert(texts(arguments@) =~= spec_build_arguments(
            self@.1,
            source@,
            texts(objects@),
            binary@,
        ));
        let compile = Call { what: copy(name), program: self.cc.clone(), arguments };
        Build { source, binary, compile }
    }

    /// How an object file from the LLVM path becomes a program: its C
    /// companion is written to `<name>.support.c` and compiled to
    /// `<name>.support.o`, then the object, the companion and the runtime's
    /// objects are linked into `<name>`.
    pub fn link(&self, name: &str, object: &str, objects: &[String]) -> (plan: Link)
        ensures
            plan.source@ == spec_join(self@.1, name@ + ".support.c"@),
            plan.compiled@ == spec_join(self@.1, name@ + ".support.o"@),
            plan.binary@ == spec_join(self@.1, name@),
            plan.support@ == (
                "спутник "@ + name@,
                self@.0,
                spec_program_flags() + seq![
                    "-c"@,
                    "-I"@,
                    spec_runtime_dir(self@.1),
                    plan.source@,
                    "-o"@,
                    plan.compiled@,
                ],
            ),
            plan.link@ == (
                name@,
                self@.0,
                seq![object@, plan.compiled@] + texts(objects@) + seq!["-o"@, plan.binary@],
            ),
    {
        let source = join(self.dir.as_str(), with_suffix(name, ".support.c").as_str());
        let compiled = join(self.dir.as_str(), with_suffix(name, ".support.o").as_str());
        let binary = join(self.dir.as_str(), name);
        let mut first = program_flags();
        let ghost flags = texts(first@);
        first.push(copy("-c"));
        first.push(copy("-I"));
        first.push(self.runtime_dir());
        first.push(source.clone());
        first.push(copy("-o"));
        first.push(compiled.clone());
        assert(texts(first@) =~= flags + seq![
            "-c"@,
            "-I"@,
            spec_runtime_dir(self@.1),
            source@,
            "-o"@,
            compiled@,
        ]);
        let support = Call {
            what: with_suffix("спутник ", name),
            program: self.cc.clone(),
            arguments: first,
        };
        let mut second: Vec<String> = Vec::new();
        second.push(copy(object));
        second.push(compiled.clone());
        let ghost head = texts(second@);
        assert(head =~= seq![object@, compiled@]);
        let mut i: usize = 0;
        while i < objects.len()
            invariant
                i <= objects@.len(),
                texts(second@) == head + texts(objects@).subrange(0, i as int),
            decreases objects@.len() - i,
        {
            let ghost before = texts(second@);
            second.push(objects[i].clone());
            assert(texts(second@) =~= before.push(objects@[i as int]@));
            i += 1;
            assert(texts(objects@).subrange(0, i as int) =~= texts(objects@).subrange(
                0,
                i - 1,
            ).push(objects@[i - 1]@));
        }
        assert(texts(objects@).subrange(0, i as int) =~= texts(objects@));
        second.push(copy("-o"));
        second.push(binary.clone());
        assert(texts(second@) =~= seq![object@, compiled@] + texts(objects@) + seq![
            "-o"@,
            binary@,
        ]);
        let link = Call { what: copy(name), program: self.cc.clone(), arguments: second };
        Link { source, compiled, binary, support, link }
    }

    /// Where a runtime file goes, and for a translation unit the object it is
    /// compiled to beside it, `object.c` to `object.o`, with the run that compiles it.
    pub fn unit(&self, name: &str) -> (unit: Unit)
        ensures
            unit.path@ == spec_join(spec_runtime_dir(self@.1), name@),
            spec_translation_unit(name@) <==> unit.object is Some,
            unit.object matches Some((object, call)) ==> {
                &&& object@ == spec_join(spec_runtime_dir(self@.1), spec_object_name(name@))
                &&& call@ == (
                    "рантайм "@ + name@,
                    self@.0,
                    spec_runtime_flags() + seq![
                        "-c"@,
                        "-I"@,
                        spec_runtime_dir(self@.1),
                        unit.path@,
                        "-o"@,
                        object@,
                    ],
                )
            },
    {
        let dir = self.runtime_dir();
        let path = join(dir.as_str(), name);
        let translated = match extension(name) {
            Some(e) => crate::text::same_text(e.as_str(), "c"),
            None => false,
        };
        if !translated {
            return Unit { path, object: None };
        }
        let object = join(dir.as_str(), object_name(name).as_str());
        let mut arguments = runtime_flags();
        let ghost flags = texts(arguments@);
        arguments.push(copy("-c"));
        arguments.push(copy("-I"));
        arguments.push(dir);
        arguments.push(path.clone());
        arguments.push(copy("-o"));
        arguments.push(object.clone());
        assert(texts(arguments@) =~= flags + seq![
            "-c"@,
            "-I"@,
            spec_runtime_dir(self@.1),
            path@,
            "-o"@,
            object@,
        ]);
        let call = Call { what: with_suffix("рантайм ", name), program: self.cc.clone(), arguments };
        Unit { path, object: Some((object, call)) }
    }
}

/// One piece of outside work in a build.
#[derive(Clone, Debug)]
pub enum Job {
    /// Write this text to this path, making directories on the way.
    Write {
        /// Where.
        path: String,
        /// What.
        text: String,
    },
    /// Run the compiler.
    Run(Call),
}

impl Build {
    /// The work of a build once the runtime is laid out, in order: write
    /// the generated C, then compile and link it.
    pub fn jobs(self, generated: String) -> (jobs: Vec<Job>)
        ensures
            jobs@.len() == 2,
            jobs@[0] matches Job::Write { path, text } && path@ == self.source@ && text@
                == generated@,
            jobs@[1] matches Job::Run(call) && call@ == self.compile@,
    {
        let mut jobs: Vec<Job> = Vec::new();
        jobs.push(Job::Write { path: self.source, text: generated });
        jobs.push(Job::Run(self.compile));
        jobs
    }
}

impl Link {
    /// The work of a link once the runtime is laid out, in order: write the
    /// companion's C, compile it, then link everything.
    pub fn jobs(self, support: String) -> (jobs: Vec<Job>)
        ensures
            jobs@.len() == 3,
            jobs@[0] matches Job::Write { path, text } && path@ == self.source@ && text@
                == support@,
            jobs@[1] matches Job::Run(call) && call@ == self.support@,
            jobs@[2] matches Job::Run(call) && call@ == self.link@,
    {
        let mut jobs: Vec<Job> = Vec::new();
        jobs.push(Job::Write { path: self.source, text: support });
        jobs.push(Job::Run(self.support));
        jobs.push(Job::Run(self.link));
        jobs
    }
}

/// What a write gives: nothing when it went through, otherwise `Write`
/// naming the path and what the operating system said.
pub fn written(path: &str, failure: Option<String>) -> (result: Result<(), NativeError>)
    ensures
        failure is None ==> result is Ok,
        failure matches Some(why) ==> (result matches Err(NativeError::Write { path: p, why: w })
            && p@ == path@ && w@ == why@),
{
    match failure {
        None => Ok(()),
        Some(why) => Err(NativeError::Write { path: text_of(&chars_of(path)), why }),
    }
}

/// The objects the laid-out runtime gives, from the file at `k` on: those of
/// its translation units, in order.
pub open spec fn spec_runtime_objects_from(dir: Seq<char>, names: Seq<Seq<char>>, k: int) -> Seq<
    Seq<char>,
>
    decreases names.len() - k,
{
    if k < 0 || k >= names.len() {
        seq![]
    } else if spec_translation_unit(names[k]) {
        seq![spec_join(spec_runtime_dir(dir), spec_object_name(names[k]))] + spec_runtime_objects_from(
            dir,
            names,
            k + 1,
        )
    } else {
        spec_runtime_objects_from(dir, names, k + 1)
    }
}

impl Native {
    /// What a run of the compiler gives: nothing when it succeeded;
    /// `Missing` naming this compiler when it did not start; `Failed`
    /// naming what was being built, with the standard output and then the
    /// standard error, when it failed.
    pub fn ran(&self, call: &Call, outcome: Outcome) -> (result: Result<(), NativeError>)
        ensures
            match outcome {
                Outcome::Unstarted { why } => result matches Err(NativeError::Missing { cc, why: said })
                    && cc@ == self@.0 && said@ == why@,
                Outcome::Exited { success, stdout, stderr } => if success {
                    result is Ok
                } else {
                    result matches Err(NativeError::Failed { what, output }) && what@ == call.what@
                        && output@ == stdout@ + stderr@
                },
            },
    {
        match outcome {
            Outcome::Unstarted { why } => Err(NativeError::Missing { cc: copy(self.cc.as_str()), why }),
            Outcome::Exited { success, stdout, stderr } => {
                if success {
                    Ok(())
                } else {
                    let mut output = chars_of(stdout.as_str());
                    push_str(&mut output, stderr.as_str());
                    Err(NativeError::Failed { what: copy(call.what.as_str()), output: text_of(&output) })
                }
            },
        }
    }

    /// The objects the laid-out runtime gives for these runtime files: the
    /// object of each translation unit, in the order of the files.
    pub fn runtime_objects(&self, names: &[&str]) -> (objects: Vec<String>)
        ensures
            objects@.map_values(|o: String| o@) == spec_runtime_objects_from(
                self@.1,
                names@.map_values(|n: &str| n@),
                0,
            ),
    {
        let ghost all = names@.map_values(|n: &str| n@);
        let mut objects: Vec<String> = Vec::new();
        let mut k: usize = names.len();
        assert(objects@.map_values(|o: String| o@) =~= spec_runtime_objects_from(self@.1, all, k as int));
        while k > 0
            invariant
                k <= names@.len(),
                all == names@.map_values(|n: &str| n@),
                objects@.map_values(|o: String| o@) == spec_runtime_objects_from(self@.1, all, k as int),
            decreases k,
        {
            k -= 1;
            let unit = self.unit(names[k]);
            let ghost after = objects@.map_values(|o: String| o@);
            match unit.object {
                Some((object, _)) => {
                    objects.insert(0, object);
                    assert(objects@.map_values(|o: String| o@) =~= seq![
                        spec_join(spec_runtime_dir(self@.1), spec_object_name(all[k as int])),
                    ] + after);
                },
                None => {},
            }
        }
        objects
    }
}

} // verus!
