//! The command line of the `starc` compiler and the names it derives from
//! imports and input files.

use vstd::prelude::*;
use crate::text::{
    append_chars, append_str, chars_of, owned, seq_starts_with, starts_with, str_eq, string_of, strip_prefixes,
    strip_prefixes_exec,
};

verus! {

/// The options of a compiler run.
#[derive(Debug)]
pub struct CliOptions {
    /// `starc build <file>` rather than `starc <file>`.
    pub is_build: bool,
    pub input: String,
    /// `human` unless `--error-format=` says otherwise.
    pub error_format: String,
    /// `safe` or `fast`.
    pub profile: String,
    /// `--emit=llvm-ir`.
    pub emit_ir: bool,
    /// `-o <file>` or `--output <file>`.
    pub output: Option<String>,
}

/// Why a command line is refused.
#[derive(Debug)]
pub enum CliError {
    /// Fewer than one argument.
    Usage,
    /// `build` without an input file.
    BuildNeedsInput,
    /// A `--profile=` other than `safe` or `fast`.
    BadProfile,
    /// `-o` or `--output` as the last argument.
    OutputNeedsPath,
    /// Any other argument that starts with `-`.
    UnknownOption(String),
    /// No input file among the arguments.
    NoInput,
}

/// The options read so far.
pub struct CliState {
    pub input: Option<Seq<char>>,
    pub error_format: Seq<char>,
    pub profile: Seq<char>,
    pub emit_ir: bool,
    pub output: Option<Seq<char>>,
}

/// Why a command line is refused, over character sequences.
pub enum CliFailure {
    Usage,
    BuildNeedsInput,
    BadProfile,
    OutputNeedsPath,
    UnknownOption(Seq<char>),
    NoInput,
}

pub open spec fn initial_cli_state() -> CliState {
    CliState { input: None, error_format: "human"@, profile: "safe"@, emit_ir: false, output: None }
}

/// Reading the arguments from position `i`: `--error-format=F`,
/// `--profile=safe|fast`, `--emit=llvm-ir`, `-o`/`--output` with the next
/// argument, any other `-...` refused, and anything else the input file (the
/// last one wins).
pub open spec fn cli_from(args: Seq<Seq<char>>, i: int, st: CliState) -> Result<CliState, CliFailure>
    decreases args.len() - i,
{
    if i < 0 || i >= args.len() {
        Ok(st)
    } else {
        let a = args[i];
        if seq_starts_with(a, "--error-format="@) {
            cli_from(args, i + 1, CliState { error_format: strip_prefixes(a, "--error-format="@), ..st })
        } else if seq_starts_with(a, "--profile="@) {
            let p = strip_prefixes(a, "--profile="@);
            if p != "safe"@ && p != "fast"@ {
                Err(CliFailure::BadProfile)
            } else {
                cli_from(args, i + 1, CliState { profile: p, ..st })
            }
        } else if a == "--emit=llvm-ir"@ {
            cli_from(args, i + 1, CliState { emit_ir: true, ..st })
        } else if a == "-o"@ || a == "--output"@ {
            if i + 1 < args.len() {
                cli_from(args, i + 2, CliState { output: Some(args[i + 1]), ..st })
            } else {
                Err(CliFailure::OutputNeedsPath)
            }
        } else if seq_starts_with(a, "-"@) {
            Err(CliFailure::UnknownOption(a))
        } else {
            cli_from(args, i + 1, CliState { input: Some(a), ..st })
        }
    }
}

/// The reading of a whole command line (the program name first).
pub open spec fn spec_parse_cli(args: Seq<Seq<char>>) -> Result<(bool, CliState), CliFailure> {
    if args.len() < 2 {
        Err(CliFailure::Usage)
    } else {
        let is_build = args[1] == "build"@;
        if is_build && args.len() < 3 {
            Err(CliFailure::BuildNeedsInput)
        } else {
            match cli_from(args, if is_build { 2 } else { 1 }, initial_cli_state()) {
                Ok(st) => if st.input is Some { Ok((is_build, st)) } else { Err(CliFailure::NoInput) },
                Err(e) => Err(e),
            }
        }
    }
}

pub open spec fn error_view(e: CliError) -> CliFailure {
    match e {
        CliError::Usage => CliFailure::Usage,
        CliError::BuildNeedsInput => CliFailure::BuildNeedsInput,
        CliError::BadProfile => CliFailure::BadProfile,
        CliError::OutputNeedsPath => CliFailure::OutputNeedsPath,
        CliError::UnknownOption(s) => CliFailure::UnknownOption(s@),
        CliError::NoInput => CliFailure::NoInput,
    }
}

pub open spec fn options_view(o: CliOptions) -> (bool, CliState) {
    (o.is_build, CliState {
        input: Some(o.input@),
        error_format: o.error_format@,
        profile: o.profile@,
        emit_ir: o.emit_ir,
        output: match o.output {
            Some(s) => Some(s@),
            None => None,
        },
    })
}

fn strip_str(a: &str, p: &str) -> (r: String)
    ensures
        r@ == strip_prefixes(a@, p@),
{
    string_of(&strip_prefixes_exec(&chars_of(a), &chars_of(p)))
}

fn opt_view(o: &Option<String>) -> (r: Option<String>)
    ensures
        r == *o,
{
    match o {
        Some(s) => Some(s.clone()),
        None => None,
    }
}

/// Reads the compiler's command line (see `spec_parse_cli`).
pub fn parse_cli_args(args: &Vec<String>) -> (r: Result<CliOptions, CliError>)
    ensures
        match r {
            Ok(o) => spec_parse_cli(args@.map_values(|s: String| s@)) == Ok::<(bool, CliState), CliFailure>(options_view(o)),
            Err(e) => spec_parse_cli(args@.map_values(|s: String| s@)) == Err::<(bool, CliState), CliFailure>(error_view(e)),
        },
{
    let ghost av = args@.map_values(|s: String| s@);
    if args.len() < 2 {
        return Err(CliError::Usage);
    }
    assert(av[1] == args@[1]@);
    let is_build = str_eq(args[1].as_str(), "build");
    if is_build && args.len() < 3 {
        return Err(CliError::BuildNeedsInput);
    }
    let mut input: Option<String> = None;
    let mut error_format = owned("human");
    let mut profile = owned("safe");
    let mut emit_ir = false;
    let mut output: Option<String> = None;
    let mut i: usize = if is_build { 2 } else { 1 };
    while i < args.len()
        invariant
            av == args@.map_values(|s: String| s@),
            args@.len() >= 2,
            is_build == (av[1] == "build"@),
            is_build ==> args@.len() >= 3,
            i <= args@.len() + 1,
            cli_from(av, if is_build { 2 } else { 1 }, initial_cli_state()) == cli_from(
                av,
                i as int,
                CliState {
                    input: match input {
                        Some(s) => Some(s@),
                        None => None,
                    },
                    error_format: error_format@,
                    profile: profile@,
                    emit_ir,
                    output: match output {
                        Some(s) => Some(s@),
                        None => None,
                    },
                },
            ),
        decreases args@.len() - i,
    {
        let a = args[i].as_str();
        assert(a@ == av[i as int]);
        if starts_with(&chars_of(a), &chars_of("--error-format=")) {
            error_format = strip_str(a, "--error-format=");
        } else if starts_with(&chars_of(a), &chars_of("--profile=")) {
            let p = strip_str(a, "--profile=");
            if !str_eq(p.as_str(), "safe") && !str_eq(p.as_str(), "fast") {
                return Err(CliError::BadProfile);
            }
            profile = p;
        } else if str_eq(a, "--emit=llvm-ir") {
            emit_ir = true;
        } else if str_eq(a, "-o") || str_eq(a, "--output") {
            if i + 1 < args.len() {
                assert(av[i + 1] == args@[i + 1]@);
                output = Some(args[i + 1].clone());
                i = i + 1;
            } else {
                return Err(CliError::OutputNeedsPath);
            }
        } else if starts_with(&chars_of(a), &chars_of("-")) {
            return Err(CliError::UnknownOption(owned(a)));
        } else {
            input = Some(owned(a));
        }
        i = i + 1;
    }
    match input {
        Some(inp) => Ok(CliOptions { is_build, input: inp, error_format, profile, emit_ir, output }),
        None => Err(CliError::NoInput),
    }
}

/// Whether the compiled module becomes a native binary: for `build`, or
/// when an output file is given without `--emit=llvm-ir`.
pub fn builds_binary(o: &CliOptions) -> (r: bool)
    ensures
        r == (o.is_build || (o.output is Some && !o.emit_ir)),
{
    o.is_build || (o.output.is_some() && !o.emit_ir)
}

/// The binary's name when no output file is given: the input's stem, with
/// `.exe` on Windows.
pub fn default_binary_name(stem: &str, windows: bool) -> (r: String)
    ensures
        r@ == if windows { stem@ + ".exe"@ } else { stem@ },
{
    let mut v = chars_of(stem);
    if windows {
        append_str(&mut v, ".exe");
    }
    string_of(&v)
}

/// Segments joined by `sep`.
pub open spec fn joined(parts: Seq<Seq<char>>, sep: Seq<char>) -> Seq<char>
    decreases parts.len(),
{
    if parts.len() == 0 {
        Seq::empty()
    } else if parts.len() == 1 {
        parts[0]
    } else {
        joined(parts.drop_last(), sep) + sep + parts.last()
    }
}

/// The key of an imported module: its path joined by `.`.
pub fn module_key(import_path: &Vec<String>) -> (r: String)
    ensures
        r@ == joined(import_path@.map_values(|s: String| s@), "."@),
{
    let ghost pv = import_path@.map_values(|s: String| s@);
    let mut out: Vec<char> = Vec::new();
    let mut i: usize = 0;
    while i < import_path.len()
        invariant
            i <= import_path@.len(),
            pv == import_path@.map_values(|s: String| s@),
            out@ == joined(pv.take(i as int), "."@),
        decreases import_path@.len() - i,
    {
        if i > 0 {
            append_str(&mut out, ".");
        }
        append_chars(&mut out, &chars_of(import_path[i].as_str()));
        proof {
            assert(pv.take(i + 1).drop_last() =~= pv.take(i as int));
            assert(pv.take(i + 1).last() == import_path@[i as int]@);
            if i == 0 {
                assert(pv.take(0) =~= Seq::<Seq<char>>::empty());
            }
        }
        i = i + 1;
    }
    assert(pv.take(import_path@.len() as int) =~= pv);
    string_of(&out)
}

/// The file an imported module is read from: its last segment with `.cx`.
pub fn module_file_name(import_path: &Vec<String>) -> (r: String)
    requires
        import_path@.len() > 0,
    ensures
        r@ == import_path@.last()@ + ".cx"@,
{
    let mut v = chars_of(import_path[import_path.len() - 1].as_str());
    append_str(&mut v, ".cx");
    string_of(&v)
}

} // verus!
