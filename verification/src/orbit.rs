//! The decisions of the Orbit package manager: reading dependencies from the
//! manifest, the text it adds to the manifest and the lockfile, whether a
//! build is out of date, and its command line.

use vstd::prelude::*;
use crate::text::{
    append_chars, append_str, chars_of, contains, lines, owned, seq_contains, seq_starts_with, slice_chars, spec_lines,
    spec_trim, str_eq, string_of, trim,
};

verus! {

// ---------------------------------------------------------------------------
// Dependencies in the manifest
// ---------------------------------------------------------------------------

/// The position of the first `=` at or after `i`, or the length.
pub open spec fn eq_from(s: Seq<char>, i: int) -> int
    decreases s.len() - i,
{
    if i < 0 || i >= s.len() {
        s.len() as int
    } else if s[i] == '=' {
        i
    } else {
        eq_from(s, i + 1)
    }
}

/// The dependency a manifest line declares: the trimmed text before the
/// first `=` of a line that is not blank, not a `#` comment, and not the
/// package's `name` or `version`.
pub open spec fn dependency_of(line: Seq<char>) -> Option<Seq<char>> {
    let t = spec_trim(line);
    if t.len() == 0 || t[0] == '#' {
        None
    } else {
        let e = eq_from(t, 0);
        if e >= t.len() {
            None
        } else {
            let name = spec_trim(t.subrange(0, e));
            if name == "name"@ || name == "version"@ { None } else { Some(name) }
        }
    }
}

/// The dependencies declared by a sequence of manifest lines, in order.
pub open spec fn dependencies_of(ls: Seq<Seq<char>>) -> Seq<Seq<char>>
    decreases ls.len(),
{
    if ls.len() == 0 {
        Seq::empty()
    } else {
        dependencies_of(ls.drop_last()) + match dependency_of(ls.last()) {
            Some(d) => seq![d],
            None => Seq::empty(),
        }
    }
}

fn find_eq(s: &Vec<char>) -> (r: usize)
    ensures
        r == eq_from(s@, 0),
        r <= s@.len(),
{
    proof { lemma_eq_from(s@, 0); }
    let mut i: usize = 0;
    while i < s.len() && s[i] != '='
        invariant
            i <= s@.len(),
            eq_from(s@, 0) == eq_from(s@, i as int),
        decreases s@.len() - i,
    {
        i = i + 1;
    }
    i
}

proof fn lemma_eq_from(s: Seq<char>, i: int)
    requires
        0 <= i <= s.len(),
    ensures
        i <= eq_from(s, i) <= s.len(),
    decreases s.len() - i,
{
    if i < s.len() && s[i] != '=' {
        lemma_eq_from(s, i + 1);
    }
}

fn dependency_of_line(line: &Vec<char>) -> (r: Option<String>)
    ensures
        match dependency_of(line@) {
            Some(d) => r matches Some(s) && s@ == d,
            None => r is None,
        },
{
    let t = trim(line);
    if t.len() == 0 || t[0] == '#' {
        return None;
    }
    let e = find_eq(&t);
    if e >= t.len() {
        return None;
    }
    let name = trim(&slice_chars(&t, 0, e));
    let ns = string_of(&name);
    if str_eq(ns.as_str(), "name") || str_eq(ns.as_str(), "version") {
        None
    } else {
        Some(ns)
    }
}

/// The dependencies that a manifest declares (see `dependency_of`).
pub fn dependency_names(toml: &str) -> (r: Vec<String>)
    ensures
        r@.map_values(|s: String| s@) == dependencies_of(spec_lines(toml@)),
{
    let ls = lines(&chars_of(toml));
    let ghost lv = spec_lines(toml@);
    let mut out: Vec<String> = Vec::new();
    let mut k: usize = 0;
    while k < ls.len()
        invariant
            ls@.len() == lv.len(),
            forall|j: int| 0 <= j < ls@.len() ==> #[trigger] ls@[j]@ == lv[j],
            lv == spec_lines(toml@),
            k <= lv.len(),
            out@.map_values(|s: String| s@) == dependencies_of(lv.take(k as int)),
        decreases lv.len() - k,
    {
        proof {
            assert(lv.take(k + 1).drop_last() =~= lv.take(k as int));
            assert(lv.take(k + 1).last() == lv[k as int]);
        }
        let ghost before = out@;
        match dependency_of_line(&ls[k]) {
            Some(d) => {
                out.push(d);
                assert(out@.map_values(|s: String| s@) =~= before.map_values(|s: String| s@) + seq![out@.last()@]);
            },
            None => {
                assert(dependencies_of(lv.take(k + 1)) =~= dependencies_of(lv.take(k as int)));
            },
        }
        k = k + 1;
    }
    assert(lv.take(lv.len() as int) =~= lv);
    out
}

/// The places a dependency's source is looked for, in order.
pub open spec fn candidate_paths(dep: Seq<char>) -> Seq<Seq<char>> {
    seq!["deps/"@ + dep + ".cx"@, "../"@ + dep + ".cx"@, "examples/"@ + dep + ".cx"@, "stdlib/"@ + dep + ".cx"@]
}

fn dir_file(dir: &str, dep: &str) -> (r: String)
    ensures
        r@ == dir@ + dep@ + ".cx"@,
{
    let mut v = chars_of(dir);
    append_str(&mut v, dep);
    append_str(&mut v, ".cx");
    string_of(&v)
}

/// Where the source of a dependency is looked for (see `candidate_paths`).
pub fn dependency_candidates(dep: &str) -> (r: Vec<String>)
    ensures
        r@.map_values(|s: String| s@) == candidate_paths(dep@),
{
    let mut out: Vec<String> = Vec::new();
    out.push(dir_file("deps/", dep));
    out.push(dir_file("../", dep));
    out.push(dir_file("examples/", dep));
    out.push(dir_file("stdlib/", dep));
    assert(out@.map_values(|s: String| s@) =~= candidate_paths(dep@));
    out
}

// ---------------------------------------------------------------------------
// Editing the manifest and the lockfile
// ---------------------------------------------------------------------------

/// The manifest with `dep = "*"` added, unless the manifest already
/// mentions `dep` anywhere.
pub open spec fn spec_with_dependency(content: Seq<char>, dep: Seq<char>) -> Option<Seq<char>> {
    if seq_contains(content, dep) {
        None
    } else {
        Some(content + "\n"@ + dep + " = \"*\"\n"@)
    }
}

pub fn with_dependency(content: &str, dep: &str) -> (r: Option<String>)
    ensures
        match spec_with_dependency(content@, dep@) {
            Some(t) => r matches Some(s) && s@ == t,
            None => r is None,
        },
{
    let c = chars_of(content);
    if contains(&c, &chars_of(dep)) {
        return None;
    }
    let mut out = c;
    append_str(&mut out, "\n");
    append_str(&mut out, dep);
    append_str(&mut out, " = \"*\"\n");
    Some(string_of(&out))
}

/// The manifest with `stem = { path = "<output>" }` added, unless it
/// already mentions `stem` anywhere.
pub open spec fn spec_with_c_header_dependency(content: Seq<char>, stem: Seq<char>, output: Seq<char>) -> Option<Seq<char>> {
    if seq_contains(content, stem) {
        None
    } else {
        Some(content + "\n"@ + stem + " = { path = \""@ + output + "\" }\n"@)
    }
}

pub fn with_c_header_dependency(content: &str, stem: &str, output: &str) -> (r: Option<String>)
    ensures
        match spec_with_c_header_dependency(content@, stem@, output@) {
            Some(t) => r matches Some(s) && s@ == t,
            None => r is None,
        },
{
    let c = chars_of(content);
    if contains(&c, &chars_of(stem)) {
        return None;
    }
    let mut out = c;
    append_str(&mut out, "\n");
    append_str(&mut out, stem);
    append_str(&mut out, " = { path = \"");
    append_str(&mut out, output);
    append_str(&mut out, "\" }\n");
    Some(string_of(&out))
}

/// The lockfile with a `[[package]]` entry for `name` added, unless it
/// already has `name = "<name>"`; a missing lockfile starts as
/// `# Orbit Lockfile`.
pub open spec fn spec_updated_lockfile(lock: Option<Seq<char>>, name: Seq<char>, version: Seq<char>) -> Option<Seq<char>> {
    let text = match lock {
        Some(l) => l,
        None => "# Orbit Lockfile\n"@,
    };
    if seq_contains(text, "name = \""@ + name + "\""@) {
        None
    } else {
        Some(text + "\n[[package]]\nname = \""@ + name + "\"\nversion = \""@ + version + "\"\n"@)
    }
}

pub fn updated_lockfile(lock: Option<&str>, name: &str, version: &str) -> (r: Option<String>)
    ensures
        match spec_updated_lockfile(
            match lock {
                Some(l) => Some(l@),
                None => None,
            },
            name@,
            version@,
        ) {
            Some(t) => r matches Some(s) && s@ == t,
            None => r is None,
        },
{
    let text = match lock {
        Some(l) => chars_of(l),
        None => chars_of("# Orbit Lockfile\n"),
    };
    let mut key = chars_of("name = \"");
    append_str(&mut key, name);
    append_str(&mut key, "\"");
    if contains(&text, &key) {
        return None;
    }
    let mut out = text;
    append_str(&mut out, "\n[[package]]\nname = \"");
    append_str(&mut out, name);
    append_str(&mut out, "\"\nversion = \"");
    append_str(&mut out, version);
    append_str(&mut out, "\"\n");
    Some(string_of(&out))
}

/// A manifest mentions a dependency after it is added, so adding it again
/// changes nothing.
pub proof fn lemma_add_dependency_once(content: Seq<char>, dep: Seq<char>)
    requires
        spec_with_dependency(content, dep) is Some,
    ensures
        spec_with_dependency(spec_with_dependency(content, dep)->0, dep) is None,
{
    reveal_strlit("\n");
    let t = content + "\n"@ + dep;
    let full = spec_with_dependency(content, dep)->0;
    assert(full =~= t + " = \"*\"\n"@);
    assert(crate::text::occurs_at(full, dep, content.len() + 1 as int)) by {
        assert(full.subrange(content.len() + 1 as int, content.len() + 1 + dep.len() as int) =~= dep);
    }
}

/// Adding a package to a lockfile twice adds it once.
pub proof fn lemma_lockfile_once(lock: Option<Seq<char>>, name: Seq<char>, version: Seq<char>)
    requires
        spec_updated_lockfile(lock, name, version) is Some,
    ensures
        spec_updated_lockfile(Some(spec_updated_lockfile(lock, name, version)->0), name, version) is None,
{
    let text = match lock {
        Some(l) => l,
        None => "# Orbit Lockfile\n"@,
    };
    let key = "name = \""@ + name + "\""@;
    let full = spec_updated_lockfile(lock, name, version)->0;
    let pre = text + "\n[[package]]\n"@;
    reveal_strlit("\n[[package]]\nname = \"");
    reveal_strlit("\n[[package]]\n");
    reveal_strlit("name = \"");
    reveal_strlit("\"\nversion = \"");
    reveal_strlit("\"");
    assert(full =~= pre + key + ("\nversion = \""@ + version + "\"\n"@)) by {
        reveal_strlit("\nversion = \"");
        reveal_strlit("\"\n");
    }
    assert(crate::text::occurs_at(full, key, pre.len() as int)) by {
        assert(full.subrange(pre.len() as int, (pre.len() + key.len()) as int) =~= key);
    }
}

// ---------------------------------------------------------------------------
// Incremental builds
// ---------------------------------------------------------------------------

/// The latest of the known modification times.
pub open spec fn latest(ts: Seq<Option<u128>>) -> Option<u128>
    decreases ts.len(),
{
    if ts.len() == 0 {
        None
    } else {
        let rest = latest(ts.drop_last());
        match ts.last() {
            Some(t) => match rest {
                Some(m) => if t > m { Some(t) } else { Some(m) },
                None => Some(t),
            },
            None => rest,
        }
    }
}

/// A build is needed unless the executable exists and is no older than the
/// latest source (the manifest, the lockfile and the files of `src`).
pub open spec fn spec_needs_rebuild(exe: Option<u128>, sources: Seq<Option<u128>>) -> bool {
    match exe {
        Some(e) => match latest(sources) {
            Some(m) => !(e >= m),
            None => true,
        },
        None => true,
    }
}

pub fn needs_rebuild(exe_mtime: Option<u128>, source_mtimes: &Vec<Option<u128>>) -> (r: bool)
    ensures
        r == spec_needs_rebuild(exe_mtime, source_mtimes@),
{
    let mut max: Option<u128> = None;
    let mut i: usize = 0;
    while i < source_mtimes.len()
        invariant
            i <= source_mtimes@.len(),
            max == latest(source_mtimes@.take(i as int)),
        decreases source_mtimes@.len() - i,
    {
        proof {
            assert(source_mtimes@.take(i + 1).drop_last() =~= source_mtimes@.take(i as int));
        }
        match source_mtimes[i] {
            Some(t) => {
                max = match max {
                    Some(m) => if t > m { Some(t) } else { Some(m) },
                    None => Some(t),
                };
            },
            None => {},
        }
        i = i + 1;
    }
    assert(source_mtimes@.take(source_mtimes@.len() as int) =~= source_mtimes@);
    match exe_mtime {
        Some(e) => match max {
            Some(m) => !(e >= m),
            None => true,
        },
        None => true,
    }
}

/// The latest known time is one of the known times, and no known time is
/// later; there is one exactly when some time is known.
pub proof fn lemma_latest(ts: Seq<Option<u128>>)
    ensures
        latest(ts) is Some <==> exists|i: int| 0 <= i < ts.len() && ts[i] is Some,
        latest(ts) matches Some(m) ==> exists|i: int| 0 <= i < ts.len() && ts[i] == Some(m),
        latest(ts) matches Some(m) ==> forall|i: int| 0 <= i < ts.len() && ts[i] is Some ==> ts[i]->0 <= m,
    decreases ts.len(),
{
    if ts.len() > 0 {
        let init = ts.drop_last();
        lemma_latest(init);
        assert forall|i: int| 0 <= i < init.len() implies init[i] == ts[i] by {}
        if latest(ts) is Some {
            let m = latest(ts)->0;
            match latest(init) {
                Some(r) => {
                    let w = choose|i: int| 0 <= i < init.len() && init[i] == Some(r);
                    assert(ts[w] == Some(r));
                    assert(ts[ts.len() - 1] == ts.last());
                },
                None => {
                    assert(ts[ts.len() - 1] == ts.last());
                },
            }
            assert forall|i: int| 0 <= i < ts.len() && ts[i] is Some implies ts[i]->0 <= m by {
                if i < ts.len() - 1 {
                    assert(init[i] == ts[i]);
                }
            }
        }
        if exists|i: int| 0 <= i < ts.len() && ts[i] is Some {
            let w = choose|i: int| 0 <= i < ts.len() && ts[i] is Some;
            if w < ts.len() - 1 {
                assert(init[w] is Some);
            }
        }
    }
}

/// A build is needed when some source was modified after the executable,
/// when no source time is known, or when there is no executable; it is not
/// needed when at least one source time is known and none is later than
/// the executable's.
pub proof fn law_rebuild_follows_newest_source(exe: u128, ts: Seq<Option<u128>>)
    ensures
        (exists|i: int| 0 <= i < ts.len() && ts[i] is Some && ts[i]->0 > exe) ==> spec_needs_rebuild(Some(exe), ts),
        (exists|i: int| 0 <= i < ts.len() && ts[i] is Some) && (forall|i: int|
            0 <= i < ts.len() && ts[i] is Some ==> ts[i]->0 <= exe) ==> !spec_needs_rebuild(Some(exe), ts),
        (forall|i: int| 0 <= i < ts.len() ==> ts[i] is None) ==> spec_needs_rebuild(Some(exe), ts),
        spec_needs_rebuild(None, ts),
{
    lemma_latest(ts);
    if exists|i: int| 0 <= i < ts.len() && ts[i] is Some && ts[i]->0 > exe {
        let w = choose|i: int| 0 <= i < ts.len() && ts[i] is Some && ts[i]->0 > exe;
        assert(ts[w] is Some);
    }
    if latest(ts) is Some {
        let m = latest(ts)->0;
        let w = choose|i: int| 0 <= i < ts.len() && ts[i] == Some(m);
        assert(ts[w] is Some);
    }
}

// ---------------------------------------------------------------------------
// New packages and the command line
// ---------------------------------------------------------------------------

/// The manifest of a new package.
pub fn orbit_toml_template() -> (r: String)
    ensures
        r@ == "[package]\nname = \"my_project\"\nversion = \"0.1.0\"\n\n[dependencies]\n"@,
{
    owned("[package]\nname = \"my_project\"\nversion = \"0.1.0\"\n\n[dependencies]\n")
}

/// The `src/main.cx` of a new package.
pub fn main_cx_template() -> (r: String)
    ensures
        r@ == "fn main() -> i32 {\n    print(\"Hello, World!\\n\")\n    return 0\n}\n"@,
{
    owned("fn main() -> i32 {\n    print(\"Hello, World!\\n\")\n    return 0\n}\n")
}

/// What the command line asks of Orbit.
#[derive(Debug)]
pub enum OrbitCommand {
    Usage,
    Init,
    Build,
    Add(String),
    AddCHeader(String),
    /// `add` without a dependency.
    MissingDependency,
    /// `--c-header` without a path after it.
    MissingHeaderPath,
}

/// The first position of `--c-header` among the arguments, or none.
pub open spec fn c_header_at(args: Seq<Seq<char>>) -> Option<int> {
    if exists|k: int| 0 <= k < args.len() && args[k] == "--c-header"@ {
        Some(choose|k: int| 0 <= k < args.len() && args[k] == "--c-header"@ && forall|j: int| 0 <= j < k ==> args[j] != "--c-header"@)
    } else {
        None
    }
}

/// Reads the arguments (the program name first): `init`, `build`, `add <dep>`
/// or `add ... --c-header <path.h>`; anything else asks for the usage text.
pub open spec fn spec_orbit_command(args: Seq<Seq<char>>, r: OrbitCommand) -> bool {
    if args.len() < 2 {
        r is Usage
    } else if args[1] == "init"@ {
        r is Init
    } else if args[1] == "build"@ {
        r is Build
    } else if args[1] == "add"@ {
        if args.len() < 3 {
            r is MissingDependency
        } else {
            match c_header_at(args) {
                Some(k) => if k + 1 < args.len() {
                    r matches OrbitCommand::AddCHeader(p) && p@ == args[k + 1]
                } else {
                    r is MissingHeaderPath
                },
                None => r matches OrbitCommand::Add(d) && d@ == args[2],
            }
        }
    } else {
        r is Usage
    }
}

pub fn parse_orbit_args(args: &Vec<String>) -> (r: OrbitCommand)
    ensures
        spec_orbit_command(args@.map_values(|s: String| s@), r),
{
    let ghost av = args@.map_values(|s: String| s@);
    if args.len() < 2 {
        return OrbitCommand::Usage;
    }
    assert(av[1] == args@[1]@);
    let cmd = args[1].as_str();
    assert(cmd@ == av[1]);
    if str_eq(cmd, "init") {
        OrbitCommand::Init
    } else if str_eq(cmd, "build") {
        OrbitCommand::Build
    } else if str_eq(cmd, "add") {
        if args.len() < 3 {
            return OrbitCommand::MissingDependency;
        }
        let mut k: usize = 0;
        while k < args.len()
            invariant
                k <= args@.len(),
                args@.len() >= 3,
                av == args@.map_values(|s: String| s@),
                av[1] == "add"@,
                av[1] != "init"@,
                av[1] != "build"@,
                forall|j: int| 0 <= j < k ==> av[j] != "--c-header"@,
            decreases args@.len() - k,
        {
            if str_eq(args[k].as_str(), "--c-header") {
                proof {
                    assert(av[k as int] == "--c-header"@);
                    let c = c_header_at(av)->0;
                    assert(c == k) by {
                        if c < k {
                            assert(av[c] != "--c-header"@);
                        } else if c > k {
                            assert(av[k as int] != "--c-header"@);
                        }
                    }
                }
                if k + 1 < args.len() {
                    assert(av[k + 1] == args@[k + 1]@);
                    return OrbitCommand::AddCHeader(args[k + 1].clone());
                } else {
                    return OrbitCommand::MissingHeaderPath;
                }
            }
            k = k + 1;
        }
        assert(av[2] == args@[2]@);
        OrbitCommand::Add(args[2].clone())
    } else {
        OrbitCommand::Usage
    }
}

} // verus!
