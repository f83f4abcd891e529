//! The commands that describe a project to rust-analyzer.
use std::sync::Arc;
use vstd::prelude::*;
use vstd::string::*;

use crate::rust_project::Target;
use crate::rust_project::dedupe_targets;
use crate::rust_project;
use crate::text;

verus! {

/// Where the sysroot comes from.
#[derive(Debug)]
pub enum SysrootConfig {
    Sysroot(String),
    BuckConfig,
    Rustup,
}

/// What is asked for when rust-analyzer calls.
#[derive(Debug)]
pub enum JsonArguments {
    Path(String),
    Label(String),
}

/// A subcommand. What only the other subcommands need is left out.
#[derive(Debug)]
pub enum Command {
    Develop {
        targets: Vec<String>,
        files: Vec<String>,
        out: String,
        stdout: bool,
        prefer_rustup_managed_toolchain: bool,
        sysroot: Option<String>,
        pretty: bool,
        relative_paths: bool,
        mode: Option<String>,
        check_cycles: bool,
    },
    DevelopJson { args: JsonArguments },
    /// Any other subcommand.
    Other,
}

/// What to describe.
#[derive(Debug)]
pub enum Input {
    Targets(Vec<Target>),
    Files(Vec<String>),
}

/// Where to write.
#[derive(Debug)]
pub enum Output {
    Path(String),
    Stdout,
}

/// Where and how to write.
#[derive(Debug)]
pub struct OutputCfg {
    pub out: Output,
    pub pretty: bool,
}

/// How to describe a project.
#[derive(Debug)]
pub struct Develop {
    pub sysroot: SysrootConfig,
    pub relative_paths: bool,
    /// The build mode that was asked for.
    pub mode: Option<String>,
    pub check_cycles: bool,
    pub invoked_by_ra: bool,
}

fn targets_from(names: Vec<String>) -> (r: Vec<Target>)
    ensures
        r@.len() == names@.len(),
        forall|i: int| 0 <= i < r@.len() ==> (#[trigger] r@[i]).0 == names@[i],
{
    let ghost all = names@;
    let mut out: Vec<Target> = Vec::new();
    for name in it: names
        invariant
            it.seq() == all,
            all == names@,
            out@.len() == it.index(),
            forall|i: int| 0 <= i < out@.len() ==> (#[trigger] out@[i]).0 == all[i],
    {
        out.push(Target::new(name));
    }
    out
}

impl Develop {
    /// What a command asks for.
    pub fn from_command(command: Command) -> (r: (Develop, Input, OutputCfg))
        requires
            !(command is Other),
        ensures
            match command {
                Command::Develop {
                    targets,
                    files,
                    out,
                    stdout,
                    prefer_rustup_managed_toolchain,
                    sysroot,
                    pretty,
                    relative_paths,
                    mode,
                    check_cycles,
                } => {
                    &&& r.0 == (Develop {
                        sysroot: if prefer_rustup_managed_toolchain {
                            SysrootConfig::Rustup
                        } else {
                            match sysroot {
                                Some(path) => SysrootConfig::Sysroot(path),
                                None => SysrootConfig::BuckConfig,
                            }
                        },
                        relative_paths,
                        mode,
                        check_cycles,
                        invoked_by_ra: false,
                    })
                    &&& if targets@.len() > 0 {
                        &&& r.1 matches Input::Targets(t)
                        &&& t@.len() == targets@.len()
                        &&& forall|i: int| 0 <= i < t@.len() ==> (#[trigger] t@[i]).0 == targets@[i]
                    } else {
                        r.1 == Input::Files(files)
                    }
                    &&& r.2.pretty == pretty
                    &&& r.2.out == (if stdout {
                        Output::Stdout
                    } else {
                        Output::Path(out)
                    })
                },
                Command::DevelopJson { args } => {
                    &&& r.0 == (Develop {
                        sysroot: SysrootConfig::BuckConfig,
                        relative_paths: false,
                        mode: None,
                        check_cycles: false,
                        invoked_by_ra: true,
                    })
                    &&& match (args, r.1) {
                        (JsonArguments::Path(path), Input::Files(files)) => files@ == seq![path],
                        (JsonArguments::Label(label), Input::Targets(targets)) => targets@ == seq![
                            Target(label),
                        ],
                        _ => false,
                    }
                    &&& !r.2.pretty
                    &&& r.2.out is Stdout
                },
                Command::Other => true,
            },
    {
        match command {
            Command::Develop {
                targets,
                files,
                out,
                stdout,
                prefer_rustup_managed_toolchain,
                sysroot,
                pretty,
                relative_paths,
                mode,
                check_cycles,
            } => {
                let out = if stdout {
                    Output::Stdout
                } else {
                    Output::Path(out)
                };
                let sysroot = if prefer_rustup_managed_toolchain {
                    SysrootConfig::Rustup
                } else {
                    match sysroot {
                        Some(path) => SysrootConfig::Sysroot(path),
                        None => SysrootConfig::BuckConfig,
                    }
                };
                let develop = Develop {
                    sysroot,
                    relative_paths,
                    mode,
                    check_cycles,
                    invoked_by_ra: false,
                };
                let input = if targets.len() > 0 {
                    Input::Targets(targets_from(targets))
                } else {
                    Input::Files(files)
                };
                (develop, input, OutputCfg { out, pretty })
            },
            Command::DevelopJson { args } => {
                let develop = Develop {
                    sysroot: SysrootConfig::BuckConfig,
                    relative_paths: false,
                    mode: None,
                    check_cycles: false,
                    invoked_by_ra: true,
                };
                let input = match args {
                    JsonArguments::Path(path) => {
                        let mut files: Vec<String> = Vec::new();
                        files.push(path);
                        Input::Files(files)
                    },
                    JsonArguments::Label(label) => {
                        let mut targets: Vec<Target> = Vec::new();
                        targets.push(Target::new(label));
                        Input::Targets(targets)
                    },
                };
                (develop, input, OutputCfg { out: Output::Stdout, pretty: false })
            },
            Command::Other => {
                let develop = Develop {
                    sysroot: SysrootConfig::BuckConfig,
                    relative_paths: false,
                    mode: None,
                    check_cycles: false,
                    invoked_by_ra: false,
                };
                (
                    develop,
                    Input::Files(Vec::new()),
                    OutputCfg { out: Output::Stdout, pretty: false },
                )
            },
        }
    }
}

/// `c` as a digit.
pub open spec fn digit_value(c: char) -> nat {
    (c as int - '0' as int) as nat
}

/// All characters are digits.
pub open spec fn all_digits(s: Seq<char>) -> bool {
    forall|i: int| 0 <= i < s.len() ==> '0' <= #[trigger] s[i] <= '9'
}

/// The number that digits stand for.
pub open spec fn digits_value(s: Seq<char>) -> nat
    decreases s.len(),
{
    if s.len() == 0 {
        0
    } else {
        digits_value(s.drop_last()) * 10 + digit_value(s.last())
    }
}

/// A number in decimal, with a plus sign in front or without, that fits.
pub open spec fn parsed_usize(s: Seq<char>) -> Option<usize> {
    let digits = if text::has_prefix(s, "+"@) {
        s.subrange(1, s.len() as int)
    } else {
        s
    };
    if digits.len() > 0 && all_digits(digits) && digits_value(digits) <= usize::MAX {
        Some(digits_value(digits) as usize)
    } else {
        None
    }
}

proof fn lemma_digits_grow(s: Seq<char>, n: int)
    requires
        0 <= n <= s.len(),
    ensures
        digits_value(s.take(n)) <= digits_value(s),
    decreases s.len(),
{
    if n == s.len() {
        assert(s.take(n) =~= s);
    } else {
        lemma_digits_grow(s.drop_last(), n);
        assert(s.drop_last().take(n) =~= s.take(n));
    }
}

/// Reads a number in decimal.
pub fn parse_usize(s: &str) -> (r: Option<usize>)
    ensures
        r == parsed_usize(s@),
{
    let digits = match text::strip_prefix(s, "+") {
        Some(rest) => rest,
        None => s,
    };
    proof {
        reveal_strlit("+");
    }
    let n: usize = digits.unicode_len();
    if n == 0 {
        return None;
    }
    let ghost all = digits@;
    let mut value: usize = 0;
    let mut i: usize = 0;
    assert(all.take(0) =~= Seq::empty());
    while i < n
        invariant
            i <= n,
            n == all.len(),
            all == digits@,
            n > 0,
            parsed_usize(s@) == (if all_digits(all) && digits_value(all) <= usize::MAX {
                Some(digits_value(all) as usize)
            } else {
                None
            }),
            forall|k: int| 0 <= k < i ==> '0' <= #[trigger] all[k] <= '9',
            value == digits_value(all.take(i as int)),
        decreases n - i,
    {
        let c = digits.get_char(i);
        if c < '0' || c > '9' {
            assert(!('0' <= all[i as int] <= '9'));
            return None;
        }
        let d: usize = (c as u32 - '0' as u32) as usize;
        proof {
            let next = all.take(i + 1);
            assert(next.drop_last() =~= all.take(i as int));
            assert(next.last() == all[i as int]);
            lemma_digits_grow(all, i + 1);
        }
        match value.checked_mul(10) {
            Some(tens) => match tens.checked_add(d) {
                Some(v) => {
                    value = v;
                },
                None => {
                    return None;
                },
            },
            None => {
                return None;
            },
        }
        i = i + 1;
    }
    assert(all.take(n as int) =~= all);
    Some(value)
}

/// How many more targets of a build file are described unless something else is asked for.
pub const DEFAULT_EXTRA_TARGETS: usize = 50;

/// How many more targets of a build file are described.
pub fn max_extra_targets(variable: Option<&str>) -> (r: usize)
    ensures
        r == (match variable {
            Some(s) => match parsed_usize(s@) {
                Some(n) => n,
                None => DEFAULT_EXTRA_TARGETS,
            },
            None => DEFAULT_EXTRA_TARGETS,
        }),
{
    match variable {
        Some(s) => match parse_usize(s) {
            Some(n) => n,
            None => DEFAULT_EXTRA_TARGETS,
        },
        None => DEFAULT_EXTRA_TARGETS,
    }
}

/// The names of the targets in an `FxHashMap`, by build file.
pub uninterp spec fn fx_map_groups(m: rustc_hash::FxHashMap<String, Vec<Target>>) -> Map<
    Seq<char>,
    Seq<Seq<char>>,
>;

/// `groups` are the entries of a map, each once, in some order.
pub open spec fn is_walk(
    groups: Seq<(String, Vec<Target>)>,
    m: Map<Seq<char>, Seq<Seq<char>>>,
) -> bool {
    &&& forall|i: int, j: int|
        0 <= i < j < groups.len() ==> (#[trigger] groups[i]).0@ != (#[trigger] groups[j]).0@
    &&& forall|i: int|
        0 <= i < groups.len() ==> m.contains_key((#[trigger] groups[i]).0@) && m[groups[i].0@]
            == rust_project::target_names(groups[i].1@)
    &&& forall|k: Seq<char>| #[trigger]
        m.contains_key(k) ==> exists|i: int| 0 <= i < groups.len() && (#[trigger] groups[i]).0@ == k
}

/// `FxHashMap::into_iter`: every entry of the map, once. In which order they come is left open.
#[verifier::external_body]
fn fx_map_into_groups(m: rustc_hash::FxHashMap<String, Vec<Target>>) -> (r: Vec<
    (String, Vec<Target>),
>)
    ensures
        is_walk(r@, fx_map_groups(m)),
{
    m.into_iter().collect()
}

/// The groups of a map, each without duplicates.
pub open spec fn deduped_map(m: Map<Seq<char>, Seq<Seq<char>>>) -> Map<Seq<char>, Seq<Seq<char>>> {
    m.map_values(|names: Seq<Seq<char>>| rust_project::deduped(names, names.len() as int))
}

/// The targets that own some files, by build file, without duplicates. The build files come in the
/// order in which the map is walked.
pub fn related_targets(owners: rustc_hash::FxHashMap<String, Vec<Target>>) -> (r: Vec<
    (String, Vec<Target>),
>)
    ensures
        is_walk(r@, deduped_map(fx_map_groups(owners))),
{
    let ghost m = fx_map_groups(owners);
    let groups = fx_map_into_groups(owners);
    let ghost walked = groups@;
    let r = deduped_groups(groups);
    proof {
        let after = deduped_map(m);
        assert forall|i: int, j: int| 0 <= i < j < r@.len() implies (#[trigger] r@[i]).0@ != (
        #[trigger] r@[j]).0@ by {
            assert(walked[i].0@ != walked[j].0@);
        }
        assert forall|i: int| 0 <= i < r@.len() implies after.contains_key((#[trigger] r@[i]).0@)
            && after[r@[i].0@] == rust_project::target_names(r@[i].1@) by {
            assert(m.contains_key(walked[i].0@));
            assert(rust_project::target_names(walked[i].1@).len() == walked[i].1@.len());
        }
        assert forall|k: Seq<char>| #[trigger] after.contains_key(k) implies exists|i: int|
            0 <= i < r@.len() && (#[trigger] r@[i]).0@ == k by {
            assert(m.contains_key(k));
            let i = choose|i: int| 0 <= i < walked.len() && (#[trigger] walked[i]).0@ == k;
            assert(r@[i].0@ == k);
        }
    }
    r
}

/// Groups of targets, each without duplicates.
pub fn deduped_groups(owners: Vec<(String, Vec<Target>)>) -> (r: Vec<(String, Vec<Target>)>)
    ensures
        r@.len() == owners@.len(),
        forall|i: int|
            0 <= i < r@.len() ==> {
                &&& (#[trigger] r@[i]).0 == owners@[i].0
                &&& rust_project::target_names(r@[i].1@) == rust_project::deduped(
                    rust_project::target_names(owners@[i].1@),
                    owners@[i].1@.len() as int,
                )
            },
{
    let ghost all = owners@;
    let mut out: Vec<(String, Vec<Target>)> = Vec::new();
    for group in it: owners
        invariant
            it.seq() == all,
            all == owners@,
            out@.len() == it.index(),
            forall|i: int|
                0 <= i < out@.len() ==> {
                    &&& (#[trigger] out@[i]).0 == all[i].0
                    &&& rust_project::target_names(out@[i].1@) == rust_project::deduped(
                        rust_project::target_names(all[i].1@),
                        all[i].1@.len() as int,
                    )
                },
    {
        let targets = dedupe_targets(&group.1);
        out.push((group.0, targets));
    }
    out
}

/// `a` comes before `b` in the order of strings.
pub open spec fn text_less(a: Seq<char>, b: Seq<char>) -> bool
    decreases a.len(),
{
    if b.len() == 0 {
        false
    } else if a.len() == 0 {
        true
    } else if a[0] != b[0] {
        a[0] < b[0]
    } else {
        text_less(a.subrange(1, a.len() as int), b.subrange(1, b.len() as int))
    }
}

proof fn lemma_text_less_total(a: Seq<char>, b: Seq<char>)
    ensures
        text_less(a, b) || text_less(b, a) || a == b,
        !(text_less(a, b) && text_less(b, a)),
        text_less(a, b) ==> a != b,
    decreases a.len(),
{
    if a.len() > 0 && b.len() > 0 {
        let x = a.subrange(1, a.len() as int);
        let y = b.subrange(1, b.len() as int);
        lemma_text_less_total(x, y);
        if a[0] == b[0] && x == y {
            assert(a =~= b) by {
                assert forall|i: int| 0 <= i < a.len() implies a[i] == b[i] by {
                    if i > 0 {
                        assert(a[i] == x[i - 1]);
                        assert(b[i] == y[i - 1]);
                    }
                }
                assert(a.len() == x.len() + 1);
                assert(b.len() == y.len() + 1);
            }
        }
    } else if a.len() == 0 && b.len() == 0 {
        assert(a =~= b);
    }
}

proof fn lemma_text_less_transitive(a: Seq<char>, b: Seq<char>, c: Seq<char>)
    requires
        text_less(a, b),
        text_less(b, c),
    ensures
        text_less(a, c),
    decreases a.len(),
{
    if a.len() > 0 && b.len() > 0 && c.len() > 0 && a[0] == b[0] && b[0] == c[0] {
        lemma_text_less_transitive(
            a.subrange(1, a.len() as int),
            b.subrange(1, b.len() as int),
            c.subrange(1, c.len() as int),
        );
    }
}

/// Whether `a` comes before `b` in the order of strings.
fn comes_before(a: &str, b: &str) -> (r: bool)
    ensures
        r == text_less(a@, b@),
{
    let n: usize = a.unicode_len();
    let m: usize = b.unicode_len();
    let mut i: usize = 0;
    proof {
        assert(a@.subrange(0, a@.len() as int) =~= a@);
        assert(b@.subrange(0, b@.len() as int) =~= b@);
    }
    while i < n && i < m
        invariant
            n == a@.len(),
            m == b@.len(),
            i <= n,
            i <= m,
            text_less(a@, b@) == text_less(
                a@.subrange(i as int, n as int),
                b@.subrange(i as int, m as int),
            ),
        decreases n - i,
    {
        let x = a.get_char(i);
        let y = b.get_char(i);
        proof {
            let p = a@.subrange(i as int, n as int);
            let q = b@.subrange(i as int, m as int);
            assert(p.subrange(1, p.len() as int) =~= a@.subrange(i + 1, n as int));
            assert(q.subrange(1, q.len() as int) =~= b@.subrange(i + 1, m as int));
        }
        if x != y {
            return x < y;
        }
        i = i + 1;
    }
    i < m
}

/// The names are in order, and none stands there twice.
pub open spec fn is_sorted(names: Seq<Seq<char>>) -> bool {
    forall|i: int, j: int| 0 <= i < j < names.len() ==> text_less(#[trigger] names[i], #[trigger] names[j])
}

/// Puts a target in its place, unless it is there.
fn insert_sorted(targets: &mut Vec<Target>, target: Target)
    requires
        is_sorted(rust_project::target_names(old(targets)@)),
    ensures
        is_sorted(rust_project::target_names(final(targets)@)),
        forall|s: Seq<char>| #[trigger]
            rust_project::target_names(final(targets)@).contains(s) <==> (s == target.0@
                || rust_project::target_names(old(targets)@).contains(s)),
{
    let ghost before = rust_project::target_names(targets@);
    let ghost name = target.0@;
    let mut i: usize = 0;
    while i < targets.len() && comes_before(targets[i].0.as_str(), target.0.as_str())
        invariant
            i <= targets@.len(),
            before == rust_project::target_names(targets@),
            name == target.0@,
            forall|k: int| 0 <= k < i ==> text_less(#[trigger] before[k], name),
        decreases targets@.len() - i,
    {
        i = i + 1;
    }
    if i < targets.len() && text::str_eq(targets[i].0.as_str(), target.0.as_str()) {
        assert(before[i as int] == name);
        return;
    }
    proof {
        assert forall|k: int| i <= k < before.len() implies text_less(name, #[trigger] before[k]) by {
            lemma_text_less_total(before[i as int], name);
            if k > i {
                lemma_text_less_transitive(name, before[i as int], before[k]);
            }
        }
    }
    targets.insert(i, target);
    proof {
        let after = rust_project::target_names(targets@);
        assert(after =~= before.insert(i as int, name));
        assert forall|s: Seq<char>| #[trigger]
            after.contains(s) <==> (s == name || before.contains(s)) by {
            if s == name {
                assert(after[i as int] == s);
            }
            if before.contains(s) {
                let k = choose|k: int| 0 <= k < before.len() && before[k] == s;
                if k < i {
                    assert(after[k] == s);
                } else {
                    assert(after[k + 1] == s);
                }
            }
            if after.contains(s) && s != name {
                let k = choose|k: int| 0 <= k < after.len() && after[k] == s;
                if k < i {
                    assert(before[k] == s);
                } else {
                    assert(before[k - 1] == s);
                }
            }
        }
        assert forall|p: int, q: int| 0 <= p < q < after.len() implies text_less(
            #[trigger] after[p],
            #[trigger] after[q],
        ) by {
            let pp = if p < i {
                p
            } else {
                p - 1
            };
            let qq = if q < i {
                q
            } else {
                q - 1
            };
            if p != i {
                assert(after[p] == before[pp]);
            }
            if q != i {
                assert(after[q] == before[qq]);
            }
        }
    }
}

/// One of the first `n` groups has the target `name`.
pub open spec fn in_groups(groups: Seq<(String, Vec<Target>)>, n: int, name: Seq<char>) -> bool {
    exists|i: int|
        0 <= i < n && rust_project::target_names((#[trigger] groups[i]).1@).contains(name)
}

/// All targets of all build files, in order, each once.
pub fn merged_targets(groups: &Vec<(String, Vec<Target>)>) -> (r: Vec<Target>)
    ensures
        is_sorted(rust_project::target_names(r@)),
        forall|s: Seq<char>| #[trigger]
            rust_project::target_names(r@).contains(s) <==> in_groups(
                groups@,
                groups@.len() as int,
                s,
            ),
{
    let mut out: Vec<Target> = Vec::new();
    let mut i: usize = 0;
    while i < groups.len()
        invariant
            i <= groups@.len(),
            is_sorted(rust_project::target_names(out@)),
            forall|s: Seq<char>| #[trigger]
                rust_project::target_names(out@).contains(s) <==> in_groups(groups@, i as int, s),
        decreases groups@.len() - i,
    {
        let ghost before = rust_project::target_names(out@);
        let ghost here = rust_project::target_names(groups@[i as int].1@);
        let mut j: usize = 0;
        while j < groups[i].1.len()
            invariant
                i < groups@.len(),
                j <= groups@[i as int].1@.len(),
                here == rust_project::target_names(groups@[i as int].1@),
                is_sorted(rust_project::target_names(out@)),
                forall|s: Seq<char>| #[trigger]
                    rust_project::target_names(out@).contains(s) <==> (before.contains(s)
                        || here.take(j as int).contains(s)),
            decreases groups@[i as int].1@.len() - j,
        {
            let ghost so_far = rust_project::target_names(out@);
            insert_sorted(&mut out, groups[i].1[j].dupe());
            proof {
                let p = here.take(j as int);
                let q = here.take(j + 1);
                assert(q =~= p.push(here[j as int]));
                assert forall|s: Seq<char>| #[trigger]
                    rust_project::target_names(out@).contains(s) <==> (before.contains(s)
                        || q.contains(s)) by {
                    assert(so_far.contains(s) <==> (before.contains(s) || p.contains(s)));
                    if p.contains(s) {
                        let k = choose|k: int| 0 <= k < p.len() && p[k] == s;
                        assert(q[k] == s);
                    }
                    if s == here[j as int] {
                        assert(q[j as int] == s);
                    }
                    if q.contains(s) && s != here[j as int] {
                        let k = choose|k: int| 0 <= k < q.len() && q[k] == s;
                        assert(p[k] == s);
                    }
                }
            }
            j = j + 1;
        }
        proof {
            assert(here.take(here.len() as int) =~= here);
            assert forall|s: Seq<char>| #[trigger]
                rust_project::target_names(out@).contains(s) <==> in_groups(
                    groups@,
                    i + 1,
                    s,
                ) by {
                assert(before.contains(s) <==> in_groups(groups@, i as int, s));
                if in_groups(groups@, i as int, s) {
                    let k = choose|k: int|
                        0 <= k < i && rust_project::target_names(
                            (#[trigger] groups@[k]).1@,
                        ).contains(s);
                    assert(rust_project::target_names(groups@[k].1@).contains(s));
                }
                if here.contains(s) {
                    assert(rust_project::target_names(groups@[i as int].1@).contains(s));
                }
                if in_groups(groups@, i + 1, s) && !here.contains(s) {
                    let k = choose|k: int|
                        0 <= k < i + 1 && rust_project::target_names(
                            (#[trigger] groups@[k]).1@,
                        ).contains(s);
                    assert(k < i);
                }
            }
        }
        i = i + 1;
    }
    out
}

/// Paths in their canonical form; one that has none stays as it is.
pub fn canonical_files(files: Vec<(String, Option<String>)>) -> (r: Vec<String>)
    ensures
        r@.len() == files@.len(),
        forall|i: int|
            0 <= i < r@.len() ==> #[trigger] r@[i] == (match files@[i].1 {
                Some(path) => path,
                None => files@[i].0,
            }),
{
    let ghost all = files@;
    let mut out: Vec<String> = Vec::new();
    for file in it: files
        invariant
            it.seq() == all,
            all == files@,
            out@.len() == it.index(),
            forall|i: int|
                0 <= i < out@.len() ==> #[trigger] out@[i] == (match all[i].1 {
                    Some(path) => path,
                    None => all[i].0,
                }),
    {
        match file.1 {
            Some(path) => out.push(path),
            None => out.push(file.0),
        }
    }
    out
}

/// What is described, and in how many parts.
pub enum RunPlan {
    /// One project for each build file, one after the other.
    PerBuildfile(Vec<(String, Vec<Target>)>),
    /// One project for all.
    Whole(Vec<Target>),
}

/// No target owns what was asked for.
#[derive(Debug)]
pub struct NoOwningTarget {
    /// What was asked for, as it is shown.
    pub input: String,
}

impl NoOwningTarget {
    /// The message shown for the error.
    pub fn message(&self) -> (r: &'static str)
        ensures
            r@ == "No owning target found"@,
    {
        "No owning target found"
    }

    /// What was being done when the error came up.
    pub fn context(&self) -> (r: String)
        ensures
            r@ == "Could not find owning target for "@ + self.input@,
    {
        text::concat2("Could not find owning target for ", self.input.as_str())
    }
}

impl Develop {
    /// What to describe, once the owning targets are known.
    pub fn plan_run(&self, targets: Vec<(String, Vec<Target>)>, input: String) -> (r: Result<
        RunPlan,
        NoOwningTarget,
    >)
        ensures
            match r {
                Err(e) => targets@.len() == 0 && e.input == input,
                Ok(RunPlan::PerBuildfile(groups)) => {
                    &&& targets@.len() > 0
                    &&& self.invoked_by_ra
                    &&& groups == targets
                },
                Ok(RunPlan::Whole(all)) => {
                    &&& targets@.len() > 0
                    &&& !self.invoked_by_ra
                    &&& is_sorted(rust_project::target_names(all@))
                    &&& forall|s: Seq<char>| #[trigger]
                        rust_project::target_names(all@).contains(s) <==> in_groups(
                            targets@,
                            targets@.len() as int,
                            s,
                        )
                },
            },
    {
        if targets.len() == 0 {
            Err(NoOwningTarget { input })
        } else if self.invoked_by_ra {
            Ok(RunPlan::PerBuildfile(targets))
        } else {
            Ok(RunPlan::Whole(merged_targets(&targets)))
        }
    }
}

/// A path without the separators and the parts `.` at its beginning.
pub open spec fn relative_rest(s: Seq<char>) -> Seq<char>
    decreases s.len(),
{
    if s.len() > 0 && s[0] == '/' {
        relative_rest(s.subrange(1, s.len() as int))
    } else if s.len() == 1 && s[0] == '.' {
        Seq::empty()
    } else if s.len() > 1 && s[0] == '.' && s[1] == '/' {
        relative_rest(s.subrange(2, s.len() as int))
    } else {
        s
    }
}

/// A path without the separators and the parts `.` at its end.
pub open spec fn trimmed_end(s: Seq<char>) -> Seq<char>
    decreases s.len(),
{
    if s.len() > 0 && s.last() == '/' {
        trimmed_end(s.subrange(0, s.len() - 1))
    } else if s.len() > 1 && s.last() == '.' && s[s.len() - 2] == '/' {
        trimmed_end(s.subrange(0, s.len() - 2))
    } else {
        s
    }
}

/// What a path says below its first part, when `s` follows that part.
pub open spec fn below_first(s: Seq<char>) -> Seq<char> {
    trimmed_end(relative_rest(s))
}

/// The first part of a path is `~`.
pub open spec fn begins_with_tilde(path: Seq<char>) -> bool {
    path.len() > 0 && path[0] == '~' && (path.len() == 1 || path[1] == '/')
}

/// `rest` in the directory `home`.
pub open spec fn joined_path(home: Seq<char>, rest: Seq<char>) -> Seq<char> {
    if home.len() == 0 || home.last() == '/' {
        home + rest
    } else {
        home + "/"@ + rest
    }
}

fn skip_to_relative(s: &str) -> (r: &str)
    ensures
        r@ == relative_rest(s@),
{
    let n: usize = s.unicode_len();
    let mut i: usize = 0;
    assert(s@.subrange(0, s@.len() as int) =~= s@);
    while i < n
        invariant
            n == s@.len(),
            i <= n,
            relative_rest(s@) == relative_rest(s@.subrange(i as int, n as int)),
        decreases n - i,
    {
        let ghost rest = s@.subrange(i as int, n as int);
        let c = s.get_char(i);
        if c == '/' {
            assert(rest.subrange(1, rest.len() as int) =~= s@.subrange(i + 1, n as int));
            i = i + 1;
        } else if c == '.' && i + 1 == n {
            assert(s@.subrange(n as int, n as int) =~= Seq::empty());
            return s.substring_char(n, n);
        } else if c == '.' && s.get_char(i + 1) == '/' {
            assert(rest.subrange(2, rest.len() as int) =~= s@.subrange(i + 2, n as int));
            i = i + 2;
        } else {
            return s.substring_char(i, n);
        }
    }
    assert(s@.subrange(n as int, n as int) =~= Seq::empty());
    s.substring_char(n, n)
}

fn trim_end(s: &str) -> (r: &str)
    ensures
        r@ == trimmed_end(s@),
{
    let mut n: usize = s.unicode_len();
    assert(s@.subrange(0, n as int) =~= s@);
    while n > 0
        invariant
            n <= s@.len(),
            trimmed_end(s@) == trimmed_end(s@.subrange(0, n as int)),
        decreases n,
    {
        let ghost front = s@.subrange(0, n as int);
        let c = s.get_char(n - 1);
        if c == '/' {
            assert(front.subrange(0, front.len() - 1) =~= s@.subrange(0, n - 1));
            n = n - 1;
        } else if c == '.' && n > 1 && s.get_char(n - 2) == '/' {
            assert(front.subrange(0, front.len() - 2) =~= s@.subrange(0, n - 2));
            n = n - 2;
        } else {
            return s.substring_char(0, n);
        }
    }
    s.substring_char(0, n)
}

/// A path with the home directory in place of a `~` at its beginning. Without such a beginning
/// the home directory does not matter.
pub fn expand_tilde(path: &String, home: Result<&String, String>) -> (r: Result<String, String>)
    ensures
        if begins_with_tilde(path@) {
            match home {
                Ok(home) => r matches Ok(p) && p@ == joined_path(
                    home@,
                    below_first(path@.subrange(1, path@.len() as int)),
                ),
                Err(e) => r == Err::<String, String>(e),
            }
        } else {
            r == Ok::<String, String>(*path)
        },
{
    let s = path.as_str();
    let n: usize = s.unicode_len();
    if n > 0 && s.get_char(0) == '~' && (n == 1 || s.get_char(1) == '/') {
        match home {
            Ok(home) => {
                let rest = trim_end(skip_to_relative(s.substring_char(1, n)));
                let h = home.as_str();
                let m: usize = h.unicode_len();
                if m == 0 || h.get_char(m - 1) == '/' {
                    Ok(text::concat2(h, rest))
                } else {
                    Ok(text::concat3(h, "/", rest))
                }
            },
            Err(e) => Err(e),
        }
    } else {
        Ok(path.clone())
    }
}

/// Where the standard library is: what was compiled, and the sources of it where they are known.
#[derive(Debug)]
pub struct Sysroot {
    pub sysroot: String,
    pub sysroot_src: Option<String>,
}

/// How the sysroot is found.
#[derive(Debug)]
pub enum SysrootRequest {
    /// Take this path in canonical form.
    Canonical(String),
    /// Ask the build.
    BuckConfig { project_root: String, relative: bool },
    /// Ask `rustup`.
    Rustup,
}

/// Targets that were expanded, with what was resolved of them.
#[derive(Debug)]
pub struct Expanded<E> {
    pub expanded_targets: Arc<Vec<Target>>,
    pub resolved: E,
}

/// How far the description of a project is.
pub enum InnerStage<E, A> {
    /// These targets are to be described.
    ProjectRoot(Vec<Target>),
    /// The project root is known.
    Expand(String),
    /// So are the targets with all that they need.
    Aliased(String, Expanded<E>),
    /// So are the libraries with aliases. The sysroot is a path that was given.
    CanonicalSysroot(String, Expanded<E>, A),
    /// The path in canonical form is made relative.
    RelativeSysroot(Expanded<E>, A),
    /// The sysroot is asked for.
    Sysroot(Expanded<E>, A),
    Done,
}

/// What came of what was asked for.
pub enum InnerEvent<E, A> {
    ProjectRoot(Result<String, String>),
    Expanded(Result<Expanded<E>, String>),
    Aliased(Result<A, String>),
    Canonical(Result<String, String>),
    Relative(String),
    Sysroot(Result<Sysroot, String>),
}

/// What is asked for next.
pub enum InnerRequest<E, A> {
    /// Find the project root.
    FindProjectRoot,
    /// Resolve the targets and what they need.
    ExpandAndResolve(Vec<Target>),
    /// Find the libraries with aliases among the expanded targets.
    QueryAliasedLibraries(Arc<Vec<Target>>),
    FindSysroot(SysrootRequest),
    /// How the path is written relative to the base.
    MakeRelative { path: String, base: String },
    /// Put everything together.
    Convert {
        sysroot: Sysroot,
        expanded: Expanded<E>,
        aliased: A,
        relative_paths: bool,
        check_cycles: bool,
    },
    /// Give up.
    Fail(String),
}

/// An event that can come at a stage.
pub open spec fn inner_answers<E, A>(stage: InnerStage<E, A>, event: InnerEvent<E, A>) -> bool {
    match stage {
        InnerStage::ProjectRoot(_) => event is ProjectRoot,
        InnerStage::Expand(_) => event is Expanded,
        InnerStage::Aliased(_, _) => event is Aliased,
        InnerStage::CanonicalSysroot(_, _, _) => event is Canonical,
        InnerStage::RelativeSysroot(_, _) => event is Relative,
        InnerStage::Sysroot(_, _) => event is Sysroot,
        InnerStage::Done => false,
    }
}

/// Everything is there to be put together.
pub open spec fn inner_converts<E, A>(
    develop: Develop,
    sysroot: Sysroot,
    expanded: Expanded<E>,
    aliased: A,
    next: InnerStage<E, A>,
    request: InnerRequest<E, A>,
) -> bool {
    &&& next is Done
    &&& request == (InnerRequest::<E, A>::Convert {
        sysroot,
        expanded,
        aliased,
        relative_paths: develop.relative_paths,
        check_cycles: develop.check_cycles,
    })
}

/// What follows an event. `home` is the home directory, or why it is not known.
pub open spec fn inner_follows<E, A>(
    develop: Develop,
    home: Result<String, String>,
    stage: InnerStage<E, A>,
    event: InnerEvent<E, A>,
    next: InnerStage<E, A>,
    request: InnerRequest<E, A>,
) -> bool {
    match (stage, event) {
        (InnerStage::ProjectRoot(targets), InnerEvent::ProjectRoot(Ok(root))) => {
            &&& next == InnerStage::<E, A>::Expand(root)
            &&& request == InnerRequest::<E, A>::ExpandAndResolve(targets)
        },
        (InnerStage::Expand(root), InnerEvent::Expanded(Ok(e))) => {
            &&& next == InnerStage::<E, A>::Aliased(root, e)
            &&& request == InnerRequest::<E, A>::QueryAliasedLibraries(e.expanded_targets)
        },
        (InnerStage::Aliased(root, e), InnerEvent::Aliased(Ok(a))) => match develop.sysroot {
            SysrootConfig::Sysroot(path) => if begins_with_tilde(path@) && home is Err {
                next is Done && request == InnerRequest::<E, A>::Fail(home->Err_0)
            } else {
                &&& next == InnerStage::<E, A>::CanonicalSysroot(root, e, a)
                &&& request matches InnerRequest::FindSysroot(SysrootRequest::Canonical(p))
                &&& p@ == (if begins_with_tilde(path@) {
                    joined_path(
                        home->Ok_0@,
                        below_first(path@.subrange(1, path@.len() as int)),
                    )
                } else {
                    path@
                })
            },
            SysrootConfig::BuckConfig => {
                &&& next == InnerStage::<E, A>::Sysroot(e, a)
                &&& request == InnerRequest::<E, A>::FindSysroot(
                    SysrootRequest::BuckConfig {
                        project_root: root,
                        relative: develop.relative_paths,
                    },
                )
            },
            SysrootConfig::Rustup => {
                &&& next == InnerStage::<E, A>::Sysroot(e, a)
                &&& request == InnerRequest::<E, A>::FindSysroot(SysrootRequest::Rustup)
            },
        },
        // A given path has no sources beside it.
        (InnerStage::CanonicalSysroot(root, e, a), InnerEvent::Canonical(Ok(path))) =>
            if develop.relative_paths {
                &&& next == InnerStage::<E, A>::RelativeSysroot(e, a)
                &&& request == (InnerRequest::<E, A>::MakeRelative { path, base: root })
            } else {
                inner_converts(
                    develop,
                    Sysroot { sysroot: path, sysroot_src: None },
                    e,
                    a,
                    next,
                    request,
                )
            },
        (InnerStage::RelativeSysroot(e, a), InnerEvent::Relative(path)) => inner_converts(
            develop,
            Sysroot { sysroot: path, sysroot_src: None },
            e,
            a,
            next,
            request,
        ),
        (InnerStage::Sysroot(e, a), InnerEvent::Sysroot(Ok(sysroot))) => inner_converts(
            develop,
            sysroot,
            e,
            a,
            next,
            request,
        ),
        (_, InnerEvent::ProjectRoot(Err(e))) => next is Done && request == InnerRequest::<
            E,
            A,
        >::Fail(e),
        (_, InnerEvent::Expanded(Err(e))) => next is Done && request == InnerRequest::<
            E,
            A,
        >::Fail(e),
        (_, InnerEvent::Aliased(Err(e))) => next is Done && request == InnerRequest::<E, A>::Fail(
            e,
        ),
        (_, InnerEvent::Canonical(Err(e))) => next is Done && request == InnerRequest::<
            E,
            A,
        >::Fail(e),
        (_, InnerEvent::Sysroot(Err(e))) => next is Done && request == InnerRequest::<E, A>::Fail(
            e,
        ),
        _ => true,
    }
}

impl Develop {
    /// Starts to describe the targets.
    pub fn start_inner<E, A>(targets: Vec<Target>) -> (r: (InnerStage<E, A>, InnerRequest<E, A>))
        ensures
            r.0 == InnerStage::<E, A>::ProjectRoot(targets),
            r.1 is FindProjectRoot,
    {
        (InnerStage::ProjectRoot(targets), InnerRequest::FindProjectRoot)
    }

    fn convert<E, A>(&self, sysroot: Sysroot, expanded: Expanded<E>, aliased: A) -> (r: (
        InnerStage<E, A>,
        InnerRequest<E, A>,
    ))
        ensures
            inner_converts(*self, sysroot, expanded, aliased, r.0, r.1),
    {
        (
            InnerStage::Done,
            InnerRequest::Convert {
                sysroot,
                expanded,
                aliased,
                relative_paths: self.relative_paths,
                check_cycles: self.check_cycles,
            },
        )
    }

    /// The next step of describing a project.
    pub fn run_inner<E, A>(
        &self,
        home: &Result<String, String>,
        stage: InnerStage<E, A>,
        event: InnerEvent<E, A>,
    ) -> (r: (InnerStage<E, A>, InnerRequest<E, A>))
        requires
            inner_answers(stage, event),
        ensures
            inner_follows(*self, *home, stage, event, r.0, r.1),
    {
        match (stage, event) {
            (InnerStage::ProjectRoot(targets), InnerEvent::ProjectRoot(Ok(root))) => (
                InnerStage::Expand(root),
                InnerRequest::ExpandAndResolve(targets),
            ),
            (InnerStage::Expand(root), InnerEvent::Expanded(Ok(e))) => {
                let targets = e.expanded_targets.clone();
                (InnerStage::Aliased(root, e), InnerRequest::QueryAliasedLibraries(targets))
            },
            (InnerStage::Aliased(root, e), InnerEvent::Aliased(Ok(a))) => match &self.sysroot {
                SysrootConfig::Sysroot(path) => {
                    let home: Result<&String, String> = match home {
                        Ok(h) => Ok(h),
                        Err(err) => Err(err.clone()),
                    };
                    match expand_tilde(path, home) {
                        Ok(path) => (
                            InnerStage::CanonicalSysroot(root, e, a),
                            InnerRequest::FindSysroot(SysrootRequest::Canonical(path)),
                        ),
                        Err(err) => (InnerStage::Done, InnerRequest::Fail(err)),
                    }
                },
                SysrootConfig::BuckConfig => (
                    InnerStage::Sysroot(e, a),
                    InnerRequest::FindSysroot(
                        SysrootRequest::BuckConfig {
                            project_root: root,
                            relative: self.relative_paths,
                        },
                    ),
                ),
                SysrootConfig::Rustup => (
                    InnerStage::Sysroot(e, a),
                    InnerRequest::FindSysroot(SysrootRequest::Rustup),
                ),
            },
            (InnerStage::CanonicalSysroot(root, e, a), InnerEvent::Canonical(Ok(path))) =>
                if self.relative_paths {
                    (
                        InnerStage::RelativeSysroot(e, a),
                        InnerRequest::MakeRelative { path, base: root },
                    )
                } else {
                    self.convert(Sysroot { sysroot: path, sysroot_src: None }, e, a)
                },
            (InnerStage::RelativeSysroot(e, a), InnerEvent::Relative(path)) => self.convert(
                Sysroot { sysroot: path, sysroot_src: None },
                e,
                a,
            ),
            (InnerStage::Sysroot(e, a), InnerEvent::Sysroot(Ok(sysroot))) => self.convert(
                sysroot,
                e,
                a,
            ),
            (_, InnerEvent::ProjectRoot(Err(e))) => (InnerStage::Done, InnerRequest::Fail(e)),
            (_, InnerEvent::Expanded(Err(e))) => (InnerStage::Done, InnerRequest::Fail(e)),
            (_, InnerEvent::Aliased(Err(e))) => (InnerStage::Done, InnerRequest::Fail(e)),
            (_, InnerEvent::Canonical(Err(e))) => (InnerStage::Done, InnerRequest::Fail(e)),
            (_, InnerEvent::Sysroot(Err(e))) => (InnerStage::Done, InnerRequest::Fail(e)),
            (_, _) => (InnerStage::Done, InnerRequest::FindProjectRoot),
        }
    }
}

/// A number that is shown in digits is read back, with or without a sign before it, as long as it
/// fits; a text that is empty or has anything but digits behind a sign is no number.
pub proof fn law_numbers_are_read_back(n: nat, s: Seq<char>, i: int)
    ensures
        n <= usize::MAX ==> parsed_usize(text::decimal_chars(n)) == Some(n as usize),
        n <= usize::MAX ==> parsed_usize("+"@ + text::decimal_chars(n)) == Some(n as usize),
        n > usize::MAX ==> parsed_usize(text::decimal_chars(n)) is None,
        s.len() == 0 ==> parsed_usize(s) is None && parsed_usize("+"@ + s) is None,
        0 <= i < s.len() && !('0' <= s[i] <= '9') && !(i == 0 && s[i] == '+') ==> parsed_usize(
            s,
        ) is None,
{
    reveal_strlit("+");
    lemma_decimal_digits(n);
    let d = text::decimal_chars(n);
    assert(d[0] != '+');
    let p = "+"@ + d;
    text::law_beginnings_and_ends(p, "+"@, d);
    assert(p.subrange(1, p.len() as int) =~= d);
    let q = "+"@ + s;
    text::law_beginnings_and_ends(q, "+"@, s);
    assert(q.subrange(1, q.len() as int) =~= s);
    if 0 <= i < s.len() && !('0' <= s[i] <= '9') && !(i == 0 && s[i] == '+') {
        if text::has_prefix(s, "+"@) {
            let t = s.subrange(1, s.len() as int);
            assert(s[0] == "+"@[0]);
            assert(t[i - 1] == s[i]);
        }
    }
}

/// What a number is shown as is read as that number.
proof fn lemma_decimal_digits(n: nat)
    ensures
        text::decimal_chars(n).len() > 0,
        all_digits(text::decimal_chars(n)),
        digits_value(text::decimal_chars(n)) == n,
    decreases n,
{
    let d = text::decimal_chars(n);
    if n < 10 {
        text::law_digits_of_a_number(0, n, 0);
        assert(d.drop_last() =~= Seq::<char>::empty());
        assert(digits_value(d.drop_last()) == 0);
        assert(digits_value(d) == 0 * 10 + digit_value(d.last()));
    } else {
        lemma_decimal_digits(n / 10);
        text::law_digits_of_a_number(n / 10, n % 10, 0);
        assert(10 * (n / 10) + n % 10 == n);
        let h = text::decimal_chars(n / 10);
        assert(d == h.push(text::digit_char(n % 10)));
        assert(d.drop_last() =~= h);
        assert forall|k: int| 0 <= k < d.len() implies '0' <= #[trigger] d[k] <= '9' by {
            if k < h.len() {
                assert(d[k] == h[k]);
            }
        }
    }
}

/// Texts are ordered by the first character in which they differ; a text comes before those that
/// it begins, and none before itself.
pub proof fn law_order_of_texts(a: Seq<char>, b: Seq<char>, c: Seq<char>, x: char, y: char)
    ensures
        !text_less(a, a),
        c.len() > 0 ==> text_less(a, a + c),
        !text_less(a + c, a),
        x < y ==> text_less(a.push(x) + b, a.push(y) + c),
        x < y ==> !text_less(a.push(y) + c, a.push(x) + b),
    decreases a.len(),
{
    let p = a.push(x) + b;
    let q = a.push(y) + c;
    if a.len() > 0 {
        let rest = a.subrange(1, a.len() as int);
        law_order_of_texts(rest, b, c, x, y);
        assert((a + c).subrange(1, (a + c).len() as int) =~= rest + c);
        assert(p.subrange(1, p.len() as int) =~= rest.push(x) + b);
        assert(q.subrange(1, q.len() as int) =~= rest.push(y) + c);
        assert(p[0] == a[0] && q[0] == a[0] && (a + c)[0] == a[0]);
    } else {
        assert(p[0] == x && q[0] == y);
    }
}

/// The targets that are run on are those of all build files: each of every group, and no others.
pub proof fn law_every_group_counts(
    groups: Seq<(String, Vec<Target>)>,
    i: int,
    j: int,
    name: Seq<char>,
)
    ensures
        0 <= i < groups.len() && 0 <= j < groups[i].1@.len() ==> in_groups(
            groups,
            groups.len() as int,
            groups[i].1@[j].0@,
        ),
        in_groups(groups, groups.len() as int, name) ==> exists|k: int, l: int|
            #![trigger groups[k].1@[l]]
            0 <= k < groups.len() && 0 <= l < groups[k].1@.len() && groups[k].1@[l].0@ == name,
{
    if 0 <= i < groups.len() && 0 <= j < groups[i].1@.len() {
        let names = rust_project::target_names(groups[i].1@);
        assert(names[j] == groups[i].1@[j].0@);
        assert(names.contains(groups[i].1@[j].0@));
    }
    if in_groups(groups, groups.len() as int, name) {
        let k = choose|k: int|
            0 <= k < groups.len() && rust_project::target_names(
                (#[trigger] groups[k]).1@,
            ).contains(name);
        let names = rust_project::target_names(groups[k].1@);
        let l = choose|l: int| 0 <= l < names.len() && names[l] == name;
        assert(groups[k].1@[l].0@ == name);
    }
}

/// Each build file keeps its owners, a target once and without those whose unit tests are there.
pub proof fn law_every_build_file_keeps_its_owners(
    m: Map<Seq<char>, Seq<Seq<char>>>,
    file: Seq<char>,
    name: Seq<char>,
)
    ensures
        deduped_map(m).contains_key(file) <==> m.contains_key(file),
        m.contains_key(file) ==> (deduped_map(m)[file].contains(name) <==> m[file].contains(name)
            && !m[file].contains(name + "-unittest"@)),
{
    if m.contains_key(file) {
        rust_project::law_deduped_keeps_the_rest(m[file], name);
    }
}

/// A path below the home directory is joined to it by one separator.
pub proof fn law_path_below_home(home: Seq<char>, rest: Seq<char>)
    requires
        rest.len() > 0,
        rest[0] != '/',
        rest[0] != '.',
        rest.last() != '/',
        rest.last() != '.',
    ensures
        begins_with_tilde(seq!['~', '/'] + rest),
        rest[0] != '~' ==> !begins_with_tilde(rest),
        !begins_with_tilde(seq!['~'] + rest),
        below_first((seq!['~', '/'] + rest).subrange(1, 2 + rest.len() as int)) == rest,
        home.len() > 0 && home.last() != '/' ==> joined_path(home, rest) == home + seq!['/'] + rest,
        home.len() > 0 && home.last() == '/' ==> joined_path(home, rest) == home + rest,
        joined_path(Seq::empty(), rest) == rest,
{
    reveal_strlit("/");
    let p = seq!['~', '/'] + rest;
    let s = p.subrange(1, 2 + rest.len() as int);
    assert(s.subrange(1, s.len() as int) =~= rest);
    reveal_with_fuel(relative_rest, 2);
    assert((seq!['~'] + rest)[1] == rest[0]);
    assert("/"@ =~= seq!['/']);
    assert(Seq::<char>::empty() + rest =~= rest);
}

/// Separators and steps in place around a path are left out.
pub proof fn law_steps_in_place_are_left_out(rest: Seq<char>)
    ensures
        relative_rest(seq!['/'] + rest) == relative_rest(rest),
        relative_rest(seq!['.', '/'] + rest) == relative_rest(rest),
        relative_rest(seq!['.']) == Seq::<char>::empty(),
        trimmed_end(rest + seq!['/']) == trimmed_end(rest),
        trimmed_end(rest + seq!['/', '.']) == trimmed_end(rest),
        below_first(rest) == trimmed_end(relative_rest(rest)),
{
    let a = seq!['/'] + rest;
    assert(a.subrange(1, a.len() as int) =~= rest);
    let b = seq!['.', '/'] + rest;
    assert(b.subrange(2, b.len() as int) =~= rest);
    let c = rest + seq!['/'];
    assert(c.subrange(0, c.len() - 1) =~= rest);
    let d = rest + seq!['/', '.'];
    assert(d.subrange(0, d.len() - 2) =~= rest);
}

/// The stages of a run follow each other: the targets are expanded in the project, the aliased
/// libraries are asked for the targets that came of it, and then the sysroot is found.
pub proof fn law_order_of_a_run<E, A>(
    develop: Develop,
    home: Result<String, String>,
    targets: Vec<Target>,
    root: String,
    e: Expanded<E>,
    a: A,
    next: InnerStage<E, A>,
    request: InnerRequest<E, A>,
)
    ensures
        inner_follows(
            develop,
            home,
            InnerStage::ProjectRoot(targets),
            InnerEvent::ProjectRoot(Ok(root)),
            next,
            request,
        ) ==> next == InnerStage::<E, A>::Expand(root) && request
            == InnerRequest::<E, A>::ExpandAndResolve(targets),
        inner_follows(
            develop,
            home,
            InnerStage::Expand(root),
            InnerEvent::Expanded(Ok(e)),
            next,
            request,
        ) ==> next == InnerStage::<E, A>::Aliased(root, e) && request
            == InnerRequest::<E, A>::QueryAliasedLibraries(e.expanded_targets),
        inner_follows(
            develop,
            home,
            InnerStage::Aliased(root, e),
            InnerEvent::Aliased(Ok(a)),
            next,
            request,
        ) ==> match develop.sysroot {
            SysrootConfig::Rustup => next == InnerStage::<E, A>::Sysroot(e, a) && request
                == InnerRequest::<E, A>::FindSysroot(SysrootRequest::Rustup),
            SysrootConfig::BuckConfig => next == InnerStage::<E, A>::Sysroot(e, a) && request
                == InnerRequest::<E, A>::FindSysroot(
                SysrootRequest::BuckConfig { project_root: root, relative: develop.relative_paths },
            ),
            SysrootConfig::Sysroot(path) => {
                &&& path@.len() > 0 && path@[0] != '~' ==> {
                    &&& next == InnerStage::<E, A>::CanonicalSysroot(root, e, a)
                    &&& request is FindSysroot
                    &&& request->FindSysroot_0 is Canonical
                    &&& request->FindSysroot_0->Canonical_0@ == path@
                }
                &&& next is Done <==> begins_with_tilde(path@) && home is Err
            },
        },
{
}

/// All that was found goes into what is written: the sysroot that was found, or else the one that
/// was given, as a path from the project where paths are relative.
pub proof fn law_everything_found_is_written<E, A>(
    develop: Develop,
    home: Result<String, String>,
    root: String,
    path: String,
    sysroot: Sysroot,
    e: Expanded<E>,
    a: A,
    next: InnerStage<E, A>,
    request: InnerRequest<E, A>,
)
    ensures
        inner_follows(
            develop,
            home,
            InnerStage::Sysroot(e, a),
            InnerEvent::Sysroot(Ok(sysroot)),
            next,
            request,
        ) ==> next is Done && request == (InnerRequest::<E, A>::Convert {
            sysroot,
            expanded: e,
            aliased: a,
            relative_paths: develop.relative_paths,
            check_cycles: develop.check_cycles,
        }),
        inner_follows(
            develop,
            home,
            InnerStage::CanonicalSysroot(root, e, a),
            InnerEvent::Canonical(Ok(path)),
            next,
            request,
        ) ==> if develop.relative_paths {
            next == InnerStage::<E, A>::RelativeSysroot(e, a) && request == (InnerRequest::<
                E,
                A,
            >::MakeRelative { path, base: root })
        } else {
            next is Done && request == (InnerRequest::<E, A>::Convert {
                sysroot: Sysroot { sysroot: path, sysroot_src: None },
                expanded: e,
                aliased: a,
                relative_paths: false,
                check_cycles: develop.check_cycles,
            })
        },
        inner_follows(
            develop,
            home,
            InnerStage::RelativeSysroot(e, a),
            InnerEvent::Relative(path),
            next,
            request,
        ) ==> next is Done && request == (InnerRequest::<E, A>::Convert {
            sysroot: Sysroot { sysroot: path, sysroot_src: None },
            expanded: e,
            aliased: a,
            relative_paths: develop.relative_paths,
            check_cycles: develop.check_cycles,
        }),
{
}

/// A failure of any step ends the run with what it says.
pub proof fn law_first_failure_ends_a_run<E, A>(
    develop: Develop,
    home: Result<String, String>,
    stage: InnerStage<E, A>,
    reason: String,
    next: InnerStage<E, A>,
    request: InnerRequest<E, A>,
)
    ensures
        inner_follows(develop, home, stage, InnerEvent::ProjectRoot(Err(reason)), next, request)
            || inner_follows(develop, home, stage, InnerEvent::Expanded(Err(reason)), next, request)
            || inner_follows(develop, home, stage, InnerEvent::Aliased(Err(reason)), next, request)
            || inner_follows(develop, home, stage, InnerEvent::Canonical(Err(reason)), next, request)
            || inner_follows(develop, home, stage, InnerEvent::Sysroot(Err(reason)), next, request)
            ==> next is Done && request == InnerRequest::<E, A>::Fail(reason),
{
}

} // verus!
