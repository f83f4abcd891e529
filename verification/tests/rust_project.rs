use std::sync::Arc;

use buck2::build_info::build_info;
use buck2::build_info::fb_build_info_from_elf;
use buck2::build_info::show_build_info;
use buck2::build_info::terminated_text;
use buck2::build_info::BuildInfoError;
use buck2::develop::canonical_files;
use buck2::develop::deduped_groups;
use buck2::develop::expand_tilde;
use buck2::develop::max_extra_targets;
use buck2::develop::merged_targets;
use buck2::develop::parse_usize;
use buck2::develop::related_targets;
use buck2::develop::Command;
use buck2::develop::Develop;
use buck2::develop::Expanded;
use buck2::develop::InnerEvent;
use buck2::develop::InnerRequest;
use buck2::develop::InnerStage;
use buck2::develop::Input;
use buck2::develop::JsonArguments;
use buck2::develop::Output;
use buck2::develop::RunPlan;
use buck2::develop::Sysroot;
use buck2::develop::SysrootConfig;
use buck2::develop::SysrootRequest;
use buck2::rust_project::dedupe_targets;
use buck2::rust_project::Target;

fn target(name: &str) -> Target {
    Target::new(name.to_owned())
}

fn targets(names: &[&str]) -> Vec<Target> {
    names.iter().map(|n| target(n)).collect()
}

#[test]
fn test_dedupe_unittest() {
    let targets = vec![
        Target::new("foo-unittest".to_owned()),
        Target::new("bar".to_owned()),
        Target::new("foo".to_owned()),
        Target::new("baz-unittest".to_owned()),
    ];

    let expected = vec![
        Target::new("foo-unittest".to_owned()),
        Target::new("bar".to_owned()),
        Target::new("baz-unittest".to_owned()),
    ];

    assert_eq!(dedupe_targets(&targets), expected);
}

#[test]
fn duplicates_keep_their_first_place() {
    assert_eq!(
        dedupe_targets(&targets(&["b", "a", "b", "c", "a"])),
        targets(&["b", "a", "c"])
    );
    assert_eq!(dedupe_targets(&vec![]), vec![]);
}

#[test]
fn every_group_is_deduplicated() {
    let given = || {
        vec![
            ("x/BUCK".to_owned(), targets(&["a", "a-unittest", "a"])),
            ("y/BUCK".to_owned(), targets(&["a"])),
        ]
    };
    let groups = deduped_groups(given());
    assert_eq!(groups[0], ("x/BUCK".to_owned(), targets(&["a-unittest"])));
    assert_eq!(groups[1], ("y/BUCK".to_owned(), targets(&["a"])));
    let mut owners = rustc_hash::FxHashMap::default();
    for (file, targets) in given() {
        owners.insert(file, targets);
    }
    let mut walked = related_targets(owners);
    walked.sort_by(|a, b| a.0.cmp(&b.0));
    assert_eq!(walked, groups);
}

#[test]
fn merged_targets_are_sorted_and_distinct() {
    let groups = vec![
        ("x".to_owned(), targets(&["c", "a"])),
        ("y".to_owned(), targets(&["ab", "c", ""])),
    ];
    assert_eq!(merged_targets(&groups), targets(&["", "a", "ab", "c"]));
}

#[test]
fn extra_targets_come_from_the_variable() {
    assert_eq!(max_extra_targets(None), 50);
    assert_eq!(max_extra_targets(Some("7")), 7);
    assert_eq!(max_extra_targets(Some("+12")), 12);
    assert_eq!(max_extra_targets(Some("many")), 50);
    assert_eq!(max_extra_targets(Some("")), 50);
    assert_eq!(max_extra_targets(Some("-1")), 50);
    assert_eq!(parse_usize("18446744073709551615"), "18446744073709551615".parse().ok());
    assert_eq!(parse_usize("18446744073709551616"), None);
    assert_eq!(parse_usize("+"), None);
}

#[test]
fn tilde_stands_for_the_home_directory() {
    let home = "/home/me".to_owned();
    let expand = |p: &str| expand_tilde(&p.to_owned(), Ok(&home)).unwrap();
    assert_eq!(expand("~/rust"), "/home/me/rust");
    assert_eq!(expand("~//./rust"), "/home/me/rust");
    assert_eq!(expand("~/a/"), "/home/me/a");
    assert_eq!(expand("~/a/./b//."), "/home/me/a/./b");
    assert_eq!(expand("~/a./.."), "/home/me/a./..");
    assert_eq!(expand("~"), "/home/me/");
    assert_eq!(expand("~/"), "/home/me/");
    assert_eq!(expand("~other/rust"), "~other/rust");
    assert_eq!(expand("/usr"), "/usr");
    assert_eq!(
        expand_tilde(&"~/rust".to_owned(), Err("no home".to_owned())),
        Err("no home".to_owned())
    );
    assert_eq!(expand_tilde(&"/usr".to_owned(), Err("no home".to_owned())), Ok("/usr".to_owned()));
}

fn develop_command(targets: Vec<&str>, files: Vec<&str>, stdout: bool) -> Command {
    Command::Develop {
        targets: targets.into_iter().map(|s| s.to_owned()).collect(),
        files: files.into_iter().map(|s| s.to_owned()).collect(),
        out: "rust-project.json".to_owned(),
        stdout,
        prefer_rustup_managed_toolchain: false,
        sysroot: Some("~/sysroot".to_owned()),
        pretty: true,
        relative_paths: true,
        mode: Some("@mode/opt".to_owned()),
        check_cycles: true,
    }
}

#[test]
fn command_says_what_to_do() {
    let (develop, input, out) = Develop::from_command(develop_command(vec!["//a:b"], vec![], false));
    assert!(matches!(input, Input::Targets(t) if t == targets(&["//a:b"])));
    assert!(matches!(out.out, Output::Path(p) if p == "rust-project.json"));
    assert!(out.pretty);
    assert!(matches!(develop.sysroot, SysrootConfig::Sysroot(p) if p == "~/sysroot"));
    assert!(!develop.invoked_by_ra);

    let (_, input, out) = Develop::from_command(develop_command(vec![], vec!["x.rs"], true));
    assert!(matches!(input, Input::Files(f) if f == vec!["x.rs".to_owned()]));
    assert!(matches!(out.out, Output::Stdout));

    let (develop, input, out) = Develop::from_command(Command::DevelopJson {
        args: JsonArguments::Label("//a:b".to_owned()),
    });
    assert!(develop.invoked_by_ra);
    assert!(matches!(input, Input::Targets(t) if t == targets(&["//a:b"])));
    assert!(matches!(out.out, Output::Stdout));
    let (_, input, _) = Develop::from_command(Command::DevelopJson {
        args: JsonArguments::Path("x.rs".to_owned()),
    });
    assert!(matches!(input, Input::Files(f) if f == vec!["x.rs".to_owned()]));
}

#[test]
fn rustup_goes_before_a_sysroot() {
    let mut command = develop_command(vec![], vec![], false);
    if let Command::Develop { prefer_rustup_managed_toolchain, .. } = &mut command {
        *prefer_rustup_managed_toolchain = true;
    }
    assert!(matches!(Develop::from_command(command).0.sysroot, SysrootConfig::Rustup));
}

#[test]
fn a_run_needs_an_owning_target() {
    let (develop, _, _) = Develop::from_command(develop_command(vec![], vec!["x.rs"], false));
    match develop.plan_run(vec![], "x.rs".to_owned()) {
        Err(e) => {
            assert_eq!(e.message(), "No owning target found");
            assert_eq!(e.context(), "Could not find owning target for x.rs");
        }
        Ok(_) => panic!("no target owns the file"),
    }
    let groups = vec![("x".to_owned(), targets(&["b", "a"]))];
    match develop.plan_run(groups, "x.rs".to_owned()) {
        Ok(RunPlan::Whole(all)) => assert_eq!(all, targets(&["a", "b"])),
        _ => panic!("one project for all"),
    }
    let (json, _, _) = Develop::from_command(Command::DevelopJson {
        args: JsonArguments::Path("x.rs".to_owned()),
    });
    let groups = vec![("x".to_owned(), targets(&["b", "a"]))];
    match json.plan_run(groups, "x.rs".to_owned()) {
        Ok(RunPlan::PerBuildfile(groups)) => {
            assert_eq!(groups, vec![("x".to_owned(), targets(&["b", "a"]))])
        }
        _ => panic!("one project for each build file"),
    }
}

#[test]
fn paths_without_canonical_form_stay() {
    assert_eq!(
        canonical_files(vec![
            ("a".to_owned(), Some("/x/a".to_owned())),
            ("b".to_owned(), None),
        ]),
        vec!["/x/a".to_owned(), "b".to_owned()]
    );
}

fn expanded(resolved: u8) -> Expanded<u8> {
    Expanded { expanded_targets: Arc::new(vec![Target::new("//a:e".to_owned())]), resolved }
}

#[test]
fn description_goes_step_by_step() {
    let (develop, _, _) = Develop::from_command(develop_command(vec!["//a:b"], vec![], false));
    let home = Ok("/home/me".to_owned());
    let (stage, request) = Develop::start_inner::<u8, u8>(vec![Target::new("//a:b".to_owned())]);
    assert!(matches!(request, InnerRequest::FindProjectRoot));
    let (stage, request) =
        develop.run_inner(&home, stage, InnerEvent::ProjectRoot(Ok("/repo".to_owned())));
    assert!(matches!(request, InnerRequest::ExpandAndResolve(t) if t[0].0 == "//a:b"));
    let (stage, request) = develop.run_inner(&home, stage, InnerEvent::Expanded(Ok(expanded(1))));
    assert!(matches!(request, InnerRequest::QueryAliasedLibraries(t) if t[0].0 == "//a:e"));
    let (stage, request) = develop.run_inner(&home, stage, InnerEvent::Aliased(Ok(2u8)));
    assert!(matches!(
        request,
        InnerRequest::FindSysroot(SysrootRequest::Canonical(path)) if path == "/home/me/sysroot"
    ));
    let (stage, request) =
        develop.run_inner(&home, stage, InnerEvent::Canonical(Ok("/repo/s".to_owned())));
    assert!(matches!(
        request,
        InnerRequest::MakeRelative { path, base } if path == "/repo/s" && base == "/repo"
    ));
    let (stage, request) = develop.run_inner(&home, stage, InnerEvent::Relative("s".to_owned()));
    assert!(matches!(stage, InnerStage::Done));
    assert!(matches!(
        request,
        InnerRequest::Convert {
            sysroot: Sysroot { sysroot, sysroot_src: None },
            expanded: Expanded { resolved: 1, .. },
            aliased: 2,
            relative_paths: true,
            check_cycles: true,
        } if sysroot == "s"
    ));

    let no_home = Err("no home".to_owned());
    let (_, request) = develop.run_inner::<u8, u8>(
        &no_home,
        InnerStage::Aliased("/repo".to_owned(), expanded(1)),
        InnerEvent::Aliased(Ok(2)),
    );
    assert!(matches!(request, InnerRequest::Fail(e) if e == "no home"));
    let (_, request) = develop.run_inner::<u8, u8>(
        &home,
        InnerStage::Expand("/repo".to_owned()),
        InnerEvent::Expanded(Err("broken".to_owned())),
    );
    assert!(matches!(request, InnerRequest::Fail(e) if e == "broken"));
}

/// A minimal 64-bit little-endian ELF file with one section besides the names of sections.
fn elf_file(section: &str, data: &[u8]) -> Vec<u8> {
    let mut names: Vec<u8> = vec![0];
    let section_name = names.len() as u32;
    names.extend_from_slice(section.as_bytes());
    names.push(0);
    let strtab_name = names.len() as u32;
    names.extend_from_slice(b".shstrtab\0");

    let data_at = 64u64;
    let names_at = data_at + data.len() as u64;
    let headers_at = names_at + names.len() as u64;

    let mut out: Vec<u8> = vec![0x7f, b'E', b'L', b'F', 2, 1, 1, 0, 0, 0, 0, 0, 0, 0, 0, 0];
    out.extend_from_slice(&2u16.to_le_bytes());
    out.extend_from_slice(&62u16.to_le_bytes());
    out.extend_from_slice(&1u32.to_le_bytes());
    out.extend_from_slice(&0u64.to_le_bytes());
    out.extend_from_slice(&0u64.to_le_bytes());
    out.extend_from_slice(&headers_at.to_le_bytes());
    out.extend_from_slice(&0u32.to_le_bytes());
    out.extend_from_slice(&64u16.to_le_bytes());
    out.extend_from_slice(&0u16.to_le_bytes());
    out.extend_from_slice(&0u16.to_le_bytes());
    out.extend_from_slice(&64u16.to_le_bytes());
    out.extend_from_slice(&3u16.to_le_bytes());
    out.extend_from_slice(&2u16.to_le_bytes());
    assert_eq!(out.len(), 64);
    out.extend_from_slice(data);
    out.extend_from_slice(&names);
    let header = |name: u32, kind: u32, at: u64, size: u64| {
        let mut h: Vec<u8> = vec![];
        h.extend_from_slice(&name.to_le_bytes());
        h.extend_from_slice(&kind.to_le_bytes());
        h.extend_from_slice(&0u64.to_le_bytes());
        h.extend_from_slice(&0u64.to_le_bytes());
        h.extend_from_slice(&at.to_le_bytes());
        h.extend_from_slice(&size.to_le_bytes());
        h.extend_from_slice(&0u32.to_le_bytes());
        h.extend_from_slice(&0u32.to_le_bytes());
        h.extend_from_slice(&1u64.to_le_bytes());
        h.extend_from_slice(&0u64.to_le_bytes());
        h
    };
    out.extend(header(0, 0, 0, 0));
    out.extend(header(section_name, 1, data_at, data.len() as u64));
    out.extend(header(strtab_name, 3, names_at, names.len() as u64));
    out
}

#[test]
fn build_info_is_read_from_the_program() {
    let file = elf_file("fb_build_info", b"{\"revision\":\"abc\",\"time\":\"noon\"}\0");
    assert_eq!(
        fb_build_info_from_elf(&file),
        Ok("revision: abc, build time: noon".to_owned())
    );
    assert_eq!(build_info(Some(&file), true), "revision: abc, build time: noon");
    assert_eq!(build_info(Some(&file), false), "No build info available.");
    assert_eq!(build_info(None, true), "No build info available.");
}

#[test]
fn missing_parts_are_unknown() {
    let file = elf_file("fb_build_info", b"{\"revision\":3}\0");
    assert_eq!(
        fb_build_info_from_elf(&file),
        Ok("revision: (unknown), build time: (unknown)".to_owned())
    );
    assert_eq!(
        show_build_info(Some("r".to_owned()), None),
        "revision: r, build time: (unknown)"
    );
}

#[test]
fn each_error_in_the_program_file() {
    assert_eq!(fb_build_info_from_elf(&vec![1, 2, 3]), Err(BuildInfoError::NotElf));
    assert_eq!(
        fb_build_info_from_elf(&elf_file("other", b"{}\0")),
        Err(BuildInfoError::NoHeader)
    );
    assert_eq!(
        fb_build_info_from_elf(&elf_file("fb_build_info", b"{}")),
        Err(BuildInfoError::NotTerminated)
    );
    assert_eq!(
        fb_build_info_from_elf(&elf_file("fb_build_info", b"{\0}\0")),
        Err(BuildInfoError::NotTerminated)
    );
    assert_eq!(
        fb_build_info_from_elf(&elf_file("fb_build_info", b"\xff\0")),
        Err(BuildInfoError::NotText)
    );
    assert_eq!(
        fb_build_info_from_elf(&elf_file("fb_build_info", b"nothing\0")),
        Err(BuildInfoError::NotJson)
    );
    assert_eq!(build_info(Some(&vec![]), true), "No build info available.");
}

#[test]
fn text_ends_in_its_one_zero() {
    assert_eq!(terminated_text(&b"caf\xc3\xa9\0".to_vec()), Ok("caf\u{e9}".to_owned()));
    assert_eq!(terminated_text(&vec![]), Err(BuildInfoError::NotTerminated));
    assert_eq!(terminated_text(&vec![0]), Ok(String::new()));
}
