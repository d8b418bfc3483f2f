//! The command line.
use classic::ad::schema::{CpuInfo, GpuInfo, LoadSample, MemInfo, NodeAd};
use classic::cli::args::{validate_spawn_args, SpawnArgs};
use classic::cli::error::CliErr;
use classic::cli::group_toml::{
    validate_group, GroupStrategy, GroupTomlError, PlacementGroup, RawGroup, RawMember,
};
use classic::cli::listing::{ad_line, ad_show, no_ads_line, pad, Show};
use classic::cli::spawn::{child_status, spawn_request, Reply, Session, StdioStream};
use classic::cli::submit::{
    adapt_ad, assignment_lines, format_node_id, SubmitArgs, SubmitError,
};
use classic::ident::NodeId;

/// Whether the file that the arguments give for the standard input is there.
fn stdin_exists(args: &SpawnArgs) -> bool {
    match &args.stdin {
        Some(s) => std::path::Path::new(s).exists(),
        None => false,
    }
}

fn validate(args: &SpawnArgs) -> Result<(), CliErr> {
    validate_spawn_args(args, stdin_exists(args))
}

#[test]
fn validate_rejects_empty_requires() {
    let args = SpawnArgs {
        requires: "".into(),
        rank: None,
        exclusive_device: false,
        stdin: None,
        env: vec![],
        argv: vec!["echo".into()],
    };
    let err = validate(&args).unwrap_err();
    match err {
        CliErr::Usage(m) => assert!(m.contains("non-empty"), "msg: {m}"),
        other => panic!("expected Usage, got {other:?}"),
    }
}

#[test]
fn validate_rejects_malformed_env() {
    let args = SpawnArgs {
        requires: "true".into(),
        rank: None,
        exclusive_device: false,
        stdin: None,
        env: vec!["NOEQUALS".into()],
        argv: vec!["echo".into()],
    };
    let err = validate(&args).unwrap_err();
    match err {
        CliErr::Usage(m) => assert!(m.contains("KEY=VAL"), "msg: {m}"),
        other => panic!("expected Usage, got {other:?}"),
    }
}

#[test]
fn validate_accepts_dash_stdin() {
    let args = SpawnArgs {
        requires: "true".into(),
        rank: None,
        exclusive_device: false,
        stdin: Some("-".into()),
        env: vec![],
        argv: vec!["cat".into()],
    };
    validate(&args).unwrap();
}

#[test]
fn validate_rejects_missing_stdin_file() {
    let args = SpawnArgs {
        requires: "true".into(),
        rank: None,
        exclusive_device: false,
        stdin: Some("/no/such/path-classicd-test".into()),
        env: vec![],
        argv: vec!["cat".into()],
    };
    let err = validate(&args).unwrap_err();
    match err {
        CliErr::Usage(m) => assert!(m.contains("does not exist"), "msg: {m}"),
        other => panic!("expected Usage, got {other:?}"),
    }
}

fn plain_args() -> SpawnArgs {
    SpawnArgs {
        requires: "any(gpu, gpu.vram_mb >= 80000)".into(),
        rank: Some("-load.cpu_pct".into()),
        exclusive_device: true,
        stdin: None,
        env: vec!["RANK=0".into(), "WORLD_SIZE=1".into()],
        argv: vec!["python3".into(), "train.py".into()],
    }
}

#[test]
fn the_first_bad_entry_is_quoted() {
    let mut args = plain_args();
    args.env = vec!["A=1".into(), "B \"2\"\n".into(), "C".into()];
    assert_eq!(
        validate_spawn_args(&args, false),
        Err(CliErr::Usage(
            "--env entry \"B \\\"2\\\"\\n\" must be of the form KEY=VAL".to_string()
        ))
    );
}

#[test]
fn blank_requires_and_empty_argv_are_refused() {
    let mut args = plain_args();
    args.requires = " \t\u{3000}".into();
    assert!(matches!(validate_spawn_args(&args, true), Err(CliErr::Usage(_))));
    let mut args = plain_args();
    args.argv.clear();
    assert_eq!(
        validate_spawn_args(&args, true),
        Err(CliErr::Usage("argv after `--` must have at least one element".to_string()))
    );
}

#[test]
fn a_request_says_what_the_arguments_say() {
    let r = spawn_request(&plain_args(), 17);
    assert_eq!(r.req_id, 17);
    assert_eq!(r.requires, "any(gpu, gpu.vram_mb >= 80000)");
    assert_eq!(r.rank, "-load.cpu_pct");
    assert_eq!(r.argv, vec!["python3", "train.py"]);
    assert_eq!(r.env, vec!["RANK=0", "WORLD_SIZE=1"]);
    assert!(r.exclusive_device);
    assert_eq!(r.hop, 0);
    let mut args = plain_args();
    args.rank = None;
    assert_eq!(spawn_request(&args, 1).rank, "");
}

#[test]
fn exit_codes_and_signals() {
    assert_eq!(child_status(Some(0), None), 0);
    assert_eq!(child_status(Some(3), Some(9)), 3);
    assert_eq!(child_status(Some(256 + 7), None), 7);
    assert_eq!(child_status(Some(-1), None), 255);
    assert_eq!(child_status(Some(i32::MIN), None), 0);
    assert_eq!(child_status(None, Some(9)), 137);
    assert_eq!(child_status(None, Some(15)), 143);
    assert_eq!(child_status(None, Some(-128)), 128);
    assert_eq!(child_status(None, None), 1);
}

#[test]
fn the_exit_code_of_the_child_is_handed_on() {
    let mut s = Session::new();
    assert!(matches!(s.on_reply(Reply::Ack), Ok(None)));
    let out = s
        .on_reply(Reply::Stdio { stream: StdioStream::Stderr, data: b"oops".to_vec() })
        .unwrap()
        .unwrap();
    assert!(out.to_stderr);
    assert_eq!(out.data, b"oops");
    assert!(matches!(s.on_reply(Reply::Exit { code: Some(5), signal: None }), Ok(None)));
    let late = s
        .on_reply(Reply::Stdio { stream: StdioStream::Stdout, data: b"late".to_vec() })
        .unwrap()
        .unwrap();
    assert!(!late.to_stderr);
    assert!(matches!(s.on_reply(Reply::Unknown), Ok(None)));
    let stdin = Reply::Stdio { stream: StdioStream::Stdin, data: vec![1] };
    assert!(matches!(s.on_reply(stdin), Ok(None)));
    assert_eq!(s.on_close(), CliErr::Exit(5));
}

#[test]
fn a_refusal_ends_the_session() {
    let mut s = Session::new();
    assert!(matches!(
        s.on_reply(Reply::Deny("no node".into())),
        Err(CliErr::Spawn(m)) if m == "no node"
    ));
    assert!(matches!(
        s.on_reply(Reply::Malformed("bad".into())),
        Err(CliErr::Other(m)) if m == "bad"
    ));
    assert_eq!(
        s.on_close(),
        CliErr::Other("daemon closed connection without ChildExit".to_string())
    );
}

#[test]
fn how_a_command_ends() {
    let usage = CliErr::Usage("u".into());
    assert_eq!((usage.complaint().as_deref(), usage.exit_code()), (Some("classic: u"), 1));
    let spawn = CliErr::Spawn("s".into());
    assert_eq!(spawn.complaint().as_deref(), Some("classic: spawn failed: s"));
    assert_eq!(spawn.exit_code(), 2);
    let exit = CliErr::Exit(42);
    assert_eq!((exit.complaint(), exit.exit_code()), (None, 42));
    let other = CliErr::Other("o".into());
    assert_eq!((other.complaint().as_deref(), other.exit_code()), (Some("classic: o"), 1));
}

#[test]
fn the_listing_has_columns() {
    assert_eq!(
        ad_line(Some("node-a".into()), Some(12), Some(3)),
        format!("{:<24} gen={:<6} gpus={}", "node-a", 12, 3)
    );
    assert_eq!(ad_line(None, None, None), format!("{:<24} gen={:<6} gpus={}", "?", 0, 0));
    let long = "h\u{e9}".repeat(20);
    assert_eq!(
        ad_line(Some(long.clone()), Some(u64::MAX), Some(0)),
        format!("{:<24} gen={:<6} gpus={}", long, u64::MAX, 0)
    );
    assert_eq!(no_ads_line(), "(no ads)");
    assert_eq!(pad("ab", 4), "ab  ");
    assert_eq!(pad("abcde", 4), "abcde");
}

#[test]
fn a_missing_ad_is_a_failure_unless_json_was_asked_for() {
    assert!(matches!(ad_show("h", true, true), Show::Print));
    assert!(matches!(ad_show("h", false, false), Show::Print));
    match ad_show("h", false, true) {
        Show::Missing { notice, error } => {
            assert_eq!(notice, "classic: no ad found for hostname 'h'");
            assert_eq!(error, CliErr::Spawn("no ad for h".to_string()));
        }
        other => panic!("expected Missing, got {other:?}"),
    }
}

/// Stands in for the predicate parser.
fn parse_req(src: &str) -> Result<String, String> {
    if src == "true" || src.starts_with("any(") {
        Ok(src.to_string())
    } else {
        Err(format!("cannot parse {src}"))
    }
}

fn texts(v: &toml::Value) -> Vec<String> {
    v.as_array().unwrap().iter().map(|x| x.as_str().unwrap().to_string()).collect()
}

fn raw_member(v: &toml::Value) -> RawMember {
    RawMember {
        label: v["label"].as_str().unwrap().to_string(),
        requires: v["requires"].as_str().unwrap().to_string(),
        argv: v.get("argv").map(texts).unwrap_or_default(),
        env: v
            .get("env")
            .map(|e| e.as_array().unwrap().iter().map(texts).collect())
            .unwrap_or_default(),
    }
}

fn parse_group_toml_str(src: &str) -> Result<PlacementGroup<String>, GroupTomlError> {
    let table: toml::Table =
        src.parse().map_err(|e: toml::de::Error| GroupTomlError::Toml(e.to_string()))?;
    let strategy = match table.get("strategy").and_then(|s| s.as_str()) {
        Some(s) => s.to_string(),
        None => return Err(GroupTomlError::Toml("missing field `strategy`".to_string())),
    };
    let member: Vec<RawMember> = match table.get("member") {
        Some(m) => m.as_array().unwrap().iter().map(raw_member).collect(),
        None => vec![],
    };
    let reqs = member.iter().map(|m| parse_req(&m.requires)).collect();
    validate_group(RawGroup { strategy, member }, reqs)
}

fn pack_example() -> &'static str {
    r#"
strategy = "pack"

[[member]]
label = "trainer"
requires = "any(gpu, gpu.vram_mb >= 80000)"
argv = ["python", "train.py"]
env = [["RANK", "0"]]

[[member]]
label = "worker"
requires = "true"
argv = ["python", "worker.py"]
"#
}

fn spread_example() -> &'static str {
    r#"
strategy = "spread"

[[member]]
label = "a"
requires = "any(gpu, gpu.vendor == 0x10de)"
argv = ["a.sh"]

[[member]]
label = "b"
requires = "any(gpu, gpu.vendor == 0x10de)"
argv = ["b.sh"]
"#
}

#[test]
fn group_toml_parse_pack_example() {
    let g = parse_group_toml_str(pack_example()).unwrap();
    assert_eq!(g.strategy, GroupStrategy::Pack);
    assert_eq!(g.members.len(), 2);
    assert_eq!(g.members[0].label, "trainer");
    assert_eq!(g.members[1].label, "worker");
    assert_eq!(g.members[0].argv, vec!["python", "train.py"]);
    assert_eq!(g.members[0].env, vec![("RANK".into(), "0".into())]);
    // The predicate's text is kept as it was written.
    assert_eq!(g.members[0].requires_src, "any(gpu, gpu.vram_mb >= 80000)");
}

#[test]
fn group_toml_parse_spread_example() {
    let g = parse_group_toml_str(spread_example()).unwrap();
    assert_eq!(g.strategy, GroupStrategy::Spread);
    assert_eq!(g.members.len(), 2);
}

#[test]
fn strategy_case_insensitive() {
    let src = r#"
strategy = "PACK"
[[member]]
label = "a"
requires = "true"
"#;
    let g = parse_group_toml_str(src).unwrap();
    assert_eq!(g.strategy, GroupStrategy::Pack);
}

#[test]
fn group_toml_duplicate_label_rejected() {
    let src = r#"
strategy = "pack"
[[member]]
label = "a"
requires = "true"
[[member]]
label = "a"
requires = "true"
"#;
    match parse_group_toml_str(src).unwrap_err() {
        GroupTomlError::DuplicateLabel(l) => assert_eq!(l, "a"),
        other => panic!("expected DuplicateLabel, got {other:?}"),
    }
}

#[test]
fn group_toml_missing_strategy_field() {
    let src = r#"
[[member]]
label = "a"
requires = "true"
"#;
    match parse_group_toml_str(src).unwrap_err() {
        GroupTomlError::Toml(_) => {}
        other => panic!("expected Toml parse error, got {other:?}"),
    }
}

#[test]
fn unknown_strategy() {
    let src = r#"
strategy = "scatter"
[[member]]
label = "a"
requires = "true"
"#;
    match parse_group_toml_str(src).unwrap_err() {
        GroupTomlError::UnknownStrategy(s) => assert_eq!(s, "scatter"),
        other => panic!("expected UnknownStrategy, got {other:?}"),
    }
}

#[test]
fn group_toml_bad_predicate_string() {
    let src = r#"
strategy = "pack"
[[member]]
label = "a"
requires = "this is not valid 12345"
"#;
    match parse_group_toml_str(src).unwrap_err() {
        GroupTomlError::Predicate { label, .. } => assert_eq!(label, "a"),
        other => panic!("expected Predicate, got {other:?}"),
    }
}

#[test]
fn empty_group_rejected() {
    let src = r#"strategy = "pack""#;
    match parse_group_toml_str(src).unwrap_err() {
        GroupTomlError::Empty => {}
        other => panic!("expected Empty, got {other:?}"),
    }
}

#[test]
fn submit_toml_parse_pack_example() {
    let g = parse_group_toml_str(pack_example()).unwrap();
    assert_eq!(g.strategy, GroupStrategy::Pack);
    assert_eq!(g.members.len(), 2);
    assert_eq!(g.members[0].label, "trainer");
    assert_eq!(g.members[1].label, "worker");
}

#[test]
fn submit_toml_parse_spread_example() {
    let src = r#"
strategy = "spread"

[[member]]
label = "a"
requires = "true"
argv = ["a.sh"]

[[member]]
label = "b"
requires = "true"
argv = ["b.sh"]
"#;
    let g = parse_group_toml_str(src).unwrap();
    assert_eq!(g.strategy, GroupStrategy::Spread);
    assert_eq!(g.members.len(), 2);
}

#[test]
fn submit_toml_duplicate_label_rejected() {
    let src = r#"
strategy = "pack"
[[member]]
label = "x"
requires = "true"
[[member]]
label = "x"
requires = "true"
"#;
    match parse_group_toml_str(src).unwrap_err() {
        GroupTomlError::DuplicateLabel(s) => assert_eq!(s, "x"),
        other => panic!("expected DuplicateLabel, got {other:?}"),
    }
}

#[test]
fn submit_toml_missing_strategy_field() {
    let src = r#"
[[member]]
label = "a"
requires = "true"
"#;
    match parse_group_toml_str(src).unwrap_err() {
        GroupTomlError::Toml(_) => {}
        other => panic!("expected Toml error, got {other:?}"),
    }
}

#[test]
fn submit_toml_bad_predicate_string() {
    let src = r#"
strategy = "pack"
[[member]]
label = "x"
requires = "not a valid predicate ###"
"#;
    match parse_group_toml_str(src).unwrap_err() {
        GroupTomlError::Predicate { label, .. } => assert_eq!(label, "x"),
        other => panic!("expected Predicate, got {other:?}"),
    }
}

fn member(label: &str, env: &[&[&str]]) -> RawMember {
    RawMember {
        label: label.to_string(),
        requires: "true".to_string(),
        argv: vec![],
        env: env.iter().map(|e| e.iter().map(|s| s.to_string()).collect()).collect(),
    }
}

#[test]
fn env_entries_that_are_no_pair_are_left_out() {
    let raw = RawGroup {
        strategy: "Spread".to_string(),
        member: vec![member("a", &[&["K", "V"], &["alone"], &[], &["X", "Y", "Z"]])],
    };
    let g = validate_group(raw, vec![Ok(1)]).unwrap();
    assert_eq!(
        g.members[0].env,
        vec![("K".to_string(), "V".to_string()), ("X".to_string(), "Y".to_string())]
    );
    assert_eq!(g.members[0].req, 1);
}

#[test]
fn the_first_fault_is_reported() {
    let raw = || RawGroup {
        strategy: "pack".to_string(),
        member: vec![member("a", &[]), member("b", &[]), member("a", &[])],
    };
    let bad: Vec<Result<u8, String>> = vec![Ok(1), Err("no".to_string()), Ok(3)];
    assert_eq!(
        validate_group(raw(), bad).unwrap_err(),
        GroupTomlError::Predicate { label: "b".to_string(), err: "no".to_string() }
    );
    // A repeated label counts before its predicate does.
    let bad: Vec<Result<u8, String>> = vec![Ok(1), Ok(2), Err("no".to_string())];
    assert_eq!(
        validate_group(raw(), bad).unwrap_err(),
        GroupTomlError::DuplicateLabel("a".to_string())
    );
}

#[test]
fn group_errors_in_words() {
    assert_eq!(GroupTomlError::Empty.to_string(), "group has no members");
    let e = GroupTomlError::UnknownStrategy("scatter".to_string());
    assert_eq!(e.to_string(), "strategy 'scatter' is not one of: pack, spread");
    let e = GroupTomlError::Predicate { label: "a".to_string(), err: "no".to_string() };
    assert_eq!(e.to_string(), "predicate for member 'a' is invalid: no");
    let e = GroupTomlError::NotFound("f".to_string());
    assert_eq!(SubmitError::Toml(e).to_string(), "submit: file not found: f");
    assert_eq!(SubmitError::AdFetch("x".to_string()).to_string(), "submit: ad fetch: x");
    assert_eq!(SubmitError::Place("y".to_string()).to_string(), "submit: placement: y");
}

#[test]
fn an_ad_as_the_placement_sees_it() {
    let gpu = |pct: u32| GpuInfo {
        index: 2,
        uuid: "u".into(),
        name: "NVIDIA H100".into(),
        pci_vendor: 0x10de,
        pci_device: 0x2330,
        pci_addr: "0000:01:00.0".into(),
        vram_total_mb: 81920,
        vram_free_mb: 80000,
        compute_capability: (9, 0),
        nvlink_peers: vec![],
        utilization_pct: pct,
    };
    let ad = NodeAd {
        node_id: NodeId::from_bytes([7; 16]),
        hostname: "h".into(),
        proto_version: 1,
        generation: 9,
        boot_time: 0,
        cpu: CpuInfo {
            cores_online: 32,
            cores_physical: 16,
            sockets: 1,
            model: "m".into(),
            vendor: "v".into(),
            arch: "x86_64".into(),
            mhz: 3000,
        },
        mem: MemInfo { total_mb: 65536, available_mb: 60000 },
        gpus: vec![gpu(49), gpu(50)],
        pci: vec![],
        numa: vec![],
        load: LoadSample {
            loadavg_1m: 1500,
            loadavg_5m: 2,
            loadavg_15m: 3,
            cpu_pct: 4,
            mem_pct: 5,
            task_count: 6,
        },
    };
    let p = adapt_ad(&ad);
    assert_eq!((p.node_id, p.hostname.as_str(), p.gen), (ad.node_id, "h", 9));
    assert_eq!((p.cores, p.threads, p.arch.as_str(), p.model.as_str()), (32, 32, "x86_64", "m"));
    assert_eq!((p.total_mb, p.free_mb), (65536, 60000));
    assert_eq!((p.cpu_pct, p.mem_pct, p.load_1m_milli), (4, 5, 1500));
    assert_eq!((p.gpu[0].vendor, p.gpu[0].device, p.gpu[0].index), (0x10de, 0x2330, 2));
    assert_eq!((p.gpu[0].in_use, p.gpu[1].in_use), (false, true));
    assert_eq!((p.gpu[0].sm_count, p.gpu[0].mig), (0, false));
}

#[test]
fn the_assignment_shows_short_ids() {
    let node = NodeId::from_bytes([
        0xab, 0xcd, 0x01, 0x02, 0x03, 0xff, 0x10, 0, 0, 0, 0, 0, 0, 0, 0, 0,
    ]);
    assert_eq!(format_node_id(&node), "abcd010203ff");
    assert_eq!(
        assignment_lines(&vec![("trainer".to_string(), node)]),
        vec!["trainer  -> abcd010203ff".to_string()]
    );
    assert_eq!(SubmitArgs { path: "g.toml".to_string() }.path, "g.toml");
}
