//! Kernel messages and launches, and the config file.

use jotter::config;
use jotter::config::ConfigError;
use jotter::json::{Json, Object};
use jotter::kernel::{
    death_event, equal_ignoring_case, ladder, note_stderr, translate_iopub, translate_shell,
    translate_stdin, venv_dirs, Channel, Content, Event, Interrupt, Launch, LaunchAction,
    LaunchEvent, Message, Probe, Spec,
};

#[test]
fn partial_config_parses_and_unknown_keys_error() {
    let c = config::parse("max_output_rows = 30").ok().unwrap();
    assert_eq!(c.max_output_rows, 30);
    assert_eq!(c.max_image_rows, 18); // default kept
    assert!(config::parse("max_outpt_rows = 30").is_err()); // typo caught
}

#[test]
fn every_setting_and_every_refusal() {
    let c = config::parse(
        "max_image_rows = 5\nautosave_secs = 7\ntheme = \"InspiredGitHub\"\neditor = \"nvim\"\n\
         nvim_user_config = false\njedi = true\ncomplete_on_dot = false",
    )
    .ok()
    .unwrap();
    assert_eq!((c.max_image_rows, c.autosave_secs), (5, 7));
    assert_eq!((c.theme.as_str(), c.editor.as_str()), ("InspiredGitHub", "nvim"));
    assert!(!c.nvim_user_config && c.jedi && !c.complete_on_dot);
    let d = config::get(None);
    assert_eq!((d.max_output_rows, d.autosave_secs), (15, 30));
    assert_eq!(d.theme, "base16-ocean.dark");
    assert!(matches!(config::parse("jedi = 3").err(), Some(ConfigError::BadValue(k)) if k == "jedi"));
    assert!(matches!(config::parse("max_image_rows = 70000").err(), Some(ConfigError::BadValue(_))));
    assert!(matches!(config::parse("typo = 1").err(), Some(ConfigError::UnknownKey(k)) if k == "typo"));
    assert!(matches!(config::parse("= 3").err(), Some(ConfigError::Syntax(_))));
    let typo = Some("typo = 1".to_string());
    let (kept, warning) = config::init("/c.toml", typo, "unknown field `typo`");
    assert_eq!(kept.max_image_rows, 18);
    assert_eq!(warning.unwrap(), "config ignored (/c.toml): unknown field `typo`");
    let (set, none) = config::init("/c.toml", Some("max_image_rows = 9".to_string()), "");
    assert_eq!((set.max_image_rows, none), (9, None));
    assert!(config::init("/c.toml", None, "").1.is_none());
}

#[test]
fn where_the_config_and_the_state_live() {
    let some = |s: &str| Some(s.to_string());
    assert_eq!(config::path(some("/x"), some("/h")).as_deref(), Some("/x/jotter/config.toml"));
    assert_eq!(config::path(None, some("/h")).as_deref(), Some("/h/.config/jotter/config.toml"));
    assert_eq!(config::path(None, None), None);
    assert_eq!(config::state_dir(None, some("/h")).as_deref(), Some("/h/.local/state/jotter"));
}

fn message(content: Content) -> Message {
    Message { id: "m".to_string(), parent: Some("p".to_string()), content }
}

fn object(entries: Vec<(&str, Json)>) -> Json {
    Json::Obj(Object { entries: entries.into_iter().map(|(k, v)| (k.to_string(), v)).collect() })
}

#[test]
fn iopub_messages_become_outputs_and_signals() {
    let content = object(vec![("name", Json::string("stdout")), ("text", Json::string("hi"))]);
    match translate_iopub(message(Content::Stream(content))) {
        Some(Event::Output { parent, output }) => {
            assert_eq!(parent, "p");
            assert_eq!(output.str_at("output_type"), Some("stream"));
            assert_eq!(output.str_at("text"), Some("hi"));
        }
        _ => panic!(),
    }
    assert!(matches!(
        translate_iopub(message(Content::Status { busy: false })),
        Some(Event::Status { busy: false, .. })
    ));
    assert!(matches!(
        translate_iopub(message(Content::ClearOutput { wait: true })),
        Some(Event::Clear { wait: true, .. })
    ));
    assert!(matches!(
        translate_iopub(message(Content::ExecuteInput { count: Some(4) })),
        Some(Event::ExecutionCount { count: 4, .. })
    ));
    assert!(translate_iopub(message(Content::Other)).is_none());
    assert!(matches!(
        translate_shell(message(Content::ExecuteReply)),
        Some(Event::Done { parent }) if parent == "p"
    ));
    assert!(matches!(
        translate_stdin(message(Content::InputRequest { prompt: "?".into(), password: true })),
        Some(Event::Input { request, password: true, .. }) if request == "m"
    ));
}

#[test]
fn kernels_are_looked_for_down_the_ladder() {
    let some = |s: &str| Some(s.to_string());
    let venvs = venv_dirs(some("/v"), some("/c"), "/nb");
    assert_eq!(venvs, ["/v", "/c", "/nb/.venv", "/nb/venv"]);
    let probes: Vec<String> = ladder("phy", &venvs[..1].to_vec())
        .iter()
        .map(|p| match p {
            Probe::Venv { name, venv } => format!("{venv}:{name}"),
            Probe::Global { name } => name.clone(),
        })
        .collect();
    assert_eq!(probes, ["/v:phy", "phy", "/v:python3", "python3"]);
    assert!(equal_ignoring_case("Python", "pYTHON"));
    assert!(!equal_ignoring_case("Python", "Pythons"));
}

fn spec() -> Spec {
    Spec {
        name: "phy".to_string(),
        dir: "/k/phy".to_string(),
        argv: vec!["python".to_string(), "-m".to_string(), "ipykernel".to_string()],
        display_name: "Phy".to_string(),
        language: "python".to_string(),
        interrupt_mode: Some("message".to_string()),
    }
}

fn launch() -> (Launch, LaunchAction) {
    Launch::new(
        "phy".to_string(),
        3,
        "/nb".to_string(),
        "s".to_string(),
        "k".to_string(),
        "/run".to_string(),
        &vec!["/v".to_string()],
    )
}

#[test]
fn a_launch_walks_to_a_ready_kernel() {
    let (mut l, first) = launch();
    assert!(matches!(first, LaunchAction::Look(Probe::Venv { .. })));
    assert!(matches!(l.step(LaunchEvent::SpecMissing), LaunchAction::Look(Probe::Global { .. })));
    assert!(matches!(l.step(LaunchEvent::SpecFound(spec())), LaunchAction::FindPorts));
    match l.step(LaunchEvent::Ports(vec![1, 2, 3, 4, 5])) {
        LaunchAction::Write { path, info } => {
            assert_eq!(path, "/run/jotter-s.json");
            assert_eq!((info.shell_port, info.iopub_port, info.hb_port), (1, 2, 5));
        }
        _ => panic!(),
    }
    assert!(matches!(
        l.step(LaunchEvent::Written),
        LaunchAction::Spawn { dir, .. } if dir == "/nb"
    ));
    let mut next = l.step(LaunchEvent::Spawned(Some(42)));
    assert!(matches!(next, LaunchAction::Connect(Channel::Iopub)));
    for _ in 0..8 {
        if !matches!(next, LaunchAction::Connect(_)) {
            break;
        }
        next = l.step(LaunchEvent::Connected);
    }
    let LaunchAction::Report(Event::Ready(mut kernel)) = next else { panic!() };
    assert_eq!((kernel.launch, kernel.pid), (3, Some(42)));
    assert!(matches!(kernel.interrupt(), Interrupt::Message));
    assert!(kernel.is_python());
    assert_ne!(kernel.request_id(), kernel.request_id());
    // it is over
    assert!(matches!(l.step(LaunchEvent::Connected), LaunchAction::Nothing));
}

#[test]
fn a_venv_kernel_runs_its_own_python() {
    let (mut l, _) = launch();
    l.step(LaunchEvent::SpecFound(spec()));
    l.step(LaunchEvent::Ports(vec![1, 2, 3, 4, 5]));
    match l.step(LaunchEvent::Written) {
        LaunchAction::Spawn { argv, .. } => assert_eq!(argv[0], "/v/bin/python"),
        _ => panic!(),
    }
}

fn reason(a: LaunchAction) -> String {
    match a {
        LaunchAction::Report(Event::LaunchFailed { reason, launch: 3 }) => reason,
        _ => panic!(),
    }
}

#[test]
fn a_failed_launch_says_why() {
    let (mut l, _) = launch();
    for _ in 0..3 {
        l.step(LaunchEvent::SpecMissing);
    }
    let why = reason(l.step(LaunchEvent::SpecMissing));
    assert!(
        why.starts_with(
            r#"kernel 'phy' failed: no kernelspec found (tried ["phy", "python3"]); pip install"#
        ),
        "{why}"
    );
    let at = |n: usize, e: LaunchEvent| {
        let (mut l, _) = launch();
        let mut steps = vec![
            LaunchEvent::SpecFound(spec()),
            LaunchEvent::Ports(vec![1, 2, 3, 4, 5]),
            LaunchEvent::Written,
            LaunchEvent::Spawned(None),
        ];
        steps.truncate(n);
        for s in steps {
            l.step(s);
        }
        reason(l.step(e))
    };
    let failed = |s: &str| LaunchEvent::Failed(s.to_string());
    assert_eq!(at(1, failed("x")), "kernel 'phy' failed: free ports: x");
    assert_eq!(at(2, failed("x")), "kernel 'phy' failed: writing /run/jotter-s.json: x");
    assert_eq!(at(3, failed("x")), "kernel 'phy' failed: spawning kernel process: x");
    assert_eq!(at(3, LaunchEvent::BadArgv("x".into())), "kernel 'phy' failed: kernel argv: x");
    assert_eq!(at(4, failed("x")), "kernel 'phy' failed: iopub connect: x");
}

#[test]
fn a_death_names_the_last_words() {
    assert_eq!(note_stderr("a".into(), "  ".into()), "a");
    assert_eq!(note_stderr("a".into(), "b".into()), "b");
    assert!(matches!(
        death_event("exit status: 1", "boom"),
        Event::Dead(r) if r == "kernel died (exit status: 1): boom"
    ));
}
