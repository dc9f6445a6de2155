use dimland::config::{DimlandArgs, DimlandCommands, Opacity};
use dimland::ipc::{
    detached_args, exits_on_signal, get_socket_path, handle_ipc, listen_for_ipc, on_signal,
    read_message, startup, Framed, IpcAction, IpcRequest, ListenerAction, ListenerEvent,
    SignalAction, StartupAction,
};
use dimland::wake::{block_until_event, WakeLatch};

fn alpha(value: f32) -> Option<Opacity> {
    Some(Opacity::from_bits(value.to_bits()))
}

fn plain(alpha: Option<Opacity>, radius: Option<u32>) -> DimlandArgs {
    DimlandArgs { alpha, allow_opaque: false, radius, output: None, detached: false, command: None }
}

fn stop_args() -> DimlandArgs {
    DimlandArgs { command: Some(DimlandCommands::Stop), ..plain(None, None) }
}

fn strings(words: &[&str]) -> Vec<String> {
    words.iter().map(|w| String::from(*w)).collect()
}

#[test]
fn the_endpoint_lies_in_the_runtime_directory() {
    assert_eq!(
        get_socket_path(Some("/run/user/1000")),
        Some(String::from("/run/user/1000/dimland.sock"))
    );
    assert_eq!(get_socket_path(Some("")), Some(String::from("/dimland.sock")));
    assert_eq!(get_socket_path(None), None);
}

#[test]
fn stop_is_sent_to_a_running_instance() {
    let argv = strings(&["dimland", "--alpha", "0.1", "stop"]);
    let args = DimlandArgs { alpha: alpha(0.1), ..stop_args() };
    for debug_build in [false, true] {
        assert_eq!(
            startup(&args, &argv, true, debug_build),
            StartupAction::Send { message: String::from("stop") }
        );
    }
}

#[test]
fn stop_without_a_running_instance_only_exits() {
    let argv = strings(&["dimland", "stop"]);
    for debug_build in [false, true] {
        for detached in [false, true] {
            let args = DimlandArgs { detached, ..stop_args() };
            assert_eq!(startup(&args, &argv, false, debug_build), StartupAction::Exit);
        }
    }
}

#[test]
fn a_command_line_is_forwarded_to_a_running_instance() {
    let argv = strings(&["dimland", "--alpha", "0.8"]);
    for debug_build in [false, true] {
        for detached in [false, true] {
            let args = DimlandArgs { detached, ..plain(alpha(0.8), None) };
            assert_eq!(
                startup(&args, &argv, true, debug_build),
                StartupAction::Send { message: String::from("dimland --alpha 0.8\n") }
            );
        }
    }
}

#[test]
fn a_detached_process_serves() {
    let argv = strings(&["dimland", "--alpha", "0.3", "--radius", "20", "--detached"]);
    let args = DimlandArgs { detached: true, ..plain(alpha(0.3), Some(20)) };
    assert_eq!(startup(&args, &argv, false, false), StartupAction::Serve);
}

#[test]
fn a_debug_build_serves_in_the_foreground() {
    let argv = strings(&["dimland"]);
    assert_eq!(startup(&plain(None, None), &argv, false, true), StartupAction::Serve);
}

#[test]
fn any_other_process_starts_a_detached_copy() {
    let argv = strings(&["/usr/bin/dimland", "--alpha", "0.3", "--radius", "20"]);
    assert_eq!(
        startup(&plain(alpha(0.3), Some(20)), &argv, false, false),
        StartupAction::Respawn { args: strings(&["--alpha", "0.3", "--radius", "20", "--detached"]) }
    );
}

#[test]
fn the_detached_copy_gets_the_arguments_after_the_name() {
    assert_eq!(detached_args(&strings(&["dimland"])), strings(&["--detached"]));
    assert_eq!(detached_args(&strings(&["a", "b", "c"])), strings(&["b", "c", "--detached"]));
    assert_eq!(detached_args(&Vec::new()), Vec::<String>::new());
}

#[test]
fn only_a_foreground_process_exits_on_a_signal() {
    assert!(!exits_on_signal(false, false));
    assert!(exits_on_signal(true, false));
    assert!(exits_on_signal(false, true));
    assert!(exits_on_signal(true, true));
}

#[test]
fn a_signal_ends_a_foreground_process_and_its_endpoint() {
    for serving in [false, true] {
        assert_eq!(on_signal(false, false, serving), SignalAction::Ignore);
    }
    for (detached, debug_build) in [(true, false), (false, true), (true, true)] {
        assert_eq!(on_signal(detached, debug_build, false), SignalAction::Exit);
        assert_eq!(on_signal(detached, debug_build, true), SignalAction::Shutdown);
    }
}

#[test]
fn launches_beside_a_live_daemon_all_forward() {
    let mut serving = 1;
    for n in 0..25u32 {
        let argv = strings(&["dimland", "--radius", &n.to_string()]);
        let args = DimlandArgs { detached: n % 2 == 0, ..plain(None, Some(n)) };
        match startup(&args, &argv, serving > 0, n % 3 == 0) {
            StartupAction::Send { message } => {
                assert_eq!(message, format!("dimland --radius {n}\n"));
            }
            StartupAction::Serve => serving += 1,
            other => panic!("launch {n} came to {other:?}"),
        }
    }
    assert_eq!(serving, 1);
}

#[test]
fn the_listener_reacts_to_each_event() {
    assert_eq!(listen_for_ipc(ListenerEvent::BindFailed), ListenerAction::Abort);
    assert_eq!(listen_for_ipc(ListenerEvent::Accepted), ListenerAction::Handle);
    assert_eq!(listen_for_ipc(ListenerEvent::AcceptFailed), ListenerAction::Close);
}

#[test]
fn the_stop_line_is_framed_as_stop() {
    assert_eq!(read_message("stop"), Framed::Stop);
    assert_eq!(read_message("stop\n"), Framed::Stop);
}

#[test]
fn other_lines_are_framed_as_command_lines() {
    assert_eq!(
        read_message("dimland --alpha 0.8\n"),
        Framed::Arguments(strings(&["dimland", "--alpha", "0.8"]))
    );
    assert_eq!(read_message(" stop"), Framed::Arguments(strings(&["stop"])));
    assert_eq!(read_message("stop "), Framed::Arguments(strings(&["stop"])));
    assert_eq!(read_message("stop\n\n"), Framed::Arguments(strings(&["stop"])));
    assert_eq!(read_message("stop\r\n"), Framed::Arguments(strings(&["stop"])));
    assert_eq!(read_message("STOP"), Framed::Arguments(strings(&["STOP"])));
    assert_eq!(read_message("dimland stop"), Framed::Arguments(strings(&["dimland", "stop"])));
    assert_eq!(read_message("'stop'"), Framed::Arguments(strings(&["stop"])));
    assert_eq!(read_message(""), Framed::Arguments(Vec::new()));
    assert_eq!(read_message("\n"), Framed::Arguments(Vec::new()));
}

#[test]
fn what_is_forwarded_is_framed_as_the_same_command_line() {
    let argv = strings(&["dimland", "-a", "0.25", "-o", "DP-2", "--allow-opaque"]);
    let message = match startup(&plain(alpha(0.25), None), &argv, true, false) {
        StartupAction::Send { message } => message,
        other => panic!("came to {other:?}"),
    };
    assert_eq!(read_message(&message), Framed::Arguments(argv));
}

#[test]
fn an_update_is_merged_and_raises_the_latch() {
    let mut store = DimlandArgs::default();
    let mut latch = WakeLatch::new();
    let action = handle_ipc(IpcRequest::Update(plain(alpha(0.2), None)), &mut store, &mut latch);
    assert_eq!(action, IpcAction::Notify);
    assert_eq!(store.alpha, alpha(0.2));
    assert_eq!(store.radius, Some(0));
    assert!(latch.raised);
}

#[test]
fn an_update_is_clamped_on_its_way_into_the_store() {
    let mut store = DimlandArgs::default();
    let mut latch = WakeLatch::new();
    handle_ipc(IpcRequest::Update(plain(alpha(1.0), None)), &mut store, &mut latch);
    assert_eq!(store.alpha, alpha(0.9));
    let opaque = DimlandArgs { allow_opaque: true, ..plain(alpha(1.0), None) };
    handle_ipc(IpcRequest::Update(opaque), &mut store, &mut latch);
    assert_eq!(store.alpha, alpha(1.0));
}

#[test]
fn a_malformed_message_is_dropped() {
    let mut store = DimlandArgs::default();
    let mut latch = WakeLatch::new();
    assert_eq!(handle_ipc(IpcRequest::Malformed, &mut store, &mut latch), IpcAction::Ignore);
    assert_eq!(store, DimlandArgs::default());
    assert!(!latch.raised);
}

#[test]
fn stop_shuts_down_and_changes_nothing() {
    let mut store = DimlandArgs::default();
    let mut latch = WakeLatch::new();
    assert_eq!(handle_ipc(IpcRequest::Stop, &mut store, &mut latch), IpcAction::Shutdown);
    assert_eq!(store, DimlandArgs::default());
    assert!(!latch.raised);
}

#[test]
fn stop_shuts_down_after_malformed_messages() {
    let mut store = DimlandArgs::default();
    let mut latch = WakeLatch::new();
    for line in ["--no-such-flag\n", "dimland --alpha\n", "\n"] {
        assert!(matches!(read_message(line), Framed::Arguments(_)));
        assert_eq!(handle_ipc(IpcRequest::Malformed, &mut store, &mut latch), IpcAction::Ignore);
    }
    assert_eq!(read_message("stop\n"), Framed::Stop);
    assert_eq!(handle_ipc(IpcRequest::Stop, &mut store, &mut latch), IpcAction::Shutdown);
    assert_eq!(store, DimlandArgs::default());
}

#[test]
fn the_waiter_goes_on_only_when_the_latch_is_raised() {
    let mut latch = WakeLatch::new();
    assert!(!latch.raised);
    assert!(!block_until_event(&mut latch));
    assert!(!latch.raised);
    latch.raise();
    assert!(latch.raised);
    assert!(block_until_event(&mut latch));
    assert!(!latch.raised);
    assert!(!block_until_event(&mut latch));
}

#[test]
fn two_updates_before_the_wake_make_one_wake() {
    let mut store = DimlandArgs::default();
    let mut latch = WakeLatch::new();
    handle_ipc(IpcRequest::Update(plain(alpha(0.2), Some(5))), &mut store, &mut latch);
    handle_ipc(IpcRequest::Update(plain(alpha(0.7), None)), &mut store, &mut latch);
    assert!(block_until_event(&mut latch));
    assert_eq!(store.alpha, alpha(0.7));
    assert_eq!(store.radius, Some(5));
    assert!(!block_until_event(&mut latch));
}

#[test]
fn a_quoted_run_belongs_to_one_argument() {
    let expected = Framed::Arguments(strings(&["dimland", "--output", "DP 1", "--radius", "4"]));
    assert_eq!(read_message("dimland --output 'DP 1' --radius 4\n"), expected);
    assert_eq!(read_message("dimland --output \"DP 1\" --radius 4\n"), expected);
    assert_eq!(read_message("dimland --output DP\\ 1 --radius 4\n"), expected);
    assert_eq!(read_message("dimland --output D'P 1' --radius 4"), expected);
    assert_eq!(read_message("dimland  --output\t'DP'\" \"1   --radius 4"), expected);
}

#[test]
fn a_line_with_an_open_quote_is_malformed() {
    assert_eq!(read_message("dimland --output 'DP 1\n"), Framed::Malformed);
    assert_eq!(read_message("dimland --output \"DP 1\n"), Framed::Malformed);
    assert_eq!(read_message("dimland --output \"DP 1\\\"\n"), Framed::Malformed);
    assert_eq!(read_message("dimland --radius 4 \\\n"), Framed::Malformed);
    assert_eq!(read_message("'"), Framed::Malformed);
    assert_eq!(read_message("stop'"), Framed::Malformed);
}

#[test]
fn a_malformed_line_is_dropped_and_the_daemon_goes_on() {
    let mut store = DimlandArgs::default();
    let mut latch = WakeLatch::new();
    let request = match read_message("dimland --output 'DP 1\n") {
        Framed::Malformed => IpcRequest::Malformed,
        other => panic!("framed as {other:?}"),
    };
    assert_eq!(handle_ipc(request, &mut store, &mut latch), IpcAction::Ignore);
    assert_eq!(store, DimlandArgs::default());
    assert!(!latch.raised);
}

#[test]
fn an_argument_is_quoted_where_it_has_to_be() {
    let argv = strings(&["dimland", "--output", "DP 1"]);
    assert_eq!(
        startup(&plain(None, None), &argv, true, false),
        StartupAction::Send { message: String::from("dimland --output 'DP 1'\n") }
    );
    let argv = strings(&["dimland", "-o", "it's", "", "a\"b", "c\\d"]);
    assert_eq!(
        startup(&plain(None, None), &argv, true, false),
        StartupAction::Send {
            message: String::from("dimland -o 'it'\"'\"'s' '' 'a\"b' 'c\\d'\n")
        }
    );
}

#[test]
fn what_is_forwarded_arrives_whatever_the_arguments_hold() {
    for argv in [
        strings(&["dimland", "--output", "DP 1", "--radius", "4"]),
        strings(&["dimland", ""]),
        strings(&["", "", ""]),
        strings(&["'", "\"", "\\", " ", "\t"]),
        strings(&["it's", "say \"hi\"", "back\\slash", "'quoted'", "\"both' kinds\""]),
        strings(&["a  b", " lead", "trail ", "'' ''", "\\'"]),
        strings(&["stop", "now"]),
        strings(&[" stop"]),
        strings(&["dimland", "stop"]),
        strings(&["\u{3000}wide", "über", "日本 語"]),
        Vec::new(),
    ] {
        let message = match startup(&plain(None, None), &argv, true, false) {
            StartupAction::Send { message } => message,
            other => panic!("came to {other:?}"),
        };
        assert!(message.ends_with('\n'));
        assert_eq!(message.matches('\n').count(), 1, "{message:?}");
        assert_eq!(read_message(&message), Framed::Arguments(argv), "{message:?}");
    }
}

#[test]
fn the_one_word_stop_is_forwarded_as_the_stop_message() {
    let message = match startup(&plain(None, None), &strings(&["stop"]), true, false) {
        StartupAction::Send { message } => message,
        other => panic!("came to {other:?}"),
    };
    assert_eq!(message, "stop\n");
    assert_eq!(read_message(&message), Framed::Stop);
}
