use wormhole_console::events::{
    ButtonState, FrameOutput, Key, KeyboardInput, MouseScrollUnit, MouseWheel, StdIn, SystemInfo,
};
use wormhole_console::registry::{Command, CommandMap};
use wormhole_console::session::ConsoleState;

fn press(key: Key) -> KeyboardInput {
    KeyboardInput { key, state: ButtonState::Pressed }
}

fn release(key: Key) -> KeyboardInput {
    KeyboardInput { key, state: ButtonState::Released }
}

fn typed(s: &str) -> KeyboardInput {
    press(Key::Character(s.to_string()))
}

fn display() -> StdIn {
    StdIn { prompt: ">".to_string(), value: String::new(), cursor: "\u{2588}".to_string() }
}

fn info() -> SystemInfo {
    SystemInfo {
        os: "TestOS 1.0".to_string(),
        kernel: "9.9.9".to_string(),
        cpu: "Imaginary 3000".to_string(),
        core_count: "8".to_string(),
        memory: "16 GiB".to_string(),
    }
}

fn run(state: &mut ConsoleState, events: Vec<KeyboardInput>) -> FrameOutput {
    let commands = CommandMap::with_builtins();
    let mut out = FrameOutput::new();
    let mut d = display();
    state.console_input(&events, &commands, &info(), &mut out, &mut d);
    assert_eq!(d.value, state.stdin);
    out
}

fn outputs(out: &FrameOutput) -> Vec<String> {
    out.stdout.iter().map(|e| e.value.clone()).collect()
}

#[test]
fn printable_fragments_append_in_order() {
    let mut state = ConsoleState::new();
    let out = run(&mut state, vec![typed("hel"), typed("lo "), typed("world")]);
    assert_eq!(state.stdin, "hello world");
    assert_eq!(outputs(&out), Vec::<String>::new());
    assert_eq!(out.exit_requests, 0);
}

#[test]
fn release_events_are_ignored() {
    let mut state = ConsoleState::new();
    run(&mut state, vec![release(Key::Character("x".to_string())), release(Key::Enter)]);
    assert_eq!(state.stdin, "");
}

#[test]
fn control_fragments_are_rejected_whole() {
    let mut state = ConsoleState::new();
    run(&mut state, vec![typed("ab"), typed("c\td"), typed("ef")]);
    assert_eq!(state.stdin, "abef");
}

#[test]
fn backspace_on_empty_is_noop() {
    let mut state = ConsoleState::new();
    let out = run(&mut state, vec![press(Key::Backspace)]);
    assert_eq!(state.stdin, "");
    assert_eq!(outputs(&out), Vec::<String>::new());
}

#[test]
fn backspace_drops_last_character() {
    let mut state = ConsoleState::new();
    run(&mut state, vec![typed("abc"), press(Key::Backspace)]);
    assert_eq!(state.stdin, "ab");
}

#[test]
fn enter_on_empty_buffer_is_silent() {
    let mut state = ConsoleState::new();
    let out = run(&mut state, vec![press(Key::Enter)]);
    assert_eq!(state.stdin, "");
    assert_eq!(outputs(&out), Vec::<String>::new());
    assert_eq!(out.exit_requests, 0);
}

#[test]
fn help_prints_the_usage_block_once() {
    let mut state = ConsoleState::new();
    let out = run(&mut state, vec![typed("help"), press(Key::Enter)]);
    let help = "debug               Print debug information.\n\
                exit                Exit wormhole.\n\
                help                Display this help text.\n\
                load filename       Load an ESM or BSA file.\n\
                system              Print system information.\n\
                version             Build information.\n";
    assert_eq!(outputs(&out), vec![">help\n".to_string(), help.to_string()]);
    assert_eq!(out.stdout.iter().filter(|e| e.value == help).count(), 1);
    assert_eq!(state.stdin, "");
}

#[test]
fn version_prints_name_and_version() {
    let mut state = ConsoleState::new();
    let out = run(&mut state, vec![typed("version"), press(Key::Enter)]);
    let expected = format!(
        "{} {}\n",
        wormhole_console::session::NAME,
        wormhole_console::session::VERSION
    );
    assert_eq!(expected, "wormhole_console 0.1.0\n");
    assert_eq!(outputs(&out), vec![">version\n".to_string(), expected]);
}

#[test]
fn unknown_command_reports_on_standard_output() {
    let mut state = ConsoleState::new();
    let out = run(&mut state, vec![typed("frobnicate"), press(Key::Enter)]);
    assert_eq!(
        outputs(&out),
        vec![">frobnicate\n".to_string(), "unknown command: frobnicate\n".to_string()]
    );
    assert_eq!(out.exit_requests, 0);
}

#[test]
fn exit_requests_termination_exactly_once() {
    let mut state = ConsoleState::new();
    let out = run(&mut state, vec![typed("exit"), press(Key::Enter)]);
    assert_eq!(out.exit_requests, 1);
    assert_eq!(outputs(&out), vec![">exit\n".to_string()]);
    assert_eq!(state.stdin, "");
}

#[test]
fn debug_and_load_are_stubs() {
    let mut state = ConsoleState::new();
    let out = run(&mut state, vec![typed("debug"), press(Key::Enter)]);
    assert_eq!(outputs(&out), vec![">debug\n".to_string(), "unimplemented\n".to_string()]);
    let out = run(&mut state, vec![typed("load file.esm"), press(Key::Enter)]);
    assert_eq!(
        outputs(&out),
        vec![">load file.esm\n".to_string(), "unimplemented\n".to_string()]
    );
}

#[test]
fn system_prints_the_report() {
    let mut state = ConsoleState::new();
    let out = run(&mut state, vec![typed("system"), press(Key::Enter)]);
    let report = "OS:     TestOS 1.0\n\
                  Kernel: 9.9.9\n\
                  CPU:    Imaginary 3000\n\
                  Cores:  8\n\
                  Memory: 16 GiB\n";
    assert_eq!(outputs(&out), vec![">system\n".to_string(), report.to_string()]);
}

#[test]
fn whitespace_only_line_echoes_and_clears() {
    let mut state = ConsoleState::new();
    let out = run(&mut state, vec![typed("   "), press(Key::Enter)]);
    assert_eq!(outputs(&out), vec![">   \n".to_string()]);
    assert_eq!(state.stdin, "");
}

#[test]
fn other_keys_and_empty_fragments_do_nothing() {
    let mut state = ConsoleState::new();
    let out = run(&mut state, vec![press(Key::Other), typed(""), press(Key::Other)]);
    assert_eq!(state.stdin, "");
    assert_eq!(outputs(&out), Vec::<String>::new());
}

#[test]
fn two_submissions_in_one_frame_run_in_order() {
    let mut state = ConsoleState::new();
    let out = run(
        &mut state,
        vec![typed("exit"), press(Key::Enter), typed("exit"), press(Key::Enter)],
    );
    assert_eq!(out.exit_requests, 2);
    assert_eq!(outputs(&out), vec![">exit\n".to_string(), ">exit\n".to_string()]);
}

#[test]
fn command_registry_lookup_and_overwrite() {
    let commands = CommandMap::with_builtins();
    assert_eq!(commands.lookup(&"debug".to_string()), Some(Command::Debug));
    assert_eq!(commands.lookup(&"exit".to_string()), Some(Command::Exit));
    assert_eq!(commands.lookup(&"load".to_string()), Some(Command::Load));
    assert_eq!(commands.lookup(&"system".to_string()), Some(Command::System));
    assert_eq!(commands.lookup(&"help".to_string()), None);
    assert_eq!(commands.lookup(&"".to_string()), None);

    let mut m = CommandMap::new();
    m.register("x".to_string(), Command::Debug);
    m.register("x".to_string(), Command::Exit);
    assert_eq!(m.lookup(&"x".to_string()), Some(Command::Exit));
}

#[test]
fn scroll_clamps_between_max_scroll_and_zero() {
    let mut state = ConsoleState::new();
    let up = vec![MouseWheel { unit: MouseScrollUnit::Line, y: 1 }];
    state.console_scroll(&up, 500, 200);
    assert_eq!(state.position, 0);
    let down = vec![MouseWheel { unit: MouseScrollUnit::Line, y: -5 }];
    state.console_scroll(&down, 500, 200);
    assert_eq!(state.position, -100);
    let far = vec![MouseWheel { unit: MouseScrollUnit::Line, y: -20 }];
    state.console_scroll(&far, 500, 200);
    assert_eq!(state.position, -300);
    let pixels = vec![MouseWheel { unit: MouseScrollUnit::Pixel, y: 25 }];
    state.console_scroll(&pixels, 500, 200);
    assert_eq!(state.position, -275);
}

#[test]
fn scroll_is_pinned_when_content_fits() {
    let mut state = ConsoleState::new();
    let down = vec![MouseWheel { unit: MouseScrollUnit::Line, y: -5 }];
    state.console_scroll(&down, 150, 200);
    assert_eq!(state.position, 0);
}

#[test]
fn cursor_toggles_once_per_second_across_small_ticks() {
    let mut state = ConsoleState::new();
    let mut d = display();
    assert!(!state.toggle);
    for _ in 0..9 {
        state.cursor_tick(100, &mut d);
        assert!(!state.toggle);
        assert_eq!(d.cursor, "\u{2588}");
    }
    state.cursor_tick(100, &mut d);
    assert!(state.toggle);
    assert_eq!(d.cursor, "\u{2588}");
}

#[test]
fn cursor_timer_accumulates_fractions() {
    let mut state = ConsoleState::new();
    let mut d = display();
    state.cursor_tick(999, &mut d);
    assert!(!state.toggle);
    assert_eq!(d.cursor, "\u{2588}");
    state.cursor_tick(1, &mut d);
    assert!(state.toggle);
    assert_eq!(d.cursor, "\u{2588}");
    state.cursor_tick(2000, &mut d);
    assert!(state.toggle);
    assert_eq!(d.cursor, "\u{2588}");
    state.cursor_tick(1000, &mut d);
    assert!(!state.toggle);
    assert_eq!(d.cursor, " ");
}
