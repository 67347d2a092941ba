use wormhole_console::events::{
    ButtonState, FrameOutput, Key, KeyboardInput, MouseScrollUnit, MouseWheel, StdErr, StdErrEvent,
    StdIn, StdOut, StdOutEvent, SystemInfo,
};
use wormhole_console::registry::CommandMap;
use wormhole_console::session::{console_error, console_greeter, console_output, tick, ConsoleState};
use wormhole_console::text::tokenize;

#[test]
fn tokenize_splits_on_whitespace_runs() {
    let toks = tokenize("  load file.esm  ");
    assert_eq!(toks, vec!["load".to_string(), "file.esm".to_string()]);
    assert_eq!(tokenize(""), Vec::<String>::new());
    assert_eq!(tokenize("   "), Vec::<String>::new());
    assert_eq!(tokenize("one"), vec!["one".to_string()]);
    assert_eq!(tokenize("a\u{3000}b"), vec!["a".to_string(), "b".to_string()]);
}

#[test]
fn greeter_emits_the_banner() {
    let mut stdout = Vec::new();
    console_greeter(&mut stdout);
    assert_eq!(stdout.len(), 1);
    assert_eq!(stdout[0].value, "ROBCO INDUSTRIES (TM) TERMLINK PROTOCOL\n");
}

#[test]
fn output_log_appends_in_arrival_order() {
    let mut log = StdOut { sections: vec!["old\n".to_string()] };
    let events = vec![
        StdOutEvent { value: "a\n".to_string() },
        StdOutEvent { value: "b\n".to_string() },
    ];
    console_output(&mut log, &events);
    assert_eq!(log.sections, vec!["old\n".to_string(), "a\n".to_string(), "b\n".to_string()]);
}

#[test]
fn error_log_appends_in_arrival_order() {
    let mut log = StdErr { sections: Vec::new() };
    let events = vec![
        StdErrEvent { value: "oops\n".to_string() },
        StdErrEvent { value: "again\n".to_string() },
    ];
    console_error(&mut log, &events);
    assert_eq!(log.sections, vec!["oops\n".to_string(), "again\n".to_string()]);
}

#[test]
fn one_tick_drives_input_scroll_and_blink() {
    let mut state = ConsoleState::new();
    let commands = CommandMap::with_builtins();
    let info = SystemInfo {
        os: "os".to_string(),
        kernel: "k".to_string(),
        cpu: "c".to_string(),
        core_count: "4".to_string(),
        memory: "1".to_string(),
    };
    let mut display = StdIn {
        prompt: ">".to_string(),
        value: String::new(),
        cursor: "\u{2588}".to_string(),
    };
    let keys = vec![
        KeyboardInput { key: Key::Character("version".to_string()), state: ButtonState::Pressed },
        KeyboardInput { key: Key::Enter, state: ButtonState::Pressed },
    ];
    let wheel = vec![MouseWheel { unit: MouseScrollUnit::Line, y: -2 }];
    let out: FrameOutput = tick(
        &mut state,
        &keys,
        &wheel,
        1500,
        500,
        200,
        &commands,
        &info,
        &mut display,
    );
    let texts: Vec<String> = out.stdout.iter().map(|e| e.value.clone()).collect();
    assert_eq!(
        texts,
        vec![">version\n".to_string(), "wormhole_console 0.1.0\n".to_string()]
    );
    assert_eq!(out.exit_requests, 0);
    assert_eq!(state.position, -40);
    assert!(state.toggle);
    assert_eq!(state.ticker_ms, 500);
    assert_eq!(display.value, "");
}
