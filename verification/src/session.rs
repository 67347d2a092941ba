//! The console session: input-line editing, command dispatch, output
//! sinks, scroll clamping and the cursor-blink timer.

use vstd::prelude::*;

use crate::events::{
    ButtonState, FrameOutput, Key, KeyboardInput, MouseScrollUnit, MouseWheel, StdErr, StdErrEvent,
    StdIn, StdOut, StdOutEvent, SystemInfo,
};
use crate::registry::{Command, CommandMap};
use crate::text::{contains_control, has_control, is_control_char, tokenize, tokens_of};

verus! {

/// The line printed when the console starts.
pub const GREET: &'static str = "ROBCO INDUSTRIES (TM) TERMLINK PROTOCOL\n";

/// The program name reported by `version`.
pub const NAME: &'static str = "wormhole_console";

/// The program version reported by `version`.
pub const VERSION: &'static str = "0.1.0";

/// The usage block printed by `help`: every command with a one-line
/// description.
pub const HELP: &'static str = "debug               Print debug information.\nexit                Exit wormhole.\nhelp                Display this help text.\nload filename       Load an ESM or BSA file.\nsystem              Print system information.\nversion             Build information.\n";

/// The text payloads of a sequence of standard-output events, in order.
pub open spec fn payloads(evs: Seq<StdOutEvent>) -> Seq<Seq<char>> {
    evs.map_values(|e: StdOutEvent| e.value@)
}

/// The text payloads of a sequence of error events, in order.
pub open spec fn err_payloads(evs: Seq<StdErrEvent>) -> Seq<Seq<char>> {
    evs.map_values(|e: StdErrEvent| e.value@)
}

/// The system report: OS name, kernel version, CPU model, core count and
/// memory size, one labelled line each.
pub open spec fn system_report(info: SystemInfo) -> Seq<char> {
    "OS:     "@ + info.os@ + "\nKernel: "@ + info.kernel@ + "\nCPU:    "@ + info.cpu@
        + "\nCores:  "@ + info.core_count@ + "\nMemory: "@ + info.memory@ + "\n"@
}

/// What a shell built-in prints for the command name `name`: the usage
/// block for `help`, name and version for `version`, and an
/// unknown-command line (still on standard output) for anything else.
pub open spec fn shell_output(name: Seq<char>) -> Seq<char> {
    if name == "help"@ {
        HELP@
    } else if name == "version"@ {
        NAME@ + " "@ + VERSION@ + "\n"@
    } else {
        "unknown command: "@ + name + "\n"@
    }
}

/// The standard-output payloads a registry handler emits. `exit` prints
/// nothing; it requests termination instead.
pub open spec fn command_outputs(c: Command, info: SystemInfo) -> Seq<Seq<char>> {
    match c {
        Command::Debug => seq!["unimplemented\n"@],
        Command::Exit => Seq::empty(),
        Command::Load => seq!["unimplemented\n"@],
        Command::System => seq![system_report(info)],
    }
}

/// `debug`: a stub; emits one fixed placeholder line.
pub fn command_debug(stdout: &mut Vec<StdOutEvent>)
    ensures
        payloads(final(stdout)@) == payloads(old(stdout)@).push("unimplemented\n"@),
{
    let ghost pre = stdout@;
    stdout.push(StdOutEvent { value: String::from_str("unimplemented\n") });
    proof {
        assert(payloads(stdout@) =~= payloads(pre).push("unimplemented\n"@));
    }
}

/// `exit`: request orderly termination of the host process with success
/// status.
pub fn command_exit(out: &mut FrameOutput)
    requires
        old(out).exit_requests < usize::MAX,
    ensures
        final(out).stdout == old(out).stdout,
        final(out).exit_requests == old(out).exit_requests + 1,
{
    out.exit_requests = out.exit_requests + 1;
}

/// `load`: a stub; emits one fixed placeholder line.
pub fn command_load(stdout: &mut Vec<StdOutEvent>)
    ensures
        payloads(final(stdout)@) == payloads(old(stdout)@).push("unimplemented\n"@),
{
    let ghost pre = stdout@;
    stdout.push(StdOutEvent { value: String::from_str("unimplemented\n") });
    proof {
        assert(payloads(stdout@) =~= payloads(pre).push("unimplemented\n"@));
    }
}

/// `system`: emit the system report built from the host's snapshot.
pub fn command_system(stdout: &mut Vec<StdOutEvent>, info: &SystemInfo)
    ensures
        payloads(final(stdout)@) == payloads(old(stdout)@).push(system_report(*info)),
{
    let ghost pre = stdout@;
    let mut s = String::from_str("OS:     ");
    s.append(info.os.as_str());
    s.append("\nKernel: ");
    s.append(info.kernel.as_str());
    s.append("\nCPU:    ");
    s.append(info.cpu.as_str());
    s.append("\nCores:  ");
    s.append(info.core_count.as_str());
    s.append("\nMemory: ");
    s.append(info.memory.as_str());
    s.append("\n");
    proof {
        assert(s@ =~= system_report(*info));
    }
    stdout.push(StdOutEvent { value: s });
    proof {
        assert(payloads(stdout@) =~= payloads(pre).push(system_report(*info)));
    }
}

/// Run the handler a registry lookup returned.
pub fn run_command(c: Command, info: &SystemInfo, out: &mut FrameOutput)
    requires
        old(out).exit_requests < usize::MAX,
    ensures
        payloads(final(out).stdout@) == payloads(old(out).stdout@) + command_outputs(c, *info),
        final(out).exit_requests == old(out).exit_requests + (if c is Exit {
            1int
        } else {
            0int
        }),
{
    let ghost pre = out.stdout@;
    match c {
        Command::Debug => command_debug(&mut out.stdout),
        Command::Exit => command_exit(out),
        Command::Load => command_load(&mut out.stdout),
        Command::System => command_system(&mut out.stdout, info),
    }
    proof {
        assert(payloads(out.stdout@) =~= payloads(pre) + command_outputs(c, *info));
    }
}

/// Resolve a command name against the shell built-ins: `help`, `version`,
/// or the unknown-command fallback. `args` are the whitespace tokens of
/// the submitted line; only the first is consulted — arguments are
/// tokenized but not forwarded to any command.
pub fn shell(stdout: &mut Vec<StdOutEvent>, args: &Vec<String>)
    requires
        args@.len() > 0,
    ensures
        payloads(final(stdout)@) == payloads(old(stdout)@).push(shell_output(args@[0]@)),
{
    let ghost pre = stdout@;
    let help_name = String::from_str("help");
    let version_name = String::from_str("version");
    if args[0] == help_name {
        stdout.push(StdOutEvent { value: String::from_str(HELP) });
    } else if args[0] == version_name {
        let mut v = String::from_str(NAME);
        v.append(" ");
        v.append(VERSION);
        v.append("\n");
        proof {
            assert(v@ =~= NAME@ + " "@ + VERSION@ + "\n"@);
        }
        stdout.push(StdOutEvent { value: v });
    } else {
        let mut u = String::from_str("unknown command: ");
        u.append(args[0].as_str());
        u.append("\n");
        proof {
            assert(u@ =~= "unknown command: "@ + args@[0]@ + "\n"@);
        }
        stdout.push(StdOutEvent { value: u });
    }
    proof {
        assert(payloads(stdout@) =~= payloads(pre).push(shell_output(args@[0]@)));
    }
}

/// The greeting the console prints once at startup.
pub fn console_greeter(stdout: &mut Vec<StdOutEvent>)
    ensures
        payloads(final(stdout)@) == payloads(old(stdout)@).push(GREET@),
{
    let ghost pre = stdout@;
    stdout.push(StdOutEvent { value: String::from_str(GREET) });
    proof {
        assert(payloads(stdout@) =~= payloads(pre).push(GREET@));
    }
}

/// Whether a key event is a press (or repeat). Release events are
/// ignored unconditionally.
pub open spec fn is_press(e: KeyboardInput) -> bool {
    e.state is Pressed
}

/// The input line after one keyboard event: Enter submits (and clears a
/// nonempty line), Backspace drops the last character of a nonempty
/// line, a printable fragment is appended whole, and anything else —
/// releases, fragments containing control characters, other keys — is
/// ignored.
pub open spec fn buffer_step(buf: Seq<char>, e: KeyboardInput) -> Seq<char> {
    if !is_press(e) {
        buf
    } else {
        match e.key {
            Key::Enter => if buf.len() == 0 {
                buf
            } else {
                Seq::empty()
            },
            Key::Backspace => if buf.len() == 0 {
                buf
            } else {
                buf.drop_last()
            },
            Key::Character(t) => if has_control(t@) {
                buf
            } else {
                buf + t@
            },
            Key::Other => buf,
        }
    }
}

/// The input line after a sequence of keyboard events, in arrival order.
pub open spec fn buffer_after(buf: Seq<char>, evs: Seq<KeyboardInput>) -> Seq<char>
    decreases evs.len(),
{
    if evs.len() == 0 {
        buf
    } else {
        buffer_step(buffer_after(buf, evs.drop_last()), evs.last())
    }
}

/// The standard-output payloads one Enter on the line `buf` emits: on an
/// empty line, nothing; otherwise the echo of the line, then whatever
/// the dispatched command prints. The first whitespace token picks the
/// command: a registry entry if one matches, a shell built-in otherwise;
/// a line with no tokens dispatches nothing.
pub open spec fn enter_outputs(buf: Seq<char>, reg: Map<Seq<char>, Command>, info: SystemInfo) -> Seq<
    Seq<char>,
> {
    if buf.len() == 0 {
        Seq::empty()
    } else {
        let echo = ">"@ + buf + "\n"@;
        let toks = tokens_of(buf);
        if toks.len() == 0 {
            seq![echo]
        } else if reg.contains_key(toks[0]) {
            seq![echo] + command_outputs(reg[toks[0]], info)
        } else {
            seq![echo] + seq![shell_output(toks[0])]
        }
    }
}

/// How many termination requests one Enter on the line `buf` issues:
/// one exactly when the line dispatches to the `exit` handler.
pub open spec fn enter_exits(buf: Seq<char>, reg: Map<Seq<char>, Command>) -> nat {
    if buf.len() > 0 && tokens_of(buf).len() > 0 && reg.contains_key(tokens_of(buf)[0]) && reg[
        tokens_of(buf)[0]
    ] is Exit {
        1
    } else {
        0
    }
}

/// The standard-output payloads one keyboard event emits, given the
/// input line it finds.
pub open spec fn outputs_step(
    buf: Seq<char>,
    e: KeyboardInput,
    reg: Map<Seq<char>, Command>,
    info: SystemInfo,
) -> Seq<Seq<char>> {
    if is_press(e) && e.key is Enter {
        enter_outputs(buf, reg, info)
    } else {
        Seq::empty()
    }
}

/// The termination requests one keyboard event issues.
pub open spec fn exits_step(buf: Seq<char>, e: KeyboardInput, reg: Map<Seq<char>, Command>) -> nat {
    if is_press(e) && e.key is Enter {
        enter_exits(buf, reg)
    } else {
        0
    }
}

/// The standard-output payloads a sequence of keyboard events emits, in
/// arrival order, starting from the input line `buf`.
pub open spec fn outputs_after(
    buf: Seq<char>,
    evs: Seq<KeyboardInput>,
    reg: Map<Seq<char>, Command>,
    info: SystemInfo,
) -> Seq<Seq<char>>
    decreases evs.len(),
{
    if evs.len() == 0 {
        Seq::empty()
    } else {
        outputs_after(buf, evs.drop_last(), reg, info) + outputs_step(
            buffer_after(buf, evs.drop_last()),
            evs.last(),
            reg,
            info,
        )
    }
}

/// The termination requests a sequence of keyboard events issues.
pub open spec fn exits_after(
    buf: Seq<char>,
    evs: Seq<KeyboardInput>,
    reg: Map<Seq<char>, Command>,
) -> nat
    decreases evs.len(),
{
    if evs.len() == 0 {
        0
    } else {
        exits_after(buf, evs.drop_last(), reg) + exits_step(
            buffer_after(buf, evs.drop_last()),
            evs.last(),
            reg,
        )
    }
}

/// How many whole blink periods elapse when `delta` milliseconds pass
/// with `acc` milliseconds already accumulated.
pub open spec fn blink_fires(acc: int, delta: int) -> int {
    (acc + delta) / 1000
}

/// The accumulated milliseconds left after those periods.
pub open spec fn blink_acc(acc: int, delta: int) -> int {
    (acc + delta) % 1000
}

/// The cursor toggle after `delta` milliseconds pass: it flips once per
/// elapsed whole period.
pub open spec fn blink_toggle(t: bool, acc: int, delta: int) -> bool {
    if blink_fires(acc, delta) % 2 == 1 {
        !t
    } else {
        t
    }
}

/// The scroll room the content leaves: zero when it fits the viewport.
pub open spec fn spec_max_scroll(content: int, viewport: int) -> int {
    if content > viewport {
        content - viewport
    } else {
        0
    }
}

/// A wheel event's delta in pixels: line-unit deltas are scaled by 20.
pub open spec fn wheel_delta(e: MouseWheel) -> int {
    match e.unit {
        MouseScrollUnit::Line => e.y * 20,
        MouseScrollUnit::Pixel => e.y as int,
    }
}

/// `v` clamped to `[lo, hi]`.
pub open spec fn clamp_to(v: int, lo: int, hi: int) -> int {
    if v < lo {
        lo
    } else if v > hi {
        hi
    } else {
        v
    }
}

/// The scroll offset after a sequence of wheel events, each applied and
/// clamped to `[-max, 0]` in turn.
pub open spec fn scroll_after(pos: int, evs: Seq<MouseWheel>, max: int) -> int
    decreases evs.len(),
{
    if evs.len() == 0 {
        pos
    } else {
        clamp_to(scroll_after(pos, evs.drop_last(), max) + wheel_delta(evs.last()), -max, 0)
    }
}

/// The mutable state of the console session: the not-yet-submitted input
/// line, the blink timer's accumulator and toggle, and the scroll offset
/// of the output log.
pub struct ConsoleState {
    /// The input line being edited; never holds a control character.
    pub stdin: String,
    /// Milliseconds accumulated towards the next cursor blink; below one
    /// period.
    pub ticker_ms: u32,
    /// The cursor toggle, flipped once per blink period.
    pub toggle: bool,
    /// The vertical scroll offset of the output log, in pixels; never
    /// positive.
    pub position: i64,
}

impl ConsoleState {
    /// The state's invariant: the line holds no control character, the
    /// timer sits inside one period, and the offset sits in the scroll
    /// range.
    pub open spec fn wf(&self) -> bool {
        &&& !has_control(self.stdin@)
        &&& self.ticker_ms < 1000
        &&& -(u32::MAX as int) <= self.position <= 0
    }

    /// A fresh session: empty line, timer at zero, toggle off, scrolled
    /// to the bottom.
    pub fn new() -> (r: ConsoleState)
        ensures
            r.wf(),
            r.stdin@ == Seq::<char>::empty(),
            r.ticker_ms == 0,
            !r.toggle,
            r.position == 0,
    {
        ConsoleState { stdin: String::new(), ticker_ms: 0, toggle: false, position: 0 }
    }

    /// Advance the blink timer by the frame's elapsed time. Once per
    /// elapsed whole period the toggle flips; if any period elapsed, the
    /// cursor glyph is redrawn: a solid block when the toggle is on, a
    /// blank otherwise.
    pub fn cursor_tick(&mut self, delta_ms: u32, display: &mut StdIn)
        requires
            old(self).wf(),
        ensures
            final(self).wf(),
            final(self).ticker_ms as int == blink_acc(old(self).ticker_ms as int, delta_ms as int),
            final(self).toggle == blink_toggle(
                old(self).toggle,
                old(self).ticker_ms as int,
                delta_ms as int,
            ),
            final(self).stdin == old(self).stdin,
            final(self).position == old(self).position,
            blink_fires(old(self).ticker_ms as int, delta_ms as int) > 0 ==> final(display).cursor@
                == (if final(self).toggle {
                "\u{2588}"@
            } else {
                " "@
            }),
            blink_fires(old(self).ticker_ms as int, delta_ms as int) == 0 ==> final(display).cursor
                == old(display).cursor,
            final(display).value == old(display).value,
            final(display).prompt == old(display).prompt,
    {
        let total: u64 = (self.ticker_ms as u64) + (delta_ms as u64);
        let fires: u64 = total / 1000;
        self.ticker_ms = (total % 1000) as u32;
        if fires % 2 == 1 {
            self.toggle = !self.toggle;
        }
        if fires > 0 {
            if self.toggle {
                display.cursor = String::from_str("\u{2588}");
            } else {
                display.cursor = String::from_str(" ");
            }
        }
    }

    /// Apply a frame's wheel events to the scroll offset, clamping each
    /// step to the room the content leaves below the viewport.
    pub fn console_scroll(&mut self, events: &Vec<MouseWheel>, content_height: u32, viewport_height: u32)
        requires
            old(self).wf(),
        ensures
            final(self).wf(),
            final(self).position as int == scroll_after(
                old(self).position as int,
                events@,
                spec_max_scroll(content_height as int, viewport_height as int),
            ),
            final(self).stdin == old(self).stdin,
            final(self).ticker_ms == old(self).ticker_ms,
            final(self).toggle == old(self).toggle,
    {
        let max_scroll: i64 = if content_height > viewport_height {
            (content_height as i64) - (viewport_height as i64)
        } else {
            0
        };
        let ghost p0 = self.position as int;
        let ghost maxg = spec_max_scroll(content_height as int, viewport_height as int);
        let n: usize = events.len();
        let mut i: usize = 0;
        proof {
            assert(events@.take(0) =~= Seq::<MouseWheel>::empty());
        }
        while i < n
            invariant
                i <= n,
                n == events@.len(),
                max_scroll == maxg,
                maxg == spec_max_scroll(content_height as int, viewport_height as int),
                0 <= max_scroll <= u32::MAX,
                self.position as int == scroll_after(p0, events@.take(i as int), maxg),
                -(u32::MAX as int) <= self.position <= 0,
                p0 == old(self).position as int,
                self.stdin == old(self).stdin,
                self.ticker_ms == old(self).ticker_ms,
                self.toggle == old(self).toggle,
            decreases n - i,
        {
            proof {
                assert(events@.take(i as int + 1).drop_last() =~= events@.take(i as int));
                assert(events@.take(i as int + 1).last() == events@[i as int]);
            }
            let e = events[i];
            let dy: i64 = match e.unit {
                MouseScrollUnit::Line => (e.y as i64) * 20,
                MouseScrollUnit::Pixel => e.y as i64,
            };
            let mut p: i64 = self.position + dy;
            if p > 0 {
                p = 0;
            }
            if p < -max_scroll {
                p = -max_scroll;
            }
            self.position = p;
            i = i + 1;
        }
        proof {
            assert(events@.take(n as int) =~= events@);
        }
    }

    /// Process a frame's keyboard events in arrival order — editing the
    /// input line, echoing and dispatching submitted commands, counting
    /// termination requests — then resynchronize the visible input line.
    pub fn console_input(
        &mut self,
        events: &Vec<KeyboardInput>,
        commands: &CommandMap,
        info: &SystemInfo,
        out: &mut FrameOutput,
        display: &mut StdIn,
    )
        requires
            old(self).wf(),
            old(out).exit_requests + events@.len() < usize::MAX,
        ensures
            final(self).wf(),
            final(self).stdin@ == buffer_after(old(self).stdin@, events@),
            payloads(final(out).stdout@) == payloads(old(out).stdout@) + outputs_after(
                old(self).stdin@,
                events@,
                commands@,
                *info,
            ),
            final(out).exit_requests == old(out).exit_requests + exits_after(
                old(self).stdin@,
                events@,
                commands@,
            ),
            final(self).ticker_ms == old(self).ticker_ms,
            final(self).toggle == old(self).toggle,
            final(self).position == old(self).position,
            final(display).value@ == final(self).stdin@,
            final(display).prompt == old(display).prompt,
            final(display).cursor == old(display).cursor,
    {
        let ghost buf0 = self.stdin@;
        let ghost out0 = out.stdout@;
        let ghost ex0 = out.exit_requests as int;
        let ghost reg = commands@;
        let n: usize = events.len();
        let mut i: usize = 0;
        proof {
            assert(events@.take(0) =~= Seq::<KeyboardInput>::empty());
            assert(payloads(out0) + outputs_after(buf0, events@.take(0), reg, *info) =~= payloads(
                out0,
            ));
        }
        while i < n
            invariant
                i <= n,
                n == events@.len(),
                self.wf(),
                ex0 + n < usize::MAX,
                self.stdin@ == buffer_after(buf0, events@.take(i as int)),
                payloads(out.stdout@) == payloads(out0) + outputs_after(
                    buf0,
                    events@.take(i as int),
                    reg,
                    *info,
                ),
                out.exit_requests == ex0 + exits_after(buf0, events@.take(i as int), reg),
                exits_after(buf0, events@.take(i as int), reg) <= i,
                reg == commands@,
                buf0 == old(self).stdin@,
                out0 == old(out).stdout@,
                ex0 == old(out).exit_requests as int,
                self.ticker_ms == old(self).ticker_ms,
                self.toggle == old(self).toggle,
                self.position == old(self).position,
                *display == *old(display),
            decreases n - i,
        {
            proof {
                assert(events@.take(i as int + 1).drop_last() =~= events@.take(i as int));
                assert(events@.take(i as int + 1).last() == events@[i as int]);
            }
            let ghost bpre = self.stdin@;
            let ghost opre = out.stdout@;
            let ghost xpre = out.exit_requests as int;
            let ghost gev = events@[i as int];
            let ev = &events[i];
            if ev.state == ButtonState::Released {
                // ignore release events
            } else {
                match &ev.key {
                    Key::Enter => {
                        if self.stdin.as_str().is_empty() {
                            // ignore an empty line: no echo, no dispatch
                        } else {
                            let mut echo = String::from_str(">");
                            echo.append(self.stdin.as_str());
                            echo.append("\n");
                            proof {
                                assert(echo@ =~= ">"@ + bpre + "\n"@);
                            }
                            let ghost oecho = out.stdout@;
                            out.stdout.push(StdOutEvent { value: echo });
                            proof {
                                assert(payloads(out.stdout@) =~= payloads(oecho).push(
                                    ">"@ + bpre + "\n"@,
                                ));
                            }
                            let toks = tokenize(self.stdin.as_str());
                            if toks.len() > 0 {
                                proof {
                                    assert(toks.deep_view()[0] == toks@[0]@);
                                    assert(toks@[0]@ == tokens_of(bpre)[0]);
                                }
                                match commands.lookup(&toks[0]) {
                                    Some(c) => {
                                        run_command(c, info, out);
                                    },
                                    None => {
                                        shell(&mut out.stdout, &toks);
                                    },
                                }
                            }
                            self.stdin = String::new();
                            proof {
                                let outs = outputs_step(bpre, gev, reg, *info);
                                assert(outs == enter_outputs(bpre, reg, *info));
                                assert(payloads(out.stdout@) =~= payloads(opre) + outs);
                            }
                        }
                    },
                    Key::Backspace => {
                        let len: usize = self.stdin.as_str().unicode_len();
                        if len > 0 {
                            let t = self.stdin.as_str().substring_char(0, len - 1).to_owned();
                            self.stdin = t;
                            proof {
                                assert(self.stdin@ =~= bpre.drop_last());
                                assert(!has_control(self.stdin@));
                            }
                        }
                    },
                    Key::Character(t) => {
                        if contains_control(t.as_str()) {
                            // reject fragments holding control characters
                        } else {
                            self.stdin.append(t.as_str());
                            proof {
                                assert(self.stdin@ == bpre + t@);
                                assert forall|j: int|
                                    0 <= j < self.stdin@.len() implies !is_control_char(
                                    self.stdin@[j],
                                ) by {
                                    if j < bpre.len() {
                                        assert(self.stdin@[j] == bpre[j]);
                                    } else {
                                        assert(self.stdin@[j] == t@[j - bpre.len()]);
                                    }
                                }
                                assert(!has_control(self.stdin@));
                            }
                        }
                    },
                    Key::Other => {
                        // every other key is ignored
                    },
                }
            }
            i = i + 1;
            proof {
                assert(self.stdin@ == buffer_step(bpre, gev));
                assert(payloads(out.stdout@) =~= payloads(opre) + outputs_step(
                    bpre,
                    gev,
                    reg,
                    *info,
                ));
                assert(out.exit_requests == xpre + exits_step(bpre, gev, reg));
                assert(payloads(out.stdout@) =~= payloads(out0) + outputs_after(
                    buf0,
                    events@.take(i as int),
                    reg,
                    *info,
                ));
            }
        }
        proof {
            assert(events@.take(n as int) =~= events@);
        }
        display.value = self.stdin.clone();
    }
}

/// Drain a frame's standard-output events into the output log, in
/// arrival order. History is only ever appended to.
pub fn console_output(log: &mut StdOut, events: &Vec<StdOutEvent>)
    ensures
        final(log).sections.deep_view() == old(log).sections.deep_view() + payloads(events@),
{
    let ghost s0 = log.sections.deep_view();
    let n: usize = events.len();
    let mut i: usize = 0;
    proof {
        assert(events@.take(0) =~= Seq::<StdOutEvent>::empty());
        assert(s0 + payloads(events@.take(0)) =~= s0);
    }
    while i < n
        invariant
            i <= n,
            n == events@.len(),
            s0 == old(log).sections.deep_view(),
            log.sections.deep_view() == s0 + payloads(events@.take(i as int)),
        decreases n - i,
    {
        proof {
            assert(events@.take(i as int + 1).drop_last() =~= events@.take(i as int));
            assert(events@.take(i as int + 1).last() == events@[i as int]);
        }
        let ghost pre = log.sections.deep_view();
        log.sections.push(events[i].value.clone());
        proof {
            assert(log.sections.deep_view() =~= pre.push(events@[i as int].value@));
            assert(payloads(events@.take(i as int + 1)) =~= payloads(events@.take(i as int)).push(
                events@[i as int].value@,
            ));
        }
        i = i + 1;
    }
    proof {
        assert(events@.take(n as int) =~= events@);
    }
}

/// Drain a frame's error events into the error log, in arrival order.
/// History is only ever appended to.
pub fn console_error(log: &mut StdErr, events: &Vec<StdErrEvent>)
    ensures
        final(log).sections.deep_view() == old(log).sections.deep_view() + err_payloads(events@),
{
    let ghost s0 = log.sections.deep_view();
    let n: usize = events.len();
    let mut i: usize = 0;
    proof {
        assert(events@.take(0) =~= Seq::<StdErrEvent>::empty());
        assert(s0 + err_payloads(events@.take(0)) =~= s0);
    }
    while i < n
        invariant
            i <= n,
            n == events@.len(),
            s0 == old(log).sections.deep_view(),
            log.sections.deep_view() == s0 + err_payloads(events@.take(i as int)),
        decreases n - i,
    {
        proof {
            assert(events@.take(i as int + 1).drop_last() =~= events@.take(i as int));
            assert(events@.take(i as int + 1).last() == events@[i as int]);
        }
        let ghost pre = log.sections.deep_view();
        log.sections.push(events[i].value.clone());
        proof {
            assert(log.sections.deep_view() =~= pre.push(events@[i as int].value@));
            assert(err_payloads(events@.take(i as int + 1)) =~= err_payloads(
                events@.take(i as int),
            ).push(events@[i as int].value@));
        }
        i = i + 1;
    }
    proof {
        assert(events@.take(n as int) =~= events@);
    }
}

/// One frame of the session: process the keyboard events, apply the
/// wheel events against the heights the host's layout reports, advance
/// the blink timer, and hand back what the frame emitted.
pub fn tick(
    state: &mut ConsoleState,
    keys: &Vec<KeyboardInput>,
    wheel: &Vec<MouseWheel>,
    delta_ms: u32,
    content_height: u32,
    viewport_height: u32,
    commands: &CommandMap,
    info: &SystemInfo,
    display: &mut StdIn,
) -> (out: FrameOutput)
    requires
        old(state).wf(),
        keys@.len() < usize::MAX,
    ensures
        final(state).wf(),
        final(state).stdin@ == buffer_after(old(state).stdin@, keys@),
        payloads(out.stdout@) == outputs_after(old(state).stdin@, keys@, commands@, *info),
        out.exit_requests == exits_after(old(state).stdin@, keys@, commands@),
        final(state).position as int == scroll_after(
            old(state).position as int,
            wheel@,
            spec_max_scroll(content_height as int, viewport_height as int),
        ),
        final(state).ticker_ms as int == blink_acc(old(state).ticker_ms as int, delta_ms as int),
        final(state).toggle == blink_toggle(
            old(state).toggle,
            old(state).ticker_ms as int,
            delta_ms as int,
        ),
        final(display).value@ == final(state).stdin@,
        final(display).prompt == old(display).prompt,
{
    let mut out = FrameOutput::new();
    proof {
        assert(payloads(out.stdout@) =~= Seq::<Seq<char>>::empty());
    }
    state.console_input(keys, commands, info, &mut out, display);
    proof {
        assert(Seq::<Seq<char>>::empty() + outputs_after(
            old(state).stdin@,
            keys@,
            commands@,
            *info,
        ) =~= outputs_after(old(state).stdin@, keys@, commands@, *info));
    }
    state.console_scroll(wheel, content_height, viewport_height);
    state.cursor_tick(delta_ms, display);
    out
}

/// The text a key event contributes to the input line: the payload of a
/// `Character` key, nothing for any other key.
pub open spec fn payload_of(e: KeyboardInput) -> Seq<char> {
    match e.key {
        Key::Character(t) => t@,
        _ => Seq::empty(),
    }
}

/// The concatenation of the events' text payloads, in arrival order.
pub open spec fn concat_payloads(evs: Seq<KeyboardInput>) -> Seq<char>
    decreases evs.len(),
{
    if evs.len() == 0 {
        Seq::empty()
    } else {
        concat_payloads(evs.drop_last()) + payload_of(evs.last())
    }
}

/// Law: a sequence of presses of printable text fragments — none holding
/// a control character — appends exactly the concatenation of their
/// payloads, in arrival order, to the input line.
pub proof fn lemma_printable_input_appends(buf: Seq<char>, evs: Seq<KeyboardInput>)
    requires
        forall|i: int|
            0 <= i < evs.len() ==> is_press(#[trigger] evs[i]) && evs[i].key is Character
                && !has_control(payload_of(evs[i])),
    ensures
        buffer_after(buf, evs) == buf + concat_payloads(evs),
    decreases evs.len(),
{
    if evs.len() == 0 {
        assert(buf + concat_payloads(evs) =~= buf);
    } else {
        let pre = evs.drop_last();
        assert(forall|i: int|
            0 <= i < pre.len() ==> is_press(#[trigger] pre[i]) && pre[i].key is Character
                && !has_control(payload_of(pre[i]))) by {
            assert(forall|i: int| 0 <= i < pre.len() ==> pre[i] == evs[i]);
        }
        lemma_printable_input_appends(buf, pre);
        assert(evs[evs.len() - 1] == evs.last());
        assert(buffer_step(buf + concat_payloads(pre), evs.last()) == (buf + concat_payloads(pre))
            + payload_of(evs.last()));
        assert((buf + concat_payloads(pre)) + payload_of(evs.last()) =~= buf + concat_payloads(
            evs,
        ));
    }
}

/// Law: Backspace on an empty input line is a no-op.
pub proof fn lemma_backspace_on_empty(e: KeyboardInput)
    requires
        e.key is Backspace,
    ensures
        buffer_step(Seq::<char>::empty(), e) == Seq::<char>::empty(),
{
}

/// Law: Enter on an empty input line emits no output event, requests no
/// termination, and leaves the line unchanged.
pub proof fn lemma_enter_on_empty(
    e: KeyboardInput,
    reg: Map<Seq<char>, Command>,
    info: SystemInfo,
)
    requires
        e.key is Enter,
    ensures
        buffer_step(Seq::<char>::empty(), e) == Seq::<char>::empty(),
        outputs_step(Seq::<char>::empty(), e, reg, info) == Seq::<Seq<char>>::empty(),
        exits_step(Seq::<char>::empty(), e, reg) == 0,
{
}

/// Law: splitting elapsed time over two frames leaves the blink timer
/// exactly where one frame of their sum would: whole periods elapsed
/// add up, and the toggle and accumulator agree.
pub proof fn lemma_blink_accumulates(t: bool, acc: int, d1: int, d2: int)
    requires
        0 <= acc < 1000,
        0 <= d1,
        0 <= d2,
    ensures
        blink_fires(acc, d1) + blink_fires(blink_acc(acc, d1), d2) == blink_fires(acc, d1 + d2),
        blink_acc(blink_acc(acc, d1), d2) == blink_acc(acc, d1 + d2),
        blink_toggle(blink_toggle(t, acc, d1), blink_acc(acc, d1), d2) == blink_toggle(
            t,
            acc,
            d1 + d2,
        ),
{
    let s = acc + d1;
    let q1 = s / 1000;
    let r1 = s % 1000;
    vstd::arithmetic::div_mod::lemma_fundamental_div_mod(s, 1000);
    vstd::arithmetic::div_mod::lemma_mod_bound(s, 1000);
    let w = (r1 + d2) / 1000;
    let r2 = (r1 + d2) % 1000;
    vstd::arithmetic::div_mod::lemma_fundamental_div_mod(r1 + d2, 1000);
    vstd::arithmetic::div_mod::lemma_mod_bound(r1 + d2, 1000);
    assert(s + d2 == (q1 + w) * 1000 + r2) by {
        assert((q1 + w) * 1000 == q1 * 1000 + w * 1000) by (nonlinear_arith);
    }
    vstd::arithmetic::div_mod::lemma_fundamental_div_mod_converse(s + d2, 1000, q1 + w, r2);
    assert(blink_fires(acc, d1 + d2) == q1 + w);
    assert(blink_acc(acc, d1 + d2) == r2);
    assert((q1 + w) % 2 == 1 <==> ((q1 % 2 == 1) != (w % 2 == 1))) by {
        let h1 = q1 / 2;
        let g1 = q1 % 2;
        let h2 = w / 2;
        let g2 = w % 2;
        vstd::arithmetic::div_mod::lemma_fundamental_div_mod(q1, 2);
        vstd::arithmetic::div_mod::lemma_mod_bound(q1, 2);
        vstd::arithmetic::div_mod::lemma_fundamental_div_mod(w, 2);
        vstd::arithmetic::div_mod::lemma_mod_bound(w, 2);
        assert(q1 + w == (h1 + h2) * 2 + (g1 + g2)) by (nonlinear_arith)
            requires
                q1 == h1 * 2 + g1,
                w == h2 * 2 + g2,
        ;
        if g1 + g2 < 2 {
            vstd::arithmetic::div_mod::lemma_fundamental_div_mod_converse(
                q1 + w,
                2,
                h1 + h2,
                g1 + g2,
            );
        } else {
            assert(q1 + w == (h1 + h2 + 1) * 2 + (g1 + g2 - 2)) by (nonlinear_arith)
                requires
                    q1 + w == (h1 + h2) * 2 + (g1 + g2),
            ;
            vstd::arithmetic::div_mod::lemma_fundamental_div_mod_converse(
                q1 + w,
                2,
                h1 + h2 + 1,
                g1 + g2 - 2,
            );
        }
    }
}

/// The total elapsed time of a sequence of frames.
pub open spec fn sum_of(ds: Seq<int>) -> int
    decreases ds.len(),
{
    if ds.len() == 0 {
        0
    } else {
        sum_of(ds.drop_last()) + ds.last()
    }
}

/// The blink timer's toggle and accumulator after a sequence of frames.
pub open spec fn blink_after(t: bool, acc: int, ds: Seq<int>) -> (bool, int)
    decreases ds.len(),
{
    if ds.len() == 0 {
        (t, acc)
    } else {
        let p = blink_after(t, acc, ds.drop_last());
        (blink_toggle(p.0, p.1, ds.last()), blink_acc(p.1, ds.last()))
    }
}

/// Law: the cursor toggle is a function of total elapsed time alone —
/// however that time is split into frames, it flips once per elapsed
/// whole period.
pub proof fn lemma_blink_rate_independent(t: bool, acc: int, ds: Seq<int>)
    requires
        0 <= acc < 1000,
        forall|i: int| 0 <= i < ds.len() ==> #[trigger] ds[i] >= 0,
    ensures
        blink_after(t, acc, ds).0 == blink_toggle(t, acc, sum_of(ds)),
        blink_after(t, acc, ds).1 == blink_acc(acc, sum_of(ds)),
        sum_of(ds) >= 0,
    decreases ds.len(),
{
    if ds.len() == 0 {
        assert(blink_acc(acc, 0) == acc) by {
            vstd::arithmetic::div_mod::lemma_small_mod(acc as nat, 1000);
        }
        assert(blink_fires(acc, 0) == 0) by {
            vstd::arithmetic::div_mod::lemma_basic_div(acc, 1000);
        }
    } else {
        let pre = ds.drop_last();
        assert(forall|i: int| 0 <= i < pre.len() ==> #[trigger] pre[i] >= 0) by {
            assert(forall|i: int| 0 <= i < pre.len() ==> pre[i] == ds[i]);
        }
        lemma_blink_rate_independent(t, acc, pre);
        assert(ds[ds.len() - 1] == ds.last());
        vstd::arithmetic::div_mod::lemma_mod_bound(acc + sum_of(pre), 1000);
        lemma_blink_accumulates(t, acc, sum_of(pre), ds.last());
    }
}

} // verus!
