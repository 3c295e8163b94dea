//! Starting, stopping and querying the daemon from the command line: where
//! its files are, how its PID file reads, and what is done and said in each
//! situation.

use vstd::prelude::*;
use crate::config::Config;
use crate::paths::{path_join, path_parent, path_with_extension, spec_parent, spec_path_join, spec_with_extension};
use crate::text::{chars_of, decimal, push_decimal, push_str};

verus! {

/// Whether `c` has the Unicode `White_Space` property (what
/// `char::is_whitespace` tests).
pub open spec fn is_white_space(c: char) -> bool {
    let u = c as u32;
    ||| 0x09 <= u <= 0x0d
    ||| u == 0x20
    ||| u == 0x85
    ||| u == 0xa0
    ||| u == 0x1680
    ||| 0x2000 <= u <= 0x200a
    ||| u == 0x2028
    ||| u == 0x2029
    ||| u == 0x202f
    ||| u == 0x205f
    ||| u == 0x3000
}

fn white_space(c: char) -> (r: bool)
    ensures
        r == is_white_space(c),
{
    let u = c as u32;
    (0x09 <= u && u <= 0x0d) || u == 0x20 || u == 0x85 || u == 0xa0 || u == 0x1680 || (0x2000
        <= u && u <= 0x200a) || u == 0x2028 || u == 0x2029 || u == 0x202f || u == 0x205f || u
        == 0x3000
}

/// Whether `a..b` is what is left of `s` once leading and trailing white
/// space is removed.
pub open spec fn trim_bounds(s: Seq<char>, a: int, b: int) -> bool {
    &&& 0 <= a <= b <= s.len()
    &&& forall|k: int| 0 <= k < a ==> is_white_space(#[trigger] s[k])
    &&& forall|k: int| b <= k < s.len() ==> is_white_space(#[trigger] s[k])
    &&& a < b ==> !is_white_space(s[a]) && !is_white_space(s[b - 1])
    &&& a == b ==> a == s.len()
}

/// `s` without leading and trailing white space (what `str::trim` gives).
pub open spec fn spec_trim(s: Seq<char>) -> Seq<char> {
    let (a, b) = choose|a: int, b: int| trim_bounds(s, a, b);
    s.subrange(a, b)
}

proof fn lemma_trim_bounds_unique(s: Seq<char>, a: int, b: int)
    requires
        trim_bounds(s, a, b),
    ensures
        spec_trim(s) == s.subrange(a, b),
{
    let (a2, b2) = choose|a2: int, b2: int| trim_bounds(s, a2, b2);
    assert(trim_bounds(s, a2, b2));
    if a < a2 {
        assert(is_white_space(s[a]));
    } else if a2 < a {
        assert(is_white_space(s[a2]));
    }
    assert(a == a2);
    if a < b && a2 < b2 {
        if b < b2 {
            assert(is_white_space(s[b2 - 1]));
        } else if b2 < b {
            assert(is_white_space(s[b - 1]));
        }
    }
}

/// Whether `c` is a decimal digit.
pub open spec fn is_digit(c: char) -> bool {
    '0' <= c <= '9'
}

/// The number that the decimal digits `s` spell.
pub open spec fn digits_value(s: Seq<char>) -> nat
    decreases s.len(),
{
    if s.len() == 0 {
        0
    } else {
        digits_value(s.drop_last()) * 10 + ((s.last() as u32) - ('0' as u32)) as nat
    }
}

/// `s` without a leading `+`.
pub open spec fn unsigned_digits(s: Seq<char>) -> Seq<char> {
    if s.len() > 0 && s[0] == '+' {
        s.drop_first()
    } else {
        s
    }
}

/// Whether every character of `d` is a decimal digit.
pub open spec fn all_digits(d: Seq<char>) -> bool {
    forall|i: int| 0 <= i < d.len() ==> is_digit(#[trigger] d[i])
}

/// The `u32` that `s` spells (what `str::parse::<u32>` accepts): an
/// optional `+`, then one or more decimal digits, of a value that fits.
pub open spec fn spec_parse_u32(s: Seq<char>) -> Option<u32> {
    let d = unsigned_digits(s);
    if d.len() > 0 && all_digits(d) && digits_value(d) <= u32::MAX {
        Some(digits_value(d) as u32)
    } else {
        None
    }
}

/// Removes leading and trailing white space.
pub fn trim_chars(s: &Vec<char>) -> (r: Vec<char>)
    ensures
        r@ == spec_trim(s@),
{
    let n = s.len();
    let mut a: usize = 0;
    while a < n && white_space(s[a])
        invariant
            n == s.len(),
            a <= n,
            forall|k: int| 0 <= k < a ==> is_white_space(#[trigger] s@[k]),
        decreases n - a,
    {
        a = a + 1;
    }
    let mut b: usize = n;
    while b > a && white_space(s[b - 1])
        invariant
            n == s.len(),
            a <= b <= n,
            forall|k: int| b <= k < n ==> is_white_space(#[trigger] s@[k]),
        decreases b,
    {
        b = b - 1;
    }
    proof {
        if a == b && a < n {
            assert(!is_white_space(s@[a as int]));
            assert(false);
        }
        lemma_trim_bounds_unique(s@, a as int, b as int);
    }
    let mut r: Vec<char> = Vec::new();
    let mut i: usize = a;
    while i < b
        invariant
            a <= i <= b <= n,
            n == s.len(),
            r@ == s@.subrange(a as int, i as int),
        decreases b - i,
    {
        r.push(s[i]);
        assert(s@.subrange(a as int, i + 1) =~= s@.subrange(a as int, i as int).push(s@[i as int]));
        i = i + 1;
    }
    r
}

/// Parses an unsigned 32-bit decimal number, as `str::parse::<u32>` does.
pub fn parse_u32(s: &Vec<char>) -> (r: Option<u32>)
    ensures
        r == spec_parse_u32(s@),
{
    let start: usize = if s.len() > 0 && s[0] == '+' { 1 } else { 0 };
    let ghost d = unsigned_digits(s@);
    assert(d =~= s@.subrange(start as int, s@.len() as int));
    if start == s.len() {
        return None;
    }
    let mut capped: u64 = 0;
    let mut i: usize = start;
    while i < s.len()
        invariant
            start <= i <= s.len(),
            d == s@.subrange(start as int, s@.len() as int),
            d == unsigned_digits(s@),
            forall|k: int| start <= k < i ==> is_digit(#[trigger] s@[k]),
            capped == if digits_value(s@.subrange(start as int, i as int)) <= u32::MAX {
                digits_value(s@.subrange(start as int, i as int))
            } else {
                u32::MAX as nat + 1
            },
        decreases s.len() - i,
    {
        let c = s[i];
        if !('0' <= c && c <= '9') {
            assert(d[i - start] == c);
            assert(!is_digit(d[i - start]));
            return None;
        }
        let digit = (c as u32 - '0' as u32) as u64;
        let ghost p = s@.subrange(start as int, i as int);
        let ghost q = s@.subrange(start as int, i + 1);
        assert(q.drop_last() =~= p);
        assert(q.last() == c);
        if capped <= u32::MAX as u64 {
            let next = capped * 10 + digit;
            capped = if next <= u32::MAX as u64 { next } else { u32::MAX as u64 + 1 };
        }
        i = i + 1;
    }
    assert(d =~= s@.subrange(start as int, s.len() as int));
    if capped <= u32::MAX as u64 {
        Some(capped as u32)
    } else {
        None
    }
}

/// The PID file of the daemon: the socket path with the extension `pid`.
pub fn pid_path(config: &Config) -> (r: String)
    ensures
        r@ == spec_with_extension(config.socket_path@, "pid"@),
{
    proof {
        reveal_strlit("pid");
        assert("pid"@[0] != '/' && "pid"@[1] != '/' && "pid"@[2] != '/');
    }
    path_with_extension(config.socket_path.as_str(), "pid")
}

/// The PID recorded in a PID file's contents, if it holds one.
pub fn parse_pid(contents: &str) -> (r: Option<u32>)
    ensures
        r == spec_parse_u32(spec_trim(contents@)),
{
    let chars = chars_of(contents);
    let t = trim_chars(&chars);
    parse_u32(&t)
}

/// The daemon's log file: `yoinkerd.log` next to the history file, or
/// `/tmp/yoinkerd.log` when the history path has no parent.
pub open spec fn spec_log_path(history_path: Seq<char>) -> Seq<char> {
    match spec_parent(history_path) {
        Some(p) => spec_path_join(p, "yoinkerd.log"@),
        None => "/tmp/yoinkerd.log"@,
    }
}

/// Where the daemon started from the command line writes its log.
pub fn log_path(config: &Config) -> (r: String)
    ensures
        r@ == spec_log_path(config.history_path@),
{
    match path_parent(config.history_path.as_str()) {
        Some(p) => path_join(p.as_str(), "yoinkerd.log"),
        None => String::from_str("/tmp/yoinkerd.log"),
    }
}

/// `"{prefix}{pid}{suffix}"`
fn pid_message(prefix: &str, pid: u32, suffix: &str) -> (r: String)
    ensures
        r@ == prefix@ + decimal(pid as nat) + suffix@,
{
    let mut m = String::new();
    push_str(&mut m, prefix);
    push_decimal(&mut m, pid as u64);
    push_str(&mut m, suffix);
    m
}

/// Starting is refused when the PID file names a live process.
pub fn start_check(pid: Option<u32>, alive: bool) -> (r: Result<(), String>)
    ensures
        match pid {
            Some(p) => if alive {
                r matches Err(m) && m@ == "daemon already running (PID "@ + decimal(p as nat) + ")"@
            } else {
                r is Ok
            },
            None => r is Ok,
        },
{
    match pid {
        Some(p) => {
            if alive {
                Err(pid_message("daemon already running (PID ", p, ")"))
            } else {
                Ok(())
            }
        },
        None => Ok(()),
    }
}

/// What stopping the daemon does.
#[derive(Debug, PartialEq, Eq)]
pub enum StopAction {
    /// Fail with this message.
    Fail(String),
    /// Remove the stale PID file, then fail with this message.
    RemoveStaleAndFail(String),
    /// Send `SIGTERM` to this process and report it with this message.
    Terminate(u32, String),
}

/// The action for `daemon stop`, given the PID file's PID and whether that
/// process is alive.
pub fn stop_action(pid: Option<u32>, alive: bool) -> (r: StopAction)
    ensures
        match pid {
            None => r matches StopAction::Fail(m) && m@
                == "no PID file found (daemon not running?)"@,
            Some(p) => if alive {
                r matches StopAction::Terminate(q, m) && q == p && m@ == "sent SIGTERM to daemon (PID "@
                    + decimal(p as nat) + ")"@
            } else {
                r matches StopAction::RemoveStaleAndFail(m) && m@ == "daemon not running (stale PID "@
                    + decimal(p as nat) + ")"@
            },
        },
{
    match pid {
        None => StopAction::Fail(String::from_str("no PID file found (daemon not running?)")),
        Some(p) => {
            if alive {
                StopAction::Terminate(p, pid_message("sent SIGTERM to daemon (PID ", p, ")"))
            } else {
                StopAction::RemoveStaleAndFail(pid_message("daemon not running (stale PID ", p, ")"))
            }
        },
    }
}

/// What `daemon status` does.
#[derive(Debug, PartialEq, Eq)]
pub enum StatusAction {
    /// Say this, then ask the daemon over its socket.
    QuerySocket(String),
    /// Say this and remove the stale PID file.
    RemoveStale(String),
    /// Say this.
    Report(String),
}

/// The action for `daemon status`, given the PID file's PID and whether
/// that process is alive.
pub fn status_action(pid: Option<u32>, alive: bool) -> (r: StatusAction)
    ensures
        match pid {
            None => r matches StatusAction::Report(m) && m@ == "daemon not running (no PID file)"@,
            Some(p) => if alive {
                r matches StatusAction::QuerySocket(m) && m@ == "daemon running (PID "@ + decimal(
                    p as nat,
                ) + ")"@
            } else {
                r matches StatusAction::RemoveStale(m) && m@ == "daemon not running (stale PID "@
                    + decimal(p as nat) + ")"@
            },
        },
{
    match pid {
        None => StatusAction::Report(String::from_str("daemon not running (no PID file)")),
        Some(p) => {
            if alive {
                StatusAction::QuerySocket(pid_message("daemon running (PID ", p, ")"))
            } else {
                StatusAction::RemoveStale(pid_message("daemon not running (stale PID ", p, ")"))
            }
        },
    }
}

/// `"socket: connected ({count} entries)"`
pub fn socket_connected_message(count: usize) -> (r: String)
    ensures
        r@ == "socket: connected ("@ + decimal(count as nat) + " entries)"@,
{
    let mut m = String::new();
    push_str(&mut m, "socket: connected (");
    push_decimal(&mut m, count as u64);
    push_str(&mut m, " entries)");
    m
}

/// How many times the command line retries after starting the daemon.
pub const AUTOSTART_RETRIES: u32 = 20;

/// The hint printed under connection errors.
pub open spec fn start_hint() -> Seq<char> {
    "Hint: Start the daemon with: yoinker daemon start"@
}

/// The error when the daemon could not be reached and could not be started.
pub fn autostart_failed_message(error: &str, start_error: &str) -> (r: String)
    ensures
        r@ == error@ + "\nFailed to auto-start: "@ + start_error@ + "\n"@ + start_hint(),
{
    let mut m = String::new();
    push_str(&mut m, error);
    push_str(&mut m, "\nFailed to auto-start: ");
    push_str(&mut m, start_error);
    push_str(&mut m, "\n");
    push_str(&mut m, "Hint: Start the daemon with: yoinker daemon start");
    m
}

/// The error when the daemon was started but never answered.
pub fn autostart_timeout_message(error: &str) -> (r: String)
    ensures
        r@ == error@ + "\n"@ + start_hint(),
{
    let mut m = String::new();
    push_str(&mut m, error);
    push_str(&mut m, "\n");
    push_str(&mut m, "Hint: Start the daemon with: yoinker daemon start");
    m
}

/// The two lines printed for a connection error.
pub fn connection_error_lines(error: &str) -> (r: (String, String))
    ensures
        r.0@ == "connection error: "@ + error@,
        r.1@ == start_hint(),
{
    let mut first = String::new();
    push_str(&mut first, "connection error: ");
    push_str(&mut first, error);
    (first, String::from_str("Hint: Start the daemon with: yoinker daemon start"))
}

/// What sending a request with a fallback start of the daemon does next.
#[derive(Debug, Clone, PartialEq, Eq)]
pub enum AutostartAction {
    /// Send the request (after waiting a tenth of a second, unless it is the
    /// first attempt).
    Send,
    /// Start the daemon and report how that went.
    StartDaemon,
    /// The reply came; use it.
    Finish,
    /// Give up with this error.
    GiveUp(String),
}

/// The progress of sending a request with a fallback start of the daemon:
/// one attempt, then on failure a start of the daemon and up to
/// `AUTOSTART_RETRIES` more attempts.
pub struct Autostart {
    /// The error of the first attempt, once it failed.
    pub first_error: Option<String>,
    /// How many attempts after the start have failed.
    pub retries: u32,
    /// Whether the daemon was started.
    pub started: bool,
}

/// The mathematical state of an [`Autostart`].
pub struct AutostartState {
    pub first_error: Option<Seq<char>>,
    pub retries: u32,
    pub started: bool,
}

/// The next state and action after an attempt to send, which succeeded
/// when `ok`, and otherwise failed with `error`.
pub open spec fn spec_after_send(s: AutostartState, ok: bool, error: Seq<char>) -> (AutostartState, AutostartActionView) {
    if ok {
        (s, AutostartActionView::Finish)
    } else if !s.started {
        (AutostartState { first_error: Some(error), ..s }, AutostartActionView::StartDaemon)
    } else if s.retries + 1 < AUTOSTART_RETRIES {
        (AutostartState { retries: (s.retries + 1) as u32, ..s }, AutostartActionView::Send)
    } else {
        (
            AutostartState { retries: (s.retries + 1) as u32, ..s },
            AutostartActionView::GiveUp(
                match s.first_error {
                    Some(e) => e,
                    None => Seq::empty(),
                } + "\n"@ + start_hint(),
            ),
        )
    }
}

/// The next state and action after starting the daemon, which succeeded
/// when `start` is `None`, and otherwise failed with that error.
pub open spec fn spec_after_start(s: AutostartState, start: Option<Seq<char>>) -> (AutostartState, AutostartActionView) {
    let e = match s.first_error {
        Some(e) => e,
        None => Seq::empty(),
    };
    match start {
        None => (AutostartState { started: true, retries: 0, ..s }, AutostartActionView::Send),
        Some(se) => (s, AutostartActionView::GiveUp(e + "\nFailed to auto-start: "@ + se + "\n"@ + start_hint())),
    }
}

/// The mathematical value of an [`AutostartAction`].
pub enum AutostartActionView {
    Send,
    StartDaemon,
    Finish,
    GiveUp(Seq<char>),
}

impl View for AutostartAction {
    type V = AutostartActionView;

    open spec fn view(&self) -> AutostartActionView {
        match self {
            AutostartAction::Send => AutostartActionView::Send,
            AutostartAction::StartDaemon => AutostartActionView::StartDaemon,
            AutostartAction::Finish => AutostartActionView::Finish,
            AutostartAction::GiveUp(m) => AutostartActionView::GiveUp(m@),
        }
    }
}

impl Autostart {
    /// The mathematical state.
    pub open spec fn state(&self) -> AutostartState {
        AutostartState {
            first_error: match self.first_error {
                Some(e) => Some(e@),
                None => None,
            },
            retries: self.retries,
            started: self.started,
        }
    }

    /// The state before the first attempt (whose action is to send).
    pub fn new() -> (r: Autostart)
        ensures
            r.state() == (AutostartState { first_error: None, retries: 0, started: false }),
    {
        Autostart { first_error: None, retries: 0, started: false }
    }

    /// Reports the outcome of an attempt to send.
    pub fn after_send(&mut self, ok: bool, error: &str) -> (r: AutostartAction)
        requires
            old(self).retries < u32::MAX,
        ensures
            (final(self).state(), r@) == spec_after_send(old(self).state(), ok, error@),
    {
        if ok {
            AutostartAction::Finish
        } else if !self.started {
            self.first_error = Some(String::from_str(error));
            AutostartAction::StartDaemon
        } else {
            self.retries = self.retries + 1;
            if self.retries < AUTOSTART_RETRIES {
                AutostartAction::Send
            } else {
                let e = match &self.first_error {
                    Some(e) => e.clone(),
                    None => String::new(),
                };
                AutostartAction::GiveUp(autostart_timeout_message(e.as_str()))
            }
        }
    }

    /// Reports the outcome of starting the daemon: `None` when it started,
    /// otherwise the error.
    pub fn after_start(&mut self, start: Option<String>) -> (r: AutostartAction)
        ensures
            (final(self).state(), r@) == spec_after_start(
                old(self).state(),
                match start {
                    Some(e) => Some(e@),
                    None => None,
                },
            ),
    {
        match start {
            None => {
                self.started = true;
                self.retries = 0;
                AutostartAction::Send
            },
            Some(se) => {
                let e = match &self.first_error {
                    Some(e) => e.clone(),
                    None => String::new(),
                };
                AutostartAction::GiveUp(autostart_failed_message(e.as_str(), se.as_str()))
            },
        }
    }
}

} // verus!
