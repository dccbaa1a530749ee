//! Framing of debug adapter messages: the `Content-Length` header that comes
//! before each JSON body on the wire.
use vstd::prelude::*;
use vstd::utf8::encode_utf8;
use crate::text::{text_fits, chars_of, char_is_whitespace, whitespace, push_str_chars, string_push};
use crate::formatter_spec::{skip_ws_fwd, skip_ws_bwd, trimmed};
use crate::stdlib::datetime::{decimal, padded};

verus! {

/// The value of a decimal numeral.
pub open spec fn numeral_value(d: Seq<char>) -> int
    decreases d.len(),
{
    if d.len() == 0 { 0 } else { 10 * numeral_value(d.drop_last()) + (d.last() as int - 48) }
}

pub open spec fn all_digits(d: Seq<char>) -> bool {
    forall|i: int| 0 <= i < d.len() ==> '0' <= #[trigger] d[i] <= '9'
}

/// What `str::parse::<usize>` gives: an optional `+` followed by at least one
/// decimal digit and nothing else, whose value fits in a `usize`.
pub open spec fn parse_usize_spec(t: Seq<char>) -> Option<usize> {
    let d = if t.len() > 0 && t[0] == '+' { t.drop_first() } else { t };
    if d.len() > 0 && all_digits(d) && numeral_value(d) <= usize::MAX {
        Some(numeral_value(d) as usize)
    } else {
        None
    }
}

/// A header line of a message, as the reader sorts it.
#[derive(Debug, Clone, Copy, PartialEq, Eq, Structural)]
pub enum HeaderLine {
    /// The empty line that ends the header.
    End,
    /// A `Content-Length` line and the length it gives, if it is a number.
    ContentLength(Option<usize>),
    /// Any other header line.
    Other,
}

pub open spec fn content_length_prefix() -> Seq<char> {
    "Content-Length: "@
}

/// How a header line (without its line ending) is read: blank after trailing
/// whitespace is removed, a `Content-Length: ` line with its trimmed value
/// read as a number, or another line.
pub open spec fn header_line_spec(line: Seq<char>) -> HeaderLine {
    let t = line.subrange(0, skip_ws_bwd(line, 0, line.len() as int));
    if t.len() == 0 {
        HeaderLine::End
    } else if t.len() >= 16 && t.subrange(0, 16) == content_length_prefix() {
        HeaderLine::ContentLength(parse_usize_spec(trimmed(t, 16, t.len() as int)))
    } else {
        HeaderLine::Other
    }
}

fn parse_usize(t: &Vec<char>, lo: usize, hi: usize) -> (r: Option<usize>)
    requires
        lo <= hi <= t@.len(),
    ensures
        r == parse_usize_spec(t@.subrange(lo as int, hi as int)),
{
    let ghost whole = t@.subrange(lo as int, hi as int);
    let mut start = lo;
    if start < hi && t[start] == '+' {
        start = start + 1;
    }
    let ghost d = t@.subrange(start as int, hi as int);
    proof {
        if lo < hi && t@[lo as int] == '+' {
            assert(d =~= whole.drop_first());
        } else {
            assert(d =~= whole);
        }
    }
    if start == hi {
        return None;
    }
    let mut v: usize = 0;
    let mut k: usize = start;
    proof {
        assert(t@.subrange(start as int, start as int) =~= Seq::<char>::empty());
    }
    while k < hi
        invariant
            start < hi <= t@.len(),
            start <= k <= hi,
            d == t@.subrange(start as int, hi as int),
            parse_usize_spec(t@.subrange(lo as int, hi as int)) == (if d.len() > 0 && all_digits(d) && numeral_value(d)
                <= usize::MAX { Some(numeral_value(d) as usize) } else { None::<usize> }),
            all_digits(t@.subrange(start as int, k as int)),
            v as int == numeral_value(t@.subrange(start as int, k as int)),
        decreases hi - k,
    {
        let c = t[k];
        let ghost pre = t@.subrange(start as int, k as int);
        let ghost next = t@.subrange(start as int, k + 1);
        proof {
            assert(next.drop_last() =~= pre);
            assert(next.last() == c);
            assert(d[k - start] == c);
        }
        if !('0' <= c && c <= '9') {
            proof {
                assert(!all_digits(d));
            }
            return None;
        }
        let digit = (c as u32 - 48) as usize;
        if v > (usize::MAX - digit) / 10 {
            proof {
                assert(10 * v + digit > usize::MAX) by (nonlinear_arith)
                    requires
                        v > (usize::MAX - digit) / 10,
                        digit <= 9,
                ;
                assert(all_digits(next));
                if all_digits(d) {
                    lemma_numeral_grows(d, k - start + 1);
                    assert(d.subrange(0, k - start + 1) =~= next);
                }
            }
            return None;
        }
        v = v * 10 + digit;
        k = k + 1;
        proof {
            assert(all_digits(t@.subrange(start as int, k as int)));
        }
    }
    proof {
        assert(t@.subrange(start as int, hi as int) =~= d);
    }
    Some(v)
}

proof fn lemma_numeral_nonneg(d: Seq<char>)
    requires
        all_digits(d),
    ensures
        numeral_value(d) >= 0,
    decreases d.len(),
{
    if d.len() > 0 {
        assert(all_digits(d.drop_last()));
        lemma_numeral_nonneg(d.drop_last());
        assert(d.last() >= '0');
    }
}

proof fn lemma_numeral_grows(d: Seq<char>, j: int)
    requires
        0 <= j <= d.len(),
        all_digits(d),
    ensures
        numeral_value(d) >= numeral_value(d.subrange(0, j)),
    decreases d.len() - j,
{
    if j < d.len() {
        let e = d.drop_last();
        assert(all_digits(e));
        lemma_numeral_grows(e, if j <= e.len() { j } else { e.len() as int });
        lemma_numeral_nonneg(e);
        assert(d.last() >= '0');
        assert(e.subrange(0, j) =~= d.subrange(0, j));
    } else {
        assert(d.subrange(0, j) =~= d);
    }
}

/// Sort a header line of a debug adapter message.
pub fn header_line(line: &str) -> (h: HeaderLine)
    ensures
        h == header_line_spec(line@),
{
    let t = chars_of(line);
    let mut e = t.len();
    while e > 0 && char_is_whitespace(t[e - 1])
        invariant
            e <= t@.len(),
            skip_ws_bwd(t@, 0, t@.len() as int) == skip_ws_bwd(t@, 0, e as int),
        decreases e,
    {
        e = e - 1;
    }
    let ghost tt = t@.subrange(0, e as int);
    if e == 0 {
        return HeaderLine::End;
    }
    let prefix = chars_of("Content-Length: ");
    proof {
        reveal_strlit("Content-Length: ");
    }
    let mut same = e >= 16;
    let mut k: usize = 0;
    while same && k < 16
        invariant
            prefix@ == content_length_prefix(),
            prefix@.len() == 16,
            k <= 16,
            same ==> e >= 16 && forall|j: int| 0 <= j < k ==> t@[j] == prefix@[j],
            !same ==> (e < 16 || exists|j: int| 0 <= j < 16 && t@[j] != prefix@[j]),
            e <= t@.len(),
        decreases 16 - k, if same { 1int } else { 0int },
    {
        if t[k] != prefix[k] {
            same = false;
        } else {
            k = k + 1;
        }
    }
    if same {
        proof {
            assert(tt.subrange(0, 16) =~= prefix@);
        }
        let mut a: usize = 16;
        while a < e && char_is_whitespace(t[a])
            invariant
                16 <= a <= e <= t@.len(),
                skip_ws_fwd(tt, 16, e as int) == skip_ws_fwd(tt, a as int, e as int),
                tt == t@.subrange(0, e as int),
            decreases e - a,
        {
            a = a + 1;
        }
        let mut b = e;
        while b > a && char_is_whitespace(t[b - 1])
            invariant
                a <= b <= e <= t@.len(),
                skip_ws_bwd(tt, a as int, e as int) == skip_ws_bwd(tt, a as int, b as int),
                tt == t@.subrange(0, e as int),
            decreases b - a,
        {
            b = b - 1;
        }
        proof {
            assert(trimmed(tt, 16, e as int) =~= t@.subrange(a as int, b as int));
        }
        HeaderLine::ContentLength(parse_usize(&t, a, b))
    } else {
        proof {
            if e >= 16 {
                let j = choose|j: int| 0 <= j < 16 && t@[j] != prefix@[j];
                assert(tt.subrange(0, 16)[j] != content_length_prefix()[j]);
            }
        }
        HeaderLine::Other
    }
}

/// The bytes of a message on the wire: the `Content-Length` header with the
/// body's length in bytes, a blank line, and the body.
pub fn frame_message(body: &str) -> (m: String)
    requires
        text_fits(body@),
    ensures
        m@ == content_length_prefix() + decimal(encode_utf8(body@).len()) + seq!['\r', '\n', '\r', '\n'] + body@,
{
    let n = body.len();
    let mut out = String::new();
    push_str_chars(&mut out, "Content-Length: ");
    crate::stdlib::datetime::push_decimal(&mut out, n as u64);
    string_push(&mut out, '\r');
    string_push(&mut out, '\n');
    string_push(&mut out, '\r');
    string_push(&mut out, '\n');
    push_str_chars(&mut out, body);
    proof {
        assert(out@ =~= content_length_prefix() + decimal(encode_utf8(body@).len()) + seq!['\r', '\n', '\r', '\n'] + body@);
    }
    out
}


/// A request of the debug adapter protocol, by its command name.
#[derive(Debug, Clone, Copy, PartialEq, Eq, Structural)]
pub enum DapCommand {
    Initialize,
    Launch,
    SetBreakpoints,
    SetExceptionBreakpoints,
    ConfigurationDone,
    Continue,
    Next,
    StepIn,
    StepOut,
    StackTrace,
    Scopes,
    Variables,
    Evaluate,
    Source,
    Threads,
    Pause,
    Terminate,
    Unknown,
}

/// The command a request names: `terminate` and `disconnect` both end the
/// session; any other name is unknown.
pub open spec fn command_of(name: Seq<char>) -> DapCommand {
    if name == "initialize"@ { DapCommand::Initialize }
    else if name == "launch"@ { DapCommand::Launch }
    else if name == "setBreakpoints"@ { DapCommand::SetBreakpoints }
    else if name == "setExceptionBreakpoints"@ { DapCommand::SetExceptionBreakpoints }
    else if name == "configurationDone"@ { DapCommand::ConfigurationDone }
    else if name == "continue"@ { DapCommand::Continue }
    else if name == "next"@ { DapCommand::Next }
    else if name == "stepIn"@ { DapCommand::StepIn }
    else if name == "stepOut"@ { DapCommand::StepOut }
    else if name == "stackTrace"@ { DapCommand::StackTrace }
    else if name == "scopes"@ { DapCommand::Scopes }
    else if name == "variables"@ { DapCommand::Variables }
    else if name == "evaluate"@ { DapCommand::Evaluate }
    else if name == "source"@ { DapCommand::Source }
    else if name == "threads"@ { DapCommand::Threads }
    else if name == "pause"@ { DapCommand::Pause }
    else if name == "terminate"@ || name == "disconnect"@ { DapCommand::Terminate }
    else { DapCommand::Unknown }
}

fn same_text(a: &str, b: &str) -> (r: bool)
    ensures
        r == (a@ == b@),
{
    let x = a.to_string();
    let y = b.to_string();
    x == y
}

/// The command a request names.
pub fn dap_command(name: &str) -> (c: DapCommand)
    ensures
        c == command_of(name@),
{
    if same_text(name, "initialize") { DapCommand::Initialize }
    else if same_text(name, "launch") { DapCommand::Launch }
    else if same_text(name, "setBreakpoints") { DapCommand::SetBreakpoints }
    else if same_text(name, "setExceptionBreakpoints") { DapCommand::SetExceptionBreakpoints }
    else if same_text(name, "configurationDone") { DapCommand::ConfigurationDone }
    else if same_text(name, "continue") { DapCommand::Continue }
    else if same_text(name, "next") { DapCommand::Next }
    else if same_text(name, "stepIn") { DapCommand::StepIn }
    else if same_text(name, "stepOut") { DapCommand::StepOut }
    else if same_text(name, "stackTrace") { DapCommand::StackTrace }
    else if same_text(name, "scopes") { DapCommand::Scopes }
    else if same_text(name, "variables") { DapCommand::Variables }
    else if same_text(name, "evaluate") { DapCommand::Evaluate }
    else if same_text(name, "source") { DapCommand::Source }
    else if same_text(name, "threads") { DapCommand::Threads }
    else if same_text(name, "pause") { DapCommand::Pause }
    else if same_text(name, "terminate") || same_text(name, "disconnect") { DapCommand::Terminate }
    else { DapCommand::Unknown }
}

/// How the virtual machine is resumed.
#[derive(Debug, Clone, Copy, PartialEq, Eq, Structural)]
pub enum Resume {
    RunMain,
    Continue,
    StepOver,
    StepInto,
    StepOut,
}

/// What answering a request takes: whether the response reports success;
/// the resumption it causes, and whether that comes before the response;
/// whether an `initialized` event follows the response; whether the session
/// starts running; and whether the session ends after the response.
#[derive(Debug, Clone, Copy, PartialEq, Eq, Structural)]
pub struct RequestPlan {
    pub success: bool,
    pub resume: Option<Resume>,
    pub resume_before_response: bool,
    pub initialized_event: bool,
    pub starts_running: bool,
    pub ends_session: bool,
}

/// The plan for each command: `configurationDone` starts the program after
/// its response; `continue` and the steps resume before theirs; `terminate`
/// ends the session; an unknown command is answered with failure; the rest
/// are answered with success, except `evaluate`, whose success
/// `evaluate_plan` decides.
pub open spec fn plan_of(c: DapCommand) -> RequestPlan {
    let plain = RequestPlan {
        success: true,
        resume: None,
        resume_before_response: false,
        initialized_event: false,
        starts_running: false,
        ends_session: false,
    };
    match c {
        DapCommand::Initialize => RequestPlan { initialized_event: true, ..plain },
        DapCommand::ConfigurationDone => RequestPlan { resume: Some(Resume::RunMain), starts_running: true, ..plain },
        DapCommand::Continue => RequestPlan { resume: Some(Resume::Continue), resume_before_response: true, ..plain },
        DapCommand::Next => RequestPlan { resume: Some(Resume::StepOver), resume_before_response: true, ..plain },
        DapCommand::StepIn => RequestPlan { resume: Some(Resume::StepInto), resume_before_response: true, ..plain },
        DapCommand::StepOut => RequestPlan { resume: Some(Resume::StepOut), resume_before_response: true, ..plain },
        DapCommand::Terminate => RequestPlan { ends_session: true, ..plain },
        DapCommand::Unknown => RequestPlan { success: false, ..plain },
        _ => plain,
    }
}

/// The plan for answering a request.
pub fn plan_request(c: DapCommand) -> (p: RequestPlan)
    ensures
        p == plan_of(c),
{
    let plain = RequestPlan {
        success: true,
        resume: None,
        resume_before_response: false,
        initialized_event: false,
        starts_running: false,
        ends_session: false,
    };
    match c {
        DapCommand::Initialize => RequestPlan { initialized_event: true, ..plain },
        DapCommand::ConfigurationDone => RequestPlan { resume: Some(Resume::RunMain), starts_running: true, ..plain },
        DapCommand::Continue => RequestPlan { resume: Some(Resume::Continue), resume_before_response: true, ..plain },
        DapCommand::Next => RequestPlan { resume: Some(Resume::StepOver), resume_before_response: true, ..plain },
        DapCommand::StepIn => RequestPlan { resume: Some(Resume::StepInto), resume_before_response: true, ..plain },
        DapCommand::StepOut => RequestPlan { resume: Some(Resume::StepOut), resume_before_response: true, ..plain },
        DapCommand::Terminate => RequestPlan { ends_session: true, ..plain },
        DapCommand::Unknown => RequestPlan { success: false, ..plain },
        _ => plain,
    }
}

/// The answer to `evaluate`: the expression is looked up by name among the
/// locals of the frame asked about. The response succeeds exactly when some
/// local has that name, and then the first such local is the one shown.
pub fn evaluate_plan(locals: &Vec<String>, expr: &str) -> (r: (RequestPlan, Option<usize>))
    ensures
        r.1 == (match crate::ir::first_index_of(crate::ir::string_views(locals@), expr@) {
            Some(i) => Some(i as usize),
            None => None::<usize>,
        }),
        r.0 == (RequestPlan { success: r.1 is Some, ..plan_of(DapCommand::Evaluate) }),
{
    let found = find_name(locals, expr);
    proof {
        let v = crate::ir::string_views(locals@);
        match found {
            Some(k) => {
                assert(v[k as int] == expr@);
                let w = choose|w: int| 0 <= w < v.len() && v[w] == expr@
                    && forall|j: int| 0 <= j < w ==> v[j] != expr@;
                if w < k {
                    assert(locals@[w]@ != expr@);
                }
                if k < w {
                    assert(v[k as int] != expr@);
                }
            },
            None => {
                assert forall|j: int| 0 <= j < v.len() implies v[j] != expr@ by {
                    assert(locals@[j]@ != expr@);
                }
            },
        }
    }
    let plain = plan_request(DapCommand::Evaluate);
    (RequestPlan { success: found.is_some(), ..plain }, found)
}

/// The first place among `names` that holds `name`.
fn find_name(names: &Vec<String>, name: &str) -> (r: Option<usize>)
    ensures
        match r {
            Some(k) => k < names@.len() && names@[k as int]@ == name@
                && forall|j: int| 0 <= j < k ==> names@[j]@ != name@,
            None => forall|j: int| 0 <= j < names@.len() ==> names@[j]@ != name@,
        },
{
    let mut i: usize = 0;
    while i < names.len()
        invariant
            i <= names@.len(),
            forall|j: int| 0 <= j < i ==> names@[j]@ != name@,
        decreases names@.len() - i,
    {
        if same_text(names[i].as_str(), name) {
            return Some(i);
        }
        i = i + 1;
    }
    None
}

/// The text of a failed `evaluate` response: `cannot evaluate '<expr>'`.
pub fn cannot_evaluate(expr: &str) -> (m: String)
    ensures
        m@ == "cannot evaluate '"@ + expr@ + "'"@,
{
    let mut m = String::new();
    push_str_chars(&mut m, "cannot evaluate '");
    push_str_chars(&mut m, expr);
    push_str_chars(&mut m, "'");
    m
}

/// How a resumption of the virtual machine ended.
#[derive(Debug, Clone, PartialEq, Eq)]
pub enum ResumeOutcome {
    /// Paused at a breakpoint or after a step; `skip` when a conditional
    /// breakpoint's condition held false there.
    Paused { skip: bool },
    /// The program ran to its end.
    Finished,
    /// The program failed with this message.
    Failed(String),
}

/// What the adapter sends after a resumption.
#[derive(Debug, Clone, PartialEq, Eq)]
pub enum DapEvent {
    /// `stopped`, with its reason.
    Stopped,
    /// Resume again at once (a conditional breakpoint whose condition is false).
    ContinueAgain,
    /// `output` to stderr with this text.
    ErrorOutput(String),
    Terminated,
}

/// The session's state between requests: the next sequence number, whether
/// the program was started, and whether it has ended.
pub struct DapSession {
    pub seq: i64,
    pub running: bool,
    pub finished: bool,
}

impl DapSession {
    /// A session before any message: sequence numbers start at 1.
    pub fn new() -> (s: DapSession)
        ensures
            s.seq == 1,
            !s.running,
            !s.finished,
    {
        DapSession { seq: 1, running: false, finished: false }
    }

    /// The sequence number of the next message sent, counting on.
    pub fn next_seq(&mut self) -> (s: i64)
        requires
            old(self).seq < i64::MAX,
        ensures
            s == old(self).seq,
            final(self).seq == old(self).seq + 1,
            final(self).running == old(self).running,
            final(self).finished == old(self).finished,
    {
        let s = self.seq;
        self.seq = self.seq + 1;
        s
    }

    /// What follows a resumption: nothing once the program has ended; a
    /// pause stops (or resumes again, for a false condition); an end or a
    /// failure ends the program, a failure first reporting `error: <msg>`.
    pub fn after_resume(&mut self, outcome: ResumeOutcome) -> (events: Vec<DapEvent>)
        ensures
            final(self).seq == old(self).seq,
            final(self).running == old(self).running,
            old(self).finished ==> events@.len() == 0 && final(self).finished,
            !old(self).finished ==> match outcome {
                ResumeOutcome::Paused { skip } => !final(self).finished && events@ == seq![
                    if skip { DapEvent::ContinueAgain } else { DapEvent::Stopped }
                ],
                ResumeOutcome::Finished => final(self).finished && events@ == seq![DapEvent::Terminated],
                ResumeOutcome::Failed(msg) => final(self).finished && events@.len() == 2
                    && (events@[0] matches DapEvent::ErrorOutput(t) && t@ == "error: "@ + msg@ + "\n"@)
                    && events@[1] == DapEvent::Terminated,
            },
    {
        let mut events: Vec<DapEvent> = Vec::new();
        if self.finished {
            return events;
        }
        match outcome {
            ResumeOutcome::Paused { skip } => {
                if skip {
                    events.push(DapEvent::ContinueAgain);
                } else {
                    events.push(DapEvent::Stopped);
                }
            },
            ResumeOutcome::Finished => {
                self.finished = true;
                events.push(DapEvent::Terminated);
            },
            ResumeOutcome::Failed(msg) => {
                self.finished = true;
                let mut text = String::new();
                push_str_chars(&mut text, "error: ");
                push_str_chars(&mut text, msg.as_str());
                push_str_chars(&mut text, "\n");
                events.push(DapEvent::ErrorOutput(text));
                events.push(DapEvent::Terminated);
            },
        }
        proof {
            assert(events@ =~= events@);
        }
        events
    }
}

/// Why the program stopped: at a breakpoint when one is on the current line
/// or when not stepping, else after a step.
pub open spec fn stop_reason(breakpoint_lines: Seq<usize>, current_line: Option<usize>, stepping: bool) -> Seq<char> {
    if (current_line matches Some(l) && breakpoint_lines.contains(l)) || !stepping {
        "breakpoint"@
    } else {
        "step"@
    }
}

/// Why the program stopped.
pub fn stopped_reason(breakpoint_lines: &Vec<usize>, current_line: Option<usize>, stepping: bool) -> (r: &'static str)
    ensures
        r@ == stop_reason(breakpoint_lines@, current_line, stepping),
{
    let mut at_breakpoint = false;
    match current_line {
        Some(l) => {
            let mut i: usize = 0;
            while i < breakpoint_lines.len()
                invariant
                    i <= breakpoint_lines@.len(),
                    at_breakpoint <==> exists|j: int| 0 <= j < i && breakpoint_lines@[j] == l,
                decreases breakpoint_lines@.len() - i,
            {
                if breakpoint_lines[i] == l {
                    at_breakpoint = true;
                }
                i = i + 1;
            }
            proof {
                if breakpoint_lines@.contains(l) {
                    let j = choose|j: int| 0 <= j < breakpoint_lines@.len() && breakpoint_lines@[j] == l;
                    assert(exists|j2: int| 0 <= j2 < i && breakpoint_lines@[j2] == l);
                }
            }
        },
        None => {},
    }
    if at_breakpoint || !stepping {
        "breakpoint"
    } else {
        "step"
    }
}


/// A comparison of a breakpoint condition.
#[derive(Debug, Clone, Copy, PartialEq, Eq, Structural)]
pub enum CmpOp {
    Eq,
    Ne,
    Le,
    Ge,
    Lt,
    Gt,
}

pub open spec fn is_op_char(c: char) -> bool {
    c == '=' || c == '!' || c == '<' || c == '>'
}

/// The first position from `i` on that holds `=`, `!`, `<` or `>`.
pub open spec fn first_op_from(t: Seq<char>, i: int) -> Option<int>
    decreases t.len() - i,
{
    if i < 0 || i >= t.len() {
        None
    } else if is_op_char(t[i]) {
        Some(i)
    } else {
        first_op_from(t, i + 1)
    }
}

/// The comparison a text starts with, and its length.
pub open spec fn op_prefix(r: Seq<char>) -> Option<(CmpOp, int)> {
    if r.len() >= 2 && r[0] == '=' && r[1] == '=' { Some((CmpOp::Eq, 2)) }
    else if r.len() >= 2 && r[0] == '!' && r[1] == '=' { Some((CmpOp::Ne, 2)) }
    else if r.len() >= 2 && r[0] == '<' && r[1] == '=' { Some((CmpOp::Le, 2)) }
    else if r.len() >= 2 && r[0] == '>' && r[1] == '=' { Some((CmpOp::Ge, 2)) }
    else if r.len() >= 1 && r[0] == '<' { Some((CmpOp::Lt, 1)) }
    else if r.len() >= 1 && r[0] == '>' { Some((CmpOp::Gt, 1)) }
    else { None }
}

/// A breakpoint condition read as text: the whole condition trimmed (a
/// variable name to look up first), and, where its first `=`, `!`, `<` or `>`
/// starts a comparison, the trimmed left side, the comparison and the
/// trimmed right side.
pub open spec fn condition_of(cond: Seq<char>) -> (Seq<char>, Option<(Seq<char>, CmpOp, Seq<char>)>) {
    let t = trimmed(cond, 0, cond.len() as int);
    (t, match first_op_from(t, 0) {
        None => None,
        Some(p) => match op_prefix(t.subrange(p, t.len() as int)) {
            None => None,
            Some((op, n)) => Some((trimmed(t, 0, p), op, trimmed(t, p + n, t.len() as int))),
        },
    })
}

/// The range of `t[lo..hi]` without whitespace at either end.
fn trim_range(t: &Vec<char>, lo: usize, hi: usize) -> (r: (usize, usize))
    requires
        lo <= hi <= t@.len(),
    ensures
        lo <= r.0 <= r.1 <= hi,
        t@.subrange(r.0 as int, r.1 as int) == trimmed(t@, lo as int, hi as int),
{
    let mut a = lo;
    while a < hi && char_is_whitespace(t[a])
        invariant
            lo <= a <= hi <= t@.len(),
            skip_ws_fwd(t@, lo as int, hi as int) == skip_ws_fwd(t@, a as int, hi as int),
        decreases hi - a,
    {
        a = a + 1;
    }
    let mut b = hi;
    while b > a && char_is_whitespace(t[b - 1])
        invariant
            a <= b <= hi <= t@.len(),
            skip_ws_bwd(t@, a as int, hi as int) == skip_ws_bwd(t@, a as int, b as int),
        decreases b - a,
    {
        b = b - 1;
    }
    (a, b)
}

/// Read a breakpoint condition (see `condition_of`).
pub fn parse_condition(cond: &str) -> (r: (String, Option<(String, CmpOp, String)>))
    ensures
        r.0@ == condition_of(cond@).0,
        match (r.1, condition_of(cond@).1) {
            (Some((l, op, rt)), Some((l2, op2, rt2))) => l@ == l2 && op == op2 && rt@ == rt2,
            (None, None) => true,
            _ => false,
        },
{
    let c = chars_of(cond);
    let (a, b) = trim_range(&c, 0, c.len());
    let whole = string_of_range(&c, a, b);
    let ghost t = c@.subrange(a as int, b as int);
    let tv: Vec<char> = slice_chars(&c, a, b);
    let mut p: usize = 0;
    while p < tv.len() && !(tv[p] == '=' || tv[p] == '!' || tv[p] == '<' || tv[p] == '>')
        invariant
            tv@ == t,
            p <= t.len(),
            first_op_from(t, 0) == first_op_from(t, p as int),
        decreases t.len() - p,
    {
        p = p + 1;
    }
    if p == tv.len() {
        return (whole, None);
    }
    let n = tv.len();
    let op_len: usize;
    let op: CmpOp;
    if p + 1 < n && tv[p] == '=' && tv[p + 1] == '=' { op = CmpOp::Eq; op_len = 2; }
    else if p + 1 < n && tv[p] == '!' && tv[p + 1] == '=' { op = CmpOp::Ne; op_len = 2; }
    else if p + 1 < n && tv[p] == '<' && tv[p + 1] == '=' { op = CmpOp::Le; op_len = 2; }
    else if p + 1 < n && tv[p] == '>' && tv[p + 1] == '=' { op = CmpOp::Ge; op_len = 2; }
    else if tv[p] == '<' { op = CmpOp::Lt; op_len = 1; }
    else if tv[p] == '>' { op = CmpOp::Gt; op_len = 1; }
    else {
        proof {
            let r = t.subrange(p as int, t.len() as int);
            assert(r[0] == t[p as int]);
            if r.len() >= 2 {
                assert(r[1] == t[p + 1]);
            }
        }
        return (whole, None);
    }
    proof {
        let r = t.subrange(p as int, t.len() as int);
        assert(r[0] == t[p as int]);
        if r.len() >= 2 {
            assert(r[1] == t[p + 1]);
        }
        assert(op_prefix(r) == Some((op, op_len as int)));
    }
    let (la, lb) = trim_range(&tv, 0, p);
    let (ra, rb) = trim_range(&tv, p + op_len, n);
    let lhs = string_of_range(&tv, la, lb);
    let rhs = string_of_range(&tv, ra, rb);
    (whole, Some((lhs, op, rhs)))
}

/// The characters `t[lo..hi]` as a string.
fn string_of_range(t: &Vec<char>, lo: usize, hi: usize) -> (s: String)
    requires
        lo <= hi <= t@.len(),
    ensures
        s@ == t@.subrange(lo as int, hi as int),
{
    let mut s = String::new();
    let mut i = lo;
    while i < hi
        invariant
            lo <= i <= hi <= t@.len(),
            s@ == t@.subrange(lo as int, i as int),
        decreases hi - i,
    {
        string_push(&mut s, t[i]);
        i = i + 1;
        assert(s@ =~= t@.subrange(lo as int, i as int));
    }
    s
}

/// The characters `t[lo..hi]`.
fn slice_chars(t: &Vec<char>, lo: usize, hi: usize) -> (v: Vec<char>)
    requires
        lo <= hi <= t@.len(),
    ensures
        v@ == t@.subrange(lo as int, hi as int),
{
    let mut v: Vec<char> = Vec::new();
    let mut i = lo;
    while i < hi
        invariant
            lo <= i <= hi <= t@.len(),
            v@ == t@.subrange(lo as int, i as int),
        decreases hi - i,
    {
        v.push(t[i]);
        i = i + 1;
        assert(v@ =~= t@.subrange(lo as int, i as int));
    }
    v
}

} // verus!
