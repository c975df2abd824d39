//! Process lifecycle events and the probe interface: probes observe command
//! activity and emit `Started` / `Ended` events into the daemon's pipeline.

use vstd::prelude::*;
use std::collections::HashMap;

verus! {

/// Which kind of probe observed the process event.
#[derive(Clone, Copy, PartialEq, Eq, Structural, Debug)]
pub enum ProbeSource {
    KernelTrace,
    PosixShell,
    Other,
}

/// How much a probe can observe.
#[derive(Clone, Copy, PartialEq, Eq, Structural, Debug)]
pub enum PlatformCapability {
    SystemWide,
    ShellOnly,
    Polling,
}

/// Mathematical view of a `ProcessEvent`.
pub struct ProcessEventV {
    pub pid: u32,
    pub command: Seq<char>,
    pub timestamp: u64,
    pub working_directory: Option<Seq<char>>,
    pub environment: Option<Map<String, String>>,
    pub shell_session_id: Option<Seq<char>>,
    pub probe_source: ProbeSource,
}

/// A process creation event observed by a probe.
pub struct ProcessEvent {
    pub pid: u32,
    pub command: String,
    pub timestamp: u64,
    pub working_directory: Option<String>,
    pub environment: Option<HashMap<String, String>>,
    pub shell_session_id: Option<String>,
    pub probe_source: ProbeSource,
}

impl View for ProcessEvent {
    type V = ProcessEventV;

    open spec fn view(&self) -> ProcessEventV {
        ProcessEventV {
            pid: self.pid,
            command: self.command@,
            timestamp: self.timestamp,
            working_directory: match &self.working_directory {
                Option::Some(s) => Option::Some(s@),
                Option::None => Option::None,
            },
            environment: match &self.environment {
                Option::Some(m) => Option::Some(m@),
                Option::None => Option::None,
            },
            shell_session_id: match &self.shell_session_id {
                Option::Some(s) => Option::Some(s@),
                Option::None => Option::None,
            },
            probe_source: self.probe_source,
        }
    }
}

impl Clone for ProcessEvent {
    /// A clone carries the same fields.
    fn clone(&self) -> (r: Self)
        ensures
            r@ == self@,
    {
        ProcessEvent {
            pid: self.pid,
            command: self.command.clone(),
            timestamp: self.timestamp,
            working_directory: match &self.working_directory {
                Option::Some(s) => Option::Some(s.clone()),
                Option::None => Option::None,
            },
            environment: match &self.environment {
                Option::Some(m) => Option::Some(m.clone()),
                Option::None => Option::None,
            },
            shell_session_id: match &self.shell_session_id {
                Option::Some(s) => Option::Some(s.clone()),
                Option::None => Option::None,
            },
            probe_source: self.probe_source,
        }
    }
}

/// The tagged lifecycle record consumed by the supervisor: a process started,
/// or a process (identified by the pid of its `Started`) ended.
pub enum ProcessLifecycleEvent {
    Started(ProcessEvent),
    Ended { pid: u32 },
}

impl Clone for ProcessLifecycleEvent {
    /// A clone carries the same event.
    fn clone(&self) -> (r: Self)
        ensures
            r matches ProcessLifecycleEvent::Started(e) ==> (
            self matches ProcessLifecycleEvent::Started(o) && e@ == o@),
            r matches ProcessLifecycleEvent::Ended { pid } ==> (
            self matches ProcessLifecycleEvent::Ended { pid: p } && pid == p),
    {
        match self {
            ProcessLifecycleEvent::Started(e) => ProcessLifecycleEvent::Started(e.clone()),
            ProcessLifecycleEvent::Ended { pid } => ProcessLifecycleEvent::Ended { pid: *pid },
        }
    }
}

/// Relies on std::time::SystemTime::now: seconds since the Unix epoch, read
/// from the system clock (zero if the clock reads before the epoch). Nothing
/// is assumed of the value.
#[verifier::external_body]
pub(crate) fn unix_time_now() -> u64 {
    std::time::SystemTime::now()
        .duration_since(std::time::UNIX_EPOCH)
        .unwrap_or_default()
        .as_secs()
}

impl ProcessEvent {
    /// A fresh event for `pid` and `command`, stamped with the current time;
    /// the optional fields start empty.
    pub fn new(pid: u32, command: String, probe_source: ProbeSource) -> (r: Self)
        ensures
            r.pid == pid,
            r.command@ == command@,
            r.working_directory is None,
            r.environment is None,
            r.shell_session_id is None,
            r.probe_source == probe_source,
    {
        let timestamp = unix_time_now();
        ProcessEvent {
            pid,
            command,
            timestamp,
            working_directory: Option::None,
            environment: Option::None,
            shell_session_id: Option::None,
            probe_source,
        }
    }

    /// The same event with the working directory set.
    pub fn with_working_directory(self, wd: String) -> (r: Self)
        ensures
            r@ == (ProcessEventV { working_directory: Option::Some(wd@), ..self@ }),
    {
        ProcessEvent { working_directory: Option::Some(wd), ..self }
    }

    /// The same event with the environment mapping set.
    pub fn with_environment(self, env: HashMap<String, String>) -> (r: Self)
        ensures
            r@ == (ProcessEventV { environment: Option::Some(env@), ..self@ }),
    {
        ProcessEvent { environment: Option::Some(env), ..self }
    }

    /// The same event with the shell session identifier set.
    pub fn with_shell_session_id(self, session_id: String) -> (r: Self)
        ensures
            r@ == (ProcessEventV { shell_session_id: Option::Some(session_id@), ..self@ }),
    {
        ProcessEvent { shell_session_id: Option::Some(session_id), ..self }
    }
}

/// The interface every probe offers the supervisor. `start` returns once the
/// probe is ready to emit events, or says why it cannot; `stop` is idempotent
/// and releases the probe's resources. Probes and their I/O live outside this
/// crate, so nothing is promised of these methods here.
pub trait PlatformProbeTrait {
    fn start(&mut self) -> Result<(), String>;

    fn stop(&mut self) -> Result<(), String>;

    fn get_capability(&self) -> PlatformCapability;
}

/// `s` with every NUL character removed.
pub open spec fn strip_nuls(s: Seq<char>) -> Seq<char> {
    s.filter(|c: char| c != '\u{0}')
}

/// Removes NUL characters from a command line, as kernel-trace lookups can
/// return NUL-padded strings.
pub fn sanitize_command(s: &str) -> (r: String)
    ensures
        r@ == strip_nuls(s@),
{
    let n = s.unicode_len();
    let mut out: Vec<char> = Vec::new();
    let mut i: usize = 0;
    proof {
        reveal(Seq::filter);
        assert(s@.subrange(0, 0) =~= Seq::<char>::empty());
        assert(Seq::<char>::empty().filter(|c: char| c != '\u{0}') == Seq::<char>::empty());
    }
    while i < n
        invariant
            i <= n,
            n == s@.len(),
            out@ == s@.subrange(0, i as int).filter(|c: char| c != '\u{0}'),
        decreases n - i,
    {
        let c = s.get_char(i);
        proof {
            reveal(Seq::filter);
            let pre = s@.subrange(0, i as int);
            let cur = s@.subrange(0, i + 1);
            assert(cur.drop_last() =~= pre);
            assert(cur.last() == s@[i as int]);
        }
        if c != '\u{0}' {
            out.push(c);
        }
        i = i + 1;
    }
    proof {
        assert(s@.subrange(0, n as int) =~= s@);
    }
    crate::strutil::chars_to_string(&out)
}

/// The `Started` event a kernel probe emits for `pid`: the command line from
/// the out-of-band lookup (NULs removed) when the lookup succeeded, else the
/// `<unknown>` placeholder.
pub fn started_event_from_lookup(pid: u32, lookup: Option<String>) -> (r: ProcessLifecycleEvent)
    ensures
        r matches ProcessLifecycleEvent::Started(e) && e.pid == pid && e.probe_source
            == ProbeSource::KernelTrace && e.working_directory is None && e.shell_session_id
            is None && e.command@ == match lookup {
            Option::Some(c) => strip_nuls(c@),
            Option::None => "<unknown>"@,
        },
{
    let command = match lookup {
        Option::Some(c) => sanitize_command(c.as_str()),
        Option::None => String::from_str("<unknown>"),
    };
    ProcessLifecycleEvent::Started(ProcessEvent::new(pid, command, ProbeSource::KernelTrace))
}

/// The `Ended` event a probe emits when the process with `pid` exits.
pub fn ended_event(pid: u32) -> (r: ProcessLifecycleEvent)
    ensures
        r matches ProcessLifecycleEvent::Ended { pid: p } && p == pid,
{
    ProcessLifecycleEvent::Ended { pid }
}

} // verus!
