//! The shell probe's logic: framing of newline-delimited messages arriving on
//! the probe's socket, decoding of base64-carried fields, allocation of
//! synthetic pids, and the session map that pairs each `CommandEnd` with the
//! pid its `CommandStart` was given. The socket itself is handled outside
//! this crate; connection readers hand complete message records in and take
//! lifecycle events back.

use vstd::prelude::*;
use base64::Engine;
use std::collections::HashMap;
use crate::platform::{ProbeSource, ProcessEvent, ProcessLifecycleEvent};
use crate::strutil::{
    chars_to_string, find_index, join_sep, join_with_sep, lemma_find_index_at,
    lemma_find_index_none, str_to_chars, subvec, trim_chars, trim_spec,
};

verus! {

/// What the standard base64 alphabet decodes `s` to, if `s` is valid; the
/// result depends on the characters alone.
pub uninterp spec fn b64_decode(s: Seq<char>) -> Option<Seq<u8>>;

/// Relies on base64's standard-alphabet engine: decodes or rejects the input,
/// by the input characters alone.
#[verifier::external_body]
fn base64_decode(s: &str) -> (r: Option<Vec<u8>>)
    ensures
        match r {
            Option::Some(v) => b64_decode(s@) == Option::Some(v@),
            Option::None => b64_decode(s@) is None,
        },
{
    base64::engine::general_purpose::STANDARD.decode(s).ok()
}

/// The characters `String::from_utf8_lossy` reads from the bytes; a function
/// of the bytes alone.
pub uninterp spec fn utf8_lossy(b: Seq<u8>) -> Seq<char>;

/// Relies on String::from_utf8_lossy: decodes UTF-8, substituting the
/// replacement character for invalid sequences, by the bytes alone.
#[verifier::external_body]
fn utf8_lossy_string(b: &Vec<u8>) -> (r: String)
    ensures
        r@ == utf8_lossy(b@),
{
    String::from_utf8_lossy(b).to_string()
}

/// Which half of a command lifecycle a shell hook reports.
#[derive(Clone, Copy, PartialEq, Eq, Structural, Debug)]
pub enum ShellEventType {
    CommandStart,
    CommandEnd,
}

/// One record sent by a shell hook over the probe's socket. The command and
/// working directory may arrive base64-encoded, to tolerate arbitrary bytes,
/// with the plain fields as fallback.
pub struct ShellMessage {
    pub session_id: String,
    pub event_type: ShellEventType,
    pub command: Option<String>,
    pub command_b64: Option<String>,
    pub exit_code: Option<i64>,
    pub working_directory: Option<String>,
    pub working_directory_b64: Option<String>,
    pub environment: Option<HashMap<String, String>>,
}

/// Mathematical view of a `ShellMessage`.
pub struct ShellMessageV {
    pub session_id: Seq<char>,
    pub event_type: ShellEventType,
    pub command: Option<Seq<char>>,
    pub command_b64: Option<Seq<char>>,
    pub exit_code: Option<i64>,
    pub working_directory: Option<Seq<char>>,
    pub working_directory_b64: Option<Seq<char>>,
    pub environment: Option<Map<String, String>>,
}

impl View for ShellMessage {
    type V = ShellMessageV;

    open spec fn view(&self) -> ShellMessageV {
        ShellMessageV {
            session_id: self.session_id@,
            event_type: self.event_type,
            command: match &self.command {
                Option::Some(s) => Option::Some(s@),
                Option::None => Option::None,
            },
            command_b64: match &self.command_b64 {
                Option::Some(s) => Option::Some(s@),
                Option::None => Option::None,
            },
            exit_code: self.exit_code,
            working_directory: match &self.working_directory {
                Option::Some(s) => Option::Some(s@),
                Option::None => Option::None,
            },
            working_directory_b64: match &self.working_directory_b64 {
                Option::Some(s) => Option::Some(s@),
                Option::None => Option::None,
            },
            environment: match &self.environment {
                Option::Some(m) => Option::Some(m@),
                Option::None => Option::None,
            },
        }
    }
}

/// The smallest synthetic pid, chosen to stay clear of real system pids.
pub const SYNTHETIC_PID_FLOOR: u32 = 1_000_000;

/// Allocates synthetic pids for shell commands: a monotonic counter starting
/// at the synthetic floor, so that every pid handed out is at least the floor
/// and no pid is handed out twice in one run.
pub struct SyntheticPidAllocator {
    pub next: u32,
    pub emitted: Ghost<Seq<u32>>,
}

impl SyntheticPidAllocator {
    /// The counter sits at or above the floor, above everything emitted, and
    /// what was emitted is strictly increasing.
    pub open spec fn wf(self) -> bool {
        &&& SYNTHETIC_PID_FLOOR <= self.next
        &&& forall|i: int|
            0 <= i < self.emitted@.len() ==> SYNTHETIC_PID_FLOOR <= #[trigger] self.emitted@[i]
                < self.next
        &&& forall|i: int, j: int|
            0 <= i < j < self.emitted@.len() ==> self.emitted@[i] < self.emitted@[j]
    }

    /// A fresh allocator that has emitted nothing.
    pub fn new() -> (r: Self)
        ensures
            r.wf(),
            r.next == SYNTHETIC_PID_FLOOR,
            r.emitted@ == Seq::<u32>::empty(),
    {
        SyntheticPidAllocator { next: SYNTHETIC_PID_FLOOR, emitted: Ghost(Seq::empty()) }
    }

    /// Hands out the next synthetic pid.
    pub fn generate_synthetic_pid(&mut self) -> (r: u32)
        requires
            old(self).wf(),
            old(self).next < u32::MAX,
        ensures
            final(self).wf(),
            r == old(self).next,
            final(self).next == old(self).next + 1,
            final(self).emitted@ == old(self).emitted@.push(r),
            SYNTHETIC_PID_FLOOR <= r,
    {
        let r = self.next;
        self.next = self.next + 1;
        proof {
            self.emitted@ = self.emitted@.push(r);
        }
        r
    }
}

/// Pid partition law: every synthetic pid emitted in one run sits at or
/// above the synthetic floor, and no two are equal.
pub proof fn lemma_synthetic_pid_partition(a: SyntheticPidAllocator)
    requires
        a.wf(),
    ensures
        forall|i: int| 0 <= i < a.emitted@.len() ==> SYNTHETIC_PID_FLOOR <= #[trigger] a.emitted@[i],
        forall|i: int, j: int|
            0 <= i < j < a.emitted@.len() ==> a.emitted@[i] != a.emitted@[j],
{
}

/// One shell session currently running a command, and the synthetic pid its
/// `Started` event carried.
pub struct SessionEntry {
    pub session_id: String,
    pub pid: u32,
}

/// Mathematical view of a `SessionEntry`.
pub struct SessionEntryV {
    pub session_id: Seq<char>,
    pub pid: u32,
}

impl View for SessionEntry {
    type V = SessionEntryV;

    open spec fn view(&self) -> SessionEntryV {
        SessionEntryV { session_id: self.session_id@, pid: self.pid }
    }
}

impl DeepView for SessionEntry {
    type V = SessionEntryV;

    open spec fn deep_view(&self) -> SessionEntryV {
        self.view()
    }
}

/// The index of the entry for `sid`, or -1.
pub open spec fn session_index(entries: Seq<SessionEntryV>, sid: Seq<char>) -> int
    decreases entries.len(),
{
    if entries.len() == 0 {
        -1
    } else if entries[0].session_id == sid {
        0
    } else {
        let r = session_index(entries.subrange(1, entries.len() as int), sid);
        if r < 0 {
            -1
        } else {
            r + 1
        }
    }
}

/// `session_index` returns the position of the first entry for `sid`.
pub proof fn lemma_session_index_at(entries: Seq<SessionEntryV>, sid: Seq<char>, j: int)
    requires
        0 <= j < entries.len(),
        entries[j].session_id == sid,
        forall|k: int| 0 <= k < j ==> entries[k].session_id != sid,
    ensures
        session_index(entries, sid) == j,
    decreases j,
{
    if j > 0 {
        let t = entries.subrange(1, entries.len() as int);
        assert(forall|k: int|
            0 <= k < j - 1 ==> t[k] == entries[k + 1] && t[k].session_id != sid);
        assert(t[j - 1] == entries[j]);
        lemma_session_index_at(t, sid, j - 1);
    }
}

/// `session_index` returns -1 exactly when no entry tracks `sid`.
pub proof fn lemma_session_index_none(entries: Seq<SessionEntryV>, sid: Seq<char>)
    requires
        forall|k: int| 0 <= k < entries.len() ==> entries[k].session_id != sid,
    ensures
        session_index(entries, sid) == -1,
    decreases entries.len(),
{
    if entries.len() > 0 {
        let t = entries.subrange(1, entries.len() as int);
        assert(forall|k: int|
            0 <= k < t.len() ==> t[k] == entries[k + 1] && t[k].session_id != sid);
        lemma_session_index_none(t, sid);
    }
}

/// The command carried by a `CommandStart`: the base64 field decoded when
/// present and valid; its plain fallback (or a decode-error placeholder)
/// when decoding fails; the plain field (or an unknown-command placeholder)
/// when no base64 field came.
pub open spec fn start_command_spec(m: ShellMessageV) -> Seq<char> {
    match m.command_b64 {
        Option::Some(b) => match b64_decode(b) {
            Option::Some(bytes) => utf8_lossy(bytes),
            Option::None => match m.command {
                Option::Some(c) => c,
                Option::None => "<decode error>"@,
            },
        },
        Option::None => match m.command {
            Option::Some(c) => c,
            Option::None => "<unknown command>"@,
        },
    }
}

/// The working directory carried by a `CommandStart`, decoded the same way;
/// absent fields stay absent.
pub open spec fn start_wd_spec(m: ShellMessageV) -> Option<Seq<char>> {
    match m.working_directory_b64 {
        Option::Some(b) => match b64_decode(b) {
            Option::Some(bytes) => Option::Some(utf8_lossy(bytes)),
            Option::None => m.working_directory,
        },
        Option::None => m.working_directory,
    }
}

/// The session map after a `CommandStart` for `sid`: the entry is replaced
/// if the session was already running a command, else appended.
pub open spec fn sessions_after_start(
    entries: Seq<SessionEntryV>,
    sid: Seq<char>,
    pid: u32,
) -> Seq<SessionEntryV> {
    let i = session_index(entries, sid);
    if i >= 0 {
        entries.update(i, SessionEntryV { session_id: sid, pid })
    } else {
        entries.push(SessionEntryV { session_id: sid, pid })
    }
}

/// Tracks the sessions with a running command and allocates their synthetic
/// pids.
pub struct ShellSessionTracker {
    pub active_sessions: Vec<SessionEntry>,
    pub pids: SyntheticPidAllocator,
}

impl ShellSessionTracker {
    /// The session entries.
    pub open spec fn sessions_view(self) -> Seq<SessionEntryV> {
        self.active_sessions.deep_view()
    }

    /// Sessions are tracked once each, and the allocator is consistent.
    pub open spec fn wf(self) -> bool {
        &&& forall|i: int, j: int|
            0 <= i < j < self.sessions_view().len() ==> self.sessions_view()[i].session_id
                != self.sessions_view()[j].session_id
        &&& self.pids.wf()
    }

    /// A tracker with no sessions and a fresh pid allocator.
    pub fn new() -> (r: Self)
        ensures
            r.wf(),
            r.sessions_view() == Seq::<SessionEntryV>::empty(),
            r.pids.next == SYNTHETIC_PID_FLOOR,
    {
        let r = ShellSessionTracker {
            active_sessions: Vec::new(),
            pids: SyntheticPidAllocator::new(),
        };
        proof {
            assert(r.sessions_view() =~= Seq::<SessionEntryV>::empty());
        }
        r
    }

    /// The position of `sid`'s entry, if one exists.
    fn find_session(&self, sid: &String) -> (r: Option<usize>)
        ensures
            r matches Some(i) ==> i < self.sessions_view().len() && session_index(
                self.sessions_view(),
                sid@,
            ) == i && self.sessions_view()[i as int].session_id == sid@,
            r is None ==> session_index(self.sessions_view(), sid@) == -1,
    {
        let mut i: usize = 0;
        while i < self.active_sessions.len()
            invariant
                i <= self.sessions_view().len(),
                forall|k: int| 0 <= k < i ==> self.sessions_view()[k].session_id != sid@,
            decreases self.active_sessions.len() - i,
        {
            if crate::config::strings_equal(&self.active_sessions[i].session_id, sid) {
                proof {
                    lemma_session_index_at(self.sessions_view(), sid@, i as int);
                }
                return Option::Some(i);
            }
            i = i + 1;
        }
        proof {
            lemma_session_index_none(self.sessions_view(), sid@);
        }
        Option::None
    }

    /// Handles one complete message from a shell hook. A `CommandStart`
    /// decodes the command and working directory, allocates a synthetic pid,
    /// records the session and emits `Started`; a `CommandEnd` forgets the
    /// session and emits `Ended` with the stored pid, or nothing for an
    /// unknown session.
    pub fn handle_shell_message(&mut self, msg: ShellMessage) -> (r: Option<ProcessLifecycleEvent>)
        requires
            old(self).wf(),
            old(self).pids.next < u32::MAX,
        ensures
            final(self).wf(),
            msg.event_type == ShellEventType::CommandStart ==> ({
                &&& r matches Some(ev)
                &&& ev matches ProcessLifecycleEvent::Started(e)
                &&& e.pid == old(self).pids.next
                &&& SYNTHETIC_PID_FLOOR <= e.pid
                &&& e.command@ == start_command_spec(msg@)
                &&& e@.working_directory == start_wd_spec(msg@)
                &&& e@.shell_session_id == Option::Some(msg.session_id@)
                &&& e@.environment == msg@.environment
                &&& e.probe_source == ProbeSource::PosixShell
                &&& final(self).sessions_view() == sessions_after_start(
                    old(self).sessions_view(),
                    msg.session_id@,
                    e.pid,
                )
                &&& final(self).pids.next == old(self).pids.next + 1
                &&& final(self).pids.emitted@ == old(self).pids.emitted@.push(e.pid)
            }),
            msg.event_type == ShellEventType::CommandEnd ==> final(self).pids == old(self).pids
                && ({
                let i = session_index(old(self).sessions_view(), msg.session_id@);
                if i >= 0 {
                    &&& r == Option::Some(
                        ProcessLifecycleEvent::Ended {
                            pid: old(self).sessions_view()[i].pid,
                        },
                    )
                    &&& final(self).sessions_view() == old(self).sessions_view().subrange(0, i)
                        + old(self).sessions_view().subrange(
                        i + 1,
                        old(self).sessions_view().len() as int,
                    )
                } else {
                    r is None && final(self).sessions_view() == old(self).sessions_view()
                }
            }),
    {
        match msg.event_type {
            ShellEventType::CommandStart => {
                let command: String = match &msg.command_b64 {
                    Option::Some(b) => match base64_decode(b.as_str()) {
                        Option::Some(bytes) => utf8_lossy_string(&bytes),
                        Option::None => match &msg.command {
                            Option::Some(c) => c.clone(),
                            Option::None => String::from_str("<decode error>"),
                        },
                    },
                    Option::None => match &msg.command {
                        Option::Some(c) => c.clone(),
                        Option::None => String::from_str("<unknown command>"),
                    },
                };
                let pid = self.pids.generate_synthetic_pid();
                let mut event = ProcessEvent::new(pid, command, ProbeSource::PosixShell)
                    .with_shell_session_id(msg.session_id.clone());
                match &msg.working_directory_b64 {
                    Option::Some(b) => match base64_decode(b.as_str()) {
                        Option::Some(bytes) => {
                            event = event.with_working_directory(utf8_lossy_string(&bytes));
                        },
                        Option::None => {
                            match &msg.working_directory {
                                Option::Some(w) => {
                                    event = event.with_working_directory(w.clone());
                                },
                                Option::None => {},
                            }
                        },
                    },
                    Option::None => {
                        match &msg.working_directory {
                            Option::Some(w) => {
                                event = event.with_working_directory(w.clone());
                            },
                            Option::None => {},
                        }
                    },
                }
                match msg.environment {
                    Option::Some(env) => {
                        event = event.with_environment(env);
                    },
                    Option::None => {},
                }
                let ghost pre = self.sessions_view();
                match self.find_session(&msg.session_id) {
                    Option::Some(i) => {
                        let ghost pre_exec = self.active_sessions@;
                        let entry = &mut self.active_sessions[i];
                        entry.session_id = msg.session_id.clone();
                        entry.pid = pid;
                        proof {
                            let cur = self.sessions_view();
                            let target = pre.update(
                                i as int,
                                SessionEntryV { session_id: msg.session_id@, pid },
                            );
                            assert forall|j: int| 0 <= j < cur.len() implies cur[j]
                                == target[j] by {
                                if j != i {
                                    assert(self.active_sessions@[j] == pre_exec[j]);
                                }
                            }
                            assert(cur =~= target);
                            assert(pre == old(self).sessions_view());
                            assert forall|x: int, y: int|
                                0 <= x < y < cur.len() implies cur[x].session_id
                                != cur[y].session_id by {
                                assert(old(self).sessions_view()[x].session_id != old(
                                    self,
                                ).sessions_view()[y].session_id);
                                assert(cur[x].session_id == pre[x].session_id);
                                assert(cur[y].session_id == pre[y].session_id);
                            }
                        }
                    },
                    Option::None => {
                        let ghost prev = self.active_sessions;
                        self.active_sessions.push(
                            SessionEntry { session_id: msg.session_id.clone(), pid },
                        );
                        proof {
                            crate::strutil::lemma_deep_view_push(
                                prev,
                                self.active_sessions,
                                self.active_sessions@[self.active_sessions@.len() - 1],
                            );
                            let cur = self.sessions_view();
                            assert(cur =~= pre.push(
                                SessionEntryV { session_id: msg.session_id@, pid },
                            ));
                            lemma_session_index_props(pre, msg.session_id@);
                            assert(pre == old(self).sessions_view());
                            assert forall|x: int, y: int|
                                0 <= x < y < cur.len() implies cur[x].session_id
                                != cur[y].session_id by {
                                if y < pre.len() {
                                    assert(cur[x] == pre[x] && cur[y] == pre[y]);
                                    assert(old(self).sessions_view()[x].session_id != old(
                                        self,
                                    ).sessions_view()[y].session_id);
                                } else {
                                    assert(cur[x] == pre[x]);
                                    assert(pre[x].session_id != msg.session_id@);
                                }
                            }
                        }
                    },
                }
                Option::Some(ProcessLifecycleEvent::Started(event))
            },
            ShellEventType::CommandEnd => {
                match self.find_session(&msg.session_id) {
                    Option::Some(i) => {
                        let ghost pre = self.sessions_view();
                        let ghost pre_exec = self.active_sessions@;
                        let entry = self.active_sessions.remove(i);
                        proof {
                            let cur = self.sessions_view();
                            let target = pre.subrange(0, i as int) + pre.subrange(
                                i + 1,
                                pre.len() as int,
                            );
                            assert forall|j: int| 0 <= j < cur.len() implies cur[j]
                                == target[j] by {
                                if j < i {
                                    assert(self.active_sessions@[j] == pre_exec[j]);
                                } else {
                                    assert(self.active_sessions@[j] == pre_exec[j + 1]);
                                }
                            }
                            assert(cur =~= target);
                            assert(pre == old(self).sessions_view());
                            assert forall|x: int, y: int|
                                0 <= x < y < cur.len() implies cur[x].session_id
                                != cur[y].session_id by {
                                if y < i {
                                    assert(cur[x] == pre[x] && cur[y] == pre[y]);
                                    assert(old(self).sessions_view()[x].session_id != old(
                                        self,
                                    ).sessions_view()[y].session_id);
                                } else if x < i {
                                    assert(cur[x] == pre[x] && cur[y] == pre[y + 1]);
                                    assert(old(self).sessions_view()[x].session_id != old(
                                        self,
                                    ).sessions_view()[y + 1].session_id);
                                } else {
                                    assert(cur[x] == pre[x + 1] && cur[y] == pre[y + 1]);
                                    assert(old(self).sessions_view()[x + 1].session_id != old(
                                        self,
                                    ).sessions_view()[y + 1].session_id);
                                }
                            }
                            assert(entry@ == pre[i as int]);
                        }
                        Option::Some(ProcessLifecycleEvent::Ended { pid: entry.pid })
                    },
                    Option::None => Option::None,
                }
            },
        }
    }
}

/// An empty buffer frames to no messages and nothing kept.
proof fn lemma_empty_buffer_segments()
    ensures
        messages_of_segments(split_on_newlines(Seq::<char>::empty()))
            == Seq::<Seq<char>>::empty(),
        incomplete_of_segments(split_on_newlines(Seq::<char>::empty()))
            == Seq::<Seq<char>>::empty(),
{
    let e = Seq::<char>::empty();
    lemma_find_index_none(e, '\n');
    let single = seq![e];
    assert(split_on_newlines(e) == single);
    assert(single[0] == e);
    assert(single.subrange(1, 1) =~= Seq::<Seq<char>>::empty());
    assert(trim_spec(e) == e);
    assert(messages_of_segments(Seq::<Seq<char>>::empty()) == Seq::<Seq<char>>::empty());
    assert(incomplete_of_segments(Seq::<Seq<char>>::empty()) == Seq::<Seq<char>>::empty());
    assert(messages_of_segments(single) == Seq::<Seq<char>>::empty() + messages_of_segments(
        single.subrange(1, 1),
    ));
    assert(messages_of_segments(single) =~= Seq::<Seq<char>>::empty());
    assert(incomplete_of_segments(single) == Seq::<Seq<char>>::empty() + incomplete_of_segments(
        single.subrange(1, 1),
    ));
    assert(incomplete_of_segments(single) =~= Seq::<Seq<char>>::empty());
}

/// The segments of `s` between newline characters; a trailing newline leaves
/// a final empty segment, which the framing then drops.
pub open spec fn split_on_newlines(s: Seq<char>) -> Seq<Seq<char>>
    decreases s.len(),
{
    let j = find_index(s, '\n');
    if j < 0 || j + 1 > s.len() {
        seq![s]
    } else {
        seq![s.subrange(0, j)] + split_on_newlines(s.subrange(j + 1, s.len() as int))
    }
}

/// A line is taken for a complete message exactly when it begins with `{`
/// and ends with `}`.
pub open spec fn is_complete_message(line: Seq<char>) -> bool {
    line.len() > 0 && line[0] == '{' && line[line.len() - 1] == '}'
}

/// The complete messages among the segments, trimmed, in order.
pub open spec fn messages_of_segments(segs: Seq<Seq<char>>) -> Seq<Seq<char>>
    decreases segs.len(),
{
    if segs.len() == 0 {
        Seq::<Seq<char>>::empty()
    } else {
        let t = trim_spec(segs[0]);
        (if t.len() > 0 && is_complete_message(t) {
            seq![t]
        } else {
            Seq::<Seq<char>>::empty()
        }) + messages_of_segments(segs.subrange(1, segs.len() as int))
    }
}

/// The nonempty incomplete lines among the segments, trimmed, in order; they
/// stay buffered for the next read.
pub open spec fn incomplete_of_segments(segs: Seq<Seq<char>>) -> Seq<Seq<char>>
    decreases segs.len(),
{
    if segs.len() == 0 {
        Seq::<Seq<char>>::empty()
    } else {
        let t = trim_spec(segs[0]);
        (if t.len() > 0 && !is_complete_message(t) {
            seq![t]
        } else {
            Seq::<Seq<char>>::empty()
        }) + incomplete_of_segments(segs.subrange(1, segs.len() as int))
    }
}

/// Splits the buffered socket bytes into lines and takes every line that
/// reads as one complete message (it begins with `{` and ends with `}`);
/// incomplete trailing fragments stay in the buffer, newline-separated, for
/// the next read.
#[verifier::loop_isolation(false)]
#[verifier::rlimit(60)]
pub fn extract_json_messages(buffer: &mut String) -> (r: Vec<String>)
    ensures
        r.deep_view() == messages_of_segments(split_on_newlines(old(buffer)@)),
        final(buffer)@ == join_sep(
            incomplete_of_segments(split_on_newlines(old(buffer)@)),
            "\n"@,
        ),
{
    let chars = str_to_chars(buffer.as_str());
    let ghost full = chars@;
    let n = chars.len();
    let mut msgs: Vec<String> = Vec::new();
    let mut kept: Vec<String> = Vec::new();
    let mut i: usize = 0;
    proof {
        assert(full.subrange(0, n as int) =~= full);
        assert(msgs.deep_view() + messages_of_segments(split_on_newlines(full))
            =~= messages_of_segments(split_on_newlines(full)));
        assert(kept.deep_view() + incomplete_of_segments(split_on_newlines(full))
            =~= incomplete_of_segments(split_on_newlines(full)));
    }
    while i < n
        invariant
            i <= n,
            messages_of_segments(split_on_newlines(full)) == msgs.deep_view()
                + messages_of_segments(split_on_newlines(full.subrange(i as int, n as int))),
            incomplete_of_segments(split_on_newlines(full)) == kept.deep_view()
                + incomplete_of_segments(split_on_newlines(full.subrange(i as int, n as int))),
        decreases n - i,
    {
        let ghost suffix = full.subrange(i as int, n as int);
        // find the end of the current line
        let mut k: usize = i;
        while k < n && chars[k] != '\n'
            invariant
                i <= k <= n,
                forall|m: int| i <= m < k ==> full[m] != '\n',
            decreases n - k,
        {
            k = k + 1;
        }
        let ghost segv = full.subrange(i as int, k as int);
        let ghost rest_segs = if k < n {
            split_on_newlines(full.subrange(k + 1, n as int))
        } else {
            Seq::<Seq<char>>::empty()
        };
        proof {
            if k < n {
                assert(forall|m: int| 0 <= m < k - i ==> suffix[m] == full[i + m]
                    && suffix[m] != '\n');
                assert(suffix[k - i] == full[k as int]);
                lemma_find_index_at(suffix, '\n', k - i);
                assert(suffix.subrange(0, k - i) =~= segv);
                assert(suffix.subrange(k - i + 1, suffix.len() as int) =~= full.subrange(
                    k + 1,
                    n as int,
                ));
                assert(split_on_newlines(suffix) == seq![segv] + rest_segs);
            } else {
                assert(forall|m: int| 0 <= m < suffix.len() ==> suffix[m] == full[i + m]
                    && suffix[m] != '\n');
                lemma_find_index_none(suffix, '\n');
                assert(suffix =~= segv);
                assert(split_on_newlines(suffix) == seq![segv]);
                assert(seq![segv] + Seq::<Seq<char>>::empty() =~= seq![segv]);
                assert(split_on_newlines(suffix) =~= seq![segv] + rest_segs);
            }
            let segs = seq![segv] + rest_segs;
            assert(segs[0] == segv);
            assert(segs.subrange(1, segs.len() as int) =~= rest_segs);
        }
        let seg = subvec(&chars, i, k);
        let t = trim_chars(&seg);
        let ghost tv = trim_spec(segv);
        if t.len() > 0 && t[0] == '{' && t[t.len() - 1] == '}' {
            let ghost prevm = msgs;
            msgs.push(chars_to_string(&t));
            proof {
                crate::strutil::lemma_deep_view_push(prevm, msgs, msgs@[msgs@.len() - 1]);
                assert(msgs.deep_view() =~= prevm.deep_view() + seq![tv]);
                assert((prevm.deep_view() + seq![tv]) + messages_of_segments(rest_segs)
                    =~= prevm.deep_view() + (seq![tv] + messages_of_segments(rest_segs)));
                assert(kept.deep_view() + (Seq::<Seq<char>>::empty() + incomplete_of_segments(
                    rest_segs,
                )) =~= kept.deep_view() + incomplete_of_segments(rest_segs));
            }
        } else if t.len() > 0 {
            let ghost prevk = kept;
            kept.push(chars_to_string(&t));
            proof {
                crate::strutil::lemma_deep_view_push(prevk, kept, kept@[kept@.len() - 1]);
                assert(kept.deep_view() =~= prevk.deep_view() + seq![tv]);
                assert((prevk.deep_view() + seq![tv]) + incomplete_of_segments(rest_segs)
                    =~= prevk.deep_view() + (seq![tv] + incomplete_of_segments(rest_segs)));
                assert(msgs.deep_view() + (Seq::<Seq<char>>::empty() + messages_of_segments(
                    rest_segs,
                )) =~= msgs.deep_view() + messages_of_segments(rest_segs));
            }
        } else {
            proof {
                assert(msgs.deep_view() + (Seq::<Seq<char>>::empty() + messages_of_segments(
                    rest_segs,
                )) =~= msgs.deep_view() + messages_of_segments(rest_segs));
                assert(kept.deep_view() + (Seq::<Seq<char>>::empty() + incomplete_of_segments(
                    rest_segs,
                )) =~= kept.deep_view() + incomplete_of_segments(rest_segs));
            }
        }
        proof {
            if k == n {
                let empty_suffix = full.subrange(n as int, n as int);
                assert(empty_suffix =~= Seq::<char>::empty());
                lemma_empty_buffer_segments();
                assert(msgs.deep_view() + Seq::<Seq<char>>::empty() =~= msgs.deep_view());
                assert(kept.deep_view() + Seq::<Seq<char>>::empty() =~= kept.deep_view());
            }
        }
        i = if k < n {
            k + 1
        } else {
            n
        };
    }
    proof {
        let empty_suffix = full.subrange(n as int, n as int);
        assert(empty_suffix =~= Seq::<char>::empty());
        lemma_empty_buffer_segments();
        assert(msgs.deep_view() + Seq::<Seq<char>>::empty() =~= msgs.deep_view());
        assert(kept.deep_view() + Seq::<Seq<char>>::empty() =~= kept.deep_view());
    }
    let joined = join_with_sep(&kept, "\n");
    *buffer = joined;
    msgs
}

/// The path of the probe's socket: `viberot-shell.sock` under the runtime
/// directory when one is configured, else under `/tmp`.
pub fn socket_path_for(runtime_dir: Option<String>) -> (r: String)
    ensures
        r@ == match runtime_dir {
            Option::Some(d) => d@ + "/viberot-shell.sock"@,
            Option::None => "/tmp/viberot-shell.sock"@,
        },
{
    match runtime_dir {
        Option::Some(d) => {
            let mut p = d;
            p.append("/viberot-shell.sock");
            p
        },
        Option::None => String::from_str("/tmp/viberot-shell.sock"),
    }
}

/// A non-negative `session_index` points at an entry for `sid`; a negative
/// one means no entry tracks `sid`.
pub proof fn lemma_session_index_props(entries: Seq<SessionEntryV>, sid: Seq<char>)
    ensures
        session_index(entries, sid) < 0 ==> forall|k: int|
            0 <= k < entries.len() ==> entries[k].session_id != sid,
        session_index(entries, sid) >= 0 ==> session_index(entries, sid) < entries.len()
            && entries[session_index(entries, sid)].session_id == sid,
    decreases entries.len(),
{
    if entries.len() > 0 {
        let t = entries.subrange(1, entries.len() as int);
        lemma_session_index_props(t, sid);
        if entries[0].session_id == sid {
        } else {
            let r = session_index(t, sid);
            if r >= 0 {
                assert(t[r] == entries[r + 1]);
            } else {
                assert forall|k: int|
                    0 <= k < entries.len() implies entries[k].session_id != sid by {
                    if k > 0 {
                        assert(entries[k] == t[k - 1]);
                    }
                }
            }
        }
    }
}

} // verus!
