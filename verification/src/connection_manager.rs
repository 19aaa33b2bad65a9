//! Decisions of the connection manager, which owns the serial port.
//!
//! The manager alternates between blocking I/O (waiting for a command,
//! opening the port, reading from it) and decisions.  The I/O runs in the
//! caller's loop; this module decides.  The caller performs the `ConnOp` it
//! is handed, reports the outcome as a `ConnInput` to `step`, and sends the
//! returned `Notice`s to the GUI in order.
use crate::events::{ConnCmd, PortInfo};
use crate::serial_reader::{
    bursts_view, concat_chunks, lemma_find_sync_none, lemma_parse_concat, lemma_parse_shape,
    lemma_push_nothing, parse_stream, SyncFrameParser,
};
use vstd::prelude::*;

verus! {

/// USB details of a serial port, as far as the display needs them.
pub struct UsbPortDetails {
    pub product: Option<String>,
    pub manufacturer: Option<String>,
}

/// A serial port found by a port scan: its name and, for a USB port, its
/// USB details (`None` for every other kind of port).
pub struct SerialPortDetails {
    pub port_name: String,
    pub usb: Option<UsbPortDetails>,
}

/// The description shown for a port: the USB product name, else the USB
/// manufacturer, else nothing.
pub open spec fn port_description(usb: Option<UsbPortDetails>) -> Seq<char> {
    match usb {
        Some(u) => match u.product {
            Some(p) => p@,
            None => match u.manufacturer {
                Some(m) => m@,
                None => Seq::empty(),
            },
        },
        None => Seq::empty(),
    }
}

/// Map a scanned port to its display-ready `PortInfo`.
pub fn port_info_from(info: SerialPortDetails) -> (p: PortInfo)
    ensures
        p.name@ == info.port_name@,
        p.description@ == port_description(info.usb),
        match info.usb {
            Some(u) => match u.product {
                Some(product) => p.description@ == product@,
                None => match u.manufacturer {
                    Some(m) => p.description@ == m@,
                    None => p.description@.len() == 0,
                },
            },
            None => p.description@.len() == 0,
        },
{
    let description = match info.usb {
        Some(usb) => match usb.product {
            Some(p) => p,
            None => match usb.manufacturer {
                Some(m) => m,
                None => String::new(),
            },
        },
        None => String::new(),
    };
    PortInfo { name: info.port_name, description }
}

/// Where the connection manager stands.
#[derive(PartialEq, Eq, Structural, Clone, Copy, Debug)]
pub enum ConnPhase {
    /// No port open; waiting (blocking) for a command.
    Idle,
    /// A port is being opened.
    Opening,
    /// A port is open; polling for commands and reading bytes in turn.
    Reading,
    /// The manager has stopped for good.
    Exited,
}

/// The outcome of the last `ConnOp`, reported back to `step`.
pub enum ConnInput {
    /// A command arrived.
    Command(ConnCmd),
    /// Polling found no command.
    NoCommand,
    /// The command channel is closed (the GUI has exited).
    CommandsClosed,
    /// The port was opened.
    Opened,
    /// Opening the port failed with this message.
    OpenFailed(String),
    /// A read returned these bytes (possibly none).
    Received(Vec<u8>),
    /// A read timed out without data.
    ReadTimedOut,
    /// A read failed with this message.
    ReadFailed(String),
    /// The GUI's event channel is closed.
    EventsClosed,
}

/// The I/O the caller performs next.
pub enum ConnOp {
    /// Block until a command arrives.
    WaitCommand,
    /// Check for a command without blocking.
    PollCommand,
    /// Open the named port at the given baud rate (replacing any open one).
    Open(String, u32),
    /// Read from the open port.
    Read,
    /// Close everything and stop.
    Exit,
}

/// A message for the GUI.
pub enum Notice {
    Connected,
    Disconnected,
    Error(String),
    /// One burst of samples; the caller timestamps it when sending.
    Samples(Vec<i16>),
}

/// "Failed to open {port}: {err}".
pub open spec fn open_failed_message(port: Seq<char>, err: Seq<char>) -> Seq<char> {
    "Failed to open "@ + port + ": "@ + err
}

/// "Serial read error on {port}: {err}".
pub open spec fn read_failed_message(port: Seq<char>, err: Seq<char>) -> Seq<char> {
    "Serial read error on "@ + port + ": "@ + err
}

/// `notes` is an error with message `msg` followed by a disconnection.
pub open spec fn error_then_disconnected(notes: Seq<Notice>, msg: Seq<char>) -> bool {
    &&& notes.len() == 2
    &&& notes[0] matches Notice::Error(s) && s@ == msg
    &&& notes[1] is Disconnected
}

/// `notes` carries exactly the bursts `bursts`, in order.
pub open spec fn notices_are_samples(notes: Seq<Notice>, bursts: Seq<Seq<i16>>) -> bool {
    &&& notes.len() == bursts.len()
    &&& forall|i: int|
        0 <= i < notes.len() ==> (#[trigger] notes[i] matches Notice::Samples(v) && v@ == bursts[i])
}

/// The connection manager's decision state.
pub struct ConnectionManager {
    phase: ConnPhase,
    /// The port named by the last `Connect` accepted while idle; read errors
    /// are reported against it.
    port_name: String,
    /// The port being opened or last opened.
    target: String,
    /// The baud rate `target` is opened at.
    target_baud: u32,
    /// Frame parser for the bytes of the open port.
    parser: SyncFrameParser,
}

impl ConnectionManager {
    pub closed spec fn phase(&self) -> ConnPhase {
        self.phase
    }

    pub closed spec fn port_name(&self) -> Seq<char> {
        self.port_name@
    }

    pub closed spec fn target(&self) -> Seq<char> {
        self.target@
    }

    pub closed spec fn target_baud(&self) -> u32 {
        self.target_baud
    }

    /// `(buffered bytes, synced, pending bursts)` of the frame parser.
    pub closed spec fn parser_view(&self) -> (Seq<u8>, bool, Seq<Seq<i16>>) {
        self.parser@
    }

    /// Everything but the phase is as in `old`.
    pub open spec fn keeps_session_of(&self, old: &ConnectionManager) -> bool {
        &&& self.port_name() == old.port_name()
        &&& self.target() == old.target()
        &&& self.target_baud() == old.target_baud()
        &&& self.parser_view() == old.parser_view()
    }

    /// A manager that is idle; the caller starts by waiting for a command.
    pub fn new() -> (m: Self)
        ensures
            m.phase() == ConnPhase::Idle,
            m.port_name() == Seq::<char>::empty(),
            m.target() == Seq::<char>::empty(),
            m.target_baud() == 0,
            m.parser_view() == (Seq::<u8>::empty(), false, Seq::<Seq<i16>>::empty()),
    {
        ConnectionManager {
            phase: ConnPhase::Idle,
            port_name: String::new(),
            target: String::new(),
            target_baud: 0,
            parser: SyncFrameParser::new(),
        }
    }

    /// The current phase.
    pub fn current_phase(&self) -> (p: ConnPhase)
        ensures
            p == self.phase(),
    {
        self.phase
    }

    /// Decide what to tell the GUI and what to do next, given the outcome of
    /// the last operation.  Inputs that cannot occur in the current phase are
    /// ignored: no notice, and the operation of the current phase is repeated.
    pub fn step(&mut self, input: ConnInput) -> (out: (Vec<Notice>, ConnOp))
        ensures
            step_rel(*old(self), input, *final(self), out),
    {
        let mut notes: Vec<Notice> = Vec::new();
        match self.phase {
            ConnPhase::Exited => (notes, ConnOp::Exit),
            ConnPhase::Idle => match input {
                ConnInput::EventsClosed | ConnInput::CommandsClosed => {
                    self.phase = ConnPhase::Exited;
                    (notes, ConnOp::Exit)
                },
                ConnInput::Command(ConnCmd::Connect(name, baud)) => {
                    self.port_name = name.clone();
                    self.target = name.clone();
                    self.target_baud = baud;
                    self.phase = ConnPhase::Opening;
                    (notes, ConnOp::Open(name, baud))
                },
                _ => (notes, ConnOp::WaitCommand),
            },
            ConnPhase::Opening => match input {
                ConnInput::EventsClosed => {
                    self.phase = ConnPhase::Exited;
                    (notes, ConnOp::Exit)
                },
                ConnInput::Opened => {
                    self.parser = SyncFrameParser::new();
                    self.phase = ConnPhase::Reading;
                    notes.push(Notice::Connected);
                    (notes, ConnOp::PollCommand)
                },
                ConnInput::OpenFailed(err) => {
                    let msg = join_message("Failed to open ", &self.target, &err);
                    notes.push(Notice::Error(msg));
                    notes.push(Notice::Disconnected);
                    self.phase = ConnPhase::Idle;
                    (notes, ConnOp::WaitCommand)
                },
                _ => (notes, ConnOp::Open(self.target.clone(), self.target_baud)),
            },
            ConnPhase::Reading => match input {
                ConnInput::EventsClosed | ConnInput::CommandsClosed => {
                    self.phase = ConnPhase::Exited;
                    (notes, ConnOp::Exit)
                },
                ConnInput::Command(ConnCmd::Disconnect) => {
                    notes.push(Notice::Disconnected);
                    self.phase = ConnPhase::Idle;
                    (notes, ConnOp::WaitCommand)
                },
                ConnInput::Command(ConnCmd::Connect(name, baud)) => {
                    notes.push(Notice::Disconnected);
                    self.target = name.clone();
                    self.target_baud = baud;
                    self.phase = ConnPhase::Opening;
                    (notes, ConnOp::Open(name, baud))
                },
                ConnInput::NoCommand => (notes, ConnOp::Read),
                ConnInput::Received(bytes) => {
                    if bytes.len() > 0 {
                        self.parser.push_bytes(bytes.as_slice());
                        let bursts = self.parser.drain_bursts();
                        notes = samples_notices(bursts);
                    }
                    (notes, ConnOp::PollCommand)
                },
                ConnInput::ReadFailed(err) => {
                    let msg = join_message("Serial read error on ", &self.port_name, &err);
                    notes.push(Notice::Error(msg));
                    notes.push(Notice::Disconnected);
                    self.phase = ConnPhase::Idle;
                    (notes, ConnOp::WaitCommand)
                },
                _ => (notes, ConnOp::PollCommand),
            },
        }
    }
}

/// The transition table of the connection manager: `step` takes a manager
/// in state `pre` with outcome `input` to state `post`, returning `out`
/// (notices for the GUI, then the next operation).  Inputs that cannot occur
/// in a phase are ignored: no notice, and the operation of that phase is
/// repeated.
pub open spec fn step_rel(
    pre: ConnectionManager,
    input: ConnInput,
    post: ConnectionManager,
    out: (Vec<Notice>, ConnOp),
) -> bool {
    // Stopped for good.
    &&& (pre.phase() == ConnPhase::Exited ==> {
        &&& out.0@.len() == 0
        &&& out.1 is Exit
        &&& post.phase() == ConnPhase::Exited
        &&& post.keeps_session_of(&pre)
    })
    // The GUI is gone: stop.
    &&& (pre.phase() != ConnPhase::Exited && input is EventsClosed ==> {
        &&& out.0@.len() == 0
        &&& out.1 is Exit
        &&& post.phase() == ConnPhase::Exited
        &&& post.keeps_session_of(&pre)
    })
    &&& (pre.phase() == ConnPhase::Idle && !(input is EventsClosed) ==> match input {
        ConnInput::Command(ConnCmd::Connect(name, baud)) => {
            &&& out.0@.len() == 0
            &&& out.1 matches ConnOp::Open(n, b) && n@ == name@ && b == baud
            &&& post.phase() == ConnPhase::Opening
            &&& post.port_name() == name@
            &&& post.target() == name@
            &&& post.target_baud() == baud
            &&& post.parser_view() == pre.parser_view()
        },
        ConnInput::CommandsClosed => {
            &&& out.0@.len() == 0
            &&& out.1 is Exit
            &&& post.phase() == ConnPhase::Exited
            &&& post.keeps_session_of(&pre)
        },
        _ => {
            &&& out.0@.len() == 0
            &&& out.1 is WaitCommand
            &&& post.phase() == ConnPhase::Idle
            &&& post.keeps_session_of(&pre)
        },
    })
    &&& (pre.phase() == ConnPhase::Opening && !(input is EventsClosed) ==> match input {
        ConnInput::Opened => {
            &&& out.0@.len() == 1
            &&& out.0@[0] is Connected
            &&& out.1 is PollCommand
            &&& post.phase() == ConnPhase::Reading
            &&& post.parser_view() == (
                Seq::<u8>::empty(),
                false,
                Seq::<Seq<i16>>::empty(),
            )
            &&& post.port_name() == pre.port_name()
            &&& post.target() == pre.target()
            &&& post.target_baud() == pre.target_baud()
        },
        ConnInput::OpenFailed(err) => {
            &&& error_then_disconnected(out.0@, open_failed_message(pre.target(), err@))
            &&& out.1 is WaitCommand
            &&& post.phase() == ConnPhase::Idle
            &&& post.keeps_session_of(&pre)
        },
        _ => {
            &&& out.0@.len() == 0
            &&& out.1 matches ConnOp::Open(n, b) && n@ == pre.target() && b
                == pre.target_baud()
            &&& post.phase() == ConnPhase::Opening
            &&& post.keeps_session_of(&pre)
        },
    })
    &&& (pre.phase() == ConnPhase::Reading && !(input is EventsClosed) ==> match input {
        ConnInput::Command(ConnCmd::Disconnect) => {
            &&& out.0@.len() == 1
            &&& out.0@[0] is Disconnected
            &&& out.1 is WaitCommand
            &&& post.phase() == ConnPhase::Idle
            &&& post.keeps_session_of(&pre)
        },
        ConnInput::Command(ConnCmd::Connect(name, baud)) => {
            &&& out.0@.len() == 1
            &&& out.0@[0] is Disconnected
            &&& out.1 matches ConnOp::Open(n, b) && n@ == name@ && b == baud
            &&& post.phase() == ConnPhase::Opening
            &&& post.port_name() == pre.port_name()
            &&& post.target() == name@
            &&& post.target_baud() == baud
            &&& post.parser_view() == pre.parser_view()
        },
        ConnInput::NoCommand => {
            &&& out.0@.len() == 0
            &&& out.1 is Read
            &&& post.phase() == ConnPhase::Reading
            &&& post.keeps_session_of(&pre)
        },
        ConnInput::CommandsClosed => {
            &&& out.0@.len() == 0
            &&& out.1 is Exit
            &&& post.phase() == ConnPhase::Exited
            &&& post.keeps_session_of(&pre)
        },
        ConnInput::Received(bytes) => {
            &&& out.1 is PollCommand
            &&& post.phase() == ConnPhase::Reading
            &&& post.port_name() == pre.port_name()
            &&& post.target() == pre.target()
            &&& post.target_baud() == pre.target_baud()
            &&& if bytes@.len() == 0 {
                &&& out.0@.len() == 0
                &&& post.parser_view() == pre.parser_view()
            } else {
                let r = parse_stream(
                    pre.parser_view().0 + bytes@,
                    pre.parser_view().1,
                );
                &&& post.parser_view() == (r.0, r.1, Seq::<Seq<i16>>::empty())
                &&& notices_are_samples(out.0@, pre.parser_view().2 + r.2)
            }
        },
        ConnInput::ReadFailed(err) => {
            &&& error_then_disconnected(
                out.0@,
                read_failed_message(pre.port_name(), err@),
            )
            &&& out.1 is WaitCommand
            &&& post.phase() == ConnPhase::Idle
            &&& post.keeps_session_of(&pre)
        },
        _ => {
            &&& out.0@.len() == 0
            &&& out.1 is PollCommand
            &&& post.phase() == ConnPhase::Reading
            &&& post.keeps_session_of(&pre)
        },
    })
}

/// `prefix + port + ": " + err`.
fn join_message(prefix: &str, port: &String, err: &String) -> (m: String)
    ensures
        m@ == prefix@ + port@ + ": "@ + err@,
{
    let mut m = String::from_str(prefix);
    m.append(port.as_str());
    m.append(": ");
    m.append(err.as_str());
    m
}

/// One `Samples` notice per burst, in order.
fn samples_notices(bursts: Vec<Vec<i16>>) -> (notes: Vec<Notice>)
    ensures
        notices_are_samples(notes@, bursts_view(bursts@)),
{
    let ghost all = bursts_view(bursts@);
    let mut rest = bursts;
    let mut notes: Vec<Notice> = Vec::new();
    let n = rest.len();
    let mut k: usize = 0;
    while k < n
        invariant
            n == all.len(),
            0 <= k <= n,
            rest@.len() == n - k,
            bursts_view(rest@) == all.skip(k as int),
            notes@.len() == k,
            forall|i: int|
                0 <= i < k ==> (#[trigger] notes@[i] matches Notice::Samples(v) && v@ == all[i]),
        decreases n - k,
    {
        let ghost before = rest@;
        let b = rest.remove(0);
        proof {
            assert(bursts_view(before)[0] == all[k as int]);
            assert(b@ == all[k as int]);
            assert forall|i: int| 0 <= i < rest@.len() implies #[trigger] bursts_view(rest@)[i]
                == all.skip(k + 1)[i] by {
                assert(rest@[i] == before[i + 1]);
                assert(bursts_view(before)[i + 1] == all[k + i + 1]);
            }
            assert(bursts_view(rest@) =~= all.skip(k + 1));
        }
        notes.push(Notice::Samples(b));
        proof {
            assert(notes@[k as int] matches Notice::Samples(v) && v@ == all[k as int]);
        }
        k += 1;
    }
    notes
}


/// What a notice says.
pub enum NoticeView {
    Connected,
    Disconnected,
    Error(Seq<char>),
    Samples(Seq<i16>),
}

impl View for Notice {
    type V = NoticeView;

    open spec fn view(&self) -> NoticeView {
        match self {
            Notice::Connected => NoticeView::Connected,
            Notice::Disconnected => NoticeView::Disconnected,
            Notice::Error(s) => NoticeView::Error(s@),
            Notice::Samples(v) => NoticeView::Samples(v@),
        }
    }
}

/// What a list of notices says, in order.
pub open spec fn notices_view(notes: Seq<Notice>) -> Seq<NoticeView> {
    notes.map_values(|n: Notice| n@)
}

/// One `Samples` notice per burst, in order.
pub open spec fn samples_views(bursts: Seq<Seq<i16>>) -> Seq<NoticeView> {
    bursts.map_values(|b: Seq<i16>| NoticeView::Samples(b))
}

/// All notices of a run of steps, in the order they are sent.
pub open spec fn run_notices(outs: Seq<(Vec<Notice>, ConnOp)>) -> Seq<NoticeView>
    decreases outs.len(),
{
    if outs.len() == 0 {
        Seq::empty()
    } else {
        run_notices(outs.drop_last()) + notices_view(outs.last().0@)
    }
}

/// `ms[i]` steps to `ms[i + 1]` on input `ins[i]`, returning `outs[i]`.
pub open spec fn is_run(
    ms: Seq<ConnectionManager>,
    ins: Seq<ConnInput>,
    outs: Seq<(Vec<Notice>, ConnOp)>,
) -> bool {
    &&& ms.len() == ins.len() + 1
    &&& outs.len() == ins.len()
    &&& forall|i: int| 0 <= i < ins.len() ==> step_rel(ms[i], ins[i], ms[i + 1], #[trigger] outs[i])
}

/// The inputs of a reading session: a `Connect` command, the port opens,
/// then for each chunk `reads[i]` a poll finds no command and a read returns
/// that chunk, and finally a `Disconnect` command arrives.
pub open spec fn is_read_session(reads: Seq<Seq<u8>>, ins: Seq<ConnInput>) -> bool {
    &&& ins.len() == 2 * reads.len() + 3
    &&& ins[0] matches ConnInput::Command(ConnCmd::Connect(_, _))
    &&& ins[1] is Opened
    &&& forall|i: int|
        0 <= i < reads.len() ==> {
            &&& ins[2 * i + 2] is NoCommand
            &&& ins[2 * i + 3] matches ConnInput::Received(b) && b@ == #[trigger] reads[i]
        }
    &&& ins[2 * reads.len() as int + 2] matches ConnInput::Command(ConnCmd::Disconnect)
}

proof fn lemma_samples_views(notes: Seq<Notice>, bursts: Seq<Seq<i16>>)
    requires
        notices_are_samples(notes, bursts),
    ensures
        notices_view(notes) == samples_views(bursts),
{
    assert forall|i: int| 0 <= i < notes.len() implies #[trigger] notices_view(notes)[i]
        == samples_views(bursts)[i] by {
        assert(notes[i] matches Notice::Samples(v) && v@ == bursts[i]);
    }
    assert(notices_view(notes) =~= samples_views(bursts));
}

proof fn lemma_run_notices_step(outs: Seq<(Vec<Notice>, ConnOp)>, j: int)
    requires
        0 <= j < outs.len(),
    ensures
        run_notices(outs.take(j + 1)) == run_notices(outs.take(j)) + notices_view(outs[j].0@),
{
    assert(outs.take(j + 1).drop_last() =~= outs.take(j));
}

/// The state after connecting and reading the first `j` chunks of a session.
proof fn lemma_read_session_prefix(
    reads: Seq<Seq<u8>>,
    ms: Seq<ConnectionManager>,
    ins: Seq<ConnInput>,
    outs: Seq<(Vec<Notice>, ConnOp)>,
    j: int,
)
    requires
        ms[0].phase() == ConnPhase::Idle,
        is_read_session(reads, ins),
        is_run(ms, ins, outs),
        0 <= j <= reads.len(),
    ensures
        ({
            let p = parse_stream(concat_chunks(reads.take(j)), false);
            &&& ms[2 * j + 2].phase() == ConnPhase::Reading
            &&& ms[2 * j + 2].parser_view() == (p.0, p.1, Seq::<Seq<i16>>::empty())
            &&& run_notices(outs.take(2 * j + 2)) == seq![NoticeView::Connected] + samples_views(
                p.2,
            )
        }),
    decreases j,
{
    let e = Seq::<Seq<i16>>::empty();
    if j == 0 {
        assert(step_rel(ms[0], ins[0], ms[1], outs[0]));
        assert(step_rel(ms[1], ins[1], ms[2], outs[1]));
        assert(reads.take(0) =~= Seq::<Seq<u8>>::empty());
        lemma_find_sync_none(Seq::<u8>::empty());
        assert(Seq::<u8>::empty().len() <= 3);
        lemma_run_notices_step(outs, 0);
        lemma_run_notices_step(outs, 1);
        assert(outs.take(0) =~= Seq::<(Vec<Notice>, ConnOp)>::empty());
        assert(notices_view(outs[0].0@) =~= Seq::<NoticeView>::empty());
        assert(notices_view(outs[1].0@) =~= seq![NoticeView::Connected]);
        assert(samples_views(e) =~= Seq::<NoticeView>::empty());
        assert(run_notices(outs.take(2)) =~= seq![NoticeView::Connected] + samples_views(e));
    } else {
        let k = j - 1;
        lemma_read_session_prefix(reads, ms, ins, outs, k);
        let p = parse_stream(concat_chunks(reads.take(k)), false);
        let chunk = reads[k];
        assert(reads.take(j).drop_last() =~= reads.take(k));
        assert(reads.take(j).last() == chunk);
        assert(concat_chunks(reads.take(j)) == concat_chunks(reads.take(k)) + chunk);
        lemma_parse_concat(concat_chunks(reads.take(k)), chunk, false);
        lemma_parse_shape(concat_chunks(reads.take(k)), false);
        let r = parse_stream(p.0 + chunk, p.1);
        let q = parse_stream(concat_chunks(reads.take(j)), false);
        assert(q == (r.0, r.1, p.2 + r.2));
        // the poll
        assert(ins[2 * k + 2] is NoCommand);
        assert(step_rel(ms[2 * k + 2], ins[2 * k + 2], ms[2 * k + 3], outs[2 * k + 2]));
        // the read
        assert(ins[2 * k + 3] matches ConnInput::Received(b) && b@ == reads[k]);
        assert(step_rel(ms[2 * k + 3], ins[2 * k + 3], ms[2 * k + 4], outs[2 * k + 3]));
        lemma_run_notices_step(outs, 2 * k + 2);
        lemma_run_notices_step(outs, 2 * k + 3);
        assert(notices_view(outs[2 * k + 2].0@) =~= Seq::<NoticeView>::empty());
        let before = run_notices(outs.take(2 * k + 2));
        assert(run_notices(outs.take(2 * k + 3)) =~= before);
        if chunk.len() == 0 {
            lemma_push_nothing(p.0, p.1);
            assert(p.0 + chunk =~= p.0 + Seq::<u8>::empty());
            assert(r.2 =~= e);
            assert(p.2 + r.2 =~= p.2);
            assert(notices_view(outs[2 * k + 3].0@) =~= Seq::<NoticeView>::empty());
            assert(run_notices(outs.take(2 * j + 2)) =~= before);
        } else {
            assert(e + r.2 =~= r.2);
            lemma_samples_views(outs[2 * k + 3].0@, r.2);
            assert(samples_views(p.2 + r.2) =~= samples_views(p.2) + samples_views(r.2));
            assert(run_notices(outs.take(2 * j + 2)) =~= seq![NoticeView::Connected] + samples_views(
                p.2 + r.2,
            ));
        }
    }
}

/// Session law of the connection manager: an idle manager that is told to
/// connect, sees the port open, reads the chunks `reads` (each after a poll
/// that finds no command) and is then told to disconnect, sends `Connected`,
/// then one `Samples` per burst of the whole byte stream `reads[0] + ... +
/// reads[k - 1]`, in order, then `Disconnected`, and is idle again.
pub proof fn lemma_read_session(
    reads: Seq<Seq<u8>>,
    ms: Seq<ConnectionManager>,
    ins: Seq<ConnInput>,
    outs: Seq<(Vec<Notice>, ConnOp)>,
)
    requires
        ms[0].phase() == ConnPhase::Idle,
        is_read_session(reads, ins),
        is_run(ms, ins, outs),
    ensures
        run_notices(outs) == seq![NoticeView::Connected] + samples_views(
            parse_stream(concat_chunks(reads), false).2,
        ) + seq![NoticeView::Disconnected],
        ms.last().phase() == ConnPhase::Idle,
{
    let k = reads.len() as int;
    lemma_read_session_prefix(reads, ms, ins, outs, k);
    assert(reads.take(k) =~= reads);
    let last = 2 * k + 2;
    assert(step_rel(ms[last], ins[last], ms[last + 1], outs[last]));
    lemma_run_notices_step(outs, last);
    assert(outs.take(last + 1) =~= outs);
    assert(notices_view(outs[last].0@) =~= seq![NoticeView::Disconnected]);
}


/// Description law: a USB port is described by its product name whenever it
/// has one, whatever its manufacturer; by its manufacturer only when the
/// product is unknown; and by nothing when neither is known.  A port that is
/// not a USB port has no description.
pub proof fn lemma_port_description(usb: Option<UsbPortDetails>)
    ensures
        match usb {
            Some(u) => match u.product {
                Some(product) => port_description(usb) == product@,
                None => match u.manufacturer {
                    Some(m) => port_description(usb) == m@,
                    None => port_description(usb).len() == 0,
                },
            },
            None => port_description(usb).len() == 0,
        },
{
}

/// Connecting from idle: no notice, the named port is opened at the given
/// baud rate, and the manager is opening.
pub proof fn lemma_idle_connect_opens(
    pre: ConnectionManager,
    name: String,
    baud: u32,
    post: ConnectionManager,
    out: (Vec<Notice>, ConnOp),
)
    requires
        pre.phase() == ConnPhase::Idle,
        step_rel(pre, ConnInput::Command(ConnCmd::Connect(name, baud)), post, out),
    ensures
        out.0@.len() == 0,
        out.1 matches ConnOp::Open(n, b) && n@ == name@ && b == baud,
        post.phase() == ConnPhase::Opening,
        post.port_name() == name@,
{
}

/// The port opened: exactly one `Connected` notice, then polling for
/// commands with a parser that has seen nothing yet.
pub proof fn lemma_open_succeeds(
    pre: ConnectionManager,
    post: ConnectionManager,
    out: (Vec<Notice>, ConnOp),
)
    requires
        pre.phase() == ConnPhase::Opening,
        step_rel(pre, ConnInput::Opened, post, out),
    ensures
        out.0@.len() == 1,
        out.0@[0] is Connected,
        out.1 is PollCommand,
        post.phase() == ConnPhase::Reading,
        post.parser_view() == (Seq::<u8>::empty(), false, Seq::<Seq<i16>>::empty()),
{
}

/// Opening failed: "Failed to open {port}: {err}", then `Disconnected`;
/// the manager is idle, and a later `Connect` opens the port it names.
pub proof fn lemma_open_failure_then_reconnect(
    pre: ConnectionManager,
    err: String,
    mid: ConnectionManager,
    out1: (Vec<Notice>, ConnOp),
    name: String,
    baud: u32,
    post: ConnectionManager,
    out2: (Vec<Notice>, ConnOp),
)
    requires
        pre.phase() == ConnPhase::Opening,
        step_rel(pre, ConnInput::OpenFailed(err), mid, out1),
        step_rel(mid, ConnInput::Command(ConnCmd::Connect(name, baud)), post, out2),
    ensures
        out1.0@.len() == 2,
        out1.0@[0] matches Notice::Error(m) && m@ == "Failed to open "@ + pre.target() + ": "@
            + err@,
        out1.0@[1] is Disconnected,
        out1.1 is WaitCommand,
        mid.phase() == ConnPhase::Idle,
        out2.0@.len() == 0,
        out2.1 matches ConnOp::Open(n, b) && n@ == name@ && b == baud,
        post.phase() == ConnPhase::Opening,
{
}

/// A read failed: "Serial read error on {port}: {err}", then
/// `Disconnected`; the manager is idle (not stopped), and a later `Connect`
/// opens the port it names.
pub proof fn lemma_read_error_then_reconnect(
    pre: ConnectionManager,
    err: String,
    mid: ConnectionManager,
    out1: (Vec<Notice>, ConnOp),
    name: String,
    baud: u32,
    post: ConnectionManager,
    out2: (Vec<Notice>, ConnOp),
)
    requires
        pre.phase() == ConnPhase::Reading,
        step_rel(pre, ConnInput::ReadFailed(err), mid, out1),
        step_rel(mid, ConnInput::Command(ConnCmd::Connect(name, baud)), post, out2),
    ensures
        out1.0@.len() == 2,
        out1.0@[0] matches Notice::Error(m) && m@ == "Serial read error on "@ + pre.port_name()
            + ": "@ + err@,
        out1.0@[1] is Disconnected,
        out1.1 is WaitCommand,
        mid.phase() == ConnPhase::Idle,
        out2.0@.len() == 0,
        out2.1 matches ConnOp::Open(n, b) && n@ == name@ && b == baud,
        post.phase() == ConnPhase::Opening,
{
}

/// Port switch: while reading, every `Connect` command, whatever port and
/// baud rate are current, closes the old port (one `Disconnected` notice)
/// and opens the named port at the given rate.
pub proof fn lemma_switch_port(
    pre: ConnectionManager,
    name: String,
    baud: u32,
    post: ConnectionManager,
    out: (Vec<Notice>, ConnOp),
)
    requires
        pre.phase() == ConnPhase::Reading,
        step_rel(pre, ConnInput::Command(ConnCmd::Connect(name, baud)), post, out),
    ensures
        out.0@.len() == 1,
        out.0@[0] is Disconnected,
        out.1 matches ConnOp::Open(n, b) && n@ == name@ && b == baud,
        post.phase() == ConnPhase::Opening,
        post.target() == name@,
        post.port_name() == pre.port_name(),
{
}

/// While reading: a `Disconnect` command closes the port with one
/// `Disconnected` notice and the manager waits for commands; a poll that
/// finds nothing leads to a read; a read that times out leads to another
/// poll, with nothing sent.
pub proof fn lemma_reading_commands(
    pre: ConnectionManager,
    input: ConnInput,
    post: ConnectionManager,
    out: (Vec<Notice>, ConnOp),
)
    requires
        pre.phase() == ConnPhase::Reading,
        step_rel(pre, input, post, out),
    ensures
        input matches ConnInput::Command(ConnCmd::Disconnect) ==> {
            &&& out.0@.len() == 1
            &&& out.0@[0] is Disconnected
            &&& out.1 is WaitCommand
            &&& post.phase() == ConnPhase::Idle
        },
        input is NoCommand ==> out.0@.len() == 0 && out.1 is Read && post.phase()
            == ConnPhase::Reading,
        input is ReadTimedOut ==> out.0@.len() == 0 && out.1 is PollCommand && post.phase()
            == ConnPhase::Reading,
{
}

/// Stopping: when either channel closes the manager exits with no notice,
/// and once exited it stays exited and only ever asks to exit.
pub proof fn lemma_exit(
    pre: ConnectionManager,
    input: ConnInput,
    post: ConnectionManager,
    out: (Vec<Notice>, ConnOp),
)
    requires
        step_rel(pre, input, post, out),
    ensures
        pre.phase() == ConnPhase::Exited ==> out.0@.len() == 0 && out.1 is Exit && post.phase()
            == ConnPhase::Exited,
        input is EventsClosed ==> out.0@.len() == 0 && out.1 is Exit && post.phase()
            == ConnPhase::Exited,
        input is CommandsClosed && pre.phase() != ConnPhase::Opening ==> out.0@.len() == 0
            && out.1 is Exit && post.phase() == ConnPhase::Exited,
{
}


/// While idle a `Disconnect` command changes nothing: no notice, and the
/// manager keeps waiting for commands.
pub proof fn lemma_idle_ignores_disconnect(
    pre: ConnectionManager,
    post: ConnectionManager,
    out: (Vec<Notice>, ConnOp),
)
    requires
        pre.phase() == ConnPhase::Idle,
        step_rel(pre, ConnInput::Command(ConnCmd::Disconnect), post, out),
    ensures
        out.0@.len() == 0,
        out.1 is WaitCommand,
        post.phase() == ConnPhase::Idle,
        post.port_name() == pre.port_name(),
{
}

} // verus!
