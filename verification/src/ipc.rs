//! The IPC endpoint of a session: where it is, how it is opened, and how lines
//! go over it.

use std::path::PathBuf;

use vstd::prelude::*;
use vstd::string::*;
use vstd::utf8::*;

use crate::path::{copy_path, directory_of, join_text, path_bytes, path_of, path_view, Platform};
use crate::text::{
    chars_of, decimal, decimal_reads_back, encoding_of_parts, number_read, push_decimal, reply_view,
};

verus! {

/// Why there is no connection.
#[derive(Debug)]
pub enum IpcError {
    ConnectionFailed(String),
}

impl IpcError {
    /// The cause.
    pub open spec fn cause(self) -> Seq<char> {
        match self {
            IpcError::ConnectionFailed(why) => why@,
        }
    }

    /// The error in words.
    pub open spec fn words(self) -> Seq<char> {
        "Connection failed: "@ + self.cause()
    }

    /// The error in words.
    pub fn message(&self) -> (r: String)
        ensures
            r@ == self.words(),
    {
        match self {
            IpcError::ConnectionFailed(why) => "Connection failed: ".to_owned().concat(
                why.as_str(),
            ),
        }
    }
}

// ---------------------------------------------------------------------------
// Endpoints
// ---------------------------------------------------------------------------

/// The FNV-1a hash of `bytes`, in thirty-two bits.
pub open spec fn fnv1a(bytes: Seq<u8>) -> u32
    decreases bytes.len(),
{
    if bytes.len() == 0 {
        0x811c_9dc5
    } else {
        let mixed = fnv1a(bytes.drop_last()) ^ (bytes.last() as u32);
        ((mixed as int * 0x0100_0193) % 0x1_0000_0000) as u32
    }
}

/// The port of a session: one of forty thousand, picked by its name.
pub open spec fn session_port(session_id: Seq<char>) -> nat {
    (20_000 + fnv1a(encode_utf8(session_id)) % 40_000) as nat
}

/// The loopback endpoint of a session.
pub open spec fn loopback_endpoint(session_id: Seq<char>) -> Seq<char> {
    "127.0.0.1:"@ + decimal(session_port(session_id))
}

/// The socket of a session, in the runtime directory where there is one, else
/// in the directory for temporary files.
pub open spec fn socket_of(
    platform: Platform,
    session_id: Seq<char>,
    runtime_dir: Option<Seq<u8>>,
    temp_dir: Seq<u8>,
) -> Seq<u8> {
    let base = match runtime_dir {
        Some(dir) => dir,
        None => temp_dir,
    };
    let dir = platform.joined(base, encode_utf8("nca"@));
    platform.joined(dir, encode_utf8(session_id + ".sock"@))
}

/// The loopback endpoint of a session: the same for every process, with no
/// file to meet at.
pub fn windows_tcp_endpoint(session_id: &str) -> (r: PathBuf)
    ensures
        path_bytes(r) == encode_utf8(loopback_endpoint(session_id@)),
{
    let bytes = session_id.as_bytes();
    let mut hash: u32 = 0x811c_9dc5;
    let mut i: usize = 0;
    assert(bytes@.take(0) =~= Seq::<u8>::empty());
    while i < bytes.len()
        invariant
            i <= bytes@.len(),
            hash == fnv1a(bytes@.take(i as int)),
        decreases bytes@.len() - i,
    {
        assert(bytes@.take(i + 1).drop_last() =~= bytes@.take(i as int));
        hash = (hash ^ (bytes[i] as u32)).wrapping_mul(0x0100_0193);
        i += 1;
    }
    assert(bytes@.take(i as int) =~= bytes@);
    let port: u16 = 20_000 + (hash % 40_000) as u16;
    let mut text = "127.0.0.1:".to_owned();
    push_decimal(&mut text, port as u128);
    path_of(text.as_str())
}

// ---------------------------------------------------------------------------
// The server
// ---------------------------------------------------------------------------

/// IPC server that broadcasts events and receives commands over a Unix domain
/// socket or loopback TCP.
pub struct IpcServer {
    socket_path: PathBuf,
}

/// What is to be done next to open the endpoint; each step is answered by
/// whether it worked, and if not, why.
#[derive(Debug)]
pub enum StartStep {
    /// Create the directory of the socket, and those above it.
    CreateDir(PathBuf),
    /// See whether a socket is there already.
    FindSocket,
    /// Remove the socket that is there.
    RemoveSocket,
    /// Bind the endpoint.
    Bind,
    /// The endpoint is open.
    Listening,
    /// The endpoint could not be opened: only what is in this process can use
    /// the session. The warning says why.
    Disabled { warning: String },
    /// The server could not be started.
    Failed(IpcError),
}

/// What a [`StartStep`] is.
pub enum StartStepView {
    CreateDir(Seq<u8>),
    FindSocket,
    RemoveSocket,
    Bind,
    Listening,
    Disabled(Seq<char>),
    Failed(Seq<char>),
}

impl View for StartStep {
    type V = StartStepView;

    open spec fn view(&self) -> StartStepView {
        match self {
            StartStep::CreateDir(dir) => StartStepView::CreateDir(path_bytes(*dir)),
            StartStep::FindSocket => StartStepView::FindSocket,
            StartStep::RemoveSocket => StartStepView::RemoveSocket,
            StartStep::Bind => StartStepView::Bind,
            StartStep::Listening => StartStepView::Listening,
            StartStep::Disabled { warning } => StartStepView::Disabled(warning@),
            StartStep::Failed(err) => StartStepView::Failed(err.cause()),
        }
    }
}

/// How an endpoint comes about.
#[derive(Debug, Clone, Copy, PartialEq, Eq, Structural)]
pub enum Transport {
    /// A Unix domain socket, which is a file.
    UnixSocket,
    /// A port of the loopback interface.
    LoopbackTcp,
}

/// The first step to open an endpoint.
pub open spec fn start_first(
    platform: Platform,
    transport: Transport,
    path: Seq<u8>,
) -> StartStepView {
    match transport {
        Transport::LoopbackTcp => StartStepView::Bind,
        Transport::UnixSocket => match platform.directory(path) {
            Some(dir) => StartStepView::CreateDir(dir),
            None => StartStepView::FindSocket,
        },
    }
}

/// The step after `step`, once that was answered: a socket that is there
/// already is removed, whether or not that works; an endpoint that cannot be
/// bound leaves the server running without it.
pub open spec fn start_next(step: StartStepView, reply: Result<(), Seq<char>>) -> StartStepView {
    match (step, reply) {
        (StartStepView::CreateDir(_), Ok(_)) => StartStepView::FindSocket,
        (StartStepView::CreateDir(_), Err(why)) => StartStepView::Failed(why),
        (StartStepView::FindSocket, Ok(_)) => StartStepView::RemoveSocket,
        (StartStepView::FindSocket, Err(_)) => StartStepView::Bind,
        (StartStepView::RemoveSocket, _) => StartStepView::Bind,
        (StartStepView::Bind, Ok(_)) => StartStepView::Listening,
        (StartStepView::Bind, Err(why)) => StartStepView::Disabled(
            "IPC disabled: socket bind failed: "@ + ("Connection failed: "@ + why),
        ),
        (ended, _) => ended,
    }
}

/// What the server does once it waited for a client.
#[derive(Debug, Clone, Copy, PartialEq, Eq, Structural)]
pub enum AcceptAction {
    /// Serve the client, and wait for the next one.
    Serve,
    /// Remove the endpoint, and stop.
    CleanUp,
}

impl IpcServer {
    /// Where the endpoint is.
    pub closed spec fn endpoint(self) -> Seq<u8> {
        path_bytes(self.socket_path)
    }

    /// The server of a session, at a Unix domain socket.
    pub fn new(
        platform: Platform,
        session_id: &str,
        runtime_dir: Option<PathBuf>,
        temp_dir: PathBuf,
    ) -> (r: IpcServer)
        ensures
            r.endpoint() == socket_of(
                platform,
                session_id@,
                path_view(runtime_dir),
                path_bytes(temp_dir),
            ),
    {
        let base = match runtime_dir {
            Some(dir) => dir,
            None => temp_dir,
        };
        let dir = join_text(platform, &base, "nca");
        let name = session_id.to_owned().concat(".sock");
        IpcServer { socket_path: join_text(platform, &dir, name.as_str()) }
    }

    /// The server of a session, at a port of the loopback interface.
    pub fn on_loopback(session_id: &str) -> (r: IpcServer)
        ensures
            r.endpoint() == encode_utf8(loopback_endpoint(session_id@)),
    {
        IpcServer { socket_path: windows_tcp_endpoint(session_id) }
    }

    pub fn socket_path(&self) -> (r: PathBuf)
        ensures
            path_bytes(r) == self.endpoint(),
    {
        copy_path(&self.socket_path)
    }

    /// What comes first when the server is started.
    pub fn first_step(&self, platform: Platform, transport: Transport) -> (r: StartStep)
        ensures
            r@ == start_first(platform, transport, self.endpoint()),
    {
        match transport {
            Transport::LoopbackTcp => StartStep::Bind,
            Transport::UnixSocket => match directory_of(platform, &self.socket_path) {
                Some(dir) => StartStep::CreateDir(dir),
                None => StartStep::FindSocket,
            },
        }
    }

    /// Starts listening for clients: the step after `step`, once that was
    /// answered.
    pub fn start(&self, step: StartStep, reply: Result<(), String>) -> (r: StartStep)
        ensures
            r@ == start_next(step@, reply_view(reply)),
    {
        match (step, reply) {
            (StartStep::CreateDir(_), Ok(_)) => StartStep::FindSocket,
            (StartStep::CreateDir(_), Err(why)) => StartStep::Failed(
                IpcError::ConnectionFailed(why),
            ),
            (StartStep::FindSocket, Ok(_)) => StartStep::RemoveSocket,
            (StartStep::FindSocket, Err(_)) => StartStep::Bind,
            (StartStep::RemoveSocket, _) => StartStep::Bind,
            (StartStep::Bind, Ok(_)) => StartStep::Listening,
            (StartStep::Bind, Err(why)) => {
                let err = IpcError::ConnectionFailed(why);
                let warning = "IPC disabled: socket bind failed: ".to_owned().concat(
                    err.message().as_str(),
                );
                StartStep::Disabled { warning }
            },
            (ended, _) => ended,
        }
    }

    /// What is done once a client was waited for: it is served, and the next
    /// one waited for, until waiting fails.
    pub fn accept(accepted: bool) -> (r: AcceptAction)
        ensures
            r == if accepted {
                AcceptAction::Serve
            } else {
                AcceptAction::CleanUp
            },
    {
        if accepted {
            AcceptAction::Serve
        } else {
            AcceptAction::CleanUp
        }
    }
}

// ---------------------------------------------------------------------------
// Lines
// ---------------------------------------------------------------------------

/// A line as it goes over the wire: its text in UTF-8, and a newline.
pub open spec fn framed(line: Seq<char>) -> Seq<u8> {
    encode_utf8(line).push(0x0a)
}

/// A line without the carriage return at its end.
pub open spec fn chomped(line: Seq<u8>) -> Seq<u8> {
    if line.len() > 0 && line.last() == 0x0d {
        line.drop_last()
    } else {
        line
    }
}

/// The lines that a newline, or a carriage return and a newline, end in
/// `bytes`, from the first on; `line` is what came since the last newline.
pub open spec fn lines_read(line: Seq<u8>, bytes: Seq<u8>) -> Seq<Seq<u8>>
    decreases bytes.len(),
{
    if bytes.len() == 0 {
        Seq::empty()
    } else if bytes[0] == 0x0a {
        seq![chomped(line)] + lines_read(Seq::empty(), bytes.drop_first())
    } else {
        lines_read(line.push(bytes[0]), bytes.drop_first())
    }
}

/// A text that goes over the wire as one line: no newline is in it, and no
/// carriage return at its end.
pub open spec fn one_line(text: Seq<char>) -> bool {
    !text.contains('\n') && (text.len() > 0 ==> text.last() != '\r')
}

/// A text that goes over the wire as one line.
#[derive(Debug)]
pub struct OneLine {
    text: String,
}

impl View for OneLine {
    type V = Seq<char>;

    closed spec fn view(&self) -> Seq<char> {
        self.text@
    }
}

impl Clone for OneLine {
    fn clone(&self) -> (r: OneLine)
        ensures
            r@ == self@,
    {
        proof {
            use_type_invariant(&*self);
        }
        OneLine { text: self.text.clone() }
    }
}

impl OneLine {
    /// The text is one line.
    #[verifier::type_invariant]
    spec fn well_formed(self) -> bool {
        one_line(self.text@)
    }

    /// A text as one line, where it is one.
    pub fn new(text: String) -> (r: Option<OneLine>)
        ensures
            r is Some <==> one_line(text@),
            r matches Some(line) ==> line@ == text@,
    {
        let chars = chars_of(text.as_str());
        let n: usize = chars.len();
        let mut i: usize = 0;
        while i < n
            invariant
                n == chars@.len(),
                chars@ == text@,
                i <= n,
                forall|j: int| 0 <= j < i ==> text@[j] != '\n',
            decreases n - i,
        {
            if chars[i] == '\n' {
                assert(text@[i as int] == '\n');
                return None;
            }
            i += 1;
        }
        if n > 0 && chars[n - 1] == '\r' {
            return None;
        }
        Some(OneLine { text })
    }

    /// The line without text.
    pub fn empty() -> (r: OneLine)
        ensures
            r@ == Seq::<char>::empty(),
    {
        let text = String::new();
        assert(text@ =~= Seq::<char>::empty());
        OneLine { text }
    }

    /// The text of the line.
    pub fn as_str(&self) -> (r: &str)
        ensures
            r@ == self@,
            one_line(self@),
    {
        proof {
            use_type_invariant(&*self);
        }
        self.text.as_str()
    }
}

/// The bytes that a line goes over the wire as: whoever reads them gets that
/// line, and nothing else.
pub fn frame_line(line: &OneLine) -> (r: Vec<u8>)
    ensures
        r@ == framed(line@),
        lines_read(Seq::empty(), r@) == seq![encode_utf8(line@)],
{
    let text = line.as_str();
    let mut bytes = text.as_bytes_vec();
    bytes.push(0x0a);
    proof {
        one_line_is_read(line@);
    }
    bytes
}

/// The line that announces an event, once the event was turned into text; an
/// event that cannot be is an error.
pub fn broadcast_line(serialized: Result<OneLine, String>) -> (r: Result<OneLine, IpcError>)
    ensures
        match serialized {
            Ok(line) => r == Ok::<OneLine, IpcError>(line),
            Err(why) => r == Err::<OneLine, IpcError>(IpcError::ConnectionFailed(why)),
        },
        r is Ok <==> serialized is Ok,
        r is Ok ==> r->Ok_0@ == serialized->Ok_0@,
        r is Err ==> r->Err_0.cause() == serialized->Err_0@,
{
    match serialized {
        Ok(line) => Ok(line),
        Err(why) => Err(IpcError::ConnectionFailed(why)),
    }
}

/// What happened on the side of a connection that is read.
#[derive(Debug, Clone, Copy, PartialEq, Eq, Structural)]
pub enum ReadEvent {
    /// A line came; whether it holds what is expected of it.
    Line { parsed: bool },
    /// What a line held was handed on; whether someone took it.
    HandedOn { taken: bool },
    /// There are no more lines.
    Closed,
}

/// What is done next on the side of a connection that is read.
#[derive(Debug, Clone, Copy, PartialEq, Eq, Structural)]
pub enum ReadAction {
    /// Read the next line.
    ReadLine,
    /// Hand on what the line holds.
    HandOn,
    /// Stop reading.
    Stop,
}

/// What a line held was handed on.
pub open spec fn handed_on(taken: bool) -> ReadEvent {
    ReadEvent::HandedOn { taken }
}

/// What the server does with the lines of a client: a command is handed on,
/// taken or not; what is no command is skipped.
pub open spec fn server_read(event: ReadEvent) -> ReadAction {
    match event {
        ReadEvent::Line { parsed: true } => ReadAction::HandOn,
        ReadEvent::Line { parsed: false } => ReadAction::ReadLine,
        ReadEvent::HandedOn { .. } => ReadAction::ReadLine,
        ReadEvent::Closed => ReadAction::Stop,
    }
}

/// What a client does with the lines of the server: an event is handed on
/// until nobody takes it; what is no event is skipped.
pub open spec fn client_read(event: ReadEvent) -> ReadAction {
    match event {
        ReadEvent::HandedOn { taken: false } => ReadAction::Stop,
        _ => server_read(event),
    }
}

/// What the server does next with the lines of a client.
pub fn server_reads(event: ReadEvent) -> (r: ReadAction)
    ensures
        r == server_read(event),
{
    match event {
        ReadEvent::Line { parsed } => if parsed {
            ReadAction::HandOn
        } else {
            ReadAction::ReadLine
        },
        ReadEvent::HandedOn { .. } => ReadAction::ReadLine,
        ReadEvent::Closed => ReadAction::Stop,
    }
}

/// What happened on the side of a connection that is written.
#[derive(Debug)]
pub enum WriteEvent {
    /// A line is to be announced.
    Line(OneLine),
    /// A line was written; whether that worked.
    Written { worked: bool },
    /// There are no more lines.
    Closed,
}

/// What is done next on the side of a connection that is written.
#[derive(Debug)]
pub enum WriteAction {
    /// Write these bytes.
    Write(Vec<u8>),
    /// Wait for the next line.
    Await,
    /// Stop writing.
    Stop,
}

/// What the server does next to announce lines to a client: each is written,
/// until there are no more or writing fails.
pub fn server_writes(event: WriteEvent) -> (r: WriteAction)
    ensures
        match event {
            WriteEvent::Line(line) => r matches WriteAction::Write(bytes) && bytes@ == framed(
                line@,
            ) && lines_read(Seq::empty(), bytes@) == seq![encode_utf8(line@)],
            WriteEvent::Written { worked } => r == if worked {
                WriteAction::Await
            } else {
                WriteAction::Stop
            },
            WriteEvent::Closed => r == WriteAction::Stop,
        },
{
    match event {
        WriteEvent::Line(line) => WriteAction::Write(frame_line(&line)),
        WriteEvent::Written { worked } => if worked {
            WriteAction::Await
        } else {
            WriteAction::Stop
        },
        WriteEvent::Closed => WriteAction::Stop,
    }
}

// ---------------------------------------------------------------------------
// The client
// ---------------------------------------------------------------------------

/// IPC client for connecting to a running session socket.
pub struct IpcClient {
    socket_path: PathBuf,
}

/// What is to be done next to send a command; each step is answered by its
/// text, where it has one, or by why it failed.
#[derive(Debug)]
pub enum SendStep {
    /// Connect to the endpoint.
    Connect,
    /// Turn the command into text.
    Serialize,
    /// Write these bytes.
    Write(Vec<u8>),
    /// Nothing: the command is sent, or is not.
    Done(Result<(), IpcError>),
}

/// What a [`SendStep`] is.
pub enum SendStepView {
    Connect,
    Serialize,
    Write(Seq<u8>),
    Done(Result<(), Seq<char>>),
}

impl View for SendStep {
    type V = SendStepView;

    open spec fn view(&self) -> SendStepView {
        match self {
            SendStep::Connect => SendStepView::Connect,
            SendStep::Serialize => SendStepView::Serialize,
            SendStep::Write(bytes) => SendStepView::Write(bytes@),
            SendStep::Done(Ok(_)) => SendStepView::Done(Ok(())),
            SendStep::Done(Err(err)) => SendStepView::Done(Err(err.cause())),
        }
    }
}

/// A reply with text, seen as characters.
pub open spec fn text_reply_view(reply: Result<OneLine, String>) -> Result<Seq<char>, Seq<char>> {
    match reply {
        Ok(text) => Ok(text@),
        Err(why) => Err(why@),
    }
}

/// The step after `step`, once that was answered; whatever fails ends it.
pub open spec fn send_next(
    step: SendStepView,
    reply: Result<Seq<char>, Seq<char>>,
) -> SendStepView {
    match (step, reply) {
        (SendStepView::Done(result), _) => SendStepView::Done(result),
        (_, Err(why)) => SendStepView::Done(Err(why)),
        (SendStepView::Connect, Ok(_)) => SendStepView::Serialize,
        (SendStepView::Serialize, Ok(line)) => SendStepView::Write(framed(line)),
        (SendStepView::Write(_), Ok(_)) => SendStepView::Done(Ok(())),
    }
}

impl IpcClient {
    /// The endpoint that the client connects to.
    pub closed spec fn endpoint(self) -> Seq<u8> {
        path_bytes(self.socket_path)
    }

    pub fn new(socket_path: PathBuf) -> (r: IpcClient)
        ensures
            r.endpoint() == path_bytes(socket_path),
    {
        IpcClient { socket_path }
    }

    /// The endpoint that the client connects to.
    pub fn socket_path(&self) -> (r: PathBuf)
        ensures
            path_bytes(r) == self.endpoint(),
    {
        copy_path(&self.socket_path)
    }

    /// What is done next with the lines of the server.
    pub fn connect(event: ReadEvent) -> (r: ReadAction)
        ensures
            r == client_read(event),
    {
        match event {
            ReadEvent::HandedOn { taken } => if taken {
                ReadAction::ReadLine
            } else {
                ReadAction::Stop
            },
            other => server_reads(other),
        }
    }

    /// Sends a command: the step after `step`, once that was answered. Starts
    /// with [`SendStep::Connect`]. Of the bytes that are written for a command
    /// its text is read, once and alone.
    pub fn send_command(step: SendStep, reply: Result<OneLine, String>) -> (r: SendStep)
        ensures
            r@ == send_next(step@, text_reply_view(reply)),
            step@ is Serialize ==> (reply matches Ok(line) ==> (r@ matches SendStepView::Write(bytes)
                && lines_read(Seq::empty(), bytes) == seq![encode_utf8(line@)])),
    {
        match (step, reply) {
            (SendStep::Done(result), _) => SendStep::Done(result),
            (_, Err(why)) => SendStep::Done(Err(IpcError::ConnectionFailed(why))),
            (SendStep::Connect, Ok(_)) => SendStep::Serialize,
            (SendStep::Serialize, Ok(line)) => SendStep::Write(frame_line(&line)),
            (SendStep::Write(_), Ok(_)) => SendStep::Done(Ok(())),
        }
    }
}

// ---------------------------------------------------------------------------
// Laws
// ---------------------------------------------------------------------------

/// A session's endpoint is a port of the loopback interface, from 20000 to
/// 59999.
pub proof fn endpoint_is_loopback(session_id: Seq<char>)
    ensures
        "127.0.0.1:"@.is_prefix_of(loopback_endpoint(session_id)),
        20_000 <= session_port(session_id) < 60_000,
{
    let port = decimal(session_port(session_id));
    assert(("127.0.0.1:"@ + port).subrange(0, "127.0.0.1:"@.len() as int) =~= "127.0.0.1:"@);
}

/// The server fails to start only where its directory cannot be created; an
/// endpoint that cannot be bound does not stop it.
pub proof fn only_the_directory_fails(step: StartStepView, reply: Result<(), Seq<char>>)
    requires
        step !is Failed,
    ensures
        start_next(step, reply) is Failed <==> step is CreateDir && reply is Err,
{
}

/// However its steps are answered, a start ends after four of them.
pub proof fn start_ends(
    platform: Platform,
    transport: Transport,
    path: Seq<u8>,
    r1: Result<(), Seq<char>>,
    r2: Result<(), Seq<char>>,
    r3: Result<(), Seq<char>>,
    r4: Result<(), Seq<char>>,
)
    ensures
        ({
            let s1 = start_next(start_first(platform, transport, path), r1);
            let s4 = start_next(start_next(start_next(s1, r2), r3), r4);
            s4 is Listening || s4 is Disabled || s4 is Failed
        }),
{
}

/// A command is sent just where every step worked.
pub proof fn sending_needs_every_step(
    connected: Result<Seq<char>, Seq<char>>,
    line: Result<Seq<char>, Seq<char>>,
    written: Result<Seq<char>, Seq<char>>,
)
    ensures
        ({
            let s1 = send_next(SendStepView::Connect, connected);
            let s2 = send_next(s1, line);
            let s3 = send_next(s2, written);
            &&& s3 is Done
            &&& s3 == SendStepView::Done(Ok(())) <==> connected is Ok && line is Ok && written is Ok
            &&& s2 matches SendStepView::Write(bytes) ==> bytes == framed(line->Ok_0)
        }),
{
}

/// A command whose text is one line is read by the server once, as it was sent,
/// and handed on once before the next line is read.
pub proof fn sent_command_is_read_once(line: Seq<char>)
    requires
        one_line(line),
    ensures
        ({
            let written = send_next(SendStepView::Serialize, Ok(line));
            &&& written is Write
            &&& lines_read(Seq::empty(), written->Write_0) == seq![encode_utf8(line)]
            &&& decode_utf8(encode_utf8(line)) == line
            &&& server_read(ReadEvent::Line { parsed: true }) == ReadAction::HandOn
            &&& forall|taken: bool|
                server_read(#[trigger] handed_on(taken)) == ReadAction::ReadLine
        }),
{
    one_line_is_read(line);
    encode_utf8_decode_utf8(line);
}

/// The bytes of one line are read as that line.
proof fn one_line_is_read(line: Seq<char>)
    requires
        one_line(line),
    ensures
        lines_read(Seq::empty(), framed(line)) == seq![encode_utf8(line)],
{
    let lines = seq![line];
    lines_come_through(lines);
    assert(framed_lines(lines) =~= framed(line)) by {
        reveal_with_fuel(framed_lines, 2);
        assert(lines.drop_first() =~= Seq::<Seq<char>>::empty());
        assert(framed(line) + Seq::<u8>::empty() =~= framed(line));
    }
    assert(lines.map_values(|line: Seq<char>| encode_utf8(line)) =~= seq![encode_utf8(line)]);
}

/// A client stops reading only where the lines end or nobody takes an event.
pub proof fn client_stops_when_unheard(event: ReadEvent)
    ensures
        client_read(event) == ReadAction::Stop <==> event == ReadEvent::Closed || event == (
        ReadEvent::HandedOn { taken: false }),
        server_read(event) == ReadAction::Stop <==> event == ReadEvent::Closed,
{
}

/// The bytes of lines that are written one after the other.
pub open spec fn framed_lines(lines: Seq<Seq<char>>) -> Seq<u8>
    decreases lines.len(),
{
    if lines.len() == 0 {
        Seq::empty()
    } else {
        framed(lines[0]) + framed_lines(lines.drop_first())
    }
}

/// A line written after others adds its bytes.
pub proof fn framed_behind(lines: Seq<Seq<char>>, line: Seq<char>)
    ensures
        framed_lines(lines.push(line)) == framed_lines(lines) + framed(line),
    decreases lines.len(),
{
    let all = lines.push(line);
    if lines.len() == 0 {
        reveal_with_fuel(framed_lines, 2);
        assert(all.drop_first() =~= lines);
        assert(framed(line) + framed_lines(lines) =~= framed_lines(lines) + framed(line));
    } else {
        framed_behind(lines.drop_first(), line);
        assert(all.drop_first() =~= lines.drop_first().push(line));
        assert(framed_lines(all) =~= framed_lines(lines) + framed(line));
    }
}

/// Lines are read as they were written.
pub proof fn lines_come_through(lines: Seq<Seq<char>>)
    requires
        forall|i: int| 0 <= i < lines.len() ==> one_line(#[trigger] lines[i]),
    ensures
        lines_read(Seq::empty(), framed_lines(lines)) == lines.map_values(
            |line: Seq<char>| encode_utf8(line),
        ),
    decreases lines.len(),
{
    let texts = lines.map_values(|line: Seq<char>| encode_utf8(line));
    if lines.len() == 0 {
        assert(texts =~= Seq::<Seq<u8>>::empty());
    } else {
        let rest = lines.drop_first();
        assert forall|i: int| 0 <= i < rest.len() implies one_line(#[trigger] rest[i]) by {
            assert(rest[i] == lines[i + 1]);
        }
        lines_come_through(rest);
        let first = encode_utf8(lines[0]);
        assert(one_line(lines[0]));
        no_newline_byte(lines[0]);
        no_return_at_end(lines[0]);
        assert(framed_lines(lines) =~= first + (seq![0x0au8] + framed_lines(rest)));
        reads_first_line(Seq::empty(), first, framed_lines(rest));
        assert(Seq::<u8>::empty() + first =~= first);
        assert(texts =~= seq![first] + rest.map_values(|line: Seq<char>| encode_utf8(line)));
    }
}

/// What stands before the first newline is the first line.
proof fn reads_first_line(line: Seq<u8>, first: Seq<u8>, rest: Seq<u8>)
    requires
        !first.contains(0x0a),
    ensures
        lines_read(line, first + (seq![0x0au8] + rest)) == seq![chomped(line + first)]
            + lines_read(Seq::empty(), rest),
    decreases first.len(),
{
    let bytes = first + (seq![0x0au8] + rest);
    if first.len() == 0 {
        assert(bytes.drop_first() =~= rest);
        assert(line + first =~= line);
    } else {
        assert(first.contains(first[0]));
        let tail = first.drop_first();
        assert(bytes.drop_first() =~= tail + (seq![0x0au8] + rest));
        assert(!tail.contains(0x0a)) by {
            if tail.contains(0x0a) {
                let i = choose|i: int| 0 <= i < tail.len() && tail[i] == 0x0a;
                assert(first[i + 1] == 0x0a);
            }
        }
        reads_first_line(line.push(first[0]), tail, rest);
        assert(line.push(first[0]) + tail =~= line + first);
    }
}

/// The UTF-8 of a character ends with a carriage return only for that.
proof fn no_return_in(ch: char)
    requires
        ch != '\r',
    ensures
        encode_scalar(ch as u32).len() > 0,
        encode_scalar(ch as u32).last() != 0x0d,
{
    let c = ch as u32;
    assert(c != 0x0d);
    assert(c <= 0x7f && c != 0x0d ==> (c & 0x7f) as u8 != 0x0d) by (bit_vector);
    assert((0x80u8 | (c & 0x3f) as u8) != 0x0d) by (bit_vector);
}

/// UTF-8 ends with a carriage return only where the text does.
proof fn no_return_at_end(text: Seq<char>)
    requires
        text.len() > 0 ==> text.last() != '\r',
    ensures
        chomped(encode_utf8(text)) == encode_utf8(text),
{
    if text.len() > 0 {
        let head = text.drop_last();
        let end = seq![text.last()];
        assert(text =~= head + end);
        encoding_of_parts(head, end);
        assert(end.drop_first() =~= Seq::<char>::empty());
        assert(encode_utf8(end) =~= encode_scalar(text.last() as u32)) by {
            reveal_with_fuel(encode_utf8, 2);
        }
        no_return_in(text.last());
        assert(encode_utf8(text).last() == encode_scalar(text.last() as u32).last());
    }
}

/// The UTF-8 of a character has a newline byte only for a newline.
proof fn no_newline_in(ch: char)
    requires
        ch != '\n',
    ensures
        !encode_scalar(ch as u32).contains(0x0a),
{
    let c = ch as u32;
    assert(c != 0x0a);
    assert(c <= 0x7f && c != 0x0a ==> (c & 0x7f) as u8 != 0x0a) by (bit_vector);
    assert((0xc0u8 | ((c >> 6) & 0x1f) as u8) != 0x0a) by (bit_vector);
    assert((0xe0u8 | ((c >> 12) & 0x0f) as u8) != 0x0a) by (bit_vector);
    assert((0xf0u8 | ((c >> 18) & 0x7) as u8) != 0x0a) by (bit_vector);
    assert((0x80u8 | (c & 0x3f) as u8) != 0x0a) by (bit_vector);
    assert((0x80u8 | ((c >> 6) & 0x3f) as u8) != 0x0a) by (bit_vector);
    assert((0x80u8 | ((c >> 12) & 0x3f) as u8) != 0x0a) by (bit_vector);
}

/// UTF-8 has a newline byte only for a newline.
proof fn no_newline_byte(text: Seq<char>)
    requires
        !text.contains('\n'),
    ensures
        !encode_utf8(text).contains(0x0a),
    decreases text.len(),
{
    if text.len() > 0 {
        let rest = text.drop_first();
        assert(text.contains(text[0]));
        assert(!rest.contains('\n')) by {
            if rest.contains('\n') {
                let i = choose|i: int| 0 <= i < rest.len() && rest[i] == '\n';
                assert(text[i + 1] == '\n');
            }
        }
        no_newline_byte(rest);
        no_newline_in(text[0]);
        let head = encode_scalar(text[0] as u32);
        let tail = encode_utf8(rest);
        if (head + tail).contains(0x0a) {
            let i = choose|i: int| 0 <= i < (head + tail).len() && (head + tail)[i] == 0x0a;
            if i < head.len() {
                assert(head[i] == 0x0a);
            } else {
                assert(tail[i - head.len()] == 0x0a);
            }
        }
    }
}

/// The hash takes in one byte after the other: of no byte it is the offset, and
/// each byte is mixed in and multiplied by the prime, in thirty-two bits.
pub proof fn hash_takes_in_every_byte(bytes: Seq<u8>, b: u8)
    ensures
        fnv1a(Seq::empty()) == 2166136261,
        fnv1a(bytes.push(b)) == ((fnv1a(bytes) ^ (b as u32)) * 16777619) % 4294967296,
{
    assert(bytes.push(b).drop_last() =~= bytes);
}

/// The endpoint is the loopback address and the number of a port: twenty
/// thousand, and the hash of the session's name within forty thousand.
pub proof fn endpoint_tells_the_port(session_id: Seq<char>) -> (port: Seq<char>)
    ensures
        loopback_endpoint(session_id) == "127.0.0.1:"@ + port,
        number_read(port) == 20000 + fnv1a(encode_utf8(session_id)) % 40000,
        forall|i: int| 0 <= i < port.len() ==> '0' <= #[trigger] port[i] <= '9',
{
    decimal_reads_back(session_port(session_id));
    decimal(session_port(session_id))
}

/// The socket is named for the session, in the directory `nca` of the runtime
/// directory; only where there is none, of that for temporary files.
pub proof fn socket_is_in_its_directory(
    platform: Platform,
    session_id: Seq<char>,
    runtime_dir: Seq<u8>,
    temp_dir: Seq<u8>,
)
    ensures
        socket_of(platform, session_id, Some(runtime_dir), temp_dir) == platform.joined(
            platform.joined(runtime_dir, encode_utf8("nca"@)),
            encode_utf8(session_id + ".sock"@),
        ),
        socket_of(platform, session_id, None, temp_dir) == socket_of(
            platform,
            session_id,
            Some(temp_dir),
            temp_dir,
        ),
{
}

/// A start on a Unix socket first creates the directory that the socket is in,
/// where it has one; on a port it binds at once.
pub proof fn start_begins_with_the_directory(platform: Platform, path: Seq<u8>)
    ensures
        platform.directory(path) matches Some(dir) ==> start_first(
            platform,
            Transport::UnixSocket,
            path,
        ) == StartStepView::CreateDir(dir),
        platform.directory(path) is None ==> start_first(platform, Transport::UnixSocket, path)
            == StartStepView::FindSocket,
        start_first(platform, Transport::LoopbackTcp, path) == StartStepView::Bind,
{
}

/// Whatever came of removing an old socket, the endpoint is bound next; what a
/// failed start or a failed bind says of the cause is the whole cause.
pub proof fn start_says_why(dir: Seq<u8>, why: Seq<char>, removed: Result<(), Seq<char>>)
    ensures
        start_next(StartStepView::CreateDir(dir), Ok(())) == StartStepView::FindSocket,
        start_next(StartStepView::CreateDir(dir), Err(why)) == StartStepView::Failed(why),
        start_next(StartStepView::FindSocket, Ok(())) == StartStepView::RemoveSocket,
        start_next(StartStepView::FindSocket, Err(why)) == StartStepView::Bind,
        start_next(StartStepView::RemoveSocket, removed) == StartStepView::Bind,
        start_next(StartStepView::Bind, Ok(())) == StartStepView::Listening,
        start_next(StartStepView::Bind, Err(why)) == StartStepView::Disabled(
            "IPC disabled: socket bind failed: "@ + ("Connection failed: "@ + why),
        ),
{
}

/// A start that has ended stays as it ended.
pub proof fn ended_start_stays(step: StartStepView, reply: Result<(), Seq<char>>)
    requires
        step is Listening || step is Disabled || step is Failed,
    ensures
        start_next(step, reply) == step,
{
}

/// A command that is not sent is answered with the whole cause of the first step
/// that failed.
pub proof fn unsent_command_says_why(
    connected: Result<Seq<char>, Seq<char>>,
    line: Result<Seq<char>, Seq<char>>,
    written: Result<Seq<char>, Seq<char>>,
)
    ensures
        ({
            let s1 = send_next(SendStepView::Connect, connected);
            let s3 = send_next(send_next(s1, line), written);
            &&& connected matches Err(why) ==> s3 == SendStepView::Done(Err(why))
            &&& connected is Ok ==> (line matches Err(why) ==> s3 == SendStepView::Done(Err(why)))
            &&& connected is Ok && line is Ok ==> (written matches Err(why) ==> s3
                == SendStepView::Done(Err(why)))
        }),
{
}

/// An error in words is the cause, whole, behind what failed.
pub proof fn errors_say_why(why: String)
    ensures
        IpcError::ConnectionFailed(why).words() == "Connection failed: "@ + why@,
{
}

/// What a line holds is handed on just where it was understood; a client goes on
/// just where what it handed on was taken, the server in any case.
pub proof fn understood_lines_are_handed_on(parsed: bool, taken: bool)
    ensures
        server_read(ReadEvent::Line { parsed }) == ReadAction::HandOn <==> parsed,
        client_read(ReadEvent::Line { parsed }) == ReadAction::HandOn <==> parsed,
        !parsed ==> server_read(ReadEvent::Line { parsed }) == ReadAction::ReadLine,
        !parsed ==> client_read(ReadEvent::Line { parsed }) == ReadAction::ReadLine,
        server_read(ReadEvent::HandedOn { taken }) == ReadAction::ReadLine,
        client_read(ReadEvent::HandedOn { taken }) == ReadAction::ReadLine <==> taken,
{
}

/// Steps and replies are seen with all that they hold.
pub proof fn steps_are_seen_whole(
    dir: PathBuf,
    why: String,
    warning: String,
    bytes: Vec<u8>,
    line: OneLine,
)
    ensures
        StartStep::CreateDir(dir)@ == StartStepView::CreateDir(path_bytes(dir)),
        (StartStep::Disabled { warning })@ == StartStepView::Disabled(warning@),
        StartStep::Failed(IpcError::ConnectionFailed(why))@ == StartStepView::Failed(why@),
        SendStep::Write(bytes)@ == SendStepView::Write(bytes@),
        SendStep::Done(Ok(()))@ == SendStepView::Done(Ok(())),
        SendStep::Done(Err(IpcError::ConnectionFailed(why)))@ == SendStepView::Done(Err(why@)),
        text_reply_view(Ok(line)) == Ok::<Seq<char>, Seq<char>>(line@),
        text_reply_view(Err(why)) == Err::<Seq<char>, Seq<char>>(why@),
{
}

/// A text is one line just where no character of it is a newline, and its last
/// one no carriage return.
pub proof fn one_line_has_no_newline(text: Seq<char>)
    ensures
        one_line(text) <==> (forall|i: int| 0 <= i < text.len() ==> (#[trigger] text[i]) != '\n')
            && (text.len() == 0 || text[text.len() - 1] != '\r'),
{
    if text.contains('\n') {
        let i = choose|i: int| 0 <= i < text.len() && text[i] == '\n';
        assert(text[i] == '\n');
    } else {
        assert forall|i: int| 0 <= i < text.len() implies (#[trigger] text[i]) != '\n' by {
            assert(text.contains(text[i]));
        }
    }
}

} // verus!
