//! The single-instance protocol: what a fresh process does after it has
//! probed the endpoint, what goes over the socket, and what the daemon does
//! with each message.

use vstd::prelude::*;
use vstd::string::{StrSliceExecFns, StringExecFns};
use crate::config::{merged, set_args, ArgsModel, DimlandArgs, DimlandCommands};
use crate::shell::{encode, encoded, lemma_shell_words_of_encoded, shell_words, split_shell};
use crate::text::texts;
use crate::wake::{wake_turn, WakeLatch};

verus! {

/// The endpoint's path below the runtime directory `dir`.
pub open spec fn socket_path_in(dir: Seq<char>) -> Seq<char> {
    dir + "/dimland.sock"@
}

/// The endpoint's path, given the per-user runtime directory. Without a
/// runtime directory there is no endpoint.
pub fn get_socket_path(runtime_dir: Option<&str>) -> (path: Option<String>)
    ensures
        match runtime_dir {
            Some(dir) => path matches Some(p) && p@ == socket_path_in(dir@),
            None => path is None,
        },
{
    match runtime_dir {
        Some(dir) => Some(String::from_str(dir).concat("/dimland.sock")),
        None => None,
    }
}

/// Whether the process stays in the foreground: it was started detached, or
/// it is a debug build. Such a process serves as the daemon itself, and an
/// interrupt ends it; any other hands over to a detached copy and, once it
/// serves, ignores interrupts.
pub open spec fn in_foreground(detached: bool, debug_build: bool) -> bool {
    detached || debug_build
}

/// Whether an interrupt or terminate signal ends the process.
pub fn exits_on_signal(detached: bool, debug_build: bool) -> (out: bool)
    ensures
        out == in_foreground(detached, debug_build),
{
    detached || debug_build
}

/// What a process does when an interrupt or terminate signal arrives.
#[derive(Clone, Copy, Debug, PartialEq, Eq, Structural)]
pub enum SignalAction {
    /// Go on as if nothing had happened.
    Ignore,
    /// Exit with status 0.
    Exit,
    /// Remove the endpoint file, then exit with status 0.
    Shutdown,
}

/// The reaction to a signal. A process in the background ignores it. One in
/// the foreground exits, and if it serves as the daemon, it takes its
/// endpoint along.
pub open spec fn signal_reaction(detached: bool, debug_build: bool, serving: bool) -> SignalAction {
    if !in_foreground(detached, debug_build) {
        SignalAction::Ignore
    } else if serving {
        SignalAction::Shutdown
    } else {
        SignalAction::Exit
    }
}

/// Decides what to do on an interrupt or terminate signal. `serving` says
/// whether this process listens on the endpoint.
pub fn on_signal(detached: bool, debug_build: bool, serving: bool) -> (action: SignalAction)
    ensures
        action == signal_reaction(detached, debug_build, serving),
{
    if !exits_on_signal(detached, debug_build) {
        SignalAction::Ignore
    } else if serving {
        SignalAction::Shutdown
    } else {
        SignalAction::Exit
    }
}

/// What a fresh process does once it has probed the endpoint.
#[derive(Clone, Debug, PartialEq, Eq)]
pub enum StartupAction {
    /// Send `message` over the connection that the probe opened, then exit
    /// with status 0.
    Send { message: String },
    /// Exit with status 0.
    Exit,
    /// Become the daemon: remove a stale endpoint file, listen on the
    /// endpoint, and run the render loop.
    Serve,
    /// Start a copy of this program with `args`, then exit with status 0.
    Respawn { args: Vec<String> },
}

/// A startup action as a mathematical value.
pub enum StartupModel {
    Send { message: Seq<char> },
    Exit,
    Serve,
    Respawn { args: Seq<Seq<char>> },
}

impl View for StartupAction {
    type V = StartupModel;

    open spec fn view(&self) -> StartupModel {
        match self {
            StartupAction::Send { message } => StartupModel::Send { message: message@ },
            StartupAction::Exit => StartupModel::Exit,
            StartupAction::Serve => StartupModel::Serve,
            StartupAction::Respawn { args } => StartupModel::Respawn { args: texts(args@) },
        }
    }
}

/// The message that forwards a command line: the command line written as
/// one line of text, each argument quoted where it has to be, and a line
/// feed.
pub open spec fn forward_message(argv: Seq<Seq<char>>) -> Seq<char> {
    encoded(argv).push('\n')
}

/// The arguments of the detached copy: those of this process after the
/// program's name, and the detached flag.
pub open spec fn respawn_args(argv: Seq<Seq<char>>) -> Seq<Seq<char>> {
    argv.push("--detached"@).skip(1)
}

/// The startup action. `connected` says whether the probe reached a running
/// instance. The stop command only ever sends `stop`; any other command line
/// is forwarded to the running instance where there is one; where there is
/// none, the process serves if it stays in the foreground and else starts a
/// detached copy.
pub open spec fn startup_plan(
    args: ArgsModel,
    argv: Seq<Seq<char>>,
    connected: bool,
    debug_build: bool,
) -> StartupModel {
    if args.command matches Some(DimlandCommands::Stop) {
        if connected {
            StartupModel::Send { message: "stop"@ }
        } else {
            StartupModel::Exit
        }
    } else if connected {
        StartupModel::Send { message: forward_message(argv) }
    } else if in_foreground(args.detached, debug_build) {
        StartupModel::Serve
    } else {
        StartupModel::Respawn { args: respawn_args(argv) }
    }
}

/// The status with which the process exits after the action, or `None` where
/// it stays.
pub open spec fn exit_status(action: StartupModel) -> Option<int> {
    match action {
        StartupModel::Serve => None,
        _ => Some(0),
    }
}

/// Builds the arguments of the detached copy.
pub fn detached_args(argv: &Vec<String>) -> (out: Vec<String>)
    ensures
        texts(out@) == respawn_args(texts(argv@)),
{
    let mut out: Vec<String> = Vec::new();
    let mut i: usize = 1;
    while i < argv.len()
        invariant
            1 <= i,
            out@.len() == if argv.len() == 0 {
                0
            } else {
                i - 1
            },
            i <= argv.len() || argv.len() == 0,
            forall|k: int| 0 <= k < out@.len() ==> out@[k]@ == argv@[k + 1]@,
        decreases argv.len() - i,
    {
        out.push(argv[i].clone());
        i = i + 1;
    }
    if argv.len() > 0 {
        out.push(String::from_str("--detached"));
    }
    assert(texts(out@) =~= respawn_args(texts(argv@)));
    out
}

/// Decides what a fresh process does. `args` is its parsed command line,
/// `argv` the command line as it was given, the program's name first.
pub fn startup(
    args: &DimlandArgs,
    argv: &Vec<String>,
    connected: bool,
    debug_build: bool,
) -> (action: StartupAction)
    ensures
        action@ == startup_plan(args@, texts(argv@), connected, debug_build),
{
    let stop = match args.command {
        Some(DimlandCommands::Stop) => true,
        None => false,
    };
    if stop {
        if connected {
            StartupAction::Send { message: String::from_str("stop") }
        } else {
            StartupAction::Exit
        }
    } else if connected {
        let mut message = encode(argv);
        message.push('\n');
        StartupAction::Send { message }
    } else if exits_on_signal(args.detached, debug_build) {
        StartupAction::Serve
    } else {
        StartupAction::Respawn { args: detached_args(argv) }
    }
}

/// What the listener met.
#[derive(Clone, Copy, Debug, PartialEq, Eq, Structural)]
pub enum ListenerEvent {
    /// The endpoint could not be bound.
    BindFailed,
    /// A client connected.
    Accepted,
    /// Accepting a connection failed.
    AcceptFailed,
}

/// What the listener does next.
#[derive(Clone, Copy, Debug, PartialEq, Eq, Structural)]
pub enum ListenerAction {
    /// Remove the endpoint file and exit with status 1.
    Abort,
    /// Read one line from the connection and handle it before accepting the
    /// next.
    Handle,
    /// Stop listening.
    Close,
}

/// The listener's reaction to an event.
pub open spec fn listener_reaction(event: ListenerEvent) -> ListenerAction {
    match event {
        ListenerEvent::BindFailed => ListenerAction::Abort,
        ListenerEvent::Accepted => ListenerAction::Handle,
        ListenerEvent::AcceptFailed => ListenerAction::Close,
    }
}

/// One turn of the listener.
pub fn listen_for_ipc(event: ListenerEvent) -> (action: ListenerAction)
    ensures
        action == listener_reaction(event),
{
    match event {
        ListenerEvent::BindFailed => ListenerAction::Abort,
        ListenerEvent::Accepted => ListenerAction::Handle,
        ListenerEvent::AcceptFailed => ListenerAction::Close,
    }
}

/// A line as it was read, without the line feed that ends it.
pub open spec fn line_body(line: Seq<char>) -> Seq<char> {
    if line.len() > 0 && line.last() == '\n' {
        line.drop_last()
    } else {
        line
    }
}

/// Whether a line is the stop message.
pub open spec fn is_stop_line(line: Seq<char>) -> bool {
    line_body(line) == "stop"@
}

/// A message, framed.
#[derive(Clone, Debug, PartialEq, Eq)]
pub enum Framed {
    /// The stop message.
    Stop,
    /// A command line, read into its arguments, the program's name first.
    Arguments(Vec<String>),
    /// A line that is no command line: a quote in it is left open, or it
    /// ends with a backslash.
    Malformed,
}

/// A framed message as a mathematical value.
pub enum FramedModel {
    Stop,
    Arguments(Seq<Seq<char>>),
    Malformed,
}

impl View for Framed {
    type V = FramedModel;

    open spec fn view(&self) -> FramedModel {
        match self {
            Framed::Stop => FramedModel::Stop,
            Framed::Arguments(argv) => FramedModel::Arguments(texts(argv@)),
            Framed::Malformed => FramedModel::Malformed,
        }
    }
}

/// The framing of a line: the stop message where the line is `stop`; else
/// the arguments that the line holds, read as a shell reads them; and where
/// it cannot be read so, malformed.
pub open spec fn framing(line: Seq<char>) -> FramedModel {
    if is_stop_line(line) {
        FramedModel::Stop
    } else {
        match shell_words(line_body(line)) {
            Some(argv) => FramedModel::Arguments(argv),
            None => FramedModel::Malformed,
        }
    }
}

/// A line without the line feed that ends it.
pub fn strip_line_feed<'a>(line: &'a str) -> (body: &'a str)
    ensures
        body@ == line_body(line@),
{
    let n = line.unicode_len();
    if n > 0 && line.get_char(n - 1) == '\n' {
        let body = line.substring_char(0, n - 1);
        assert(body@ =~= line@.drop_last());
        body
    } else {
        line
    }
}

/// Frames one line read from a connection.
pub fn read_message(line: &str) -> (framed: Framed)
    ensures
        framed@ == framing(line@),
{
    let body = strip_line_feed(line);
    if String::from_str(body) == String::from_str("stop") {
        Framed::Stop
    } else {
        match split_shell(body) {
            Some(argv) => Framed::Arguments(argv),
            None => Framed::Malformed,
        }
    }
}

/// A message as the daemon handles it: framed, and where it was a command
/// line, parsed.
#[derive(Clone, Debug, PartialEq, Eq)]
pub enum IpcRequest {
    /// The stop message.
    Stop,
    /// A command line that parsed as a configuration update.
    Update(DimlandArgs),
    /// A command line that did not parse.
    Malformed,
}

/// A request as a mathematical value.
pub enum RequestModel {
    Stop,
    Update(ArgsModel),
    Malformed,
}

impl View for IpcRequest {
    type V = RequestModel;

    open spec fn view(&self) -> RequestModel {
        match self {
            IpcRequest::Stop => RequestModel::Stop,
            IpcRequest::Update(args) => RequestModel::Update(args@),
            IpcRequest::Malformed => RequestModel::Malformed,
        }
    }
}

/// What the daemon does after a request.
#[derive(Clone, Copy, Debug, PartialEq, Eq, Structural)]
pub enum IpcAction {
    /// Remove the endpoint file and exit with status 0.
    Shutdown,
    /// The configuration changed and the latch is raised: notify one waiter.
    Notify,
    /// Nothing: the message is dropped and the daemon goes on.
    Ignore,
}

/// What the listener and the render loop share: the stored configuration and
/// the latch.
pub struct Control {
    pub args: ArgsModel,
    pub raised: bool,
}

/// The shared state after a request.
pub open spec fn control_after(before: Control, request: RequestModel) -> Control {
    match request {
        RequestModel::Update(update) => Control {
            args: merged(before.args, update),
            raised: true,
        },
        _ => before,
    }
}

/// The action that a request calls for.
pub open spec fn action_for(request: RequestModel) -> IpcAction {
    match request {
        RequestModel::Stop => IpcAction::Shutdown,
        RequestModel::Update(_) => IpcAction::Notify,
        RequestModel::Malformed => IpcAction::Ignore,
    }
}

/// Handles one request: an update is merged into the store and raises the
/// latch; the stop message and a malformed one leave both as they are.
pub fn handle_ipc(
    request: IpcRequest,
    store: &mut DimlandArgs,
    latch: &mut WakeLatch,
) -> (action: IpcAction)
    ensures
        action == action_for(request@),
        (Control { args: final(store)@, raised: final(latch).raised }) == control_after(
            Control { args: old(store)@, raised: old(latch).raised },
            request@,
        ),
{
    match request {
        IpcRequest::Stop => IpcAction::Shutdown,
        IpcRequest::Update(args) => {
            set_args(store, args);
            latch.raise();
            IpcAction::Notify
        },
        IpcRequest::Malformed => IpcAction::Ignore,
    }
}

/// One turn of the waiter on the shared state: whether it goes on, and the
/// state it leaves.
pub open spec fn wait_turn(before: Control) -> (bool, Control) {
    (wake_turn(before.raised).0, Control { raised: wake_turn(before.raised).1, ..before })
}

/// Two updates that arrive before the waiter wakes make one wake, and the
/// waiter then finds the store with both merged in, the second over the
/// first: the state between them is never seen. A further turn of the waiter
/// finds nothing to do.
pub proof fn lemma_updates_collapse(start: Control, first: ArgsModel, second: ArgsModel)
    ensures
        ({
            let end = control_after(
                control_after(start, RequestModel::Update(first)),
                RequestModel::Update(second),
            );
            &&& wait_turn(end).0
            &&& wait_turn(end).1.args == merged(merged(start.args, first), second)
            &&& !wait_turn(wait_turn(end).1).0
        }),
{
}

/// A daemon as its clients see it.
pub struct Daemon {
    /// What the listener and the render loop share.
    pub control: Control,
    /// Whether the process runs and listens.
    pub serving: bool,
    /// Whether the endpoint file exists.
    pub endpoint: bool,
}

/// The daemon after a request. A daemon that no longer serves takes none.
pub open spec fn daemon_after(before: Daemon, request: RequestModel) -> Daemon {
    if !before.serving {
        before
    } else if action_for(request) == IpcAction::Shutdown {
        Daemon { control: before.control, serving: false, endpoint: false }
    } else {
        Daemon { control: control_after(before.control, request), ..before }
    }
}

/// The daemon after a sequence of requests.
pub open spec fn daemon_after_all(before: Daemon, requests: Seq<RequestModel>) -> Daemon
    decreases requests.len(),
{
    if requests.len() == 0 {
        before
    } else {
        daemon_after(daemon_after_all(before, requests.drop_last()), requests.last())
    }
}

/// Requests other than the stop message leave the daemon serving, and
/// malformed ones leave what it shares untouched.
pub proof fn lemma_daemon_survives(before: Daemon, requests: Seq<RequestModel>)
    requires
        before.serving,
        forall|i: int| 0 <= i < requests.len() ==> !(#[trigger] requests[i] is Stop),
    ensures
        daemon_after_all(before, requests).serving,
        daemon_after_all(before, requests).endpoint == before.endpoint,
        (forall|i: int| 0 <= i < requests.len() ==> #[trigger] requests[i] is Malformed)
            ==> daemon_after_all(before, requests) == before,
    decreases requests.len(),
{
    if requests.len() > 0 {
        let front = requests.drop_last();
        assert forall|i: int| 0 <= i < front.len() implies !(#[trigger] front[i] is Stop) by {
            assert(front[i] == requests[i]);
        }
        lemma_daemon_survives(before, front);
        if forall|i: int| 0 <= i < requests.len() ==> #[trigger] requests[i] is Malformed {
            assert forall|i: int| 0 <= i < front.len() implies #[trigger] front[i] is Malformed by {
                assert(front[i] == requests[i]);
            }
            assert(requests.last() is Malformed);
        }
        assert(!(requests.last() is Stop));
    }
}

/// The stop message ends a serving daemon and removes its endpoint, whatever
/// was sent before it, malformed messages included.
pub proof fn lemma_stop_ends_daemon(before: Daemon, requests: Seq<RequestModel>)
    requires
        before.serving,
        forall|i: int| 0 <= i < requests.len() ==> !(#[trigger] requests[i] is Stop),
    ensures
        !daemon_after_all(before, requests.push(RequestModel::Stop)).serving,
        !daemon_after_all(before, requests.push(RequestModel::Stop)).endpoint,
{
    lemma_daemon_survives(before, requests);
    assert(requests.push(RequestModel::Stop).drop_last() =~= requests);
}

/// One launch of the program.
pub struct Launch {
    /// The parsed command line.
    pub args: ArgsModel,
    /// The command line as given.
    pub argv: Seq<Seq<char>>,
    /// Whether the program is a debug build.
    pub debug_build: bool,
}

/// The startup action of a launch that finds `listening` instances on the
/// endpoint: its probe connects exactly if there is one.
pub open spec fn launch_plan(listening: nat, launch: Launch) -> StartupModel {
    startup_plan(launch.args, launch.argv, listening > 0, launch.debug_build)
}

/// The number of instances that listen on the endpoint after one launch. A
/// launch that serves adds one. A launch that sends a message which the
/// daemon frames as the stop message leaves none. Any other leaves the number
/// as it is.
pub open spec fn listening_after_launch(listening: nat, launch: Launch) -> nat {
    match launch_plan(listening, launch) {
        StartupModel::Serve => listening + 1,
        StartupModel::Send { message } => if framing(message) is Stop {
            0
        } else {
            listening
        },
        _ => listening,
    }
}

/// The number of instances that listen on the endpoint after a sequence of
/// launches.
pub open spec fn listening_after(listening: nat, launches: Seq<Launch>) -> nat
    decreases launches.len(),
{
    if launches.len() == 0 {
        listening
    } else {
        listening_after_launch(
            listening_after(listening, launches.drop_last()),
            launches.last(),
        )
    }
}

/// Whether a launch stops a running daemon: it is the stop command, or its
/// command line is the one word `stop`.
pub open spec fn stops_daemon(launch: Launch) -> bool {
    launch.args.command matches Some(DimlandCommands::Stop) || launch.argv == seq!["stop"@]
}

/// Only the command line that is the one word `stop` is written as `stop`.
pub proof fn lemma_only_stop_is_written_as_stop(argv: Seq<Seq<char>>)
    ensures
        encoded(argv) == "stop"@ <==> argv == seq!["stop"@],
{
    reveal_strlit("stop");
    let stop = seq!["stop"@];
    assert(crate::shell::is_bare_word("stop"@));
    assert(stop.map_values(|w: Seq<char>| crate::shell::encoded_word(w)) =~= stop);
    assert(encoded(stop) == "stop"@);
    lemma_shell_words_of_encoded(stop);
    lemma_shell_words_of_encoded(argv);
}

/// Never more than one instance listens on the endpoint, whatever is
/// launched and in whatever order.
pub proof fn lemma_at_most_one_instance(listening: nat, launches: Seq<Launch>)
    requires
        listening <= 1,
    ensures
        listening_after(listening, launches) <= 1,
    decreases launches.len(),
{
    if launches.len() > 0 {
        lemma_at_most_one_instance(listening, launches.drop_last());
    }
}

/// While one instance listens, every launch that does not stop it forwards
/// its command line and exits with status 0, and that one instance still
/// listens after any number of them.
pub proof fn lemma_single_instance(launches: Seq<Launch>)
    requires
        forall|i: int| 0 <= i < launches.len() ==> !stops_daemon(#[trigger] launches[i]),
    ensures
        listening_after(1, launches) == 1,
        forall|i: int|
            0 <= i < launches.len() ==> {
                let plan = launch_plan(
                    listening_after(1, launches.take(i)),
                    #[trigger] launches[i],
                );
                &&& plan == (StartupModel::Send { message: forward_message(launches[i].argv) })
                &&& exit_status(plan) == Some(0int)
            },
    decreases launches.len(),
{
    if launches.len() > 0 {
        let front = launches.drop_last();
        let last = launches.last();
        assert forall|i: int| 0 <= i < front.len() implies !stops_daemon(#[trigger] front[i]) by {
            assert(front[i] == launches[i]);
        }
        lemma_single_instance(front);
        assert(!stops_daemon(last));
        lemma_only_stop_is_written_as_stop(last.argv);
        assert(forward_message(last.argv).drop_last() =~= encoded(last.argv));
        assert forall|i: int| 0 <= i < launches.len() implies {
            let plan = launch_plan(listening_after(1, launches.take(i)), #[trigger] launches[i]);
            &&& plan == (StartupModel::Send { message: forward_message(launches[i].argv) })
            &&& exit_status(plan) == Some(0int)
        } by {
            if i < front.len() {
                assert(front.take(i) =~= launches.take(i));
                assert(front[i] == launches[i]);
            } else {
                assert(launches.take(i) =~= front);
            }
        }
    }
}

/// A launch of the stop command beside a listening instance sends `stop`,
/// exits with status 0, and leaves no instance listening.
pub proof fn lemma_stop_launch(listening: nat, launch: Launch)
    requires
        listening > 0,
        launch.args.command matches Some(DimlandCommands::Stop),
    ensures
        launch_plan(listening, launch) == (StartupModel::Send { message: "stop"@ }),
        exit_status(launch_plan(listening, launch)) == Some(0int),
        listening_after_launch(listening, launch) == 0,
{
    reveal_strlit("stop");
}

/// What one process forwards, the daemon frames as the same command line,
/// whatever the arguments hold, unless the command line is the one word
/// `stop`.
pub proof fn lemma_forward_then_frame(argv: Seq<Seq<char>>)
    requires
        argv != seq!["stop"@],
    ensures
        framing(forward_message(argv)) == FramedModel::Arguments(argv),
{
    let line = forward_message(argv);
    assert(line.drop_last() =~= encoded(argv));
    lemma_only_stop_is_written_as_stop(argv);
    lemma_shell_words_of_encoded(argv);
}

/// A forwarded command line whose arguments hold no line feed is one line:
/// its only line feed is the one that ends it, so the daemon, which reads one
/// line, reads all of it.
pub proof fn lemma_forward_is_one_line(argv: Seq<Seq<char>>)
    requires
        crate::shell::all_on_one_line(argv),
    ensures
        forward_message(argv).last() == '\n',
        crate::shell::on_one_line(forward_message(argv).drop_last()),
{
    crate::shell::lemma_encoded_on_one_line(argv);
    assert(forward_message(argv).drop_last() =~= encoded(argv));
}

} // verus!
