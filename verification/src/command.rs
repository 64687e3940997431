//! Command data model: the inbound command shape, its response lifecycle,
//! the kind/target validity table, and the planning step that turns a valid
//! command into the concrete external invocation the host must run.

use vstd::prelude::*;
use vstd::string::StringExecFns;

verus! {

/// The kind of an inbound operational command.
#[derive(Debug, Clone)]
pub enum CommandType {
    Start,
    Stop,
    Restart,
    Payout,
    PayoutAll,
    RebootServer,
    Custom(String),
}

/// What a command acts on: one managed unit, all of them, or the host itself.
#[derive(Debug, Clone)]
pub enum CommandTarget {
    Node(String),
    AllNodes,
    Server,
}

/// An inbound command as decoded off the wire. Immutable once constructed.
#[derive(Debug, Clone)]
pub struct Command {
    pub id: String,
    pub command_type: CommandType,
    pub target: CommandTarget,
    pub parameters: Option<Vec<(String, String)>>,
    pub timestamp: u64,
}

/// Lifecycle of one command: `Received` and `InProgress` are non-terminal,
/// `Completed` and `Failed` are terminal.
#[derive(Debug, Clone, Copy, PartialEq, Eq, Structural)]
pub enum CommandStatus {
    Received,
    InProgress,
    Completed,
    Failed,
}

/// A status report for one command, keyed by the originating command id.
#[derive(Debug, Clone)]
pub struct CommandResponse {
    pub command_id: String,
    pub status: CommandStatus,
    pub result: Option<String>,
    pub error: Option<String>,
    pub timestamp: u64,
}

/// The tagged union placed on the wire in the command direction.
#[derive(Debug, Clone)]
pub enum CommandMessage {
    Command(Command),
    Response(CommandResponse),
}

/// A failure surfaced by command handling.
#[derive(Debug, Clone)]
pub struct CommandError {
    pub message: String,
}

/// Mathematical model of a `CommandType`.
pub enum CommandTypeView {
    Start,
    Stop,
    Restart,
    Payout,
    PayoutAll,
    RebootServer,
    Custom(Seq<char>),
}

/// Mathematical model of a `CommandTarget`.
pub enum CommandTargetView {
    Node(Seq<char>),
    AllNodes,
    Server,
}

/// Mathematical model of a `Command`.
pub struct CommandView {
    pub id: Seq<char>,
    pub command_type: CommandTypeView,
    pub target: CommandTargetView,
    pub parameters: Option<Seq<(Seq<char>, Seq<char>)>>,
    pub timestamp: u64,
}

/// Mathematical model of a `CommandResponse`.
pub struct CommandResponseView {
    pub command_id: Seq<char>,
    pub status: CommandStatus,
    pub result: Option<Seq<char>>,
    pub error: Option<Seq<char>>,
    pub timestamp: u64,
}

/// Mathematical model of a `CommandMessage`.
pub enum CommandMessageView {
    Command(CommandView),
    Response(CommandResponseView),
}

impl View for CommandType {
    type V = CommandTypeView;

    open spec fn view(&self) -> CommandTypeView {
        match self {
            CommandType::Start => CommandTypeView::Start,
            CommandType::Stop => CommandTypeView::Stop,
            CommandType::Restart => CommandTypeView::Restart,
            CommandType::Payout => CommandTypeView::Payout,
            CommandType::PayoutAll => CommandTypeView::PayoutAll,
            CommandType::RebootServer => CommandTypeView::RebootServer,
            CommandType::Custom(s) => CommandTypeView::Custom(s@),
        }
    }
}

impl View for CommandTarget {
    type V = CommandTargetView;

    open spec fn view(&self) -> CommandTargetView {
        match self {
            CommandTarget::Node(s) => CommandTargetView::Node(s@),
            CommandTarget::AllNodes => CommandTargetView::AllNodes,
            CommandTarget::Server => CommandTargetView::Server,
        }
    }
}

/// The model of a parameter list: each pair of strings by its view.
pub open spec fn pairs_view(v: Seq<(String, String)>) -> Seq<(Seq<char>, Seq<char>)> {
    Seq::new(v.len(), |i: int| (v[i].0@, v[i].1@))
}

impl View for Command {
    type V = CommandView;

    open spec fn view(&self) -> CommandView {
        CommandView {
            id: self.id@,
            command_type: self.command_type@,
            target: self.target@,
            parameters: match &self.parameters {
                Option::None => Option::None,
                Option::Some(v) => Option::Some(pairs_view(v@)),
            },
            timestamp: self.timestamp,
        }
    }
}

impl View for CommandResponse {
    type V = CommandResponseView;

    open spec fn view(&self) -> CommandResponseView {
        CommandResponseView {
            command_id: self.command_id@,
            status: self.status,
            result: match &self.result {
                Option::None => Option::None,
                Option::Some(s) => Option::Some(s@),
            },
            error: match &self.error {
                Option::None => Option::None,
                Option::Some(s) => Option::Some(s@),
            },
            timestamp: self.timestamp,
        }
    }
}

impl View for CommandMessage {
    type V = CommandMessageView;

    open spec fn view(&self) -> CommandMessageView {
        match self {
            CommandMessage::Command(c) => CommandMessageView::Command(c@),
            CommandMessage::Response(r) => CommandMessageView::Response(r@),
        }
    }
}

/// Position of a status in the forward-only lifecycle; both terminal states
/// share the last position.
pub open spec fn status_rank(s: CommandStatus) -> int {
    match s {
        CommandStatus::Received => 0,
        CommandStatus::InProgress => 1,
        CommandStatus::Completed => 2,
        CommandStatus::Failed => 2,
    }
}

/// A terminal status admits no further transition.
pub open spec fn status_is_terminal(s: CommandStatus) -> bool {
    s == CommandStatus::Completed || s == CommandStatus::Failed
}

/// Whether a status is terminal.
pub fn is_terminal(s: CommandStatus) -> (r: bool)
    ensures
        r == status_is_terminal(s),
{
    match s {
        CommandStatus::Completed => true,
        CommandStatus::Failed => true,
        _ => false,
    }
}

/// The kind/target validity table: which targets each command kind accepts.
/// `Start`/`Stop`/`Restart` act on one unit or all units but never the host;
/// `Payout` acts on exactly one unit; the remaining kinds ignore the target.
pub open spec fn spec_target_valid(k: CommandTypeView, t: CommandTargetView) -> bool {
    match k {
        CommandTypeView::Start => t is Node || t is AllNodes,
        CommandTypeView::Stop => t is Node || t is AllNodes,
        CommandTypeView::Restart => t is Node || t is AllNodes,
        CommandTypeView::Payout => t is Node,
        CommandTypeView::PayoutAll => true,
        CommandTypeView::RebootServer => true,
        CommandTypeView::Custom(_) => true,
    }
}

/// Checks the validity table for one kind/target pair.
pub fn target_valid(k: &CommandType, t: &CommandTarget) -> (r: bool)
    ensures
        r == spec_target_valid(k@, t@),
{
    match k {
        CommandType::Start | CommandType::Stop | CommandType::Restart => match t {
            CommandTarget::Node(_) => true,
            CommandTarget::AllNodes => true,
            CommandTarget::Server => false,
        },
        CommandType::Payout => match t {
            CommandTarget::Node(_) => true,
            _ => false,
        },
        CommandType::PayoutAll => true,
        CommandType::RebootServer => true,
        CommandType::Custom(_) => true,
    }
}

/// The table's edge rows: a host-targeted restart is refused rather than
/// read as a host reboot, a fleet-wide payout is refused under the
/// single-unit kind, and the fleet payout kind accepts every target.
pub proof fn lemma_target_rules()
    ensures
        !spec_target_valid(CommandTypeView::Restart, CommandTargetView::Server),
        !spec_target_valid(CommandTypeView::Payout, CommandTargetView::AllNodes),
        forall|t: CommandTargetView| spec_target_valid(CommandTypeView::PayoutAll, t),
{
}

/// Well-formedness of a response: the success payload is present exactly in
/// the `Completed` state and the error payload exactly in the `Failed` state.
pub open spec fn response_wf(r: CommandResponseView) -> bool {
    &&& r.result is Some <==> r.status is Completed
    &&& r.error is Some <==> r.status is Failed
}

/// The refusal message for a start aimed at an unsupported target.
pub open spec fn start_target_message() -> Seq<char> {
    "지원되지 않는 시작 대상입니다"@
}

/// The refusal message for a stop aimed at an unsupported target.
pub open spec fn stop_target_message() -> Seq<char> {
    "지원되지 않는 중지 대상입니다"@
}

/// The refusal message for a host-targeted restart: an unsupported
/// operation, never read as a host reboot.
pub open spec fn restart_server_message() -> Seq<char> {
    "서버 재시작은 현재 지원되지 않습니다"@
}

/// The refusal message for a payout aimed at anything but one unit.
pub open spec fn payout_target_message() -> Seq<char> {
    "지원되지 않는 페이아웃 대상입니다"@
}

/// The refusal message for a custom instruction that the allow-list does
/// not enumerate.
pub open spec fn custom_not_allowed_message() -> Seq<char> {
    "허용 목록에 없는 커스텀 명령어입니다"@
}

/// The reason a command is refused, by its kind; kinds that are never
/// refused carry no reason.
pub open spec fn spec_rejection_message(k: CommandTypeView) -> Seq<char> {
    match k {
        CommandTypeView::Start => start_target_message(),
        CommandTypeView::Stop => stop_target_message(),
        CommandTypeView::Restart => restart_server_message(),
        CommandTypeView::Payout => payout_target_message(),
        CommandTypeView::Custom(_) => custom_not_allowed_message(),
        CommandTypeView::PayoutAll => Seq::empty(),
        CommandTypeView::RebootServer => Seq::empty(),
    }
}

/// Whether a custom instruction passes the externally supplied allow-list:
/// a `Custom` command is permitted exactly when its instruction is
/// enumerated, letter for letter; every other kind passes. An empty list
/// permits no custom instruction at all.
pub open spec fn spec_custom_allowed(k: CommandTypeView, allow: Seq<Seq<char>>) -> bool {
    k matches CommandTypeView::Custom(c) ==> crate::contains_id(allow, c)
}

/// Whether a command is admitted for execution: its target must fit its
/// kind, and a custom instruction must stand on the allow-list.
pub open spec fn spec_admitted(k: CommandTypeView, t: CommandTargetView, allow: Seq<Seq<char>>) -> bool {
    spec_target_valid(k, t) && spec_custom_allowed(k, allow)
}

/// The external program run for a command, with its arguments.
#[derive(Debug, Clone)]
pub struct Invocation {
    pub program: String,
    pub args: Vec<String>,
}

/// Mathematical model of an `Invocation`.
pub struct InvocationView {
    pub program: Seq<char>,
    pub args: Seq<Seq<char>>,
}

impl View for Invocation {
    type V = InvocationView;

    open spec fn view(&self) -> InvocationView {
        InvocationView { program: self.program@, args: crate::strings_view(self.args@) }
    }
}

/// The shell prologue that loads the operator's profile before a helper
/// function is called.
pub open spec fn shell_prelude() -> Seq<char> {
    "source ~/.zshrc || source ~/.bash_profile; "@
}

/// The external invocation for a valid kind/target pair: unit lifecycle
/// goes through the container runtime, whole-fleet and payout operations
/// through the operator's shell helpers, the host reboot through the
/// system, and a custom command straight to the shell.
pub open spec fn spec_plan(k: CommandTypeView, t: CommandTargetView) -> InvocationView
    recommends
        spec_target_valid(k, t),
{
    match k {
        CommandTypeView::Start => match t {
            CommandTargetView::Node(n) => InvocationView {
                program: "docker"@,
                args: seq!["start"@, n],
            },
            _ => InvocationView {
                program: "bash"@,
                args: seq!["-c"@, shell_prelude() + "startAll"@],
            },
        },
        CommandTypeView::Stop => match t {
            CommandTargetView::Node(n) => InvocationView {
                program: "docker"@,
                args: seq!["stop"@, n],
            },
            _ => InvocationView {
                program: "bash"@,
                args: seq!["-c"@, shell_prelude() + "stopAll"@],
            },
        },
        CommandTypeView::Restart => match t {
            CommandTargetView::Node(n) => InvocationView {
                program: "docker"@,
                args: seq!["restart"@, n],
            },
            _ => InvocationView {
                program: "bash"@,
                args: seq!["-c"@, shell_prelude() + "restartAll"@],
            },
        },
        CommandTypeView::Payout => match t {
            CommandTargetView::Node(n) => InvocationView {
                program: "bash"@,
                args: seq!["-c"@, shell_prelude() + "payout "@ + n],
            },
            _ => InvocationView { program: "bash"@, args: Seq::empty() },
        },
        CommandTypeView::PayoutAll => InvocationView {
            program: "bash"@,
            args: seq!["-c"@, shell_prelude() + "payoutAll"@],
        },
        CommandTypeView::RebootServer => InvocationView {
            program: "sudo"@,
            args: seq!["shutdown"@, "-r"@, "now"@],
        },
        CommandTypeView::Custom(c) => InvocationView { program: "bash"@, args: seq!["-c"@, c] },
    }
}

/// Performs command handling decisions; the concrete effects run outside.
pub struct CommandHandler;

impl CommandHandler {
    /// The immediate acknowledgement sent once per command, before any
    /// execution is attempted.
    pub fn received_response(command_id: &String, now: u64) -> (r: CommandResponse)
        ensures
            r@.command_id == command_id@,
            r@.status == CommandStatus::Received,
            r@.result is None,
            r@.error is None,
            r@.timestamp == now,
            response_wf(r@),
    {
        CommandResponse {
            command_id: command_id.clone(),
            status: CommandStatus::Received,
            result: Option::None,
            error: Option::None,
            timestamp: now,
        }
    }

    /// The single terminal response for a command: `Completed` with the
    /// output on success, `Failed` with the message on failure.
    pub fn terminal_response(command_id: &String, outcome: Result<String, String>, now: u64) -> (r:
        CommandResponse)
        ensures
            r@.command_id == command_id@,
            r@.timestamp == now,
            response_wf(r@),
            status_is_terminal(r@.status),
            match outcome {
                Result::Ok(out) => r@.status == CommandStatus::Completed && r@.result
                    == Option::Some(out@),
                Result::Err(msg) => r@.status == CommandStatus::Failed && r@.error
                    == Option::Some(msg@),
            },
    {
        match outcome {
            Result::Ok(out) => CommandResponse {
                command_id: command_id.clone(),
                status: CommandStatus::Completed,
                result: Option::Some(out),
                error: Option::None,
                timestamp: now,
            },
            Result::Err(msg) => CommandResponse {
                command_id: command_id.clone(),
                status: CommandStatus::Failed,
                result: Option::None,
                error: Option::Some(msg),
                timestamp: now,
            },
        }
    }
}

/// Relies on `chrono::Utc::now` and `chrono::DateTime::timestamp`: the
/// current wall-clock time in whole seconds since the epoch, reinterpreted
/// as an unsigned count. Nothing is assumed of the value; time is not a
/// function of anything the engine sees.
#[verifier::external_body]
fn unix_now() -> u64 {
    chrono::Utc::now().timestamp() as u64
}

/// Whether the list holds the given string.
pub fn list_contains(list: &Vec<String>, x: &String) -> (r: bool)
    ensures
        r == crate::contains_id(crate::strings_view(list@), x@),
{
    let mut i: usize = 0;
    while i < list.len()
        invariant
            i <= list@.len(),
            forall|j: int| 0 <= j < i ==> crate::strings_view(list@)[j] != x@,
        decreases list@.len() - i,
    {
        if list[i] == *x {
            proof {
                assert(crate::strings_view(list@)[i as int] == x@);
            }
            return true;
        }
        i = i + 1;
    }
    false
}

/// Checks a custom instruction against the externally supplied allow-list;
/// every other kind passes unconditionally.
pub fn custom_allowed(k: &CommandType, custom_allow: &Vec<String>) -> (r: bool)
    ensures
        r == spec_custom_allowed(k@, crate::strings_view(custom_allow@)),
{
    match k {
        CommandType::Custom(c) => list_contains(custom_allow, c),
        _ => true,
    }
}

/// The reason a command of this kind is refused.
pub fn rejection_message(k: &CommandType) -> (r: String)
    ensures
        r@ == spec_rejection_message(k@),
{
    match k {
        CommandType::Start => String::from_str("지원되지 않는 시작 대상입니다"),
        CommandType::Stop => String::from_str("지원되지 않는 중지 대상입니다"),
        CommandType::Restart => String::from_str("서버 재시작은 현재 지원되지 않습니다"),
        CommandType::Payout => String::from_str("지원되지 않는 페이아웃 대상입니다"),
        CommandType::Custom(_) => String::from_str("허용 목록에 없는 커스텀 명령어입니다"),
        _ => String::new(),
    }
}

/// A custom instruction is admitted exactly when the allow-list enumerates
/// it: nothing outside the list is ever executed, and an empty list
/// permits no custom instruction at all.
pub proof fn lemma_custom_requires_allow_list(
    c: Seq<char>,
    t: CommandTargetView,
    allow: Seq<Seq<char>>,
)
    ensures
        spec_admitted(CommandTypeView::Custom(c), t, allow) <==> crate::contains_id(allow, c),
        allow.len() == 0 ==> !spec_admitted(CommandTypeView::Custom(c), t, allow),
{
}

impl CommandHandler {
    /// Checks a command against the validity table and the custom-command
    /// allow-list and, when it is admitted, plans the external invocation
    /// that performs it; a refused command carries its kind's reason.
    pub fn plan(command: &Command, custom_allow: &Vec<String>) -> (r: Result<
        Invocation,
        CommandError,
    >)
        ensures
            r is Ok <==> spec_admitted(
                command.command_type@,
                command.target@,
                crate::strings_view(custom_allow@),
            ),
            r matches Ok(inv) ==> inv@ == spec_plan(command.command_type@, command.target@),
            r matches Err(e) ==> e.message@ == spec_rejection_message(command.command_type@),
    {
        let prelude = "source ~/.zshrc || source ~/.bash_profile; ";
        let inv = match &command.command_type {
            CommandType::Start => match &command.target {
                CommandTarget::Node(n) => Invocation {
                    program: String::from_str("docker"),
                    args: vec![String::from_str("start"), n.clone()],
                },
                CommandTarget::AllNodes => Invocation {
                    program: String::from_str("bash"),
                    args: vec![
                        String::from_str("-c"),
                        String::from_str(prelude).concat("startAll"),
                    ],
                },
                CommandTarget::Server => {
                    return Err(
                        CommandError {
                            message: String::from_str("지원되지 않는 시작 대상입니다"),
                        },
                    );
                },
            },
            CommandType::Stop => match &command.target {
                CommandTarget::Node(n) => Invocation {
                    program: String::from_str("docker"),
                    args: vec![String::from_str("stop"), n.clone()],
                },
                CommandTarget::AllNodes => Invocation {
                    program: String::from_str("bash"),
                    args: vec![
                        String::from_str("-c"),
                        String::from_str(prelude).concat("stopAll"),
                    ],
                },
                CommandTarget::Server => {
                    return Err(
                        CommandError {
                            message: String::from_str("지원되지 않는 중지 대상입니다"),
                        },
                    );
                },
            },
            CommandType::Restart => match &command.target {
                CommandTarget::Node(n) => Invocation {
                    program: String::from_str("docker"),
                    args: vec![String::from_str("restart"), n.clone()],
                },
                CommandTarget::AllNodes => Invocation {
                    program: String::from_str("bash"),
                    args: vec![
                        String::from_str("-c"),
                        String::from_str(prelude).concat("restartAll"),
                    ],
                },
                CommandTarget::Server => {
                    return Err(
                        CommandError {
                            message: String::from_str("서버 재시작은 현재 지원되지 않습니다"),
                        },
                    );
                },
            },
            CommandType::Payout => match &command.target {
                CommandTarget::Node(n) => Invocation {
                    program: String::from_str("bash"),
                    args: vec![
                        String::from_str("-c"),
                        String::from_str(prelude).concat("payout ").concat(n.as_str()),
                    ],
                },
                _ => {
                    return Err(
                        CommandError {
                            message: String::from_str("지원되지 않는 페이아웃 대상입니다"),
                        },
                    );
                },
            },
            CommandType::PayoutAll => Invocation {
                program: String::from_str("bash"),
                args: vec![
                    String::from_str("-c"),
                    String::from_str(prelude).concat("payoutAll"),
                ],
            },
            CommandType::RebootServer => Invocation {
                program: String::from_str("sudo"),
                args: vec![
                    String::from_str("shutdown"),
                    String::from_str("-r"),
                    String::from_str("now"),
                ],
            },
            CommandType::Custom(c) => {
                if !list_contains(custom_allow, c) {
                    return Err(
                        CommandError {
                            message: String::from_str("허용 목록에 없는 커스텀 명령어입니다"),
                        },
                    );
                }
                Invocation { program: String::from_str("bash"), args: vec![String::from_str("-c"), c.clone()] }
            },
        };
        proof {
            assert(inv@.args =~= spec_plan(command.command_type@, command.target@).args);
        }
        Ok(inv)
    }

    /// The acknowledgement for a command received at the current wall-clock
    /// second: whatever the clock reports, the shape is the `Received`
    /// response for this id.
    pub fn received_response_now(command_id: &String) -> (r: CommandResponse)
        ensures
            r@.command_id == command_id@,
            r@.status == CommandStatus::Received,
            r@.result is None,
            r@.error is None,
            response_wf(r@),
    {
        Self::received_response(command_id, unix_now())
    }

    /// The terminal response for an executor outcome, stamped with the
    /// current wall-clock second.
    pub fn terminal_response_now(command_id: &String, outcome: Result<String, String>) -> (r:
        CommandResponse)
        ensures
            r@.command_id == command_id@,
            response_wf(r@),
            status_is_terminal(r@.status),
            match outcome {
                Result::Ok(out) => r@.status == CommandStatus::Completed && r@.result
                    == Option::Some(out@),
                Result::Err(msg) => r@.status == CommandStatus::Failed && r@.error
                    == Option::Some(msg@),
            },
    {
        Self::terminal_response(command_id, outcome, unix_now())
    }
}

} // verus!
