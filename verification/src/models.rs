//! What a remote front end is told about a command, and when it is told that
//! the device came or went.

use vstd::prelude::*;
use vstd::string::StringExecFns;

verus! {

/// The answer to a command that a remote client sent.
#[derive(Debug, Clone)]
pub struct CommandResponse {
    pub success: bool,
    pub message: String,
    pub command: String,
    pub args: Vec<String>,
}

/// What a [`CommandResponse`] holds.
pub struct ResponseView {
    pub success: bool,
    pub message: Seq<char>,
    pub command: Seq<char>,
    pub args: Seq<Seq<char>>,
}

impl View for CommandResponse {
    type V = ResponseView;

    open spec fn view(&self) -> ResponseView {
        ResponseView {
            success: self.success,
            message: self.message@,
            command: self.command@,
            args: self.args@.map_values(|a: String| a@),
        }
    }
}

/// The answer to a command with the given outcome: the message of success,
/// or the reason of the failure behind `Error: `.
pub open spec fn outcome_view(command: Seq<char>, done: Seq<char>, outcome: Result<(), String>)
    -> ResponseView {
    match outcome {
        Ok(_) => ResponseView { success: true, message: done, command, args: Seq::empty() },
        Err(reason) => ResponseView {
            success: false,
            message: "Error: "@ + reason@,
            command,
            args: Seq::empty(),
        },
    }
}

/// What the connection watch does after a poll.
#[derive(Clone, Copy, Debug, PartialEq, Eq, Structural)]
pub enum ConnectionAction {
    /// The device is as it was at the poll before.
    Nothing,
    /// The device came: open the channel anew and announce the outcome.
    Reconnect,
    /// The device went: close the channel and announce that it is gone.
    Close,
}

impl CommandResponse {
    /// The answer to a command with the given outcome.
    pub fn from_outcome(command: &str, done: &str, outcome: Result<(), String>) -> (response:
        CommandResponse)
        ensures
            response@ == outcome_view(command@, done@, outcome),
    {
        let response = match outcome {
            Ok(_) => CommandResponse {
                success: true,
                message: String::from_str(done),
                command: String::from_str(command),
                args: Vec::new(),
            },
            Err(reason) => {
                let mut message = String::from_str("Error: ");
                message.append(reason.as_str());
                CommandResponse {
                    success: false,
                    message,
                    command: String::from_str(command),
                    args: Vec::new(),
                }
            },
        };
        assert(response@.args =~= Seq::<Seq<char>>::empty());
        response
    }

    /// The answer to a command that could not get hold of the session.
    pub fn lock_failed(command: &str) -> (response: CommandResponse)
        ensures
            response@ == (ResponseView {
                success: false,
                message: "Error: Failed to acquire loader lock"@,
                command: command@,
                args: Seq::empty(),
            }),
    {
        let response = CommandResponse {
            success: false,
            message: String::from_str("Error: Failed to acquire loader lock"),
            command: String::from_str(command),
            args: Vec::new(),
        };
        assert(response@.args =~= Seq::<Seq<char>>::empty());
        response
    }
}

/// What to do after a poll that found the device `connected`, when the poll
/// before found `last_status`: nothing while the status stays, otherwise
/// reconnect or close.
pub fn connection_step(last_status: Option<bool>, connected: bool) -> (action: ConnectionAction)
    ensures
        last_status == Some(connected) ==> action == ConnectionAction::Nothing,
        last_status != Some(connected) && connected ==> action == ConnectionAction::Reconnect,
        last_status != Some(connected) && !connected ==> action == ConnectionAction::Close,
{
    let unchanged = match last_status {
        Some(status) => status == connected,
        None => false,
    };
    if unchanged {
        ConnectionAction::Nothing
    } else if connected {
        ConnectionAction::Reconnect
    } else {
        ConnectionAction::Close
    }
}

/// What is announced after an action: nothing after none, whether the
/// channel could be opened after a reconnect, and `false` after a close.
pub fn connection_event(action: ConnectionAction, reopened: bool) -> (event: Option<bool>)
    ensures
        action == ConnectionAction::Nothing ==> event is None,
        action == ConnectionAction::Reconnect ==> event == Some(reopened),
        action == ConnectionAction::Close ==> event == Some(false),
{
    match action {
        ConnectionAction::Nothing => None,
        ConnectionAction::Reconnect => Some(reopened),
        ConnectionAction::Close => Some(false),
    }
}

} // verus!
