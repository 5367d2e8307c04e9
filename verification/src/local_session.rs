//! Browsers on the device's own web page.

use vstd::prelude::*;

use crate::clients::{Clients, RfDebugListeners};
use crate::events::AppEvent;
use crate::protocol::messages::ClientMessage;
use crate::session::{ActionOwner, TransmissionCommand};
use crate::text::push_text;

verus! {

/// How long the device waits before it restarts, so that the answer gets out.
pub const REBOOT_DELAY_MS: u64 = 200;

/// What a browser is told when the device restarts.
pub const REBOOTING_JSON: &'static str = "{\"type\":\"state\",\"rebooting\":true}";

/// What happens on a browser's connection.
#[derive(Debug)]
pub enum SocketEvent<'a> {
    Text,
    Binary,
    Ping,
    Pong,
    Close,
    ReadError,
    /// Clients are told something.
    Told(&'a AppEvent),
    /// Clients are told nothing any more.
    ToldNoMore,
    /// The connection itself is gone.
    Gone,
}

/// What to do about it.
#[derive(Debug, Clone, Copy, PartialEq, Eq, Structural)]
pub enum SocketStep {
    /// Take the text as a message.
    Handle,
    /// Answer with a pong.
    Pong,
    /// Pass on what clients are told.
    Send,
    Ignore,
    /// End the session.
    End,
}

/// What follows from an event on a browser's connection.
pub open spec fn socket_step(event: SocketEvent<'_>, listening_rf_debug: bool) -> SocketStep {
    match event {
        SocketEvent::Text => SocketStep::Handle,
        SocketEvent::Ping => SocketStep::Pong,
        SocketEvent::Binary => SocketStep::Ignore,
        SocketEvent::Pong => SocketStep::Ignore,
        SocketEvent::Told(event) => if event.for_local_ui(listening_rf_debug) {
            SocketStep::Send
        } else {
            SocketStep::Ignore
        },
        SocketEvent::Close => SocketStep::End,
        SocketEvent::ReadError => SocketStep::End,
        SocketEvent::ToldNoMore => SocketStep::End,
        SocketEvent::Gone => SocketStep::End,
    }
}

/// Takes an event on a browser's connection.
pub fn on_socket_event(event: &SocketEvent<'_>, listening_rf_debug: bool) -> (r: SocketStep)
    ensures
        r == socket_step(*event, listening_rf_debug),
{
    match event {
        SocketEvent::Text => SocketStep::Handle,
        SocketEvent::Ping => SocketStep::Pong,
        SocketEvent::Binary => SocketStep::Ignore,
        SocketEvent::Pong => SocketStep::Ignore,
        SocketEvent::Told(event) => if event.goes_to_local_ui(listening_rf_debug) {
            SocketStep::Send
        } else {
            SocketStep::Ignore
        },
        SocketEvent::Close => SocketStep::End,
        SocketEvent::ReadError => SocketStep::End,
        SocketEvent::ToldNoMore => SocketStep::End,
        SocketEvent::Gone => SocketStep::End,
    }
}

/// What to do with a browser's text.
#[derive(Debug)]
pub enum LocalPlan {
    /// Answer with an error.
    Refuse { message: String },
    /// Listen to the radio, and tell what was heard so far.
    StartRfDebug { was_listening: bool },
    /// Stop listening to the radio.
    StopRfDebug { was_listening: bool },
    /// Forget what was heard so far.
    ClearRfDebug { listening: bool },
    /// Say that the device restarts, and restart it.
    Reboot,
    /// Handle the message as those of all clients.
    Dispatch { message: ClientMessage },
}

/// What follows from a browser's text, and whether it listens to the radio after it. `parsed` is
/// the message that the text holds, or why it holds none.
pub open spec fn local_plan(
    parsed: Result<ClientMessage, String>,
    was_listening: bool,
    listening: bool,
    plan: LocalPlan,
) -> bool {
    match parsed {
        Err(cause) => {
            &&& listening == was_listening
            &&& plan is Refuse
            &&& plan->Refuse_message@ == "Invalid message: "@ + cause@
        },
        Ok(ClientMessage::StartRfDebug) => listening && plan == (LocalPlan::StartRfDebug {
            was_listening,
        }),
        Ok(ClientMessage::StopRfDebug) => !listening && plan == (LocalPlan::StopRfDebug {
            was_listening,
        }),
        Ok(ClientMessage::ClearRfDebug) => listening == was_listening && plan
            == (LocalPlan::ClearRfDebug { listening: was_listening }),
        Ok(ClientMessage::Reboot) => listening == was_listening && plan == LocalPlan::Reboot,
        Ok(message) => listening == was_listening && plan == (LocalPlan::Dispatch { message }),
    }
}

/// Takes a browser's text.
pub fn plan_local_message(
    parsed: Result<ClientMessage, String>,
    listening_rf_debug: &mut bool,
) -> (r: LocalPlan)
    ensures
        local_plan(parsed, *old(listening_rf_debug), *final(listening_rf_debug), r),
{
    let was_listening = *listening_rf_debug;
    match parsed {
        Err(cause) => {
            let mut message = "Invalid message: ".to_owned();
            push_text(&mut message, cause.as_str());
            LocalPlan::Refuse { message }
        },
        Ok(ClientMessage::StartRfDebug) => {
            *listening_rf_debug = true;
            LocalPlan::StartRfDebug { was_listening }
        },
        Ok(ClientMessage::StopRfDebug) => {
            *listening_rf_debug = false;
            LocalPlan::StopRfDebug { was_listening }
        },
        Ok(ClientMessage::ClearRfDebug) => LocalPlan::ClearRfDebug { listening: was_listening },
        Ok(ClientMessage::Reboot) => LocalPlan::Reboot,
        Ok(message) => LocalPlan::Dispatch { message },
    }
}

/// Ends a browser's session: it listens to the radio no more, it is no client any more, and the
/// actions that it held end.
pub fn end_session(
    conn_id: u32,
    listening_rf_debug: bool,
    clients: &mut Clients,
    listeners: &mut RfDebugListeners,
) -> (r: TransmissionCommand)
    requires
        old(listeners).wf(),
        listening_rf_debug ==> old(listeners).count > 0,
    ensures
        r == (TransmissionCommand::CancelOwnedActions { owner: ActionOwner::LocalWs(conn_id) }),
        final(clients).clients@ == crate::clients::clients_without(
            old(clients).clients@,
            conn_id,
        ),
        final(listeners).wf(),
        final(listeners).count == if listening_rf_debug {
            (old(listeners).count - 1) as u32
        } else {
            old(listeners).count
        },
{
    listeners.release(listening_rf_debug);
    clients.unregister(conn_id);
    TransmissionCommand::CancelOwnedActions { owner: ActionOwner::LocalWs(conn_id) }
}

/// A session ends exactly when the browser leaves, its connection breaks or there is nothing more
/// to be told. Until then its texts are handled, its pings answered, and what a browser is to be
/// told is passed on.
pub proof fn lemma_what_a_session_does(event: SocketEvent<'_>, listening_rf_debug: bool)
    ensures
        ({
            let r = socket_step(event, listening_rf_debug);
            &&& r == SocketStep::Handle <==> event is Text
            &&& r == SocketStep::Pong <==> event is Ping
            &&& r == SocketStep::End <==> event is Close || event is ReadError
                || event is ToldNoMore || event is Gone
            &&& r == SocketStep::Send <==> event is Told && event->Told_0.for_local_ui(
                listening_rf_debug,
            )
            &&& event is Binary || event is Pong ==> r == SocketStep::Ignore
        }),
{
}

/// What a browser's text comes to: listening begins and ends only on demand, and every message
/// that is not the session's own is handed on as it is. A text that is no message is refused with
/// the reason.
pub proof fn lemma_what_a_text_comes_to(
    parsed: Result<ClientMessage, String>,
    was_listening: bool,
    listening: bool,
    plan: LocalPlan,
)
    requires
        local_plan(parsed, was_listening, listening, plan),
    ensures
        ({
            let starts = parsed is Ok && parsed->Ok_0 is StartRfDebug;
            let stops = parsed is Ok && parsed->Ok_0 is StopRfDebug;
            &&& listening == (starts || (was_listening && !stops))
            &&& plan is StartRfDebug <==> starts
            &&& plan is StopRfDebug <==> stops
            &&& plan is ClearRfDebug <==> parsed is Ok && parsed->Ok_0 is ClearRfDebug
            &&& plan is Reboot <==> parsed is Ok && parsed->Ok_0 is Reboot
            &&& plan is Refuse <==> parsed is Err
            &&& plan is Refuse ==> plan->Refuse_message@ == "Invalid message: "@
                + parsed->Err_0@
            &&& plan is Dispatch ==> parsed is Ok && plan->Dispatch_message == parsed->Ok_0
            &&& plan is StartRfDebug ==> plan->StartRfDebug_was_listening == was_listening
            &&& plan is StopRfDebug ==> plan->StopRfDebug_was_listening == was_listening
            &&& plan is ClearRfDebug ==> plan->listening == was_listening
        }),
{
}

} // verus!
