//! The frontend's bookkeeping over the agent core's event stream: which
//! role each open message has, whether a turn is in flight, whether a
//! configuration echo is awaited, and which frontend event each core event
//! becomes.
//!
//! Values that the frontend only passes through (tool arguments and details,
//! the reasoning level) are type parameters: `J` and `L`.

use std::collections::HashMap;
use vstd::prelude::*;

verus! {

/// The role of a message in a turn.
#[derive(Debug, Clone, Copy, PartialEq, Eq, Structural)]
pub enum MessageRole {
    User,
    Assistant,
    ToolResult,
    Status,
}

/// One increment of a message's content.
#[derive(Debug)]
pub enum MessageDelta {
    Text(String),
    ToolCall,
    Thinking(String),
}

/// A tool's progress report, as the frontend presents it.
#[derive(Debug, Clone)]
pub enum ToolUpdatePresentation<J> {
    Text(String),
    Progress { label: String, current: Option<u64>, total: Option<u64> },
    Details(J),
}

/// An event of the agent core, with the fields the frontend reads.
#[derive(Debug)]
pub enum CoreEventModel<J, L> {
    AgentStarted,
    AgentFinished,
    TurnStarted,
    SteerQueued { text: String },
    MessageStarted { message_id: u64, role: MessageRole },
    MessageDelta { message_id: u64, delta: MessageDelta },
    MessageFinished { message_id: u64 },
    ToolCallStarted { message_id: u64, tool_call_id: String, tool_name: String, arguments: J },
    ToolCallUpdated { message_id: u64, tool_call_id: String, tool_name: String, update: ToolUpdatePresentation<J> },
    ToolCallFinished { tool_call_id: String, is_error: bool },
    ToolApprovalRequested { approval_id: u64, message_id: u64, tool_call_id: String, tool_name: String, arguments: J },
    ToolApprovalResolved { approval_id: u64, tool_call_id: String, approved: bool, reason: Option<String> },
    ToolResultStarted,
    ToolResultFinished { tool_call_id: String, tool_name: String, text: String, details: J, is_error: bool },
    TurnFinished,
    TurnFailed { message: String },
    TurnCancelled,
    ConfigChanged { provider: String, model_id: String, reasoning_effort: L },
}

/// What the frontend shows of the core's events. A tool result gathered
/// from a tool-result message carries no details (`None`).
#[derive(Debug)]
pub enum FrontendEvent<J, L> {
    TurnStarted,
    SteerQueued { text: String },
    UserMessage { text: String },
    AssistantDelta { text: String },
    ThinkingDelta { text: String },
    TurnFinished,
    TurnFailed { message: String },
    TurnCancelled,
    ToolCallStarted { message_id: u64, tool_call_id: String, tool_name: String, arguments: J },
    ToolCallUpdated { message_id: u64, tool_call_id: String, tool_name: String, update: ToolUpdatePresentation<J> },
    ToolCallFinished { tool_call_id: String, is_error: bool },
    ToolApprovalRequested { approval_id: u64, message_id: u64, tool_call_id: String, tool_name: String, arguments: J },
    ToolApprovalResolved { approval_id: u64, tool_call_id: String, approved: bool, reason: Option<String> },
    ToolResult { tool_call_id: String, tool_name: String, text: String, details: Option<J>, is_error: bool },
    ConfigChanged { provider: String, model_id: String, reasoning_effort: L },
}

/// A tool result being gathered from a tool-result message.
#[derive(Debug, Clone)]
pub struct PendingToolResult {
    pub tool_call_id: String,
    pub tool_name: String,
    pub is_error: bool,
    pub text: String,
}

/// The bookkeeping, as mathematical values.
pub struct BackendView {
    pub in_flight: bool,
    pub config_refresh_pending: bool,
    pub message_roles: Map<u64, MessageRole>,
    pub tool_results: Map<u64, PendingToolResult>,
}

/// The frontend's bookkeeping over the core's events.
#[derive(Debug)]
pub struct BackendState {
    in_flight: bool,
    config_refresh_pending: bool,
    message_roles: HashMap<u64, MessageRole>,
    tool_results: HashMap<u64, PendingToolResult>,
}

impl View for BackendState {
    type V = BackendView;

    closed spec fn view(&self) -> BackendView {
        BackendView {
            in_flight: self.in_flight,
            config_refresh_pending: self.config_refresh_pending,
            message_roles: self.message_roles@,
            tool_results: self.tool_results@,
        }
    }
}

/// `after` is `before` with `text` appended to its text.
pub open spec fn appended(before: PendingToolResult, after: PendingToolResult, text: String) -> bool {
    &&& after.tool_call_id == before.tool_call_id
    &&& after.tool_name == before.tool_name
    &&& after.is_error == before.is_error
    &&& after.text@ == before.text@ + text@
}

/// The role recorded for `id`, if any.
pub open spec fn role_of(s: BackendView, id: u64) -> Option<MessageRole> {
    if s.message_roles.contains_key(id) {
        Some(s.message_roles[id])
    } else {
        None
    }
}

/// Text of a tool-result message: appended to the result being gathered
/// for that message, if there is one.
pub open spec fn tool_text_step(s: BackendView, id: u64, text: String, t: BackendView) -> bool {
    &&& t.in_flight == s.in_flight
    &&& t.config_refresh_pending == s.config_refresh_pending
    &&& t.message_roles == s.message_roles
    &&& if s.tool_results.contains_key(id) {
        exists|p: PendingToolResult|
            #[trigger] appended(s.tool_results[id], p, text) && t.tool_results == s.tool_results.insert(id, p)
    } else {
        t.tool_results == s.tool_results
    }
}

/// The event that a finished tool-result message yields.
pub open spec fn finished_tool_result<J, L>(p: PendingToolResult) -> FrontendEvent<J, L> {
    FrontendEvent::ToolResult {
        tool_call_id: p.tool_call_id,
        tool_name: p.tool_name,
        text: p.text,
        details: None,
        is_error: p.is_error,
    }
}

/// Handling `event` in state `s` may leave state `t` and yield `r`.
pub open spec fn core_event_step<J, L>(
    s: BackendView,
    event: CoreEventModel<J, L>,
    t: BackendView,
    r: Option<FrontendEvent<J, L>>,
) -> bool {
    match event {
        CoreEventModel::AgentStarted | CoreEventModel::AgentFinished | CoreEventModel::ToolResultStarted => t == s
            && r is None,
        CoreEventModel::TurnStarted => t == (BackendView { in_flight: true, ..s }) && r == Some(
            FrontendEvent::<J, L>::TurnStarted,
        ),
        CoreEventModel::SteerQueued { text } => t == s && r == Some(FrontendEvent::<J, L>::SteerQueued { text }),
        CoreEventModel::MessageStarted { message_id, role } => t == (BackendView {
            message_roles: s.message_roles.insert(message_id, role),
            ..s
        }) && r is None,
        CoreEventModel::MessageDelta { message_id, delta } => match delta {
            MessageDelta::Text(text) => match role_of(s, message_id) {
                Some(MessageRole::User) => t == s && r == Some(FrontendEvent::<J, L>::UserMessage { text }),
                Some(MessageRole::Assistant) => t == s && r == Some(FrontendEvent::<J, L>::AssistantDelta { text }),
                Some(MessageRole::ToolResult) => tool_text_step(s, message_id, text, t) && r is None,
                _ => t == s && r is None,
            },
            MessageDelta::ToolCall => t == s && r is None,
            MessageDelta::Thinking(text) => t == s && r == if role_of(s, message_id) == Some(MessageRole::Assistant) {
                Some(FrontendEvent::<J, L>::ThinkingDelta { text })
            } else {
                None
            },
        },
        CoreEventModel::MessageFinished { message_id } => if role_of(s, message_id) == Some(MessageRole::ToolResult) {
            &&& t == (BackendView {
                message_roles: s.message_roles.remove(message_id),
                tool_results: s.tool_results.remove(message_id),
                ..s
            })
            &&& r == if s.tool_results.contains_key(message_id) {
                Some(finished_tool_result::<J, L>(s.tool_results[message_id]))
            } else {
                None
            }
        } else {
            t == (BackendView { message_roles: s.message_roles.remove(message_id), ..s }) && r is None
        },
        CoreEventModel::ToolCallStarted { message_id, tool_call_id, tool_name, arguments } => t == s && r == Some(
            FrontendEvent::<J, L>::ToolCallStarted { message_id, tool_call_id, tool_name, arguments },
        ),
        CoreEventModel::ToolCallUpdated { message_id, tool_call_id, tool_name, update } => t == s && r == Some(
            FrontendEvent::<J, L>::ToolCallUpdated { message_id, tool_call_id, tool_name, update },
        ),
        CoreEventModel::ToolCallFinished { tool_call_id, is_error } => t == s && r == Some(
            FrontendEvent::<J, L>::ToolCallFinished { tool_call_id, is_error },
        ),
        CoreEventModel::ToolApprovalRequested { approval_id, message_id, tool_call_id, tool_name, arguments } => t
            == s && r == Some(
            FrontendEvent::<J, L>::ToolApprovalRequested { approval_id, message_id, tool_call_id, tool_name, arguments },
        ),
        CoreEventModel::ToolApprovalResolved { approval_id, tool_call_id, approved, reason } => t == s && r == Some(
            FrontendEvent::<J, L>::ToolApprovalResolved { approval_id, tool_call_id, approved, reason },
        ),
        CoreEventModel::ToolResultFinished { tool_call_id, tool_name, text, details, is_error } => t == s && r
            == Some(
            FrontendEvent::<J, L>::ToolResult { tool_call_id, tool_name, text, details: Some(details), is_error },
        ),
        CoreEventModel::TurnFinished => t == (BackendView { in_flight: false, ..s }) && r == Some(
            FrontendEvent::<J, L>::TurnFinished,
        ),
        CoreEventModel::TurnFailed { message } => t == (BackendView { in_flight: false, ..s }) && r == Some(
            FrontendEvent::<J, L>::TurnFailed { message },
        ),
        CoreEventModel::TurnCancelled => t == (BackendView {
            in_flight: false,
            message_roles: Map::empty(),
            ..s
        }) && r == Some(FrontendEvent::<J, L>::TurnCancelled),
        CoreEventModel::ConfigChanged { provider, model_id, reasoning_effort } => t == (BackendView {
            config_refresh_pending: false,
            ..s
        }) && r == Some(FrontendEvent::<J, L>::ConfigChanged { provider, model_id, reasoning_effort }),
    }
}

/// The frontend events of a value that is present.
pub open spec fn present<T>(r: Option<T>) -> Seq<T> {
    match r {
        Some(x) => seq![x],
        None => Seq::empty(),
    }
}

/// The frontend events among `results`, in order.
pub open spec fn present_all<T>(results: Seq<Option<T>>) -> Seq<T>
    decreases results.len(),
{
    if results.len() == 0 {
        Seq::empty()
    } else {
        present_all(results.drop_last()) + present(results.last())
    }
}

/// `states` and `results` record handling `events` in order from `states[0]`:
/// each event is handled in the state the ones before it left.
pub open spec fn core_events_run<J, L>(
    events: Seq<CoreEventModel<J, L>>,
    states: Seq<BackendView>,
    results: Seq<Option<FrontendEvent<J, L>>>,
) -> bool {
    &&& states.len() == events.len() + 1
    &&& results.len() == events.len()
    &&& forall|i: int| 0 <= i < events.len() ==> #[trigger] core_event_step(states[i], events[i], states[i + 1], results[i])
}

impl BackendState {
    /// Fresh bookkeeping. With a core attached, the first configuration echo
    /// is awaited so that it is picked up promptly.
    pub fn new(core_attached: bool) -> (r: Self)
        ensures
            !r@.in_flight,
            r@.config_refresh_pending == core_attached,
            r@.message_roles == Map::<u64, MessageRole>::empty(),
            r@.tool_results == Map::<u64, PendingToolResult>::empty(),
    {
        BackendState {
            in_flight: false,
            config_refresh_pending: core_attached,
            message_roles: HashMap::new(),
            tool_results: HashMap::new(),
        }
    }

    /// A turn was handed to the core: it is in flight.
    pub fn turn_submitted(&mut self)
        ensures
            final(self)@ == (BackendView { in_flight: true, ..old(self)@ }),
    {
        self.in_flight = true;
    }

    /// A reasoning-effort change was handed to the core: its configuration
    /// echo is awaited.
    pub fn config_refresh_requested(&mut self)
        ensures
            final(self)@ == (BackendView { config_refresh_pending: true, ..old(self)@ }),
    {
        self.config_refresh_pending = true;
    }

    pub fn has_in_flight_turn(&self) -> (r: bool)
        ensures
            r == self@.in_flight,
    {
        self.in_flight
    }

    pub fn has_pending_config_sync(&self) -> (r: bool)
        ensures
            r == self@.config_refresh_pending,
    {
        self.config_refresh_pending
    }

    fn role(&self, message_id: u64) -> (r: Option<MessageRole>)
        ensures
            r == role_of(self@, message_id),
    {
        broadcast use vstd::std_specs::hash::group_hash_axioms;

        match self.message_roles.get(&message_id) {
            Some(role) => Some(*role),
            None => None,
        }
    }

    /// Appends `text` to the tool result gathered for `message_id`, if any.
    fn append_tool_text(&mut self, message_id: u64, text: String)
        ensures
            tool_text_step(old(self)@, message_id, text, final(self)@),
    {
        broadcast use vstd::std_specs::hash::group_hash_axioms;

        match self.tool_results.remove(&message_id) {
            Some(result) => {
                let mut result = result;
                result.text.append(text.as_str());
                let ghost after = result;
                self.tool_results.insert(message_id, result);
                proof {
                    assert(appended(old(self)@.tool_results[message_id], after, text));
                    assert(self.tool_results@ =~= old(self)@.tool_results.insert(message_id, after));
                }
            },
            None => {
                assert(self.tool_results@ =~= old(self)@.tool_results);
            },
        }
    }

    /// Records what `event` says of the turn and its messages, and returns
    /// the frontend event it becomes, if any.
    pub fn map_core_event<J, L>(&mut self, event: CoreEventModel<J, L>) -> (r: Option<FrontendEvent<J, L>>)
        ensures
            core_event_step(old(self)@, event, final(self)@, r),
    {
        broadcast use vstd::std_specs::hash::group_hash_axioms;

        match event {
            CoreEventModel::AgentStarted | CoreEventModel::AgentFinished => None,
            CoreEventModel::TurnStarted => {
                self.in_flight = true;
                Some(FrontendEvent::TurnStarted)
            },
            CoreEventModel::SteerQueued { text } => Some(FrontendEvent::SteerQueued { text }),
            CoreEventModel::MessageStarted { message_id, role } => {
                self.message_roles.insert(message_id, role);
                None
            },
            CoreEventModel::MessageDelta { message_id, delta: MessageDelta::Text(text) } => match self.role(
                message_id,
            ) {
                Some(MessageRole::User) => Some(FrontendEvent::UserMessage { text }),
                Some(MessageRole::Assistant) => Some(FrontendEvent::AssistantDelta { text }),
                Some(MessageRole::ToolResult) => {
                    self.append_tool_text(message_id, text);
                    None
                },
                Some(MessageRole::Status) | None => None,
            },
            CoreEventModel::MessageDelta { delta: MessageDelta::ToolCall, .. } => None,
            CoreEventModel::MessageDelta { message_id, delta: MessageDelta::Thinking(text) } => {
                match self.role(message_id) {
                    Some(MessageRole::Assistant) => Some(FrontendEvent::ThinkingDelta { text }),
                    _ => None,
                }
            },
            CoreEventModel::MessageFinished { message_id } => {
                let role = self.message_roles.remove(&message_id);
                if let Some(MessageRole::ToolResult) = role {
                    return match self.tool_results.remove(&message_id) {
                        Some(result) => Some(
                            FrontendEvent::ToolResult {
                                tool_call_id: result.tool_call_id,
                                tool_name: result.tool_name,
                                text: result.text,
                                details: None,
                                is_error: result.is_error,
                            },
                        ),
                        None => None,
                    };
                }
                None
            },
            CoreEventModel::ToolCallStarted { message_id, tool_call_id, tool_name, arguments } => Some(
                FrontendEvent::ToolCallStarted { message_id, tool_call_id, tool_name, arguments },
            ),
            CoreEventModel::ToolCallUpdated { message_id, tool_call_id, tool_name, update } => Some(
                FrontendEvent::ToolCallUpdated { message_id, tool_call_id, tool_name, update },
            ),
            CoreEventModel::ToolCallFinished { tool_call_id, is_error } => Some(
                FrontendEvent::ToolCallFinished { tool_call_id, is_error },
            ),
            CoreEventModel::ToolApprovalRequested { approval_id, message_id, tool_call_id, tool_name, arguments } => Some(
                FrontendEvent::ToolApprovalRequested { approval_id, message_id, tool_call_id, tool_name, arguments },
            ),
            CoreEventModel::ToolApprovalResolved { approval_id, tool_call_id, approved, reason } => Some(
                FrontendEvent::ToolApprovalResolved { approval_id, tool_call_id, approved, reason },
            ),
            CoreEventModel::ToolResultStarted => None,
            CoreEventModel::ToolResultFinished { tool_call_id, tool_name, text, details, is_error } => Some(
                FrontendEvent::ToolResult { tool_call_id, tool_name, text, details: Some(details), is_error },
            ),
            CoreEventModel::TurnFinished => {
                self.in_flight = false;
                Some(FrontendEvent::TurnFinished)
            },
            CoreEventModel::TurnFailed { message } => {
                self.in_flight = false;
                Some(FrontendEvent::TurnFailed { message })
            },
            CoreEventModel::TurnCancelled => {
                self.in_flight = false;
                self.message_roles.clear();
                Some(FrontendEvent::TurnCancelled)
            },
            CoreEventModel::ConfigChanged { provider, model_id, reasoning_effort } => {
                self.config_refresh_pending = false;
                Some(FrontendEvent::ConfigChanged { provider, model_id, reasoning_effort })
            },
        }
    }
    /// Handles `events` in order, keeping the frontend events they become.
    pub fn map_core_events<J, L>(&mut self, events: Vec<CoreEventModel<J, L>>) -> (r: Vec<FrontendEvent<J, L>>)
        ensures
            exists|states: Seq<BackendView>, results: Seq<Option<FrontendEvent<J, L>>>|
                #[trigger] core_events_run(events@, states, results) && states[0] == old(self)@ && states.last()
                    == final(self)@ && r@ == present_all(results),
    {
        let ghost all = events@;
        let ghost mut states: Seq<BackendView> = seq![self@];
        let ghost mut results: Seq<Option<FrontendEvent<J, L>>> = Seq::empty();
        let mut out: Vec<FrontendEvent<J, L>> = Vec::new();
        let mut events = events;
        let count = events.len();
        let mut k: usize = 0;
        while events.len() > 0
            invariant
                k + events@.len() == all.len(),
                all.len() == count,
                events@ == all.skip(k as int),
                core_events_run(all.take(k as int), states, results),
                states[0] == old(self)@,
                states.last() == self@,
                out@ == present_all(results),
            decreases events@.len(),
        {
            let event = events.remove(0);
            let ghost before = self@;
            let ghost current = event;
            let r = self.map_core_event(event);
            let ghost result = r;
            match r {
                Some(e) => out.push(e),
                None => {},
            }
            proof {
                let old_states = states;
                let old_results = results;
                states = states.push(self@);
                results = results.push(result);
                assert(current == all[k as int]);
                assert(results.drop_last() =~= old_results);
                assert(out@ =~= present_all(results));
                assert forall|i: int| 0 <= i < k + 1 implies #[trigger] core_event_step(
                    states[i],
                    all.take(k + 1)[i],
                    states[i + 1],
                    results[i],
                ) by {
                    if i < k {
                        assert(all.take(k + 1)[i] == all.take(k as int)[i]);
                        assert(core_event_step(old_states[i], all.take(k as int)[i], old_states[i + 1], old_results[i]));
                    }
                }
                assert(events@ =~= all.skip(k + 1));
            }
            k += 1;
        }
        proof {
            assert(all.take(k as int) =~= all);
        }
        out
    }
}

/// The event that starts message `id` with `role`.
pub open spec fn message_started<J, L>(id: u64, role: MessageRole) -> CoreEventModel<J, L> {
    CoreEventModel::MessageStarted { message_id: id, role }
}

/// The event that adds `text` to message `id`.
pub open spec fn message_text<J, L>(id: u64, text: String) -> CoreEventModel<J, L> {
    CoreEventModel::MessageDelta { message_id: id, delta: MessageDelta::Text(text) }
}

/// What text of a message with `role` is shown as.
pub open spec fn text_for_role<J, L>(role: MessageRole, text: String) -> Option<FrontendEvent<J, L>> {
    match role {
        MessageRole::User => Some(FrontendEvent::UserMessage { text }),
        MessageRole::Assistant => Some(FrontendEvent::AssistantDelta { text }),
        _ => None,
    }
}

/// An event that leaves the role recorded for `id` as it was: anything but
/// the start or the end of message `id` and the cancellation of the turn.
pub open spec fn keeps_role_of<J, L>(event: CoreEventModel<J, L>, id: u64) -> bool {
    match event {
        CoreEventModel::MessageStarted { message_id, .. } => message_id != id,
        CoreEventModel::MessageFinished { message_id } => message_id != id,
        CoreEventModel::TurnCancelled => false,
        _ => true,
    }
}

/// Once message `id` has started with `role`, its role stays recorded until
/// the message finishes, starts anew or the turn is cancelled; while it
/// stays, the message's text is a user message for a user, an assistant
/// delta for the assistant, and nothing for a tool result or a status. A
/// message whose role was never recorded yields nothing for its text.
pub proof fn lemma_message_role_persists<J, L>(
    events: Seq<CoreEventModel<J, L>>,
    states: Seq<BackendView>,
    results: Seq<Option<FrontendEvent<J, L>>>,
    id: u64,
    role: MessageRole,
)
    requires
        core_events_run(events, states, results),
        events.len() > 0,
        events[0] == message_started::<J, L>(id, role),
        forall|k: int| 1 <= k < events.len() ==> keeps_role_of(#[trigger] events[k], id),
    ensures
        role_of(states.last(), id) == Some(role),
        forall|t: BackendView, text: String, r: Option<FrontendEvent<J, L>>|
            #[trigger] core_event_step(states.last(), message_text::<J, L>(id, text), t, r) ==> r == text_for_role::<
                J,
                L,
            >(role, text),
{
    lemma_role_prefix(events, states, results, id, role, events.len() as int);
}

proof fn lemma_role_prefix<J, L>(
    events: Seq<CoreEventModel<J, L>>,
    states: Seq<BackendView>,
    results: Seq<Option<FrontendEvent<J, L>>>,
    id: u64,
    role: MessageRole,
    n: int,
)
    requires
        core_events_run(events, states, results),
        1 <= n <= events.len(),
        events[0] == message_started::<J, L>(id, role),
        forall|k: int| 1 <= k < events.len() ==> keeps_role_of(#[trigger] events[k], id),
    ensures
        role_of(states[n], id) == Some(role),
    decreases n,
{
    let i = n - 1;
    assert(core_event_step(states[i], events[i], states[i + 1], results[i]));
    assert(i + 1 == n);
    if n > 1 {
        lemma_role_prefix(events, states, results, id, role, n - 1);
        assert(keeps_role_of(events[n - 1], id));
        let s = states[n - 1];
        let t = states[n];
        match events[n - 1] {
            CoreEventModel::MessageStarted { message_id, role: other } => {
                assert(t.message_roles == s.message_roles.insert(message_id, other));
            },
            CoreEventModel::MessageFinished { message_id } => {
                assert(t.message_roles == s.message_roles.remove(message_id));
            },
            _ => {},
        }
    }
}

/// Text of a message whose role was never recorded yields nothing and
/// changes nothing.
pub proof fn lemma_unknown_message_text<J, L>(
    s: BackendView,
    id: u64,
    text: String,
    t: BackendView,
    r: Option<FrontendEvent<J, L>>,
)
    requires
        !s.message_roles.contains_key(id),
        core_event_step(s, message_text::<J, L>(id, text), t, r),
    ensures
        (r is None),
        t == s,
{
}

/// Events about tool calls, approvals, steering, failures and configuration
/// pass through: the frontend event is of the same kind and carries every
/// field of the core event unchanged (a tool result's details become
/// present details), and only the turn and configuration flags may move.
pub proof fn lemma_pass_through_events_keep_their_fields<J, L>(
    s: BackendView,
    event: CoreEventModel<J, L>,
    t: BackendView,
    r: Option<FrontendEvent<J, L>>,
)
    requires
        core_event_step(s, event, t, r),
    ensures
        event matches CoreEventModel::ToolCallFinished { tool_call_id, is_error } ==> (r matches Some(FrontendEvent::ToolCallFinished { tool_call_id: id, is_error: failed })
            && t == s && id == tool_call_id && failed == is_error),
        event matches CoreEventModel::ToolCallStarted { message_id, tool_call_id, tool_name, arguments } ==> (r matches Some(FrontendEvent::ToolCallStarted { message_id: m, tool_call_id: id, tool_name: name, arguments: a })
            && t == s && m == message_id && id == tool_call_id && name == tool_name && a == arguments),
        event matches CoreEventModel::ToolCallUpdated { message_id, tool_call_id, tool_name, update } ==> (r matches Some(FrontendEvent::ToolCallUpdated { message_id: m, tool_call_id: id, tool_name: name, update: u })
            && t == s && m == message_id && id == tool_call_id && name == tool_name && u == update),
        event matches CoreEventModel::ToolApprovalRequested { approval_id, message_id, tool_call_id, tool_name, arguments } ==> (r matches Some(FrontendEvent::ToolApprovalRequested { approval_id: ap, message_id: m, tool_call_id: id, tool_name: name, arguments: a })
            && t == s && ap == approval_id && m == message_id && id == tool_call_id && name == tool_name
            && a == arguments),
        event matches CoreEventModel::ToolApprovalResolved { approval_id, tool_call_id, approved, reason } ==> (r matches Some(FrontendEvent::ToolApprovalResolved { approval_id: ap, tool_call_id: id, approved: ok, reason: why })
            && t == s && ap == approval_id && id == tool_call_id && ok == approved && why == reason),
        event matches CoreEventModel::ToolResultFinished { tool_call_id, tool_name, text, details, is_error } ==> (r matches Some(FrontendEvent::ToolResult { tool_call_id: id, tool_name: name, text: out, details: d, is_error: failed })
            && t == s && id == tool_call_id && name == tool_name && out == text && d == Some(details)
            && failed == is_error),
        event matches CoreEventModel::SteerQueued { text } ==> (r matches Some(FrontendEvent::SteerQueued { text: out })
            && t == s && out == text),
        event matches CoreEventModel::TurnFailed { message } ==> (r matches Some(FrontendEvent::TurnFailed { message: out })
            && !t.in_flight && t.message_roles == s.message_roles
            && t.config_refresh_pending == s.config_refresh_pending && out == message),
        event matches CoreEventModel::ConfigChanged { provider, model_id, reasoning_effort } ==> (r matches Some(FrontendEvent::ConfigChanged { provider: p, model_id: m, reasoning_effort: e })
            && !t.config_refresh_pending && t.in_flight == s.in_flight && t.message_roles == s.message_roles
            && p == provider && m == model_id && e == reasoning_effort),
{
}

} // verus!
