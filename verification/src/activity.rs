//! The live activity row of a conversation: a working spinner, or one tool
//! call with its status, its latest progress detail and, while the call
//! awaits approval, the decision the user takes on it.
//!
//! Tool arguments are only carried along: they are the type parameter `J`.

use vstd::prelude::*;

verus! {

/// Where a tool call stands in the timeline.
#[derive(Debug, Clone, Copy, PartialEq, Eq, Structural)]
pub enum ToolTimelineStatus {
    Running,
    PendingApproval,
    Approved,
    Rejected,
    Finished,
    Failed,
}

/// What the activity row shows.
#[derive(Debug, Clone)]
pub enum ActivityState<J> {
    /// The agent is working; `frame` selects the spinner glyph.
    Working { frame: usize },
    /// One tool call.
    Tool { tool_call_id: String, tool_name: String, arguments: J, status: ToolTimelineStatus, detail: Option<String> },
}

/// The user's decision on a tool call that awaited approval.
#[derive(Debug, Clone, PartialEq, Eq)]
pub struct ApprovalDecision {
    pub approval_id: u64,
    pub tool_call_id: String,
    pub approved: bool,
}

/// A finished tool call, as the timeline keeps it.
#[derive(Debug, Clone)]
pub struct ToolTimelineItem<J> {
    pub tool_call_id: String,
    pub tool_name: String,
    pub arguments: J,
    pub status: ToolTimelineStatus,
}

/// A key, as far as the approval prompt tells keys apart.
#[derive(Debug, Clone, Copy, PartialEq, Eq, Structural)]
pub enum ActivityKey {
    Enter,
    Escape,
    Char(char),
    Other,
}

/// What a key asks of a tool call that awaits approval.
#[derive(Debug, Clone, Copy, PartialEq, Eq, Structural)]
pub enum ActivityCommand {
    Approve,
    Reject,
}

/// The activity row's state, and the approval it waits for, if any.
#[derive(Debug)]
pub struct ConversationActivity<J> {
    pub state: ActivityState<J>,
    pub approval_id: Option<u64>,
}

/// The frame after `frame`, wrapping around at the largest one.
pub open spec fn next_frame(frame: usize) -> usize {
    if frame == usize::MAX {
        0
    } else {
        (frame + 1) as usize
    }
}

impl<J> ConversationActivity<J> {
    /// The working spinner at its first frame.
    pub fn working() -> (r: Self)
        ensures
            r.state == (ActivityState::<J>::Working { frame: 0 }),
            (r.approval_id is None),
    {
        ConversationActivity { state: ActivityState::Working { frame: 0 }, approval_id: None }
    }

    /// A tool call, with no progress detail yet.
    pub fn tool(
        tool_call_id: String,
        tool_name: String,
        arguments: J,
        status: ToolTimelineStatus,
        approval_id: Option<u64>,
    ) -> (r: Self)
        ensures
            r.state == (ActivityState::Tool { tool_call_id, tool_name, arguments, status, detail: None }),
            r.approval_id == approval_id,
    {
        ConversationActivity {
            state: ActivityState::Tool { tool_call_id, tool_name, arguments, status, detail: None },
            approval_id,
        }
    }

    /// Turns the row into a tool call, with no progress detail yet.
    pub fn transition_to_tool(
        &mut self,
        tool_call_id: String,
        tool_name: String,
        arguments: J,
        status: ToolTimelineStatus,
        approval_id: Option<u64>,
    )
        ensures
            final(self).state == (ActivityState::Tool { tool_call_id, tool_name, arguments, status, detail: None }),
            final(self).approval_id == approval_id,
    {
        self.state = ActivityState::Tool { tool_call_id, tool_name, arguments, status, detail: None };
        self.approval_id = approval_id;
    }

    /// Replaces a tool call's progress detail; a working row is unchanged.
    pub fn update_tool(&mut self, update: Option<String>)
        ensures
            final(self).approval_id == old(self).approval_id,
            final(self).state == match old(self).state {
                ActivityState::Tool { tool_call_id, tool_name, arguments, status, .. } => ActivityState::Tool {
                    tool_call_id,
                    tool_name,
                    arguments,
                    status,
                    detail: update,
                },
                working => working,
            },
    {
        if let ActivityState::Tool { detail, .. } = &mut self.state {
            *detail = update;
        }
    }

    /// Sets a tool call's status and the approval it waits for; a working
    /// row is unchanged.
    pub fn set_status(&mut self, status: ToolTimelineStatus, approval_id: Option<u64>)
        ensures
            final(self).state == match old(self).state {
                ActivityState::Tool { tool_call_id, tool_name, arguments, detail, .. } => ActivityState::Tool {
                    tool_call_id,
                    tool_name,
                    arguments,
                    status,
                    detail,
                },
                working => working,
            },
            final(self).approval_id == if old(self).state is Tool {
                approval_id
            } else {
                old(self).approval_id
            },
    {
        if let ActivityState::Tool { status: current, .. } = &mut self.state {
            *current = status;
            self.approval_id = approval_id;
        }
    }

    /// Advances the spinner; only a working row animates.
    pub fn tick(&mut self) -> (r: bool)
        ensures
            r == (old(self).state is Working),
            final(self).approval_id == old(self).approval_id,
            final(self).state == match old(self).state {
                ActivityState::Working { frame } => ActivityState::<J>::Working { frame: next_frame(frame) },
                tool => tool,
            },
    {
        if let ActivityState::Working { frame } = &mut self.state {
            *frame = if *frame == usize::MAX {
                0
            } else {
                *frame + 1
            };
            return true;
        }
        false
    }

    /// What `key`, pressed with `plain` telling that no modifier was held,
    /// asks of the row: Enter or `y` approve and Escape or `n` reject while
    /// an approval is awaited; anything else asks nothing.
    pub fn map_key(&self, key: ActivityKey, plain: bool) -> (r: Option<ActivityCommand>)
        ensures
            r == if self.approval_id is None || !plain {
                None
            } else {
                match key {
                    ActivityKey::Enter | ActivityKey::Char('y') => Some(ActivityCommand::Approve),
                    ActivityKey::Escape | ActivityKey::Char('n') => Some(ActivityCommand::Reject),
                    _ => None,
                }
            },
    {
        if self.approval_id.is_none() || !plain {
            return None;
        }
        match key {
            ActivityKey::Enter => Some(ActivityCommand::Approve),
            ActivityKey::Escape => Some(ActivityCommand::Reject),
            ActivityKey::Char(c) => {
                if c == 'y' {
                    Some(ActivityCommand::Approve)
                } else if c == 'n' {
                    Some(ActivityCommand::Reject)
                } else {
                    None
                }
            },
            ActivityKey::Other => None,
        }
    }

    /// Carries out `command` on a tool call that awaits approval: the
    /// approval is no longer awaited, the call is marked approved or
    /// rejected, and the decision is returned to be sent on. Otherwise the
    /// command is ignored (`None`) and nothing changes.
    pub fn handle_command(&mut self, command: ActivityCommand) -> (r: Option<ApprovalDecision>)
        ensures
            match (old(self).approval_id, old(self).state) {
                (Some(approval_id), ActivityState::Tool { tool_call_id, tool_name, arguments, detail, .. }) => {
                    &&& r == Some(
                        ApprovalDecision { approval_id, tool_call_id, approved: command == ActivityCommand::Approve },
                    )
                    &&& final(self).approval_id is None
                    &&& final(self).state == ActivityState::Tool {
                        tool_call_id,
                        tool_name,
                        arguments,
                        status: if command == ActivityCommand::Approve {
                            ToolTimelineStatus::Approved
                        } else {
                            ToolTimelineStatus::Rejected
                        },
                        detail,
                    }
                },
                _ => r is None && *final(self) == *old(self),
            },
    {
        let approval_id = match self.approval_id {
            Some(id) => id,
            None => {
                return None;
            },
        };
        let tool_call_id = match &self.state {
            ActivityState::Tool { tool_call_id, .. } => tool_call_id.clone(),
            ActivityState::Working { .. } => {
                return None;
            },
        };
        self.approval_id = None;
        let approved = match command {
            ActivityCommand::Approve => true,
            ActivityCommand::Reject => false,
        };
        self.set_status(
            if approved {
                ToolTimelineStatus::Approved
            } else {
                ToolTimelineStatus::Rejected
            },
            None,
        );
        Some(ApprovalDecision { approval_id, tool_call_id, approved })
    }
}

impl<J: Clone> ConversationActivity<J> {
    /// The timeline item a tool call leaves when it ends, failed or
    /// finished; a working row leaves none.
    pub fn final_item(&self, is_error: bool) -> (r: Option<ToolTimelineItem<J>>)
        ensures
            match self.state {
                ActivityState::Tool { tool_call_id, tool_name, arguments, .. } => r matches Some(item) && item.tool_call_id
                    == tool_call_id && item.tool_name == tool_name && cloned(arguments, item.arguments) && item.status
                    == if is_error {
                    ToolTimelineStatus::Failed
                } else {
                    ToolTimelineStatus::Finished
                },
                ActivityState::Working { .. } => r is None,
            },
    {
        match &self.state {
            ActivityState::Tool { tool_call_id, tool_name, arguments, .. } => Some(
                ToolTimelineItem {
                    tool_call_id: tool_call_id.clone(),
                    tool_name: tool_name.clone(),
                    arguments: arguments.clone(),
                    status: if is_error {
                        ToolTimelineStatus::Failed
                    } else {
                        ToolTimelineStatus::Finished
                    },
                },
            ),
            ActivityState::Working { .. } => None,
        }
    }
}

} // verus!
