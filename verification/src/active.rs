//! Transient active-pane chrome: the working spinner and tool status shown
//! while a turn runs.

use crate::chars::push_chars;
use crate::style::StyleSpec;
use crate::view::{Decoration, TextSpan, View, ViewKind, WidthRule};
use vstd::prelude::*;
use vstd::view::View as _;

verus! {

/// The number of spinner frames.
pub const SPINNER_FRAME_COUNT: usize = 10;

/// The glyph of spinner frame `index`, for `index` below the frame count.
pub open spec fn frame_glyph(index: int) -> Seq<char> {
    if index == 0 {
        "⠋"@
    } else if index == 1 {
        "⠙"@
    } else if index == 2 {
        "⠹"@
    } else if index == 3 {
        "⠸"@
    } else if index == 4 {
        "⠼"@
    } else if index == 5 {
        "⠴"@
    } else if index == 6 {
        "⠦"@
    } else if index == 7 {
        "⠧"@
    } else if index == 8 {
        "⠇"@
    } else {
        "⠏"@
    }
}

fn spinner_glyph(index: usize) -> (r: &'static str)
    requires
        index < SPINNER_FRAME_COUNT,
    ensures
        r@ == frame_glyph(index as int),
{
    match index {
        0 => "⠋",
        1 => "⠙",
        2 => "⠹",
        3 => "⠸",
        4 => "⠼",
        5 => "⠴",
        6 => "⠦",
        7 => "⠧",
        8 => "⠇",
        _ => "⠏",
    }
}

/// A tool's place in its lifecycle while it is the active pane.
#[derive(Debug, Clone, Copy, PartialEq, Eq, Structural)]
pub enum ToolActiveStatus {
    WaitingForApproval { approval_id: u64 },
    Running,
}

/// Transient active-pane chrome. Assistant content is owned by the hosted
/// stream, not by this state.
#[derive(Debug, Clone)]
pub enum ActivePaneState {
    WorkingSpinner { spinner_frame: usize },
    Tool { tool_name: String, status: ToolActiveStatus, detail: Option<String> },
    SlashMenu,
    FilePicker,
}

/// Which kind of active pane is shown.
#[derive(Debug, Clone, Copy, PartialEq, Eq, Structural)]
pub enum ActivePaneKind {
    WorkingSpinner,
    Tool,
    SlashMenu,
    FilePicker,
}

/// What happens to an active pane when the turn ends.
#[derive(Debug, Clone, Copy, PartialEq, Eq, Structural)]
pub enum ActiveBehavior {
    SpillToTranscript,
    OccludeOnly,
}

/// A plain text view of `text`: one unstyled span, fitting its content.
pub open spec fn plain_text_view(view: View, text: Seq<char>) -> bool {
    &&& view.width == WidthRule::Fit
    &&& view.decoration == Decoration::spec_default()
    &&& view.kind matches ViewKind::Text(t) && t.spans@.len() == 1 && t.spans@[0].text@ == text
        && t.spans@[0].style == StyleSpec::spec_empty()
}

pub open spec fn spacer_view(rows: u16) -> View {
    View { width: WidthRule::Fit, decoration: Decoration::spec_default(), kind: ViewKind::Spacer { rows } }
}

impl ActivePaneState {
    pub open spec fn spec_kind(&self) -> ActivePaneKind {
        match self {
            ActivePaneState::WorkingSpinner { .. } => ActivePaneKind::WorkingSpinner,
            ActivePaneState::Tool { .. } => ActivePaneKind::Tool,
            ActivePaneState::SlashMenu => ActivePaneKind::SlashMenu,
            ActivePaneState::FilePicker => ActivePaneKind::FilePicker,
        }
    }

    /// The current spinner frame index (zero for other panes).
    pub open spec fn frame_index(&self) -> int {
        match self {
            ActivePaneState::WorkingSpinner { spinner_frame } => (*spinner_frame % SPINNER_FRAME_COUNT) as int,
            _ => 0,
        }
    }

    pub fn working_spinner() -> (r: Self)
        ensures
            r == (ActivePaneState::WorkingSpinner { spinner_frame: 0 }),
    {
        ActivePaneState::WorkingSpinner { spinner_frame: 0 }
    }

    pub fn kind(&self) -> (r: ActivePaneKind)
        ensures
            r == self.spec_kind(),
    {
        match self {
            ActivePaneState::WorkingSpinner { .. } => ActivePaneKind::WorkingSpinner,
            ActivePaneState::Tool { .. } => ActivePaneKind::Tool,
            ActivePaneState::SlashMenu => ActivePaneKind::SlashMenu,
            ActivePaneState::FilePicker => ActivePaneKind::FilePicker,
        }
    }

    /// Only the working spinner spills into the transcript; the other panes
    /// only occlude.
    pub fn behavior(&self) -> (r: ActiveBehavior)
        ensures
            r == (if self is WorkingSpinner {
                ActiveBehavior::SpillToTranscript
            } else {
                ActiveBehavior::OccludeOnly
            }),
    {
        match self {
            ActivePaneState::WorkingSpinner { .. } => ActiveBehavior::SpillToTranscript,
            _ => ActiveBehavior::OccludeOnly,
        }
    }

    pub fn desired_height(&self) -> (r: u16)
        ensures
            r == 3,
    {
        3
    }

    /// Advances the spinner by one frame; other panes are unchanged.
    pub fn tick(&mut self)
        ensures
            final(self).spec_ticked(*old(self)),
    {
        if let ActivePaneState::WorkingSpinner { spinner_frame } = self {
            *spinner_frame = spinner_frame.wrapping_add(1);
        }
    }

    /// The glyph of the current spinner frame.
    pub fn spinner_frame(&self) -> (r: &'static str)
        ensures
            r@ == frame_glyph(self.frame_index()),
    {
        let frame = match self {
            ActivePaneState::WorkingSpinner { spinner_frame } => *spinner_frame,
            _ => 0,
        };
        spinner_glyph(frame % SPINNER_FRAME_COUNT)
    }

    /// The pane's view: the spinner with its label between blank rows, the
    /// tool's status line and detail, or a blank row.
    pub fn view(&self) -> (r: View)
        ensures
            match self {
                ActivePaneState::WorkingSpinner { .. } => r.kind matches ViewKind::Column(column) && column.gap == 0
                    && column.children@.len() == 3 && column.children@[0] == spacer_view(1)
                    && plain_text_view(
                    column.children@[1],
                    frame_glyph(self.frame_index()) + seq![' ', 'W', 'o', 'r', 'k', 'i', 'n', 'g'],
                ) && column.children@[2] == spacer_view(1),
                ActivePaneState::Tool { tool_name, status, detail } => r.kind matches ViewKind::Column(column)
                    && column.gap == 0 && column.children@.len() == 3 && column.children@[0] == spacer_view(1)
                    && plain_text_view(
                    column.children@[1],
                    seq!['t', 'o', 'o', 'l', ' '] + tool_name@ + seq![':', ' '] + match status {
                        ToolActiveStatus::WaitingForApproval { .. } => "approval required"@,
                        ToolActiveStatus::Running => "running"@,
                    },
                ) && plain_text_view(
                    column.children@[2],
                    match detail {
                        Some(d) => d@,
                        None => Seq::empty(),
                    },
                ),
                _ => r == spacer_view(1),
            },
    {
        match self {
            ActivePaneState::WorkingSpinner { spinner_frame } => {
                let mut label = String::new();
                label.append(spinner_glyph(*spinner_frame % SPINNER_FRAME_COUNT));
                let working = vec![' ', 'W', 'o', 'r', 'k', 'i', 'n', 'g'];
                push_chars(&mut label, &working);
                let mut children: Vec<View> = Vec::new();
                children.push(View::spacer(1));
                children.push(plain_text(label));
                children.push(View::spacer(1));
                proof {
                    assert(working@ =~= seq![' ', 'W', 'o', 'r', 'k', 'i', 'n', 'g']);
                }
                View::column(children, 0)
            },
            ActivePaneState::Tool { tool_name, status, detail } => {
                let status_text = match status {
                    ToolActiveStatus::WaitingForApproval { .. } => "approval required",
                    ToolActiveStatus::Running => "running",
                };
                let mut line = String::new();
                let tool = vec!['t', 'o', 'o', 'l', ' '];
                push_chars(&mut line, &tool);
                line.append(tool_name.as_str());
                let separator = vec![':', ' '];
                push_chars(&mut line, &separator);
                line.append(status_text);
                let detail_text: String = match detail {
                    Some(d) => d.clone(),
                    None => String::new(),
                };
                let mut children: Vec<View> = Vec::new();
                children.push(View::spacer(1));
                children.push(plain_text(line));
                children.push(plain_text(detail_text));
                proof {
                    assert(tool@ =~= seq!['t', 'o', 'o', 'l', ' ']);
                    assert(separator@ =~= seq![':', ' ']);
                }
                View::column(children, 0)
            },
            _ => View::spacer(1),
        }
    }
}

/// One plain text span.
fn plain_text(text: String) -> (r: View)
    ensures
        plain_text_view(r, text@),
{
    let mut spans: Vec<TextSpan> = Vec::new();
    spans.push(TextSpan { text, style: StyleSpec::new() });
    View::styled_text(spans).into_canonical_view()
}

/// Whether the spinner should animate: only the working spinner does.
pub fn is_spinner_animating(active: Option<&ActivePaneState>) -> (r: bool)
    ensures
        r == is_animating_pane(active),
{
    match active {
        Some(state) => state.kind() == ActivePaneKind::WorkingSpinner,
        None => false,
    }
}

/// Paces the spinner animation. Instants are nanoseconds on one monotonic
/// clock; intervals and timeouts are nanoseconds.
#[derive(Debug)]
pub struct ActiveTicker {
    interval: u64,
    next_tick: u64,
    animating: bool,
}

impl ActiveTicker {
    pub closed spec fn spec_interval(&self) -> u64 {
        self.interval
    }

    pub closed spec fn spec_next_tick(&self) -> u64 {
        self.next_tick
    }

    pub closed spec fn spec_animating(&self) -> bool {
        self.animating
    }

    /// A ticker whose first tick is one interval after `now`.
    pub fn new(interval: u64, now: u64) -> (r: Self)
        requires
            now + interval <= u64::MAX,
        ensures
            r.spec_interval() == interval,
            r.spec_next_tick() == now + interval,
            !r.spec_animating(),
    {
        ActiveTicker { interval, next_tick: now + interval, animating: false }
    }

    /// The instant at which the next frame is due.
    pub fn next_tick(&self) -> (r: u64)
        ensures
            r == self.spec_next_tick(),
    {
        self.next_tick
    }

    /// Whether the ticker is currently pacing an animation.
    pub fn is_animating(&self) -> (r: bool)
        ensures
            r == self.spec_animating(),
    {
        self.animating
    }

    /// How long the event loop may wait: the idle timeout when nothing
    /// animates, else the time left until the next frame. An animation that
    /// starts now gets its first frame one interval from now.
    pub fn wait_timeout(&mut self, now: u64, active: Option<&ActivePaneState>, idle_timeout: u64) -> (r: u64)
        requires
            now + old(self).spec_interval() <= u64::MAX,
        ensures
            final(self).spec_interval() == old(self).spec_interval(),
            !is_animating_pane(active) ==> {
                &&& r == idle_timeout
                &&& !final(self).spec_animating()
                &&& final(self).spec_next_tick() == now + old(self).spec_interval()
            },
            is_animating_pane(active) ==> {
                &&& final(self).spec_animating()
                &&& final(self).spec_next_tick() == (if old(self).spec_animating() {
                    old(self).spec_next_tick() as int
                } else {
                    now + old(self).spec_interval()
                })
                &&& r == (if final(self).spec_next_tick() > now {
                    final(self).spec_next_tick() - now
                } else {
                    0
                })
            },
    {
        if !is_spinner_animating(active) {
            self.animating = false;
            self.next_tick = now + self.interval;
            return idle_timeout;
        }
        if !self.animating {
            self.animating = true;
            self.next_tick = now + self.interval;
        }
        if self.next_tick > now {
            self.next_tick - now
        } else {
            0
        }
    }

    /// Advances the working spinner when its frame is due. Returns whether it
    /// advanced; any other pane, or none, resets the pacing.
    pub fn tick_if_due(&mut self, now: u64, active: &mut Option<ActivePaneState>) -> (r: bool)
        requires
            now + old(self).spec_interval() <= u64::MAX,
        ensures
            final(self).spec_interval() == old(self).spec_interval(),
            !holds_animating_pane(*old(active)) ==> {
                &&& !r
                &&& !final(self).spec_animating()
                &&& final(self).spec_next_tick() == now + old(self).spec_interval()
                &&& *final(active) == *old(active)
            },
            holds_animating_pane(*old(active)) && now < old(self).spec_next_tick() ==> {
                &&& !r
                &&& *final(self) == *old(self)
                &&& *final(active) == *old(active)
            },
            holds_animating_pane(*old(active)) && now >= old(self).spec_next_tick() ==> {
                &&& r
                &&& final(self).spec_animating() == old(self).spec_animating()
                &&& final(self).spec_next_tick() == now + old(self).spec_interval()
                &&& final(active).is_some()
                &&& final(active).unwrap().spec_ticked(old(active).unwrap())
            },
    {
        match active {
            Some(state) => {
                if state.kind() != ActivePaneKind::WorkingSpinner {
                    self.animating = false;
                    self.next_tick = now + self.interval;
                    return false;
                }
                if now < self.next_tick {
                    return false;
                }
                state.tick();
                self.next_tick = now + self.interval;
                true
            },
            None => {
                self.animating = false;
                self.next_tick = now + self.interval;
                false
            },
        }
    }
}

/// Whether `active` is a working spinner, the one pane that animates.
pub open spec fn is_animating_pane(active: Option<&ActivePaneState>) -> bool {
    active matches Some(state) && state.spec_kind() == ActivePaneKind::WorkingSpinner
}

/// Whether the held pane is a working spinner.
pub open spec fn holds_animating_pane(active: Option<ActivePaneState>) -> bool {
    active matches Some(state) && state.spec_kind() == ActivePaneKind::WorkingSpinner
}

impl ActivePaneState {
    /// `self` is `before` advanced by one spinner frame.
    pub open spec fn spec_ticked(&self, before: ActivePaneState) -> bool {
        *self == (match before {
            ActivePaneState::WorkingSpinner { spinner_frame } => ActivePaneState::WorkingSpinner {
                spinner_frame: if spinner_frame == usize::MAX {
                    0
                } else {
                    (spinner_frame + 1) as usize
                },
            },
            other => other,
        })
    }
}

} // verus!
