//! Application panels: they own semantic state and rendering; placement,
//! sizing, focus and visibility belong to the containing scene.

use crate::chars::push_chars;
use crate::paste::decimal;
use crate::style::StyleSpec;
use crate::view::{Decoration, TextSpan, View, ViewKind, WidthRule};
use vstd::prelude::*;
use vstd::view::View as _;

verus! {

/// At most this many queued messages are listed; the rest are counted.
pub const MAX_PENDING_ROWS: usize = 4;

/// The messages queued for steering a running turn, oldest first.
#[derive(Debug)]
pub struct SteeringQueuePanel {
    pending: Vec<String>,
}

/// `pending` without its first element equal to `text`, if any.
pub open spec fn without_first(pending: Seq<Seq<char>>, text: Seq<char>) -> Seq<Seq<char>> {
    if exists|i: int| 0 <= i < pending.len() && pending[i] == text {
        let i = choose|i: int|
            0 <= i < pending.len() && pending[i] == text && forall|j: int| 0 <= j < i ==> pending[j] != text;
        pending.remove(i)
    } else {
        pending
    }
}

/// A view whose one text span reads `text`, filling its width.
pub open spec fn text_row(view: View, text: Seq<char>) -> bool {
    &&& view.width == WidthRule::Fill
    &&& view.kind matches ViewKind::Text(t) && t.spans@.len() == 1 && t.spans@[0].text@ == text
}

/// The text listing a queued message.
pub open spec fn steering_line(text: Seq<char>) -> Seq<char> {
    seq!['S', 't', 'e', 'e', 'r', 'i', 'n', 'g', ':', ' '] + text
}

/// The text counting `n` further queued messages.
pub open spec fn overflow_line(n: nat) -> Seq<char> {
    seq!['↑', ' '] + decimal(n) + seq![' ', 'm', 'o', 'r', 'e', ' ', 'q', 'u', 'e', 'u', 'e', 'd']
}

/// A full-width column listing the first queued messages, then a count of
/// the rest.
pub open spec fn shows_queue(view: View, queue: Seq<Seq<char>>) -> bool {
    let listed = if queue.len() > MAX_PENDING_ROWS {
        MAX_PENDING_ROWS as int
    } else {
        queue.len() as int
    };
    &&& view.width == WidthRule::Fill
    &&& view.kind matches ViewKind::Column(column) && {
        &&& column.gap == 0
        &&& column.children@.len() == if queue.len() > MAX_PENDING_ROWS {
            listed + 1
        } else {
            listed
        }
        &&& forall|i: int| 0 <= i < listed ==> text_row(#[trigger] column.children@[i], steering_line(queue[i]))
        &&& queue.len() > MAX_PENDING_ROWS ==> text_row(
            column.children@[listed],
            overflow_line((queue.len() - MAX_PENDING_ROWS) as nat),
        )
    }
}

impl SteeringQueuePanel {
    /// The queued messages, oldest first.
    pub closed spec fn queue(&self) -> Seq<Seq<char>> {
        self.pending@.map_values(|s: String| s@)
    }

    pub fn new() -> (r: Self)
        ensures
            r.queue().len() == 0,
    {
        SteeringQueuePanel { pending: Vec::new() }
    }

    /// Queues `text`.
    pub fn queued(&mut self, text: String)
        ensures
            final(self).queue() == old(self).queue().push(text@),
    {
        self.pending.push(text);
        proof {
            assert(self.queue() =~= old(self).queue().push(text@));
        }
    }

    /// Removes the first queued message equal to `text`, if any.
    pub fn delivered(&mut self, text: &str)
        ensures
            final(self).queue() == without_first(old(self).queue(), text@),
    {
        let ghost queue = self.queue();
        let wanted: String = text.to_owned();
        let mut index: usize = 0;
        while index < self.pending.len()
            invariant
                0 <= index <= self.pending@.len(),
                wanted@ == text@,
                self.pending@ == old(self).pending@,
                queue == self.queue(),
                forall|j: int| 0 <= j < index ==> queue[j] != text@,
            decreases self.pending@.len() - index,
        {
            if self.pending[index] == wanted {
                proof {
                    assert(queue[index as int] == text@);
                    let i = choose|i: int|
                        0 <= i < queue.len() && queue[i] == text@ && forall|j: int| 0 <= j < i ==> queue[j] != text@;
                    if i < index {
                    } else if i > index {
                        assert(queue[index as int] != text@);
                    }
                    assert(i == index);
                }
                self.pending.remove(index);
                proof {
                    assert(self.queue() =~= queue.remove(index as int));
                }
                return;
            }
            index += 1;
        }
    }

    /// Lists up to four queued messages, then a count of the rest; an empty
    /// queue shows nothing.
    pub fn view(&self) -> (r: View)
        ensures
            self.queue().len() == 0 ==> r == (View {
                width: WidthRule::Fit,
                decoration: Decoration::spec_default(),
                kind: ViewKind::Spacer { rows: 0 },
            }),
            self.queue().len() > 0 ==> shows_queue(r, self.queue()),
    {
        if self.pending.len() == 0 {
            return View::spacer(0);
        }
        let ghost queue = self.queue();
        let mut rows: Vec<View> = Vec::new();
        let mut index: usize = 0;
        while index < self.pending.len() && index < MAX_PENDING_ROWS
            invariant
                0 <= index <= self.pending@.len(),
                index <= MAX_PENDING_ROWS,
                queue == self.queue(),
                rows@.len() == index,
                forall|i: int| 0 <= i < index ==> text_row(#[trigger] rows@[i], steering_line(queue[i])),
            decreases self.pending@.len() - index,
        {
            let mut line = String::new();
            let label = vec!['S', 't', 'e', 'e', 'r', 'i', 'n', 'g', ':', ' '];
            push_chars(&mut line, &label);
            line.append(self.pending[index].as_str());
            proof {
                assert(label@ =~= seq!['S', 't', 'e', 'e', 'r', 'i', 'n', 'g', ':', ' ']);
                assert(line@ =~= steering_line(queue[index as int]));
            }
            rows.push(filled_text(line));
            index += 1;
        }
        let overflow = if self.pending.len() > MAX_PENDING_ROWS {
            self.pending.len() - MAX_PENDING_ROWS
        } else {
            0
        };
        if overflow > 0 {
            let mut line = String::new();
            let arrow = vec!['↑', ' '];
            push_chars(&mut line, &arrow);
            crate::paste::push_decimal(&mut line, overflow as u64);
            let tail = vec![' ', 'm', 'o', 'r', 'e', ' ', 'q', 'u', 'e', 'u', 'e', 'd'];
            push_chars(&mut line, &tail);
            proof {
                assert(line@ =~= overflow_line(overflow as nat));
            }
            rows.push(filled_text(line));
        }
        View::column(rows, 0).fill_width()
    }
}

/// One plain text span filling its width.
fn filled_text(text: String) -> (r: View)
    ensures
        text_row(r, text@),
{
    let mut spans: Vec<TextSpan> = Vec::new();
    spans.push(TextSpan { text, style: StyleSpec::new() });
    View::styled_text(spans).fill_width().into_canonical_view()
}

impl Default for SteeringQueuePanel {
    fn default() -> (r: Self)
        ensures
            r.queue().len() == 0,
    {
        SteeringQueuePanel::new()
    }
}

} // verus!
