//! The decisions of a prompt run: the turn counter, when text output needs
//! a line break, the collected reply text, and the token usage summed over
//! a run and added to the session.
use vstd::prelude::*;

use crate::message::{
    preview_of, tool_result_preview, usage_fits, usage_sum, AgentMessage, Message, ToolResult, Usage,
};
use crate::text::{append_chars, chars_of, dec, decimal, string_of};

verus! {

/// The text shown before turn `n` of a run: nothing for the first turn.
pub open spec fn turn_indicator(n: nat) -> Option<Seq<char>> {
    if n >= 2 {
        Some("\u{1b}[2m  turn "@ + dec(n) + "\u{1b}[0m"@)
    } else {
        None
    }
}

/// Formats the turn indicator for `turn_count`; `None` for turn 1 (and 0).
pub fn format_turn_indicator(turn_count: usize) -> (r: Option<String>)
    ensures
        match r {
            Some(s) => turn_indicator(turn_count as nat) == Some(s@),
            None => turn_indicator(turn_count as nat) is None,
        },
{
    if turn_count >= 2 {
        let mut v = chars_of("\u{1b}[2m  turn ");
        let d = decimal(turn_count as u64);
        append_chars(&mut v, d.as_slice());
        let tail = chars_of("\u{1b}[0m");
        append_chars(&mut v, tail.as_slice());
        Some(string_of(v.as_slice()))
    } else {
        None
    }
}

/// The state a prompt run keeps while it handles the agent's events.
pub struct PromptState {
    /// Turns started so far.
    pub turn_count: usize,
    /// Streamed reply text is being printed on the current line.
    pub in_text: bool,
    /// All reply text streamed so far.
    pub collected_text: String,
    /// Usage summed over the run's assistant messages.
    pub last_usage: Usage,
}

/// What a turn start shows.
pub struct TurnStart {
    /// A line break is due before the indicator.
    pub newline: bool,
    /// The indicator line, if any.
    pub indicator: Option<String>,
}

impl PromptState {
    /// The state at the start of a run.
    pub fn new() -> (s: PromptState)
        ensures
            s.turn_count == 0,
            !s.in_text,
            s.collected_text@ == Seq::<char>::empty(),
            s.last_usage == (Usage { input: 0, output: 0, cache_read: 0, cache_write: 0 }),
    {
        PromptState {
            turn_count: 0,
            in_text: false,
            collected_text: String::new(),
            last_usage: Usage::zero(),
        }
    }

    /// A new turn starts: count it; from the second turn on, end any text
    /// line and show the indicator.
    pub fn turn_start(&mut self) -> (r: TurnStart)
        requires
            old(self).turn_count < usize::MAX,
        ensures
            final(self).turn_count == old(self).turn_count + 1,
            r.newline == (final(self).turn_count >= 2 && old(self).in_text),
            final(self).in_text == (old(self).in_text && final(self).turn_count < 2),
            match r.indicator {
                Some(s) => turn_indicator(final(self).turn_count as nat) == Some(s@),
                None => turn_indicator(final(self).turn_count as nat) is None,
            },
            final(self).collected_text@ == old(self).collected_text@,
            final(self).last_usage == old(self).last_usage,
    {
        self.turn_count = self.turn_count + 1;
        let mut newline = false;
        if self.turn_count >= 2 && self.in_text {
            newline = true;
            self.in_text = false;
        }
        TurnStart { newline, indicator: format_turn_indicator(self.turn_count) }
    }

    /// Other output follows: end the text line if one is open. Returns
    /// whether a line break is due.
    pub fn end_text(&mut self) -> (newline: bool)
        ensures
            newline == old(self).in_text,
            !final(self).in_text,
            final(self).turn_count == old(self).turn_count,
            final(self).collected_text@ == old(self).collected_text@,
            final(self).last_usage == old(self).last_usage,
    {
        let newline = self.in_text;
        self.in_text = false;
        newline
    }

    /// A piece of reply text arrives: it is collected and printed, after a
    /// line break if no text line is open. Returns whether the break is due.
    pub fn text_delta(&mut self, delta: &str) -> (newline: bool)
        ensures
            newline == !old(self).in_text,
            final(self).in_text,
            final(self).collected_text@ == old(self).collected_text@ + delta@,
            final(self).turn_count == old(self).turn_count,
            final(self).last_usage == old(self).last_usage,
    {
        let newline = !self.in_text;
        self.in_text = true;
        self.collected_text.append(delta);
        newline
    }

    /// An assistant message of the finished run reports its usage.
    pub fn add_usage(&mut self, usage: &Usage)
        requires
            usage_fits(old(self).last_usage, *usage),
        ensures
            final(self).last_usage == usage_sum(old(self).last_usage, *usage),
            final(self).turn_count == old(self).turn_count,
            final(self).in_text == old(self).in_text,
            final(self).collected_text@ == old(self).collected_text@,
    {
        self.last_usage.add(usage);
    }
}

/// The usage a message reports: an assistant message's own, none otherwise.
pub open spec fn usage_of(m: AgentMessage) -> Usage {
    match m {
        AgentMessage::Llm(Message::Assistant { usage, .. }) => usage,
        _ => Usage { input: 0, output: 0, cache_read: 0, cache_write: 0 },
    }
}

/// `start` plus the usage of every message of `msgs`.
pub open spec fn summed(start: Usage, msgs: Seq<AgentMessage>) -> Usage
    decreases msgs.len(),
{
    if msgs.len() == 0 {
        start
    } else {
        usage_sum(summed(start, msgs.drop_last()), usage_of(msgs.last()))
    }
}

/// Adding up the usage of `msgs` onto `start` stays within range at every step.
pub open spec fn summed_fits(start: Usage, msgs: Seq<AgentMessage>) -> bool
    decreases msgs.len(),
{
    if msgs.len() == 0 {
        true
    } else {
        summed_fits(start, msgs.drop_last()) && usage_fits(
            summed(start, msgs.drop_last()),
            usage_of(msgs.last()),
        )
    }
}

/// The error shown for a message: that of an assistant message which
/// stopped on an error and carries a message.
pub open spec fn error_of(m: AgentMessage) -> Option<Seq<char>> {
    match m {
        AgentMessage::Llm(Message::Assistant { stopped_on_error, error_message, .. }) => {
            if stopped_on_error {
                match error_message {
                    Some(e) => Some(e@),
                    None => None,
                }
            } else {
                None
            }
        },
        _ => None,
    }
}

/// The errors shown at the end of a run, in message order.
pub open spec fn shown_errors(msgs: Seq<AgentMessage>) -> Seq<Seq<char>>
    decreases msgs.len(),
{
    if msgs.len() == 0 {
        seq![]
    } else {
        match error_of(msgs.last()) {
            Some(e) => shown_errors(msgs.drop_last()).push(e),
            None => shown_errors(msgs.drop_last()),
        }
    }
}

/// What the end of a run shows.
pub struct RunEnd {
    /// A line break is due before the first error.
    pub newline: bool,
    /// The errors to show, in order.
    pub errors: Vec<String>,
}

impl PromptState {
    /// The run ended with `messages`: sum the usage of every assistant
    /// message, and collect the errors to show.
    pub fn agent_end(&mut self, messages: &[AgentMessage]) -> (r: RunEnd)
        requires
            summed_fits(old(self).last_usage, messages@),
        ensures
            final(self).last_usage == summed(old(self).last_usage, messages@),
            r.errors@.len() == shown_errors(messages@).len(),
            forall|i: int|
                0 <= i < r.errors@.len() ==> #[trigger] r.errors@[i]@ == shown_errors(
                    messages@,
                )[i],
            r.newline == (old(self).in_text && r.errors@.len() > 0),
            final(self).in_text == (old(self).in_text && r.errors@.len() == 0),
            final(self).turn_count == old(self).turn_count,
            final(self).collected_text@ == old(self).collected_text@,
    {
        let ghost start = self.last_usage;
        let mut errors: Vec<String> = Vec::new();
        let mut newline = false;
        let mut i: usize = 0;
        let n = messages.len();
        assert(messages@.take(0) == Seq::<AgentMessage>::empty());
        while i < n
            invariant
                n == messages@.len(),
                0 <= i <= n,
                summed_fits(start, messages@),
                self.last_usage == summed(start, messages@.take(i as int)),
                errors@.len() == shown_errors(messages@.take(i as int)).len(),
                forall|k: int|
                    0 <= k < errors@.len() ==> #[trigger] errors@[k]@ == shown_errors(
                        messages@.take(i as int),
                    )[k],
                newline == (old(self).in_text && errors@.len() > 0),
                self.in_text == (old(self).in_text && errors@.len() == 0),
                self.turn_count == old(self).turn_count,
                self.collected_text@ == old(self).collected_text@,
            decreases n - i,
        {
            let ghost pre = messages@.take(i as int);
            let ghost post = messages@.take(i + 1);
            proof {
                assert(post.drop_last() == pre);
                assert(post.last() == messages@[i as int]);
                lemma_summed_fits_prefix(start, messages@, i + 1);
            }
            match &messages[i] {
                AgentMessage::Llm(Message::Assistant { usage, stopped_on_error, error_message, .. }) => {
                    self.last_usage.add(usage);
                    if *stopped_on_error {
                        match error_message {
                            Some(e) => {
                                if self.in_text {
                                    newline = true;
                                    self.in_text = false;
                                }
                                let ghost before = errors@;
                                errors.push(e.as_str().to_owned());
                                assert(errors@ == before.push(errors@.last()));
                            },
                            None => {},
                        }
                    }
                },
                _ => {
                    assert(usage_sum(self.last_usage, usage_of(messages@[i as int])) == self.last_usage);
                },
            }
            i = i + 1;
        }
        assert(messages@.take(n as int) == messages@);
        RunEnd { newline, errors }
    }
}

/// Adding up over a prefix stays within range when the whole does.
pub proof fn lemma_summed_fits_prefix(start: Usage, msgs: Seq<AgentMessage>, j: int)
    requires
        0 <= j <= msgs.len(),
        summed_fits(start, msgs),
    ensures
        summed_fits(start, msgs.take(j)),
    decreases msgs.len(),
{
    if j == msgs.len() {
        assert(msgs.take(j) == msgs);
    } else {
        assert(msgs.take(j) == msgs.drop_last().take(j));
        lemma_summed_fits_prefix(start, msgs.drop_last(), j);
    }
}

/// The preview shown when a tool run ends: for a failed run, and for a
/// successful one in verbose mode, the first line of its output cut to 200
/// characters, when there is any.
pub fn tool_end_preview(result: &ToolResult, is_error: bool, verbose: bool) -> (r: Option<String>)
    ensures
        match r {
            Some(p) => (is_error || verbose) && p@ == preview_of(result.content@, 200) && p@.len()
                > 0,
            None => !(is_error || verbose) || preview_of(result.content@, 200).len() == 0,
        },
{
    if is_error || verbose {
        let preview = tool_result_preview(result, 200);
        if preview.as_str().is_empty() {
            None
        } else {
            Some(preview)
        }
    } else {
        None
    }
}

/// The preview streamed for a partial tool result: its first line cut to
/// 500 characters, when there is any.
pub fn tool_update_preview(partial: &ToolResult) -> (r: Option<String>)
    ensures
        match r {
            Some(p) => p@ == preview_of(partial.content@, 500) && p@.len() > 0,
            None => preview_of(partial.content@, 500).len() == 0,
        },
{
    let preview = tool_result_preview(partial, 500);
    if preview.as_str().is_empty() {
        None
    } else {
        Some(preview)
    }
}


/// The number of indicators shown over turns `1..=n`.
pub open spec fn indicators_shown(n: nat) -> nat
    decreases n,
{
    if n == 0 {
        0
    } else {
        indicators_shown((n - 1) as nat) + if turn_indicator(n) is Some {
            1nat
        } else {
            0nat
        }
    }
}

/// The first turn of a run is never announced; every later one is.
pub proof fn law_turn_indicators(n: nat)
    requires
        n >= 1,
    ensures
        indicators_shown(n) == n - 1,
    decreases n,
{
    if n > 1 {
        law_turn_indicators((n - 1) as nat);
    } else {
        assert(indicators_shown(0) == 0);
    }
}

} // verus!
