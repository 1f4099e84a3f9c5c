//! Conversation messages as plain values, and the text the library reads
//! from them: searchable text, role labels, history summaries and tool
//! result previews.
use vstd::prelude::*;

use crate::text::{
    append_chars, chars_of, contains, dec, decimal, first_line, first_line_end, join, join_chars,
    lemma_first_line_of_trimmed, lemma_join_parts, lemma_trim_first, slice_to_vec, starts_with,
    string_of, total_len, trim, trimmed, truncate_chars, truncated, views,
};

verus! {

/// One block of message content.
#[derive(Debug, Clone)]
pub enum Content {
    /// Plain text.
    Text { text: String },
    /// A call of the tool `name`.
    ToolCall { name: String },
    /// Any other block (images, thinking); no text is read from it.
    Other,
}

/// Token counts of one model call, a run, or a session.
#[derive(Debug, Clone, Copy, PartialEq, Eq, Structural)]
pub struct Usage {
    pub input: u64,
    pub output: u64,
    pub cache_read: u64,
    pub cache_write: u64,
}

/// `a + b` fits in every counter.
pub open spec fn usage_fits(a: Usage, b: Usage) -> bool {
    &&& a.input + b.input <= u64::MAX
    &&& a.output + b.output <= u64::MAX
    &&& a.cache_read + b.cache_read <= u64::MAX
    &&& a.cache_write + b.cache_write <= u64::MAX
}

/// The counter-wise sum of two usages (within range).
pub open spec fn usage_sum(a: Usage, b: Usage) -> Usage {
    Usage {
        input: (a.input + b.input) as u64,
        output: (a.output + b.output) as u64,
        cache_read: (a.cache_read + b.cache_read) as u64,
        cache_write: (a.cache_write + b.cache_write) as u64,
    }
}

impl Usage {
    /// No tokens.
    pub fn zero() -> (u: Usage)
        ensures
            u == (Usage { input: 0, output: 0, cache_read: 0, cache_write: 0 }),
    {
        Usage { input: 0, output: 0, cache_read: 0, cache_write: 0 }
    }

    /// Adds `other` to every counter.
    pub fn add(&mut self, other: &Usage)
        requires
            usage_fits(*old(self), *other),
        ensures
            *final(self) == usage_sum(*old(self), *other),
    {
        self.input = self.input + other.input;
        self.output = self.output + other.output;
        self.cache_read = self.cache_read + other.cache_read;
        self.cache_write = self.cache_write + other.cache_write;
    }
}

/// A message exchanged with the model.
#[derive(Debug, Clone)]
pub enum Message {
    User { content: Vec<Content> },
    Assistant {
        content: Vec<Content>,
        usage: Usage,
        /// The model stopped because of an error.
        stopped_on_error: bool,
        error_message: Option<String>,
    },
    ToolResult {
        tool_call_id: String,
        tool_name: String,
        content: Vec<Content>,
        is_error: bool,
        timestamp: u64,
    },
}

/// An application-specific message kept in the history.
#[derive(Debug, Clone)]
pub struct ExtensionMessage {
    pub role: String,
}

/// A message of the conversation history.
#[derive(Debug, Clone)]
pub enum AgentMessage {
    Llm(Message),
    Extension(ExtensionMessage),
}

/// The output of a tool run.
#[derive(Debug, Clone)]
pub struct ToolResult {
    pub content: Vec<Content>,
}

impl Message {
    /// A user message holding the single text block `text`.
    pub fn user(text: &str) -> (m: Message)
        ensures
            m matches Message::User { content } && (content@.len() == 1 && (content@[0] matches Content::Text { text: t } && t@ == text@)),
    {
        let mut content: Vec<Content> = Vec::new();
        content.push(Content::Text { text: text.to_owned() });
        Message::User { content }
    }
}

/// The texts of the text blocks of `c`, in order.
pub open spec fn texts(c: Seq<Content>) -> Seq<Seq<char>>
    decreases c.len(),
{
    if c.len() == 0 {
        seq![]
    } else {
        let r = texts(c.drop_last());
        match c.last() {
            Content::Text { text } => r.push(text@),
            _ => r,
        }
    }
}

/// The texts of the text blocks and the names of the tool calls of `c`, in order.
pub open spec fn texts_and_calls(c: Seq<Content>) -> Seq<Seq<char>>
    decreases c.len(),
{
    if c.len() == 0 {
        seq![]
    } else {
        let r = texts_and_calls(c.drop_last());
        match c.last() {
            Content::Text { text } => r.push(text@),
            Content::ToolCall { name } => r.push(name@),
            Content::Other => r,
        }
    }
}

/// All searchable text of a message.
pub open spec fn message_text(m: AgentMessage) -> Seq<char> {
    match m {
        AgentMessage::Llm(Message::User { content }) => join(texts(content@), seq![' ']),
        AgentMessage::Llm(Message::Assistant { content, .. }) => join(
            texts_and_calls(content@),
            seq![' '],
        ),
        AgentMessage::Llm(Message::ToolResult { tool_name, content, .. }) => join(
            seq![tool_name@] + texts(content@),
            seq![' '],
        ),
        AgentMessage::Extension(ext) => ext.role@,
    }
}

/// The role label of a message.
pub open spec fn role_of(m: AgentMessage) -> Seq<char> {
    match m {
        AgentMessage::Llm(Message::User { .. }) => "user"@,
        AgentMessage::Llm(Message::Assistant { .. }) => "assistant"@,
        AgentMessage::Llm(Message::ToolResult { .. }) => "tool"@,
        AgentMessage::Extension(_) => "ext"@,
    }
}

/// The texts (and, with `calls`, tool-call names) of `content`.
fn collect_texts(content: &Vec<Content>, calls: bool) -> (r: Vec<Vec<char>>)
    ensures
        calls ==> views(r@) == texts_and_calls(content@),
        !calls ==> views(r@) == texts(content@),
{
    let mut r: Vec<Vec<char>> = Vec::new();
    let mut i: usize = 0;
    while i < content.len()
        invariant
            0 <= i <= content@.len(),
            calls ==> views(r@) == texts_and_calls(content@.take(i as int)),
            !calls ==> views(r@) == texts(content@.take(i as int)),
        decreases content.len() - i,
    {
        let ghost before = r@;
        match &content[i] {
            Content::Text { text } => {
                r.push(chars_of(text.as_str()));
            },
            Content::ToolCall { name } => {
                if calls {
                    r.push(chars_of(name.as_str()));
                }
            },
            Content::Other => {},
        }
        proof {
            assert(content@.take(i + 1).drop_last() == content@.take(i as int));
            assert(views(r@) == views(before) || views(r@) == views(before).push(r@.last()@));
            if r@.len() > before.len() {
                assert(views(r@) == views(before).push(r@.last()@));
            } else {
                assert(views(r@) == views(before));
            }
        }
        i = i + 1;
    }
    assert(content@.take(content@.len() as int) == content@);
    r
}

/// Extracts all searchable text from a message.
pub fn extract_message_text(msg: &AgentMessage) -> (r: String)
    ensures
        r@ == message_text(*msg),
{
    let mut sep: Vec<char> = Vec::new();
    sep.push(' ');
    match msg {
        AgentMessage::Llm(Message::User { content }) => {
            let parts = collect_texts(content, false);
            string_of(join_chars(&parts, sep.as_slice()).as_slice())
        },
        AgentMessage::Llm(Message::Assistant { content, .. }) => {
            let parts = collect_texts(content, true);
            string_of(join_chars(&parts, sep.as_slice()).as_slice())
        },
        AgentMessage::Llm(Message::ToolResult { tool_name, content, .. }) => {
            let rest = collect_texts(content, false);
            let mut parts: Vec<Vec<char>> = Vec::new();
            parts.push(chars_of(tool_name.as_str()));
            let mut i: usize = 0;
            while i < rest.len()
                invariant
                    0 <= i <= rest@.len(),
                    views(parts@) == seq![tool_name@] + views(rest@).take(i as int),
                decreases rest.len() - i,
            {
                let ghost before = parts@;
                let piece = slice_to_vec(rest[i].as_slice(), 0, rest[i].len());
                parts.push(piece);
                proof {
                    assert(rest@[i as int]@.subrange(0, rest@[i as int]@.len() as int) == rest@[i as int]@);
                    assert(parts@ == before.push(piece));
                    assert(views(parts@) == views(before).push(piece@));
                    assert(views(rest@).take(i + 1) == views(rest@).take(i as int).push(rest@[i as int]@));
                }
                i = i + 1;
            }
            assert(views(rest@).take(rest@.len() as int) == views(rest@));
            string_of(join_chars(&parts, sep.as_slice()).as_slice())
        },
        AgentMessage::Extension(ext) => ext.role.clone(),
    }
}


/// Gets the role label for a message.
pub fn message_role(msg: &AgentMessage) -> (r: &'static str)
    ensures
        r@ == role_of(*msg),
{
    match msg {
        AgentMessage::Llm(Message::User { .. }) => "user",
        AgentMessage::Llm(Message::Assistant { .. }) => "assistant",
        AgentMessage::Llm(Message::ToolResult { .. }) => "tool",
        AgentMessage::Extension(_) => "ext",
    }
}

/// The number of tool calls in `c`.
pub open spec fn tool_calls(c: Seq<Content>) -> nat
    decreases c.len(),
{
    if c.len() == 0 {
        0
    } else {
        tool_calls(c.drop_last()) + if c.last() is ToolCall {
            1nat
        } else {
            0nat
        }
    }
}

/// The pieces of an assistant summary before the "more tools" note: each
/// non-empty text cut to 60 characters, and `→name` for the first three
/// tool calls.
pub open spec fn assistant_parts(c: Seq<Content>) -> Seq<Seq<char>>
    decreases c.len(),
{
    if c.len() == 0 {
        seq![]
    } else {
        let r = assistant_parts(c.drop_last());
        match c.last() {
            Content::Text { text } => if text@.len() > 0 {
                r.push(truncated(text@, 60))
            } else {
                r
            },
            Content::ToolCall { name } => if tool_calls(c) <= 3 {
                r.push(seq!['→'] + name@)
            } else {
                r
            },
            Content::Other => r,
        }
    }
}

/// The summary of an assistant message's content.
pub open spec fn assistant_preview(c: Seq<Content>) -> Seq<char> {
    let n = tool_calls(c);
    let parts = if n > 3 {
        assistant_parts(c).push("(+"@ + dec((n - 3) as nat) + " more tools)"@)
    } else {
        assistant_parts(c)
    };
    if parts.len() == 0 {
        "(empty)"@
    } else {
        join(parts, seq![' ', ' '])
    }
}

/// The preview shown for a message in the history listing.
pub open spec fn summary_of(m: AgentMessage) -> Seq<char> {
    match m {
        AgentMessage::Llm(Message::User { content }) => truncated(
            join(texts(content@), seq![' ']),
            80,
        ),
        AgentMessage::Llm(Message::Assistant { content, .. }) => assistant_preview(content@),
        AgentMessage::Llm(Message::ToolResult { tool_name, is_error, .. }) => tool_name@ + seq![
            ' ',
            if is_error {
                '✗'
            } else {
                '✓'
            },
        ],
        AgentMessage::Extension(ext) => truncated(ext.role@, 60),
    }
}

/// The tool calls of a message fit the counter the summary keeps.
pub open spec fn summarizable(m: AgentMessage) -> bool {
    m matches AgentMessage::Llm(Message::Assistant { content, .. }) ==> tool_calls(content@)
        <= i32::MAX
}

fn assistant_summary(content: &Vec<Content>) -> (r: Vec<char>)
    ensures
        r@ == assistant_preview(content@),
{
    let mut parts: Vec<Vec<char>> = Vec::new();
    let mut calls: usize = 0;
    let mut i: usize = 0;
    while i < content.len()
        invariant
            0 <= i <= content@.len(),
            calls <= i,
            calls == tool_calls(content@.take(i as int)),
            views(parts@) == assistant_parts(content@.take(i as int)),
        decreases content.len() - i,
    {
        let ghost before = parts@;
        proof {
            assert(content@.take(i + 1).drop_last() == content@.take(i as int));
            assert(content@.take(i + 1).last() == content@[i as int]);
        }
        match &content[i] {
            Content::Text { text } => {
                let tv = chars_of(text.as_str());
                if tv.len() > 0 {
                    let piece = truncate_chars(tv.as_slice(), 60);
                    parts.push(piece);
                    assert(views(parts@) == views(before).push(piece@));
                }
            },
            Content::ToolCall { name } => {
                calls = calls + 1;
                if calls <= 3 {
                    let mut piece: Vec<char> = Vec::new();
                    piece.push('→');
                    let nv = chars_of(name.as_str());
                    append_chars(&mut piece, nv.as_slice());
                    parts.push(piece);
                    assert(views(parts@) == views(before).push(piece@));
                }
            },
            Content::Other => {},
        }
        i = i + 1;
    }
    assert(content@.take(content@.len() as int) == content@);
    if calls > 3 {
        let mut note = chars_of("(+");
        let digits = decimal((calls - 3) as u64);
        append_chars(&mut note, digits.as_slice());
        let tail = chars_of(" more tools)");
        append_chars(&mut note, tail.as_slice());
        assert(note@ == "(+"@ + dec((tool_calls(content@) - 3) as nat) + " more tools)"@);
        let ghost before = parts@;
        parts.push(note);
        assert(views(parts@) == views(before).push(note@));
    }
    if parts.len() == 0 {
        chars_of("(empty)")
    } else {
        let mut sep: Vec<char> = Vec::new();
        sep.push(' ');
        sep.push(' ');
        assert(sep@ == seq![' ', ' ']);
        join_chars(&parts, sep.as_slice())
    }
}

/// Summarizes a message for the history listing: its role and a short preview.
pub fn summarize_message(msg: &AgentMessage) -> (r: (&'static str, String))
    requires
        summarizable(*msg),
    ensures
        r.0@ == role_of(*msg),
        r.1@ == summary_of(*msg),
{
    match msg {
        AgentMessage::Llm(Message::User { content }) => {
            let parts = collect_texts(content, false);
            let mut sep: Vec<char> = Vec::new();
            sep.push(' ');
            let text = join_chars(&parts, sep.as_slice());
            ("user", string_of(truncate_chars(text.as_slice(), 80).as_slice()))
        },
        AgentMessage::Llm(Message::Assistant { content, .. }) => {
            ("assistant", string_of(assistant_summary(content).as_slice()))
        },
        AgentMessage::Llm(Message::ToolResult { tool_name, is_error, .. }) => {
            let mut v = chars_of(tool_name.as_str());
            v.push(' ');
            if *is_error {
                v.push('✗');
            } else {
                v.push('✓');
            }
            ("tool", string_of(v.as_slice()))
        },
        AgentMessage::Extension(ext) => {
            let rv = chars_of(ext.role.as_str());
            ("ext", string_of(truncate_chars(rv.as_slice(), 60).as_slice()))
        },
    }
}

/// The preview of a tool result: the first line of its trimmed text, cut to
/// `max` characters; empty when there is no text.
pub open spec fn preview_of(c: Seq<Content>, max: nat) -> Seq<char> {
    let t = trim(join(texts(c), seq![' ']));
    if t.len() == 0 {
        seq![]
    } else {
        truncated(first_line(t), max)
    }
}

/// Extracts a preview of tool result content for display; empty when there
/// is nothing meaningful to show.
pub fn tool_result_preview(result: &ToolResult, max_chars: usize) -> (r: String)
    ensures
        r@ == preview_of(result.content@, max_chars as nat),
{
    let parts = collect_texts(&result.content, false);
    let mut sep: Vec<char> = Vec::new();
    sep.push(' ');
    let text = join_chars(&parts, sep.as_slice());
    let t = trimmed(text.as_slice());
    if t.len() == 0 {
        return String::new();
    }
    let e = first_line_end(t.as_slice());
    let line = slice_to_vec(t.as_slice(), 0, e);
    assert(t@.subrange(0, e as int) == t@.take(e as int));
    string_of(truncate_chars(line.as_slice(), max_chars).as_slice())
}


/// Each text block of `c` is among `texts(c)`.
proof fn lemma_texts_has(c: Seq<Content>, i: int)
    requires
        0 <= i < c.len(),
        c[i] is Text,
    ensures
        exists|j: int| 0 <= j < texts(c).len() && texts(c)[j] == c[i]->Text_text@,
    decreases c.len(),
{
    let d = c.drop_last();
    if i < c.len() - 1 {
        assert(c[i] == d[i]);
        lemma_texts_has(d, i);
        let j = choose|j: int| 0 <= j < texts(d).len() && texts(d)[j] == d[i]->Text_text@;
        assert(texts(c)[j] == texts(d)[j]);
    } else {
        assert(texts(c).last() == c[i]->Text_text@);
    }
}

/// Each text block and each tool call name of `c` is among `texts_and_calls(c)`.
proof fn lemma_texts_and_calls_has(c: Seq<Content>, i: int)
    requires
        0 <= i < c.len(),
        c[i] is Text || c[i] is ToolCall,
    ensures
        exists|j: int|
            0 <= j < texts_and_calls(c).len() && texts_and_calls(c)[j] == match c[i] {
                Content::Text { text } => text@,
                Content::ToolCall { name } => name@,
                Content::Other => seq![],
            },
    decreases c.len(),
{
    let d = c.drop_last();
    let want = match c[i] {
        Content::Text { text } => text@,
        Content::ToolCall { name } => name@,
        Content::Other => seq![],
    };
    if i < c.len() - 1 {
        assert(c[i] == d[i]);
        lemma_texts_and_calls_has(d, i);
        let j = choose|j: int| 0 <= j < texts_and_calls(d).len() && texts_and_calls(d)[j] == want;
        assert(texts_and_calls(c)[j] == texts_and_calls(d)[j]);
    } else {
        assert(texts_and_calls(c).last() == want);
    }
}

/// The searchable text of a message holds every text block in full (and,
/// for an assistant, every tool call name; for a tool result, starts with
/// the tool's name); a tool result's text is exactly as long as its name
/// and its text blocks, with a space before each block.
pub proof fn law_message_text_keeps_every_text(m: AgentMessage)
    ensures
        m matches AgentMessage::Llm(Message::User { content }) ==> forall|i: int|
            0 <= i < content@.len() && content@[i] is Text ==> contains(
                message_text(m),
                (#[trigger] content@[i])->Text_text@,
            ),
        m matches AgentMessage::Llm(Message::Assistant { content, .. }) ==> forall|i: int|
            0 <= i < content@.len() ==> (#[trigger] content@[i] matches Content::Text { text }
                ==> contains(message_text(m), text@)) && (content@[i] matches Content::ToolCall {
                name } ==> contains(message_text(m), name@)),
        m matches AgentMessage::Llm(Message::ToolResult { tool_name, content, .. }) ==> {
            &&& starts_with(message_text(m), tool_name@)
            &&& forall|i: int|
                0 <= i < content@.len() && content@[i] is Text ==> contains(
                    message_text(m),
                    (#[trigger] content@[i])->Text_text@,
                )
            &&& message_text(m).len() == tool_name@.len() + total_len(texts(content@))
                + texts(content@).len()
        },
        m matches AgentMessage::Extension(ext) ==> message_text(m) == ext.role@,
{
    match m {
        AgentMessage::Llm(Message::User { content }) => {
            lemma_join_parts(texts(content@), seq![' ']);
            assert forall|i: int|
                0 <= i < content@.len() && content@[i] is Text implies contains(
                message_text(m),
                (#[trigger] content@[i])->Text_text@,
            ) by {
                lemma_texts_has(content@, i);
            }
        },
        AgentMessage::Llm(Message::Assistant { content, .. }) => {
            lemma_join_parts(texts_and_calls(content@), seq![' ']);
            assert forall|i: int| 0 <= i < content@.len() implies (#[trigger] content@[i] matches Content::Text { text }
                ==> contains(message_text(m), text@)) && (content@[i] matches Content::ToolCall {
                name } ==> contains(message_text(m), name@)) by {
                if content@[i] is Text || content@[i] is ToolCall {
                    lemma_texts_and_calls_has(content@, i);
                }
            }
        },
        AgentMessage::Llm(Message::ToolResult { tool_name, content, .. }) => {
            let parts = seq![tool_name@] + texts(content@);
            lemma_join_parts(parts, seq![' ']);
            assert(parts[0] == tool_name@);
            assert forall|i: int|
                0 <= i < content@.len() && content@[i] is Text implies contains(
                message_text(m),
                (#[trigger] content@[i])->Text_text@,
            ) by {
                lemma_texts_has(content@, i);
                let j = choose|j: int|
                    0 <= j < texts(content@).len() && texts(content@)[j] == content@[i]->Text_text@;
                assert(parts[j + 1] == texts(content@)[j]);
            }
            lemma_total_len_prepend(tool_name@, texts(content@));
        },
        AgentMessage::Extension(_) => {},
    }
}

/// The pieces of an assistant summary hold each non-empty text, cut to 60
/// characters, and `→name` for each of the first three tool calls.
proof fn lemma_assistant_parts_has(c: Seq<Content>, i: int)
    requires
        0 <= i < c.len(),
    ensures
        c[i] is Text && c[i]->Text_text@.len() > 0 ==> exists|j: int|
            0 <= j < assistant_parts(c).len() && assistant_parts(c)[j] == truncated(
                c[i]->Text_text@,
                60,
            ),
        c[i] is ToolCall && tool_calls(c.take(i + 1)) <= 3 ==> exists|j: int|
            0 <= j < assistant_parts(c).len() && assistant_parts(c)[j] == seq!['→']
                + c[i]->ToolCall_name@,
    decreases c.len(),
{
    let d = c.drop_last();
    if i < c.len() - 1 {
        assert(c[i] == d[i]);
        assert(c.take(i + 1) == d.take(i + 1));
        lemma_assistant_parts_has(d, i);
        let pd = assistant_parts(d);
        let pc = assistant_parts(c);
        assert(pc.len() >= pd.len());
        assert(forall|j: int| 0 <= j < pd.len() ==> pc[j] == pd[j]);
    } else {
        assert(c.take(i + 1) == c);
        let pc = assistant_parts(c);
        if c[i] is Text && c[i]->Text_text@.len() > 0 {
            assert(pc.last() == truncated(c[i]->Text_text@, 60));
        }
        if c[i] is ToolCall && tool_calls(c) <= 3 {
            assert(pc.last() == seq!['→'] + c[i]->ToolCall_name@);
        }
    }
}

/// Content with no non-empty text and no tool call gives no summary pieces.
proof fn lemma_assistant_parts_none(c: Seq<Content>)
    requires
        forall|i: int|
            0 <= i < c.len() ==> !(#[trigger] c[i] is ToolCall) && !(c[i] is Text
                && c[i]->Text_text@.len() > 0),
    ensures
        assistant_parts(c).len() == 0,
        tool_calls(c) == 0,
    decreases c.len(),
{
    if c.len() > 0 {
        let d = c.drop_last();
        assert forall|i: int| 0 <= i < d.len() implies !(#[trigger] d[i] is ToolCall) && !(d[i] is Text
            && d[i]->Text_text@.len() > 0) by {
            assert(d[i] == c[i]);
        }
        lemma_assistant_parts_none(d);
        assert(c.last() == c[c.len() - 1]);
    }
}

/// The summary of an assistant message shows each non-empty text block, cut
/// to 60 characters, and each of its first three tool calls as `→name`;
/// beyond three calls it notes how many more there were; and it is
/// `(empty)` when there is no non-empty text and no tool call.
pub proof fn law_assistant_summary(m: AgentMessage)
    requires
        m is Llm,
        m->Llm_0 is Assistant,
    ensures
        ({
            let c = m->Llm_0->Assistant_content@;
            &&& forall|i: int|
                0 <= i < c.len() && #[trigger] c[i] is Text && c[i]->Text_text@.len() > 0
                    ==> contains(summary_of(m), truncated(c[i]->Text_text@, 60))
            &&& forall|i: int|
                0 <= i < c.len() && #[trigger] c[i] is ToolCall && tool_calls(c.take(i + 1)) <= 3
                    ==> contains(summary_of(m), seq!['→'] + c[i]->ToolCall_name@)
            &&& tool_calls(c) > 3 ==> contains(
                summary_of(m),
                "(+"@ + dec((tool_calls(c) - 3) as nat) + " more tools)"@,
            )
            &&& (forall|i: int|
                0 <= i < c.len() ==> !(#[trigger] c[i] is ToolCall) && !(c[i] is Text
                    && c[i]->Text_text@.len() > 0)) ==> summary_of(m) == "(empty)"@
        }),
{
    let c = m->Llm_0->Assistant_content@;
    let n = tool_calls(c);
    let note = "(+"@ + dec((n - 3) as nat) + " more tools)"@;
    let parts = if n > 3 {
        assistant_parts(c).push(note)
    } else {
        assistant_parts(c)
    };
    assert(summary_of(m) == assistant_preview(c));
    lemma_join_parts(parts, seq![' ', ' ']);
    assert forall|j: int| 0 <= j < assistant_parts(c).len() implies contains(
        summary_of(m),
        #[trigger] assistant_parts(c)[j],
    ) by {
        assert(parts[j] == assistant_parts(c)[j]);
    }
    assert forall|i: int|
        0 <= i < c.len() && #[trigger] c[i] is Text && c[i]->Text_text@.len() > 0
            implies contains(summary_of(m), truncated(c[i]->Text_text@, 60)) by {
        lemma_assistant_parts_has(c, i);
    }
    assert forall|i: int|
        0 <= i < c.len() && #[trigger] c[i] is ToolCall && tool_calls(c.take(i + 1)) <= 3
            implies contains(summary_of(m), seq!['→'] + c[i]->ToolCall_name@) by {
        lemma_assistant_parts_has(c, i);
    }
    if n > 3 {
        assert(parts[parts.len() - 1] == note);
    }
    if forall|i: int|
        0 <= i < c.len() ==> !(#[trigger] c[i] is ToolCall) && !(c[i] is Text
            && c[i]->Text_text@.len() > 0) {
        lemma_assistant_parts_none(c);
    }
}

/// A tool result's preview is empty exactly when its text (the text blocks
/// joined with spaces) is all white space; otherwise it starts with the
/// first character of the trimmed text, follows the trimmed text for up to
/// `max` characters, holds no line feed, and has at most `max + 1`
/// characters (the last being `'…'` when cut).
pub proof fn law_preview_shows_first_line(c: Seq<Content>, max: nat)
    ensures
        ({
            let t = trim(join(texts(c), seq![' ']));
            let p = preview_of(c, max);
            &&& p.len() == 0 <==> t.len() == 0
            &&& p.len() <= max + 1
            &&& forall|i: int| 0 <= i < p.len() ==> #[trigger] p[i] != '\n'
            &&& forall|i: int| 0 <= i < p.len() && i < max ==> #[trigger] p[i] == t[i]
            &&& max > 0 && t.len() > 0 ==> p[0] == t[0]
        }),
{
    let t = trim(join(texts(c), seq![' ']));
    let p = preview_of(c, max);
    lemma_trim_first(join(texts(c), seq![' ']));
    if t.len() > 0 {
        lemma_first_line_of_trimmed(t);
        let f = first_line(t);
        if f.len() > max {
            assert forall|i: int| 0 <= i < p.len() implies #[trigger] p[i] != '\n' by {
                if i < max {
                    assert(p[i] == f[i]);
                }
            }
        }
    }
}

/// The total length of pieces with one more piece in front.
proof fn lemma_total_len_prepend(first: Seq<char>, rest: Seq<Seq<char>>)
    ensures
        total_len(seq![first] + rest) == first.len() + total_len(rest),
    decreases rest.len(),
{
    if rest.len() > 0 {
        lemma_total_len_prepend(first, rest.drop_last());
        assert((seq![first] + rest).drop_last() == seq![first] + rest.drop_last());
        assert((seq![first] + rest).last() == rest.last());
    } else {
        assert(seq![first] + rest == seq![first]);
        assert(seq![first].drop_last() == Seq::<Seq<char>>::empty());
        assert(total_len(Seq::<Seq<char>>::empty()) == 0);
        assert(seq![first].last() == first);
    }
}

} // verus!
