//! Case-insensitive search over the conversation history, with excerpts
//! around the first match.
use vstd::prelude::*;

use crate::message::{extract_message_text, message_role, message_text, role_of, AgentMessage};
use crate::text::{
    ascii_lower, is_ascii_text, byte_len, chars_of, contains, find_chars, find_first, is_ws, lemma_contains_find,
    lemma_contains_in_middle, lemma_find_from, lemma_trim_keeps_occurrence, lemma_utf8_take_mono,
    lemma_utf8_take_step, occurs_at, string_of, trim, trimmed, utf8_len, width_of,
};

verus! {

/// What `str::to_lowercase` returns for a string with the characters `s`.
pub uninterp spec fn lowercase(s: Seq<char>) -> Seq<char>;

/// Lowercases `s` with `str::to_lowercase`; trusted to return
/// `lowercase(s@)` for the whole of `s`, and, for an ASCII `s`, to map each
/// capital `A`-`Z` to its small letter and keep every other character (the
/// Unicode lowercase mapping of ASCII, as `char::to_ascii_lowercase`
/// documents it). The mapping beyond ASCII is left unstated.
#[verifier::external_body]
fn to_lowercase(s: &str) -> (r: String)
    ensures
        r@ == lowercase(s@),
        is_ascii_text(s@) ==> r@ == ascii_lower(s@),
{
    s.to_lowercase()
}

/// The byte offset of character `j` of `t`.
pub open spec fn boff(t: Seq<char>, j: int) -> nat {
    utf8_len(t.take(j))
}

/// The first character index at or after `j` whose byte offset is at least
/// `b`; `0` when there is none.
pub open spec fn start_from(t: Seq<char>, b: int, j: int) -> int
    decreases t.len() - j,
{
    if j < 0 || j >= t.len() {
        0
    } else if boff(t, j) >= b {
        j
    } else {
        start_from(t, b, j + 1)
    }
}

/// The end (as a character index) of the first character at or after `j`
/// that ends at byte offset `b` or later; `t.len()` when there is none.
pub open spec fn end_from(t: Seq<char>, b: int, j: int) -> int
    decreases t.len() - j,
{
    if j < 0 || j >= t.len() {
        t.len() as int
    } else if boff(t, j + 1) >= b {
        j + 1
    } else {
        end_from(t, b, j + 1)
    }
}

/// `s` with each `'\n'` and `'\r'` replaced by a space.
pub open spec fn collapse_newlines(s: Seq<char>) -> Seq<char> {
    Seq::new(
        s.len(),
        |i: int|
            if s[i] == '\n' || s[i] == '\r' {
                ' '
            } else {
                s[i]
            },
    )
}

/// The byte window `[start, end)` of `text` shown around the first match of
/// `query_lower` in `text_lower`, before it is moved to character boundaries.
pub open spec fn window_start(text_lower: Seq<char>, k: int, ctx: nat) -> int {
    let pos = boff(text_lower, k);
    if pos >= ctx {
        (pos - ctx) as int
    } else {
        0
    }
}

/// See [`window_start`].
pub open spec fn window_end(text: Seq<char>, text_lower: Seq<char>, query_lower: Seq<char>, k: int, ctx: nat) -> int {
    let want = boff(text_lower, k) + utf8_len(query_lower) + ctx;
    if want <= utf8_len(text) {
        want as int
    } else {
        utf8_len(text) as int
    }
}

/// The excerpt around the first match of `query_lower` in `text_lower`: up to
/// `ctx` bytes on each side of the match, widened to character boundaries of
/// `text`, newlines turned to spaces, trimmed, with `'…'` where text was left
/// out; empty when there is no match.
pub open spec fn excerpt_of(
    text: Seq<char>,
    text_lower: Seq<char>,
    query_lower: Seq<char>,
    ctx: nat,
) -> Seq<char> {
    match find_first(text_lower, query_lower) {
        None => seq![],
        Some(k) => {
            let s = start_from(text, window_start(text_lower, k, ctx), 0);
            let e = end_from(text, window_end(text, text_lower, query_lower, k, ctx), 0);
            (if boff(text, s) > 0 {
                seq!['…']
            } else {
                seq![]
            }) + trim(collapse_newlines(text.subrange(s, e))) + (if boff(text, e) < utf8_len(
                text,
            ) {
                seq!['…']
            } else {
                seq![]
            })
        },
    }
}

/// The arithmetic of the window stays within `usize`.
pub open spec fn excerpt_fits(text_lower: Seq<char>, query_lower: Seq<char>, ctx: nat) -> bool {
    find_first(text_lower, query_lower) matches Some(k) ==> boff(text_lower, k) + utf8_len(
        query_lower,
    ) + ctx <= usize::MAX
}

/// UTF-8 length adds up over concatenation.
pub proof fn lemma_utf8_concat(a: Seq<char>, b: Seq<char>)
    ensures
        utf8_len(a + b) == utf8_len(a) + utf8_len(b),
    decreases b.len(),
{
    if b.len() > 0 {
        lemma_utf8_concat(a, b.drop_last());
        assert((a + b).drop_last() == a + b.drop_last());
    }
}

/// A match ends within the text it was found in, counted in bytes.
pub proof fn lemma_match_bytes(hay: Seq<char>, needle: Seq<char>, k: int)
    requires
        occurs_at(hay, needle, k),
    ensures
        boff(hay, k) + utf8_len(needle) <= utf8_len(hay),
{
    let m = k + needle.len();
    assert(hay.take(m) == hay.take(k) + needle);
    lemma_utf8_concat(hay.take(k), needle);
    lemma_utf8_take_mono(hay, m, hay.len() as int);
    assert(hay.take(hay.len() as int) == hay);
}

/// `start_from` scans forward: it is the first qualifying index, or 0.
proof fn lemma_start_from(t: Seq<char>, b: int, j: int)
    requires
        0 <= j,
    ensures
        ({
            let s = start_from(t, b, j);
            (s == 0 && forall|i: int| j <= i < t.len() ==> boff(t, i) < b) || (j <= s < t.len()
                && boff(t, s) >= b && forall|i: int| j <= i < s ==> boff(t, i) < b)
        }),
    decreases t.len() - j,
{
    if j < t.len() && boff(t, j) < b {
        lemma_start_from(t, b, j + 1);
    }
}

/// `end_from` scans forward: it ends the first qualifying character, or is the length.
proof fn lemma_end_from(t: Seq<char>, b: int, j: int)
    requires
        0 <= j,
    ensures
        ({
            let e = end_from(t, b, j);
            (e == t.len() && forall|i: int| j < i <= t.len() ==> boff(t, i) < b) || (j < e
                <= t.len() && boff(t, e) >= b && forall|i: int| j < i < e ==> boff(t, i) < b)
        }),
    decreases t.len() - j,
{
    if j < t.len() && boff(t, j + 1) < b {
        lemma_end_from(t, b, j + 1);
    }
}

/// The window never starts after it ends.
proof fn lemma_window_ordered(text: Seq<char>, sb: int, eb: int, pos: int)
    requires
        sb == 0 || sb <= pos,
        eb <= utf8_len(text),
        eb >= pos || eb == utf8_len(text),
        eb < sb ==> eb == utf8_len(text),
    ensures
        start_from(text, sb, 0) <= end_from(text, eb, 0),
{
    let s = start_from(text, sb, 0);
    let e = end_from(text, eb, 0);
    lemma_start_from(text, sb, 0);
    lemma_end_from(text, eb, 0);
    assert(text.take(text.len() as int) == text);
    if s > 0 && e < s {
        lemma_utf8_take_mono(text, e, s - 1);
        lemma_utf8_take_mono(text, s, text.len() as int);
        assert(boff(text, s - 1) < sb);
    }
}

/// The byte offset of character `k` of `v`, known to be at most `bound`.
fn byte_offset(v: &[char], k: usize, bound: usize) -> (pos: usize)
    requires
        k <= v@.len(),
        boff(v@, k as int) <= bound,
    ensures
        pos == boff(v@, k as int),
{
    let mut pos: usize = 0;
    let mut i: usize = 0;
    assert(v@.take(0) == Seq::<char>::empty());
    while i < k
        invariant
            k <= v@.len(),
            i <= k,
            pos == boff(v@, i as int),
            boff(v@, k as int) <= bound,
        decreases k - i,
    {
        proof {
            lemma_utf8_take_step(v@, i as int);
            lemma_utf8_take_mono(v@, (i + 1) as int, k as int);
        }
        pos = pos + width_of(v[i]);
        i = i + 1;
    }
    pos
}

/// The excerpt around the first match of `query_lower` in `text_lower`, taken
/// from `text` (see [`excerpt_of`]).
pub fn excerpt_from(text: &str, text_lower: &str, query_lower: &str, context_chars: usize) -> (r:
    String)
    requires
        excerpt_fits(text_lower@, query_lower@, context_chars as nat),
    ensures
        r@ == excerpt_of(text@, text_lower@, query_lower@, context_chars as nat),
{
    let tv = chars_of(text);
    let lv = chars_of(text_lower);
    let qv = chars_of(query_lower);
    let k = match find_chars(lv.as_slice(), qv.as_slice()) {
        None => {
            return String::new();
        },
        Some(k) => k,
    };
    let ghost t = tv@;
    let ghost lw = lv@;
    let lower_len = byte_len(text_lower);
    let qlen = byte_len(query_lower);
    let tlen = byte_len(text);
    proof {
        lemma_find_from(lw, qv@, 0);
        lemma_match_bytes(lw, qv@, k as int);
    }
    // byte offset of the match in the lowercased text
    let pos = byte_offset(lv.as_slice(), k, lower_len);
    let start_b: usize = if pos >= context_chars {
        pos - context_chars
    } else {
        0
    };
    let want = pos + qlen + context_chars;
    let end_b: usize = if want <= tlen {
        want
    } else {
        tlen
    };
    let n = tv.len();
    // first character starting at or after start_b
    let mut j: usize = 0;
    let mut off: usize = 0;
    proof {
        assert(t.take(0) == Seq::<char>::empty());
        assert(t.take(n as int) == t);
    }
    while j < n && off < start_b
        invariant
            tv@ == t,
            n == t.len(),
            j <= n,
            off == boff(t, j as int),
            tlen == utf8_len(t),
            start_from(t, start_b as int, 0) == start_from(t, start_b as int, j as int),
        decreases n - j,
    {
        proof {
            lemma_utf8_take_step(t, j as int);
            lemma_utf8_take_mono(t, (j + 1) as int, n as int);
            assert(t.take(n as int) == t);
        }
        off = off + width_of(tv[j]);
        j = j + 1;
    }
    let (s, s_byte) = if j < n {
        (j, off)
    } else {
        (0, 0)
    };
    // end of the first character ending at or after end_b
    let mut j2: usize = 0;
    let mut off2: usize = 0;
    let mut e: usize = n;
    let mut e_byte: usize = tlen;
    while j2 < n
        invariant_except_break
            j2 <= n,
            off2 == boff(t, j2 as int),
            e == n,
            e_byte == tlen,
            end_from(t, end_b as int, 0) == end_from(t, end_b as int, j2 as int),
        invariant
            n == t.len(),
            tlen == utf8_len(t),
            tlen == boff(t, n as int),
            tv@ == t,
        ensures
            e == end_from(t, end_b as int, 0),
            e_byte == boff(t, e as int),
            e <= n,
        decreases n - j2,
    {
        proof {
            lemma_utf8_take_step(t, j2 as int);
            lemma_utf8_take_mono(t, (j2 + 1) as int, n as int);
            assert(t.take(n as int) == t);
        }
        let next = off2 + width_of(tv[j2]);
        assert(next == boff(t, j2 + 1));
        if next >= end_b {
            e = j2 + 1;
            e_byte = next;
            break;
        }
        off2 = next;
        j2 = j2 + 1;
    }
    proof {
        assert(t.take(n as int) == t);
        lemma_window_ordered(t, start_b as int, end_b as int, pos as int);
    }
    assert(s as int == start_from(t, start_b as int, 0));
    assert(e as int == end_from(t, end_b as int, 0));
    // the slice with newlines collapsed
    let mut collapsed: Vec<char> = Vec::new();
    let mut p = s;
    while p < e
        invariant
            tv@ == t,
            s <= p <= e <= n,
            n == t.len(),
            collapsed@ == collapse_newlines(t.subrange(s as int, e as int)).take(p - s),
        decreases e - p,
    {
        let c = tv[p];
        let d = if c == '\n' || c == '\r' {
            ' '
        } else {
            c
        };
        collapsed.push(d);
        assert(collapse_newlines(t.subrange(s as int, e as int)).take(p + 1 - s) == collapse_newlines(
            t.subrange(s as int, e as int),
        ).take(p - s).push(d));
        p = p + 1;
    }
    assert(collapse_newlines(t.subrange(s as int, e as int)).take(e - s) == collapse_newlines(
        t.subrange(s as int, e as int),
    ));
    let body = trimmed(collapsed.as_slice());
    let mut out: Vec<char> = Vec::new();
    if s_byte > 0 {
        out.push('…');
    }
    let mut q: usize = 0;
    while q < body.len()
        invariant
            0 <= q <= body@.len(),
            out@ == (if s_byte > 0 {
                seq!['…']
            } else {
                seq![]
            }) + body@.take(q as int),
        decreases body.len() - q,
    {
        out.push(body[q]);
        assert(body@.take(q + 1) == body@.take(q as int).push(body@[q as int]));
        q = q + 1;
    }
    assert(body@.take(body@.len() as int) == body@);
    if e_byte < tlen {
        out.push('…');
    }
    proof {
        assert(s_byte == boff(t, s as int)) by {
            if j >= n {
                assert(t.take(0) == Seq::<char>::empty());
            }
        }
        assert(e_byte == boff(t, e as int)) by {
            assert(t.take(n as int) == t);
        }
    }
    string_of(out.as_slice())
}


/// Builds an excerpt around the first match of `query_lower` in the
/// lowercased `text`, showing up to `context_chars` bytes on each side.
pub fn build_excerpt(text: &str, query_lower: &str, context_chars: usize) -> (r: String)
    requires
        excerpt_fits(lowercase(text@), query_lower@, context_chars as nat),
    ensures
        r@ == excerpt_of(text@, lowercase(text@), query_lower@, context_chars as nat),
{
    let lower = to_lowercase(text);
    excerpt_from(text, lower.as_str(), query_lower, context_chars)
}

/// Whether the window arithmetic of an excerpt stays within `usize`.
pub fn excerpt_fits_exec(text_lower: &str, query_lower: &str, context_chars: usize) -> (b: bool)
    ensures
        b == excerpt_fits(text_lower@, query_lower@, context_chars as nat),
{
    let lv = chars_of(text_lower);
    let qv = chars_of(query_lower);
    let k = match find_chars(lv.as_slice(), qv.as_slice()) {
        None => {
            return true;
        },
        Some(k) => k,
    };
    let ghost lw = lv@;
    let lower_len = byte_len(text_lower);
    let qlen = byte_len(query_lower);
    proof {
        lemma_find_from(lw, qv@, 0);
        lemma_match_bytes(lw, qv@, k as int);
    }
    let pos = byte_offset(lv.as_slice(), k, lower_len);
    context_chars <= usize::MAX - (pos + qlen)
}

/// Builds the excerpt of [`build_excerpt`] when its window arithmetic fits
/// in `usize`; `None` on the inputs where it would overflow.
pub fn try_build_excerpt(text: &str, query_lower: &str, context_chars: usize) -> (r: Option<String>)
    ensures
        match r {
            Some(e) => excerpt_fits(lowercase(text@), query_lower@, context_chars as nat) && e@
                == excerpt_of(text@, lowercase(text@), query_lower@, context_chars as nat),
            None => !excerpt_fits(lowercase(text@), query_lower@, context_chars as nat),
        },
{
    let lower = to_lowercase(text);
    if excerpt_fits_exec(lower.as_str(), query_lower, context_chars) {
        Some(build_excerpt(text, query_lower, context_chars))
    } else {
        None
    }
}

/// A search result from conversation history.
#[derive(Debug, Clone)]
pub struct SearchResult {
    /// 1-based message index
    pub index: usize,
    /// Role: "user", "assistant", "tool", "ext"
    pub role: &'static str,
    /// Context window around the match (truncated)
    pub excerpt: String,
}

/// The views of a sequence of strings.
pub open spec fn string_views(v: Seq<String>) -> Seq<Seq<char>> {
    v.map_values(|s: String| s@)
}

/// The lowercased text of every message.
pub open spec fn lowered_texts(msgs: Seq<AgentMessage>) -> Seq<Seq<char>> {
    msgs.map_values(|m: AgentMessage| lowercase(message_text(m)))
}

/// The indices of the lowercased texts that contain `query_lower`, in order.
pub open spec fn hits(lowered: Seq<Seq<char>>, query_lower: Seq<char>) -> Seq<int>
    decreases lowered.len(),
{
    if lowered.len() == 0 {
        seq![]
    } else {
        let h = hits(lowered.drop_last(), query_lower);
        if contains(lowered.last(), query_lower) {
            h.push(lowered.len() - 1)
        } else {
            h
        }
    }
}

/// The number of results a search returns: the number of matches, but at
/// most `max_results`.
pub open spec fn result_count(lowered: Seq<Seq<char>>, query_lower: Seq<char>, max_results: nat) -> nat {
    let n = hits(lowered, query_lower).len();
    if n <= max_results {
        n
    } else {
        max_results
    }
}

/// The result reported for message `i`, whose lowercased text is `lowered[i]`.
pub open spec fn result_matches(
    r: SearchResult,
    msgs: Seq<AgentMessage>,
    lowered: Seq<Seq<char>>,
    i: int,
    query_lower: Seq<char>,
) -> bool {
    &&& r.index == i + 1
    &&& r.role@ == role_of(msgs[i])
    &&& r.excerpt@ == excerpt_of(message_text(msgs[i]), lowered[i], query_lower, 40)
}

/// The matches of a prefix are a prefix of the matches.
pub proof fn lemma_hits_prefix(lowered: Seq<Seq<char>>, q: Seq<char>, j: int)
    requires
        0 <= j <= lowered.len(),
    ensures
        hits(lowered.take(j), q).len() <= hits(lowered, q).len(),
        hits(lowered.take(j), q) == hits(lowered, q).take(hits(lowered.take(j), q).len() as int),
    decreases lowered.len(),
{
    if j == lowered.len() {
        assert(lowered.take(j) == lowered);
    } else {
        let d = lowered.drop_last();
        assert(lowered.take(j) == d.take(j));
        lemma_hits_prefix(d, q, j);
    }
}

/// Every index that `hits` lists is in range, and they increase.
pub proof fn lemma_hits_range(lowered: Seq<Seq<char>>, q: Seq<char>)
    ensures
        forall|k: int|
            0 <= k < hits(lowered, q).len() ==> 0 <= #[trigger] hits(lowered, q)[k] < lowered.len(),
        forall|a: int, b: int|
            0 <= a < b < hits(lowered, q).len() ==> hits(lowered, q)[a] < hits(lowered, q)[b],
    decreases lowered.len(),
{
    if lowered.len() > 0 {
        let d = lowered.drop_last();
        lemma_hits_range(d, q);
        let h = hits(d, q);
        if contains(lowered.last(), q) {
            let g = h.push(lowered.len() - 1);
            assert(hits(lowered, q) == g);
            assert forall|k: int| 0 <= k < g.len() implies 0 <= #[trigger] g[k] < lowered.len() by {
                if k < h.len() {
                    assert(g[k] == h[k]);
                }
            }
            assert forall|a: int, b: int| 0 <= a < b < g.len() implies g[a] < g[b] by {
                assert(g[a] == h[a]);
                if b < h.len() {
                    assert(g[b] == h[b]);
                }
            }
        }
    }
}

/// Searches the messages, given the lowercased text of each and the
/// lowercased query: up to `max_results` matches, with message index, role
/// and excerpt.
pub fn search_lowered(
    messages: &[AgentMessage],
    lowered: &Vec<String>,
    query_lower: &str,
    max_results: usize,
) -> (r: Vec<SearchResult>)
    requires
        lowered@.len() == messages@.len(),
    ensures
        r@.len() == result_count(string_views(lowered@), query_lower@, max_results as nat),
        forall|k: int|
            0 <= k < r@.len() ==> result_matches(
                #[trigger] r@[k],
                messages@,
                string_views(lowered@),
                hits(string_views(lowered@), query_lower@)[k],
                query_lower@,
            ),
{
    let ghost lw = string_views(lowered@);
    let ghost ql = query_lower@;
    let qv = chars_of(query_lower);
    let mut results: Vec<SearchResult> = Vec::new();
    let mut i: usize = 0;
    let n = messages.len();
    assert(lw.take(n as int) == lw);
    while i < n && results.len() < max_results
        invariant
            n == messages@.len(),
            n == lw.len(),
            lw == string_views(lowered@),
            lw.take(n as int) == lw,
            0 <= i <= n,
            qv@ == ql,
            query_lower@ == ql,
            results@.len() == hits(lw.take(i as int), ql).len(),
            results@.len() <= max_results,
            forall|k: int|
                0 <= k < results@.len() ==> result_matches(
                    #[trigger] results@[k],
                    messages@,
                    lw,
                    hits(lw.take(i as int), ql)[k],
                    ql,
                ),
            forall|k: int| 0 <= k < results@.len() ==> hits(lw.take(i as int), ql)[k] < i,
        decreases n - i,
    {
        let ghost pre = lw.take(i as int);
        let ghost post = lw.take(i + 1);
        proof {
            assert(post.drop_last() == pre);
            assert(post.last() == lw[i as int]);
            lemma_hits_range(pre, ql);
        }
        let lv = chars_of(lowered[i].as_str());
        let found = find_chars(lv.as_slice(), qv.as_slice());
        proof {
            lemma_contains_find(lv@, ql);
        }
        if found.is_some() {
            let text = extract_message_text(&messages[i]);
            let lower_len = byte_len(lowered[i].as_str());
            proof {
                let k = find_first(lv@, ql).unwrap();
                lemma_find_from(lv@, ql, 0);
                lemma_match_bytes(lv@, ql, k);
                assert(boff(lv@, k) + utf8_len(ql) <= lower_len);
            }
            let excerpt = excerpt_from(text.as_str(), lowered[i].as_str(), query_lower, 40);
            let ghost before = results@;
            results.push(SearchResult { index: i + 1, role: message_role(&messages[i]), excerpt });
            proof {
                assert(hits(post, ql) == hits(pre, ql).push(i as int));
                assert forall|k: int| 0 <= k < results@.len() implies result_matches(
                    #[trigger] results@[k],
                    messages@,
                    lw,
                    hits(post, ql)[k],
                    ql,
                ) by {
                    if k < before.len() {
                        assert(results@[k] == before[k]);
                    }
                }
            }
        } else {
            assert(hits(post, ql) == hits(pre, ql));
        }
        i = i + 1;
    }
    proof {
        lemma_hits_prefix(lw, ql, i as int);
        let h = hits(lw, ql);
        assert(hits(lw.take(i as int), ql) == h.take(results@.len() as int));
        if i == n {
            assert(lw.take(i as int) == lw);
        }
        assert forall|k: int| 0 <= k < results@.len() implies result_matches(
            #[trigger] results@[k],
            messages@,
            lw,
            h[k],
            ql,
        ) by {
            assert(hits(lw.take(i as int), ql)[k] == h[k]);
        }
    }
    results
}

/// Searches conversation messages for a query string (case-insensitive).
/// Returns up to `max_results` matches with message index, role, and excerpt.
pub fn search_messages(messages: &[AgentMessage], query: &str, max_results: usize) -> (r: Vec<SearchResult>)
    ensures
        r@.len() == result_count(lowered_texts(messages@), lowercase(query@), max_results as nat),
        forall|k: int|
            0 <= k < r@.len() ==> result_matches(
                #[trigger] r@[k],
                messages@,
                lowered_texts(messages@),
                hits(lowered_texts(messages@), lowercase(query@))[k],
                lowercase(query@),
            ),
        is_ascii_text(query@) ==> forall|i: int|
            0 <= i < messages@.len() && is_ascii_text(message_text(messages@[i])) ==> (hits(
                lowered_texts(messages@),
                lowercase(query@),
            ).contains(i) <==> contains(
                ascii_lower(message_text(#[trigger] messages@[i])),
                ascii_lower(query@),
            )),
{
    let query_lower = to_lowercase(query);
    let mut lowered: Vec<String> = Vec::new();
    let mut i: usize = 0;
    while i < messages.len()
        invariant
            0 <= i <= messages@.len(),
            string_views(lowered@) == lowered_texts(messages@).take(i as int),
            forall|j: int|
                0 <= j < i && is_ascii_text(message_text(messages@[j])) ==> lowercase(
                    message_text(#[trigger] messages@[j]),
                ) == ascii_lower(message_text(messages@[j])),
        decreases messages.len() - i,
    {
        let text = extract_message_text(&messages[i]);
        let ghost before = lowered@;
        lowered.push(to_lowercase(text.as_str()));
        proof {
            assert(lowered@ == before.push(lowered@.last()));
            assert(string_views(lowered@) == string_views(before).push(lowered@.last()@));
            assert(lowered_texts(messages@).take(i + 1) == lowered_texts(messages@).take(
                i as int,
            ).push(lowercase(message_text(messages@[i as int]))));
        }
        i = i + 1;
    }
    assert(lowered_texts(messages@).take(messages@.len() as int) == lowered_texts(messages@));
    proof {
        let lw = lowered_texts(messages@);
        law_search_reports_exactly_the_matches(lw, lowercase(query@));
        if is_ascii_text(query@) {
            assert forall|i: int|
                0 <= i < messages@.len() && is_ascii_text(message_text(messages@[i])) implies (
                hits(lw, lowercase(query@)).contains(i) <==> contains(
                    ascii_lower(message_text(#[trigger] messages@[i])),
                    ascii_lower(query@),
                )) by {
                assert(lw[i] == lowercase(message_text(messages@[i])));
                assert(contains(lw[i], lowercase(query@)) <==> hits(lw, lowercase(query@)).contains(i));
            }
        }
    }
    search_lowered(messages, &lowered, query_lower.as_str(), max_results)
}

/// A search reports exactly the matching messages, in order: an index is
/// listed if and only if that lowercased text contains the lowercased
/// query, and the listed indices increase.
pub proof fn law_search_reports_exactly_the_matches(lowered: Seq<Seq<char>>, query_lower: Seq<char>)
    ensures
        forall|i: int|
            hits(lowered, query_lower).contains(i) <==> (0 <= i < lowered.len() && contains(
                #[trigger] lowered[i],
                query_lower,
            )),
        forall|a: int, b: int|
            0 <= a < b < hits(lowered, query_lower).len() ==> hits(lowered, query_lower)[a] < hits(
                lowered,
                query_lower,
            )[b],
    decreases lowered.len(),
{
    lemma_hits_range(lowered, query_lower);
    if lowered.len() > 0 {
        let d = lowered.drop_last();
        law_search_reports_exactly_the_matches(d, query_lower);
        let h = hits(d, query_lower);
        assert forall|i: int|
            hits(lowered, query_lower).contains(i) <==> (0 <= i < lowered.len() && contains(
                #[trigger] lowered[i],
                query_lower,
            )) by {
            if 0 <= i < d.len() {
                assert(lowered[i] == d[i]);
            }
            if contains(lowered.last(), query_lower) {
                let g = h.push(lowered.len() - 1);
                if g.contains(i) {
                    let k = choose|k: int| 0 <= k < g.len() && g[k] == i;
                    if k < h.len() {
                        assert(h.contains(i));
                    }
                }
                if h.contains(i) {
                    let k = choose|k: int| 0 <= k < h.len() && h[k] == i;
                    assert(g[k] == i);
                }
                if i == lowered.len() - 1 {
                    assert(g[h.len() as int] == i);
                }
            } else if h.contains(i) {
                lemma_hits_range(d, query_lower);
                let k = choose|k: int| 0 <= k < h.len() && h[k] == i;
                assert(h[k] < d.len());
            }
        }
    }
}

/// A search returns at most `max_results` results, none when that is 0, and
/// never more than there are matches.
pub proof fn law_search_limit(lowered: Seq<Seq<char>>, query_lower: Seq<char>, max_results: nat)
    ensures
        result_count(lowered, query_lower, max_results) <= max_results,
        max_results == 0 ==> result_count(lowered, query_lower, max_results) == 0,
        result_count(lowered, query_lower, max_results) <= hits(lowered, query_lower).len(),
        hits(lowered, query_lower).len() <= lowered.len(),
    decreases lowered.len(),
{
    if lowered.len() > 0 {
        law_search_limit(lowered.drop_last(), query_lower, max_results);
    }
}

/// For a text that is already lowercase, the excerpt shows the match itself
/// (for a query that has no line breaks and no white space at either end,
/// which the excerpt turns into spaces or trims away).
pub proof fn law_excerpt_shows_the_match(text: Seq<char>, query: Seq<char>, ctx: nat)
    requires
        contains(text, query),
        query.len() > 0,
        !is_ws(query[0]),
        !is_ws(query.last()),
        forall|i: int| 0 <= i < query.len() ==> #[trigger] query[i] != '\n' && query[i] != '\r',
    ensures
        contains(excerpt_of(text, text, query, ctx), query),
{
    lemma_contains_find(text, query);
    lemma_find_from(text, query, 0);
    let k = find_first(text, query).unwrap();
    let m = query.len() as int;
    let n = text.len() as int;
    let sb = window_start(text, k, ctx);
    let eb = window_end(text, text, query, k, ctx);
    let s = start_from(text, sb, 0);
    let e = end_from(text, eb, 0);
    lemma_start_from(text, sb, 0);
    lemma_end_from(text, eb, 0);
    lemma_match_bytes(text, query, k);
    // the match ends at byte boff(k) + utf8_len(query)
    assert(text.take(k + m) == text.take(k) + query);
    lemma_utf8_concat(text.take(k), query);
    assert(boff(text, k + m) == boff(text, k) + utf8_len(query));
    assert(eb >= boff(text, k + m));
    // the window starts at or before the match
    if s > k {
        assert(boff(text, k) < sb);
    }
    assert(s <= k);
    // and ends at or after it
    if e < k + m {
        lemma_utf8_take_mono(text, e, k + m);
    }
    assert(e >= k + m);
    let w = text.subrange(s, e);
    let cw = collapse_newlines(w);
    assert(cw.subrange(k - s, k - s + m) == query) by {
        assert forall|i: int| 0 <= i < m implies cw.subrange(k - s, k - s + m)[i] == query[i] by {
            assert(w[k - s + i] == text[k + i]);
            assert(text[k + i] == text.subrange(k, k + m)[i]);
        }
    }
    assert(occurs_at(cw, query, k - s));
    lemma_trim_keeps_occurrence(cw, query, k - s);
    let pre = if boff(text, s) > 0 {
        seq!['…']
    } else {
        seq![]
    };
    let post = if boff(text, e) < utf8_len(text) {
        seq!['…']
    } else {
        seq![]
    };
    lemma_contains_in_middle(pre, trim(cw), post, query);
}

/// Without a match the excerpt is empty.
pub proof fn law_no_match_no_excerpt(text: Seq<char>, text_lower: Seq<char>, query_lower: Seq<char>, ctx: nat)
    requires
        !contains(text_lower, query_lower),
    ensures
        excerpt_of(text, text_lower, query_lower, ctx) == Seq::<char>::empty(),
{
    lemma_contains_find(text_lower, query_lower);
}

/// The search ignores case: two queries with the same lowercase form find
/// the same messages.
pub proof fn law_search_case_insensitive(msgs: Seq<AgentMessage>, q1: Seq<char>, q2: Seq<char>, max_results: nat)
    requires
        lowercase(q1) == lowercase(q2),
    ensures
        hits(lowered_texts(msgs), lowercase(q1)) == hits(lowered_texts(msgs), lowercase(q2)),
        result_count(lowered_texts(msgs), lowercase(q1), max_results) == result_count(
            lowered_texts(msgs),
            lowercase(q2),
            max_results,
        ),
{
}

} // verus!
