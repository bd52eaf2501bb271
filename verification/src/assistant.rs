//! The question-answering command's decisions: whether the model may be
//! asked, the citations sent ahead of the answer, and the reading of the
//! model's streamed reply line by line.

use vstd::prelude::*;

use crate::config::LlmConfig;
use crate::entities::opt_chars;
use crate::rag::ContextChunk;
use crate::text::{chars_of, copy_range, extend_chars, push_text, string_of, trim, trim_chars};

verus! {

/// A question from the front end.
#[derive(Debug, Clone)]
pub struct AskRequest {
    pub query: String,
    pub entity_ids: Option<Vec<i64>>,
    pub doc_types: Option<Vec<String>>,
    pub tag_ids: Option<Vec<i64>>,
    /// Semantic retrieval asked for (falls back to full text when unavailable).
    pub use_semantic: bool,
}

/// Documents retrieved for a question: at most this many.
pub const RAG_TOP_K: usize = 8;

/// A citation: the number `[资料N]` of a retrieved document.
#[derive(Debug, Clone)]
pub struct Citation {
    pub index: usize,
    pub doc_id: i64,
    pub title: String,
}

/// The citations of the retrieved chunks, in order.
pub fn citations(chunks: &Vec<ContextChunk>) -> (r: Vec<Citation>)
    ensures
        r@.len() == chunks@.len(),
        forall|i: int|
            0 <= i < r@.len() ==> #[trigger] r@[i].index == chunks@[i].index && r@[i].doc_id == chunks@[i].doc_id
                && r@[i].title@ == chunks@[i].title@,
{
    let mut r: Vec<Citation> = Vec::new();
    let mut i: usize = 0;
    while i < chunks.len()
        invariant
            0 <= i <= chunks@.len(),
            r@.len() == i,
            forall|k: int|
                0 <= k < i ==> #[trigger] r@[k].index == chunks@[k].index && r@[k].doc_id == chunks@[k].doc_id
                    && r@[k].title@ == chunks@[k].title@,
        decreases chunks@.len() - i,
    {
        let c = &chunks[i];
        r.push(Citation { index: c.index, doc_id: c.doc_id, title: c.title.clone() });
        i = i + 1;
    }
    r
}

/// The base URL and generation model of a usable configuration, or why the
/// model may not be asked.
pub fn rag_settings(cfg: &Option<LlmConfig>) -> (r: Result<(String, String), String>)
    ensures
        match cfg {
            None => r matches Err(m) && m@ == "未配置 AI，请先在配置页设置"@,
            Some(c) => if !c.enabled {
                r matches Err(m) && m@ == "AI 能力未启用，请在配置页开启"@
            } else if c.base_url is None {
                r matches Err(m) && m@ == "base_url 未配置"@
            } else if c.gen_model is None {
                r matches Err(m) && m@ == "生成模型未配置"@
            } else {
                r matches Ok(p) && Some(p.0@) == opt_chars(c.base_url) && Some(p.1@) == opt_chars(c.gen_model)
            },
        },
{
    match cfg {
        None => Err("未配置 AI，请先在配置页设置".to_string()),
        Some(c) => {
            if !c.enabled {
                return Err("AI 能力未启用，请在配置页开启".to_string());
            }
            let base = match &c.base_url {
                Some(b) => b.clone(),
                None => {
                    return Err("base_url 未配置".to_string());
                },
            };
            let model = match &c.gen_model {
                Some(m) => m.clone(),
                None => {
                    return Err("生成模型未配置".to_string());
                },
            };
            Ok((base, model))
        },
    }
}

/// The report of a failed model call: the status, then at most 300
/// characters of the reply.
pub open spec fn llm_error_text(status: Seq<char>, body: Seq<char>) -> Seq<char> {
    "LLM 返回错误 "@ + status + ": "@ + (if body.len() <= 300 { body } else { body.take(300) })
}

pub fn llm_error_message(status: &str, body: &str) -> (r: String)
    ensures
        r@ == llm_error_text(status@, body@),
{
    let mut v = chars_of("LLM 返回错误 ");
    push_text(&mut v, status);
    push_text(&mut v, ": ");
    let b = chars_of(body);
    let n = if b.len() <= 300 { b.len() } else { 300 };
    let t = copy_range(b.as_slice(), 0, n);
    proof {
        assert(b@.subrange(0, b@.len() as int) =~= b@);
    }
    extend_chars(&mut v, t.as_slice());
    string_of(v.as_slice())
}

/// Buffered text of a streamed reply, cut into lines as they complete.
#[derive(Debug, Clone)]
pub struct LineBuffer {
    pub buf: Vec<char>,
}

/// Position of the first line feed.
pub open spec fn first_newline(s: Seq<char>) -> Option<int> {
    if exists|i: int| 0 <= i < s.len() && s[i] == '\n' {
        Some(choose|i: int| 0 <= i < s.len() && s[i] == '\n' && forall|k: int| 0 <= k < i ==> s[k] != '\n')
    } else {
        None
    }
}

impl LineBuffer {
    pub fn new() -> (b: Self)
        ensures
            b.buf@.len() == 0,
    {
        LineBuffer { buf: Vec::new() }
    }

    /// Appends received text.
    pub fn feed(&mut self, text: &str)
        ensures
            final(self).buf@ == old(self).buf@ + text@,
    {
        push_text(&mut self.buf, text);
    }

    /// Takes the next complete line, its line feed included; none until a
    /// line feed has arrived.
    pub fn next_line(&mut self) -> (r: Option<String>)
        ensures
            match first_newline(old(self).buf@) {
                Some(p) => (r matches Some(l) && l@ == old(self).buf@.take(p + 1)) && final(self).buf@ == old(
                    self,
                ).buf@.skip(p + 1),
                None => r is None && final(self).buf@ == old(self).buf@,
            },
    {
        let n = self.buf.len();
        let mut i: usize = 0;
        while i < n
            invariant
                0 <= i <= n,
                n == self.buf@.len(),
                self.buf@ == old(self).buf@,
                forall|k: int| 0 <= k < i ==> self.buf@[k] != '\n',
            decreases n - i,
        {
            if self.buf[i] == '\n' {
                let line = copy_range(self.buf.as_slice(), 0, i + 1);
                let rest = copy_range(self.buf.as_slice(), i + 1, n);
                proof {
                    let s = old(self).buf@;
                    assert(s[i as int] == '\n');
                    let p = first_newline(s);
                    assert(p == Some(i as int)) by {
                        let c = choose|j: int| 0 <= j < s.len() && s[j] == '\n' && forall|k: int| 0 <= k < j ==> s[k] != '\n';
                        assert(0 <= i && i < s.len() && s[i as int] == '\n' && forall|k: int| 0 <= k < i ==> s[k] != '\n');
                        if c < i {
                        } else if c > i {
                            assert(s[i as int] != '\n');
                        }
                    }
                    assert(line@ =~= s.take(i + 1));
                    assert(rest@ =~= s.skip(i + 1));
                }
                self.buf = rest;
                return Some(string_of(line.as_slice()));
            }
            i = i + 1;
        }
        None
    }
}

/// What one reply line means: the end of the reply, a data payload (the text
/// after "data:", trimmed), or nothing.
#[derive(Debug, Clone)]
pub enum SseLine {
    Done,
    Data(String),
    Other,
}

/// A line with its trailing line feeds and carriage returns, then all
/// surrounding whitespace, removed.
pub open spec fn clean_line(l: Seq<char>) -> Seq<char> {
    trim(l)
}

pub open spec fn sse_line_of(l: Seq<char>) -> (bool, bool, Seq<char>) {
    let c = clean_line(l);
    if c.len() >= 5 && c.take(5) == "data:"@ {
        let d = trim(c.skip(5));
        if d == "[DONE]"@ {
            (true, false, seq![])
        } else {
            (false, true, d)
        }
    } else {
        (false, false, seq![])
    }
}

/// Reads one reply line.
pub fn classify_line(line: &str) -> (r: SseLine)
    ensures
        match r {
            SseLine::Done => sse_line_of(line@).0,
            SseLine::Data(d) => !sse_line_of(line@).0 && sse_line_of(line@).1 && d@ == sse_line_of(line@).2,
            SseLine::Other => !sse_line_of(line@).0 && !sse_line_of(line@).1,
        },
{
    let cs = chars_of(line);
    let c = trim_chars(cs.as_slice());
    proof {
        reveal_strlit("data:");
        reveal_strlit("[DONE]");
    }
    if c.len() >= 5 && c[0] == 'd' && c[1] == 'a' && c[2] == 't' && c[3] == 'a' && c[4] == ':' {
        proof {
            assert(c@.take(5) =~= "data:"@);
        }
        let rest = copy_range(c.as_slice(), 5, c.len());
        let d = trim_chars(rest.as_slice());
        proof {
            assert(rest@ =~= c@.skip(5));
        }
        let done = d.len() == 6 && d[0] == '[' && d[1] == 'D' && d[2] == 'O' && d[3] == 'N' && d[4] == 'E' && d[5]
            == ']';
        proof {
            if done {
                assert(d@ =~= "[DONE]"@);
            } else {
                if d@.len() == 6 {
                    assert(d@ != "[DONE]"@) by {
                        if d@ == "[DONE]"@ {
                            assert(d@[0] == '[' && d@[1] == 'D' && d@[2] == 'O' && d@[3] == 'N' && d@[4] == 'E'
                                && d@[5] == ']');
                        }
                    }
                }
            }
        }
        if done {
            SseLine::Done
        } else {
            SseLine::Data(string_of(d.as_slice()))
        }
    } else {
        proof {
            if c@.len() >= 5 {
                assert(c@.take(5) != "data:"@) by {
                    if c@.take(5) == "data:"@ {
                        let t = c@.take(5);
                        assert(t[0] == c@[0] && t[1] == c@[1] && t[2] == c@[2] && t[3] == c@[3] && t[4] == c@[4]);
                        assert("data:"@[0] == 'd' && "data:"@[1] == 'a' && "data:"@[2] == 't' && "data:"@[3] == 'a'
                            && "data:"@[4] == ':');
                    }
                }
            }
        }
        SseLine::Other
    }
}

/// The text of `choices[0].delta.content` in a streamed JSON payload, when it
/// is a string.
pub uninterp spec fn delta_content(payload: Seq<char>) -> Option<Seq<char>>;

/// `serde_json::from_str::<Value>` and the index path
/// `["choices"][0]["delta"]["content"]` read with `as_str`. The claim: the
/// outcome is `delta_content` of the payload (none when it does not parse).
#[verifier::external_body]
fn parse_delta(payload: &str) -> (r: Option<String>)
    ensures
        opt_chars(r) == delta_content(payload@),
{
    match serde_json::from_str::<serde_json::Value>(payload) {
        Ok(v) => v["choices"][0]["delta"]["content"].as_str().map(|s| s.to_string()),
        Err(_) => None,
    }
}

/// The token a payload carries: its delta text, when there is some.
pub fn payload_token(payload: &str) -> (r: Option<String>)
    ensures
        match delta_content(payload@) {
            Some(t) => if t.len() > 0 {
                r matches Some(s) && s@ == t
            } else {
                r is None
            },
            None => r is None,
        },
{
    match parse_delta(payload) {
        Some(t) => {
            let cs = chars_of(t.as_str());
            if cs.len() > 0 {
                Some(t)
            } else {
                None
            }
        },
        None => None,
    }
}

/// The token a reply line carries: the non-empty delta text of a data line
/// that is not the end marker.
pub open spec fn line_token(line: Seq<char>) -> Option<Seq<char>> {
    let (done, data, payload) = sse_line_of(line);
    if !done && data {
        match delta_content(payload) {
            Some(t) => if t.len() > 0 {
                Some(t)
            } else {
                None
            },
            None => None,
        }
    } else {
        None
    }
}

/// The tokens an answer streams for its reply lines, in order: one per line
/// that carries one, up to the first end marker.
pub open spec fn stream_tokens(lines: Seq<Seq<char>>) -> Seq<Seq<char>>
    decreases lines.len(),
{
    if lines.len() == 0 || sse_line_of(lines[0]).0 {
        seq![]
    } else {
        match line_token(lines[0]) {
            Some(t) => seq![t] + stream_tokens(lines.drop_first()),
            None => stream_tokens(lines.drop_first()),
        }
    }
}

/// What a reply line asks of the answer stream.
#[derive(Debug)]
pub enum LineAction {
    /// The end marker: the answer is complete.
    Finish,
    /// A token to hand on.
    Emit(String),
    /// Nothing to hand on.
    Skip,
}

/// One step of the answer stream: the end marker finishes it, a line with a
/// token emits it, any other line is skipped.
pub fn answer_line(line: &str) -> (r: LineAction)
    ensures
        (r is Finish) == sse_line_of(line@).0,
        r matches LineAction::Emit(t) ==> line_token(line@) == Some(t@),
        r is Skip ==> line_token(line@) is None,
        line_token(line@) is Some ==> r is Emit,
{
    match classify_line(line) {
        SseLine::Done => LineAction::Finish,
        SseLine::Data(payload) => match payload_token(payload.as_str()) {
            Some(t) => LineAction::Emit(t),
            None => LineAction::Skip,
        },
        SseLine::Other => LineAction::Skip,
    }
}

/// The tokens streamed for a sequence of reply lines, stepping `answer_line`
/// over them until the end marker.
pub fn answer_tokens(lines: &Vec<String>) -> (r: Vec<String>)
    ensures
        r@.map_values(|s: String| s@) == stream_tokens(lines@.map_values(|s: String| s@)),
{
    let ghost all = lines@.map_values(|s: String| s@);
    let mut out: Vec<String> = Vec::new();
    let mut i: usize = 0;
    proof {
        assert(all.skip(0) =~= all);
        assert(out@.map_values(|s: String| s@) =~= seq![]);
    }
    while i < lines.len()
        invariant_except_break
            0 <= i <= lines@.len(),
            all == lines@.map_values(|s: String| s@),
            stream_tokens(all) == out@.map_values(|s: String| s@) + stream_tokens(all.skip(i as int)),
        ensures
            stream_tokens(all) == out@.map_values(|s: String| s@),
        decreases lines@.len() - i,
    {
        let ghost rest = all.skip(i as int);
        proof {
            assert(rest[0] == lines@[i as int]@);
            assert(rest.drop_first() =~= all.skip(i + 1));
        }
        match answer_line(lines[i].as_str()) {
            LineAction::Finish => {
                proof {
                    assert(stream_tokens(rest) == Seq::<Seq<char>>::empty());
                    assert(out@.map_values(|s: String| s@) + seq![] =~= out@.map_values(|s: String| s@));
                }
                break;
            },
            LineAction::Emit(t) => {
                let ghost before = out@.map_values(|s: String| s@);
                out.push(t);
                proof {
                    assert(out@.map_values(|s: String| s@) =~= before.push(out@[out@.len() - 1]@));
                    assert(before.push(out@[out@.len() - 1]@) + stream_tokens(all.skip(i + 1)) =~= before + (seq![
                        out@[out@.len() - 1]@,
                    ] + stream_tokens(all.skip(i + 1))));
                }
            },
            LineAction::Skip => {},
        }
        i = i + 1;
    }
    out
}

} // verus!
