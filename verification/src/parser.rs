//! Reading a chat history: one JSON record per line, assistant blocks grouped by
//! message id into turns.
use vstd::prelude::*;

use crate::json::{json_models, json_parse, spec_json_parse, JsonModel, JsonValue};
use crate::message::{
    block_from, blocks_view, decode_record, messages_view, opt_view, BlockModel, ContentBlock,
    LogicalMessage, MessageModel, RawRecord, RawRecordModel,
};
use crate::text::{
    chars_of, lemma_split_lines_nonempty, split_lines, str_eq, string_of_range, trim, trim_range,
};

verus! {

/// A line that is neither blank nor a record; `line` counts from one.
#[derive(Debug)]
pub struct ParseError {
    pub line: usize,
}

/// The state of the reader between two lines: the messages so far and the
/// assistant turn being collected.
pub struct ParserModel {
    pub messages: Seq<MessageModel>,
    pub current_id: Option<Seq<char>>,
    pub current_blocks: Seq<BlockModel>,
}

/// The state before the first line.
pub open spec fn initial_model() -> ParserModel {
    ParserModel { messages: Seq::empty(), current_id: None, current_blocks: Seq::empty() }
}

/// Closing the assistant turn being collected: it becomes a message when it has
/// blocks; the id is cleared either way.
pub open spec fn flush_model(st: ParserModel) -> ParserModel {
    match st.current_id {
        Some(id) => if st.current_blocks.len() > 0 {
            ParserModel {
                messages: st.messages.push(
                    MessageModel::AssistantTurn { id, blocks: st.current_blocks },
                ),
                current_id: None,
                current_blocks: Seq::empty(),
            }
        } else {
            ParserModel { current_id: None, ..st }
        },
        None => st,
    }
}

/// The blocks that the items of a content array describe, unknown items left out.
pub open spec fn blocks_from_items(items: Seq<JsonModel>) -> Seq<BlockModel>
    decreases items.len(),
{
    if items.len() == 0 {
        Seq::empty()
    } else {
        let prev = blocks_from_items(items.drop_last());
        match block_from(items.last()) {
            Some(b) => prev.push(b),
            None => prev,
        }
    }
}

/// The blocks of a message's content: those of its items when it is an array, none otherwise.
pub open spec fn content_blocks(c: Option<JsonModel>) -> Seq<BlockModel> {
    match c {
        Some(JsonModel::Array(items)) => blocks_from_items(items),
        _ => Seq::empty(),
    }
}

/// The text of an optional string, empty when absent.
pub open spec fn or_empty(o: Option<Seq<char>>) -> Seq<char> {
    match o {
        Some(s) => s,
        None => Seq::empty(),
    }
}

/// What one record does to the reader's state.
/// - `system`: closes the open turn; an `init` subtype adds a session start.
/// - `assistant` with a message: a new id closes the open turn and opens one; the
///   blocks of the content join the open turn.
/// - `user`: closes the open turn; a message whose content has blocks adds a user turn.
/// - any other type: nothing.
pub open spec fn apply_record(st: ParserModel, rec: RawRecordModel) -> ParserModel {
    if rec.record_type == "system"@ {
        let f = flush_model(st);
        if rec.subtype == Some("init"@) {
            ParserModel {
                messages: f.messages.push(
                    MessageModel::SystemInit {
                        session_id: or_empty(rec.session_id),
                        model: or_empty(rec.model),
                        cwd: or_empty(rec.cwd),
                        tools: match rec.tools {
                            Some(t) => t,
                            None => Seq::empty(),
                        },
                    },
                ),
                ..f
            }
        } else {
            f
        }
    } else if rec.record_type == "assistant"@ {
        match rec.message {
            None => st,
            Some(msg) => {
                let id = or_empty(msg.id);
                let opened = if st.current_id == Some(id) {
                    st
                } else {
                    ParserModel { current_id: Some(id), ..flush_model(st) }
                };
                ParserModel {
                    current_blocks: opened.current_blocks + content_blocks(msg.content),
                    ..opened
                }
            },
        }
    } else if rec.record_type == "user"@ {
        let f = flush_model(st);
        match rec.message {
            Some(msg) => {
                let bs = content_blocks(msg.content);
                if msg.content is Some && bs.len() > 0 {
                    ParserModel {
                        messages: f.messages.push(MessageModel::UserTurn { blocks: bs }),
                        ..f
                    }
                } else {
                    f
                }
            },
            None => f,
        }
    } else {
        st
    }
}

/// The record on a (trimmed) line, when it holds valid JSON of the record's shape.
pub open spec fn parse_line(line: Seq<char>) -> Option<RawRecordModel> {
    match spec_json_parse(line) {
        Some(j) => decode_record(j),
        None => None,
    }
}

/// The reader's state after the given lines, or the number (from one) of the first
/// line that is neither blank nor a record. Each line is trimmed first, which also
/// removes the `'\r'` of a `"\r\n"` line ending.
pub open spec fn run_lines(lines: Seq<Seq<char>>) -> Result<ParserModel, nat>
    decreases lines.len(),
{
    if lines.len() == 0 {
        Ok(initial_model())
    } else {
        match run_lines(lines.drop_last()) {
            Err(n) => Err(n),
            Ok(st) => {
                let line = trim(lines.last());
                if line.len() == 0 {
                    Ok(st)
                } else {
                    match parse_line(line) {
                        Some(rec) => Ok(apply_record(st, rec)),
                        None => Err(lines.len()),
                    }
                }
            },
        }
    }
}

/// The messages of a chat history, or the number of its first bad line.
pub open spec fn spec_parse(content: Seq<char>) -> Result<Seq<MessageModel>, nat> {
    match run_lines(split_lines(content)) {
        Ok(st) => Ok(flush_model(st).messages),
        Err(n) => Err(n),
    }
}

/// The model of the reader's exec state.
pub open spec fn state_model(
    messages: Seq<LogicalMessage>,
    id: Option<String>,
    blocks: Seq<ContentBlock>,
) -> ParserModel {
    ParserModel {
        messages: messages_view(messages),
        current_id: opt_view(id),
        current_blocks: blocks_view(blocks),
    }
}

proof fn lemma_split_lines_prefix(s: Seq<char>, i: int, j: int)
    requires
        0 <= i <= j <= s.len(),
    ensures
        split_lines(s.take(i)).len() <= split_lines(s.take(j)).len(),
        split_lines(s.take(j)).take(split_lines(s.take(i)).len() - 1) == split_lines(
            s.take(i),
        ).drop_last(),
    decreases j - i,
{
    lemma_split_lines_nonempty(s.take(i));
    if i < j {
        lemma_split_lines_prefix(s, i, j - 1);
        lemma_split_lines_nonempty(s.take(j - 1));
        assert(s.take(j).drop_last() =~= s.take(j - 1));
        let k = split_lines(s.take(i)).len() - 1;
        assert(split_lines(s.take(j)).take(k) =~= split_lines(s.take(j - 1)).take(k));
    } else {
        assert(split_lines(s.take(i)).take(split_lines(s.take(i)).len() - 1) =~= split_lines(
            s.take(i),
        ).drop_last());
    }
}

proof fn lemma_run_lines_error_persists(l: Seq<Seq<char>>, m: Seq<Seq<char>>, n: nat)
    requires
        run_lines(l) == Err::<ParserModel, nat>(n),
        l.len() <= m.len(),
        m.take(l.len() as int) == l,
    ensures
        run_lines(m) == Err::<ParserModel, nat>(n),
    decreases m.len(),
{
    if m.len() == l.len() {
        assert(m =~= l);
    } else {
        assert(m.drop_last().take(l.len() as int) =~= l);
        lemma_run_lines_error_persists(l, m.drop_last(), n);
    }
}

/// Closes the open assistant turn: it becomes a message when it has blocks.
pub fn flush_assistant(
    id: &mut Option<String>,
    blocks: &mut Vec<ContentBlock>,
    messages: &mut Vec<LogicalMessage>,
)
    ensures
        state_model(final(messages)@, *final(id), final(blocks)@) == flush_model(
            state_model(old(messages)@, *old(id), old(blocks)@),
        ),
{
    let taken = id.take();
    match taken {
        Some(msg_id) => {
            if blocks.len() > 0 {
                let mut collected: Vec<ContentBlock> = Vec::new();
                std::mem::swap(&mut collected, blocks);
                let ghost prev = messages@;
                messages.push(LogicalMessage::AssistantTurn { id: msg_id, blocks: collected });
                proof {
                    assert(messages_view(messages@) =~= messages_view(prev).push(
                        MessageModel::AssistantTurn {
                            id: msg_id@,
                            blocks: blocks_view(collected@),
                        },
                    ));
                    assert(blocks_view(blocks@) =~= Seq::<BlockModel>::empty());
                }
            }
        },
        None => {},
    }
}

/// Appends to `blocks` the blocks that the items describe.
fn push_blocks(blocks: &mut Vec<ContentBlock>, items: &Vec<JsonValue>)
    ensures
        blocks_view(final(blocks)@) == blocks_view(old(blocks)@) + blocks_from_items(
            json_models(items@),
        ),
{
    let ghost ms = json_models(items@);
    let ghost start = blocks_view(blocks@);
    proof {
        crate::json::lemma_json_models_index(items@);
        assert(start + blocks_from_items(ms.take(0)) =~= start);
    }
    let mut i: usize = 0;
    while i < items.len()
        invariant
            i <= items@.len(),
            ms == json_models(items@),
            ms.len() == items@.len(),
            forall|j: int| 0 <= j < items@.len() ==> #[trigger] ms[j] == items@[j]@,
            blocks_view(blocks@) == start + blocks_from_items(ms.take(i as int)),
        decreases items.len() - i,
    {
        proof {
            assert(ms.take(i + 1).drop_last() =~= ms.take(i as int));
        }
        match ContentBlock::from_value(&items[i]) {
            Some(b) => {
                let ghost prev = blocks@;
                blocks.push(b);
                proof {
                    assert(blocks_view(blocks@) =~= blocks_view(prev).push(b@));
                }
            },
            None => {},
        }
        i = i + 1;
    }
    proof {
        assert(ms.take(items@.len() as int) =~= ms);
    }
}

/// Appends to `blocks` the blocks of a message's content.
fn push_content_blocks(blocks: &mut Vec<ContentBlock>, content: &Option<JsonValue>)
    ensures
        blocks_view(final(blocks)@) == blocks_view(old(blocks)@) + content_blocks(
            crate::message::opt_json_view(*content),
        ),
{
    match content {
        Some(JsonValue::Array(items)) => push_blocks(blocks, items),
        _ => {
            proof {
                assert(blocks_view(blocks@) + Seq::<BlockModel>::empty() =~= blocks_view(blocks@));
            }
        },
    }
}

/// The text of an optional string, empty when absent.
fn string_or_empty(o: Option<String>) -> (r: String)
    ensures
        r@ == or_empty(opt_view(o)),
{
    match o {
        Some(s) => s,
        None => String::new(),
    }
}

/// What one record does to the reader's state (see `apply_record`).
pub fn apply(
    rec: RawRecord,
    id: &mut Option<String>,
    blocks: &mut Vec<ContentBlock>,
    messages: &mut Vec<LogicalMessage>,
)
    ensures
        state_model(final(messages)@, *final(id), final(blocks)@) == apply_record(
            state_model(old(messages)@, *old(id), old(blocks)@),
            rec@,
        ),
{
    let ghost st = state_model(messages@, *id, blocks@);
    if str_eq(rec.record_type.as_str(), "system") {
        flush_assistant(id, blocks, messages);
        let is_init = match &rec.subtype {
            Some(s) => str_eq(s.as_str(), "init"),
            None => false,
        };
        if is_init {
            let tools = match rec.tools {
                Some(t) => t,
                None => {
                    let v: Vec<String> = Vec::new();
                    proof {
                        assert(crate::message::strings_view(v@) =~= Seq::<Seq<char>>::empty());
                    }
                    v
                },
            };
            let m = LogicalMessage::SystemInit {
                session_id: string_or_empty(rec.session_id),
                model: string_or_empty(rec.model),
                cwd: string_or_empty(rec.cwd),
                tools,
            };
            let ghost prev = messages@;
            messages.push(m);
            proof {
                assert(messages_view(messages@) =~= messages_view(prev).push(m@));
            }
        }
    } else if str_eq(rec.record_type.as_str(), "assistant") {
        match rec.message {
            Some(msg) => {
                let msg_id = string_or_empty(msg.id);
                let same = match &*id {
                    Some(cur) => str_eq(cur.as_str(), msg_id.as_str()),
                    None => false,
                };
                if !same {
                    flush_assistant(id, blocks, messages);
                    *id = Some(msg_id);
                }
                push_content_blocks(blocks, &msg.content);
            },
            None => {},
        }
    } else if str_eq(rec.record_type.as_str(), "user") {
        flush_assistant(id, blocks, messages);
        match rec.message {
            Some(msg) => {
                if msg.content.is_some() {
                    let mut bs: Vec<ContentBlock> = Vec::new();
                    let ghost empty = blocks_view(bs@);
                    push_content_blocks(&mut bs, &msg.content);
                    proof {
                        assert(empty =~= Seq::<BlockModel>::empty());
                        assert(empty + content_blocks(
                            crate::message::opt_json_view(msg.content),
                        ) =~= content_blocks(crate::message::opt_json_view(msg.content)));
                    }
                    if bs.len() > 0 {
                        let ghost prev = messages@;
                        let m = LogicalMessage::UserTurn { blocks: bs };
                        messages.push(m);
                        proof {
                            assert(messages_view(messages@) =~= messages_view(prev).push(m@));
                        }
                    }
                }
            },
            None => {},
        }
    }
}

/// The record on a (trimmed) line, if it holds one (see `parse_line`).
pub fn parse_record_line(line: &str) -> (r: Option<RawRecord>)
    ensures
        match r {
            Some(rec) => parse_line(line@) == Some(rec@),
            None => parse_line(line@) is None,
        },
{
    match json_parse(line) {
        Some(j) => RawRecord::from_json(&j),
        None => None,
    }
}

/// Reads the line `cs[lo..hi]` into the reader's state: a blank line leaves it as
/// it is, a record acts on it; `false` for a line that is neither.
fn read_line(
    cs: &Vec<char>,
    lo: usize,
    hi: usize,
    id: &mut Option<String>,
    blocks: &mut Vec<ContentBlock>,
    messages: &mut Vec<LogicalMessage>,
) -> (ok: bool)
    requires
        lo <= hi <= cs@.len(),
    ensures
        ({
            let line = trim(cs@.subrange(lo as int, hi as int));
            let before = state_model(old(messages)@, *old(id), old(blocks)@);
            let after = state_model(final(messages)@, *final(id), final(blocks)@);
            &&& ok == (line.len() == 0 || parse_line(line) is Some)
            &&& line.len() == 0 ==> after == before
            &&& line.len() > 0 ==> (parse_line(line) matches Some(rec) ==> after == apply_record(
                before,
                rec,
            ))
        }),
{
    let (a, b) = trim_range(cs, lo, hi);
    if a < b {
        let line = string_of_range(cs, a, b);
        match parse_record_line(line.as_str()) {
            Some(rec) => {
                apply(rec, id, blocks, messages);
                true
            },
            None => false,
        }
    } else {
        true
    }
}

/// Reads a chat history: the messages of its records in order, or the number of its
/// first line that is neither blank nor a record (see `spec_parse`). A record is read
/// from the JSON value that `serde_json` gives for the whole line, so a member name
/// that an object repeats counts with its last value, and a line is refused wherever
/// `serde_json` cannot read a value in it, even in a member the record does not use
/// (a number out of range such as `1e400`).
pub fn parse_str(content: &str) -> (r: Result<Vec<LogicalMessage>, ParseError>)
    ensures
        match r {
            Ok(v) => spec_parse(content@) == Ok::<Seq<MessageModel>, nat>(messages_view(v@)),
            Err(e) => spec_parse(content@) == Err::<Seq<MessageModel>, nat>(e.line as nat),
        },
{
    let cs = chars_of(content);
    let mut messages: Vec<LogicalMessage> = Vec::new();
    let mut current_id: Option<String> = None;
    let mut current_blocks: Vec<ContentBlock> = Vec::new();
    let mut seg_start: usize = 0;
    let mut line_no: usize = 0;
    let mut i: usize = 0;
    proof {
        assert(cs@.take(0) =~= Seq::<char>::empty());
        assert(cs@.subrange(0, 0) =~= Seq::<char>::empty());
        assert(messages_view(messages@) =~= Seq::<MessageModel>::empty());
        assert(blocks_view(current_blocks@) =~= Seq::<BlockModel>::empty());
    }
    while i < cs.len()
        invariant
            i <= cs@.len(),
            cs@ == content@,
            line_no <= seg_start <= i,
            split_lines(cs@.take(i as int)).len() == line_no + 1,
            split_lines(cs@.take(i as int)).last() == cs@.subrange(seg_start as int, i as int),
            run_lines(split_lines(cs@.take(i as int)).drop_last()) == Ok::<ParserModel, nat>(
                state_model(messages@, current_id, current_blocks@),
            ),
        decreases cs.len() - i,
    {
        let ghost before = split_lines(cs@.take(i as int));
        proof {
            assert(cs@.take(i + 1).drop_last() =~= cs@.take(i as int));
            lemma_split_lines_nonempty(cs@.take(i as int));
        }
        if cs[i] == '\n' {
            let ok = read_line(&cs, seg_start, i, &mut current_id, &mut current_blocks, &mut messages);
            if !ok {
                proof {
                    assert(split_lines(cs@.take(i + 1)).drop_last() =~= before);
                    assert(run_lines(before) == Err::<ParserModel, nat>((line_no + 1) as nat));
                    lemma_split_lines_prefix(cs@, i + 1, cs@.len() as int);
                    assert(cs@.take(cs@.len() as int) =~= cs@);
                    lemma_split_lines_nonempty(cs@.take(i + 1));
                    assert(split_lines(cs@.take(i + 1)) =~= before.push(Seq::<char>::empty()));
                    assert(split_lines(cs@).take(before.len() as int) == before);
                    lemma_run_lines_error_persists(before, split_lines(cs@), (line_no + 1) as nat);
                }
                return Err(ParseError { line: line_no + 1 });
            }
            proof {
                assert(split_lines(cs@.take(i + 1)).drop_last() =~= before);
                assert(cs@.subrange(i + 1, i + 1) =~= Seq::<char>::empty());
            }
            seg_start = i + 1;
            line_no = line_no + 1;
        } else {
            proof {
                let after = split_lines(cs@.take(i + 1));
                assert(after.drop_last() =~= before.drop_last());
                assert(after.last() =~= cs@.subrange(seg_start as int, i + 1));
            }
        }
        i = i + 1;
    }
    proof {
        assert(cs@.take(cs@.len() as int) =~= cs@);
        lemma_split_lines_nonempty(cs@);
    }
    if !read_line(&cs, seg_start, cs.len(), &mut current_id, &mut current_blocks, &mut messages) {
        return Err(ParseError { line: line_no + 1 });
    }
    flush_assistant(&mut current_id, &mut current_blocks, &mut messages);
    Ok(messages)
}

// ── Laws ─────────────────────────────────────────────────────────────────────

/// A final line ending changes nothing: the history reads the same with or without it.
pub proof fn law_final_newline_ignored(content: Seq<char>)
    ensures
        spec_parse(content.push('\n')) == spec_parse(content),
{
    let c2 = content.push('\n');
    assert(c2.drop_last() =~= content);
    assert(split_lines(c2) == split_lines(content).push(Seq::empty()));
    assert(split_lines(c2).drop_last() =~= split_lines(content));
    assert(trim(Seq::<char>::empty()) =~= Seq::<char>::empty());
}

proof fn lemma_run_lines_error_bound(lines: Seq<Seq<char>>)
    ensures
        run_lines(lines) matches Err(n) ==> 1 <= n <= lines.len(),
    decreases lines.len(),
{
    if lines.len() > 0 {
        lemma_run_lines_error_bound(lines.drop_last());
    }
}

/// Where the first bad line of `lines` is, once a blank line is put in at index `k`.
pub open spec fn shifted_error(r: Result<ParserModel, nat>, k: int) -> Result<ParserModel, nat> {
    match r {
        Ok(st) => Ok(st),
        Err(n) => if n > k {
            Err((n + 1) as nat)
        } else {
            Err(n)
        },
    }
}

/// A line that reading passes over: blank, or a record of a type other than
/// `system`, `assistant` and `user`.
pub open spec fn skippable(line: Seq<char>) -> bool {
    ||| trim(line).len() == 0
    ||| match parse_line(trim(line)) {
        Some(rec) => rec.record_type != "system"@ && rec.record_type != "assistant"@
            && rec.record_type != "user"@,
        None => false,
    }
}

/// Skipped lines change nothing: putting a blank line or a record of another type
/// in anywhere gives the same messages, and moves a bad line's number by one when
/// it comes after it.
pub proof fn law_skipped_line_in_lines(lines: Seq<Seq<char>>, k: int, extra: Seq<char>)
    requires
        0 <= k <= lines.len(),
        skippable(extra),
    ensures
        run_lines(lines.insert(k, extra)) == shifted_error(run_lines(lines), k),
    decreases lines.len(),
{
    let ins = lines.insert(k, extra);
    lemma_run_lines_error_bound(lines);
    if k == lines.len() {
        assert(ins.drop_last() =~= lines);
        assert(ins.last() == extra);
    } else {
        let d = lines.drop_last();
        law_skipped_line_in_lines(d, k, extra);
        lemma_run_lines_error_bound(d);
        assert(ins.drop_last() =~= d.insert(k, extra));
        assert(ins.last() == lines.last());
        assert(ins.len() == lines.len() + 1);
    }
}

/// Text without a line break is one line.
proof fn lemma_split_lines_single(x: Seq<char>)
    requires
        forall|i: int| 0 <= i < x.len() ==> x[i] != '\n',
    ensures
        split_lines(x) == seq![x],
    decreases x.len(),
{
    if x.len() > 0 {
        lemma_split_lines_single(x.drop_last());
        assert(x.drop_last().push(x.last()) =~= x);
        assert(seq![x.drop_last()].update(0, x.drop_last().push(x.last())) =~= seq![x]);
    } else {
        assert(x =~= Seq::<char>::empty());
    }
}

/// Cutting text after a line ending: the lines of the first part, then those of the second.
proof fn lemma_split_lines_concat(a: Seq<char>, b: Seq<char>)
    requires
        a.len() == 0 || a.last() == '\n',
    ensures
        split_lines(a + b) == split_lines(a).drop_last() + split_lines(b),
    decreases b.len(),
{
    lemma_split_lines_nonempty(a);
    if b.len() == 0 {
        assert(a + b =~= a);
        if a.len() == 0 {
            assert(split_lines(a).drop_last() + split_lines(b) =~= split_lines(a));
        } else {
            assert(split_lines(a) == split_lines(a.drop_last()).push(Seq::<char>::empty()));
            assert(split_lines(a).drop_last() + split_lines(b) =~= split_lines(a));
        }
    } else {
        let b1 = b.drop_last();
        lemma_split_lines_concat(a, b1);
        lemma_split_lines_nonempty(b1);
        assert((a + b).drop_last() =~= a + b1);
        assert((a + b).last() == b.last());
        let s = split_lines(a).drop_last();
        let p = split_lines(a + b1);
        assert(p == s + split_lines(b1));
        if b.last() == '\n' {
            assert(split_lines(a + b) == p.push(Seq::<char>::empty()));
            assert(split_lines(b) == split_lines(b1).push(Seq::<char>::empty()));
            assert(p.push(Seq::<char>::empty()) =~= s + split_lines(b1).push(Seq::<char>::empty()));
        } else {
            let q = split_lines(b1);
            assert(split_lines(b) == q.update(q.len() - 1, q.last().push(b.last())));
            assert(p.last() == q.last());
            assert(split_lines(a + b) == p.update(p.len() - 1, p.last().push(b.last())));
            assert(p.update(p.len() - 1, p.last().push(b.last())) =~= s + q.update(
                q.len() - 1,
                q.last().push(b.last()),
            ));
        }
    }
}

/// Where the first bad line of a text is, once a line is put in at line `k`.
pub open spec fn shifted_parse(r: Result<Seq<MessageModel>, nat>, k: int) -> Result<
    Seq<MessageModel>,
    nat,
> {
    match r {
        Ok(ms) => Ok(ms),
        Err(n) => if n > k {
            Err((n + 1) as nat)
        } else {
            Err(n)
        },
    }
}

/// Skipped lines change nothing in a history: putting in, after any line ending,
/// a line that is blank or holds a record of another type gives the same messages,
/// and moves the number of a later bad line by one.
pub proof fn law_skipped_line_changes_nothing(a: Seq<char>, x: Seq<char>, b: Seq<char>)
    requires
        a.len() == 0 || a.last() == '\n',
        forall|i: int| 0 <= i < x.len() ==> x[i] != '\n',
        skippable(x),
    ensures
        spec_parse(a + x.push('\n') + b) == shifted_parse(
            spec_parse(a + b),
            split_lines(a).len() - 1,
        ),
{
    let xl = x.push('\n');
    lemma_split_lines_single(x);
    assert(xl.drop_last() =~= x);
    assert(split_lines(xl) == seq![x].push(Seq::<char>::empty()));
    lemma_split_lines_concat(a, xl);
    let a2 = a + xl;
    assert(a2.last() == '\n');
    lemma_split_lines_concat(a2, b);
    lemma_split_lines_concat(a, b);
    assert(a + xl + b =~= a2 + b);
    let s = split_lines(a).drop_last();
    lemma_split_lines_nonempty(a);
    let k = s.len() as int;
    assert(split_lines(a2) =~= s + seq![x, Seq::<char>::empty()]);
    assert(split_lines(a2).drop_last() =~= s.push(x));
    let l1 = split_lines(a + b);
    assert(l1 == s + split_lines(b));
    assert(split_lines(a2 + b) =~= l1.insert(k, x));
    law_skipped_line_in_lines(l1, k, x);
}

/// The lines `xs`, each followed by a line ending.
pub open spec fn line_block(xs: Seq<Seq<char>>) -> Seq<char>
    decreases xs.len(),
{
    if xs.len() == 0 {
        Seq::empty()
    } else {
        xs[0].push('\n') + line_block(xs.drop_first())
    }
}

/// Where the first bad line of a text is, once `m` lines are put in at line `k`.
pub open spec fn shifted_parse_by(r: Result<Seq<MessageModel>, nat>, k: int, m: nat) -> Result<
    Seq<MessageModel>,
    nat,
> {
    match r {
        Ok(ms) => Ok(ms),
        Err(n) => if n > k {
            Err(n + m)
        } else {
            Err(n)
        },
    }
}

/// Skipped lines change nothing in a history, however many: putting in, after any
/// line ending, lines that are each blank or hold a record of another type gives the
/// same messages, and moves the number of a later bad line by as many lines.
pub proof fn law_skipped_lines_change_nothing(a: Seq<char>, xs: Seq<Seq<char>>, b: Seq<char>)
    requires
        a.len() == 0 || a.last() == '\n',
        forall|j: int, i: int| 0 <= j < xs.len() && 0 <= i < xs[j].len() ==> xs[j][i] != '\n',
        forall|j: int| 0 <= j < xs.len() ==> #[trigger] skippable(xs[j]),
    ensures
        spec_parse(a + line_block(xs) + b) == shifted_parse_by(
            spec_parse(a + b),
            split_lines(a).len() - 1,
            xs.len(),
        ),
    decreases xs.len(),
{
    let k = split_lines(a).len() - 1;
    if xs.len() == 0 {
        assert(a + line_block(xs) + b =~= a + b);
        match spec_parse(a + b) {
            Ok(_) => {},
            Err(n) => {},
        }
    } else {
        let x = xs[0];
        let rest = xs.drop_first();
        assert(skippable(xs[0]));
        assert forall|i: int| 0 <= i < x.len() implies x[i] != '\n' by {
            assert(xs[0][i] != '\n');
        }
        let xl = x.push('\n');
        let a2 = a + xl;
        assert(a2.last() == '\n');
        assert forall|j: int, i: int| 0 <= j < rest.len() && 0 <= i < rest[j].len() implies rest[j][i]
            != '\n' by {
            assert(rest[j] == xs[j + 1]);
        }
        assert forall|j: int| 0 <= j < rest.len() implies #[trigger] skippable(rest[j]) by {
            assert(rest[j] == xs[j + 1]);
            assert(skippable(xs[j + 1]));
        }
        law_skipped_lines_change_nothing(a2, rest, b);
        law_skipped_line_changes_nothing(a, x, b);
        lemma_split_lines_single(x);
        assert(xl.drop_last() =~= x);
        lemma_split_lines_concat(a, xl);
        lemma_split_lines_nonempty(a);
        assert(split_lines(a2).len() - 1 == k + 1);
        assert(a + line_block(xs) + b =~= a2 + line_block(rest) + b);
        assert(a2 + b =~= a + x.push('\n') + b);
    }
}

/// The messages read so far are turns with at least one block, or session starts.
pub open spec fn turns_have_blocks(ms: Seq<MessageModel>) -> bool {
    forall|i: int|
        0 <= i < ms.len() ==> match #[trigger] ms[i] {
            MessageModel::AssistantTurn { blocks, .. } => blocks.len() > 0,
            MessageModel::UserTurn { blocks } => blocks.len() > 0,
            MessageModel::SystemInit { .. } => true,
        }
}

proof fn lemma_run_lines_turns(lines: Seq<Seq<char>>)
    ensures
        run_lines(lines) matches Ok(st) ==> turns_have_blocks(st.messages),
    decreases lines.len(),
{
    if lines.len() > 0 {
        lemma_run_lines_turns(lines.drop_last());
        match run_lines(lines.drop_last()) {
            Ok(st) => {
                let f = flush_model(st);
                assert(turns_have_blocks(f.messages));
                let line = trim(lines.last());
                if line.len() > 0 {
                    match parse_line(line) {
                        Some(rec) => {
                            let st2 = apply_record(st, rec);
                            if rec.record_type == "assistant"@ {
                                match rec.message {
                                    Some(msg) => {
                                        let id = or_empty(msg.id);
                                        if st.current_id != Some(id) {
                                            assert(turns_have_blocks(flush_model(st).messages));
                                        }
                                    },
                                    None => {},
                                }
                            }
                            assert(turns_have_blocks(st2.messages));
                        },
                        None => {},
                    }
                }
            },
            Err(_) => {},
        }
    }
}

/// Every turn that reading gives has at least one block: turns whose records hold
/// no known block are left out.
pub proof fn law_turns_have_blocks(content: Seq<char>)
    ensures
        spec_parse(content) matches Ok(ms) ==> turns_have_blocks(ms),
{
    lemma_run_lines_turns(split_lines(content));
    match run_lines(split_lines(content)) {
        Ok(st) => {
            assert(turns_have_blocks(flush_model(st).messages));
        },
        Err(_) => {},
    }
}

/// The blocks of a message: none for a session start.
pub open spec fn message_blocks(m: MessageModel) -> Seq<BlockModel> {
    match m {
        MessageModel::SystemInit { .. } => Seq::empty(),
        MessageModel::AssistantTurn { blocks, .. } => blocks,
        MessageModel::UserTurn { blocks } => blocks,
    }
}

/// The blocks of all messages, one message after the other.
pub open spec fn all_blocks(ms: Seq<MessageModel>) -> Seq<BlockModel>
    decreases ms.len(),
{
    if ms.len() == 0 {
        Seq::empty()
    } else {
        all_blocks(ms.drop_last()) + message_blocks(ms.last())
    }
}

/// The blocks that a record carries: those of the content of an assistant or user
/// message, none for other records.
pub open spec fn record_blocks(rec: RawRecordModel) -> Seq<BlockModel> {
    if rec.record_type == "assistant"@ || rec.record_type == "user"@ {
        match rec.message {
            Some(msg) => content_blocks(msg.content),
            None => Seq::empty(),
        }
    } else {
        Seq::empty()
    }
}

/// The blocks that the records on the given lines carry, line after line.
pub open spec fn lines_blocks(lines: Seq<Seq<char>>) -> Seq<BlockModel>
    decreases lines.len(),
{
    if lines.len() == 0 {
        Seq::empty()
    } else {
        let line = trim(lines.last());
        lines_blocks(lines.drop_last()) + if line.len() > 0 {
            match parse_line(line) {
                Some(rec) => record_blocks(rec),
                None => Seq::empty(),
            }
        } else {
            Seq::empty()
        }
    }
}

/// The blocks held by a reader's state: those of its messages, then the open turn's.
pub open spec fn held_blocks(st: ParserModel) -> Seq<BlockModel> {
    all_blocks(st.messages) + st.current_blocks
}

proof fn lemma_all_blocks_push(ms: Seq<MessageModel>, m: MessageModel)
    ensures
        all_blocks(ms.push(m)) == all_blocks(ms) + message_blocks(m),
{
    assert(ms.push(m).drop_last() =~= ms);
}

proof fn lemma_flush_holds(st: ParserModel)
    requires
        st.current_id is None ==> st.current_blocks.len() == 0,
    ensures
        held_blocks(flush_model(st)) == held_blocks(st),
        flush_model(st).current_id is None,
        flush_model(st).current_blocks.len() == 0,
{
    match st.current_id {
        Some(id) => {
            if st.current_blocks.len() > 0 {
                lemma_all_blocks_push(
                    st.messages,
                    MessageModel::AssistantTurn { id, blocks: st.current_blocks },
                );
                assert(held_blocks(flush_model(st)) =~= held_blocks(st));
            } else {
                assert(held_blocks(flush_model(st)) =~= held_blocks(st));
            }
        },
        None => {
            assert(held_blocks(st) =~= all_blocks(st.messages));
        },
    }
}

proof fn lemma_apply_holds(st: ParserModel, rec: RawRecordModel)
    requires
        st.current_id is None ==> st.current_blocks.len() == 0,
    ensures
        held_blocks(apply_record(st, rec)) == held_blocks(st) + record_blocks(rec),
        apply_record(st, rec).current_id is None ==> apply_record(st, rec).current_blocks.len()
            == 0,
{
    lemma_flush_holds(st);
    let f = flush_model(st);
    if rec.record_type == "system"@ {
        reveal_strlit("system");
        reveal_strlit("assistant");
        reveal_strlit("user");
        assert("system"@[0] != "assistant"@[0]);
        assert("system"@[0] != "user"@[0]);
        assert(record_blocks(rec) =~= Seq::<BlockModel>::empty());
        if rec.subtype == Some("init"@) {
            let m = MessageModel::SystemInit {
                session_id: or_empty(rec.session_id),
                model: or_empty(rec.model),
                cwd: or_empty(rec.cwd),
                tools: match rec.tools {
                    Some(t) => t,
                    None => Seq::empty(),
                },
            };
            lemma_all_blocks_push(f.messages, m);
        }
        assert(held_blocks(apply_record(st, rec)) =~= held_blocks(st) + record_blocks(rec));
    } else if rec.record_type == "assistant"@ {
        match rec.message {
            None => {
                assert(held_blocks(apply_record(st, rec)) =~= held_blocks(st) + record_blocks(rec));
            },
            Some(msg) => {
                let id = or_empty(msg.id);
                if st.current_id == Some(id) {
                    assert(held_blocks(apply_record(st, rec)) =~= held_blocks(st) + record_blocks(
                        rec,
                    ));
                } else {
                    assert(held_blocks(apply_record(st, rec)) =~= held_blocks(f) + record_blocks(
                        rec,
                    ));
                }
            },
        }
    } else if rec.record_type == "user"@ {
        match rec.message {
            Some(msg) => {
                let bs = content_blocks(msg.content);
                if msg.content is Some && bs.len() > 0 {
                    lemma_all_blocks_push(f.messages, MessageModel::UserTurn { blocks: bs });
                    assert(held_blocks(apply_record(st, rec)) =~= held_blocks(f) + bs);
                } else {
                    assert(bs =~= Seq::<BlockModel>::empty());
                    assert(held_blocks(apply_record(st, rec)) =~= held_blocks(f) + bs);
                }
            },
            None => {
                assert(held_blocks(apply_record(st, rec)) =~= held_blocks(f) + record_blocks(rec));
            },
        }
    } else {
        assert(held_blocks(apply_record(st, rec)) =~= held_blocks(st) + record_blocks(rec));
    }
}

proof fn lemma_run_lines_holds(lines: Seq<Seq<char>>)
    ensures
        run_lines(lines) matches Ok(st) ==> {
            &&& held_blocks(st) == lines_blocks(lines)
            &&& st.current_id is None ==> st.current_blocks.len() == 0
        },
    decreases lines.len(),
{
    if lines.len() == 0 {
        assert(held_blocks(initial_model()) =~= Seq::<BlockModel>::empty());
    } else {
        lemma_run_lines_holds(lines.drop_last());
        match run_lines(lines.drop_last()) {
            Ok(st) => {
                let line = trim(lines.last());
                if line.len() > 0 {
                    match parse_line(line) {
                        Some(rec) => {
                            lemma_apply_holds(st, rec);
                        },
                        None => {},
                    }
                } else {
                    assert(lines_blocks(lines) =~= lines_blocks(lines.drop_last()));
                }
            },
            Err(_) => {},
        }
    }
}

/// Grouping loses, invents and reorders no block: the blocks of the messages read,
/// one message after the other, are exactly the blocks that the assistant and user
/// records carry, line after line.
pub proof fn law_grouping_keeps_every_block(content: Seq<char>)
    ensures
        spec_parse(content) matches Ok(ms) ==> all_blocks(ms) == lines_blocks(
            split_lines(content),
        ),
{
    lemma_run_lines_holds(split_lines(content));
    match run_lines(split_lines(content)) {
        Ok(st) => {
            lemma_flush_holds(st);
            assert(held_blocks(flush_model(st)) =~= all_blocks(flush_model(st).messages));
        },
        Err(_) => {},
    }
}

// ── Order of messages ────────────────────────────────────────────────────────

/// `ms` begins with the messages `p`, in order.
pub open spec fn starts_with(ms: Seq<MessageModel>, p: Seq<MessageModel>) -> bool {
    p.len() <= ms.len() && ms.take(p.len() as int) == p
}

proof fn lemma_starts_with_trans(a: Seq<MessageModel>, b: Seq<MessageModel>, c: Seq<MessageModel>)
    requires
        starts_with(b, a),
        starts_with(c, b),
    ensures
        starts_with(c, a),
{
    assert(c.take(a.len() as int) =~= c.take(b.len() as int).take(a.len() as int));
}

proof fn lemma_flush_extends(st: ParserModel)
    ensures
        starts_with(flush_model(st).messages, st.messages),
{
    assert(st.messages.take(st.messages.len() as int) =~= st.messages);
    match st.current_id {
        Some(id) => if st.current_blocks.len() > 0 {
            let m = MessageModel::AssistantTurn { id, blocks: st.current_blocks };
            assert(st.messages.push(m).take(st.messages.len() as int) =~= st.messages);
        },
        None => {},
    }
}

proof fn lemma_push_extends(ms: Seq<MessageModel>, m: MessageModel)
    ensures
        starts_with(ms.push(m), ms),
{
    assert(ms.push(m).take(ms.len() as int) =~= ms);
}

/// A record only adds messages after those already read.
proof fn lemma_apply_extends(st: ParserModel, rec: RawRecordModel)
    ensures
        starts_with(apply_record(st, rec).messages, st.messages),
{
    lemma_flush_extends(st);
    let f = flush_model(st);
    assert(st.messages.take(st.messages.len() as int) =~= st.messages);
    if rec.record_type == "system"@ {
        if rec.subtype == Some("init"@) {
            let m = MessageModel::SystemInit {
                session_id: or_empty(rec.session_id),
                model: or_empty(rec.model),
                cwd: or_empty(rec.cwd),
                tools: match rec.tools {
                    Some(t) => t,
                    None => Seq::empty(),
                },
            };
            lemma_push_extends(f.messages, m);
            lemma_starts_with_trans(st.messages, f.messages, f.messages.push(m));
        }
    } else if rec.record_type == "assistant"@ {
        match rec.message {
            None => {},
            Some(msg) => {},
        }
    } else if rec.record_type == "user"@ {
        match rec.message {
            Some(msg) => {
                let bs = content_blocks(msg.content);
                if msg.content is Some && bs.len() > 0 {
                    let m = MessageModel::UserTurn { blocks: bs };
                    lemma_push_extends(f.messages, m);
                    lemma_starts_with_trans(st.messages, f.messages, f.messages.push(m));
                }
            },
            None => {},
        }
    }
}

/// Reading more lines only adds messages after those of the first lines.
proof fn lemma_run_extends(l1: Seq<Seq<char>>, l2: Seq<Seq<char>>)
    ensures
        run_lines(l1 + l2) matches Ok(s2) ==> (run_lines(l1) matches Ok(s1) && starts_with(
            s2.messages,
            s1.messages,
        )),
    decreases l2.len(),
{
    if l2.len() == 0 {
        assert(l1 + l2 =~= l1);
        match run_lines(l1) {
            Ok(s1) => {
                assert(s1.messages.take(s1.messages.len() as int) =~= s1.messages);
            },
            Err(_) => {},
        }
    } else {
        let l = l1 + l2;
        assert(l.drop_last() =~= l1 + l2.drop_last());
        lemma_run_extends(l1, l2.drop_last());
        match run_lines(l.drop_last()) {
            Ok(sm) => {
                assert(sm.messages.take(sm.messages.len() as int) =~= sm.messages);
                let line = trim(l.last());
                if line.len() > 0 {
                    match parse_line(line) {
                        Some(rec) => {
                            lemma_apply_extends(sm, rec);
                        },
                        None => {},
                    }
                }
                match run_lines(l) {
                    Ok(s2) => {
                        assert(starts_with(s2.messages, sm.messages));
                        match run_lines(l1) {
                            Ok(s1) => {
                                lemma_starts_with_trans(s1.messages, sm.messages, s2.messages);
                            },
                            Err(_) => {},
                        }
                    },
                    Err(_) => {},
                }
            },
            Err(_) => {},
        }
    }
}

/// Messages keep the order of their records: a session start closes the assistant
/// turn still open, so whatever follows a session-start line, the messages read
/// begin with those of the text before it, then that session start.
pub proof fn law_session_start_closes_turn(a: Seq<char>, x: Seq<char>, b: Seq<char>)
    requires
        a.len() == 0 || a.last() == '\n',
        forall|i: int| 0 <= i < x.len() ==> x[i] != '\n',
        trim(x).len() > 0,
        parse_line(trim(x)) matches Some(rec) && rec.record_type == "system"@ && rec.subtype
            == Some("init"@),
    ensures
        spec_parse(a + x.push('\n') + b) matches Ok(ms) ==> {
            &&& spec_parse(a) matches Ok(ma)
            &&& starts_with(ms, ma)
            &&& ms.len() > ma.len()
            &&& ms[ma.len() as int] matches MessageModel::SystemInit { session_id, .. }
            &&& session_id == or_empty(parse_line(trim(x)).unwrap().session_id)
        },
{
    let rec = parse_line(trim(x)).unwrap();
    let xl = x.push('\n');
    let a2 = a + xl;
    lemma_split_lines_single(x);
    assert(xl.drop_last() =~= x);
    assert(split_lines(xl) == seq![x].push(Seq::<char>::empty()));
    lemma_split_lines_concat(a, xl);
    lemma_split_lines_concat(a2, b);
    lemma_split_lines_nonempty(a);
    assert(a + xl + b =~= a2 + b);
    let s = split_lines(a).drop_last();
    assert(split_lines(a2) =~= s + seq![x, Seq::<char>::empty()]);
    let sx = s.push(x);
    assert(split_lines(a2).drop_last() =~= sx);
    let lines = split_lines(a2 + b);
    assert(lines == sx + split_lines(b));
    // the text before the session start
    if a.len() > 0 {
        assert(split_lines(a) == split_lines(a.drop_last()).push(Seq::<char>::empty()));
    }
    assert(split_lines(a) =~= s.push(Seq::<char>::empty()));
    assert(split_lines(a).drop_last() =~= s);
    assert(trim(Seq::<char>::empty()) =~= Seq::<char>::empty());
    assert(sx.drop_last() =~= s);
    lemma_run_extends(sx, split_lines(b));
    match run_lines(lines) {
        Ok(st) => {
            let s1 = run_lines(s)->Ok_0;
            assert(run_lines(split_lines(a)) == Ok::<ParserModel, nat>(s1));
            let ma = flush_model(s1).messages;
            let sys = MessageModel::SystemInit {
                session_id: or_empty(rec.session_id),
                model: or_empty(rec.model),
                cwd: or_empty(rec.cwd),
                tools: match rec.tools {
                    Some(t) => t,
                    None => Seq::empty(),
                },
            };
            let sxs = run_lines(sx)->Ok_0;
            assert(sxs.messages == ma.push(sys));
            lemma_flush_extends(st);
            lemma_starts_with_trans(sxs.messages, st.messages, flush_model(st).messages);
            let ms = flush_model(st).messages;
            lemma_push_extends(ma, sys);
            lemma_starts_with_trans(ma, ma.push(sys), ms);
            assert(ms.take(ma.len() + 1int)[ma.len() as int] == ms[ma.len() as int]);
            assert(ma.push(sys)[ma.len() as int] == sys);
        },
        Err(_) => {},
    }
}

/// Grouping by message id: an assistant record whose id is that of the open turn
/// adds no message and appends its blocks to that turn; one with another id closes
/// the open turn (a message when it has blocks) and opens a turn of its own blocks
/// (in any state reading can reach: a state without an open turn holds no open blocks).
pub proof fn law_assistant_records_group_by_id(st: ParserModel, rec: RawRecordModel)
    requires
        st.current_id is None ==> st.current_blocks.len() == 0,
        rec.record_type == "assistant"@,
        rec.message is Some,
    ensures
        ({
            let msg = rec.message.unwrap();
            let id = or_empty(msg.id);
            let r = apply_record(st, rec);
            &&& r.current_id == Some(id)
            &&& st.current_id == Some(id) ==> r.messages == st.messages && r.current_blocks
                == st.current_blocks + content_blocks(msg.content)
            &&& st.current_id != Some(id) ==> r.current_blocks == content_blocks(msg.content)
            &&& (st.current_id != Some(id) && st.current_id is Some && st.current_blocks.len() > 0)
                ==> r.messages == st.messages.push(
                MessageModel::AssistantTurn {
                    id: st.current_id.unwrap(),
                    blocks: st.current_blocks,
                },
            )
            &&& (st.current_id != Some(id) && (st.current_id is None
                || st.current_blocks.len() == 0)) ==> r.messages == st.messages
        }),
{
    reveal_strlit("system");
    reveal_strlit("assistant");
    assert("system"@[0] != "assistant"@[0]);
    let msg = rec.message.unwrap();
    let id = or_empty(msg.id);
    if st.current_id != Some(id) {
        assert(Seq::<BlockModel>::empty() + content_blocks(msg.content) =~= content_blocks(
            msg.content,
        ));
    }
}

/// A user record closes the open assistant turn first (in any state reading can
/// reach: a state without an open turn holds no open blocks), then adds a user turn of its
/// blocks when it has any.
pub proof fn law_user_record_closes_turn(st: ParserModel, rec: RawRecordModel)
    requires
        st.current_id is None ==> st.current_blocks.len() == 0,
        rec.record_type == "user"@,
    ensures
        ({
            let r = apply_record(st, rec);
            let closed = if st.current_id is Some && st.current_blocks.len() > 0 {
                st.messages.push(
                    MessageModel::AssistantTurn {
                        id: st.current_id.unwrap(),
                        blocks: st.current_blocks,
                    },
                )
            } else {
                st.messages
            };
            &&& r.current_id is None
            &&& r.current_blocks.len() == 0
            &&& match rec.message {
                Some(msg) => if content_blocks(msg.content).len() > 0 {
                    r.messages == closed.push(
                        MessageModel::UserTurn { blocks: content_blocks(msg.content) },
                    )
                } else {
                    r.messages == closed
                },
                None => r.messages == closed,
            }
        }),
{
    reveal_strlit("system");
    reveal_strlit("assistant");
    reveal_strlit("user");
    assert("system"@[0] != "user"@[0]);
    assert("assistant"@[0] != "user"@[0]);
}

} // verus!
