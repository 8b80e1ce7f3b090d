//! Records of a chat history, the content blocks inside them, the logical messages
//! they are grouped into, and the rows that the browser lists.
use vstd::prelude::*;

use crate::json::{
    copy_values, get_bool, get_str, json_models, json_pretty, spec_as_str, spec_get,
    spec_json_pretty, JsonModel, JsonValue,
};
use crate::text::{
    after_last_slash, byte_prefix, chars_for_bytes, chars_of, decimal, first_line,
    is_byte_boundary, join, join_strings, push_decimal, push_str, spec_first_line, str_eq,
    string_of_range, utf8_len, utf8_len_exceeds, law_first_line_is_one_short_line,
    law_short_line_is_its_own_summary, is_ws, lemma_utf8_len_prefix_strict,
    lemma_byte_prefix_unique, chars_in_bytes,
};

verus! {

/// The model of an optional string.
pub open spec fn opt_view(o: Option<String>) -> Option<Seq<char>> {
    match o {
        Some(s) => Some(s@),
        None => None,
    }
}

/// The models of a sequence of strings.
pub open spec fn strings_view(v: Seq<String>) -> Seq<Seq<char>> {
    v.map_values(|s: String| s@)
}

// ── Raw records ──────────────────────────────────────────────────────────────

/// The `message` member of a record.
#[derive(Debug)]
pub struct RawMessage {
    pub id: Option<String>,
    pub role: Option<String>,
    pub content: Option<JsonValue>,
}

/// One line of a chat history.
#[derive(Debug)]
pub struct RawRecord {
    pub record_type: String,
    pub subtype: Option<String>,
    pub session_id: Option<String>,
    pub message: Option<RawMessage>,
    pub uuid: Option<String>,
    pub timestamp: Option<String>,
    pub cwd: Option<String>,
    pub tools: Option<Vec<String>>,
    pub model: Option<String>,
}

/// The model of a `RawMessage`.
pub struct RawMessageModel {
    pub id: Option<Seq<char>>,
    pub role: Option<Seq<char>>,
    pub content: Option<JsonModel>,
}

/// The model of a `RawRecord`.
pub struct RawRecordModel {
    pub record_type: Seq<char>,
    pub subtype: Option<Seq<char>>,
    pub session_id: Option<Seq<char>>,
    pub message: Option<RawMessageModel>,
    pub uuid: Option<Seq<char>>,
    pub timestamp: Option<Seq<char>>,
    pub cwd: Option<Seq<char>>,
    pub tools: Option<Seq<Seq<char>>>,
    pub model: Option<Seq<char>>,
}

/// The model of an optional JSON value.
pub open spec fn opt_json_view(o: Option<JsonValue>) -> Option<JsonModel> {
    match o {
        Some(v) => Some(v@),
        None => None,
    }
}

impl View for RawMessage {
    type V = RawMessageModel;

    open spec fn view(&self) -> RawMessageModel {
        RawMessageModel {
            id: opt_view(self.id),
            role: opt_view(self.role),
            content: opt_json_view(self.content),
        }
    }
}

impl View for RawRecord {
    type V = RawRecordModel;

    open spec fn view(&self) -> RawRecordModel {
        RawRecordModel {
            record_type: self.record_type@,
            subtype: opt_view(self.subtype),
            session_id: opt_view(self.session_id),
            message: match self.message {
                Some(m) => Some(m@),
                None => None,
            },
            uuid: opt_view(self.uuid),
            timestamp: opt_view(self.timestamp),
            cwd: opt_view(self.cwd),
            tools: match self.tools {
                Some(t) => Some(strings_view(t@)),
                None => None,
            },
            model: opt_view(self.model),
        }
    }
}

/// Reading an optional string field: absent or `null` give `Some(None)`, a string
/// gives `Some(Some(text))`, any other value is a type error (`None`).
pub open spec fn decode_opt_str(f: Option<JsonModel>) -> Option<Option<Seq<char>>> {
    match f {
        None => Some(None),
        Some(JsonModel::Null) => Some(None),
        Some(JsonModel::Str(s)) => Some(Some(s)),
        _ => None,
    }
}

/// All the values are JSON strings.
pub open spec fn all_strings(s: Seq<JsonModel>) -> bool {
    forall|i: int| 0 <= i < s.len() ==> #[trigger] s[i] is Str
}

/// The texts of JSON strings.
pub open spec fn string_texts(s: Seq<JsonModel>) -> Seq<Seq<char>> {
    s.map_values(|m: JsonModel| spec_as_str(Some(m)).unwrap())
}

/// Reading an optional list of strings: absent or `null` give `Some(None)`, an
/// array of strings gives their texts, any other value is a type error (`None`).
pub open spec fn decode_opt_strs(f: Option<JsonModel>) -> Option<Option<Seq<Seq<char>>>> {
    match f {
        None => Some(None),
        Some(JsonModel::Null) => Some(None),
        Some(JsonModel::Array(items)) => if all_strings(items) {
            Some(Some(string_texts(items)))
        } else {
            None
        },
        _ => None,
    }
}

/// Reading an optional value of any shape: absent and `null` are both `None`.
pub open spec fn decode_opt_value(f: Option<JsonModel>) -> Option<JsonModel> {
    match f {
        None => None,
        Some(JsonModel::Null) => None,
        Some(v) => Some(v),
    }
}

/// A `RawMessage` from the values of its three fields, in declaration order.
pub open spec fn message_from_fields(
    id: Option<JsonModel>,
    role: Option<JsonModel>,
    content: Option<JsonModel>,
) -> Option<RawMessageModel> {
    match (decode_opt_str(id), decode_opt_str(role)) {
        (Some(i), Some(r)) => Some(
            RawMessageModel { id: i, role: r, content: decode_opt_value(content) },
        ),
        _ => None,
    }
}

/// A `RawMessage` read from a JSON object by field name, or from an array of
/// exactly three elements by position; `None` for anything else or a type error.
pub open spec fn decode_message(m: JsonModel) -> Option<RawMessageModel> {
    match m {
        JsonModel::Object(_) => message_from_fields(
            spec_get(m, "id"@),
            spec_get(m, "role"@),
            spec_get(m, "content"@),
        ),
        JsonModel::Array(items) => if items.len() == 3 {
            message_from_fields(Some(items[0]), Some(items[1]), Some(items[2]))
        } else {
            None
        },
        _ => None,
    }
}

/// Reading the optional `message` field.
pub open spec fn decode_opt_message(f: Option<JsonModel>) -> Option<Option<RawMessageModel>> {
    match f {
        None => Some(None),
        Some(JsonModel::Null) => Some(None),
        Some(v) => match decode_message(v) {
            Some(msg) => Some(Some(msg)),
            None => None,
        },
    }
}

/// A `RawRecord` from the values of its nine fields, in declaration order:
/// `type` must be a string, the others optional of their types.
pub open spec fn record_from_fields(f: Seq<Option<JsonModel>>) -> Option<RawRecordModel>
    recommends
        f.len() == 9,
{
    match (
        spec_as_str(f[0]),
        decode_opt_str(f[1]),
        decode_opt_str(f[2]),
        decode_opt_message(f[3]),
        decode_opt_str(f[4]),
        decode_opt_str(f[5]),
        decode_opt_str(f[6]),
        decode_opt_strs(f[7]),
        decode_opt_str(f[8]),
    ) {
        (
            Some(record_type),
            Some(subtype),
            Some(session_id),
            Some(message),
            Some(uuid),
            Some(timestamp),
            Some(cwd),
            Some(tools),
            Some(model),
        ) => Some(
            RawRecordModel {
                record_type,
                subtype,
                session_id,
                message,
                uuid,
                timestamp,
                cwd,
                tools,
                model,
            },
        ),
        _ => None,
    }
}

/// The record that a JSON value describes: an object read by field name (unknown
/// fields ignored), or an array of exactly nine elements read by position.
pub open spec fn decode_record(m: JsonModel) -> Option<RawRecordModel> {
    match m {
        JsonModel::Object(_) => record_from_fields(
            seq![
                spec_get(m, "type"@),
                spec_get(m, "subtype"@),
                spec_get(m, "session_id"@),
                spec_get(m, "message"@),
                spec_get(m, "uuid"@),
                spec_get(m, "timestamp"@),
                spec_get(m, "cwd"@),
                spec_get(m, "tools"@),
                spec_get(m, "model"@),
            ],
        ),
        JsonModel::Array(items) => if items.len() == 9 {
            record_from_fields(items.map_values(|x: JsonModel| Some(x)))
        } else {
            None
        },
        _ => None,
    }
}

/// The model of an optional borrowed JSON value.
pub open spec fn ref_view(o: Option<&JsonValue>) -> Option<JsonModel> {
    match o {
        Some(v) => Some(v@),
        None => None,
    }
}

fn read_opt_string(f: Option<&JsonValue>) -> (r: Result<Option<String>, ()>)
    ensures
        match r {
            Ok(o) => decode_opt_str(ref_view(f)) == Some(opt_view(o)),
            Err(_) => decode_opt_str(ref_view(f)) is None,
        },
{
    match f {
        None => Ok(None),
        Some(JsonValue::Null) => Ok(None),
        Some(JsonValue::Str(s)) => Ok(Some(s.clone())),
        Some(_) => Err(()),
    }
}

fn read_opt_strings(f: Option<&JsonValue>) -> (r: Result<Option<Vec<String>>, ()>)
    ensures
        match r {
            Ok(Some(v)) => decode_opt_strs(ref_view(f)) == Some(Some(strings_view(v@))),
            Ok(None) => decode_opt_strs(ref_view(f)) == Some(None::<Seq<Seq<char>>>),
            Err(_) => decode_opt_strs(ref_view(f)) is None,
        },
{
    match f {
        None => Ok(None),
        Some(JsonValue::Null) => Ok(None),
        Some(JsonValue::Array(items)) => {
            let ghost ms = json_models(items@);
            proof {
                crate::json::lemma_json_models_index(items@);
                assert(f.unwrap()@ == JsonModel::Array(ms));
            }
            let mut out: Vec<String> = Vec::new();
            let mut i: usize = 0;
            while i < items.len()
                invariant
                    i <= items@.len(),
                    ms == json_models(items@),
                    ms.len() == items@.len(),
                    forall|j: int| 0 <= j < items@.len() ==> #[trigger] ms[j] == items@[j]@,
                    all_strings(ms.take(i as int)),
                    strings_view(out@) == string_texts(ms.take(i as int)),
                    f.unwrap()@ == JsonModel::Array(ms),
                    f is Some,
                decreases items.len() - i,
            {
                match &items[i] {
                    JsonValue::Str(s) => {
                        let ghost prev = out@;
                        out.push(s.clone());
                        proof {
                            assert(ms[i as int] == JsonModel::Str(s@));
                            assert(ms.take(i + 1) =~= ms.take(i as int).push(ms[i as int]));
                            assert(out@ =~= prev.push(*s));
                            assert(strings_view(out@) =~= strings_view(prev).push(s@));
                            assert(string_texts(ms.take(i + 1)) =~= string_texts(ms.take(i as int)).push(s@));
                            assert(strings_view(out@) =~= string_texts(ms.take(i + 1)));
                        }
                    },
                    _ => {
                        proof {
                            assert(!all_strings(ms)) by {
                                assert(!(ms[i as int] is Str));
                            }
                        }
                        return Err(());
                    },
                }
                i = i + 1;
            }
            proof {
                assert(ms.take(items@.len() as int) =~= ms);
                assert(f.unwrap()@ == JsonModel::Array(ms));
            }
            Ok(Some(out))
        },
        Some(_) => Err(()),
    }
}

fn read_opt_value(f: Option<&JsonValue>) -> (r: Option<JsonValue>)
    ensures
        opt_json_view(r) == decode_opt_value(ref_view(f)),
{
    match f {
        None => None,
        Some(JsonValue::Null) => None,
        Some(v) => Some(v.deep_copy()),
    }
}

fn message_from(
    id: Option<&JsonValue>,
    role: Option<&JsonValue>,
    content: Option<&JsonValue>,
) -> (r: Option<RawMessage>)
    ensures
        match r {
            Some(m) => message_from_fields(ref_view(id), ref_view(role), ref_view(content))
                == Some(m@),
            None => message_from_fields(ref_view(id), ref_view(role), ref_view(content)) is None,
        },
{
    let id = match read_opt_string(id) {
        Ok(x) => x,
        Err(_) => return None,
    };
    let role = match read_opt_string(role) {
        Ok(x) => x,
        Err(_) => return None,
    };
    Some(RawMessage { id, role, content: read_opt_value(content) })
}

impl RawMessage {
    /// The message that a JSON value describes (see `decode_message`).
    pub fn from_json(v: &JsonValue) -> (r: Option<RawMessage>)
        ensures
            match r {
                Some(m) => decode_message(v@) == Some(m@),
                None => decode_message(v@) is None,
            },
    {
        match v {
            JsonValue::Object(_) => message_from(v.get("id"), v.get("role"), v.get("content")),
            JsonValue::Array(items) => {
                proof {
                    crate::json::lemma_json_models_index(items@);
                }
                if items.len() == 3 {
                    message_from(Some(&items[0]), Some(&items[1]), Some(&items[2]))
                } else {
                    None
                }
            },
            _ => None,
        }
    }
}

fn read_opt_message(f: Option<&JsonValue>) -> (r: Result<Option<RawMessage>, ()>)
    ensures
        match r {
            Ok(Some(m)) => decode_opt_message(ref_view(f)) == Some(Some(m@)),
            Ok(None) => decode_opt_message(ref_view(f)) == Some(None::<RawMessageModel>),
            Err(_) => decode_opt_message(ref_view(f)) is None,
        },
{
    match f {
        None => Ok(None),
        Some(JsonValue::Null) => Ok(None),
        Some(v) => match RawMessage::from_json(v) {
            Some(m) => Ok(Some(m)),
            None => Err(()),
        },
    }
}

/// The nine field values of a record, in declaration order.
pub open spec fn field_views(
    f0: Option<&JsonValue>,
    f1: Option<&JsonValue>,
    f2: Option<&JsonValue>,
    f3: Option<&JsonValue>,
    f4: Option<&JsonValue>,
    f5: Option<&JsonValue>,
    f6: Option<&JsonValue>,
    f7: Option<&JsonValue>,
    f8: Option<&JsonValue>,
) -> Seq<Option<JsonModel>> {
    seq![
        ref_view(f0),
        ref_view(f1),
        ref_view(f2),
        ref_view(f3),
        ref_view(f4),
        ref_view(f5),
        ref_view(f6),
        ref_view(f7),
        ref_view(f8),
    ]
}

fn record_from(
    f0: Option<&JsonValue>,
    f1: Option<&JsonValue>,
    f2: Option<&JsonValue>,
    f3: Option<&JsonValue>,
    f4: Option<&JsonValue>,
    f5: Option<&JsonValue>,
    f6: Option<&JsonValue>,
    f7: Option<&JsonValue>,
    f8: Option<&JsonValue>,
) -> (r: Option<RawRecord>)
    ensures
        match r {
            Some(x) => record_from_fields(field_views(f0, f1, f2, f3, f4, f5, f6, f7, f8))
                == Some(x@),
            None => record_from_fields(field_views(f0, f1, f2, f3, f4, f5, f6, f7, f8)) is None,
        },
{
    let ghost fs = field_views(f0, f1, f2, f3, f4, f5, f6, f7, f8);
    let record_type = match f0 {
        Some(JsonValue::Str(s)) => s.clone(),
        _ => return None,
    };
    let subtype = match read_opt_string(f1) {
        Ok(x) => x,
        Err(_) => return None,
    };
    let session_id = match read_opt_string(f2) {
        Ok(x) => x,
        Err(_) => return None,
    };
    let message = match read_opt_message(f3) {
        Ok(x) => x,
        Err(_) => return None,
    };
    let uuid = match read_opt_string(f4) {
        Ok(x) => x,
        Err(_) => return None,
    };
    let timestamp = match read_opt_string(f5) {
        Ok(x) => x,
        Err(_) => return None,
    };
    let cwd = match read_opt_string(f6) {
        Ok(x) => x,
        Err(_) => return None,
    };
    let tools = match read_opt_strings(f7) {
        Ok(x) => x,
        Err(_) => return None,
    };
    let model = match read_opt_string(f8) {
        Ok(x) => x,
        Err(_) => return None,
    };
    let r = RawRecord {
        record_type,
        subtype,
        session_id,
        message,
        uuid,
        timestamp,
        cwd,
        tools,
        model,
    };
    proof {
        assert(record_from_fields(fs) == Some(r@));
    }
    Some(r)
}

impl RawRecord {
    /// The record that a JSON value describes (see `decode_record`).
    pub fn from_json(v: &JsonValue) -> (r: Option<RawRecord>)
        ensures
            match r {
                Some(x) => decode_record(v@) == Some(x@),
                None => decode_record(v@) is None,
            },
    {
        match v {
            JsonValue::Object(_) => record_from(
                v.get("type"),
                v.get("subtype"),
                v.get("session_id"),
                v.get("message"),
                v.get("uuid"),
                v.get("timestamp"),
                v.get("cwd"),
                v.get("tools"),
                v.get("model"),
            ),
            JsonValue::Array(items) => {
                proof {
                    crate::json::lemma_json_models_index(items@);
                }
                if items.len() == 9 {
                    let r = record_from(
                        Some(&items[0]),
                        Some(&items[1]),
                        Some(&items[2]),
                        Some(&items[3]),
                        Some(&items[4]),
                        Some(&items[5]),
                        Some(&items[6]),
                        Some(&items[7]),
                        Some(&items[8]),
                    );
                    proof {
                        let ms = json_models(items@);
                        assert(ms.map_values(|x: JsonModel| Some(x)) =~= field_views(
                            Some(&items[0]),
                            Some(&items[1]),
                            Some(&items[2]),
                            Some(&items[3]),
                            Some(&items[4]),
                            Some(&items[5]),
                            Some(&items[6]),
                            Some(&items[7]),
                            Some(&items[8]),
                        ));
                    }
                    r
                } else {
                    None
                }
            },
            _ => None,
        }
    }
}

// ── Content blocks ───────────────────────────────────────────────────────────

/// One block of a message's content.
#[derive(Debug)]
pub enum ContentBlock {
    Thinking { thinking: String, signature: Option<String> },
    Text { text: String },
    ToolUse { id: String, name: String, input: JsonValue },
    ToolResult { tool_use_id: String, content: ToolResultContent, is_error: bool },
}

/// What a tool gave back.
#[derive(Debug)]
pub enum ToolResultContent {
    References(Vec<String>),
    Text(String),
    Raw(JsonValue),
}

/// The model of a `ToolResultContent`.
pub enum ResultModel {
    References(Seq<Seq<char>>),
    Text(Seq<char>),
    Raw(JsonModel),
}

/// The model of a `ContentBlock`.
pub enum BlockModel {
    Thinking { thinking: Seq<char>, signature: Option<Seq<char>> },
    Text { text: Seq<char> },
    ToolUse { id: Seq<char>, name: Seq<char>, input: JsonModel },
    ToolResult { tool_use_id: Seq<char>, content: ResultModel, is_error: bool },
}

impl View for ToolResultContent {
    type V = ResultModel;

    open spec fn view(&self) -> ResultModel {
        match self {
            ToolResultContent::References(r) => ResultModel::References(strings_view(r@)),
            ToolResultContent::Text(t) => ResultModel::Text(t@),
            ToolResultContent::Raw(v) => ResultModel::Raw(v@),
        }
    }
}

impl View for ContentBlock {
    type V = BlockModel;

    open spec fn view(&self) -> BlockModel {
        match self {
            ContentBlock::Thinking { thinking, signature } => BlockModel::Thinking {
                thinking: thinking@,
                signature: opt_view(*signature),
            },
            ContentBlock::Text { text } => BlockModel::Text { text: text@ },
            ContentBlock::ToolUse { id, name, input } => BlockModel::ToolUse {
                id: id@,
                name: name@,
                input: input@,
            },
            ContentBlock::ToolResult { tool_use_id, content, is_error } => BlockModel::ToolResult {
                tool_use_id: tool_use_id@,
                content: content@,
                is_error: *is_error,
            },
        }
    }
}

/// The models of a sequence of blocks.
pub open spec fn blocks_view(v: Seq<ContentBlock>) -> Seq<BlockModel> {
    v.map_values(|b: ContentBlock| b@)
}

/// The `tool_name` of an item whose `type` is `"tool_reference"`.
pub open spec fn item_reference(item: JsonModel) -> Option<Seq<char>> {
    if get_str(item, "type"@) == Some("tool_reference"@) {
        get_str(item, "tool_name"@)
    } else {
        None
    }
}

/// The `text` of an item whose `type` is `"text"`.
pub open spec fn item_text(item: JsonModel) -> Option<Seq<char>> {
    if get_str(item, "type"@) == Some("text"@) {
        get_str(item, "text"@)
    } else {
        None
    }
}

/// The tool names of the reference items, in order.
pub open spec fn references_of(items: Seq<JsonModel>) -> Seq<Seq<char>>
    decreases items.len(),
{
    if items.len() == 0 {
        Seq::empty()
    } else {
        let prev = references_of(items.drop_last());
        match item_reference(items.last()) {
            Some(n) => prev.push(n),
            None => prev,
        }
    }
}

/// The texts of the text items, in order.
pub open spec fn texts_of(items: Seq<JsonModel>) -> Seq<Seq<char>>
    decreases items.len(),
{
    if items.len() == 0 {
        Seq::empty()
    } else {
        let prev = texts_of(items.drop_last());
        match item_text(items.last()) {
            Some(t) => prev.push(t),
            None => prev,
        }
    }
}

/// How the `content` of a tool result is read: absent is empty text; a string is
/// text; an array gives its tool references if it has any, else its texts joined by
/// newlines if it has any, else the array itself; any other value is kept raw.
pub open spec fn result_content(c: Option<JsonModel>) -> ResultModel {
    match c {
        None => ResultModel::Text(Seq::empty()),
        Some(JsonModel::Str(s)) => ResultModel::Text(s),
        Some(JsonModel::Array(items)) => if references_of(items).len() > 0 {
            ResultModel::References(references_of(items))
        } else if texts_of(items).len() > 0 {
            ResultModel::Text(join(texts_of(items), "\n"@))
        } else {
            ResultModel::Raw(JsonModel::Array(items))
        },
        Some(other) => ResultModel::Raw(other),
    }
}

/// The block that a JSON value describes, by its `type`; `None` for an unknown or
/// missing type or a missing required field.
pub open spec fn block_from(m: JsonModel) -> Option<BlockModel> {
    match get_str(m, "type"@) {
        None => None,
        Some(t) => if t == "thinking"@ {
            match get_str(m, "thinking"@) {
                Some(th) => Some(
                    BlockModel::Thinking { thinking: th, signature: get_str(m, "signature"@) },
                ),
                None => None,
            }
        } else if t == "text"@ {
            match get_str(m, "text"@) {
                Some(tx) => Some(BlockModel::Text { text: tx }),
                None => None,
            }
        } else if t == "tool_use"@ {
            match (get_str(m, "id"@), get_str(m, "name"@)) {
                (Some(id), Some(name)) => Some(
                    BlockModel::ToolUse {
                        id,
                        name,
                        input: match spec_get(m, "input"@) {
                            Some(x) => x,
                            None => JsonModel::Null,
                        },
                    },
                ),
                _ => None,
            }
        } else if t == "tool_result"@ {
            match get_str(m, "tool_use_id"@) {
                Some(id) => Some(
                    BlockModel::ToolResult {
                        tool_use_id: id,
                        content: result_content(spec_get(m, "content"@)),
                        is_error: match get_bool(m, "is_error"@) {
                            Some(b) => b,
                            None => false,
                        },
                    },
                ),
                None => None,
            }
        } else {
            None
        },
    }
}

/// The member `key` of `v` when it is a string, copied.
fn get_string(v: &JsonValue, key: &str) -> (r: Option<String>)
    ensures
        opt_view(r) == get_str(v@, key@),
{
    match v.get(key) {
        Some(JsonValue::Str(s)) => Some(s.clone()),
        _ => None,
    }
}

/// Whether the member `type` of `v` is the string `ty`.
fn has_type(v: &JsonValue, ty: &str) -> (r: bool)
    ensures
        r == (get_str(v@, "type"@) == Some(ty@)),
{
    match v.get("type") {
        Some(JsonValue::Str(s)) => str_eq(s.as_str(), ty),
        _ => false,
    }
}

/// The tool names of the reference items of `items`.
fn collect_references(items: &Vec<JsonValue>) -> (r: Vec<String>)
    ensures
        strings_view(r@) == references_of(json_models(items@)),
{
    let ghost ms = json_models(items@);
    proof {
        crate::json::lemma_json_models_index(items@);
    }
    let mut out: Vec<String> = Vec::new();
    let mut i: usize = 0;
    while i < items.len()
        invariant
            i <= items@.len(),
            ms == json_models(items@),
            ms.len() == items@.len(),
            forall|j: int| 0 <= j < items@.len() ==> #[trigger] ms[j] == items@[j]@,
            strings_view(out@) == references_of(ms.take(i as int)),
        decreases items.len() - i,
    {
        proof {
            assert(ms.take(i + 1).drop_last() =~= ms.take(i as int));
        }
        if has_type(&items[i], "tool_reference") {
            match get_string(&items[i], "tool_name") {
                Some(n) => {
                    let ghost prev = out@;
                    out.push(n);
                    proof {
                        assert(strings_view(out@) =~= strings_view(prev).push(n@));
                    }
                },
                None => {},
            }
        }
        i = i + 1;
    }
    proof {
        assert(ms.take(items@.len() as int) =~= ms);
    }
    out
}

/// The texts of the text items of `items`.
fn collect_texts(items: &Vec<JsonValue>) -> (r: Vec<String>)
    ensures
        strings_view(r@) == texts_of(json_models(items@)),
{
    let ghost ms = json_models(items@);
    proof {
        crate::json::lemma_json_models_index(items@);
    }
    let mut out: Vec<String> = Vec::new();
    let mut i: usize = 0;
    while i < items.len()
        invariant
            i <= items@.len(),
            ms == json_models(items@),
            ms.len() == items@.len(),
            forall|j: int| 0 <= j < items@.len() ==> #[trigger] ms[j] == items@[j]@,
            strings_view(out@) == texts_of(ms.take(i as int)),
        decreases items.len() - i,
    {
        proof {
            assert(ms.take(i + 1).drop_last() =~= ms.take(i as int));
        }
        if has_type(&items[i], "text") {
            match get_string(&items[i], "text") {
                Some(t) => {
                    let ghost prev = out@;
                    out.push(t);
                    proof {
                        assert(strings_view(out@) =~= strings_view(prev).push(t@));
                    }
                },
                None => {},
            }
        }
        i = i + 1;
    }
    proof {
        assert(ms.take(items@.len() as int) =~= ms);
    }
    out
}

/// Reads the `content` of a tool result (see `result_content`).
pub fn parse_tool_result_content(val: Option<&JsonValue>) -> (r: ToolResultContent)
    ensures
        r@ == result_content(ref_view(val)),
{
    match val {
        None => ToolResultContent::Text(String::new()),
        Some(JsonValue::Str(s)) => ToolResultContent::Text(s.clone()),
        Some(JsonValue::Array(arr)) => {
            let refs = collect_references(arr);
            if refs.len() > 0 {
                ToolResultContent::References(refs)
            } else {
                let texts = collect_texts(arr);
                if texts.len() > 0 {
                    ToolResultContent::Text(join_strings(&texts, "\n"))
                } else {
                    ToolResultContent::Raw(JsonValue::Array(copy_values(arr)))
                }
            }
        },
        Some(other) => ToolResultContent::Raw(other.deep_copy()),
    }
}

impl ContentBlock {
    /// The block that a JSON value describes (see `block_from`).
    pub fn from_value(v: &JsonValue) -> (r: Option<ContentBlock>)
        ensures
            match r {
                Some(b) => block_from(v@) == Some(b@),
                None => block_from(v@) is None,
            },
    {
        if has_type(v, "thinking") {
            let thinking = match get_string(v, "thinking") {
                Some(t) => t,
                None => return None,
            };
            let signature = get_string(v, "signature");
            Some(ContentBlock::Thinking { thinking, signature })
        } else if has_type(v, "text") {
            match get_string(v, "text") {
                Some(text) => Some(ContentBlock::Text { text }),
                None => None,
            }
        } else if has_type(v, "tool_use") {
            let id = match get_string(v, "id") {
                Some(x) => x,
                None => return None,
            };
            let name = match get_string(v, "name") {
                Some(x) => x,
                None => return None,
            };
            let input = match v.get("input") {
                Some(x) => x.deep_copy(),
                None => JsonValue::Null,
            };
            Some(ContentBlock::ToolUse { id, name, input })
        } else if has_type(v, "tool_result") {
            let tool_use_id = match get_string(v, "tool_use_id") {
                Some(x) => x,
                None => return None,
            };
            let is_error = match v.get("is_error") {
                Some(e) => match e.as_bool() {
                    Some(b) => b,
                    None => false,
                },
                None => false,
            };
            let content = parse_tool_result_content(v.get("content"));
            Some(ContentBlock::ToolResult { tool_use_id, content, is_error })
        } else {
            None
        }
    }
}

// ── Logical messages ─────────────────────────────────────────────────────────

/// A message of the conversation, after grouping.
#[derive(Debug)]
pub enum LogicalMessage {
    SystemInit { session_id: String, model: String, cwd: String, tools: Vec<String> },
    AssistantTurn { id: String, blocks: Vec<ContentBlock> },
    UserTurn { blocks: Vec<ContentBlock> },
}

/// The model of a `LogicalMessage`.
pub enum MessageModel {
    SystemInit { session_id: Seq<char>, model: Seq<char>, cwd: Seq<char>, tools: Seq<Seq<char>> },
    AssistantTurn { id: Seq<char>, blocks: Seq<BlockModel> },
    UserTurn { blocks: Seq<BlockModel> },
}

impl View for LogicalMessage {
    type V = MessageModel;

    open spec fn view(&self) -> MessageModel {
        match self {
            LogicalMessage::SystemInit { session_id, model, cwd, tools } => MessageModel::SystemInit {
                session_id: session_id@,
                model: model@,
                cwd: cwd@,
                tools: strings_view(tools@),
            },
            LogicalMessage::AssistantTurn { id, blocks } => MessageModel::AssistantTurn {
                id: id@,
                blocks: blocks_view(blocks@),
            },
            LogicalMessage::UserTurn { blocks } => MessageModel::UserTurn {
                blocks: blocks_view(blocks@),
            },
        }
    }
}

/// The models of a sequence of messages.
pub open spec fn messages_view(v: Seq<LogicalMessage>) -> Seq<MessageModel> {
    v.map_values(|m: LogicalMessage| m@)
}

// ── Display rows ─────────────────────────────────────────────────────────────

/// The kind of a row, which decides its badge and colour.
#[derive(Clone, Copy, Debug, PartialEq, Eq, Structural)]
pub enum Role {
    System,
    Thinking,
    Assistant,
    ToolUse,
    ToolResult,
}

/// One row of the list pane.
#[derive(Clone, Debug)]
pub struct DisplayItem {
    pub role: Role,
    pub badge: &'static str,
    pub summary: String,
    pub detail: String,
}

/// The model of a `DisplayItem`.
pub struct DisplayModel {
    pub role: Role,
    pub badge: Seq<char>,
    pub summary: Seq<char>,
    pub detail: Seq<char>,
}

impl View for DisplayItem {
    type V = DisplayModel;

    open spec fn view(&self) -> DisplayModel {
        DisplayModel {
            role: self.role,
            badge: self.badge@,
            summary: self.summary@,
            detail: self.detail@,
        }
    }
}

/// The models of a sequence of rows.
pub open spec fn items_view(v: Seq<DisplayItem>) -> Seq<DisplayModel> {
    v.map_values(|d: DisplayItem| d@)
}

/// The separator between a row's name and its summary (a middle dot between spaces).
pub open spec fn dot_sep() -> Seq<char> {
    " \u{b7} "@
}

/// The first eight bytes of `s` where byte eight falls between characters, else all of `s`.
pub open spec fn head8(s: Seq<char>) -> Seq<char> {
    if is_byte_boundary(s, 8) {
        byte_prefix(s, 8)
    } else {
        s
    }
}

/// The row of a content block.
pub open spec fn block_display(b: BlockModel) -> DisplayModel {
    match b {
        BlockModel::Thinking { thinking, .. } => DisplayModel {
            role: Role::Thinking,
            badge: "[THINK]"@,
            summary: spec_first_line(thinking, 80),
            detail: thinking,
        },
        BlockModel::Text { text } => DisplayModel {
            role: Role::Assistant,
            badge: "[ASST]"@,
            summary: spec_first_line(text, 80),
            detail: text,
        },
        BlockModel::ToolUse { name, input, .. } => {
            let p = spec_json_pretty(input);
            DisplayModel {
                role: Role::ToolUse,
                badge: "[TOOL>]"@,
                summary: name + dot_sep() + spec_first_line(p, 60),
                detail: "[TOOL USE] "@ + name + "\n"@ + p,
            }
        },
        BlockModel::ToolResult { tool_use_id, content, is_error } => {
            let (st, dt) = match content {
                ResultModel::References(refs) => {
                    let j = join(refs, ", "@);
                    (j, "Tools: "@ + j)
                },
                ResultModel::Text(t) => (spec_first_line(t, 80), t),
                ResultModel::Raw(v) => {
                    let p = spec_json_pretty(v);
                    (spec_first_line(p, 80), p)
                },
            };
            DisplayModel {
                role: Role::ToolResult,
                badge: "[TOOL<]"@,
                summary: head8(tool_use_id) + (if is_error {
                    " [ERROR]"@
                } else {
                    ""@
                }) + dot_sep() + st,
                detail: dt,
            }
        },
    }
}

/// The one-line summary of a session start.
pub open spec fn system_summary(
    session_id: Seq<char>,
    model: Seq<char>,
    cwd: Seq<char>,
    tools: Seq<Seq<char>>,
) -> Seq<char> {
    "session="@ + head8(session_id) + " model="@ + after_last_slash(model) + " cwd="@ + cwd
        + " tools="@ + decimal(tools.len())
}

/// The detail text of a session start.
pub open spec fn system_detail(
    session_id: Seq<char>,
    model: Seq<char>,
    cwd: Seq<char>,
    tools: Seq<Seq<char>>,
) -> Seq<char> {
    "Session:  "@ + session_id + "\nModel:    "@ + model + "\nCwd:      "@ + cwd + "\nTools ("@
        + decimal(tools.len()) + "):\n  "@ + join(tools, ", "@)
}

/// The rows of a message: one for a session start, one per block for a turn.
pub open spec fn message_display(m: MessageModel) -> Seq<DisplayModel> {
    match m {
        MessageModel::SystemInit { session_id, model, cwd, tools } => seq![
            DisplayModel {
                role: Role::System,
                badge: "[SYS]"@,
                summary: system_summary(session_id, model, cwd, tools),
                detail: system_detail(session_id, model, cwd, tools),
            },
        ],
        MessageModel::AssistantTurn { blocks, .. } => blocks.map_values(
            |b: BlockModel| block_display(b),
        ),
        MessageModel::UserTurn { blocks } => blocks.map_values(|b: BlockModel| block_display(b)),
    }
}

/// A message can be shown: a session id longer than eight bytes must have a
/// character boundary at byte eight (the summary cuts it there).
pub open spec fn displayable(m: MessageModel) -> bool {
    match m {
        MessageModel::SystemInit { session_id, .. } => utf8_len(session_id) > 8
            ==> is_byte_boundary(session_id, 8),
        _ => true,
    }
}

/// The first eight bytes of `s` where byte eight falls between characters, else all of `s`.
fn head8_of(s: &String) -> (r: String)
    ensures
        r@ == head8(s@),
{
    let cs = chars_of(s.as_str());
    match chars_for_bytes(&cs, 8) {
        Some(k) => {
            proof {
                assert(cs@.subrange(0, k as int) =~= cs@.take(k as int));
            }
            string_of_range(&cs, 0, k)
        },
        None => s.clone(),
    }
}

/// What follows the last `'/'` in `s`, or all of `s`.
fn after_last_slash_of(s: &String) -> (r: String)
    ensures
        r@ == after_last_slash(s@),
{
    let cs = chars_of(s.as_str());
    let mut j = cs.len();
    proof {
        assert(cs@.take(j as int) =~= cs@);
        assert(cs@.subrange(j as int, j as int) =~= Seq::<char>::empty());
    }
    while j > 0 && cs[j - 1] != '/'
        invariant
            j <= cs@.len(),
            after_last_slash(cs@) == after_last_slash(cs@.take(j as int)) + cs@.subrange(
                j as int,
                cs@.len() as int,
            ),
        decreases j,
    {
        proof {
            let t = cs@.take(j as int);
            assert(t.drop_last() =~= cs@.take(j - 1));
            assert(after_last_slash(t) == after_last_slash(cs@.take(j - 1)).push(cs@[j - 1]));
            assert(cs@.subrange(j - 1, cs@.len() as int) =~= seq![cs@[j - 1]] + cs@.subrange(
                j as int,
                cs@.len() as int,
            ));
            assert(after_last_slash(cs@.take(j - 1)).push(cs@[j - 1]) + cs@.subrange(
                j as int,
                cs@.len() as int,
            ) =~= after_last_slash(cs@.take(j - 1)) + cs@.subrange(j - 1, cs@.len() as int));
        }
        j = j - 1;
    }
    proof {
        assert(after_last_slash(cs@.take(j as int)) =~= Seq::<char>::empty());
        assert(Seq::<char>::empty() + cs@.subrange(j as int, cs@.len() as int) =~= cs@.subrange(
            j as int,
            cs@.len() as int,
        ));
    }
    string_of_range(&cs, j, cs.len())
}

/// The row of a tool call, given the indented JSON text of its input: the name and
/// the input's first line (at most 60 characters) as summary, a header and the
/// whole text as detail.
pub fn tool_use_item(name: &String, input_pretty: &String) -> (r: DisplayItem)
    ensures
        r@ == (DisplayModel {
            role: Role::ToolUse,
            badge: "[TOOL>]"@,
            summary: name@ + dot_sep() + spec_first_line(input_pretty@, 60),
            detail: "[TOOL USE] "@ + name@ + "\n"@ + input_pretty@,
        }),
{
    let mut summary = name.clone();
    push_str(&mut summary, " \u{b7} ");
    let head = first_line(input_pretty.as_str(), 60);
    push_str(&mut summary, head.as_str());
    let mut detail = String::new();
    push_str(&mut detail, "[TOOL USE] ");
    push_str(&mut detail, name.as_str());
    push_str(&mut detail, "\n");
    push_str(&mut detail, input_pretty.as_str());
    proof {
        assert(summary@ =~= name@ + dot_sep() + spec_first_line(input_pretty@, 60));
        assert(detail@ =~= "[TOOL USE] "@ + name@ + "\n"@ + input_pretty@);
    }
    DisplayItem { role: Role::ToolUse, badge: "[TOOL>]", summary, detail }
}

/// The summary and detail texts of a tool result held as raw JSON, given its
/// indented text: its first line (at most 80 characters) and the whole text.
pub fn raw_result_texts(pretty: String) -> (r: (String, String))
    ensures
        r.0@ == spec_first_line(pretty@, 80),
        r.1@ == pretty@,
{
    (first_line(pretty.as_str(), 80), pretty)
}

/// The row of a content block (see `block_display`).
pub fn block_to_display_item(block: &ContentBlock) -> (r: DisplayItem)
    ensures
        r@ == block_display(block@),
{
    match block {
        ContentBlock::Thinking { thinking, .. } => {
            let summary = first_line(thinking.as_str(), 80);
            proof {
                reveal_strlit("[THINK]");
            }
            DisplayItem {
                role: Role::Thinking,
                badge: "[THINK]",
                summary,
                detail: thinking.clone(),
            }
        },
        ContentBlock::Text { text } => {
            let summary = first_line(text.as_str(), 80);
            DisplayItem { role: Role::Assistant, badge: "[ASST]", summary, detail: text.clone() }
        },
        ContentBlock::ToolUse { name, input, .. } => {
            let input_str = json_pretty(input);
            tool_use_item(name, &input_str)
        },
        ContentBlock::ToolResult { tool_use_id, content, is_error } => {
            let (summary_text, detail_text) = match content {
                ToolResultContent::References(refs) => {
                    let j = join_strings(refs, ", ");
                    let mut d = String::new();
                    push_str(&mut d, "Tools: ");
                    push_str(&mut d, j.as_str());
                    proof {
                        assert(d@ =~= "Tools: "@ + j@);
                    }
                    (j, d)
                },
                ToolResultContent::Text(t) => (first_line(t.as_str(), 80), t.clone()),
                ToolResultContent::Raw(v) => raw_result_texts(json_pretty(v)),
            };
            let mut summary = head8_of(tool_use_id);
            if *is_error {
                push_str(&mut summary, " [ERROR]");
            } else {
                proof {
                    reveal_strlit("");
                    assert(summary@ =~= summary@ + ""@);
                }
            }
            push_str(&mut summary, " \u{b7} ");
            push_str(&mut summary, summary_text.as_str());
            DisplayItem {
                role: Role::ToolResult,
                badge: "[TOOL<]",
                summary,
                detail: detail_text,
            }
        },
    }
}

/// The summary line and detail text of a session start.
fn system_texts(session_id: &String, model: &String, cwd: &String, tools: &Vec<String>) -> (r: (
    String,
    String,
))
    ensures
        r.0@ == system_summary(session_id@, model@, cwd@, strings_view(tools@)),
        r.1@ == system_detail(session_id@, model@, cwd@, strings_view(tools@)),
{
    let mut summary = String::new();
    push_str(&mut summary, "session=");
    let head = head8_of(session_id);
    push_str(&mut summary, head.as_str());
    push_str(&mut summary, " model=");
    let short_model = after_last_slash_of(model);
    push_str(&mut summary, short_model.as_str());
    push_str(&mut summary, " cwd=");
    push_str(&mut summary, cwd.as_str());
    push_str(&mut summary, " tools=");
    push_decimal(&mut summary, tools.len());
    let mut detail = String::new();
    push_str(&mut detail, "Session:  ");
    push_str(&mut detail, session_id.as_str());
    push_str(&mut detail, "\nModel:    ");
    push_str(&mut detail, model.as_str());
    push_str(&mut detail, "\nCwd:      ");
    push_str(&mut detail, cwd.as_str());
    push_str(&mut detail, "\nTools (");
    push_decimal(&mut detail, tools.len());
    push_str(&mut detail, "):\n  ");
    let joined = join_strings(tools, ", ");
    push_str(&mut detail, joined.as_str());
    proof {
        assert(strings_view(tools@).len() == tools@.len());
        assert(summary@ =~= system_summary(session_id@, model@, cwd@, strings_view(tools@)));
        assert(detail@ =~= system_detail(session_id@, model@, cwd@, strings_view(tools@)));
    }
    (summary, detail)
}

/// The rows of a block sequence, one per block.
fn blocks_display(blocks: &Vec<ContentBlock>) -> (r: Vec<DisplayItem>)
    ensures
        items_view(r@) == blocks_view(blocks@).map_values(|b: BlockModel| block_display(b)),
{
    let mut out: Vec<DisplayItem> = Vec::new();
    let mut i: usize = 0;
    while i < blocks.len()
        invariant
            i <= blocks@.len(),
            items_view(out@) == blocks_view(blocks@.take(i as int)).map_values(
                |b: BlockModel| block_display(b),
            ),
        decreases blocks.len() - i,
    {
        let d = block_to_display_item(&blocks[i]);
        let ghost prev = out@;
        out.push(d);
        proof {
            assert(items_view(out@) =~= items_view(prev).push(d@));
            assert(blocks_view(blocks@.take(i + 1)).map_values(|b: BlockModel| block_display(b))
                =~= blocks_view(blocks@.take(i as int)).map_values(
                |b: BlockModel| block_display(b),
            ).push(block_display(blocks@[i as int]@)));
        }
        i = i + 1;
    }
    proof {
        assert(blocks@.take(blocks@.len() as int) =~= blocks@);
    }
    out
}

impl DisplayItem {
    /// A copy of the row.
    pub fn clone_item(&self) -> (r: DisplayItem)
        ensures
            r@ == self@,
    {
        DisplayItem {
            role: self.role,
            badge: self.badge,
            summary: self.summary.clone(),
            detail: self.detail.clone(),
        }
    }

    /// The rows of a message (see `message_display`).
    pub fn from_logical(msg: &LogicalMessage) -> (r: Vec<DisplayItem>)
        requires
            displayable(msg@),
        ensures
            items_view(r@) == message_display(msg@),
    {
        match msg {
            LogicalMessage::SystemInit { session_id, model, cwd, tools } => {
                let (summary, detail) = system_texts(session_id, model, cwd, tools);
                let item = DisplayItem { role: Role::System, badge: "[SYS]", summary, detail };
                let mut out: Vec<DisplayItem> = Vec::new();
                out.push(item);
                proof {
                    assert(items_view(out@) =~= message_display(msg@));
                }
                out
            },
            LogicalMessage::AssistantTurn { blocks, .. } => blocks_display(blocks),
            LogicalMessage::UserTurn { blocks } => blocks_display(blocks),
        }
    }
}

/// Whether a message can be shown (see `displayable`).
pub fn is_displayable(msg: &LogicalMessage) -> (r: bool)
    ensures
        r == displayable(msg@),
{
    match msg {
        LogicalMessage::SystemInit { session_id, .. } => {
            let cs = chars_of(session_id.as_str());
            match chars_for_bytes(&cs, 8) {
                Some(_) => true,
                None => !utf8_len_exceeds(&cs, 8),
            }
        },
        _ => true,
    }
}

// ── Laws ─────────────────────────────────────────────────────────────────────

/// The badge of each role.
pub open spec fn badge_of(role: Role) -> Seq<char> {
    match role {
        Role::System => "[SYS]"@,
        Role::Thinking => "[THINK]"@,
        Role::Assistant => "[ASST]"@,
        Role::ToolUse => "[TOOL>]"@,
        Role::ToolResult => "[TOOL<]"@,
    }
}

/// The role of the row of each kind of block.
pub open spec fn role_of_block(b: BlockModel) -> Role {
    match b {
        BlockModel::Thinking { .. } => Role::Thinking,
        BlockModel::Text { .. } => Role::Assistant,
        BlockModel::ToolUse { .. } => Role::ToolUse,
        BlockModel::ToolResult { .. } => Role::ToolResult,
    }
}

/// A session start gives one `[SYS]` row; a turn gives one row per block, in order,
/// whose role follows the kind of block; every row's badge is that of its role.
pub proof fn law_rows_follow_blocks(m: MessageModel)
    ensures
        forall|i: int|
            0 <= i < message_display(m).len() ==> #[trigger] message_display(m)[i].badge
                == badge_of(message_display(m)[i].role),
        match m {
            MessageModel::SystemInit { .. } => message_display(m).len() == 1
                && message_display(m)[0].role == Role::System,
            MessageModel::AssistantTurn { blocks, .. } => message_display(m).len() == blocks.len()
                && forall|i: int|
                0 <= i < blocks.len() ==> #[trigger] message_display(m)[i].role == role_of_block(
                    blocks[i],
                ),
            MessageModel::UserTurn { blocks } => message_display(m).len() == blocks.len()
                && forall|i: int|
                0 <= i < blocks.len() ==> #[trigger] message_display(m)[i].role == role_of_block(
                    blocks[i],
                ),
        },
{
}

/// The row of a text or thinking block has a single short line as summary: no
/// line break, at most 80 characters plus an ellipsis, namely the text's trimmed
/// first line; a one-line text that needs no trimming or cutting is its own summary.
pub proof fn law_text_rows_have_one_line_summaries(
    text: Seq<char>,
    signature: Option<Seq<char>>,
)
    ensures
        forall|b: BlockModel|
            b == (BlockModel::Text { text }) || b == (BlockModel::Thinking { thinking: text, signature })
                ==> {
                let r = #[trigger] block_display(b).summary;
                &&& r.len() <= 81
                &&& forall|i: int| 0 <= i < r.len() ==> r[i] != '\n'
                &&& r == spec_first_line(text, 80)
                &&& ((forall|j: int| 0 <= j < text.len() ==> text[j] != '\n') && text.len() <= 80
                    && (text.len() > 0 ==> !is_ws(text[0]) && !is_ws(text.last()))) ==> r == text
            },
{
    law_first_line_is_one_short_line(text, 80);
    if (forall|j: int| 0 <= j < text.len() ==> text[j] != '\n') && text.len() <= 80 && (text.len()
        > 0 ==> !is_ws(text[0]) && !is_ws(text.last())) {
        law_short_line_is_its_own_summary(text, 80);
    }
}

/// Tool rows: a call's summary is its name, a middle dot, then one line of at most
/// 60 characters plus an ellipsis from its input, and its detail is a header line
/// naming the tool followed by the indented input; a result's summary starts with
/// the tool-call id (cut to its first eight bytes when longer), then ` [ERROR]`
/// exactly when the call failed, then a middle dot; a text result's detail is the
/// whole text and its summary ends in one line of at most 80 characters plus an
/// ellipsis.
pub proof fn law_tool_rows(
    id: Seq<char>,
    name: Seq<char>,
    input: JsonModel,
    t: Seq<char>,
    is_error: bool,
)
    ensures
        ({
            let u = block_display(BlockModel::ToolUse { id, name, input });
            let pre = name + " \u{b7} "@;
            &&& u.summary.take(pre.len() as int) == pre
            &&& u.summary.len() <= pre.len() + 61
            &&& forall|i: int| pre.len() <= i < u.summary.len() ==> u.summary[i] != '\n'
            &&& u.detail == "[TOOL USE] "@ + name + "\n"@ + spec_json_pretty(input)
        }),
        ({
            let r = block_display(
                BlockModel::ToolResult { tool_use_id: id, content: ResultModel::Text(t), is_error },
            );
            let pre = head8(id) + (if is_error {
                " [ERROR] \u{b7} "@
            } else {
                " \u{b7} "@
            });
            &&& r.summary.take(pre.len() as int) == pre
            &&& r.summary.len() <= pre.len() + 81
            &&& forall|i: int| pre.len() <= i < r.summary.len() ==> r.summary[i] != '\n'
            &&& r.detail == t
        }),
        utf8_len(id) <= 8 ==> head8(id) == id,
        utf8_len(id) > 8 && is_byte_boundary(id, 8) ==> utf8_len(head8(id)) == 8
            && head8(id) == id.take(head8(id).len() as int),
{
    let p = spec_json_pretty(input);
    law_first_line_is_one_short_line(p, 60);
    law_first_line_is_one_short_line(t, 80);
    let u = block_display(BlockModel::ToolUse { id, name, input });
    let pre = name + " \u{b7} "@;
    assert(u.summary =~= pre + spec_first_line(p, 60));
    assert(u.summary.take(pre.len() as int) =~= pre);
    let r = block_display(
        BlockModel::ToolResult { tool_use_id: id, content: ResultModel::Text(t), is_error },
    );
    reveal_strlit(" [ERROR]");
    reveal_strlit(" [ERROR] \u{b7} ");
    reveal_strlit(" \u{b7} ");
    reveal_strlit("");
    let pre2 = head8(id) + (if is_error {
        " [ERROR] \u{b7} "@
    } else {
        " \u{b7} "@
    });
    assert(r.summary =~= pre2 + spec_first_line(t, 80));
    assert(r.summary.take(pre2.len() as int) =~= pre2);
    assert(id.take(id.len() as int) =~= id);
    if utf8_len(id) <= 8 && is_byte_boundary(id, 8) {
        let k = chars_in_bytes(id, 8);
        lemma_utf8_len_prefix_strict(id, k, id.len() as int);
        lemma_byte_prefix_unique(id, id.len() as int, utf8_len(id) as int);
    }
    if utf8_len(id) > 8 && is_byte_boundary(id, 8) {
        let k = chars_in_bytes(id, 8);
        lemma_byte_prefix_unique(id, k, 8);
    }
}

} // verus!
