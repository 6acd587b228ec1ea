//! The streaming conversion: Anthropic server-sent events in, Responses
//! server-sent events out.
//!
//! The converter is a state machine over the view [`ConverterView`]. Bytes
//! come in through [`AnthropicSseToResponsesConverter::push_bytes`], are
//! decoded as UTF-8 (a character cut short waits for the next bytes) and cut
//! into blocks; each block's fields are read, its data parsed as JSON and its
//! event handled by [`AnthropicSseToResponsesConverter::handle_event`], and
//! the events it gives are framed for the outgoing stream.
//! [`AnthropicSseToResponsesConverter::finish`] ends the stream.

use vstd::prelude::*;
use vstd::string::StringExecFns;
use std::collections::HashMap;
use crate::anthropic::{
    empty_object, jobj, jstr, str_or, usage_fits, usage_spec, anthropic_usage_to_responses_usage,
};
use crate::json::{
    as_u64, entries_set, entries_set_exec, entry_views, get, get_str, json_array, json_object,
    json_str, new_entries, new_values, push_entry, push_value, Json, JsonValue,
};
use crate::text::{decimal_text, str_eq};

verus! {

/// An event to send: its name and its data.
pub struct SseEvent {
    pub event: String,
    pub data: Json,
}

pub open spec fn event_views(v: Seq<SseEvent>) -> Seq<(Seq<char>, JsonValue)> {
    Seq::new(v.len(), |i: int| (v[i].event@, v[i].data@))
}

/// A content block that has started and not stopped.
pub struct BlockView {
    pub kind: Seq<char>,
    pub item_id: Seq<char>,
    pub output_index: u64,
    pub content_index: u64,
    pub call_id: Seq<char>,
    pub name: Seq<char>,
    pub text_buffer: Seq<char>,
    pub args_buffer: Seq<char>,
    pub signature: Seq<char>,
}

/// The state of a conversion.
pub struct ConverterView {
    pub buffer: Seq<char>,
    pub pending: Seq<u8>,
    pub response_id: Seq<char>,
    pub model: Seq<char>,
    pub input_usage: JsonValue,
    pub stop_reason: Seq<char>,
    pub output_usage: JsonValue,
    pub blocks: Map<u64, BlockView>,
    pub next_output_index: u64,
    pub started: bool,
    pub completed: bool,
    pub failed: bool,
}

/// A `u64` field, 0 when absent.
pub open spec fn u64_field(v: JsonValue, k: Seq<char>) -> u64 {
    match get(v, k) {
        Some(x) => match as_u64(x) {
            Some(n) => n,
            None => 0,
        },
        None => 0,
    }
}

/// A field, or an empty object when absent.
pub open spec fn obj_field(v: JsonValue, k: Seq<char>) -> JsonValue {
    match get(v, k) {
        Some(x) => x,
        None => empty_object(),
    }
}

/// The response as it stands, with `status` and no output.
pub open spec fn skeleton(v: ConverterView, status: Seq<char>) -> JsonValue {
    jobj(
        seq![("id"@, jstr(v.response_id))].push(("object"@, jstr("response"@))).push(("status"@, jstr(status))).push(
            ("model"@, jstr(v.model)),
        ).push(("output"@, JsonValue::Array(Seq::empty()))),
    )
}

/// `{"type":name, k:x}`.
pub open spec fn typed(name: Seq<char>, k: Seq<char>, x: JsonValue) -> JsonValue {
    jobj(seq![("type"@, jstr(name))].push((k, x)))
}

pub open spec fn message_start_spec(v: ConverterView, data: JsonValue) -> (ConverterView, Seq<(Seq<char>, JsonValue)>) {
    let message = obj_field(data, "message"@);
    let v2 = ConverterView {
        response_id: str_or(get_str(message, "id"@), "msg_unknown"@),
        model: str_or(get_str(message, "model"@), ""@),
        input_usage: obj_field(message, "usage"@),
        started: true,
        ..v
    };
    (
        v2,
        seq![("response.created"@, typed("response.created"@, "response"@, skeleton(v2, "in_progress"@)))].push(
            ("response.in_progress"@, typed("response.in_progress"@, "response"@, skeleton(v2, "in_progress"@))),
        ),
    )
}

pub open spec fn output_text_empty() -> JsonValue {
    jobj(seq![("type"@, jstr("output_text"@))].push(("text"@, jstr(""@))).push(("annotations"@, JsonValue::Array(Seq::empty()))))
}

pub open spec fn output_text_of(t: Seq<char>) -> JsonValue {
    jobj(seq![("type"@, jstr("output_text"@))].push(("text"@, jstr(t))).push(("annotations"@, JsonValue::Array(Seq::empty()))))
}

/// `{"type":"response.output_item.added","output_index":oi,"item":item}`.
pub open spec fn item_added(oi: u64, item: JsonValue) -> (Seq<char>, JsonValue) {
    (
        "response.output_item.added"@,
        jobj(
            seq![("type"@, jstr("response.output_item.added"@))].push(("output_index"@, JsonValue::UInt(oi))).push(
                ("item"@, item),
            ),
        ),
    )
}

/// `{"type":"response.output_item.done","output_index":oi,"item":item}`.
pub open spec fn item_done(oi: u64, item: JsonValue) -> (Seq<char>, JsonValue) {
    (
        "response.output_item.done"@,
        jobj(
            seq![("type"@, jstr("response.output_item.done"@))].push(("output_index"@, JsonValue::UInt(oi))).push(
                ("item"@, item),
            ),
        ),
    )
}

/// The item id of output `oi`: the response id, `-item-` and the index.
pub open spec fn item_id_spec(rid: Seq<char>, oi: u64) -> Seq<char> {
    rid + "-item-"@ + decimal_text(oi as nat)
}

/// The events that announce a started block.
pub open spec fn block_start_events(kind: Seq<char>, block: JsonValue, item_id: Seq<char>, oi: u64) -> Seq<(Seq<char>, JsonValue)> {
    if kind == "text"@ {
        seq![
            item_added(
                oi,
                jobj(
                    seq![("type"@, jstr("message"@))].push(("id"@, jstr(item_id))).push(("role"@, jstr("assistant"@))).push(
                        ("status"@, jstr("in_progress"@)),
                    ).push(("content"@, JsonValue::Array(Seq::empty()))),
                ),
            ),
        ].push(
            (
                "response.content_part.added"@,
                jobj(
                    seq![("type"@, jstr("response.content_part.added"@))].push(("item_id"@, jstr(item_id))).push(
                        ("output_index"@, JsonValue::UInt(oi)),
                    ).push(("content_index"@, JsonValue::UInt(0))).push(("part"@, output_text_empty())),
                ),
            ),
        )
    } else if kind == "tool_use"@ {
        seq![
            item_added(
                oi,
                jobj(
                    seq![("type"@, jstr("function_call"@))].push(("id"@, jstr(item_id))).push(
                        ("call_id"@, jstr(str_or(get_str(block, "id"@), ""@))),
                    ).push(("name"@, jstr(str_or(get_str(block, "name"@), ""@)))).push(("arguments"@, jstr(""@))).push(
                        ("status"@, jstr("in_progress"@)),
                    ),
                ),
            ),
        ]
    } else if kind == "thinking"@ {
        seq![
            item_added(
                oi,
                jobj(
                    seq![("type"@, jstr("reasoning"@))].push(("id"@, jstr(item_id))).push(
                        ("summary"@, JsonValue::Array(Seq::empty())),
                    ),
                ),
            ),
        ]
    } else {
        Seq::empty()
    }
}

/// A block starts: it takes the next output index, is announced, and is
/// recorded under its index (replacing one open under the same index).
pub open spec fn block_start_spec(v: ConverterView, data: JsonValue) -> (ConverterView, Seq<(Seq<char>, JsonValue)>) {
    let index = u64_field(data, "index"@);
    let block = obj_field(data, "content_block"@);
    let kind = str_or(get_str(block, "type"@), ""@);
    let oi = v.next_output_index;
    let item_id = item_id_spec(v.response_id, oi);
    let b = BlockView {
        kind: kind,
        item_id: item_id,
        output_index: oi,
        content_index: 0,
        call_id: str_or(get_str(block, "id"@), ""@),
        name: str_or(get_str(block, "name"@), ""@),
        text_buffer: Seq::empty(),
        args_buffer: Seq::empty(),
        signature: Seq::empty(),
    };
    (
        ConverterView { next_output_index: (oi + 1) as u64, blocks: v.blocks.insert(index, b), ..v },
        block_start_events(kind, block, item_id, oi),
    )
}

/// A delta for an open block: text and thinking grow the text, JSON
/// fragments the arguments (forwarded as they are), signatures the
/// signature.
pub open spec fn block_delta_spec(v: ConverterView, data: JsonValue) -> (ConverterView, Seq<(Seq<char>, JsonValue)>) {
    let index = u64_field(data, "index"@);
    if !v.blocks.contains_key(index) {
        (v, Seq::empty())
    } else {
        let b = v.blocks[index];
        let delta = obj_field(data, "delta"@);
        match get_str(delta, "type"@) {
            Some(ty) => if ty == "text_delta"@ {
                let text = str_or(get_str(delta, "text"@), ""@);
                (
                    ConverterView { blocks: v.blocks.insert(index, BlockView { text_buffer: b.text_buffer + text, ..b }), ..v },
                    seq![
                        (
                            "response.output_text.delta"@,
                            jobj(
                                seq![("type"@, jstr("response.output_text.delta"@))].push(("item_id"@, jstr(b.item_id))).push(
                                    ("output_index"@, JsonValue::UInt(b.output_index)),
                                ).push(("content_index"@, JsonValue::UInt(b.content_index))).push(("delta"@, jstr(text))),
                            ),
                        ),
                    ],
                )
            } else if ty == "input_json_delta"@ {
                let partial = str_or(get_str(delta, "partial_json"@), ""@);
                (
                    ConverterView { blocks: v.blocks.insert(index, BlockView { args_buffer: b.args_buffer + partial, ..b }), ..v },
                    seq![
                        (
                            "response.function_call_arguments.delta"@,
                            jobj(
                                seq![("type"@, jstr("response.function_call_arguments.delta"@))].push(
                                    ("item_id"@, jstr(b.item_id)),
                                ).push(("output_index"@, JsonValue::UInt(b.output_index))).push(("delta"@, jstr(partial))),
                            ),
                        ),
                    ],
                )
            } else if ty == "thinking_delta"@ {
                let thinking = str_or(get_str(delta, "thinking"@), ""@);
                (
                    ConverterView { blocks: v.blocks.insert(index, BlockView { text_buffer: b.text_buffer + thinking, ..b }), ..v },
                    seq![
                        (
                            "response.reasoning_summary_text.delta"@,
                            jobj(
                                seq![("type"@, jstr("response.reasoning_summary_text.delta"@))].push(
                                    ("item_id"@, jstr(b.item_id)),
                                ).push(("output_index"@, JsonValue::UInt(b.output_index))).push(
                                    ("summary_index"@, JsonValue::UInt(0)),
                                ).push(("delta"@, jstr(thinking))),
                            ),
                        ),
                    ],
                )
            } else if ty == "signature_delta"@ {
                match get_str(delta, "signature"@) {
                    Some(sig) => (
                        ConverterView { blocks: v.blocks.insert(index, BlockView { signature: b.signature + sig, ..b }), ..v },
                        Seq::empty(),
                    ),
                    None => (v, Seq::empty()),
                }
            } else {
                (v, Seq::empty())
            },
            None => (v, Seq::empty()),
        }
    }
}

/// The events that close a stopped block.
pub open spec fn block_stop_events(b: BlockView) -> Seq<(Seq<char>, JsonValue)> {
    if b.kind == "text"@ {
        seq![
            (
                "response.output_text.done"@,
                jobj(
                    seq![("type"@, jstr("response.output_text.done"@))].push(("item_id"@, jstr(b.item_id))).push(
                        ("output_index"@, JsonValue::UInt(b.output_index)),
                    ).push(("content_index"@, JsonValue::UInt(b.content_index))).push(("text"@, jstr(b.text_buffer))),
                ),
            ),
        ].push(
            (
                "response.content_part.done"@,
                jobj(
                    seq![("type"@, jstr("response.content_part.done"@))].push(("item_id"@, jstr(b.item_id))).push(
                        ("output_index"@, JsonValue::UInt(b.output_index)),
                    ).push(("content_index"@, JsonValue::UInt(b.content_index))).push(("part"@, output_text_of(b.text_buffer))),
                ),
            ),
        ).push(
            item_done(
                b.output_index,
                jobj(
                    seq![("type"@, jstr("message"@))].push(("id"@, jstr(b.item_id))).push(("role"@, jstr("assistant"@))).push(
                        ("status"@, jstr("completed"@)),
                    ).push(("content"@, JsonValue::Array(seq![output_text_of(b.text_buffer)]))),
                ),
            ),
        )
    } else if b.kind == "tool_use"@ {
        seq![
            (
                "response.function_call_arguments.done"@,
                jobj(
                    seq![("type"@, jstr("response.function_call_arguments.done"@))].push(("item_id"@, jstr(b.item_id))).push(
                        ("output_index"@, JsonValue::UInt(b.output_index)),
                    ).push(("arguments"@, jstr(b.args_buffer))),
                ),
            ),
        ].push(
            item_done(
                b.output_index,
                jobj(
                    seq![("type"@, jstr("function_call"@))].push(("id"@, jstr(b.item_id))).push(("call_id"@, jstr(b.call_id))).push(
                        ("name"@, jstr(b.name)),
                    ).push(("arguments"@, jstr(b.args_buffer))).push(("status"@, jstr("completed"@))),
                ),
            ),
        )
    } else if b.kind == "thinking"@ {
        let base = seq![("type"@, jstr("reasoning"@))].push(("id"@, jstr(b.item_id))).push(
            (
                "summary"@,
                JsonValue::Array(seq![jobj(seq![("type"@, jstr("summary_text"@))].push(("text"@, jstr(b.text_buffer))))]),
            ),
        );
        let item = if b.signature.len() > 0 {
            jobj(base.push(("signature"@, jstr(b.signature))))
        } else {
            jobj(base)
        };
        seq![
            (
                "response.reasoning_summary_text.done"@,
                jobj(
                    seq![("type"@, jstr("response.reasoning_summary_text.done"@))].push(("item_id"@, jstr(b.item_id))).push(
                        ("output_index"@, JsonValue::UInt(b.output_index)),
                    ).push(("summary_index"@, JsonValue::UInt(0))).push(("text"@, jstr(b.text_buffer))),
                ),
            ),
        ].push(item_done(b.output_index, item))
    } else {
        Seq::empty()
    }
}

/// A block stops: it is closed and forgotten.
pub open spec fn block_stop_spec(v: ConverterView, data: JsonValue) -> (ConverterView, Seq<(Seq<char>, JsonValue)>) {
    let index = u64_field(data, "index"@);
    if !v.blocks.contains_key(index) {
        (v, Seq::empty())
    } else {
        (ConverterView { blocks: v.blocks.remove(index), ..v }, block_stop_events(v.blocks[index]))
    }
}

/// The message's stop reason and output usage are recorded.
pub open spec fn message_delta_spec(v: ConverterView, data: JsonValue) -> ConverterView {
    let stop = match get(data, "delta"@) {
        Some(d) => get_str(d, "stop_reason"@),
        None => None,
    };
    ConverterView {
        stop_reason: str_or(stop, v.stop_reason),
        output_usage: match get(data, "usage"@) {
            Some(u) => u,
            None => v.output_usage,
        },
        ..v
    }
}

/// The entries of `b[..n]` set, one after another, in `a`.
pub open spec fn merge_entries(a: Seq<(Seq<char>, JsonValue)>, b: Seq<(Seq<char>, JsonValue)>, n: int) -> Seq<(Seq<char>, JsonValue)>
    decreases n,
{
    if n <= 0 {
        a
    } else {
        entries_set(merge_entries(a, b, n - 1), b[n - 1].0, b[n - 1].1)
    }
}

/// The input usage with the output usage's fields set in it, when both are
/// objects.
pub open spec fn merged_usage(v: ConverterView) -> JsonValue {
    match (v.input_usage, v.output_usage) {
        (JsonValue::Object(a), JsonValue::Object(b)) => JsonValue::Object(merge_entries(a, b, b.len() as int)),
        _ => v.input_usage,
    }
}

/// The usage of a completed response adds up without overflow.
pub open spec fn completion_fits(v: ConverterView) -> bool {
    usage_fits(Some(merged_usage(v)))
}

/// The response completes, once and never after a failure: incomplete
/// when the stop reason is `max_tokens`.
pub open spec fn completed_spec(v: ConverterView) -> (ConverterView, Seq<(Seq<char>, JsonValue)>) {
    if v.completed || v.failed {
        (v, Seq::empty())
    } else {
        let max = v.stop_reason == "max_tokens"@;
        let base = skeleton(
            v,
            if max {
                "incomplete"@
            } else {
                "completed"@
            },
        )->Object_0.push(("usage"@, usage_spec(Some(merged_usage(v)))));
        let response = if max {
            jobj(base.push(("incomplete_details"@, jobj(seq![("reason"@, jstr("max_output_tokens"@))]))))
        } else {
            jobj(base)
        };
        (
            ConverterView { completed: true, ..v },
            seq![("response.completed"@, typed("response.completed"@, "response"@, response))],
        )
    }
}

/// The response fails, once.
pub open spec fn failed_spec(v: ConverterView, message: Seq<char>, error_type: Option<Seq<char>>) -> (
    ConverterView,
    Seq<(Seq<char>, JsonValue)>,
) {
    if v.failed {
        (v, Seq::empty())
    } else {
        let response = jobj(
            skeleton(v, "failed"@)->Object_0.push(
                (
                    "error"@,
                    jobj(
                        seq![("code"@, jstr(str_or(error_type, "upstream_error"@)))].push(("message"@, jstr(message))),
                    ),
                ),
            ),
        );
        (ConverterView { failed: true, ..v }, seq![("response.failed"@, typed("response.failed"@, "response"@, response))])
    }
}

/// The effect of one upstream event, by name and data.
pub open spec fn handle_event_spec(v: ConverterView, event: Seq<char>, data: JsonValue) -> (
    ConverterView,
    Seq<(Seq<char>, JsonValue)>,
) {
    if event == "message_start"@ {
        message_start_spec(v, data)
    } else if event == "content_block_start"@ {
        block_start_spec(v, data)
    } else if event == "content_block_delta"@ {
        block_delta_spec(v, data)
    } else if event == "content_block_stop"@ {
        block_stop_spec(v, data)
    } else if event == "message_delta"@ {
        (message_delta_spec(v, data), Seq::empty())
    } else if event == "message_stop"@ {
        completed_spec(v)
    } else if event == "error"@ {
        let e = get(data, "error"@);
        let message = match e {
            Some(x) => get_str(x, "message"@),
            None => None,
        };
        let kind = match e {
            Some(x) => get_str(x, "type"@),
            None => None,
        };
        failed_spec(v, str_or(message, "upstream stream error"@), kind)
    } else {
        (v, Seq::empty())
    }
}

/// What `handle_event` needs: a free output index for a block start, and a
/// usage that adds up for a completion.
pub open spec fn event_ok(v: ConverterView, event: Seq<char>) -> bool {
    &&& event == "content_block_start"@ ==> v.next_output_index < u64::MAX
    &&& event == "message_stop"@ && !v.completed && !v.failed ==> completion_fits(v)
}

} // verus!

verus! {

/// A block that has started and not stopped.
struct OpenBlock {
    kind: String,
    item_id: String,
    output_index: u64,
    content_index: u64,
    call_id: String,
    name: String,
    text_buffer: String,
    args_buffer: String,
    signature: String,
}

spec fn block_view(b: OpenBlock) -> BlockView {
    BlockView {
        kind: b.kind@,
        item_id: b.item_id@,
        output_index: b.output_index,
        content_index: b.content_index,
        call_id: b.call_id@,
        name: b.name@,
        text_buffer: b.text_buffer@,
        args_buffer: b.args_buffer@,
        signature: b.signature@,
    }
}

spec fn block_views(m: Map<u64, OpenBlock>) -> Map<u64, BlockView> {
    m.map_values(|b: OpenBlock| block_view(b))
}

/// The incremental conversion of an Anthropic event stream to a Responses
/// event stream.
pub struct AnthropicSseToResponsesConverter {
    buffer: String,
    pending_bytes: Vec<u8>,
    response_id: String,
    model: String,
    input_usage: Json,
    stop_reason: String,
    output_usage: Json,
    blocks: HashMap<u64, OpenBlock>,
    next_output_index: u64,
    started: bool,
    completed: bool,
    failed: bool,
}

impl View for AnthropicSseToResponsesConverter {
    type V = ConverterView;

    closed spec fn view(&self) -> ConverterView {
        ConverterView {
            buffer: self.buffer@,
            pending: self.pending_bytes@,
            response_id: self.response_id@,
            model: self.model@,
            input_usage: self.input_usage@,
            stop_reason: self.stop_reason@,
            output_usage: self.output_usage@,
            blocks: block_views(self.blocks@),
            next_output_index: self.next_output_index,
            started: self.started,
            completed: self.completed,
            failed: self.failed,
        }
    }
}

/// The state of a new conversion.
pub open spec fn initial_view() -> ConverterView {
    ConverterView {
        buffer: Seq::empty(),
        pending: Seq::empty(),
        response_id: Seq::empty(),
        model: Seq::empty(),
        input_usage: empty_object(),
        stop_reason: Seq::empty(),
        output_usage: empty_object(),
        blocks: Map::empty(),
        next_output_index: 0,
        started: false,
        completed: false,
        failed: false,
    }
}

fn new_events() -> (r: Vec<SseEvent>)
    ensures
        event_views(r@) == Seq::<(Seq<char>, JsonValue)>::empty(),
{
    let r: Vec<SseEvent> = Vec::new();
    assert(event_views(r@) =~= Seq::<(Seq<char>, JsonValue)>::empty());
    r
}

fn push_event(out: &mut Vec<SseEvent>, name: &str, data: Json)
    ensures
        event_views(final(out)@) == event_views(old(out)@).push((name@, data@)),
{
    let ghost before = event_views(out@);
    let ghost dv = data@;
    out.push(SseEvent { event: name.to_owned(), data });
    assert(event_views(out@) =~= before.push((name@, dv)));
}

fn typed_exec(name: &str, k: &str, x: Json) -> (r: Json)
    ensures
        r@ == typed(name@, k@, x@),
{
    let mut es = new_entries();
    push_entry(&mut es, "type", json_str(name));
    push_entry(&mut es, k, x);
    json_object(es)
}

fn u64_field_exec(v: &Json, k: &str) -> (r: u64)
    ensures
        r == u64_field(v@, k@),
{
    match v.get(k) {
        Some(x) => match x.as_u64() {
            Some(n) => n,
            None => 0,
        },
        None => 0,
    }
}

fn obj_field_exec(v: &Json, k: &str) -> (r: Json)
    ensures
        r@ == obj_field(v@, k@),
{
    match v.get(k) {
        Some(x) => x.deep_clone(),
        None => json_object(new_entries()),
    }
}

fn string_field(v: &Json, k: &str, default: &str) -> (r: String)
    ensures
        r@ == str_or(get_str(v@, k@), default@),
{
    match v.get_str(k) {
        Some(s) => s.clone(),
        None => default.to_owned(),
    }
}

fn output_text_exec(t: &str) -> (r: Json)
    ensures
        r@ == output_text_of(t@),
{
    let mut es = new_entries();
    push_entry(&mut es, "type", json_str("output_text"));
    push_entry(&mut es, "text", json_str(t));
    push_entry(&mut es, "annotations", json_array(new_values()));
    json_object(es)
}

fn item_event_exec(out: &mut Vec<SseEvent>, name: &str, oi: u64, item: Json)
    ensures
        event_views(final(out)@) == event_views(old(out)@).push(
            (name@, jobj(seq![("type"@, jstr(name@))].push(("output_index"@, JsonValue::UInt(oi))).push(("item"@, item@)))),
        ),
{
    let mut es = new_entries();
    push_entry(&mut es, "type", json_str(name));
    push_entry(&mut es, "output_index", Json::UInt(oi));
    push_entry(&mut es, "item", item);
    push_event(out, name, json_object(es));
}

impl AnthropicSseToResponsesConverter {
    /// A new conversion; the original request is not needed by it.
    pub fn with_request(_original_request: &Json) -> (r: Self)
        ensures
            r@ == initial_view(),
    {
        let r = AnthropicSseToResponsesConverter {
            buffer: String::new(),
            pending_bytes: Vec::new(),
            response_id: String::new(),
            model: String::new(),
            input_usage: json_object(new_entries()),
            stop_reason: String::new(),
            output_usage: json_object(new_entries()),
            blocks: HashMap::new(),
            next_output_index: 0,
            started: false,
            completed: false,
            failed: false,
        };
        assert(block_views(r.blocks@) =~= Map::<u64, BlockView>::empty());
        r
    }

    fn skeleton_exec(&self, status: &str) -> (r: Json)
        ensures
            r@ == skeleton(self@, status@),
    {
        let mut es = new_entries();
        push_entry(&mut es, "id", Json::Str(self.response_id.clone()));
        push_entry(&mut es, "object", json_str("response"));
        push_entry(&mut es, "status", json_str(status));
        push_entry(&mut es, "model", Json::Str(self.model.clone()));
        push_entry(&mut es, "output", json_array(new_values()));
        json_object(es)
    }

    fn on_message_start(&mut self, data: &Json) -> (r: Vec<SseEvent>)
        ensures
            (final(self)@, event_views(r@)) == message_start_spec(old(self)@, data@),
    {
        let message = obj_field_exec(data, "message");
        self.response_id = string_field(&message, "id", "msg_unknown");
        self.model = string_field(&message, "model", "");
        self.input_usage = obj_field_exec(&message, "usage");
        self.started = true;
        let mut out = new_events();
        let created = typed_exec("response.created", "response", self.skeleton_exec("in_progress"));
        push_event(&mut out, "response.created", created);
        let progress = typed_exec("response.in_progress", "response", self.skeleton_exec("in_progress"));
        push_event(&mut out, "response.in_progress", progress);
        out
    }
}

} // verus!

verus! {

impl AnthropicSseToResponsesConverter {
    fn on_block_start(&mut self, data: &Json) -> (r: Vec<SseEvent>)
        requires
            old(self).next_output_index < u64::MAX,
        ensures
            (final(self)@, event_views(r@)) == block_start_spec(old(self)@, data@),
    {
        broadcast use vstd::std_specs::hash::group_hash_axioms;

        let ghost v0 = self@;
        let index = u64_field_exec(data, "index");
        let block = obj_field_exec(data, "content_block");
        let kind = string_field(&block, "type", "");
        let oi = self.next_output_index;
        self.next_output_index = oi + 1;
        let mut item_id = self.response_id.clone();
        item_id.append("-item-");
        let digits = crate::text::decimal_string(oi);
        item_id.append(digits.as_str());
        assert(item_id@ == item_id_spec(v0.response_id, oi));
        let mut out = new_events();
        if str_eq(kind.as_str(), "text") {
            let mut item = new_entries();
            push_entry(&mut item, "type", json_str("message"));
            push_entry(&mut item, "id", Json::Str(item_id.clone()));
            push_entry(&mut item, "role", json_str("assistant"));
            push_entry(&mut item, "status", json_str("in_progress"));
            push_entry(&mut item, "content", json_array(new_values()));
            item_event_exec(&mut out, "response.output_item.added", oi, json_object(item));
            let mut part = new_entries();
            push_entry(&mut part, "type", json_str("output_text"));
            push_entry(&mut part, "text", json_str(""));
            push_entry(&mut part, "annotations", json_array(new_values()));
            let mut es = new_entries();
            push_entry(&mut es, "type", json_str("response.content_part.added"));
            push_entry(&mut es, "item_id", Json::Str(item_id.clone()));
            push_entry(&mut es, "output_index", Json::UInt(oi));
            push_entry(&mut es, "content_index", Json::UInt(0));
            push_entry(&mut es, "part", json_object(part));
            push_event(&mut out, "response.content_part.added", json_object(es));
        } else if str_eq(kind.as_str(), "tool_use") {
            let mut item = new_entries();
            push_entry(&mut item, "type", json_str("function_call"));
            push_entry(&mut item, "id", Json::Str(item_id.clone()));
            push_entry(&mut item, "call_id", Json::Str(string_field(&block, "id", "")));
            push_entry(&mut item, "name", Json::Str(string_field(&block, "name", "")));
            push_entry(&mut item, "arguments", json_str(""));
            push_entry(&mut item, "status", json_str("in_progress"));
            item_event_exec(&mut out, "response.output_item.added", oi, json_object(item));
        } else if str_eq(kind.as_str(), "thinking") {
            let mut item = new_entries();
            push_entry(&mut item, "type", json_str("reasoning"));
            push_entry(&mut item, "id", Json::Str(item_id.clone()));
            push_entry(&mut item, "summary", json_array(new_values()));
            item_event_exec(&mut out, "response.output_item.added", oi, json_object(item));
        }
        let b = OpenBlock {
            kind,
            item_id,
            output_index: oi,
            content_index: 0,
            call_id: string_field(&block, "id", ""),
            name: string_field(&block, "name", ""),
            text_buffer: String::new(),
            args_buffer: String::new(),
            signature: String::new(),
        };
        let ghost bv = block_view(b);
        let ghost before = self.blocks@;
        self.blocks.insert(index, b);
        assert(block_views(self.blocks@) =~= block_views(before).insert(index, bv));
        out
    }

    fn on_block_delta(&mut self, data: &Json) -> (r: Vec<SseEvent>)
        ensures
            (final(self)@, event_views(r@)) == block_delta_spec(old(self)@, data@),
    {
        broadcast use vstd::std_specs::hash::group_hash_axioms;

        let ghost v0 = self@;
        let index = u64_field_exec(data, "index");
        let ghost before = self.blocks@;
        let mut b = match self.blocks.remove(&index) {
            Some(b) => b,
            None => {
                assert(!v0.blocks.contains_key(index));
                assert(self.blocks@ =~= before);
                return new_events();
            },
        };
        assert(v0.blocks.contains_key(index) && v0.blocks[index] == block_view(b));
        let delta = obj_field_exec(data, "delta");
        let mut out = new_events();
        let ty: Option<&String> = delta.get_str("type");
        match ty {
            Some(t) => {
                if str_eq(t.as_str(), "text_delta") {
                    let text = string_field(&delta, "text", "");
                    b.text_buffer.append(text.as_str());
                    let mut es = new_entries();
                    push_entry(&mut es, "type", json_str("response.output_text.delta"));
                    push_entry(&mut es, "item_id", Json::Str(b.item_id.clone()));
                    push_entry(&mut es, "output_index", Json::UInt(b.output_index));
                    push_entry(&mut es, "content_index", Json::UInt(b.content_index));
                    push_entry(&mut es, "delta", Json::Str(text));
                    push_event(&mut out, "response.output_text.delta", json_object(es));
                } else if str_eq(t.as_str(), "input_json_delta") {
                    let partial = string_field(&delta, "partial_json", "");
                    b.args_buffer.append(partial.as_str());
                    let mut es = new_entries();
                    push_entry(&mut es, "type", json_str("response.function_call_arguments.delta"));
                    push_entry(&mut es, "item_id", Json::Str(b.item_id.clone()));
                    push_entry(&mut es, "output_index", Json::UInt(b.output_index));
                    push_entry(&mut es, "delta", Json::Str(partial));
                    push_event(&mut out, "response.function_call_arguments.delta", json_object(es));
                } else if str_eq(t.as_str(), "thinking_delta") {
                    let thinking = string_field(&delta, "thinking", "");
                    b.text_buffer.append(thinking.as_str());
                    let mut es = new_entries();
                    push_entry(&mut es, "type", json_str("response.reasoning_summary_text.delta"));
                    push_entry(&mut es, "item_id", Json::Str(b.item_id.clone()));
                    push_entry(&mut es, "output_index", Json::UInt(b.output_index));
                    push_entry(&mut es, "summary_index", Json::UInt(0));
                    push_entry(&mut es, "delta", Json::Str(thinking));
                    push_event(&mut out, "response.reasoning_summary_text.delta", json_object(es));
                } else if str_eq(t.as_str(), "signature_delta") {
                    match delta.get_str("signature") {
                        Some(sig) => {
                            b.signature.append(sig.as_str());
                        },
                        None => {},
                    }
                }
            },
            None => {},
        }
        let ghost bv = block_view(b);
        let ghost mid = self.blocks@;
        self.blocks.insert(index, b);
        assert(mid == before.remove(index));
        assert(block_views(self.blocks@) =~= v0.blocks.insert(index, bv));
        proof {
            if block_view(before[index]) == bv {
                assert(v0.blocks.insert(index, bv) =~= v0.blocks);
            }
        }
        out
    }
}

} // verus!

verus! {

impl AnthropicSseToResponsesConverter {
    fn on_block_stop(&mut self, data: &Json) -> (r: Vec<SseEvent>)
        ensures
            (final(self)@, event_views(r@)) == block_stop_spec(old(self)@, data@),
    {
        broadcast use vstd::std_specs::hash::group_hash_axioms;

        let ghost v0 = self@;
        let index = u64_field_exec(data, "index");
        let ghost before = self.blocks@;
        let b = match self.blocks.remove(&index) {
            Some(b) => b,
            None => {
                assert(self.blocks@ =~= before);
                return new_events();
            },
        };
        assert(block_views(self.blocks@) =~= v0.blocks.remove(index));
        let ghost bv = block_view(b);
        assert(v0.blocks[index] == bv);
        let mut out = new_events();
        if str_eq(b.kind.as_str(), "text") {
            let mut es = new_entries();
            push_entry(&mut es, "type", json_str("response.output_text.done"));
            push_entry(&mut es, "item_id", Json::Str(b.item_id.clone()));
            push_entry(&mut es, "output_index", Json::UInt(b.output_index));
            push_entry(&mut es, "content_index", Json::UInt(b.content_index));
            push_entry(&mut es, "text", Json::Str(b.text_buffer.clone()));
            push_event(&mut out, "response.output_text.done", json_object(es));
            let mut es = new_entries();
            push_entry(&mut es, "type", json_str("response.content_part.done"));
            push_entry(&mut es, "item_id", Json::Str(b.item_id.clone()));
            push_entry(&mut es, "output_index", Json::UInt(b.output_index));
            push_entry(&mut es, "content_index", Json::UInt(b.content_index));
            push_entry(&mut es, "part", output_text_exec(b.text_buffer.as_str()));
            push_event(&mut out, "response.content_part.done", json_object(es));
            let mut content = new_values();
            push_value(&mut content, output_text_exec(b.text_buffer.as_str()));
            let mut item = new_entries();
            push_entry(&mut item, "type", json_str("message"));
            push_entry(&mut item, "id", Json::Str(b.item_id.clone()));
            push_entry(&mut item, "role", json_str("assistant"));
            push_entry(&mut item, "status", json_str("completed"));
            push_entry(&mut item, "content", json_array(content));
            item_event_exec(&mut out, "response.output_item.done", b.output_index, json_object(item));
        } else if str_eq(b.kind.as_str(), "tool_use") {
            let mut es = new_entries();
            push_entry(&mut es, "type", json_str("response.function_call_arguments.done"));
            push_entry(&mut es, "item_id", Json::Str(b.item_id.clone()));
            push_entry(&mut es, "output_index", Json::UInt(b.output_index));
            push_entry(&mut es, "arguments", Json::Str(b.args_buffer.clone()));
            push_event(&mut out, "response.function_call_arguments.done", json_object(es));
            let mut item = new_entries();
            push_entry(&mut item, "type", json_str("function_call"));
            push_entry(&mut item, "id", Json::Str(b.item_id.clone()));
            push_entry(&mut item, "call_id", Json::Str(b.call_id.clone()));
            push_entry(&mut item, "name", Json::Str(b.name.clone()));
            push_entry(&mut item, "arguments", Json::Str(b.args_buffer.clone()));
            push_entry(&mut item, "status", json_str("completed"));
            item_event_exec(&mut out, "response.output_item.done", b.output_index, json_object(item));
        } else if str_eq(b.kind.as_str(), "thinking") {
            let mut part = new_entries();
            push_entry(&mut part, "type", json_str("summary_text"));
            push_entry(&mut part, "text", Json::Str(b.text_buffer.clone()));
            let mut summary = new_values();
            push_value(&mut summary, json_object(part));
            let mut item = new_entries();
            push_entry(&mut item, "type", json_str("reasoning"));
            push_entry(&mut item, "id", Json::Str(b.item_id.clone()));
            push_entry(&mut item, "summary", json_array(summary));
            if b.signature.as_str().unicode_len() > 0 {
                push_entry(&mut item, "signature", Json::Str(b.signature.clone()));
            }
            let mut es = new_entries();
            push_entry(&mut es, "type", json_str("response.reasoning_summary_text.done"));
            push_entry(&mut es, "item_id", Json::Str(b.item_id.clone()));
            push_entry(&mut es, "output_index", Json::UInt(b.output_index));
            push_entry(&mut es, "summary_index", Json::UInt(0));
            push_entry(&mut es, "text", Json::Str(b.text_buffer.clone()));
            push_event(&mut out, "response.reasoning_summary_text.done", json_object(es));
            item_event_exec(&mut out, "response.output_item.done", b.output_index, json_object(item));
        }
        out
    }

    fn on_message_delta(&mut self, data: &Json)
        ensures
            final(self)@ == message_delta_spec(old(self)@, data@),
    {
        let stop: Option<&String> = match data.get("delta") {
            Some(d) => d.get_str("stop_reason"),
            None => None,
        };
        match stop {
            Some(s) => {
                self.stop_reason = s.clone();
            },
            None => {},
        }
        match data.get("usage") {
            Some(u) => {
                self.output_usage = u.deep_clone();
            },
            None => {},
        }
    }

    fn merged_usage_exec(&self) -> (r: Json)
        ensures
            r@ == merged_usage(self@),
    {
        match (&self.input_usage, &self.output_usage) {
            (Json::Object(a), Json::Object(b)) => {
                proof {
                    crate::json::lemma_object_view(*a);
                    crate::json::lemma_object_view(*b);
                }
                let mut es: Vec<(String, Json)> = match self.input_usage.deep_clone() {
                    Json::Object(t) => t,
                    _ => new_entries(),
                };
                proof {
                    crate::json::lemma_object_view(es);
                }
                let ghost av = entry_views(a@);
                let ghost bv = entry_views(b@);
                assert(entry_views(es@) == av);
                let mut i: usize = 0;
                while i < b.len()
                    invariant
                        bv == entry_views(b@),
                        i <= b@.len(),
                        entry_views(es@) == merge_entries(av, bv, i as int),
                    decreases b.len() - i,
                {
                    entries_set_exec(&mut es, b[i].0.clone(), b[i].1.deep_clone());
                    i = i + 1;
                }
                json_object(es)
            },
            _ => self.input_usage.deep_clone(),
        }
    }

    fn emit_completed(&mut self) -> (r: Vec<SseEvent>)
        requires
            !old(self).completed && !old(self).failed ==> completion_fits(old(self)@),
        ensures
            (final(self)@, event_views(r@)) == completed_spec(old(self)@),
    {
        if self.completed || self.failed {
            return new_events();
        }
        self.completed = true;
        let usage = self.merged_usage_exec();
        let max = str_eq(self.stop_reason.as_str(), "max_tokens");
        let mut es = new_entries();
        push_entry(&mut es, "id", Json::Str(self.response_id.clone()));
        push_entry(&mut es, "object", json_str("response"));
        push_entry(
            &mut es,
            "status",
            if max {
                json_str("incomplete")
            } else {
                json_str("completed")
            },
        );
        push_entry(&mut es, "model", Json::Str(self.model.clone()));
        push_entry(&mut es, "output", json_array(new_values()));
        push_entry(&mut es, "usage", anthropic_usage_to_responses_usage(Some(&usage)));
        if max {
            let mut d = new_entries();
            push_entry(&mut d, "reason", json_str("max_output_tokens"));
            push_entry(&mut es, "incomplete_details", json_object(d));
        }
        let mut out = new_events();
        push_event(&mut out, "response.completed", typed_exec("response.completed", "response", json_object(es)));
        out
    }

    fn emit_failed(&mut self, message: String, error_type: Option<String>) -> (r: Vec<SseEvent>)
        ensures
            (final(self)@, event_views(r@)) == failed_spec(
                old(self)@,
                message@,
                match error_type {
                    Some(t) => Some(t@),
                    None => None,
                },
            ),
    {
        if self.failed {
            return new_events();
        }
        self.failed = true;
        let code = match error_type {
            Some(t) => t,
            None => "upstream_error".to_owned(),
        };
        let mut err = new_entries();
        push_entry(&mut err, "code", Json::Str(code));
        push_entry(&mut err, "message", Json::Str(message));
        let mut es = new_entries();
        push_entry(&mut es, "id", Json::Str(self.response_id.clone()));
        push_entry(&mut es, "object", json_str("response"));
        push_entry(&mut es, "status", json_str("failed"));
        push_entry(&mut es, "model", Json::Str(self.model.clone()));
        push_entry(&mut es, "output", json_array(new_values()));
        push_entry(&mut es, "error", json_object(err));
        let mut out = new_events();
        push_event(&mut out, "response.failed", typed_exec("response.failed", "response", json_object(es)));
        out
    }
}

} // verus!

verus! {

impl AnthropicSseToResponsesConverter {
    /// Handles one upstream event: `event` is its name and `data` its parsed
    /// data. Returns the events to send.
    pub fn handle_event(&mut self, event: &str, data: &Json) -> (r: Vec<SseEvent>)
        requires
            event_ok(old(self)@, event@),
        ensures
            (final(self)@, event_views(r@)) == handle_event_spec(old(self)@, event@, data@),
    {
        if str_eq(event, "message_start") {
            self.on_message_start(data)
        } else if str_eq(event, "content_block_start") {
            self.on_block_start(data)
        } else if str_eq(event, "content_block_delta") {
            self.on_block_delta(data)
        } else if str_eq(event, "content_block_stop") {
            self.on_block_stop(data)
        } else if str_eq(event, "message_delta") {
            self.on_message_delta(data);
            new_events()
        } else if str_eq(event, "message_stop") {
            self.emit_completed()
        } else if str_eq(event, "error") {
            let e = data.get("error");
            let message = match e {
                Some(x) => match x.get_str("message") {
                    Some(m) => m.clone(),
                    None => "upstream stream error".to_owned(),
                },
                None => "upstream stream error".to_owned(),
            };
            let kind: Option<String> = match e {
                Some(x) => match x.get_str("type") {
                    Some(t) => Some(t.clone()),
                    None => None,
                },
                None => None,
            };
            self.emit_failed(message, kind)
        } else {
            new_events()
        }
    }

    /// Whether the event `event` can be handled now: a block start needs a
    /// free output index, a completion a usage that adds up.
    pub fn can_handle(&self, event: &str) -> (r: bool)
        ensures
            r == event_ok(self@, event@),
    {
        let start_ok = !str_eq(event, "content_block_start") || self.next_output_index < u64::MAX;
        let stop_ok = !str_eq(event, "message_stop") || self.completed || self.failed || {
            let usage = self.merged_usage_exec();
            crate::anthropic::usage_fits_exec(Some(&usage))
        };
        start_ok && stop_ok
    }

    /// Closes a stream that ended: a response that started and neither
    /// completed nor failed completes now.
    pub fn finish_events(&mut self) -> (r: Vec<SseEvent>)
        requires
            old(self)@.started && !old(self)@.completed && !old(self)@.failed ==> completion_fits(old(self)@),
        ensures
            (final(self)@, event_views(r@)) == (if old(self)@.started && !old(self)@.completed && !old(self)@.failed {
                completed_spec(old(self)@)
            } else {
                (old(self)@, Seq::<(Seq<char>, JsonValue)>::empty())
            }),
    {
        if self.started && !self.completed && !self.failed {
            self.emit_completed()
        } else {
            new_events()
        }
    }

    /// Whether a stream that ends now can be closed.
    pub fn can_finish(&self) -> (r: bool)
        ensures
            r == (self@.started && !self@.completed && !self@.failed ==> completion_fits(self@)),
    {
        if self.started && !self.completed && !self.failed {
            let usage = self.merged_usage_exec();
            crate::anthropic::usage_fits_exec(Some(&usage))
        } else {
            true
        }
    }

    /// Fails the response with `message` and an optional error type.
    pub fn fail(&mut self, message: String, error_type: Option<String>) -> (r: Vec<SseEvent>)
        ensures
            (final(self)@, event_views(r@)) == failed_spec(
                old(self)@,
                message@,
                match error_type {
                    Some(t) => Some(t@),
                    None => None,
                },
            ),
    {
        self.emit_failed(message, error_type)
    }

    /// Whether the response has failed.
    pub fn is_failed(&self) -> (r: bool)
        ensures
            r == self@.failed,
    {
        self.failed
    }
}

} // verus!

verus! {

/// The first block of a buffer, up to the first blank line, and what follows
/// that line break pair.
pub open spec fn sse_split(buf: Seq<char>) -> Option<(Seq<char>, Seq<char>)> {
    match crate::text::first_occurrence(buf, seq!['\n', '\n']) {
        Some(p) => Some((buf.subrange(0, p), buf.subrange(p + 2, buf.len() as int))),
        None => None,
    }
}

/// The value of field `name` on an event-stream line (`name:value`, one
/// leading space dropped).
pub open spec fn field_value(line: Seq<char>, name: Seq<char>) -> Option<Seq<char>> {
    let p = name.push(':');
    if crate::text::starts_with(line, p) {
        let rest = line.subrange(p.len() as int, line.len() as int);
        Some(
            if rest.len() > 0 && rest[0] == ' ' {
                rest.drop_first()
            } else {
                rest
            },
        )
    } else {
        None
    }
}

/// The event name of `lines[..n]`: the last `event` field, trimmed.
pub open spec fn event_name_of(lines: Seq<Seq<char>>, n: int) -> Seq<char>
    decreases n,
{
    if n <= 0 {
        Seq::empty()
    } else {
        match field_value(lines[n - 1], "event"@) {
            Some(v) => crate::text::trim(v),
            None => event_name_of(lines, n - 1),
        }
    }
}

/// The `data` fields of `lines[..n]`, in order.
pub open spec fn data_parts(lines: Seq<Seq<char>>, n: int) -> Seq<Seq<char>>
    decreases n,
{
    if n <= 0 {
        Seq::empty()
    } else {
        let r = data_parts(lines, n - 1);
        match field_value(lines[n - 1], "data"@) {
            Some(v) => r.push(v),
            None => r,
        }
    }
}

/// The event name and the data (its fields joined by newlines) of a block;
/// `None` for a block without data.
pub open spec fn block_fields_spec(block: Seq<char>) -> Option<(Seq<char>, Seq<char>)> {
    let ls = crate::text::text_lines(block);
    let d = data_parts(ls, ls.len() as int);
    if d.len() == 0 {
        None
    } else {
        Some((event_name_of(ls, ls.len() as int), crate::anthropic::join_lines(d)))
    }
}

fn field_value_exec(line: &Vec<char>, name: &str) -> (r: Option<Vec<char>>)
    ensures
        match r {
            Some(v) => field_value(line@, name@) == Some(v@),
            None => field_value(line@, name@) is None,
        },
{
    let mut p = crate::text::chars_of(name);
    p.push(':');
    if !crate::text::starts_with_vec(line, &p) {
        return None;
    }
    let rest = crate::text::subvec(line, p.len(), line.len());
    if rest.len() > 0 && rest[0] == ' ' {
        let r = crate::text::subvec(&rest, 1, rest.len());
        assert(r@ =~= rest@.drop_first());
        Some(r)
    } else {
        Some(rest)
    }
}

/// The event name and data of an event-stream block, `None` when it has no
/// data.
pub fn sse_block_fields(block: &str) -> (r: Option<(String, String)>)
    ensures
        match r {
            Some((e, d)) => block_fields_spec(block@) == Some((e@, d@)),
            None => block_fields_spec(block@) is None,
        },
{
    let chars = crate::text::chars_of(block);
    let lines = crate::text::text_lines_vec(&chars);
    let ghost ls = crate::text::vviews(lines@);
    let mut name: Vec<char> = Vec::new();
    let mut data: Vec<char> = Vec::new();
    let mut count: usize = 0;
    let mut i: usize = 0;
    while i < lines.len()
        invariant
            ls == crate::text::vviews(lines@),
            i <= lines@.len(),
            name@ == event_name_of(ls, i as int),
            count == data_parts(ls, i as int).len(),
            count <= i,
            data@ == crate::anthropic::join_lines(data_parts(ls, i as int)),
        decreases lines.len() - i,
    {
        let line = &lines[i];
        assert(line@ == ls[i as int]);
        match field_value_exec(line, "event") {
            Some(v) => {
                name = crate::text::trim_vec(&v);
            },
            None => {},
        }
        match field_value_exec(line, "data") {
            Some(v) => {
                let ghost ds = data_parts(ls, i as int);
                if count > 0 {
                    data.push('\n');
                }
                let mut j: usize = 0;
                let ghost base = data@;
                while j < v.len()
                    invariant
                        j <= v@.len(),
                        data@ == base + v@.subrange(0, j as int),
                    decreases v.len() - j,
                {
                    data.push(v[j]);
                    assert(v@.subrange(0, j + 1) == v@.subrange(0, j as int).push(v@[j as int]));
                    j = j + 1;
                }
                assert(v@.subrange(0, v@.len() as int) == v@);
                assert(ds.push(v@).drop_last() == ds);
                count = count + 1;
            },
            None => {},
        }
        i = i + 1;
    }
    if count == 0 {
        None
    } else {
        Some((crate::text::string_of_all(&name), crate::text::string_of_all(&data)))
    }
}

/// A match of `p` found at or after `from` lies there.
proof fn lemma_found_occurs(s: Seq<char>, p: Seq<char>, from: int)
    requires
        0 <= from,
    ensures
        match crate::text::find_at_or_after(s, p, from) {
            Some(i) => from <= i && crate::text::occurs_at(s, p, i),
            None => true,
        },
    decreases s.len() + 1 - from,
{
    if from <= s.len() && !crate::text::occurs_at(s, p, from) {
        lemma_found_occurs(s, p, from + 1);
    }
}

/// Splitting a block off a buffer leaves a shorter buffer.
proof fn lemma_sse_split_shrinks(buf: Seq<char>)
    ensures
        match sse_split(buf) {
            Some((b, rest)) => rest.len() < buf.len(),
            None => true,
        },
{
    lemma_found_occurs(buf, seq!['\n', '\n'], 0);
}

impl AnthropicSseToResponsesConverter {
    /// Appends decoded text to the buffer of incoming events.
    pub fn push_text(&mut self, text: &str)
        ensures
            final(self)@ == (ConverterView { buffer: old(self)@.buffer + text@, ..old(self)@ }),
    {
        self.buffer.append(text);
    }

    /// Takes the first complete block off the buffer.
    pub fn next_block(&mut self) -> (r: Option<String>)
        ensures
            match sse_split(old(self)@.buffer) {
                Some((b, rest)) => r is Some && r->0@ == b && final(self)@ == (ConverterView { buffer: rest, ..old(self)@ }),
                None => r is None && final(self)@ == old(self)@,
            },
    {
        let v = crate::text::chars_of(self.buffer.as_str());
        let mut sep: Vec<char> = Vec::new();
        sep.push('\n');
        sep.push('\n');
        assert(sep@ =~= seq!['\n', '\n']);
        match crate::text::find_from_vec(&v, &sep, 0) {
            Some(p) => {
                proof {
                    crate::text::lemma_find_at_or_after(v@, sep@, 0, Some(p as int));
                }
                assert(sep@.len() == 2);
                let n = v.len();
                assert(p + 2 <= n);
                let block = crate::text::string_of(&v, 0, p);
                let rest = crate::text::string_of(&v, p + 2, n);
                self.buffer = rest;
                Some(block)
            },
            None => {
                proof {
                    crate::text::lemma_find_at_or_after(v@, sep@, 0, None);
                }
                None
            },
        }
    }

    /// Takes what is left in the buffer, leaving it empty.
    pub fn take_tail(&mut self) -> (r: String)
        ensures
            r@ == old(self)@.buffer,
            final(self)@ == (ConverterView { buffer: Seq::empty(), ..old(self)@ }),
    {
        let mut tail = String::new();
        std::mem::swap(&mut tail, &mut self.buffer);
        tail
    }
}

} // verus!

verus! {

proof fn lemma_event_names()
    ensures
        "response.created"@ != "response.completed"@,
        "response.in_progress"@ != "response.completed"@,
        "response.output_item.added"@ != "response.completed"@,
        "response.content_part.added"@ != "response.completed"@,
        "response.output_text.delta"@ != "response.completed"@,
        "response.function_call_arguments.delta"@ != "response.completed"@,
        "response.reasoning_summary_text.delta"@ != "response.completed"@,
        "response.output_text.done"@ != "response.completed"@,
        "response.content_part.done"@ != "response.completed"@,
        "response.output_item.done"@ != "response.completed"@,
        "response.function_call_arguments.done"@ != "response.completed"@,
        "response.reasoning_summary_text.done"@ != "response.completed"@,
        "response.failed"@ != "response.completed"@,
        "response.created"@ != "response.failed"@,
        "response.in_progress"@ != "response.failed"@,
        "response.output_item.added"@ != "response.failed"@,
        "response.content_part.added"@ != "response.failed"@,
        "response.output_text.delta"@ != "response.failed"@,
        "response.function_call_arguments.delta"@ != "response.failed"@,
        "response.reasoning_summary_text.delta"@ != "response.failed"@,
        "response.output_text.done"@ != "response.failed"@,
        "response.content_part.done"@ != "response.failed"@,
        "response.output_item.done"@ != "response.failed"@,
        "response.function_call_arguments.done"@ != "response.failed"@,
        "response.reasoning_summary_text.done"@ != "response.failed"@,
{
    reveal_strlit("response.completed");
    reveal_strlit("response.failed");
    reveal_strlit("response.created");
    reveal_strlit("response.in_progress");
    reveal_strlit("response.output_item.added");
    reveal_strlit("response.content_part.added");
    reveal_strlit("response.output_text.delta");
    reveal_strlit("response.function_call_arguments.delta");
    reveal_strlit("response.reasoning_summary_text.delta");
    reveal_strlit("response.output_text.done");
    reveal_strlit("response.content_part.done");
    reveal_strlit("response.output_item.done");
    reveal_strlit("response.function_call_arguments.done");
    reveal_strlit("response.reasoning_summary_text.done");
    assert("response.created"@.len() != "response.completed"@.len());
    assert("response.in_progress"@.len() != "response.completed"@.len());
    assert("response.output_item.added"@.len() != "response.completed"@.len());
    assert("response.content_part.added"@.len() != "response.completed"@.len());
    assert("response.output_text.delta"@.len() != "response.completed"@.len());
    assert("response.function_call_arguments.delta"@.len() != "response.completed"@.len());
    assert("response.reasoning_summary_text.delta"@.len() != "response.completed"@.len());
    assert("response.output_text.done"@.len() != "response.completed"@.len());
    assert("response.content_part.done"@.len() != "response.completed"@.len());
    assert("response.output_item.done"@.len() != "response.completed"@.len());
    assert("response.function_call_arguments.done"@.len() != "response.completed"@.len());
    assert("response.reasoning_summary_text.done"@.len() != "response.completed"@.len());
    assert("response.failed"@.len() != "response.completed"@.len());
    assert("response.created"@.len() != "response.failed"@.len());
    assert("response.in_progress"@.len() != "response.failed"@.len());
    assert("response.output_item.added"@.len() != "response.failed"@.len());
    assert("response.content_part.added"@.len() != "response.failed"@.len());
    assert("response.output_text.delta"@.len() != "response.failed"@.len());
    assert("response.function_call_arguments.delta"@.len() != "response.failed"@.len());
    assert("response.reasoning_summary_text.delta"@.len() != "response.failed"@.len());
    assert("response.output_text.done"@.len() != "response.failed"@.len());
    assert("response.content_part.done"@.len() != "response.failed"@.len());
    assert("response.output_item.done"@.len() != "response.failed"@.len());
    assert("response.function_call_arguments.done"@.len() != "response.failed"@.len());
    assert("response.reasoning_summary_text.done"@.len() != "response.failed"@.len());
}

proof fn lemma_dispatch_names()
    ensures
        "message_start"@ != "content_block_start"@,
        "message_start"@ != "content_block_delta"@,
        "message_start"@ != "content_block_stop"@,
        "message_start"@ != "message_delta"@,
        "message_start"@ != "message_stop"@,
        "message_start"@ != "error"@,
        "content_block_start"@ != "content_block_delta"@,
        "content_block_start"@ != "content_block_stop"@,
        "content_block_start"@ != "message_delta"@,
        "content_block_start"@ != "message_stop"@,
        "content_block_start"@ != "error"@,
        "content_block_delta"@ != "content_block_stop"@,
        "content_block_delta"@ != "message_delta"@,
        "content_block_delta"@ != "message_stop"@,
        "content_block_delta"@ != "error"@,
        "content_block_stop"@ != "message_delta"@,
        "content_block_stop"@ != "message_stop"@,
        "content_block_stop"@ != "error"@,
        "message_delta"@ != "message_stop"@,
        "message_delta"@ != "error"@,
        "message_stop"@ != "error"@,
{
    reveal_strlit("message_start");
    reveal_strlit("content_block_start");
    reveal_strlit("content_block_delta");
    reveal_strlit("content_block_stop");
    reveal_strlit("message_delta");
    reveal_strlit("message_stop");
    reveal_strlit("error");
    assert("message_start"@[8] != "message_delta"@[8]);
    assert("content_block_start"@[14] != "content_block_delta"@[14]);
    assert("message_start"@.len() != "content_block_start"@.len());
    assert("message_start"@.len() != "content_block_delta"@.len());
    assert("message_start"@.len() != "content_block_stop"@.len());
    assert("message_start"@.len() != "message_stop"@.len());
    assert("message_start"@.len() != "error"@.len());
    assert("content_block_start"@.len() != "content_block_stop"@.len());
    assert("content_block_start"@.len() != "message_delta"@.len());
    assert("content_block_start"@.len() != "message_stop"@.len());
    assert("content_block_start"@.len() != "error"@.len());
    assert("content_block_delta"@.len() != "content_block_stop"@.len());
    assert("content_block_delta"@.len() != "message_delta"@.len());
    assert("content_block_delta"@.len() != "message_stop"@.len());
    assert("content_block_delta"@.len() != "error"@.len());
    assert("content_block_stop"@.len() != "message_delta"@.len());
    assert("content_block_stop"@.len() != "message_stop"@.len());
    assert("content_block_stop"@.len() != "error"@.len());
    assert("message_delta"@.len() != "message_stop"@.len());
    assert("message_delta"@.len() != "error"@.len());
    assert("message_stop"@.len() != "error"@.len());
}

/// No event named `name` is among `evs`.
pub open spec fn never_emits(evs: Seq<(Seq<char>, JsonValue)>, name: Seq<char>) -> bool {
    forall|i: int| 0 <= i < evs.len() ==> (#[trigger] evs[i]).0 != name
}

/// A response completes at most once and never after it failed, and fails at
/// most once: once completed or failed, no event makes it report completion
/// again, and once failed, none makes it report failure again. Both flags,
/// once set, stay set.
pub proof fn law_terminal_events_once(v: ConverterView, event: Seq<char>, data: JsonValue)
    ensures
        ({
            let (v2, evs) = handle_event_spec(v, event, data);
            &&& v.completed ==> v2.completed
            &&& v.failed ==> v2.failed
            &&& v.completed || v.failed ==> never_emits(evs, "response.completed"@)
            &&& v.failed ==> never_emits(evs, "response.failed"@)
        }),
{
    lemma_event_names();
    lemma_dispatch_names();
    let (v2, evs) = handle_event_spec(v, event, data);
    if event == "content_block_start"@ {
        let block = obj_field(data, "content_block"@);
        let kind = str_or(get_str(block, "type"@), ""@);
        assert(evs == block_start_events(kind, block, item_id_spec(v.response_id, v.next_output_index), v.next_output_index));
    } else if event == "content_block_stop"@ {
        let index = u64_field(data, "index"@);
        if v.blocks.contains_key(index) {
            assert(evs == block_stop_events(v.blocks[index]));
        }
    }
}

/// Closing a stream reports completion only for a response that started and
/// neither completed nor failed.
pub proof fn law_finish_after_terminal(v: ConverterView)
    requires
        v.completed || v.failed,
    ensures
        completed_spec(v).1.len() == 0,
{
}

/// Every open block has an output index below the next one: a new block
/// takes an index no open block has.
pub open spec fn indexes_fresh(v: ConverterView) -> bool {
    forall|k: u64| #[trigger] v.blocks.contains_key(k) ==> v.blocks[k].output_index < v.next_output_index
}

/// Handling any event keeps output indexes fresh, and a block start takes
/// the next index and advances it.
pub proof fn law_output_indexes_fresh(v: ConverterView, event: Seq<char>, data: JsonValue)
    requires
        indexes_fresh(v),
        event_ok(v, event),
    ensures
        indexes_fresh(handle_event_spec(v, event, data).0),
        event == "content_block_start"@ ==> ({
            let v2 = handle_event_spec(v, event, data).0;
            &&& v2.next_output_index == v.next_output_index + 1
            &&& v2.blocks[u64_field(data, "index"@)].output_index == v.next_output_index
        }),
{
    lemma_dispatch_names();
    let v2 = handle_event_spec(v, event, data).0;
    assert forall|k: u64| #[trigger] v2.blocks.contains_key(k) implies v2.blocks[k].output_index < v2.next_output_index by {
        if event == "content_block_delta"@ {
            let index = u64_field(data, "index"@);
            if k == index {
                assert(v.blocks.contains_key(k));
            }
        }
    }
}

} // verus!

verus! {

/// The upstream events `events[..n]` handled in turn from `v`: the final
/// state and every event sent.
pub open spec fn run_events(v: ConverterView, events: Seq<(Seq<char>, JsonValue)>, n: int) -> (
    ConverterView,
    Seq<(Seq<char>, JsonValue)>,
)
    decreases n,
{
    if n <= 0 {
        (v, Seq::empty())
    } else {
        let (v1, sent) = run_events(v, events, n - 1);
        let (v2, more) = handle_event_spec(v1, events[n - 1].0, events[n - 1].1);
        (v2, sent + more)
    }
}

/// The `delta` texts of the argument delta events among `sent[..n]`,
/// concatenated.
pub open spec fn argument_deltas(sent: Seq<(Seq<char>, JsonValue)>, n: int) -> Seq<char>
    decreases n,
{
    if n <= 0 {
        Seq::empty()
    } else {
        argument_deltas(sent, n - 1) + if sent[n - 1].0 == "response.function_call_arguments.delta"@ {
            str_or(get_str(sent[n - 1].1, "delta"@), Seq::empty())
        } else {
            Seq::empty()
        }
    }
}

/// Every event is a content block delta for block `index`.
pub open spec fn deltas_for(events: Seq<(Seq<char>, JsonValue)>, index: u64) -> bool {
    forall|i: int|
        0 <= i < events.len() ==> (#[trigger] events[i]).0 == "content_block_delta"@ && u64_field(
            events[i].1,
            "index"@,
        ) == index
}

proof fn lemma_argument_deltas_append(a: Seq<(Seq<char>, JsonValue)>, b: Seq<(Seq<char>, JsonValue)>)
    ensures
        argument_deltas(a + b, (a + b).len() as int) == argument_deltas(a, a.len() as int) + argument_deltas(
            b,
            b.len() as int,
        ),
    decreases b.len(),
{
    if b.len() == 0 {
        assert(a + b =~= a);
        assert(argument_deltas(a, a.len() as int) + Seq::<char>::empty() =~= argument_deltas(a, a.len() as int));
    } else {
        let b1 = b.drop_last();
        lemma_argument_deltas_append(a, b1);
        assert((a + b).drop_last() =~= a + b1);
        lemma_argument_deltas_prefix(a + b, (a + b).len() as int - 1);
        lemma_argument_deltas_prefix(b, b.len() as int - 1);
        assert((a + b)[(a + b).len() - 1] == b[b.len() - 1]);
        assert(argument_deltas(a + b1, (a + b1).len() as int) == argument_deltas(a + b, (a + b).len() - 1));
        assert(argument_deltas(b1, b1.len() as int) == argument_deltas(b, b.len() - 1));
        assert(argument_deltas(a + b, (a + b).len() as int) =~= argument_deltas(a, a.len() as int)
            + argument_deltas(b, b.len() as int));
    }
}

/// The deltas of a prefix depend on the prefix alone.
proof fn lemma_argument_deltas_prefix(s: Seq<(Seq<char>, JsonValue)>, n: int)
    requires
        0 <= n <= s.len(),
    ensures
        argument_deltas(s, n) == argument_deltas(s.subrange(0, n), n),
    decreases n,
{
    if n > 0 {
        lemma_argument_deltas_prefix(s, n - 1);
        lemma_argument_deltas_prefix(s.subrange(0, n), n - 1);
        assert(s.subrange(0, n).subrange(0, n - 1) =~= s.subrange(0, n - 1));
    }
}

proof fn lemma_delta_event_fields(item_id: Seq<char>, oi: u64, partial: Seq<char>)
    ensures
        get_str(
            jobj(
                seq![("type"@, jstr("response.function_call_arguments.delta"@))].push(("item_id"@, jstr(item_id))).push(
                    ("output_index"@, JsonValue::UInt(oi)),
                ).push(("delta"@, jstr(partial))),
            ),
            "delta"@,
        ) == Some(partial),
        "response.output_text.delta"@ != "response.function_call_arguments.delta"@,
        "response.reasoning_summary_text.delta"@ != "response.function_call_arguments.delta"@,
{
    reveal_strlit("type");
    reveal_strlit("item_id");
    reveal_strlit("output_index");
    reveal_strlit("delta");
    reveal_strlit("response.output_text.delta");
    reveal_strlit("response.reasoning_summary_text.delta");
    reveal_strlit("response.function_call_arguments.delta");
    assert("response.output_text.delta"@.len() != "response.function_call_arguments.delta"@.len());
    assert("response.reasoning_summary_text.delta"@.len() != "response.function_call_arguments.delta"@.len());
    let es = seq![("type"@, jstr("response.function_call_arguments.delta"@))].push(("item_id"@, jstr(item_id))).push(
        ("output_index"@, JsonValue::UInt(oi)),
    ).push(("delta"@, jstr(partial)));
    assert("delta"@.len() != "type"@.len());
    assert("delta"@.len() != "item_id"@.len());
    assert("delta"@.len() != "output_index"@.len());
    crate::json::lemma_entries_find_unique(es, "delta"@, 3);
}

proof fn lemma_delta_kinds()
    ensures
        "text_delta"@ != "input_json_delta"@,
        "text_delta"@ != "thinking_delta"@,
        "text_delta"@ != "signature_delta"@,
        "input_json_delta"@ != "thinking_delta"@,
        "input_json_delta"@ != "signature_delta"@,
        "thinking_delta"@ != "signature_delta"@,
{
    reveal_strlit("text_delta");
    reveal_strlit("input_json_delta");
    reveal_strlit("thinking_delta");
    reveal_strlit("signature_delta");
    assert("text_delta"@.len() != "input_json_delta"@.len());
    assert("text_delta"@.len() != "thinking_delta"@.len());
    assert("text_delta"@.len() != "signature_delta"@.len());
    assert("input_json_delta"@.len() != "thinking_delta"@.len());
    assert("input_json_delta"@.len() != "signature_delta"@.len());
    assert("thinking_delta"@.len() != "signature_delta"@.len());
}

/// What a tool call's arguments are made of: over a run of deltas for one
/// open block, the block's arguments grow by exactly the argument deltas
/// sent, in order, and the block stays open.
pub proof fn law_argument_deltas_accumulate(v: ConverterView, events: Seq<(Seq<char>, JsonValue)>, index: u64)
    requires
        v.blocks.contains_key(index),
        deltas_for(events, index),
    ensures
        ({
            let (v2, sent) = run_events(v, events, events.len() as int);
            &&& v2.blocks.contains_key(index)
            &&& v2.blocks[index].args_buffer == v.blocks[index].args_buffer + argument_deltas(
                sent,
                sent.len() as int,
            )
        }),
    decreases events.len(),
{
    lemma_dispatch_names();
    if events.len() == 0 {
        assert(v.blocks[index].args_buffer + Seq::<char>::empty() =~= v.blocks[index].args_buffer);
    } else {
        let e1 = events.drop_last();
        assert forall|i: int| 0 <= i < e1.len() implies (#[trigger] e1[i]).0 == "content_block_delta"@ && u64_field(
            e1[i].1,
            "index"@,
        ) == index by {
            assert(e1[i] == events[i]);
        }
        law_argument_deltas_accumulate(v, e1, index);
        let n = events.len() as int;
        assert(run_events(v, events, n - 1) == run_events(v, e1, e1.len() as int)) by {
            lemma_run_events_prefix(v, events, n - 1);
        }
        let (v1, sent1) = run_events(v, e1, e1.len() as int);
        let last = events[n - 1];
        assert(last.0 == "content_block_delta"@ && u64_field(last.1, "index"@) == index);
        let (v2, more) = handle_event_spec(v1, last.0, last.1);
        let b = v1.blocks[index];
        lemma_delta_event_fields(b.item_id, b.output_index, str_or(get_str(obj_field(last.1, "delta"@), "partial_json"@), ""@));
        lemma_argument_deltas_append(sent1, more);
        lemma_delta_kinds();
        let delta = obj_field(last.1, "delta"@);
        match get_str(delta, "type"@) {
            Some(ty) => {
                if ty == "input_json_delta"@ {
                    let partial = str_or(get_str(delta, "partial_json"@), ""@);
                    assert(argument_deltas(more, 1) =~= argument_deltas(more, 0) + partial);
                } else if ty == "text_delta"@ || ty == "thinking_delta"@ {
                    assert(argument_deltas(more, 1) =~= argument_deltas(more, 0) + Seq::<char>::empty());
                }
            },
            None => {},
        }
        assert(v2.blocks.contains_key(index));
        assert(v2.blocks[index].args_buffer =~= b.args_buffer + argument_deltas(more, more.len() as int));
        assert(v2.blocks[index].args_buffer =~= v.blocks[index].args_buffer + argument_deltas(
            sent1 + more,
            (sent1 + more).len() as int,
        ));
    }
}

proof fn lemma_run_events_prefix(v: ConverterView, events: Seq<(Seq<char>, JsonValue)>, n: int)
    requires
        0 <= n <= events.len(),
    ensures
        run_events(v, events, n) == run_events(v, events.subrange(0, n), n),
    decreases n,
{
    if n > 0 {
        lemma_run_events_prefix(v, events, n - 1);
        lemma_run_events_prefix(v, events.subrange(0, n), n - 1);
        assert(events.subrange(0, n).subrange(0, n - 1) =~= events.subrange(0, n - 1));
    }
}

} // verus!

verus! {

/// One event framed for the event stream: its name, its data as JSON text
/// (`{}` where that cannot be printed), and a blank line.
pub open spec fn frame_one(e: (Seq<char>, JsonValue)) -> Seq<char> {
    "event: "@ + e.0 + "\ndata: "@ + str_or(crate::codec::json_text(e.1), "{}"@) + "\n\n"@
}

/// Events framed one after another.
pub open spec fn frame_spec(es: Seq<(Seq<char>, JsonValue)>) -> Seq<char>
    decreases es.len(),
{
    if es.len() == 0 {
        Seq::empty()
    } else {
        frame_spec(es.drop_last()) + frame_one(es.last())
    }
}

/// Frames events for the event stream.
pub fn frame_events(events: &Vec<SseEvent>) -> (r: String)
    ensures
        r@ == frame_spec(event_views(events@)),
{
    let ghost ev = event_views(events@);
    let mut out = String::new();
    let mut i: usize = 0;
    assert(ev.take(0) =~= Seq::<(Seq<char>, JsonValue)>::empty());
    while i < events.len()
        invariant
            ev == event_views(events@),
            i <= events@.len(),
            out@ == frame_spec(ev.take(i as int)),
        decreases events.len() - i,
    {
        let e = &events[i];
        out.append("event: ");
        out.append(e.event.as_str());
        out.append("\ndata: ");
        match crate::codec::json_to_string(&e.data) {
            Some(t) => out.append(t.as_str()),
            None => out.append("{}"),
        }
        out.append("\n\n");
        assert(ev.take(i + 1).drop_last() =~= ev.take(i as int));
        assert(ev.take(i + 1).last() == ev[i as int]);
        i = i + 1;
    }
    assert(ev.take(events@.len() as int) =~= ev);
    out
}

/// Framing events one run after another frames them all.
proof fn lemma_frame_concat(a: Seq<(Seq<char>, JsonValue)>, b: Seq<(Seq<char>, JsonValue)>)
    ensures
        frame_spec(a + b) == frame_spec(a) + frame_spec(b),
    decreases b.len(),
{
    if b.len() == 0 {
        assert(a + b =~= a);
        assert(frame_spec(a) + frame_spec(b) =~= frame_spec(a));
    } else {
        lemma_frame_concat(a, b.drop_last());
        assert((a + b).drop_last() =~= a + b.drop_last());
        assert((a + b).last() == b.last());
        assert(frame_spec(a) + frame_spec(b.drop_last()) + frame_one(b.last()) =~= frame_spec(a) + (
        frame_spec(b.drop_last()) + frame_one(b.last())));
    }
}

/// One block of the stream handled: its event parsed from its fields and
/// data (a block without data, or whose data is not JSON, changes nothing),
/// and the events it gives. `None` when the event would overflow the
/// converter's counters.
pub open spec fn block_step_spec(v: ConverterView, b: Seq<char>) -> Option<(ConverterView, Seq<(Seq<char>, JsonValue)>)> {
    match block_fields_spec(b) {
        None => Some((v, Seq::empty())),
        Some((e, d)) => match crate::codec::json_parse(d) {
            None => Some((v, Seq::empty())),
            Some(j) => if event_ok(v, e) {
                Some(handle_event_spec(v, e, j))
            } else {
                None
            },
        },
    }
}

/// Handling an event leaves the incoming text and bytes as they were.
proof fn lemma_block_step_keeps_input(v: ConverterView, b: Seq<char>)
    ensures
        block_step_spec(v, b) matches Some((v2, o)) ==> v2.buffer == v.buffer && v2.pending == v.pending,
{
}

pub open spec fn with_prefix(
    acc: Seq<(Seq<char>, JsonValue)>,
    o: Option<(ConverterView, Seq<(Seq<char>, JsonValue)>)>,
) -> Option<(ConverterView, Seq<(Seq<char>, JsonValue)>)> {
    match o {
        Some((v, x)) => Some((v, acc + x)),
        None => None,
    }
}

/// The complete blocks of the buffer handled in order, blank ones passed
/// over, stopping after a block that leaves the response failed, and the
/// events they give. `None` when an event would overflow the converter's
/// counters.
pub open spec fn drain_spec(v: ConverterView) -> Option<(ConverterView, Seq<(Seq<char>, JsonValue)>)>
    decreases v.buffer.len(),
{
    match sse_split(v.buffer) {
        None => Some((v, Seq::empty())),
        Some((b, rest)) => {
            let v1 = ConverterView { buffer: rest, ..v };
            if rest.len() >= v.buffer.len() {
                Some((v1, Seq::empty()))
            } else if crate::text::is_blank(b) {
                drain_spec(v1)
            } else {
                match block_step_spec(v1, b) {
                    None => None,
                    Some((v2, out)) => if v2.failed || v2.buffer.len() != rest.len() {
                        Some((v2, out))
                    } else {
                        with_prefix(out, drain_spec(v2))
                    },
                }
            }
        },
    }
}

/// The pending bytes of an unfinished stream decoded, invalid sequences
/// replaced, onto the text.
pub open spec fn flush_pending_spec(v: ConverterView) -> ConverterView {
    if v.pending.len() > 0 {
        ConverterView { buffer: v.buffer + crate::codec::utf8_lossy(v.pending), pending: Seq::empty(), ..v }
    } else {
        v
    }
}

/// What is left of the text after the last complete block, handled as one
/// last block unless the response failed or it is blank.
pub open spec fn tail_step_spec(v: ConverterView) -> Option<(ConverterView, Seq<(Seq<char>, JsonValue)>)> {
    if v.failed {
        Some((v, Seq::empty()))
    } else {
        let v2 = ConverterView { buffer: Seq::empty(), ..v };
        if crate::text::is_blank(v.buffer) {
            Some((v2, Seq::empty()))
        } else {
            block_step_spec(v2, v.buffer)
        }
    }
}

/// The close of a stream: a response that started and neither completed
/// nor failed completes.
pub open spec fn close_spec(v: ConverterView) -> (ConverterView, Seq<(Seq<char>, JsonValue)>) {
    if v.started && !v.completed && !v.failed {
        completed_spec(v)
    } else {
        (v, Seq::<(Seq<char>, JsonValue)>::empty())
    }
}

/// The end of the stream: pending bytes decoded, the complete blocks and the
/// last one handled, and the response closed, with the events given; `None`
/// when an event or the completion would overflow.
pub open spec fn finish_spec(v: ConverterView) -> Option<(ConverterView, Seq<(Seq<char>, JsonValue)>)> {
    match drain_spec(flush_pending_spec(v)) {
        None => None,
        Some((v1, o1)) => match tail_step_spec(v1) {
            None => None,
            Some((v2, o2)) => if v2.started && !v2.completed && !v2.failed && !completion_fits(v2) {
                None
            } else {
                Some((close_spec(v2).0, o1 + o2 + close_spec(v2).1))
            },
        },
    }
}

/// New bytes of the stream: appended to the pending ones and decoded as far
/// as they are valid UTF-8. A sequence cut short at the end waits for more
/// bytes; with an invalid sequence everything is decoded, invalid sequences
/// replaced.
pub open spec fn decode_spec(v: ConverterView, bytes: Seq<u8>) -> ConverterView {
    let p = v.pending + bytes;
    match crate::codec::utf8_error(p) {
        Some((n, false)) => ConverterView {
            buffer: v.buffer + crate::codec::utf8_lossy(p.subrange(0, n as int)),
            pending: p.subrange(n as int, p.len() as int),
            ..v
        },
        _ => ConverterView { buffer: v.buffer + crate::codec::utf8_lossy(p), pending: Seq::empty(), ..v },
    }
}

fn copy_bytes(v: &Vec<u8>, from: usize, to: usize) -> (r: Vec<u8>)
    requires
        from <= to <= v@.len(),
    ensures
        r@ == v@.subrange(from as int, to as int),
{
    let mut r: Vec<u8> = Vec::new();
    let mut i = from;
    while i < to
        invariant
            from <= i <= to,
            to <= v@.len(),
            r@ == v@.subrange(from as int, i as int),
        decreases to - i,
    {
        r.push(v[i]);
        assert(v@.subrange(from as int, i + 1) =~= v@.subrange(from as int, i as int).push(v@[i as int]));
        i = i + 1;
    }
    r
}

impl AnthropicSseToResponsesConverter {
    /// Handles one block of the stream and gives its framed events; `None`
    /// when its event would overflow the converter's counters.
    pub fn handle_block(&mut self, block: &str) -> (r: Option<String>)
        ensures
            match block_step_spec(old(self)@, block@) {
                Some((v, evs)) => r is Some && r->0@ == frame_spec(evs) && final(self)@ == v,
                None => r is None && final(self)@ == old(self)@,
            },
    {
        match sse_block_fields(block) {
            None => {
                assert(frame_spec(Seq::<(Seq<char>, JsonValue)>::empty()) =~= Seq::<char>::empty());
                Some(String::new())
            },
            Some((event, data)) => match crate::codec::parse_json_text(data.as_str()) {
                None => {
                    assert(frame_spec(Seq::<(Seq<char>, JsonValue)>::empty()) =~= Seq::<char>::empty());
                    Some(String::new())
                },
                Some(j) => if self.can_handle(event.as_str()) {
                    let evs = self.handle_event(event.as_str(), &j);
                    Some(frame_events(&evs))
                } else {
                    None
                },
            },
        }
    }

    /// Handles the complete blocks in the buffer (see [`drain_spec`]) and
    /// gives their framed events.
    pub fn drain_blocks(&mut self) -> (r: Option<String>)
        ensures
            match drain_spec(old(self)@) {
                Some((v, evs)) => r is Some && r->0@ == frame_spec(evs) && final(self)@ == v,
                None => r is None,
            },
    {
        let mut out = String::new();
        let ghost mut acc: Seq<(Seq<char>, JsonValue)> = Seq::empty();
        assert(frame_spec(acc) =~= Seq::<char>::empty());
        loop
            invariant
                drain_spec(old(self)@) == with_prefix(acc, drain_spec(self@)),
                out@ == frame_spec(acc),
            decreases self@.buffer.len(),
        {
            let ghost before = self@;
            proof {
                lemma_sse_split_shrinks(before.buffer);
            }
            match self.next_block() {
                None => {
                    assert(acc + Seq::<(Seq<char>, JsonValue)>::empty() =~= acc);
                    return Some(out);
                },
                Some(block) => {
                    if !crate::text::is_blank_str(block.as_str()) {
                        let ghost v1 = self@;
                        proof {
                            lemma_block_step_keeps_input(v1, block@);
                        }
                        match self.handle_block(block.as_str()) {
                            None => {
                                return None;
                            },
                            Some(o) => {
                                let ghost step = block_step_spec(v1, block@)->0;
                                let ghost evs = step.1;
                                out.append(o.as_str());
                                proof {
                                    lemma_frame_concat(acc, evs);
                                    match drain_spec(self@) {
                                        Some((v3, x)) => {
                                            assert(acc + (evs + x) =~= (acc + evs) + x);
                                        },
                                        None => {},
                                    }
                                    acc = acc + evs;
                                }
                                if self.failed {
                                    assert(acc + Seq::<(Seq<char>, JsonValue)>::empty() =~= acc);
                                    return Some(out);
                                }
                            },
                        }
                    }
                },
            }
        }
    }

    /// Feeds bytes of the stream (see [`decode_spec`]) and handles the
    /// complete blocks; the output is their framed events. `None` when an
    /// event would overflow the converter's counters.
    pub fn push_bytes(&mut self, bytes: &[u8]) -> (r: Option<String>)
        ensures
            match drain_spec(decode_spec(old(self)@, bytes@)) {
                Some((v, evs)) => r is Some && r->0@ == frame_spec(evs) && final(self)@ == v,
                None => r is None,
            },
    {
        let mut p: Vec<u8> = Vec::new();
        std::mem::swap(&mut p, &mut self.pending_bytes);
        let mut i: usize = 0;
        let ghost start = p@;
        while i < bytes.len()
            invariant
                i <= bytes@.len(),
                p@ == start + bytes@.subrange(0, i as int),
            decreases bytes.len() - i,
        {
            p.push(bytes[i]);
            assert(bytes@.subrange(0, i + 1) =~= bytes@.subrange(0, i as int).push(bytes@[i as int]));
            i = i + 1;
        }
        assert(bytes@.subrange(0, bytes@.len() as int) =~= bytes@);
        match crate::codec::utf8_error_of(p.as_slice()) {
            Some((n, false)) => {
                let valid = vstd::slice::slice_subrange(p.as_slice(), 0, n);
                let t = crate::codec::utf8_lossy_string(valid);
                self.buffer.append(t.as_str());
                self.pending_bytes = copy_bytes(&p, n, p.len());
            },
            _ => {
                let t = crate::codec::utf8_lossy_string(p.as_slice());
                self.buffer.append(t.as_str());
            },
        }
        self.drain_blocks()
    }

    /// Ends the stream (see [`finish_spec`]); the output is the framed events
    /// of the last blocks and of the close. `None` when an event or the
    /// completion would overflow.
    pub fn finish(&mut self) -> (r: Option<String>)
        ensures
            match finish_spec(old(self)@) {
                Some((v, evs)) => r is Some && r->0@ == frame_spec(evs) && final(self)@ == v,
                None => r is None,
            },
    {
        if self.pending_bytes.len() > 0 {
            let mut p: Vec<u8> = Vec::new();
            std::mem::swap(&mut p, &mut self.pending_bytes);
            let t = crate::codec::utf8_lossy_string(p.as_slice());
            self.buffer.append(t.as_str());
        }
        let ghost v0 = self@;
        assert(v0 == flush_pending_spec(old(self)@));
        let o1 = match self.drain_blocks() {
            Some(o) => o,
            None => return None,
        };
        let ghost d1 = drain_spec(v0)->0;
        let ghost e1 = d1.1;
        let ghost v1 = self@;
        let o2 = if self.failed {
            assert(frame_spec(Seq::<(Seq<char>, JsonValue)>::empty()) =~= Seq::<char>::empty());
            String::new()
        } else {
            let tail = self.take_tail();
            if crate::text::is_blank_str(tail.as_str()) {
                assert(frame_spec(Seq::<(Seq<char>, JsonValue)>::empty()) =~= Seq::<char>::empty());
                String::new()
            } else {
                match self.handle_block(tail.as_str()) {
                    Some(o) => o,
                    None => return None,
                }
            }
        };
        let ghost d2 = tail_step_spec(v1)->0;
        let ghost e2 = d2.1;
        if !self.can_finish() {
            return None;
        }
        let evs = self.finish_events();
        let o3 = frame_events(&evs);
        proof {
            lemma_frame_concat(e1, e2);
            lemma_frame_concat(e1 + e2, event_views(evs@));
        }
        let mut out = o1;
        out.append(o2.as_str());
        out.append(o3.as_str());
        Some(out)
    }
}

} // verus!

verus! {

/// Events `evs` taking a response from `v` to `v2` keep completion and
/// failure final: the flags stay set, no completion is reported once the
/// response completed or failed, no failure once it failed, and an event that
/// reports completion or failure leaves its flag set.
pub open spec fn terminal_kept(v: ConverterView, v2: ConverterView, evs: Seq<(Seq<char>, JsonValue)>) -> bool {
    &&& v.completed ==> v2.completed
    &&& v.failed ==> v2.failed
    &&& v.completed || v.failed ==> never_emits(evs, "response.completed"@)
    &&& v.failed ==> never_emits(evs, "response.failed"@)
    &&& !never_emits(evs, "response.completed"@) ==> v2.completed
    &&& !never_emits(evs, "response.failed"@) ==> v2.failed
}

proof fn lemma_terminal_compose(
    v: ConverterView,
    v2: ConverterView,
    v3: ConverterView,
    a: Seq<(Seq<char>, JsonValue)>,
    b: Seq<(Seq<char>, JsonValue)>,
)
    requires
        terminal_kept(v, v2, a),
        terminal_kept(v2, v3, b),
    ensures
        terminal_kept(v, v3, a + b),
{
    let c = "response.completed"@;
    let f = "response.failed"@;
    if !never_emits(a + b, c) {
        let i = choose|i: int| 0 <= i < (a + b).len() && (#[trigger] (a + b)[i]).0 == c;
        if i < a.len() {
            assert(a[i] == (a + b)[i]);
        } else {
            assert(b[i - a.len()] == (a + b)[i]);
        }
    }
    if !never_emits(a + b, f) {
        let i = choose|i: int| 0 <= i < (a + b).len() && (#[trigger] (a + b)[i]).0 == f;
        if i < a.len() {
            assert(a[i] == (a + b)[i]);
        } else {
            assert(b[i - a.len()] == (a + b)[i]);
        }
    }
    if v.completed || v.failed {
        assert forall|i: int| 0 <= i < (a + b).len() implies (#[trigger] (a + b)[i]).0 != c by {
            if i < a.len() {
                assert(a[i] == (a + b)[i]);
            } else {
                assert(b[i - a.len()] == (a + b)[i]);
            }
        }
    }
    if v.failed {
        assert forall|i: int| 0 <= i < (a + b).len() implies (#[trigger] (a + b)[i]).0 != f by {
            if i < a.len() {
                assert(a[i] == (a + b)[i]);
            } else {
                assert(b[i - a.len()] == (a + b)[i]);
            }
        }
    }
}

proof fn lemma_event_terminal(v: ConverterView, event: Seq<char>, data: JsonValue)
    ensures
        terminal_kept(v, handle_event_spec(v, event, data).0, handle_event_spec(v, event, data).1),
{
    law_terminal_events_once(v, event, data);
    lemma_event_names();
    lemma_dispatch_names();
    let (v2, evs) = handle_event_spec(v, event, data);
    if event == "content_block_start"@ {
        let block = obj_field(data, "content_block"@);
        let kind = str_or(get_str(block, "type"@), ""@);
        assert(evs == block_start_events(kind, block, item_id_spec(v.response_id, v.next_output_index), v.next_output_index));
    } else if event == "content_block_stop"@ {
        let index = u64_field(data, "index"@);
        if v.blocks.contains_key(index) {
            assert(evs == block_stop_events(v.blocks[index]));
        }
    }
}

proof fn lemma_block_terminal(v: ConverterView, b: Seq<char>)
    ensures
        block_step_spec(v, b) matches Some((v2, evs)) ==> terminal_kept(v, v2, evs),
{
    match block_fields_spec(b) {
        None => {},
        Some((e, d)) => match crate::codec::json_parse(d) {
            None => {},
            Some(j) => {
                lemma_event_terminal(v, e, j);
            },
        },
    }
}

proof fn lemma_drain_terminal(v: ConverterView)
    ensures
        drain_spec(v) matches Some((v2, evs)) ==> terminal_kept(v, v2, evs),
    decreases v.buffer.len(),
{
    match sse_split(v.buffer) {
        None => {},
        Some((b, rest)) => {
            let v1 = ConverterView { buffer: rest, ..v };
            if rest.len() >= v.buffer.len() {
            } else if crate::text::is_blank(b) {
                lemma_drain_terminal(v1);
            } else {
                lemma_block_terminal(v1, b);
                match block_step_spec(v1, b) {
                    None => {},
                    Some((v2, out)) => {
                        if !(v2.failed || v2.buffer.len() != rest.len()) {
                            lemma_drain_terminal(v2);
                            match drain_spec(v2) {
                                Some((v3, x)) => lemma_terminal_compose(v1, v2, v3, out, x),
                                None => {},
                            }
                        }
                    },
                }
            }
        },
    }
}

/// Over a stream's life a response completes at most once and fails at most
/// once: handling the blocks of new bytes, and ending the stream, keep both
/// flags once set; no completion is reported once the response completed or
/// failed, no failure once it failed; and reporting either sets its flag, so
/// nothing later reports it again.
pub proof fn law_stream_reports_terminal_once(v: ConverterView, bytes: Seq<u8>)
    ensures
        drain_spec(decode_spec(v, bytes)) matches Some((v2, evs)) ==> terminal_kept(v, v2, evs),
        finish_spec(v) matches Some((v2, evs)) ==> terminal_kept(v, v2, evs),
{
    lemma_event_names();
    lemma_drain_terminal(decode_spec(v, bytes));
    let v0 = flush_pending_spec(v);
    lemma_drain_terminal(v0);
    match drain_spec(v0) {
        None => {},
        Some((v1, o1)) => {
            if !v1.failed {
                let v2 = ConverterView { buffer: Seq::empty(), ..v1 };
                if !crate::text::is_blank(v1.buffer) {
                    lemma_block_terminal(v2, v1.buffer);
                }
            }
            match tail_step_spec(v1) {
                None => {},
                Some((v2, o2)) => {
                    lemma_terminal_compose(v, v1, v2, o1, o2);
                    let (v3, o3) = close_spec(v2);
                    if v2.started && !v2.completed && !v2.failed {
                        assert(o3.len() == 1 && o3[0].0 == "response.completed"@);
                    }
                    assert(terminal_kept(v2, v3, o3));
                    lemma_terminal_compose(v, v2, v3, o1 + o2, o3);
                },
            }
        },
    }
}

} // verus!

verus! {

proof fn lemma_completion_keys()
    ensures
        "id"@ != "status"@,
        "object"@ != "status"@,
        "incomplete_details"@ != "id"@,
        "incomplete_details"@ != "object"@,
        "incomplete_details"@ != "status"@,
        "incomplete_details"@ != "model"@,
        "incomplete_details"@ != "output"@,
        "incomplete_details"@ != "usage"@,
        "type"@ != "response"@,
{
    reveal_strlit("id");
    reveal_strlit("object");
    reveal_strlit("status");
    reveal_strlit("model");
    reveal_strlit("output");
    reveal_strlit("usage");
    reveal_strlit("incomplete_details");
    reveal_strlit("type");
    reveal_strlit("response");
    assert("id"@.len() == 2);
    assert("object"@.len() == 6);
    assert("status"@.len() == 6);
    assert("model"@.len() == 5);
    assert("output"@.len() == 6);
    assert("usage"@.len() == 5);
    assert("incomplete_details"@.len() == 18);
    assert("type"@.len() == 4);
    assert("response"@.len() == 8);
    assert("object"@[0] != "status"@[0]);
}

/// A response whose message stopped at the token limit completes as
/// incomplete: after a `message_delta` whose delta has the stop reason
/// `max_tokens`, the `message_stop` that follows emits one
/// `response.completed` event whose response has status `incomplete` and
/// `incomplete_details.reason` `max_output_tokens`; after any other stop
/// reason its status is `completed` and it has no `incomplete_details`.
pub proof fn law_completion_reports_token_limit(
    v: ConverterView,
    delta: JsonValue,
    reason: Seq<char>,
    stop: JsonValue,
)
    requires
        !v.completed,
        !v.failed,
        get(delta, "delta"@) matches Some(d) && get_str(d, "stop_reason"@) == Some(reason),
    ensures
        ({
            let v1 = handle_event_spec(v, "message_delta"@, delta).0;
            let evs = handle_event_spec(v1, "message_stop"@, stop).1;
            &&& evs.len() == 1
            &&& evs[0].0 == "response.completed"@
            &&& get(evs[0].1, "response"@) matches Some(resp) && {
                &&& get(resp, "status"@) == Some(
                    jstr(
                        if reason == "max_tokens"@ {
                            "incomplete"@
                        } else {
                            "completed"@
                        },
                    ),
                )
                &&& reason == "max_tokens"@ ==> get(resp, "incomplete_details"@) == Some(
                    jobj(seq![("reason"@, jstr("max_output_tokens"@))]),
                )
                &&& reason != "max_tokens"@ ==> get(resp, "incomplete_details"@) is None
            }
        }),
{
    lemma_dispatch_names();
    lemma_completion_keys();
    let v1 = handle_event_spec(v, "message_delta"@, delta).0;
    assert(v1 == message_delta_spec(v, delta));
    assert(v1.stop_reason == reason);
    let (v2, evs) = handle_event_spec(v1, "message_stop"@, stop);
    assert((v2, evs) == completed_spec(v1));
    let max = reason == "max_tokens"@;
    let base = skeleton(
        v1,
        if max {
            "incomplete"@
        } else {
            "completed"@
        },
    )->Object_0.push(("usage"@, usage_spec(Some(merged_usage(v1)))));
    let resp = if max {
        jobj(base.push(("incomplete_details"@, jobj(seq![("reason"@, jstr("max_output_tokens"@))]))))
    } else {
        jobj(base)
    };
    let t = typed("response.completed"@, "response"@, resp);
    crate::json::lemma_entries_find_unique(t->Object_0, "response"@, 1);
    let es = resp->Object_0;
    crate::json::lemma_entries_find_unique(es, "status"@, 2);
    if max {
        crate::json::lemma_entries_find_unique(es, "incomplete_details"@, 6);
    } else {
        assert forall|j: int| 0 <= j < es.len() implies es[j].0 != "incomplete_details"@ by {
            if j == 0 {
            } else if j == 1 {
            } else if j == 2 {
            } else if j == 3 {
            } else if j == 4 {
            } else {
                assert(j == 5);
            }
        }
        crate::json::lemma_entries_absent(es, "incomplete_details"@);
    }
}

} // verus!
