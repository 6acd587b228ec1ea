//! Conversion between the Responses API and the Anthropic Messages API:
//! request bodies, non-streaming responses, token usage and error bodies.
//! Tool schemas, call arguments, tool results and system prompts are carried
//! over unchanged.
//!
//! The `arguments` of each `function_call` are parsed, and the `input` of
//! each `tool_use` printed, as `serde_json` does it (see [`crate::codec`]).

use vstd::prelude::*;
use vstd::string::StringExecFns;
use crate::json::{
    as_array, as_u64, entries_set, entries_set_exec, entry_views, get, get_str, json_array,
    json_object, json_str, new_entries, new_values, push_entry, push_value, views, Json, JsonValue,
};
use crate::text::{first_occurrence, starts_with, str_eq};

verus! {

pub const ANTHROPIC_VERSION: &'static str = "2023-06-01";

pub const DEFAULT_ANTHROPIC_MAX_TOKENS: u64 = 32000;

pub open spec fn jobj(es: Seq<(Seq<char>, JsonValue)>) -> JsonValue {
    JsonValue::Object(es)
}

pub open spec fn jstr(s: Seq<char>) -> JsonValue {
    JsonValue::Str(s)
}

/// The string or, when absent, the default.
pub open spec fn str_or(o: Option<Seq<char>>, d: Seq<char>) -> Seq<char> {
    match o {
        Some(s) => s,
        None => d,
    }
}

/// `{"type":"text","text":t}`.
pub open spec fn text_block(t: Seq<char>) -> JsonValue {
    jobj(seq![("type"@, jstr("text"@))].push(("text"@, jstr(t))))
}

pub fn text_block_exec(t: &str) -> (r: Json)
    ensures
        r@ == text_block(t@),
{
    let mut es = new_entries();
    push_entry(&mut es, "type", json_str("text"));
    push_entry(&mut es, "text", json_str(t));
    json_object(es)
}

/// A string field, or `""`.
pub fn str_field(v: &Json, key: &str) -> (r: Json)
    ensures
        r@ == jstr(str_or(get_str(v@, key@), ""@)),
{
    match v.get_str(key) {
        Some(s) => Json::Str(s.clone()),
        None => json_str(""),
    }
}

/// The elements of `xs[..n]` that `f` maps to a value, mapped.
pub open spec fn filter_map(xs: Seq<JsonValue>, n: int, f: spec_fn(JsonValue) -> Option<JsonValue>) -> Seq<JsonValue>
    decreases n,
{
    if n <= 0 {
        Seq::empty()
    } else {
        let r = filter_map(xs, n - 1, f);
        match f(xs[n - 1]) {
            Some(y) => r.push(y),
            None => r,
        }
    }
}

/// A text part of an assistant message (`output_text` or `input_text`).
pub open spec fn part_text_spec(part: JsonValue) -> Option<JsonValue> {
    match get_str(part, "type"@) {
        Some(ty) => if ty == "output_text"@ || ty == "input_text"@ {
            match get_str(part, "text"@) {
                Some(t) => Some(text_block(t)),
                None => None,
            }
        } else {
            None
        },
        None => None,
    }
}

pub fn part_text(part: &Json) -> (r: Option<Json>)
    ensures
        match r {
            Some(b) => part_text_spec(part@) == Some(b@),
            None => part_text_spec(part@) is None,
        },
{
    let ty = match part.get_str("type") {
        Some(t) => t,
        None => return None,
    };
    if str_eq(ty.as_str(), "output_text") || str_eq(ty.as_str(), "input_text") {
        match part.get_str("text") {
            Some(t) => Some(text_block_exec(t.as_str())),
            None => None,
        }
    } else {
        None
    }
}

/// The URL of an `input_image` part: a string, or the `url` of an object.
pub open spec fn image_url_spec(part: JsonValue) -> Option<Seq<char>> {
    match get(part, "image_url"@) {
        Some(v) => match v {
            JsonValue::Str(s) => Some(s),
            JsonValue::Object(_) => get_str(v, "url"@),
            _ => None,
        },
        None => None,
    }
}

pub open spec fn image_block(source: JsonValue) -> JsonValue {
    jobj(seq![("type"@, jstr("image"@))].push(("source"@, source)))
}

/// The Anthropic image block for an image URL: a `data:` URL with a media
/// type and base64 data, or an `http(s)` URL.
pub open spec fn image_block_spec(url: Seq<char>) -> Option<JsonValue> {
    if starts_with(url, "data:"@) {
        let data = url.subrange("data:"@.len() as int, url.len() as int);
        match first_occurrence(data, seq![';']) {
            Some(p) => {
                let meta = data.subrange(0, p);
                let payload = data.subrange(p + 1, data.len() as int);
                if starts_with(payload, "base64,"@) {
                    Some(
                        image_block(
                            jobj(
                                seq![("type"@, jstr("base64"@))].push(("media_type"@, jstr(meta))).push(
                                    ("data"@, jstr(payload.subrange("base64,"@.len() as int, payload.len() as int))),
                                ),
                            ),
                        ),
                    )
                } else {
                    None
                }
            },
            None => None,
        }
    } else if starts_with(url, "http://"@) || starts_with(url, "https://"@) {
        Some(image_block(jobj(seq![("type"@, jstr("url"@))].push(("url"@, jstr(url))))))
    } else {
        None
    }
}

fn image_block_exec(url: &str) -> (r: Option<Json>)
    ensures
        match r {
            Some(b) => image_block_spec(url@) == Some(b@),
            None => image_block_spec(url@) is None,
        },
{
    let v = crate::text::chars_of(url);
    if crate::text::starts(&v, "data:") {
        let pre = crate::text::chars_of("data:");
        let data = crate::text::subvec(&v, pre.len(), v.len());
        let semi = crate::text::chars_of(";");
        proof {
            reveal_strlit(";");
            assert(semi@ =~= seq![';']);
        }
        let p = match crate::text::find_from_vec(&data, &semi, 0) {
            Some(p) => p,
            None => {
                proof {
                    crate::text::lemma_find_at_or_after(data@, seq![';'], 0, None);
                }
                return None;
            },
        };
        proof {
            crate::text::lemma_find_at_or_after(data@, seq![';'], 0, Some(p as int));
        }
        let meta = crate::text::subvec(&data, 0, p);
        let payload = crate::text::subvec(&data, p + 1, data.len());
        if !crate::text::starts(&payload, "base64,") {
            return None;
        }
        let b64 = crate::text::chars_of("base64,");
        let body = crate::text::subvec(&payload, b64.len(), payload.len());
        let mut src = new_entries();
        push_entry(&mut src, "type", json_str("base64"));
        push_entry(&mut src, "media_type", Json::Str(crate::text::string_of_all(&meta)));
        push_entry(&mut src, "data", Json::Str(crate::text::string_of_all(&body)));
        let mut es = new_entries();
        push_entry(&mut es, "type", json_str("image"));
        push_entry(&mut es, "source", json_object(src));
        Some(json_object(es))
    } else if crate::text::starts(&v, "http://") || crate::text::starts(&v, "https://") {
        let mut src = new_entries();
        push_entry(&mut src, "type", json_str("url"));
        push_entry(&mut src, "url", json_str(url));
        let mut es = new_entries();
        push_entry(&mut es, "type", json_str("image"));
        push_entry(&mut es, "source", json_object(src));
        Some(json_object(es))
    } else {
        None
    }
}

/// A user message part: text, or an image.
pub open spec fn part_content_spec(part: JsonValue) -> Option<JsonValue> {
    match get_str(part, "type"@) {
        Some(ty) => if ty == "input_text"@ || ty == "output_text"@ {
            match get_str(part, "text"@) {
                Some(t) => Some(text_block(t)),
                None => None,
            }
        } else if ty == "input_image"@ {
            match image_url_spec(part) {
                Some(u) => image_block_spec(u),
                None => None,
            }
        } else {
            None
        },
        None => None,
    }
}

pub fn part_content(part: &Json) -> (r: Option<Json>)
    ensures
        match r {
            Some(b) => part_content_spec(part@) == Some(b@),
            None => part_content_spec(part@) is None,
        },
{
    let ty = match part.get_str("type") {
        Some(t) => t,
        None => return None,
    };
    if str_eq(ty.as_str(), "input_text") || str_eq(ty.as_str(), "output_text") {
        match part.get_str("text") {
            Some(t) => Some(text_block_exec(t.as_str())),
            None => None,
        }
    } else if str_eq(ty.as_str(), "input_image") {
        let url: Option<&String> = match part.get("image_url") {
            Some(v) => match v {
                Json::Str(s) => Some(s),
                Json::Object(_) => v.get_str("url"),
                _ => None,
            },
            None => None,
        };
        match url {
            Some(u) => image_block_exec(u.as_str()),
            None => None,
        }
    } else {
        None
    }
}

/// The first `text` string among `parts[i..]`.
pub open spec fn first_text_from(parts: Seq<JsonValue>, i: int) -> Option<Seq<char>>
    decreases parts.len() - i,
{
    if i < 0 || i >= parts.len() {
        None
    } else {
        match get_str(parts[i], "text"@) {
            Some(t) => Some(t),
            None => first_text_from(parts, i + 1),
        }
    }
}

fn first_text(parts: &Vec<Json>) -> (r: Option<String>)
    ensures
        match r {
            Some(s) => first_text_from(views(parts@), 0) == Some(s@),
            None => first_text_from(views(parts@), 0) is None,
        },
{
    let ghost pv = views(parts@);
    let mut i: usize = 0;
    while i < parts.len()
        invariant
            pv == views(parts@),
            i <= parts@.len(),
            first_text_from(pv, 0) == first_text_from(pv, i as int),
        decreases parts.len() - i,
    {
        match parts[i].get_str("text") {
            Some(t) => {
                return Some(t.clone());
            },
            None => {},
        }
        i = i + 1;
    }
    None
}

/// The text of a reasoning item: the first text of its summary, else of its
/// content, else `""`.
pub open spec fn reasoning_text_spec(item: JsonValue) -> Seq<char> {
    let from_summary = match get(item, "summary"@) {
        Some(v) => match as_array(v) {
            Some(a) => first_text_from(a, 0),
            None => None,
        },
        None => None,
    };
    match from_summary {
        Some(t) => t,
        None => match get(item, "content"@) {
            Some(v) => match as_array(v) {
                Some(a) => str_or(first_text_from(a, 0), ""@),
                None => ""@,
            },
            None => ""@,
        },
    }
}

fn reasoning_text(item: &Json) -> (r: String)
    ensures
        r@ == reasoning_text_spec(item@),
{
    match item.get("summary") {
        Some(v) => match v.as_array() {
            Some(a) => match first_text(a) {
                Some(t) => {
                    return t;
                },
                None => {},
            },
            None => {},
        },
        None => {},
    }
    match item.get("content") {
        Some(v) => match v.as_array() {
            Some(a) => match first_text(a) {
                Some(t) => t,
                None => "".to_owned(),
            },
            None => "".to_owned(),
        },
        None => "".to_owned(),
    }
}

} // verus!

verus! {

/// A system message part: its `text`, as a text block.
pub open spec fn system_part_spec(part: JsonValue) -> Option<JsonValue> {
    match get_str(part, "text"@) {
        Some(t) => Some(text_block(t)),
        None => None,
    }
}

pub open spec fn system_part_fn() -> spec_fn(JsonValue) -> Option<JsonValue> {
    |p: JsonValue| system_part_spec(p)
}

pub open spec fn part_text_fn() -> spec_fn(JsonValue) -> Option<JsonValue> {
    |p: JsonValue| part_text_spec(p)
}

pub open spec fn part_content_fn() -> spec_fn(JsonValue) -> Option<JsonValue> {
    |p: JsonValue| part_content_spec(p)
}

/// `{"role":role,"content":content}`.
pub open spec fn role_message(role: Seq<char>, content: Seq<JsonValue>) -> JsonValue {
    jobj(seq![("role"@, jstr(role))].push(("content"@, JsonValue::Array(content))))
}

/// The conversion of input items so far: system blocks, finished messages,
/// the pending assistant and user contents, and the function calls seen.
pub struct ReqState {
    pub system: Seq<JsonValue>,
    pub messages: Seq<JsonValue>,
    pub assistant: Seq<JsonValue>,
    pub user: Seq<JsonValue>,
    pub calls: nat,
}

pub open spec fn flush_assistant(s: ReqState) -> ReqState {
    if s.assistant.len() > 0 {
        ReqState {
            system: s.system,
            messages: s.messages.push(role_message("assistant"@, s.assistant)),
            assistant: Seq::empty(),
            user: s.user,
            calls: s.calls,
        }
    } else {
        s
    }
}

pub open spec fn flush_user(s: ReqState) -> ReqState {
    if s.user.len() > 0 {
        ReqState {
            system: s.system,
            messages: s.messages.push(role_message("user"@, s.user)),
            assistant: s.assistant,
            user: Seq::empty(),
            calls: s.calls,
        }
    } else {
        s
    }
}

/// The parts of a message item.
pub open spec fn message_parts(item: JsonValue) -> Seq<JsonValue> {
    match get(item, "content"@) {
        Some(c) => match as_array(c) {
            Some(a) => a,
            None => Seq::empty(),
        },
        None => Seq::empty(),
    }
}

pub open spec fn empty_object() -> JsonValue {
    jobj(Seq::empty())
}

pub open spec fn tool_use_block(item: JsonValue, input: JsonValue) -> JsonValue {
    jobj(
        seq![("type"@, jstr("tool_use"@))].push(("id"@, jstr(str_or(get_str(item, "call_id"@), ""@)))).push(
            ("name"@, jstr(str_or(get_str(item, "name"@), ""@))),
        ).push(("input"@, input)),
    )
}

pub open spec fn tool_result_block(item: JsonValue) -> JsonValue {
    jobj(
        seq![("type"@, jstr("tool_result"@))].push(("tool_use_id"@, jstr(str_or(get_str(item, "call_id"@), ""@)))).push(
            (
                "content"@,
                match get(item, "output"@) {
                    Some(o) => o,
                    None => jstr(""@),
                },
            ),
        ),
    )
}

pub open spec fn thinking_block(item: JsonValue, signature: Seq<char>) -> JsonValue {
    jobj(
        seq![("type"@, jstr("thinking"@))].push(("thinking"@, jstr(reasoning_text_spec(item)))).push(
            ("signature"@, jstr(signature)),
        ),
    )
}

/// One input item added to the conversion; `args[k]` is the parse of the
/// `arguments` of the `k`-th function call (`None` when it is not JSON).
pub open spec fn request_step(s: ReqState, item: JsonValue, args: Seq<Option<JsonValue>>) -> ReqState {
    match get_str(item, "type"@) {
        Some(ty) => if ty == "message"@ {
            let role = str_or(get_str(item, "role"@), "user"@);
            let parts = message_parts(item);
            if role == "system"@ || role == "developer"@ {
                ReqState {
                    system: s.system + filter_map(parts, parts.len() as int, system_part_fn()),
                    messages: s.messages,
                    assistant: s.assistant,
                    user: s.user,
                    calls: s.calls,
                }
            } else if role == "assistant"@ {
                let s1 = flush_user(s);
                ReqState {
                    system: s1.system,
                    messages: s1.messages,
                    assistant: s1.assistant + filter_map(parts, parts.len() as int, part_text_fn()),
                    user: s1.user,
                    calls: s1.calls,
                }
            } else {
                let s1 = flush_assistant(s);
                ReqState {
                    system: s1.system,
                    messages: s1.messages,
                    assistant: s1.assistant,
                    user: s1.user + filter_map(parts, parts.len() as int, part_content_fn()),
                    calls: s1.calls,
                }
            }
        } else if ty == "function_call"@ {
            let s1 = flush_user(s);
            let input = match args[s.calls as int] {
                Some(v) => v,
                None => empty_object(),
            };
            ReqState {
                system: s1.system,
                messages: s1.messages,
                assistant: s1.assistant.push(tool_use_block(item, input)),
                user: s1.user,
                calls: s1.calls + 1,
            }
        } else if ty == "function_call_output"@ {
            let s1 = flush_assistant(s);
            ReqState {
                system: s1.system,
                messages: s1.messages,
                assistant: s1.assistant,
                user: s1.user.push(tool_result_block(item)),
                calls: s1.calls,
            }
        } else if ty == "reasoning"@ {
            match get_str(item, "signature"@) {
                Some(sig) => {
                    let s1 = flush_user(s);
                    ReqState {
                        system: s1.system,
                        messages: s1.messages,
                        assistant: s1.assistant.push(thinking_block(item, sig)),
                        user: s1.user,
                        calls: s1.calls,
                    }
                },
                None => s,
            }
        } else {
            s
        },
        None => s,
    }
}

pub proof fn lemma_request_step_calls(s: ReqState, item: JsonValue, args: Seq<Option<JsonValue>>)
    ensures
        request_step(s, item, args).calls == s.calls + if get_str(item, "type"@) == Some("function_call"@) {
            1nat
        } else {
            0nat
        },
{
    reveal_strlit("message");
    reveal_strlit("function_call");
    assert("message"@ != "function_call"@) by {
        assert("message"@.len() != "function_call"@.len());
    }
    assert(flush_user(s).calls == s.calls);
    assert(flush_assistant(s).calls == s.calls);
}

/// The conversion of `items[..n]` from `s0`.
pub open spec fn request_fold(items: Seq<JsonValue>, n: int, s0: ReqState, args: Seq<Option<JsonValue>>) -> ReqState
    decreases n,
{
    if n <= 0 {
        s0
    } else {
        request_step(request_fold(items, n - 1, s0, args), items[n - 1], args)
    }
}

/// The `arguments` text of each `function_call` among `items[..n]` (`{}`
/// when absent).
pub open spec fn call_arguments_spec(items: Seq<JsonValue>, n: int) -> Seq<Seq<char>>
    decreases n,
{
    if n <= 0 {
        Seq::empty()
    } else {
        let r = call_arguments_spec(items, n - 1);
        if get_str(items[n - 1], "type"@) == Some("function_call"@) {
            r.push(str_or(get_str(items[n - 1], "arguments"@), "{}"@))
        } else {
            r
        }
    }
}

/// The input items of a request body.
pub open spec fn input_items(body: JsonValue) -> Seq<JsonValue> {
    match get(body, "input"@) {
        Some(v) => match as_array(v) {
            Some(a) => a,
            None => Seq::empty(),
        },
        None => Seq::empty(),
    }
}

/// The `arguments` texts of the request's function calls, in order.
pub fn function_call_arguments(body: &Json) -> (r: Vec<String>)
    ensures
        crate::desktop::string_views(r@) == call_arguments_spec(input_items(body@), input_items(body@).len() as int),
{
    let mut out: Vec<String> = Vec::new();
    let items: &Vec<Json> = match body.get("input") {
        Some(v) => match v.as_array() {
            Some(a) => a,
            None => {
                assert(crate::desktop::string_views(out@) =~= Seq::<Seq<char>>::empty());
                return out;
            },
        },
        None => {
            assert(crate::desktop::string_views(out@) =~= Seq::<Seq<char>>::empty());
            return out;
        },
    };
    let ghost iv = views(items@);
    assert(iv == input_items(body@));
    assert(crate::desktop::string_views(out@) =~= Seq::<Seq<char>>::empty());
    let mut i: usize = 0;
    while i < items.len()
        invariant
            iv == views(items@),
            i <= items@.len(),
            crate::desktop::string_views(out@) == call_arguments_spec(iv, i as int),
        decreases items.len() - i,
    {
        let item = &items[i];
        let is_call = match item.get_str("type") {
            Some(t) => str_eq(t.as_str(), "function_call"),
            None => false,
        };
        if is_call {
            let a = match item.get_str("arguments") {
                Some(s) => s.clone(),
                None => "{}".to_owned(),
            };
            let ghost before = crate::desktop::string_views(out@);
            out.push(a);
            assert(crate::desktop::string_views(out@) =~= before.push(a@));
        }
        i = i + 1;
    }
    out
}

} // verus!

verus! {

pub proof fn lemma_call_arguments_monotone(items: Seq<JsonValue>, i: int, n: int)
    requires
        0 <= i <= n,
    ensures
        call_arguments_spec(items, i).len() <= call_arguments_spec(items, n).len(),
    decreases n - i,
{
    if i < n {
        lemma_call_arguments_monotone(items, i, n - 1);
    }
}

/// The parsed call arguments, by view.
pub open spec fn opt_views(v: Seq<Option<Json>>) -> Seq<Option<JsonValue>> {
    Seq::new(
        v.len(),
        |i: int|
            match v[i] {
                Some(j) => Some(j@),
                None => None,
            },
    )
}

/// The request conversion under way.
struct ReqBuilder {
    system: Vec<Json>,
    messages: Vec<Json>,
    assistant: Vec<Json>,
    user: Vec<Json>,
    calls: usize,
}

spec fn builder_view(b: ReqBuilder) -> ReqState {
    ReqState {
        system: views(b.system@),
        messages: views(b.messages@),
        assistant: views(b.assistant@),
        user: views(b.user@),
        calls: b.calls as nat,
    }
}

fn append_filtered(parts: &Vec<Json>, out: &mut Vec<Json>, kind: u8)
    requires
        kind < 3,
    ensures
        views(final(out)@) == views(old(out)@) + filter_map(
            views(parts@),
            parts@.len() as int,
            if kind == 0 {
                system_part_fn()
            } else if kind == 1 {
                part_text_fn()
            } else {
                part_content_fn()
            },
        ),
{
    let ghost f = if kind == 0 {
        system_part_fn()
    } else if kind == 1 {
        part_text_fn()
    } else {
        part_content_fn()
    };
    let ghost pv = views(parts@);
    let ghost base = views(out@);
    let mut i: usize = 0;
    assert(base + filter_map(pv, 0, f) =~= base);
    while i < parts.len()
        invariant
            pv == views(parts@),
            kind < 3,
            f == (if kind == 0 {
                system_part_fn()
            } else if kind == 1 {
                part_text_fn()
            } else {
                part_content_fn()
            }),
            i <= parts@.len(),
            views(out@) == base + filter_map(pv, i as int, f),
        decreases parts.len() - i,
    {
        let part = &parts[i];
        let mapped = if kind == 0 {
            match part.get_str("text") {
                Some(t) => Some(text_block_exec(t.as_str())),
                None => None,
            }
        } else if kind == 1 {
            part_text(part)
        } else {
            part_content(part)
        };
        let ghost before = views(out@);
        match mapped {
            Some(b) => {
                let ghost bv = b@;
                push_value(out, b);
                assert(views(out@) =~= base + filter_map(pv, i + 1, f)) by {
                    assert(f(pv[i as int]) == Some(bv));
                }
            },
            None => {
                assert(f(pv[i as int]) is None);
            },
        }
        i = i + 1;
    }
}

impl ReqBuilder {
    fn flush_assistant(&mut self)
        ensures
            builder_view(*final(self)) == flush_assistant(builder_view(*old(self))),
    {
        if self.assistant.len() > 0 {
            let mut taken = new_values();
            std::mem::swap(&mut taken, &mut self.assistant);
            let m = role_message_exec("assistant", taken);
            push_value(&mut self.messages, m);
        }
    }

    fn flush_user(&mut self)
        ensures
            builder_view(*final(self)) == flush_user(builder_view(*old(self))),
    {
        if self.user.len() > 0 {
            let mut taken = new_values();
            std::mem::swap(&mut taken, &mut self.user);
            let m = role_message_exec("user", taken);
            push_value(&mut self.messages, m);
        }
    }

    fn add_item(&mut self, item: &Json, args: &Vec<Option<Json>>)
        requires
            get_str(item@, "type"@) == Some("function_call"@) ==> old(self).calls < args@.len(),
        ensures
            builder_view(*final(self)) == request_step(builder_view(*old(self)), item@, opt_views(args@)),
    {
        let ty = match item.get_str("type") {
            Some(t) => t,
            None => return,
        };
        if str_eq(ty.as_str(), "message") {
            let role: &str = match item.get_str("role") {
                Some(r) => r.as_str(),
                None => "user",
            };
            let empty: Vec<Json> = new_values();
            let parts: &Vec<Json> = match item.get("content") {
                Some(c) => match c.as_array() {
                    Some(a) => a,
                    None => &empty,
                },
                None => &empty,
            };
            assert(views(parts@) == message_parts(item@));
            if str_eq(role, "system") || str_eq(role, "developer") {
                append_filtered(parts, &mut self.system, 0);
            } else if str_eq(role, "assistant") {
                self.flush_user();
                append_filtered(parts, &mut self.assistant, 1);
            } else {
                self.flush_assistant();
                append_filtered(parts, &mut self.user, 2);
            }
        } else if str_eq(ty.as_str(), "function_call") {
            let k = self.calls;
            let n = args.len();
            assert(k < n);
            self.flush_user();
            let input = match &args[k] {
                Some(v) => v.deep_clone(),
                None => json_object(new_entries()),
            };
            let mut es = new_entries();
            push_entry(&mut es, "type", json_str("tool_use"));
            push_entry(&mut es, "id", str_field(item, "call_id"));
            push_entry(&mut es, "name", str_field(item, "name"));
            push_entry(&mut es, "input", input);
            push_value(&mut self.assistant, json_object(es));
            self.calls = k + 1;
        } else if str_eq(ty.as_str(), "function_call_output") {
            self.flush_assistant();
            let output = match item.get("output") {
                Some(o) => o.deep_clone(),
                None => json_str(""),
            };
            let mut es = new_entries();
            push_entry(&mut es, "type", json_str("tool_result"));
            push_entry(&mut es, "tool_use_id", str_field(item, "call_id"));
            push_entry(&mut es, "content", output);
            push_value(&mut self.user, json_object(es));
        } else if str_eq(ty.as_str(), "reasoning") {
            match item.get_str("signature") {
                Some(sig) => {
                    self.flush_user();
                    let thinking = reasoning_text(item);
                    let mut es = new_entries();
                    push_entry(&mut es, "type", json_str("thinking"));
                    push_entry(&mut es, "thinking", Json::Str(thinking));
                    push_entry(&mut es, "signature", Json::Str(sig.clone()));
                    push_value(&mut self.assistant, json_object(es));
                },
                None => {},
            }
        }
    }
}

fn role_message_exec(role: &str, content: Vec<Json>) -> (r: Json)
    ensures
        r@ == role_message(role@, views(content@)),
{
    let mut es = new_entries();
    push_entry(&mut es, "role", json_str(role));
    push_entry(&mut es, "content", json_array(content));
    json_object(es)
}

} // verus!

verus! {

/// The texts joined with newlines.
pub open spec fn join_lines(ts: Seq<Seq<char>>) -> Seq<char>
    decreases ts.len(),
{
    if ts.len() == 0 {
        Seq::empty()
    } else if ts.len() == 1 {
        ts[0]
    } else {
        join_lines(ts.drop_last()) + seq!['\n'] + ts.last()
    }
}

/// The `text` strings of `parts[..n]`.
pub open spec fn part_strings(parts: Seq<JsonValue>, n: int) -> Seq<Seq<char>>
    decreases n,
{
    if n <= 0 {
        Seq::empty()
    } else {
        let r = part_strings(parts, n - 1);
        match get_str(parts[n - 1], "text"@) {
            Some(t) => r.push(t),
            None => r,
        }
    }
}

/// The text of the `instructions` field: a string as it is, or the texts of
/// an array of parts, one per line.
pub open spec fn instruction_text_spec(v: JsonValue) -> Seq<char> {
    match v {
        JsonValue::Str(s) => s,
        JsonValue::Array(parts) => join_lines(part_strings(parts, parts.len() as int)),
        _ => Seq::empty(),
    }
}

pub fn instruction_text(v: &Json) -> (r: Vec<char>)
    ensures
        r@ == instruction_text_spec(v@),
{
    match v {
        Json::Str(s) => crate::text::chars_of(s.as_str()),
        Json::Array(parts) => {
            proof {
                crate::json::lemma_array_view(*parts);
            }
            let ghost pv = views(parts@);
            let mut out: Vec<char> = Vec::new();
            let mut count: usize = 0;
            let mut i: usize = 0;
            while i < parts.len()
                invariant
                    pv == views(parts@),
                    i <= parts@.len(),
                    count == part_strings(pv, i as int).len(),
                    count <= i,
                    out@ == join_lines(part_strings(pv, i as int)),
                decreases parts.len() - i,
            {
                match parts[i].get_str("text") {
                    Some(t) => {
                        let ghost ts = part_strings(pv, i as int);
                        let tv = crate::text::chars_of(t.as_str());
                        if count > 0 {
                            out.push('\n');
                        }
                        let mut j: usize = 0;
                        let ghost base = out@;
                        while j < tv.len()
                            invariant
                                j <= tv@.len(),
                                out@ == base + tv@.subrange(0, j as int),
                            decreases tv.len() - j,
                        {
                            out.push(tv[j]);
                            assert(tv@.subrange(0, j + 1) == tv@.subrange(0, j as int).push(tv@[j as int]));
                            j = j + 1;
                        }
                        assert(tv@.subrange(0, tv@.len() as int) == tv@);
                        let ghost ts2 = ts.push(t@);
                        assert(ts2.drop_last() == ts);
                        count = count + 1;
                    },
                    None => {},
                }
                i = i + 1;
            }
            out
        },
        _ => Vec::new(),
    }
}

pub open spec fn ephemeral() -> JsonValue {
    jobj(seq![("type"@, jstr("ephemeral"@))])
}

/// An object with field `k` set to `x`.
pub open spec fn set_field(v: JsonValue, k: Seq<char>, x: JsonValue) -> JsonValue {
    match v {
        JsonValue::Object(es) => JsonValue::Object(entries_set(es, k, x)),
        _ => v,
    }
}

/// The blocks with `cache_control: ephemeral` set on the last one.
pub open spec fn with_cache_last(bs: Seq<JsonValue>) -> Seq<JsonValue> {
    if bs.len() == 0 {
        bs
    } else {
        bs.drop_last().push(set_field(bs.last(), "cache_control"@, ephemeral()))
    }
}

fn ephemeral_exec() -> (r: Json)
    ensures
        r@ == ephemeral(),
{
    let mut es = new_entries();
    push_entry(&mut es, "type", json_str("ephemeral"));
    json_object(es)
}

fn mark_cache_last(bs: &mut Vec<Json>)
    ensures
        views(final(bs)@) == with_cache_last(views(old(bs)@)),
{
    let ghost before = views(bs@);
    match bs.pop() {
        Some(last) => {
            assert(views(bs@) =~= before.drop_last());
            let marked = match last {
                Json::Object(mut es) => {
                    proof {
                        crate::json::lemma_object_view(es);
                    }
                    entries_set_exec(&mut es, "cache_control".to_owned(), ephemeral_exec());
                    json_object(es)
                },
                other => other,
            };
            push_value(bs, marked);
        },
        None => {},
    }
}

/// A function tool, converted: name, description and the parameter schema
/// as it is.
pub open spec fn tool_spec(t: JsonValue) -> Option<JsonValue> {
    if get_str(t, "type"@) == Some("function"@) {
        Some(
            jobj(
                seq![("name"@, jstr(str_or(get_str(t, "name"@), ""@)))].push(
                    ("description"@, jstr(str_or(get_str(t, "description"@), ""@))),
                ).push(
                    (
                        "input_schema"@,
                        match get(t, "parameters"@) {
                            Some(p) => p,
                            None => jobj(seq![("type"@, jstr("object"@))]),
                        },
                    ),
                ),
            ),
        )
    } else {
        None
    }
}

pub open spec fn tool_fn() -> spec_fn(JsonValue) -> Option<JsonValue> {
    |t: JsonValue| tool_spec(t)
}

/// The converted tools of a request.
pub open spec fn request_tools(body: JsonValue) -> Seq<JsonValue> {
    match get(body, "tools"@) {
        Some(v) => match as_array(v) {
            Some(a) => filter_map(a, a.len() as int, tool_fn()),
            None => Seq::empty(),
        },
        None => Seq::empty(),
    }
}

fn convert_tools(body: &Json) -> (r: Vec<Json>)
    ensures
        views(r@) == request_tools(body@),
{
    let mut out = new_values();
    let tools: &Vec<Json> = match body.get("tools") {
        Some(v) => match v.as_array() {
            Some(a) => a,
            None => return out,
        },
        None => return out,
    };
    let ghost tv = views(tools@);
    let mut i: usize = 0;
    while i < tools.len()
        invariant
            tv == views(tools@),
            i <= tools@.len(),
            views(out@) == filter_map(tv, i as int, tool_fn()),
        decreases tools.len() - i,
    {
        let t = &tools[i];
        let is_fn = match t.get_str("type") {
            Some(ty) => str_eq(ty.as_str(), "function"),
            None => false,
        };
        if is_fn {
            let schema = match t.get("parameters") {
                Some(p) => p.deep_clone(),
                None => {
                    let mut es = new_entries();
                    push_entry(&mut es, "type", json_str("object"));
                    json_object(es)
                },
            };
            let mut es = new_entries();
            push_entry(&mut es, "name", str_field(t, "name"));
            push_entry(&mut es, "description", str_field(t, "description"));
            push_entry(&mut es, "input_schema", schema);
            push_value(&mut out, json_object(es));
        }
        i = i + 1;
    }
    out
}

/// The thinking budget of a reasoning effort: none for `none` and `minimal`.
pub open spec fn thinking_budget(effort: Seq<char>) -> Option<u64> {
    if effort == "none"@ || effort == "minimal"@ {
        None
    } else if effort == "low"@ {
        Some(2048)
    } else if effort == "high"@ {
        Some(16384)
    } else if effort == "xhigh"@ {
        Some(32768)
    } else {
        Some(8192)
    }
}

pub open spec fn thinking_spec(body: JsonValue) -> Option<JsonValue> {
    match get(body, "reasoning"@) {
        Some(r) => match get_str(r, "effort"@) {
            Some(e) => match thinking_budget(e) {
                Some(b) => Some(jobj(seq![("type"@, jstr("enabled"@))].push(("budget_tokens"@, JsonValue::UInt(b))))),
                None => None,
            },
            None => None,
        },
        None => None,
    }
}

pub open spec fn max_tokens_value(body: JsonValue) -> JsonValue {
    match get(body, "max_output_tokens"@) {
        Some(v) => match as_u64(v) {
            Some(n) => JsonValue::UInt(n),
            None => JsonValue::UInt(DEFAULT_ANTHROPIC_MAX_TOKENS),
        },
        None => JsonValue::UInt(DEFAULT_ANTHROPIC_MAX_TOKENS),
    }
}

/// The entries with `k: v` appended when `o` is `Some(v)`.
pub open spec fn opt_entry(es: Seq<(Seq<char>, JsonValue)>, k: Seq<char>, o: Option<JsonValue>) -> Seq<(Seq<char>, JsonValue)> {
    match o {
        Some(v) => es.push((k, v)),
        None => es,
    }
}

pub open spec fn instruction_system(body: JsonValue) -> Seq<JsonValue> {
    match get(body, "instructions"@) {
        Some(v) => if instruction_text_spec(v).len() > 0 {
            seq![text_block(instruction_text_spec(v))]
        } else {
            Seq::empty()
        },
        None => Seq::empty(),
    }
}

/// The conversion state after every input item, with pending contents flushed.
pub open spec fn request_state(body: JsonValue, args: Seq<Option<JsonValue>>) -> ReqState {
    let items = input_items(body);
    let s0 = ReqState {
        system: instruction_system(body),
        messages: Seq::empty(),
        assistant: Seq::empty(),
        user: Seq::empty(),
        calls: 0,
    };
    flush_user(flush_assistant(request_fold(items, items.len() as int, s0, args)))
}

pub open spec fn final_messages(ms: Seq<JsonValue>) -> Seq<JsonValue> {
    if ms.len() == 0 {
        seq![role_message("user"@, seq![text_block(""@)])]
    } else {
        ms
    }
}

/// The Anthropic Messages request for a Responses request body.
pub open spec fn anthropic_request_spec(body: JsonValue, args: Seq<Option<JsonValue>>) -> JsonValue {
    let s = request_state(body, args);
    let e0 = opt_entry(Seq::empty(), "model"@, get(body, "model"@));
    let e1 = if s.system.len() > 0 {
        e0.push(("system"@, JsonValue::Array(with_cache_last(s.system))))
    } else {
        e0
    };
    let e2 = e1.push(("messages"@, JsonValue::Array(final_messages(s.messages))));
    let tools = request_tools(body);
    let e3 = if tools.len() > 0 {
        e2.push(("tools"@, JsonValue::Array(with_cache_last(tools))))
    } else {
        e2
    };
    let e4 = e3.push(("max_tokens"@, max_tokens_value(body)));
    let e5 = opt_entry(e4, "temperature"@, get(body, "temperature"@));
    let e6 = opt_entry(e5, "top_p"@, get(body, "top_p"@));
    let e7 = opt_entry(e6, "stream"@, get(body, "stream"@));
    jobj(opt_entry(e7, "thinking"@, thinking_spec(body)))
}

fn push_copy(es: &mut Vec<(String, Json)>, body: &Json, key: &str)
    ensures
        entry_views(final(es)@) == opt_entry(entry_views(old(es)@), key@, get(body@, key@)),
{
    match body.get(key) {
        Some(v) => push_entry(es, key, v.deep_clone()),
        None => {},
    }
}

/// The parse of the `arguments` text of each function call of a request,
/// in order.
pub open spec fn parsed_call_arguments(body: JsonValue) -> Seq<Option<JsonValue>> {
    let t = call_arguments_spec(input_items(body), input_items(body).len() as int);
    Seq::new(t.len(), |k: int| crate::codec::json_parse(t[k]))
}

/// Converts a Responses request body to an Anthropic Messages request; the
/// `arguments` of each function call are parsed as JSON (an empty object is
/// sent where they are not JSON).
pub fn responses_to_anthropic_messages(body: &Json) -> (r: Json)
    ensures
        r@ == anthropic_request_spec(body@, parsed_call_arguments(body@)),
{
    let texts = function_call_arguments(body);
    let ghost tv = crate::desktop::string_views(texts@);
    let mut parsed: Vec<Option<Json>> = Vec::new();
    let mut i: usize = 0;
    while i < texts.len()
        invariant
            tv == crate::desktop::string_views(texts@),
            i <= texts@.len(),
            opt_views(parsed@) == Seq::new(i as nat, |k: int| crate::codec::json_parse(tv[k])),
        decreases texts.len() - i,
    {
        assert(tv[i as int] == texts@[i as int]@);
        let p = crate::codec::parse_json_text(texts[i].as_str());
        let ghost pv: Option<JsonValue> = match &p {
            Some(j) => Some(j@),
            None => None,
        };
        assert(pv == crate::codec::json_parse(tv[i as int]));
        let ghost before = opt_views(parsed@);
        parsed.push(p);
        assert(opt_views(parsed@) =~= before.push(pv));
        assert(opt_views(parsed@) =~= Seq::new((i + 1) as nat, |k: int| crate::codec::json_parse(tv[k])));
        i = i + 1;
    }
    assert(opt_views(parsed@) =~= parsed_call_arguments(body@));
    responses_to_anthropic_messages_with_arguments(body, &parsed)
}

/// Converts a Responses request body to an Anthropic Messages request.
/// `parsed_arguments[k]` is the parse of the `k`-th text of
/// [`function_call_arguments`], `None` where it is not JSON (an empty object
/// is sent then).
pub fn responses_to_anthropic_messages_with_arguments(
    body: &Json,
    parsed_arguments: &Vec<Option<Json>>,
) -> (r: Json)
    requires
        parsed_arguments@.len() == call_arguments_spec(input_items(body@), input_items(body@).len() as int).len(),
    ensures
        r@ == anthropic_request_spec(body@, opt_views(parsed_arguments@)),
{
    let ghost av = opt_views(parsed_arguments@);
    let mut b = ReqBuilder {
        system: new_values(),
        messages: new_values(),
        assistant: new_values(),
        user: new_values(),
        calls: 0,
    };
    match body.get("instructions") {
        Some(v) => {
            let t = instruction_text(v);
            if t.len() > 0 {
                let ts = crate::text::string_of_all(&t);
                push_value(&mut b.system, text_block_exec(ts.as_str()));
            }
        },
        None => {},
    }
    let ghost s0 = builder_view(b);
    assert(s0.system == instruction_system(body@));
    let empty: Vec<Json> = new_values();
    let items: &Vec<Json> = match body.get("input") {
        Some(v) => match v.as_array() {
            Some(a) => a,
            None => &empty,
        },
        None => &empty,
    };
    let ghost iv = views(items@);
    assert(iv == input_items(body@));
    let mut i: usize = 0;
    while i < items.len()
        invariant
            iv == views(items@),
            i <= items@.len(),
            parsed_arguments@.len() == call_arguments_spec(iv, iv.len() as int).len(),
            av == opt_views(parsed_arguments@),
            builder_view(b) == request_fold(iv, i as int, s0, av),
            b.calls == call_arguments_spec(iv, i as int).len(),
        decreases items.len() - i,
    {
        proof {
            lemma_call_arguments_monotone(iv, i + 1, iv.len() as int);
            lemma_request_step_calls(builder_view(b), iv[i as int], av);
        }
        b.add_item(&items[i], parsed_arguments);
        i = i + 1;
    }
    b.flush_assistant();
    b.flush_user();
    let ghost st = request_state(body@, av);
    assert(builder_view(b) == st);
    let mut es = new_entries();
    push_copy(&mut es, body, "model");
    let ghost e0 = opt_entry(Seq::empty(), "model"@, get(body@, "model"@));
    assert(entry_views(es@) == e0);
    let mut system = new_values();
    std::mem::swap(&mut system, &mut b.system);
    assert(views(system@) == st.system);
    if system.len() > 0 {
        mark_cache_last(&mut system);
        push_entry(&mut es, "system", json_array(system));
    }
    let ghost e1 = if st.system.len() > 0 {
        e0.push(("system"@, JsonValue::Array(with_cache_last(st.system))))
    } else {
        e0
    };
    assert(entry_views(es@) == e1);
    let mut messages = new_values();
    std::mem::swap(&mut messages, &mut b.messages);
    assert(views(messages@) == st.messages);
    if messages.len() == 0 {
        let mut content = new_values();
        push_value(&mut content, text_block_exec(""));
        push_value(&mut messages, role_message_exec("user", content));
        assert(views(messages@) =~= final_messages(st.messages));
    }
    push_entry(&mut es, "messages", json_array(messages));
    let ghost e2 = e1.push(("messages"@, JsonValue::Array(final_messages(st.messages))));
    assert(entry_views(es@) == e2);
    let mut tools = convert_tools(body);
    if tools.len() > 0 {
        mark_cache_last(&mut tools);
        push_entry(&mut es, "tools", json_array(tools));
    }
    let ghost tv = request_tools(body@);
    let ghost e3 = if tv.len() > 0 {
        e2.push(("tools"@, JsonValue::Array(with_cache_last(tv))))
    } else {
        e2
    };
    assert(entry_views(es@) == e3);
    let max_tokens = match body.get("max_output_tokens") {
        Some(v) => match v.as_u64() {
            Some(n) => Json::UInt(n),
            None => Json::UInt(DEFAULT_ANTHROPIC_MAX_TOKENS),
        },
        None => Json::UInt(DEFAULT_ANTHROPIC_MAX_TOKENS),
    };
    push_entry(&mut es, "max_tokens", max_tokens);
    push_copy(&mut es, body, "temperature");
    push_copy(&mut es, body, "top_p");
    push_copy(&mut es, body, "stream");
    let ghost e7 = opt_entry(
        opt_entry(
            opt_entry(e3.push(("max_tokens"@, max_tokens_value(body@))), "temperature"@, get(body@, "temperature"@)),
            "top_p"@,
            get(body@, "top_p"@),
        ),
        "stream"@,
        get(body@, "stream"@),
    );
    assert(entry_views(es@) == e7);
    let effort: Option<&String> = match body.get("reasoning") {
        Some(r) => r.get_str("effort"),
        None => None,
    };
    match effort {
        Some(e) => {
            let budget: Option<u64> = if str_eq(e.as_str(), "none") || str_eq(e.as_str(), "minimal") {
                None
            } else if str_eq(e.as_str(), "low") {
                Some(2048)
            } else if str_eq(e.as_str(), "high") {
                Some(16384)
            } else if str_eq(e.as_str(), "xhigh") {
                Some(32768)
            } else {
                Some(8192)
            };
            match budget {
                Some(n) => {
                    let mut t = new_entries();
                    push_entry(&mut t, "type", json_str("enabled"));
                    push_entry(&mut t, "budget_tokens", Json::UInt(n));
                    push_entry(&mut es, "thinking", json_object(t));
                },
                None => {},
            }
        },
        None => {},
    }
    json_object(es)
}

} // verus!

verus! {

/// A token count of an Anthropic usage object (0 when absent).
pub open spec fn usage_num(usage: JsonValue, k: Seq<char>) -> u64 {
    match get(usage, k) {
        Some(v) => match as_u64(v) {
            Some(n) => n,
            None => 0,
        },
        None => 0,
    }
}

/// The token counts add up without overflow.
pub open spec fn usage_fits(usage: Option<JsonValue>) -> bool {
    match usage {
        Some(u) => usage_num(u, "input_tokens"@) + usage_num(u, "cache_read_input_tokens"@) + usage_num(
            u,
            "cache_creation_input_tokens"@,
        ) + usage_num(u, "output_tokens"@) <= u64::MAX,
        None => true,
    }
}

pub open spec fn num_field(k: Seq<char>, n: u64) -> JsonValue {
    jobj(seq![(k, JsonValue::UInt(n))])
}

/// The Responses usage for an Anthropic usage: cache reads and cache writes
/// count towards the input tokens, and cache reads are reported as cached.
pub open spec fn usage_spec(usage: Option<JsonValue>) -> JsonValue {
    match usage {
        None => jobj(
            seq![("input_tokens"@, JsonValue::UInt(0))].push(("output_tokens"@, JsonValue::UInt(0))).push(
                ("total_tokens"@, JsonValue::UInt(0)),
            ),
        ),
        Some(u) => {
            let input = usage_num(u, "input_tokens"@);
            let output = usage_num(u, "output_tokens"@);
            let cached = usage_num(u, "cache_read_input_tokens"@);
            let creation = usage_num(u, "cache_creation_input_tokens"@);
            let total_input = (input + cached + creation) as u64;
            jobj(
                seq![("input_tokens"@, JsonValue::UInt(total_input))].push(("output_tokens"@, JsonValue::UInt(output))).push(
                    ("total_tokens"@, JsonValue::UInt((total_input + output) as u64)),
                ).push(("input_tokens_details"@, num_field("cached_tokens"@, cached))).push(
                    ("output_tokens_details"@, num_field("reasoning_tokens"@, 0)),
                ),
            )
        },
    }
}

fn usage_num_exec(u: &Json, k: &str) -> (r: u64)
    ensures
        r == usage_num(u@, k@),
{
    match u.get(k) {
        Some(v) => match v.as_u64() {
            Some(n) => n,
            None => 0,
        },
        None => 0,
    }
}

fn num_field_exec(k: &str, n: u64) -> (r: Json)
    ensures
        r@ == num_field(k@, n),
{
    let mut es = new_entries();
    push_entry(&mut es, k, Json::UInt(n));
    json_object(es)
}

/// Whether the token counts of a usage object add up without overflow.
pub fn usage_fits_exec(usage: Option<&Json>) -> (r: bool)
    ensures
        r == usage_fits(crate::json::opt_json_view(usage)),
{
    match usage {
        Some(u) => {
            let a = usage_num_exec(u, "input_tokens");
            let b = usage_num_exec(u, "cache_read_input_tokens");
            let c = usage_num_exec(u, "cache_creation_input_tokens");
            let d = usage_num_exec(u, "output_tokens");
            a <= u64::MAX - b && a + b <= u64::MAX - c && a + b + c <= u64::MAX - d
        },
        None => true,
    }
}

/// Converts Anthropic token usage to Responses usage.
pub fn anthropic_usage_to_responses_usage(usage: Option<&Json>) -> (r: Json)
    requires
        usage_fits(crate::json::opt_json_view(usage)),
    ensures
        r@ == usage_spec(crate::json::opt_json_view(usage)),
{
    let mut es = new_entries();
    match usage {
        None => {
            push_entry(&mut es, "input_tokens", Json::UInt(0));
            push_entry(&mut es, "output_tokens", Json::UInt(0));
            push_entry(&mut es, "total_tokens", Json::UInt(0));
        },
        Some(u) => {
            let input = usage_num_exec(u, "input_tokens");
            let output = usage_num_exec(u, "output_tokens");
            let cached = usage_num_exec(u, "cache_read_input_tokens");
            let creation = usage_num_exec(u, "cache_creation_input_tokens");
            let total_input = input + cached + creation;
            push_entry(&mut es, "input_tokens", Json::UInt(total_input));
            push_entry(&mut es, "output_tokens", Json::UInt(output));
            push_entry(&mut es, "total_tokens", Json::UInt(total_input + output));
            push_entry(&mut es, "input_tokens_details", num_field_exec("cached_tokens", cached));
            push_entry(&mut es, "output_tokens_details", num_field_exec("reasoning_tokens", 0));
        },
    }
    json_object(es)
}

} // verus!

verus! {

/// The content blocks of an Anthropic message.
pub open spec fn content_blocks(body: JsonValue) -> Seq<JsonValue> {
    match get(body, "content"@) {
        Some(v) => match as_array(v) {
            Some(a) => a,
            None => Seq::empty(),
        },
        None => Seq::empty(),
    }
}

/// The `input` of each `tool_use` block among `blocks[..n]` (an empty object
/// when absent).
pub open spec fn tool_inputs_spec(blocks: Seq<JsonValue>, n: int) -> Seq<JsonValue>
    decreases n,
{
    if n <= 0 {
        Seq::empty()
    } else {
        let r = tool_inputs_spec(blocks, n - 1);
        if get_str(blocks[n - 1], "type"@) == Some("tool_use"@) {
            r.push(
                match get(blocks[n - 1], "input"@) {
                    Some(v) => v,
                    None => empty_object(),
                },
            )
        } else {
            r
        }
    }
}

pub proof fn lemma_tool_inputs_monotone(blocks: Seq<JsonValue>, i: int, n: int)
    requires
        0 <= i <= n,
    ensures
        tool_inputs_spec(blocks, i).len() <= tool_inputs_spec(blocks, n).len(),
    decreases n - i,
{
    if i < n {
        lemma_tool_inputs_monotone(blocks, i, n - 1);
    }
}

proof fn lemma_block_kinds()
    ensures
        "thinking"@ != "tool_use"@,
        "text"@ != "tool_use"@,
        "thinking"@ != "text"@,
{
    reveal_strlit("thinking");
    reveal_strlit("tool_use");
    reveal_strlit("text");
    assert("thinking"@[1] != "tool_use"@[1]);
    assert("text"@[1] != "tool_use"@[1]);
    assert("thinking"@.len() != "text"@.len());
}

/// The inputs of the message's tool calls, in order.
pub fn tool_use_inputs(body: &Json) -> (r: Vec<Json>)
    ensures
        views(r@) == tool_inputs_spec(content_blocks(body@), content_blocks(body@).len() as int),
{
    let mut out = new_values();
    let blocks: &Vec<Json> = match body.get("content") {
        Some(v) => match v.as_array() {
            Some(a) => a,
            None => return out,
        },
        None => return out,
    };
    let ghost bv = views(blocks@);
    let mut i: usize = 0;
    while i < blocks.len()
        invariant
            bv == views(blocks@),
            i <= blocks@.len(),
            views(out@) == tool_inputs_spec(bv, i as int),
        decreases blocks.len() - i,
    {
        let b = &blocks[i];
        let is_tool = match b.get_str("type") {
            Some(t) => str_eq(t.as_str(), "tool_use"),
            None => false,
        };
        if is_tool {
            let input = match b.get("input") {
                Some(v) => v.deep_clone(),
                None => json_object(new_entries()),
            };
            push_value(&mut out, input);
        }
        i = i + 1;
    }
    out
}

pub open spec fn summary_text_part(t: Seq<char>) -> JsonValue {
    jobj(seq![("type"@, jstr("summary_text"@))].push(("text"@, jstr(t))))
}

pub open spec fn output_text_part(t: Seq<char>) -> JsonValue {
    jobj(seq![("type"@, jstr("output_text"@))].push(("text"@, jstr(t))).push(("annotations"@, JsonValue::Array(Seq::empty()))))
}

pub open spec fn opt_str_value(o: Option<Seq<char>>) -> Option<JsonValue> {
    match o {
        Some(s) => Some(jstr(s)),
        None => None,
    }
}

/// A `reasoning` output item for a thinking block.
pub open spec fn reasoning_item(b: JsonValue, rid: Seq<char>) -> JsonValue {
    jobj(
        opt_entry(
            seq![("type"@, jstr("reasoning"@))].push(("id"@, jstr(rid))).push(
                ("summary"@, JsonValue::Array(seq![summary_text_part(str_or(get_str(b, "thinking"@), ""@))])),
            ),
            "signature"@,
            opt_str_value(get_str(b, "signature"@)),
        ),
    )
}

/// A completed assistant `message` output item for a text block.
pub open spec fn message_item(b: JsonValue, rid: Seq<char>) -> JsonValue {
    jobj(
        seq![("type"@, jstr("message"@))].push(("id"@, jstr(rid))).push(("role"@, jstr("assistant"@))).push(
            ("status"@, jstr("completed"@)),
        ).push(("content"@, JsonValue::Array(seq![output_text_part(str_or(get_str(b, "text"@), ""@))]))),
    )
}

/// A completed `function_call` output item for a tool use block.
pub open spec fn function_call_item(b: JsonValue, rid: Seq<char>, arguments: Seq<char>) -> JsonValue {
    jobj(
        seq![("type"@, jstr("function_call"@))].push(("id"@, jstr(rid))).push(
            ("call_id"@, jstr(str_or(get_str(b, "id"@), ""@))),
        ).push(("name"@, jstr(str_or(get_str(b, "name"@), ""@)))).push(("arguments"@, jstr(arguments))).push(
            ("status"@, jstr("completed"@)),
        ),
    )
}

/// The output items for `blocks[..n]`; `arguments[k]` is the serialised
/// input of the `k`-th tool call.
pub open spec fn output_items(blocks: Seq<JsonValue>, n: int, rid: Seq<char>, arguments: Seq<Seq<char>>) -> Seq<JsonValue>
    decreases n,
{
    if n <= 0 {
        Seq::empty()
    } else {
        let r = output_items(blocks, n - 1, rid, arguments);
        let b = blocks[n - 1];
        match get_str(b, "type"@) {
            Some(ty) => if ty == "thinking"@ {
                r.push(reasoning_item(b, rid))
            } else if ty == "text"@ {
                r.push(message_item(b, rid))
            } else if ty == "tool_use"@ {
                r.push(function_call_item(b, rid, arguments[tool_inputs_spec(blocks, n - 1).len() as int]))
            } else {
                r
            },
            None => r,
        }
    }
}

pub open spec fn response_id_spec(body: JsonValue) -> Seq<char> {
    str_or(get_str(body, "id"@), "msg_unknown"@)
}

pub open spec fn incomplete_details() -> JsonValue {
    jobj(seq![("reason"@, jstr("max_output_tokens"@))])
}

/// The Responses response for an Anthropic message, created at
/// `created_at` (seconds since the epoch), echoing `instructions`,
/// `parallel_tool_calls` and `store` of the original request.
pub open spec fn response_spec(
    body: JsonValue,
    request: Option<JsonValue>,
    created_at: u64,
    arguments: Seq<Seq<char>>,
) -> JsonValue {
    let rid = response_id_spec(body);
    let stop = str_or(get_str(body, "stop_reason"@), ""@);
    let blocks = content_blocks(body);
    let e = seq![("id"@, jstr(rid))].push(("object"@, jstr("response"@))).push(
        ("created_at"@, JsonValue::UInt(created_at)),
    ).push(
        (
            "status"@,
            jstr(
                if stop == "max_tokens"@ {
                    "incomplete"@
                } else {
                    "completed"@
                },
            ),
        ),
    ).push(("model"@, jstr(str_or(get_str(body, "model"@), ""@)))).push(
        ("output"@, JsonValue::Array(output_items(blocks, blocks.len() as int, rid, arguments))),
    ).push(("usage"@, usage_spec(get(body, "usage"@))));
    let e2 = if stop == "max_tokens"@ {
        e.push(("incomplete_details"@, incomplete_details()))
    } else {
        e
    };
    jobj(
        match request {
            Some(q) => opt_entry(
                opt_entry(
                    opt_entry(e2, "instructions"@, get(q, "instructions"@)),
                    "parallel_tool_calls"@,
                    get(q, "parallel_tool_calls"@),
                ),
                "store"@,
                get(q, "store"@),
            ),
            None => e2,
        },
    )
}

fn output_text_part_exec(t: Json) -> (r: Json)
    requires
        t@ is Str,
    ensures
        r@ == output_text_part(t@->Str_0),
{
    let mut es = new_entries();
    push_entry(&mut es, "type", json_str("output_text"));
    push_entry(&mut es, "text", t);
    push_entry(&mut es, "annotations", json_array(new_values()));
    json_object(es)
}

/// The JSON text of the input of each tool call of a message, in order
/// (`{}` where it cannot be printed).
pub open spec fn serialized_tool_inputs(body: JsonValue) -> Seq<Seq<char>> {
    let ins = tool_inputs_spec(content_blocks(body), content_blocks(body).len() as int);
    Seq::new(ins.len(), |k: int| str_or(crate::codec::json_text(ins[k]), "{}"@))
}

/// Converts a (non-streaming) Anthropic message to a Responses response,
/// created at `created_at` (seconds since the epoch); the input of each tool
/// call is printed as JSON text for its `arguments`.
pub fn anthropic_message_to_response(
    body: &Json,
    original_request: Option<&Json>,
    created_at: u64,
) -> (r: Json)
    requires
        usage_fits(get(body@, "usage"@)),
    ensures
        r@ == response_spec(
            body@,
            crate::json::opt_json_view(original_request),
            created_at,
            serialized_tool_inputs(body@),
        ),
{
    let inputs = tool_use_inputs(body);
    let ghost iv = views(inputs@);
    let mut texts: Vec<String> = Vec::new();
    let mut i: usize = 0;
    while i < inputs.len()
        invariant
            iv == views(inputs@),
            i <= inputs@.len(),
            crate::desktop::string_views(texts@) == Seq::new(
                i as nat,
                |k: int| str_or(crate::codec::json_text(iv[k]), "{}"@),
            ),
        decreases inputs.len() - i,
    {
        assert(iv[i as int] == inputs@[i as int]@);
        let t = match crate::codec::json_to_string(&inputs[i]) {
            Some(s) => s,
            None => "{}".to_owned(),
        };
        assert(t@ == str_or(crate::codec::json_text(iv[i as int]), "{}"@));
        let ghost before = crate::desktop::string_views(texts@);
        let ghost tview = t@;
        texts.push(t);
        assert(crate::desktop::string_views(texts@) =~= before.push(tview));
        assert(crate::desktop::string_views(texts@) =~= Seq::new(
            (i + 1) as nat,
            |k: int| str_or(crate::codec::json_text(iv[k]), "{}"@),
        ));
        i = i + 1;
    }
    assert(crate::desktop::string_views(texts@) =~= serialized_tool_inputs(body@));
    anthropic_message_to_response_with_arguments(body, original_request, created_at, &texts)
}

/// Converts a (non-streaming) Anthropic message to a Responses response.
/// `tool_arguments[k]` is the serialised `k`-th of [`tool_use_inputs`];
/// `created_at` is the current time in seconds since the epoch.
pub fn anthropic_message_to_response_with_arguments(
    body: &Json,
    original_request: Option<&Json>,
    created_at: u64,
    tool_arguments: &Vec<String>,
) -> (r: Json)
    requires
        tool_arguments@.len() == tool_inputs_spec(content_blocks(body@), content_blocks(body@).len() as int).len(),
        usage_fits(get(body@, "usage"@)),
    ensures
        r@ == response_spec(
            body@,
            crate::json::opt_json_view(original_request),
            created_at,
            crate::desktop::string_views(tool_arguments@),
        ),
{
    let ghost targs = crate::desktop::string_views(tool_arguments@);
    let rid: String = match body.get_str("id") {
        Some(s) => s.clone(),
        None => "msg_unknown".to_owned(),
    };
    let mut output = new_values();
    let empty: Vec<Json> = new_values();
    let blocks: &Vec<Json> = match body.get("content") {
        Some(v) => match v.as_array() {
            Some(a) => a,
            None => &empty,
        },
        None => &empty,
    };
    let ghost bv = views(blocks@);
    assert(bv == content_blocks(body@));
    let mut tools: usize = 0;
    let mut i: usize = 0;
    while i < blocks.len()
        invariant
            bv == views(blocks@),
            i <= blocks@.len(),
            targs == crate::desktop::string_views(tool_arguments@),
            tool_arguments@.len() == tool_inputs_spec(bv, bv.len() as int).len(),
            tools == tool_inputs_spec(bv, i as int).len(),
            rid@ == response_id_spec(body@),
            views(output@) == output_items(bv, i as int, rid@, targs),
        decreases blocks.len() - i,
    {
        proof {
            lemma_tool_inputs_monotone(bv, i + 1, bv.len() as int);
            lemma_block_kinds();
        }
        let b = &blocks[i];
        match b.get_str("type") {
            Some(ty) => {
                if str_eq(ty.as_str(), "thinking") {
                    let mut summary = new_values();
                    let mut part = new_entries();
                    push_entry(&mut part, "type", json_str("summary_text"));
                    push_entry(&mut part, "text", str_field(b, "thinking"));
                    push_value(&mut summary, json_object(part));
                    let mut es = new_entries();
                    push_entry(&mut es, "type", json_str("reasoning"));
                    push_entry(&mut es, "id", Json::Str(rid.clone()));
                    push_entry(&mut es, "summary", json_array(summary));
                    match b.get_str("signature") {
                        Some(sig) => push_entry(&mut es, "signature", Json::Str(sig.clone())),
                        None => {},
                    }
                    push_value(&mut output, json_object(es));
                } else if str_eq(ty.as_str(), "text") {
                    let mut content = new_values();
                    push_value(&mut content, output_text_part_exec(str_field(b, "text")));
                    let mut es = new_entries();
                    push_entry(&mut es, "type", json_str("message"));
                    push_entry(&mut es, "id", Json::Str(rid.clone()));
                    push_entry(&mut es, "role", json_str("assistant"));
                    push_entry(&mut es, "status", json_str("completed"));
                    push_entry(&mut es, "content", json_array(content));
                    push_value(&mut output, json_object(es));
                } else if str_eq(ty.as_str(), "tool_use") {
                    let n = tool_arguments.len();
                    assert(tools < n);
                    let mut es = new_entries();
                    push_entry(&mut es, "type", json_str("function_call"));
                    push_entry(&mut es, "id", Json::Str(rid.clone()));
                    push_entry(&mut es, "call_id", str_field(b, "id"));
                    push_entry(&mut es, "name", str_field(b, "name"));
                    push_entry(&mut es, "arguments", Json::Str(tool_arguments[tools].clone()));
                    push_entry(&mut es, "status", json_str("completed"));
                    push_value(&mut output, json_object(es));
                    tools = tools + 1;
                }
            },
            None => {},
        }
        i = i + 1;
    }
    let stop: String = match body.get_str("stop_reason") {
        Some(s) => s.clone(),
        None => "".to_owned(),
    };
    let max_tokens = str_eq(stop.as_str(), "max_tokens");
    let mut es = new_entries();
    push_entry(&mut es, "id", Json::Str(rid));
    push_entry(&mut es, "object", json_str("response"));
    push_entry(&mut es, "created_at", Json::UInt(created_at));
    push_entry(
        &mut es,
        "status",
        if max_tokens {
            json_str("incomplete")
        } else {
            json_str("completed")
        },
    );
    push_entry(&mut es, "model", str_field(body, "model"));
    push_entry(&mut es, "output", json_array(output));
    push_entry(&mut es, "usage", anthropic_usage_to_responses_usage(body.get("usage")));
    if max_tokens {
        let mut d = new_entries();
        push_entry(&mut d, "reason", json_str("max_output_tokens"));
        push_entry(&mut es, "incomplete_details", json_object(d));
    }
    match original_request {
        Some(q) => {
            push_copy(&mut es, q, "instructions");
            push_copy(&mut es, q, "parallel_tool_calls");
            push_copy(&mut es, q, "store");
        },
        None => {},
    }
    json_object(es)
}

/// The `error` of a Responses error body for an upstream Anthropic error:
/// the message and type of the parsed body's `error`, or the first 256
/// characters of the body's text.
pub open spec fn error_fields(parsed: Option<JsonValue>, body_text: Seq<char>) -> (Seq<char>, Seq<char>) {
    let fallback = (
        if body_text.len() <= 256 {
            body_text
        } else {
            body_text.take(256)
        },
        "upstream_error"@,
    );
    match parsed {
        Some(v) => match get(v, "error"@) {
            Some(e) => (str_or(get_str(e, "message"@), "upstream error"@), str_or(get_str(e, "type"@), "upstream_error"@)),
            None => fallback,
        },
        None => fallback,
    }
}

pub open spec fn error_body_spec(status_code: u16, parsed: Option<JsonValue>, body_text: Seq<char>) -> JsonValue {
    let f = error_fields(parsed, body_text);
    jobj(
        seq![
            (
                "error"@,
                jobj(
                    seq![("message"@, jstr(f.0))].push(("type"@, jstr(f.1))).push(
                        ("code"@, JsonValue::UInt(status_code as u64)),
                    ),
                ),
            ),
        ],
    )
}

/// Converts an Anthropic error body to a Responses error body: the error's
/// message and type when the body is JSON with an `error` object, otherwise
/// the first 256 characters of the body read as UTF-8 (invalid sequences
/// replaced) and `upstream_error`; the status code as `code`.
pub fn anthropic_error_to_responses_error(status_code: u16, body: &[u8]) -> (r: Json)
    ensures
        r@ == error_body_spec(
            status_code,
            crate::codec::json_bytes_parse(body@),
            crate::codec::utf8_lossy(body@),
        ),
{
    let parsed = crate::codec::parse_json_bytes(body);
    let text = crate::codec::utf8_lossy_string(body);
    match &parsed {
        Some(p) => anthropic_error_to_responses_error_with_parse(status_code, Some(p), text.as_str()),
        None => anthropic_error_to_responses_error_with_parse(status_code, None, text.as_str()),
    }
}

/// Converts an Anthropic error body to a Responses error body. `parsed` is
/// the body parsed as JSON (`None` when it is not) and `body_text` the body
/// read as UTF-8, invalid sequences replaced.
pub fn anthropic_error_to_responses_error_with_parse(
    status_code: u16,
    parsed: Option<&Json>,
    body_text: &str,
) -> (r: Json)
    ensures
        r@ == error_body_spec(status_code, crate::json::opt_json_view(parsed), body_text@),
{
    let fallback_message = || -> (s: String)
        ensures
            s@ == (if body_text@.len() <= 256 {
                body_text@
            } else {
                body_text@.take(256)
            }),
        {
            let v = crate::text::chars_of(body_text);
            let n: usize = if v.len() < 256 {
                v.len()
            } else {
                256
            };
            let s = crate::text::string_of(&v, 0, n);
            assert(v@.subrange(0, n as int) =~= (if body_text@.len() <= 256 {
                body_text@
            } else {
                body_text@.take(256)
            }));
            s
        };
    let (message, kind): (String, String) = match parsed {
        Some(v) => match v.get("error") {
            Some(e) => (
                match e.get_str("message") {
                    Some(m) => m.clone(),
                    None => "upstream error".to_owned(),
                },
                match e.get_str("type") {
                    Some(t) => t.clone(),
                    None => "upstream_error".to_owned(),
                },
            ),
            None => (fallback_message(), "upstream_error".to_owned()),
        },
        None => (fallback_message(), "upstream_error".to_owned()),
    };
    let mut inner = new_entries();
    push_entry(&mut inner, "message", Json::Str(message));
    push_entry(&mut inner, "type", Json::Str(kind));
    push_entry(&mut inner, "code", Json::UInt(status_code as u64));
    let mut es = new_entries();
    push_entry(&mut es, "error", json_object(inner));
    json_object(es)
}

} // verus!

verus! {

/// `s` without the copies of `c` at its end.
pub open spec fn strip_trailing(s: Seq<char>, c: char) -> Seq<char>
    decreases s.len(),
{
    if s.len() > 0 && s.last() == c {
        strip_trailing(s.drop_last(), c)
    } else {
        s
    }
}

/// The Messages endpoint of an Anthropic base URL: a base ending in `#` takes
/// `/messages` directly; a complete `/messages` endpoint is kept; a base
/// ending in `/v1` takes `/messages`; any other takes `/v1/messages`.
/// Surrounding whitespace and trailing slashes are dropped.
pub open spec fn messages_url_spec(base: Seq<char>) -> Seq<char> {
    let t = crate::text::trim(base);
    if t.len() > 0 && t.last() == '#' {
        strip_trailing(t.drop_last(), '/') + "/messages"@
    } else {
        let u = strip_trailing(t, '/');
        if crate::text::ends_with(u, "/messages"@) {
            u
        } else if crate::text::ends_with(u, "/v1"@) {
            u + "/messages"@
        } else {
            u + "/v1/messages"@
        }
    }
}

fn strip_trailing_vec(v: &Vec<char>, c: char) -> (r: Vec<char>)
    ensures
        r@ == strip_trailing(v@, c),
{
    let mut n = v.len();
    assert(v@.subrange(0, n as int) == v@);
    while n > 0 && v[n - 1] == c
        invariant
            n <= v@.len(),
            strip_trailing(v@.subrange(0, n as int), c) == strip_trailing(v@, c),
        decreases n,
    {
        assert(v@.subrange(0, n - 1) == v@.subrange(0, n as int).drop_last());
        n = n - 1;
    }
    crate::text::subvec(v, 0, n)
}

fn append_str(v: &mut Vec<char>, s: &str)
    ensures
        final(v)@ == old(v)@ + s@,
{
    let t = crate::text::chars_of(s);
    let mut i: usize = 0;
    while i < t.len()
        invariant
            i <= t@.len(),
            v@ == old(v)@ + t@.subrange(0, i as int),
        decreases t.len() - i,
    {
        v.push(t[i]);
        assert(t@.subrange(0, i + 1) == t@.subrange(0, i as int).push(t@[i as int]));
        i = i + 1;
    }
    assert(t@.subrange(0, t@.len() as int) == t@);
}

/// The Anthropic Messages endpoint for a configured base URL.
pub fn anthropic_messages_url(base: &str) -> (r: String)
    ensures
        r@ == messages_url_spec(base@),
{
    let v = crate::text::chars_of(base);
    let t = crate::text::trim_vec(&v);
    if t.len() > 0 && t[t.len() - 1] == '#' {
        let head = crate::text::subvec(&t, 0, t.len() - 1);
        assert(head@ == t@.drop_last());
        let mut u = strip_trailing_vec(&head, '/');
        append_str(&mut u, "/messages");
        crate::text::string_of_all(&u)
    } else {
        let mut u = strip_trailing_vec(&t, '/');
        if crate::text::ends(&u, "/messages") {
        } else if crate::text::ends(&u, "/v1") {
            append_str(&mut u, "/messages");
        } else {
            append_str(&mut u, "/v1/messages");
        }
        crate::text::string_of_all(&u)
    }
}

} // verus!

verus! {

/// The headers of an upstream Anthropic request, as `(name, value)` pairs:
/// the API key both as `x-api-key` and as a bearer token, the API version,
/// the JSON content type, the event-stream headers for a streaming request,
/// and `originator` when one is given that is not blank (trimmed).
pub open spec fn request_headers_spec(api_key: Seq<char>, is_stream: bool, originator: Option<Seq<char>>) -> Seq<
    (Seq<char>, Seq<char>),
> {
    let base = seq![("x-api-key"@, api_key)].push(("anthropic-version"@, ANTHROPIC_VERSION@)).push(
        ("authorization"@, "Bearer "@ + api_key),
    ).push(("content-type"@, "application/json"@));
    let streamed = if is_stream {
        base.push(("accept"@, "text/event-stream"@)).push(("cache-control"@, "no-cache"@))
    } else {
        base
    };
    match originator {
        Some(o) => if crate::text::trim(o).len() > 0 {
            streamed.push(("originator"@, crate::text::trim(o)))
        } else {
            streamed
        },
        None => streamed,
    }
}

fn push_header(hs: &mut Vec<(String, String)>, name: &str, value: String)
    ensures
        crate::update::pair_views(final(hs)@) == crate::update::pair_views(old(hs)@).push((name@, value@)),
{
    let ghost before = crate::update::pair_views(hs@);
    let ghost vv = value@;
    hs.push((name.to_owned(), value));
    assert(crate::update::pair_views(hs@) =~= before.push((name@, vv)));
}

/// The headers of an upstream Anthropic request.
pub fn anthropic_request_headers(api_key: &str, is_stream: bool, originator: Option<&str>) -> (r: Vec<(String, String)>)
    ensures
        crate::update::pair_views(r@) == request_headers_spec(
            api_key@,
            is_stream,
            crate::repair::opt_str_view(originator),
        ),
{
    let mut hs: Vec<(String, String)> = Vec::new();
    assert(crate::update::pair_views(hs@) =~= Seq::<(Seq<char>, Seq<char>)>::empty());
    push_header(&mut hs, "x-api-key", api_key.to_owned());
    push_header(&mut hs, "anthropic-version", ANTHROPIC_VERSION.to_owned());
    let bearer = "Bearer ".to_owned().concat(api_key);
    push_header(&mut hs, "authorization", bearer);
    push_header(&mut hs, "content-type", "application/json".to_owned());
    if is_stream {
        push_header(&mut hs, "accept", "text/event-stream".to_owned());
        push_header(&mut hs, "cache-control", "no-cache".to_owned());
    }
    match originator {
        Some(o) => {
            let t = crate::text::trimmed(o);
            if t.as_str().unicode_len() > 0 {
                push_header(&mut hs, "originator", t);
            }
        },
        None => {},
    }
    hs
}

} // verus!

verus! {

/// The keys of a response object differ from one another.
proof fn lemma_response_keys_distinct()
    ensures
        "id"@ != "status"@,
        "object"@ != "status"@,
        "created_at"@ != "status"@,
        "max_tokens"@ != ""@,
        "model"@ != "id"@ && "model"@ != "object"@ && "model"@ != "created_at"@ && "model"@ != "status"@,
        "incomplete_details"@ != "id"@ && "incomplete_details"@ != "object"@ && "incomplete_details"@ != "created_at"@,
        "incomplete_details"@ != "status"@ && "incomplete_details"@ != "model"@ && "incomplete_details"@ != "output"@ && "incomplete_details"@ != "usage"@,
        "instructions"@ != "id"@ && "instructions"@ != "object"@ && "instructions"@ != "created_at"@,
        "instructions"@ != "status"@ && "instructions"@ != "model"@ && "instructions"@ != "output"@ && "instructions"@ != "usage"@,
        "parallel_tool_calls"@ != "id"@ && "parallel_tool_calls"@ != "object"@ && "parallel_tool_calls"@ != "created_at"@,
        "parallel_tool_calls"@ != "status"@ && "parallel_tool_calls"@ != "model"@ && "parallel_tool_calls"@ != "output"@ && "parallel_tool_calls"@ != "usage"@,
        "store"@ != "id"@ && "store"@ != "object"@ && "store"@ != "created_at"@,
        "store"@ != "status"@ && "store"@ != "model"@ && "store"@ != "output"@ && "store"@ != "usage"@,
        "incomplete_details"@ != "instructions"@,
        "incomplete_details"@ != "parallel_tool_calls"@,
        "incomplete_details"@ != "store"@,
        "instructions"@ != "parallel_tool_calls"@,
        "instructions"@ != "store"@,
        "parallel_tool_calls"@ != "store"@,
{
    reveal_strlit("id");
    reveal_strlit("object");
    reveal_strlit("created_at");
    reveal_strlit("status");
    reveal_strlit("model");
    reveal_strlit("output");
    reveal_strlit("usage");
    reveal_strlit("incomplete_details");
    reveal_strlit("instructions");
    reveal_strlit("parallel_tool_calls");
    reveal_strlit("store");
    reveal_strlit("max_tokens");
    reveal_strlit("");
    assert("id"@.len() == 2);
    assert("object"@.len() == 6);
    assert("created_at"@.len() == 10);
    assert("status"@.len() == 6);
    assert("model"@.len() == 5);
    assert("output"@.len() == 6);
    assert("usage"@.len() == 5);
    assert("incomplete_details"@.len() == 18);
    assert("instructions"@.len() == 12);
    assert("parallel_tool_calls"@.len() == 19);
    assert("store"@.len() == 5);
    assert("max_tokens"@.len() == 10);
    assert(""@.len() == 0);
    assert("object"@[0] != "status"@[0]);
    assert("store"@[0] != "model"@[0]);
    assert("store"@[0] != "usage"@[0]);
}

/// Looks one key up in a response, level by level of its entry list.
proof fn lemma_response_get(
    body: JsonValue,
    request: Option<JsonValue>,
    created_at: u64,
    arguments: Seq<Seq<char>>,
    k: Seq<char>,
)
    requires
        k == "id"@ || k == "model"@ || k == "status"@ || k == "incomplete_details"@ || k == "instructions"@ || k
            == "parallel_tool_calls"@ || k == "store"@,
    ensures
        ({
            let r = response_spec(body, request, created_at, arguments);
            let stop = str_or(get_str(body, "stop_reason"@), ""@);
            &&& k == "id"@ ==> get(r, k) == Some(jstr(response_id_spec(body)))
            &&& k == "model"@ ==> get(r, k) == Some(jstr(str_or(get_str(body, "model"@), ""@)))
            &&& k == "status"@ ==> get(r, k) == Some(
                jstr(
                    if stop == "max_tokens"@ {
                        "incomplete"@
                    } else {
                        "completed"@
                    },
                ),
            )
            &&& k == "incomplete_details"@ ==> (get(r, k) is Some) == (stop == "max_tokens"@)
            &&& (k == "instructions"@ || k == "parallel_tool_calls"@ || k == "store"@) ==> get(r, k)
                == match request {
                Some(q) => get(q, k),
                None => None,
            }
        }),
{
    lemma_response_keys_distinct();
    let rid = response_id_spec(body);
    let stop = str_or(get_str(body, "stop_reason"@), ""@);
    let blocks = content_blocks(body);
    let s1 = seq![("id"@, jstr(rid))];
    let s2 = s1.push(("object"@, jstr("response"@)));
    let s3 = s2.push(("created_at"@, JsonValue::UInt(created_at)));
    let s4 = s3.push(
        (
            "status"@,
            jstr(
                if stop == "max_tokens"@ {
                    "incomplete"@
                } else {
                    "completed"@
                },
            ),
        ),
    );
    let s5 = s4.push(("model"@, jstr(str_or(get_str(body, "model"@), ""@))));
    let s6 = s5.push(
        ("output"@, JsonValue::Array(output_items(blocks, blocks.len() as int, rid, arguments))),
    );
    let e = s6.push(("usage"@, usage_spec(get(body, "usage"@))));
    crate::json::lemma_entries_get_push(Seq::empty(), ("id"@, jstr(rid)), k);
    assert(s1 == Seq::<(Seq<char>, JsonValue)>::empty().push(("id"@, jstr(rid))));
    assert(crate::json::entries_get(Seq::empty(), k) is None);
    crate::json::lemma_entries_get_push(s1, s2.last(), k);
    assert(s2 == s1.push(s2.last()));
    crate::json::lemma_entries_get_push(s2, s3.last(), k);
    assert(s3 == s2.push(s3.last()));
    crate::json::lemma_entries_get_push(s3, s4.last(), k);
    assert(s4 == s3.push(s4.last()));
    crate::json::lemma_entries_get_push(s4, s5.last(), k);
    assert(s5 == s4.push(s5.last()));
    crate::json::lemma_entries_get_push(s5, s6.last(), k);
    assert(s6 == s5.push(s6.last()));
    crate::json::lemma_entries_get_push(s6, e.last(), k);
    assert(e == s6.push(e.last()));
    let e2 = if stop == "max_tokens"@ {
        e.push(("incomplete_details"@, incomplete_details()))
    } else {
        e
    };
    if stop == "max_tokens"@ {
        crate::json::lemma_entries_get_push(e, ("incomplete_details"@, incomplete_details()), k);
    }
    match request {
        Some(q) => {
            let a = opt_entry(e2, "instructions"@, get(q, "instructions"@));
            let b = opt_entry(a, "parallel_tool_calls"@, get(q, "parallel_tool_calls"@));
            let c = opt_entry(b, "store"@, get(q, "store"@));
            match get(q, "instructions"@) {
                Some(v) => crate::json::lemma_entries_get_push(e2, ("instructions"@, v), k),
                None => {},
            }
            match get(q, "parallel_tool_calls"@) {
                Some(v) => crate::json::lemma_entries_get_push(a, ("parallel_tool_calls"@, v), k),
                None => {},
            }
            match get(q, "store"@) {
                Some(v) => crate::json::lemma_entries_get_push(b, ("store"@, v), k),
                None => {},
            }
            assert(response_spec(body, request, created_at, arguments) == jobj(c));
        },
        None => {
            assert(response_spec(body, request, created_at, arguments) == jobj(e2));
        },
    }
}

/// The response to an Anthropic message carries the message's id (or
/// `msg_unknown`) and its model (or the empty string), is `incomplete` with `incomplete_details` exactly when the
/// message stopped at the token limit and `completed` otherwise, and echoes
/// `instructions`, `parallel_tool_calls` and `store` of the original request,
/// where it has them.
pub proof fn law_response_reports_stop_and_echoes_request(
    body: JsonValue,
    request: Option<JsonValue>,
    created_at: u64,
    arguments: Seq<Seq<char>>,
)
    ensures
        ({
            let r = response_spec(body, request, created_at, arguments);
            let at_limit = get_str(body, "stop_reason"@) == Some("max_tokens"@);
            &&& get(r, "id"@) == Some(jstr(str_or(get_str(body, "id"@), "msg_unknown"@)))
            &&& get(r, "model"@) == Some(jstr(str_or(get_str(body, "model"@), ""@)))
            &&& get(r, "status"@) == Some(
                jstr(
                    if at_limit {
                        "incomplete"@
                    } else {
                        "completed"@
                    },
                ),
            )
            &&& (get(r, "incomplete_details"@) is Some) == at_limit
            &&& get(r, "instructions"@) == match request {
                Some(q) => get(q, "instructions"@),
                None => None,
            }
            &&& get(r, "parallel_tool_calls"@) == match request {
                Some(q) => get(q, "parallel_tool_calls"@),
                None => None,
            }
            &&& get(r, "store"@) == match request {
                Some(q) => get(q, "store"@),
                None => None,
            }
        }),
{
    lemma_response_keys_distinct();
    lemma_response_get(body, request, created_at, arguments, "id"@);
    lemma_response_get(body, request, created_at, arguments, "model"@);
    lemma_response_get(body, request, created_at, arguments, "status"@);
    lemma_response_get(body, request, created_at, arguments, "incomplete_details"@);
    lemma_response_get(body, request, created_at, arguments, "instructions"@);
    lemma_response_get(body, request, created_at, arguments, "parallel_tool_calls"@);
    lemma_response_get(body, request, created_at, arguments, "store"@);
}


/// A conversation turn: role `user` or `assistant` and a non-empty array of
/// content blocks.
pub open spec fn is_turn(m: JsonValue) -> bool {
    &&& (get(m, "role"@) == Some(jstr("user"@)) || get(m, "role"@) == Some(jstr("assistant"@)))
    &&& match get(m, "content"@) {
        Some(JsonValue::Array(c)) => c.len() > 0,
        _ => false,
    }
}

pub open spec fn all_turns(ms: Seq<JsonValue>) -> bool {
    forall|i: int| 0 <= i < ms.len() ==> is_turn(#[trigger] ms[i])
}

/// Looking a key up after an optional entry.
proof fn lemma_opt_entry_get(
    es: Seq<(Seq<char>, JsonValue)>,
    k2: Seq<char>,
    o: Option<JsonValue>,
    k: Seq<char>,
)
    ensures
        crate::json::entries_get(opt_entry(es, k2, o), k) == (match crate::json::entries_get(es, k) {
            Some(v) => Some(v),
            None => if k2 == k {
                o
            } else {
                None
            },
        }),
{
    match o {
        Some(v) => crate::json::lemma_entries_get_push(es, (k2, v), k),
        None => {},
    }
}

proof fn lemma_role_message_turn(role: Seq<char>, content: Seq<JsonValue>)
    requires
        role == "user"@ || role == "assistant"@,
        content.len() > 0,
    ensures
        is_turn(role_message(role, content)),
{
    reveal_strlit("role");
    reveal_strlit("content");
    assert("role"@.len() != "content"@.len());
    let s1 = seq![("role"@, jstr(role))];
    crate::json::lemma_entries_get_push(Seq::empty(), ("role"@, jstr(role)), "role"@);
    crate::json::lemma_entries_get_push(Seq::empty(), ("role"@, jstr(role)), "content"@);
    assert(s1 == Seq::<(Seq<char>, JsonValue)>::empty().push(("role"@, jstr(role))));
    crate::json::lemma_entries_get_push(s1, ("content"@, JsonValue::Array(content)), "role"@);
    crate::json::lemma_entries_get_push(s1, ("content"@, JsonValue::Array(content)), "content"@);
}

proof fn lemma_flush_turns(s: ReqState)
    requires
        all_turns(s.messages),
    ensures
        all_turns(flush_user(s).messages),
        all_turns(flush_assistant(s).messages),
        all_turns(flush_user(flush_assistant(s)).messages),
{
    if s.user.len() > 0 {
        lemma_role_message_turn("user"@, s.user);
    }
    if s.assistant.len() > 0 {
        lemma_role_message_turn("assistant"@, s.assistant);
    }
    let a = flush_assistant(s);
    if a.user.len() > 0 {
        lemma_role_message_turn("user"@, a.user);
    }
    assert(all_turns(flush_user(s).messages));
    assert(all_turns(flush_assistant(s).messages));
    assert(all_turns(flush_user(a).messages));
}

proof fn lemma_fold_turns(items: Seq<JsonValue>, n: int, s0: ReqState, args: Seq<Option<JsonValue>>)
    requires
        all_turns(s0.messages),
    ensures
        all_turns(request_fold(items, n, s0, args).messages),
    decreases n,
{
    if n > 0 {
        lemma_fold_turns(items, n - 1, s0, args);
        let s = request_fold(items, n - 1, s0, args);
        lemma_flush_turns(s);
        let m = request_step(s, items[n - 1], args).messages;
        assert(m == s.messages || m == flush_user(s).messages || m == flush_assistant(s).messages);
    }
}

/// The Anthropic request always has at least one message, every message is a
/// `user` or `assistant` turn with a non-empty content array, and its
/// `max_tokens` is the request's `max_output_tokens` when that is an unsigned
/// integer, 32000 otherwise.
pub proof fn law_request_turns_and_max_tokens(body: JsonValue, args: Seq<Option<JsonValue>>)
    ensures
        ({
            let r = anthropic_request_spec(body, args);
            &&& get(r, "messages"@) matches Some(JsonValue::Array(ms)) && ms.len() >= 1 && all_turns(ms)
            &&& get(r, "max_tokens"@) == Some(
                JsonValue::UInt(
                    match get(body, "max_output_tokens"@) {
                        Some(v) => match as_u64(v) {
                            Some(n) => n,
                            None => 32000,
                        },
                        None => 32000,
                    },
                ),
            )
        }),
{
    let items = input_items(body);
    let s0 = ReqState {
        system: instruction_system(body),
        messages: Seq::empty(),
        assistant: Seq::empty(),
        user: Seq::empty(),
        calls: 0,
    };
    lemma_fold_turns(items, items.len() as int, s0, args);
    let s = request_state(body, args);
    lemma_flush_turns(request_fold(items, items.len() as int, s0, args));
    let ms = final_messages(s.messages);
    if s.messages.len() == 0 {
        lemma_role_message_turn("user"@, seq![text_block(""@)]);
    }
    assert(all_turns(ms));
    lemma_request_keys_distinct();
    lemma_request_get(body, args, "messages"@);
    lemma_request_get(body, args, "max_tokens"@);
}

/// The main keys of a request differ from one another.
proof fn lemma_request_keys_distinct()
    ensures
        "system"@ != "messages"@,
        "system"@ != "tools"@,
        "system"@ != "max_tokens"@,
        "messages"@ != "tools"@,
        "messages"@ != "max_tokens"@,
        "tools"@ != "max_tokens"@,
        "thinking"@ != "system"@ && "thinking"@ != "messages"@ && "thinking"@ != "tools"@,
        "thinking"@ != "max_tokens"@,
        "cache_control"@ != "type"@,
        "cache_control"@ != "text"@,
        "cache_control"@ != "name"@,
        "cache_control"@ != "description"@,
        "cache_control"@ != "input_schema"@,
{
    reveal_strlit("system");
    reveal_strlit("messages");
    reveal_strlit("tools");
    reveal_strlit("max_tokens");
    reveal_strlit("cache_control");
    reveal_strlit("type");
    reveal_strlit("text");
    reveal_strlit("name");
    reveal_strlit("description");
    reveal_strlit("input_schema");
    reveal_strlit("thinking");
    assert("thinking"@.len() == 8);
    assert("thinking"@[0] != "messages"@[0]);
    assert("system"@.len() == 6);
    assert("messages"@.len() == 8);
    assert("tools"@.len() == 5);
    assert("max_tokens"@.len() == 10);
    assert("cache_control"@.len() == 13);
    assert("type"@.len() == 4);
    assert("text"@.len() == 4);
    assert("name"@.len() == 4);
    assert("description"@.len() == 11);
    assert("input_schema"@.len() == 12);
}

/// Looks one of the main keys up in a converted request, level by level of
/// its entry list.
proof fn lemma_request_get(body: JsonValue, args: Seq<Option<JsonValue>>, k: Seq<char>)
    requires
        k == "system"@ || k == "messages"@ || k == "tools"@ || k == "max_tokens"@ || k == "thinking"@,
    ensures
        ({
            let s = request_state(body, args);
            let tools = request_tools(body);
            get(anthropic_request_spec(body, args), k) == if k == "system"@ {
                if s.system.len() > 0 {
                    Some(JsonValue::Array(with_cache_last(s.system)))
                } else {
                    None
                }
            } else if k == "messages"@ {
                Some(JsonValue::Array(final_messages(s.messages)))
            } else if k == "tools"@ {
                if tools.len() > 0 {
                    Some(JsonValue::Array(with_cache_last(tools)))
                } else {
                    None
                }
            } else if k == "thinking"@ {
                thinking_spec(body)
            } else {
                Some(max_tokens_value(body))
            }
        }),
{
    reveal_strlit("model");
    reveal_strlit("system");
    reveal_strlit("messages");
    reveal_strlit("tools");
    reveal_strlit("max_tokens");
    reveal_strlit("temperature");
    reveal_strlit("top_p");
    reveal_strlit("stream");
    reveal_strlit("thinking");
    assert("model"@.len() == 5);
    assert("system"@.len() == 6);
    assert("messages"@.len() == 8);
    assert("tools"@.len() == 5);
    assert("max_tokens"@.len() == 10);
    assert("temperature"@.len() == 11);
    assert("top_p"@.len() == 5);
    assert("stream"@.len() == 6);
    assert("thinking"@.len() == 8);
    assert("model"@[0] != "tools"@[0]);
    assert("top_p"@[2] != "tools"@[2]);
    assert("top_p"@[0] != "model"@[0]);
    assert("stream"@[1] != "system"@[1]);
    assert("thinking"@[0] != "messages"@[0]);
    let s = request_state(body, args);
    let ms = final_messages(s.messages);
    let tools = request_tools(body);
    let e0 = opt_entry(Seq::empty(), "model"@, get(body, "model"@));
    let e1 = if s.system.len() > 0 {
        e0.push(("system"@, JsonValue::Array(with_cache_last(s.system))))
    } else {
        e0
    };
    let e2 = e1.push(("messages"@, JsonValue::Array(ms)));
    let e3 = if tools.len() > 0 {
        e2.push(("tools"@, JsonValue::Array(with_cache_last(tools))))
    } else {
        e2
    };
    let e4 = e3.push(("max_tokens"@, max_tokens_value(body)));
    let e5 = opt_entry(e4, "temperature"@, get(body, "temperature"@));
    let e6 = opt_entry(e5, "top_p"@, get(body, "top_p"@));
    let e7 = opt_entry(e6, "stream"@, get(body, "stream"@));
    let e8 = opt_entry(e7, "thinking"@, thinking_spec(body));
    assert(anthropic_request_spec(body, args) == jobj(e8));
    assert(crate::json::entries_get(Seq::empty(), k) is None);
    lemma_opt_entry_get(Seq::empty(), "model"@, get(body, "model"@), k);
    if s.system.len() > 0 {
        crate::json::lemma_entries_get_push(
            e0,
            ("system"@, JsonValue::Array(with_cache_last(s.system))),
            k,
        );
    }
    crate::json::lemma_entries_get_push(e1, ("messages"@, JsonValue::Array(ms)), k);
    if tools.len() > 0 {
        crate::json::lemma_entries_get_push(e2, ("tools"@, JsonValue::Array(with_cache_last(tools))), k);
    }
    crate::json::lemma_entries_get_push(e3, ("max_tokens"@, max_tokens_value(body)), k);
    lemma_opt_entry_get(e4, "temperature"@, get(body, "temperature"@), k);
    lemma_opt_entry_get(e5, "top_p"@, get(body, "top_p"@), k);
    lemma_opt_entry_get(e6, "stream"@, get(body, "stream"@), k);
    lemma_opt_entry_get(e7, "thinking"@, thinking_spec(body), k);
}

/// An object none of whose keys is `cache_control`.
pub open spec fn lacks_cache_mark(b: JsonValue) -> bool {
    match b {
        JsonValue::Object(es) => forall|j: int| 0 <= j < es.len() ==> (#[trigger] es[j]).0 != "cache_control"@,
        _ => false,
    }
}

pub open spec fn all_lack_cache_mark(bs: Seq<JsonValue>) -> bool {
    forall|i: int| 0 <= i < bs.len() ==> lacks_cache_mark(#[trigger] bs[i])
}

/// A list of blocks (when present) in which the last block, and no other,
/// carries `cache_control: {"type": "ephemeral"}`.
pub open spec fn cache_mark_on_last(o: Option<JsonValue>) -> bool {
    match o {
        None => true,
        Some(JsonValue::Array(xs)) => {
            &&& xs.len() > 0
            &&& get(xs.last(), "cache_control"@) == Some(ephemeral())
            &&& forall|i: int| 0 <= i < xs.len() - 1 ==> get(#[trigger] xs[i], "cache_control"@) is None
        },
        Some(_) => false,
    }
}

proof fn lemma_filter_map_lack(xs: Seq<JsonValue>, n: int, f: spec_fn(JsonValue) -> Option<JsonValue>)
    requires
        forall|x: JsonValue| #[trigger] f(x) is Some ==> lacks_cache_mark(f(x)->0),
    ensures
        all_lack_cache_mark(filter_map(xs, n, f)),
    decreases n,
{
    if n > 0 {
        lemma_filter_map_lack(xs, n - 1, f);
        let r = filter_map(xs, n - 1, f);
        let t = filter_map(xs, n, f);
        assert forall|i: int| 0 <= i < t.len() implies lacks_cache_mark(#[trigger] t[i]) by {
            if i < r.len() {
                assert(t[i] == r[i]);
            } else {
                assert(f(xs[n - 1]) is Some);
            }
        }
    }
}

proof fn lemma_text_block_lacks(t: Seq<char>)
    ensures
        lacks_cache_mark(text_block(t)),
{
    lemma_request_keys_distinct();
    let es = seq![("type"@, jstr("text"@))].push(("text"@, jstr(t)));
    assert forall|j: int| 0 <= j < es.len() implies (#[trigger] es[j]).0 != "cache_control"@ by {
        if j == 0 {
            assert(es[0].0 == "type"@);
        } else {
            assert(es[1].0 == "text"@);
        }
    }
}

proof fn lemma_parts_lack()
    ensures
        forall|x: JsonValue| #[trigger] system_part_fn()(x) is Some ==> lacks_cache_mark(
            system_part_fn()(x)->0,
        ),
        forall|x: JsonValue| #[trigger] tool_fn()(x) is Some ==> lacks_cache_mark(tool_fn()(x)->0),
{
    lemma_request_keys_distinct();
    assert forall|x: JsonValue| #[trigger] system_part_fn()(x) is Some implies lacks_cache_mark(
        system_part_fn()(x)->0,
    ) by {
        lemma_text_block_lacks(get_str(x, "text"@)->0);
    }
    assert forall|x: JsonValue| #[trigger] tool_fn()(x) is Some implies lacks_cache_mark(
        tool_fn()(x)->0,
    ) by {
        let es = (tool_fn()(x)->0)->Object_0;
        assert forall|j: int| 0 <= j < es.len() implies (#[trigger] es[j]).0 != "cache_control"@ by {
            if j == 0 {
                assert(es[0].0 == "name"@);
            } else if j == 1 {
                assert(es[1].0 == "description"@);
            } else {
                assert(es[2].0 == "input_schema"@);
            }
        }
    }
}

proof fn lemma_fold_system_lacks(
    items: Seq<JsonValue>,
    n: int,
    s0: ReqState,
    args: Seq<Option<JsonValue>>,
)
    requires
        all_lack_cache_mark(s0.system),
    ensures
        all_lack_cache_mark(request_fold(items, n, s0, args).system),
    decreases n,
{
    if n > 0 {
        lemma_fold_system_lacks(items, n - 1, s0, args);
        lemma_parts_lack();
        let s = request_fold(items, n - 1, s0, args);
        let item = items[n - 1];
        let parts = message_parts(item);
        let added = filter_map(parts, parts.len() as int, system_part_fn());
        lemma_filter_map_lack(parts, parts.len() as int, system_part_fn());
        let sys = request_step(s, item, args).system;
        assert(sys == s.system || sys == s.system + added);
        assert forall|i: int| 0 <= i < sys.len() implies lacks_cache_mark(#[trigger] sys[i]) by {
            if i < s.system.len() {
                assert(sys[i] == s.system[i]);
            } else {
                assert(sys[i] == added[i - s.system.len()]);
            }
        }
    }
}

proof fn lemma_cache_last_marked(bs: Seq<JsonValue>)
    requires
        bs.len() > 0,
        all_lack_cache_mark(bs),
    ensures
        cache_mark_on_last(Some(JsonValue::Array(with_cache_last(bs)))),
{
    let xs = with_cache_last(bs);
    let last = bs.last();
    assert(lacks_cache_mark(bs[bs.len() - 1]));
    let es = last->Object_0;
    crate::json::lemma_entries_set_get(es, "cache_control"@, ephemeral(), "cache_control"@);
    assert(xs.last() == set_field(last, "cache_control"@, ephemeral()));
    assert forall|i: int| 0 <= i < xs.len() - 1 implies get(#[trigger] xs[i], "cache_control"@) is None by {
        assert(xs[i] == bs[i]);
        assert(lacks_cache_mark(bs[i]));
        crate::json::lemma_entries_absent(bs[i]->Object_0, "cache_control"@);
    }
}

/// In the Anthropic request the system blocks and the tools, where there are
/// any, carry `cache_control: {"type": "ephemeral"}` on their last element
/// and on no other.
pub proof fn law_cache_mark_on_last_block_only(body: JsonValue, args: Seq<Option<JsonValue>>)
    ensures
        cache_mark_on_last(get(anthropic_request_spec(body, args), "system"@)),
        cache_mark_on_last(get(anthropic_request_spec(body, args), "tools"@)),
{
    lemma_request_keys_distinct();
    lemma_request_get(body, args, "system"@);
    lemma_request_get(body, args, "tools"@);
    lemma_parts_lack();
    let items = input_items(body);
    let s0 = ReqState {
        system: instruction_system(body),
        messages: Seq::empty(),
        assistant: Seq::empty(),
        user: Seq::empty(),
        calls: 0,
    };
    match get(body, "instructions"@) {
        Some(v) => {
            lemma_text_block_lacks(instruction_text_spec(v));
        },
        None => {},
    }
    assert(all_lack_cache_mark(s0.system));
    lemma_fold_system_lacks(items, items.len() as int, s0, args);
    let s = request_state(body, args);
    let f = request_fold(items, items.len() as int, s0, args);
    assert(s.system == f.system);
    if s.system.len() > 0 {
        lemma_cache_last_marked(s.system);
    }
    let tools = request_tools(body);
    match get(body, "tools"@) {
        Some(v) => match as_array(v) {
            Some(a) => lemma_filter_map_lack(a, a.len() as int, tool_fn()),
            None => {},
        },
        None => {},
    }
    if tools.len() > 0 {
        lemma_cache_last_marked(tools);
    }
}

/// A content block that gives an output item: thinking, text or a tool call.
pub open spec fn gives_output(b: JsonValue) -> bool {
    get_str(b, "type"@) == Some("thinking"@) || get_str(b, "type"@) == Some("text"@) || get_str(
        b,
        "type"@,
    ) == Some("tool_use"@)
}

pub open spec fn is_tool_call(b: JsonValue) -> bool {
    get_str(b, "type"@) == Some("tool_use"@)
}

/// The output item of a block that gives one; `k` counts the tool calls
/// before it.
pub open spec fn output_item_of(b: JsonValue, rid: Seq<char>, arguments: Seq<Seq<char>>, k: int) -> JsonValue {
    if get_str(b, "type"@) == Some("thinking"@) {
        reasoning_item(b, rid)
    } else if get_str(b, "type"@) == Some("text"@) {
        message_item(b, rid)
    } else {
        function_call_item(b, rid, arguments[k])
    }
}

proof fn lemma_tool_count(blocks: Seq<JsonValue>, m: int)
    requires
        0 <= m <= blocks.len(),
    ensures
        tool_inputs_spec(blocks, m).len() == blocks.take(m).filter(|b: JsonValue| gives_output(b)).filter(
            |b: JsonValue| is_tool_call(b),
        ).len(),
    decreases m,
{
    let p = |b: JsonValue| gives_output(b);
    let q = |b: JsonValue| is_tool_call(b);
    reveal(Seq::filter);
    if m == 0 {
        assert(blocks.take(0) =~= Seq::<JsonValue>::empty());
    } else {
        lemma_tool_count(blocks, m - 1);
        assert(blocks.take(m).drop_last() =~= blocks.take(m - 1));
        let prev = blocks.take(m - 1).filter(p);
        if p(blocks[m - 1]) {
            assert(prev.push(blocks[m - 1]).drop_last() =~= prev);
        }
    }
}

/// The output of a message maps its content blocks in order: one item for
/// each thinking, text or tool call block and none for any other, a
/// thinking block to a reasoning item, a text block to a message item and
/// the `k`-th tool call to a function call whose arguments are
/// `arguments[k]`.
pub proof fn law_output_maps_blocks_in_order(
    blocks: Seq<JsonValue>,
    n: int,
    rid: Seq<char>,
    arguments: Seq<Seq<char>>,
)
    requires
        0 <= n <= blocks.len(),
    ensures
        ({
            let out = output_items(blocks, n, rid, arguments);
            let mapped = blocks.take(n).filter(|b: JsonValue| gives_output(b));
            &&& out.len() == mapped.len()
            &&& forall|i: int|
                0 <= i < out.len() ==> #[trigger] out[i] == output_item_of(
                    mapped[i],
                    rid,
                    arguments,
                    mapped.take(i).filter(|b: JsonValue| is_tool_call(b)).len() as int,
                )
        }),
    decreases n,
{
    let p = |b: JsonValue| gives_output(b);
    let q = |b: JsonValue| is_tool_call(b);
    lemma_block_kinds();
    reveal(Seq::filter);
    if n == 0 {
        assert(blocks.take(0) =~= Seq::<JsonValue>::empty());
    } else {
        law_output_maps_blocks_in_order(blocks, n - 1, rid, arguments);
        lemma_tool_count(blocks, n - 1);
        assert(blocks.take(n).drop_last() =~= blocks.take(n - 1));
        let prev = blocks.take(n - 1).filter(p);
        let mapped = blocks.take(n).filter(p);
        let out = output_items(blocks, n, rid, arguments);
        let pout = output_items(blocks, n - 1, rid, arguments);
        let b = blocks[n - 1];
        if p(b) {
            assert(mapped == prev.push(b));
            assert forall|i: int| 0 <= i < out.len() implies #[trigger] out[i] == output_item_of(
                mapped[i],
                rid,
                arguments,
                mapped.take(i).filter(q).len() as int,
            ) by {
                if i < pout.len() {
                    assert(mapped.take(i) =~= prev.take(i));
                    assert(out[i] == pout[i]);
                } else {
                    assert(mapped.take(i) =~= prev);
                }
            }
        } else {
            assert(mapped == prev);
            assert(out == pout);
        }
    }
}

/// The usage of a response counts cache reads and cache writes towards the
/// input tokens, and the total is input plus output.
pub proof fn law_usage_adds_cache_tokens(u: JsonValue)
    requires
        usage_fits(Some(u)),
    ensures
        ({
            let r = usage_spec(Some(u));
            let input = usage_num(u, "input_tokens"@) + usage_num(u, "cache_read_input_tokens"@)
                + usage_num(u, "cache_creation_input_tokens"@);
            &&& get(r, "input_tokens"@) == Some(JsonValue::UInt(input as u64))
            &&& get(r, "output_tokens"@) == Some(JsonValue::UInt(usage_num(u, "output_tokens"@)))
            &&& get(r, "total_tokens"@) == Some(
                JsonValue::UInt((input + usage_num(u, "output_tokens"@)) as u64),
            )
        }),
{
    reveal_strlit("input_tokens");
    reveal_strlit("output_tokens");
    reveal_strlit("total_tokens");
    assert("input_tokens"@.len() == 12);
    assert("output_tokens"@.len() == 13);
    assert("total_tokens"@.len() == 12);
    assert("input_tokens"@[0] != "total_tokens"@[0]);
    let r = usage_spec(Some(u));
    let es = r->Object_0;
    crate::json::lemma_entries_find_unique(es, "input_tokens"@, 0);
    crate::json::lemma_entries_find_unique(es, "output_tokens"@, 1);
    crate::json::lemma_entries_find_unique(es, "total_tokens"@, 2);
}

/// `{"type": "enabled", "budget_tokens": budget}`.
pub open spec fn enabled_thinking(budget: u64) -> JsonValue {
    jobj(seq![("type"@, jstr("enabled"@))].push(("budget_tokens"@, JsonValue::UInt(budget))))
}

/// Extended thinking follows the requested reasoning effort: a request with
/// no effort, or effort `none` or `minimal`, asks for no thinking; effort
/// `low`, `medium`, `high` and `xhigh` enable it with a budget of 2048, 8192,
/// 16384 and 32768 tokens.
pub proof fn law_thinking_follows_effort(body: JsonValue, args: Seq<Option<JsonValue>>)
    ensures
        ({
            let r = anthropic_request_spec(body, args);
            let effort = match get(body, "reasoning"@) {
                Some(x) => get_str(x, "effort"@),
                None => None,
            };
            &&& effort is None ==> get(r, "thinking"@) is None
            &&& effort == Some("none"@) ==> get(r, "thinking"@) is None
            &&& effort == Some("minimal"@) ==> get(r, "thinking"@) is None
            &&& effort == Some("low"@) ==> get(r, "thinking"@) == Some(enabled_thinking(2048))
            &&& effort == Some("medium"@) ==> get(r, "thinking"@) == Some(enabled_thinking(8192))
            &&& effort == Some("high"@) ==> get(r, "thinking"@) == Some(enabled_thinking(16384))
            &&& effort == Some("xhigh"@) ==> get(r, "thinking"@) == Some(enabled_thinking(32768))
        }),
{
    lemma_request_keys_distinct();
    lemma_request_get(body, args, "thinking"@);
    reveal_strlit("none");
    reveal_strlit("minimal");
    reveal_strlit("low");
    reveal_strlit("medium");
    reveal_strlit("high");
    reveal_strlit("xhigh");
    assert("none"@.len() == 4);
    assert("minimal"@.len() == 7);
    assert("low"@.len() == 3);
    assert("medium"@.len() == 6);
    assert("high"@.len() == 4);
    assert("xhigh"@.len() == 5);
    assert("none"@[0] != "high"@[0]);
}

} // verus!
