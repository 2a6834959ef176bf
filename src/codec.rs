use crate::message::{is_number_text, MessageView, Number, WsMessage};
use vstd::prelude::*;

verus! {

/// One member value of a parsed JSON object, as far as the wire schema reads
/// it: a string, a number (as its text), or any other JSON value.
#[derive(Debug, PartialEq, Clone)]
pub enum JsonField {
    Text(String),
    Number(String),
    Other,
}

pub enum FieldView {
    Text(Seq<char>),
    Number(Seq<char>),
    Other,
}

impl View for JsonField {
    type V = FieldView;

    open spec fn view(&self) -> FieldView {
        match self {
            JsonField::Text(s) => FieldView::Text(s@),
            JsonField::Number(s) => FieldView::Number(s@),
            JsonField::Other => FieldView::Other,
        }
    }
}

/// Why wire text did not decode to a message.
#[derive(Debug, PartialEq, Eq, Clone, Copy)]
pub enum DecodeError {
    /// The text is not one JSON object.
    Malformed,
    /// A JSON object whose `"type"` is missing, not a string, or names no
    /// known message kind.
    UnknownType,
    /// A known message kind whose fields are missing or of the wrong kind.
    InvalidFields,
}

/// The members of an object as (key, value) pairs.
pub type Fields = Seq<(Seq<char>, FieldView)>;

pub open spec fn fields_view(v: Seq<(String, JsonField)>) -> Fields {
    v.map_values(|p: (String, JsonField)| (p.0@, p.1@))
}

/// The members of the one JSON object that `text` holds, in the order the
/// parser hands them out, or `None` if `text` is not one JSON object.
pub uninterp spec fn json_object_fields(text: Seq<char>) -> Option<Fields>;

/// How one character is written inside a JSON string literal: `"` and `\`
/// behind a backslash, the control characters below U+0020 as `\b`, `\t`,
/// `\n`, `\f`, `\r` or `\u00` and two lower-case hex digits, any other
/// character as itself.
pub open spec fn escape_char(c: char) -> Seq<char> {
    if c == '"' {
        "\\\""@
    } else if c == '\\' {
        "\\\\"@
    } else if c == '\x08' {
        "\\b"@
    } else if c == '\t' {
        "\\t"@
    } else if c == '\n' {
        "\\n"@
    } else if c == '\x0C' {
        "\\f"@
    } else if c == '\r' {
        "\\r"@
    } else if (c as u32) < 0x20 {
        "\\u00"@ + seq![
            "0123456789abcdef"@[(c as u32) as int / 16],
            "0123456789abcdef"@[(c as u32) as int % 16],
        ]
    } else {
        seq![c]
    }
}

pub open spec fn escaped(s: Seq<char>) -> Seq<char>
    decreases s.len(),
{
    if s.len() == 0 {
        Seq::empty()
    } else {
        escaped(s.drop_last()) + escape_char(s.last())
    }
}

/// The JSON string literal that stands for `s`, quotes and escapes included.
#[verifier::opaque]
pub open spec fn json_quoted(s: Seq<char>) -> Seq<char> {
    "\""@ + escaped(s) + "\""@
}

pub open spec fn parsed_view(r: Option<Vec<(String, JsonField)>>) -> Option<Fields> {
    match r {
        Some(v) => Some(fields_view(v@)),
        None => None,
    }
}

/// Relies on `serde_json::from_str` into a `serde_json::Map`: it parses the
/// text as one JSON object; its members are handed out, sorted by key, with
/// string values and, for numbers, the text that the `arbitrary_precision`
/// feature keeps of them (the digits as written, the exponent normalised).
#[verifier::external_body]
fn parse_object(text: &str) -> (r: Option<Vec<(String, JsonField)>>)
    ensures
        parsed_view(r) == json_object_fields(text@),
{
    let map = serde_json::from_str::<serde_json::Map<String, serde_json::Value>>(text).ok()?;
    Some(map.into_iter().map(|(k, v)| match v {
        serde_json::Value::String(s) => (k, JsonField::Text(s)),
        serde_json::Value::Number(n) => (k, JsonField::Number(n.to_string())),
        _ => (k, JsonField::Other),
    }).collect())
}

/// Relies on `serde_json::to_string` on a `str`: it writes the string as a
/// JSON string literal, escaping by the table `ESCAPE` of its serializer, and
/// never fails.
#[verifier::external_body]
fn quote(s: &str) -> (r: String)
    ensures
        r@ == json_quoted(s@),
{
    serde_json::to_string(s).unwrap_or_default()
}

/// The value of the first member named `key`.
pub open spec fn find_field(fs: Fields, key: Seq<char>) -> Option<FieldView>
    decreases fs.len(),
{
    if fs.len() == 0 {
        None
    } else if fs[0].0 == key {
        Some(fs[0].1)
    } else {
        find_field(fs.drop_first(), key)
    }
}

pub open spec fn text_field(fs: Fields, key: Seq<char>) -> Option<Seq<char>> {
    match find_field(fs, key) {
        Some(FieldView::Text(s)) => Some(s),
        _ => None,
    }
}

pub open spec fn number_field(fs: Fields, key: Seq<char>) -> Option<Seq<char>> {
    match find_field(fs, key) {
        Some(FieldView::Number(s)) => if is_number_text(s) {
            Some(s)
        } else {
            None
        },
        _ => None,
    }
}

/// The message that the members of an object stand for, by its `"type"`.
/// Members the kind does not name are ignored.
pub open spec fn decode_fields_spec(fs: Fields) -> Result<MessageView, DecodeError> {
    match text_field(fs, "type"@) {
        Some(t) => if t == "calculation"@ {
            match (text_field(fs, "operation"@), number_field(fs, "result"@), text_field(fs, "timestamp"@)) {
                (Some(o), Some(r), Some(ts)) => Ok(
                    MessageView::Calculation { operation: o, result: r, timestamp: ts },
                ),
                _ => Err(DecodeError::InvalidFields),
            }
        } else if t == "chat"@ {
            match (text_field(fs, "user"@), text_field(fs, "message"@), text_field(fs, "timestamp"@)) {
                (Some(u), Some(m), Some(ts)) => Ok(
                    MessageView::Chat { user: u, message: m, timestamp: ts },
                ),
                _ => Err(DecodeError::InvalidFields),
            }
        } else if t == "system"@ {
            match (text_field(fs, "message"@), text_field(fs, "timestamp"@)) {
                (Some(m), Some(ts)) => Ok(MessageView::System { message: m, timestamp: ts }),
                _ => Err(DecodeError::InvalidFields),
            }
        } else if t == "ping"@ {
            Ok(MessageView::Ping)
        } else if t == "pong"@ {
            Ok(MessageView::Pong)
        } else {
            Err(DecodeError::UnknownType)
        },
        None => Err(DecodeError::UnknownType),
    }
}

/// What wire text decodes to.
pub open spec fn decode_spec(text: Seq<char>) -> Result<MessageView, DecodeError> {
    match json_object_fields(text) {
        Some(fs) => decode_fields_spec(fs),
        None => Err(DecodeError::Malformed),
    }
}

pub open spec fn result_view(r: Result<WsMessage, DecodeError>) -> Result<MessageView, DecodeError> {
    match r {
        Ok(m) => Ok(m@),
        Err(e) => Err(e),
    }
}

/// `"key":` followed by the value text.
pub open spec fn member(key: Seq<char>, value: Seq<char>) -> Seq<char> {
    json_quoted(key) + ":"@ + value
}

pub open spec fn type_member(tag: Seq<char>) -> Seq<char> {
    member("type"@, json_quoted(tag))
}

/// The canonical wire text of a message: an object whose `"type"` comes
/// first, then the fields in their declared order.
pub open spec fn encode_spec(m: MessageView) -> Seq<char> {
    match m {
        MessageView::Calculation { operation, result, timestamp } => "{"@ + type_member(
            "calculation"@,
        ) + ","@ + member("operation"@, json_quoted(operation)) + ","@ + member("result"@, result)
            + ","@ + member("timestamp"@, json_quoted(timestamp)) + "}"@,
        MessageView::Chat { user, message, timestamp } => "{"@ + type_member("chat"@) + ","@
            + member("user"@, json_quoted(user)) + ","@ + member("message"@, json_quoted(message))
            + ","@ + member("timestamp"@, json_quoted(timestamp)) + "}"@,
        MessageView::System { message, timestamp } => "{"@ + type_member("system"@) + ","@
            + member("message"@, json_quoted(message)) + ","@ + member(
            "timestamp"@,
            json_quoted(timestamp),
        ) + "}"@,
        MessageView::Ping => "{"@ + type_member("ping"@) + "}"@,
        MessageView::Pong => "{"@ + type_member("pong"@) + "}"@,
    }
}

/// The members of the canonical wire object of a message, in order.
pub open spec fn encoded_fields(m: MessageView) -> Fields {
    match m {
        MessageView::Calculation { operation, result, timestamp } => seq![
            ("type"@, FieldView::Text("calculation"@)),
            ("operation"@, FieldView::Text(operation)),
            ("result"@, FieldView::Number(result)),
            ("timestamp"@, FieldView::Text(timestamp)),
        ],
        MessageView::Chat { user, message, timestamp } => seq![
            ("type"@, FieldView::Text("chat"@)),
            ("user"@, FieldView::Text(user)),
            ("message"@, FieldView::Text(message)),
            ("timestamp"@, FieldView::Text(timestamp)),
        ],
        MessageView::System { message, timestamp } => seq![
            ("type"@, FieldView::Text("system"@)),
            ("message"@, FieldView::Text(message)),
            ("timestamp"@, FieldView::Text(timestamp)),
        ],
        MessageView::Ping => seq![("type"@, FieldView::Text("ping"@))],
        MessageView::Pong => seq![("type"@, FieldView::Text("pong"@))],
    }
}

/// The JSON text of one member value (a value of another kind is written as
/// `null`).
pub open spec fn value_text(v: FieldView) -> Seq<char> {
    match v {
        FieldView::Text(s) => json_quoted(s),
        FieldView::Number(s) => s,
        FieldView::Other => "null"@,
    }
}

/// The members joined by commas.
pub open spec fn members_text(fs: Fields) -> Seq<char>
    decreases fs.len(),
{
    if fs.len() == 0 {
        Seq::empty()
    } else if fs.len() == 1 {
        member(fs[0].0, value_text(fs[0].1))
    } else {
        member(fs[0].0, value_text(fs[0].1)) + ","@ + members_text(fs.drop_first())
    }
}

/// The compact text of a JSON object with the members `fs`, in order.
pub open spec fn object_text(fs: Fields) -> Seq<char> {
    "{"@ + members_text(fs) + "}"@
}

/// The wire text of a message is the compact object text of its members, and
/// those members decode back to the message. What is left between the two is
/// the JSON parser reading an object's text back to its members: it hands
/// them out sorted by key, which `lemma_decode_encoded_members_any_order`
/// covers, and a number's text comes back unchanged because a `Number` holds
/// only the canonical form the parser itself writes.
pub proof fn lemma_codec_round_trip(m: MessageView)
    requires
        message_wf(m),
    ensures
        encode_spec(m) == object_text(encoded_fields(m)),
        decode_fields_spec(encoded_fields(m)) == Ok::<MessageView, DecodeError>(m),
{
    lemma_decode_encoded_fields(m);
    let fs = encoded_fields(m);
    reveal_with_fuel(members_text, 4);
    if fs.len() > 1 {
        assert(fs.drop_first()[0] == fs[1]);
    }
    if fs.len() > 2 {
        assert(fs.drop_first().drop_first()[0] == fs[2]);
        assert(fs.drop_first().drop_first().len() == fs.len() - 2);
    }
    if fs.len() > 3 {
        assert(fs.drop_first().drop_first().drop_first()[0] == fs[3]);
        assert(fs.drop_first().drop_first().drop_first().len() == 1);
    }
    assert(encode_spec(m) =~= object_text(fs));
}

/// No two members share a key.
pub open spec fn keys_distinct(fs: Fields) -> bool {
    forall|i: int, j: int| 0 <= i < j < fs.len() ==> (#[trigger] fs[i]).0 != (#[trigger] fs[j]).0
}

/// `fs` and `gs` hold the same members, in any order.
pub open spec fn same_members(fs: Fields, gs: Fields) -> bool {
    forall|p: (Seq<char>, FieldView)| fs.contains(p) <==> gs.contains(p)
}

/// With distinct keys, the member found under a key is the one that has it.
proof fn lemma_find_field_distinct(fs: Fields, k: Seq<char>)
    requires
        keys_distinct(fs),
    ensures
        forall|i: int| 0 <= i < fs.len() && (#[trigger] fs[i]).0 == k ==> find_field(fs, k) == Some(fs[i].1),
        (forall|i: int| 0 <= i < fs.len() ==> (#[trigger] fs[i]).0 != k) ==> find_field(fs, k) is None,
    decreases fs.len(),
{
    if fs.len() > 0 {
        let rest = fs.drop_first();
        assert(keys_distinct(rest)) by {
            assert forall|i: int, j: int| 0 <= i < j < rest.len() implies (#[trigger] rest[i]).0 != (
            #[trigger] rest[j]).0 by {
                assert(rest[i] == fs[i + 1] && rest[j] == fs[j + 1]);
            }
        }
        lemma_find_field_distinct(rest, k);
        assert forall|i: int| 0 <= i < fs.len() && (#[trigger] fs[i]).0 == k implies find_field(fs, k) == Some(
            fs[i].1,
        ) by {
            if i > 0 {
                assert(fs[0].0 != fs[i].0);
                assert(rest[i - 1] == fs[i]);
            }
        }
        if forall|i: int| 0 <= i < fs.len() ==> (#[trigger] fs[i]).0 != k {
            assert(fs[0].0 != k);
            assert forall|i: int| 0 <= i < rest.len() implies (#[trigger] rest[i]).0 != k by {
                assert(rest[i] == fs[i + 1]);
            }
        }
    }
}

/// With distinct keys, the order of the members does not change what they
/// decode to.
pub proof fn lemma_decode_fields_ignores_order(fs: Fields, gs: Fields)
    requires
        keys_distinct(fs),
        keys_distinct(gs),
        same_members(fs, gs),
    ensures
        decode_fields_spec(fs) == decode_fields_spec(gs),
{
    assert forall|k: Seq<char>| find_field(fs, k) == find_field(gs, k) by {
        lemma_find_field_distinct(fs, k);
        lemma_find_field_distinct(gs, k);
        if exists|i: int| 0 <= i < fs.len() && (#[trigger] fs[i]).0 == k {
            let i = choose|i: int| 0 <= i < fs.len() && (#[trigger] fs[i]).0 == k;
            assert(fs.contains(fs[i]));
            assert(gs.contains(fs[i]));
            let j = choose|j: int| 0 <= j < gs.len() && gs[j] == fs[i];
            assert(gs[j].0 == k);
        } else if exists|j: int| 0 <= j < gs.len() && (#[trigger] gs[j]).0 == k {
            let j = choose|j: int| 0 <= j < gs.len() && (#[trigger] gs[j]).0 == k;
            assert(gs.contains(gs[j]));
            assert(fs.contains(gs[j]));
            let i = choose|i: int| 0 <= i < fs.len() && fs[i] == gs[j];
            assert(fs[i].0 == k);
        }
    }
    assert(find_field(fs, "type"@) == find_field(gs, "type"@));
    assert(find_field(fs, "operation"@) == find_field(gs, "operation"@));
    assert(find_field(fs, "result"@) == find_field(gs, "result"@));
    assert(find_field(fs, "timestamp"@) == find_field(gs, "timestamp"@));
    assert(find_field(fs, "user"@) == find_field(gs, "user"@));
    assert(find_field(fs, "message"@) == find_field(gs, "message"@));
}

/// Whatever order the parser hands out the members of a message's wire object
/// in, they decode back to that message.
pub proof fn lemma_decode_encoded_members_any_order(m: MessageView, gs: Fields)
    requires
        message_wf(m),
        keys_distinct(gs),
        same_members(encoded_fields(m), gs),
    ensures
        decode_fields_spec(gs) == Ok::<MessageView, DecodeError>(m),
{
    lemma_decode_encoded_fields(m);
    lemma_literals_differ();
    let fs = encoded_fields(m);
    assert(keys_distinct(fs));
    lemma_decode_fields_ignores_order(fs, gs);
}

/// A message value that a `WsMessage` can hold: a calculation's result is
/// the text of a JSON number.
pub open spec fn message_wf(m: MessageView) -> bool {
    match m {
        MessageView::Calculation { result, .. } => is_number_text(result),
        _ => true,
    }
}

/// The member names and type tags of the wire schema differ from each other.
proof fn lemma_literals_differ()
    ensures
        "type"@ != "operation"@ && "type"@ != "result"@ && "type"@ != "timestamp"@,
        "type"@ != "user"@ && "type"@ != "message"@,
        "operation"@ != "result"@ && "operation"@ != "timestamp"@ && "result"@ != "timestamp"@,
        "user"@ != "message"@ && "user"@ != "timestamp"@ && "message"@ != "timestamp"@,
        "calculation"@ != "chat"@ && "calculation"@ != "system"@ && "chat"@ != "system"@,
        "ping"@ != "calculation"@ && "ping"@ != "chat"@ && "ping"@ != "system"@,
        "pong"@ != "calculation"@ && "pong"@ != "chat"@ && "pong"@ != "system"@ && "pong"@ != "ping"@,
{
    reveal_strlit("type");
    reveal_strlit("calculation");
    reveal_strlit("chat");
    reveal_strlit("system");
    reveal_strlit("ping");
    reveal_strlit("pong");
    reveal_strlit("operation");
    reveal_strlit("result");
    reveal_strlit("timestamp");
    reveal_strlit("user");
    reveal_strlit("message");
    assert("type"@.len() != "operation"@.len() && "type"@.len() != "result"@.len());
    assert("type"@.len() != "timestamp"@.len() && "type"@.len() != "message"@.len());
    assert("type"@[0] != "user"@[0]);
    assert("operation"@.len() != "result"@.len() && "result"@.len() != "timestamp"@.len());
    assert("operation"@[0] != "timestamp"@[0]);
    assert("user"@.len() != "message"@.len() && "user"@.len() != "timestamp"@.len());
    assert("message"@.len() != "timestamp"@.len());
    assert("calculation"@.len() != "chat"@.len() && "calculation"@.len() != "system"@.len());
    assert("chat"@.len() != "system"@.len() && "ping"@.len() != "calculation"@.len());
    assert("ping"@.len() != "system"@.len() && "pong"@.len() != "calculation"@.len());
    assert("pong"@.len() != "system"@.len());
    assert("ping"@[0] != "chat"@[0] && "pong"@[0] != "chat"@[0] && "pong"@[1] != "ping"@[1]);
}

/// Decoding the members of a message's canonical wire object gives that
/// message back, for every kind of message.
proof fn lemma_decode_encoded_fields(m: MessageView)
    requires
        message_wf(m),
    ensures
        decode_fields_spec(encoded_fields(m)) == Ok::<MessageView, DecodeError>(m),
{
    reveal_strlit("type");
    reveal_strlit("calculation");
    reveal_strlit("chat");
    reveal_strlit("system");
    reveal_strlit("ping");
    reveal_strlit("pong");
    reveal_strlit("operation");
    reveal_strlit("result");
    reveal_strlit("timestamp");
    reveal_strlit("user");
    reveal_strlit("message");
    let fs = encoded_fields(m);
    lemma_literals_differ();
    reveal_with_fuel(find_field, 5);
    if fs.len() > 1 {
        assert(fs.drop_first()[0] == fs[1]);
    }
    if fs.len() > 2 {
        assert(fs.drop_first().drop_first()[0] == fs[2]);
    }
    if fs.len() > 3 {
        assert(fs.drop_first().drop_first().drop_first()[0] == fs[3]);
    }
}

fn str_eq(a: &str, b: &str) -> (r: bool)
    ensures
        r == (a@ == b@),
{
    a.to_owned() == b.to_owned()
}

/// The value of the first member named `key`.
fn get_field<'a>(fields: &'a Vec<(String, JsonField)>, key: &str) -> (r: Option<&'a JsonField>)
    ensures
        find_field(fields_view(fields@), key@) == (match r {
            Some(f) => Some(f@),
            None => None::<FieldView>,
        }),
{
    let ghost fs = fields_view(fields@);
    let n = fields.len();
    let mut i: usize = 0;
    assert(fs.subrange(0, n as int) =~= fs);
    while i < n
        invariant
            n == fields@.len(),
            fs == fields_view(fields@),
            i <= n,
            find_field(fs, key@) == find_field(fs.subrange(i as int, n as int), key@),
        decreases n - i,
    {
        let ghost rest = fs.subrange(i as int, n as int);
        assert(rest.drop_first() =~= fs.subrange(i + 1, n as int));
        if str_eq(fields[i].0.as_str(), key) {
            return Some(&fields[i].1);
        }
        i = i + 1;
    }
    None
}

fn get_text<'a>(fields: &'a Vec<(String, JsonField)>, key: &str) -> (r: Option<&'a String>)
    ensures
        text_field(fields_view(fields@), key@) == (match r {
            Some(s) => Some(s@),
            None => None::<Seq<char>>,
        }),
{
    match get_field(fields, key) {
        Some(JsonField::Text(s)) => Some(s),
        _ => None,
    }
}

fn get_number(fields: &Vec<(String, JsonField)>, key: &str) -> (r: Option<Number>)
    ensures
        number_field(fields_view(fields@), key@) == (match r {
            Some(n) => Some(n@),
            None => None::<Seq<char>>,
        }),
{
    match get_field(fields, key) {
        Some(JsonField::Number(s)) => Number::parse(s.as_str()),
        _ => None,
    }
}

/// The message that the members of a parsed object stand for.
pub fn decode_fields(fields: &Vec<(String, JsonField)>) -> (r: Result<WsMessage, DecodeError>)
    ensures
        result_view(r) == decode_fields_spec(fields_view(fields@)),
{
    proof {
        reveal_strlit("type");
        reveal_strlit("calculation");
        reveal_strlit("chat");
        reveal_strlit("system");
        reveal_strlit("ping");
        reveal_strlit("pong");
    }
    let tag = match get_text(fields, "type") {
        Some(t) => t.as_str(),
        None => {
            return Err(DecodeError::UnknownType);
        },
    };
    if str_eq(tag, "calculation") {
        match (get_text(fields, "operation"), get_number(fields, "result"), get_text(fields, "timestamp")) {
            (Some(o), Some(r), Some(ts)) => Ok(
                WsMessage::Calculation { operation: o.clone(), result: r, timestamp: ts.clone() },
            ),
            _ => Err(DecodeError::InvalidFields),
        }
    } else if str_eq(tag, "chat") {
        match (get_text(fields, "user"), get_text(fields, "message"), get_text(fields, "timestamp")) {
            (Some(u), Some(m), Some(ts)) => Ok(
                WsMessage::Chat { user: u.clone(), message: m.clone(), timestamp: ts.clone() },
            ),
            _ => Err(DecodeError::InvalidFields),
        }
    } else if str_eq(tag, "system") {
        match (get_text(fields, "message"), get_text(fields, "timestamp")) {
            (Some(m), Some(ts)) => Ok(WsMessage::System { message: m.clone(), timestamp: ts.clone() }),
            _ => Err(DecodeError::InvalidFields),
        }
    } else if str_eq(tag, "ping") {
        Ok(WsMessage::Ping)
    } else if str_eq(tag, "pong") {
        Ok(WsMessage::Pong)
    } else {
        Err(DecodeError::UnknownType)
    }
}

/// Decodes wire text. Text that is not one JSON object, an unknown or missing
/// `"type"`, and a known type with bad fields each fail with their own error.
pub fn decode(text: &str) -> (r: Result<WsMessage, DecodeError>)
    ensures
        result_view(r) == decode_spec(text@),
{
    match parse_object(text) {
        Some(fields) => decode_fields(&fields),
        None => Err(DecodeError::Malformed),
    }
}

fn push_member(out: &mut String, key: &str, value: &str)
    ensures
        final(out)@ == old(out)@ + member(key@, value@),
{
    let k = quote(key);
    out.append(k.as_str());
    out.append(":");
    proof {
        reveal_strlit(":");
    }
    out.append(value);
    assert(final(out)@ =~= old(out)@ + member(key@, value@));
}

/// The canonical wire text of `m`.
pub fn encode(m: &WsMessage) -> (r: String)
    ensures
        r@ == encode_spec(m@),
{
    proof {
        reveal_strlit("{");
        reveal_strlit("}");
        reveal_strlit(",");
    }
    let mut out = String::from_str("{");
    match m {
        WsMessage::Calculation { operation, result, timestamp } => {
            push_member(&mut out, "type", quote("calculation").as_str());
            out.append(",");
            push_member(&mut out, "operation", quote(operation.as_str()).as_str());
            out.append(",");
            push_member(&mut out, "result", result.as_str());
            out.append(",");
            push_member(&mut out, "timestamp", quote(timestamp.as_str()).as_str());
        },
        WsMessage::Chat { user, message, timestamp } => {
            push_member(&mut out, "type", quote("chat").as_str());
            out.append(",");
            push_member(&mut out, "user", quote(user.as_str()).as_str());
            out.append(",");
            push_member(&mut out, "message", quote(message.as_str()).as_str());
            out.append(",");
            push_member(&mut out, "timestamp", quote(timestamp.as_str()).as_str());
        },
        WsMessage::System { message, timestamp } => {
            push_member(&mut out, "type", quote("system").as_str());
            out.append(",");
            push_member(&mut out, "message", quote(message.as_str()).as_str());
            out.append(",");
            push_member(&mut out, "timestamp", quote(timestamp.as_str()).as_str());
        },
        WsMessage::Ping => {
            push_member(&mut out, "type", quote("ping").as_str());
        },
        WsMessage::Pong => {
            push_member(&mut out, "type", quote("pong").as_str());
        },
    }
    out.append("}");
    out
}

} // verus!
