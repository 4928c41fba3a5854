//! The browser's native messaging protocol: each message is a JSON text
//! preceded by its length as a 32-bit integer in the machine's byte order.

use vstd::prelude::*;
use vstd::endian::{endianness, Endian};
use vstd::slice::{slice_subrange, slice_to_vec};
use crate::json::{json_from_bytes, json_from_slice, json_get_str, json_str_member, json_text, json_to_vec};
use crate::text::same_text;

verus! {

/// The largest message body, in bytes, that is read.
pub const MAX_NATIVE_MESSAGE: usize = 1048576;

/// The little-endian bytes of `n`.
pub open spec fn u32_le_bytes(n: u32) -> Seq<u8> {
    seq![(n & 0xff) as u8, ((n >> 8) & 0xff) as u8, ((n >> 16) & 0xff) as u8, ((n >> 24) & 0xff) as u8]
}

/// The number whose little-endian bytes are `b0` to `b3`.
pub open spec fn u32_from_le(b0: u8, b1: u8, b2: u8, b3: u8) -> u32 {
    (b0 as u32) | ((b1 as u32) << 8) | ((b2 as u32) << 16) | ((b3 as u32) << 24)
}

/// The bytes of `n` in the byte order of the machine that runs the code.
pub open spec fn u32_bytes(n: u32) -> Seq<u8> {
    match endianness() {
        Endian::Little => u32_le_bytes(n),
        Endian::Big => seq![u32_le_bytes(n)[3], u32_le_bytes(n)[2], u32_le_bytes(n)[1], u32_le_bytes(n)[0]],
    }
}

/// The number whose bytes, in the byte order of the machine that runs the
/// code, are `b0` to `b3`.
pub open spec fn u32_from_bytes(b0: u8, b1: u8, b2: u8, b3: u8) -> u32 {
    match endianness() {
        Endian::Little => u32_from_le(b0, b1, b2, b3),
        Endian::Big => u32_from_le(b3, b2, b1, b0),
    }
}

/// `u32::to_ne_bytes`: the bytes of `n` in the machine's native byte order.
#[verifier::external_body]
fn u32_to_ne_bytes(n: u32) -> (res: [u8; 4])
    ensures
        res@ == u32_bytes(n),
{
    n.to_ne_bytes()
}

/// `u32::from_ne_bytes`: the number whose bytes, in the machine's native
/// byte order, are `bytes`.
#[verifier::external_body]
fn u32_from_ne_bytes(bytes: [u8; 4]) -> (res: u32)
    ensures
        res == u32_from_bytes(bytes@[0], bytes@[1], bytes@[2], bytes@[3]),
{
    u32::from_ne_bytes(bytes)
}

/// A message on the wire: the length of `body`, taken modulo 2^32, in the
/// machine's byte order, then `body`.
pub open spec fn frame(body: Seq<u8>) -> Seq<u8> {
    u32_bytes(body.len() as u32) + body
}

/// The message for a length beyond the limit.
pub open spec fn too_long_message() -> Seq<char> {
    "native message exceeds 1 MiB"@
}

/// The message for input that ends inside a message body.
pub open spec fn short_body_message() -> Seq<char> {
    "failed to fill whole buffer"@
}

/// What reading one message from `input` gives, and the input left after it:
/// nothing where fewer than 4 bytes remain (all of them consumed); an error
/// for a length beyond the limit (the 4 length bytes consumed) or beyond the
/// input (all of it consumed); else the body and the rest.
pub open spec fn unframe(input: Seq<u8>) -> (Result<Option<Seq<u8>>, Seq<char>>, Seq<u8>) {
    if input.len() < 4 {
        (Ok(None), seq![])
    } else {
        let n = u32_from_bytes(input[0], input[1], input[2], input[3]);
        if n > MAX_NATIVE_MESSAGE {
            (Err(too_long_message()), input.skip(4))
        } else if input.len() - 4 < n {
            (Err(short_body_message()), seq![])
        } else {
            (Ok(Some(input.subrange(4, 4 + n))), input.skip(4 + n))
        }
    }
}

/// What reading one message from `input` answers: nothing, the body parsed
/// as `serde_json` parses it, or the error of the framing or of the parse.
pub open spec fn read_outcome(input: Seq<u8>) -> Result<Option<serde_json::Value>, Seq<char>> {
    match unframe(input).0 {
        Ok(None) => Ok(None),
        Ok(Some(body)) => match json_from_bytes(body) {
            Ok(v) => Ok(Some(v)),
            Err(e) => Err(e),
        },
        Err(e) => Err(e),
    }
}

/// Bytes of a number read back give the number.
pub proof fn lemma_u32_le_round_trip(n: u32)
    ensures
        u32_from_le(
            u32_le_bytes(n)[0],
            u32_le_bytes(n)[1],
            u32_le_bytes(n)[2],
            u32_le_bytes(n)[3],
        ) == n,
{
    assert(((n & 0xff) as u8 as u32) | ((((n >> 8) & 0xff) as u8 as u32) << 8) | ((((n >> 16)
        & 0xff) as u8 as u32) << 16) | ((((n >> 24) & 0xff) as u8 as u32) << 24) == n)
        by (bit_vector);
}

/// Bytes of a number, in the machine's order, read back give the number.
pub proof fn lemma_u32_round_trip(n: u32)
    ensures
        u32_from_bytes(u32_bytes(n)[0], u32_bytes(n)[1], u32_bytes(n)[2], u32_bytes(n)[3]) == n,
{
    lemma_u32_le_round_trip(n);
}

/// A message written and read back: reading a framed body, with any input
/// after it, gives back the body and leaves exactly that input, for every
/// body within the size limit.
pub proof fn lemma_native_message_round_trip(body: Seq<u8>, rest: Seq<u8>)
    requires
        body.len() <= MAX_NATIVE_MESSAGE,
    ensures
        unframe(frame(body) + rest) == (Ok::<Option<Seq<u8>>, Seq<char>>(Some(body)), rest),
{
    let n = body.len() as u32;
    lemma_u32_round_trip(n);
    let input = frame(body) + rest;
    assert(input[0] == u32_bytes(n)[0]);
    assert(input[1] == u32_bytes(n)[1]);
    assert(input[2] == u32_bytes(n)[2]);
    assert(input[3] == u32_bytes(n)[3]);
    assert(input.subrange(4, 4 + body.len() as int) == body);
    assert(input.skip(4 + body.len() as int) == rest);
}

/// A message written and read back: the framed JSON text of `message`, with
/// any input after it, reads back as exactly that text and leaves exactly that
/// input, so that reading gives what `serde_json` parses the text to.
pub proof fn lemma_message_round_trip(message: serde_json::Value, rest: Seq<u8>)
    requires
        json_text(message).len() <= MAX_NATIVE_MESSAGE,
    ensures
        unframe(frame(json_text(message)) + rest) == (Ok::<Option<Seq<u8>>, Seq<char>>(
            Some(json_text(message)),
        ), rest),
{
    lemma_native_message_round_trip(json_text(message), rest);
}

/// Messages one after another on the wire: each body framed, in order.
pub open spec fn frames(bodies: Seq<Seq<u8>>) -> Seq<u8>
    decreases bodies.len(),
{
    if bodies.len() == 0 {
        seq![]
    } else {
        frame(bodies[0]) + frames(bodies.drop_first())
    }
}

/// Writing one more message after others adds its frame at the end.
pub proof fn lemma_frames_push(bodies: Seq<Seq<u8>>, body: Seq<u8>)
    ensures
        frames(bodies.push(body)) == frames(bodies) + frame(body),
    decreases bodies.len(),
{
    if bodies.len() == 0 {
        let one = bodies.push(body);
        assert(one[0] == body);
        assert(one.drop_first() =~= Seq::<Seq<u8>>::empty());
        assert(frames(one.drop_first()) == Seq::<u8>::empty());
        assert(frames(bodies) == Seq::<u8>::empty());
        assert(frames(one) =~= frame(body) + Seq::<u8>::empty());
        assert(frame(body) + Seq::<u8>::empty() =~= frame(body));
    } else {
        assert(bodies.push(body).drop_first() == bodies.drop_first().push(body));
        lemma_frames_push(bodies.drop_first(), body);
        assert(frames(bodies.push(body)) == frame(bodies[0]) + (frames(bodies.drop_first()) + frame(
            body,
        )));
    }
}

/// Messages read back in order: on the wire written for `bodies`, each
/// within the size limit, the read that starts after the first `i` messages
/// gives the `i`-th body and leaves the messages after it; once all are
/// read, reading gives nothing and leaves nothing.
pub proof fn lemma_messages_read_back_in_order(bodies: Seq<Seq<u8>>, i: int)
    requires
        0 <= i <= bodies.len(),
        forall|k: int| 0 <= k < bodies.len() ==> #[trigger] bodies[k].len() <= MAX_NATIVE_MESSAGE,
    ensures
        i < bodies.len() ==> unframe(frames(bodies.skip(i))) == (Ok::<Option<Seq<u8>>, Seq<char>>(
            Some(bodies[i]),
        ), frames(bodies.skip(i + 1))),
        i == bodies.len() ==> unframe(frames(bodies.skip(i))) == (Ok::<Option<Seq<u8>>, Seq<char>>(
            None,
        ), Seq::<u8>::empty()),
{
    if i < bodies.len() {
        let tail = bodies.skip(i);
        assert(tail[0] == bodies[i]);
        assert(tail.drop_first() == bodies.skip(i + 1));
        lemma_native_message_round_trip(bodies[i], frames(bodies.skip(i + 1)));
    } else {
        assert(bodies.skip(i) == Seq::<Seq<u8>>::empty());
    }
}

/// The JSON texts of `messages`, in order.
pub open spec fn json_texts(messages: Seq<serde_json::Value>) -> Seq<Seq<u8>> {
    Seq::new(messages.len(), |k: int| json_text(messages[k]))
}

/// Messages written one after another: writing the `k`-th message after the
/// first `k` appends its frame to the wire written so far, so that the wire
/// after all of them is `frames(json_texts(messages))`.
pub proof fn lemma_writes_append_frames(messages: Seq<serde_json::Value>, k: int)
    requires
        0 <= k < messages.len(),
    ensures
        frames(json_texts(messages.take(k + 1))) == frames(json_texts(messages.take(k))) + frame(
            json_text(messages[k]),
        ),
        frames(json_texts(messages.take(0))) == Seq::<u8>::empty(),
        json_texts(messages.take(messages.len() as int)) == json_texts(messages),
{
    assert(json_texts(messages.take(k + 1)) =~= json_texts(messages.take(k)).push(
        json_text(messages[k]),
    ));
    lemma_frames_push(json_texts(messages.take(k)), json_text(messages[k]));
    assert(json_texts(messages.take(0)) =~= Seq::<Seq<u8>>::empty());
    assert(messages.take(messages.len() as int) =~= messages);
}

/// Messages written one after another and read back: where each JSON text
/// is within the size limit, the `i`-th read gives the `i`-th text, which
/// `read_native_message` parses as `serde_json` parses it, and consumes
/// exactly that one message; after the last one, reading gives nothing.
pub proof fn lemma_written_messages_read_back(messages: Seq<serde_json::Value>, i: int)
    requires
        0 <= i <= messages.len(),
        forall|k: int|
            0 <= k < messages.len() ==> #[trigger] json_text(messages[k]).len() <= MAX_NATIVE_MESSAGE,
    ensures
        i < messages.len() ==> unframe(frames(json_texts(messages).skip(i))) == (Ok::<
            Option<Seq<u8>>,
            Seq<char>,
        >(Some(json_text(messages[i]))), frames(json_texts(messages).skip(i + 1))),
        i == messages.len() ==> unframe(frames(json_texts(messages).skip(i))) == (Ok::<
            Option<Seq<u8>>,
            Seq<char>,
        >(None), Seq::<u8>::empty()),
{
    let bodies = json_texts(messages);
    assert forall|k: int| 0 <= k < bodies.len() implies #[trigger] bodies[k].len() <= MAX_NATIVE_MESSAGE by {
        assert(bodies[k] == json_text(messages[k]));
    }
    lemma_messages_read_back_in_order(bodies, i);
}

/// Values written one after another and read back, in order: where
/// `serde_json` parses the JSON text of each of `messages` back to that
/// value and each text is within the size limit, the read that starts after
/// the first `i` messages answers the `i`-th value and leaves exactly the
/// messages after it; after the last one, reading answers nothing and
/// leaves nothing.
pub proof fn lemma_written_values_read_back(messages: Seq<serde_json::Value>, i: int)
    requires
        0 <= i <= messages.len(),
        forall|k: int|
            0 <= k < messages.len() ==> #[trigger] json_text(messages[k]).len() <= MAX_NATIVE_MESSAGE,
        forall|k: int|
            0 <= k < messages.len() ==> json_from_bytes(#[trigger] json_text(messages[k])) == Ok::<
                serde_json::Value,
                Seq<char>,
            >(messages[k]),
    ensures
        i < messages.len() ==> read_outcome(frames(json_texts(messages).skip(i))) == Ok::<
            Option<serde_json::Value>,
            Seq<char>,
        >(Some(messages[i])),
        i < messages.len() ==> unframe(frames(json_texts(messages).skip(i))).1 == frames(
            json_texts(messages).skip(i + 1),
        ),
        i == messages.len() ==> read_outcome(frames(json_texts(messages).skip(i))) == Ok::<
            Option<serde_json::Value>,
            Seq<char>,
        >(None),
        i == messages.len() ==> unframe(frames(json_texts(messages).skip(i))).1 == Seq::<
            u8,
        >::empty(),
{
    lemma_written_messages_read_back(messages, i);
    if i < messages.len() {
        assert(json_from_bytes(json_text(messages[i])) == Ok::<serde_json::Value, Seq<char>>(
            messages[i],
        ));
    }
}

/// The length announced by a message header, if within the limit.
pub fn native_message_length(header: [u8; 4]) -> (res: Result<usize, String>)
    ensures
        u32_from_bytes(header[0], header[1], header[2], header[3]) > MAX_NATIVE_MESSAGE ==> (res matches Err(
            m,
        ) && m@ == too_long_message()),
        u32_from_bytes(header[0], header[1], header[2], header[3]) <= MAX_NATIVE_MESSAGE ==> (res matches Ok(
            n,
        ) && n == u32_from_bytes(header[0], header[1], header[2], header[3])),
{
    let n: u32 = u32_from_ne_bytes(header);
    if n > 1048576 {
        Err(String::from_str("native message exceeds 1 MiB"))
    } else {
        Ok(n as usize)
    }
}

/// Appends `body`, framed, to `output`.
pub fn frame_message(output: &mut Vec<u8>, body: &[u8])
    ensures
        final(output)@ == old(output)@ + frame(body@),
{
    #[verifier::truncate]
    let n: u32 = body.len() as u32;
    let bytes = u32_to_ne_bytes(n);
    output.push(bytes[0]);
    output.push(bytes[1]);
    output.push(bytes[2]);
    output.push(bytes[3]);
    let mut rest = slice_to_vec(body);
    output.append(&mut rest);
    assert(final(output)@ =~= old(output)@ + frame(body@));
}

/// Parses a message body as a JSON value: what `serde_json` parses the body
/// to, or the parser's error text.
pub fn parse_native_body(body: &[u8]) -> (res: Result<serde_json::Value, String>)
    ensures
        match res {
            Ok(v) => json_from_bytes(body@) == Ok::<serde_json::Value, Seq<char>>(v),
            Err(e) => json_from_bytes(body@) == Err::<serde_json::Value, Seq<char>>(e@),
        },
{
    json_from_slice(body)
}

/// Appends `message` to `output` as one native message: the length of its
/// JSON text, then the text. Serialising a JSON value does not fail, so
/// neither does this.
pub fn write_native_message(output: &mut Vec<u8>, message: &serde_json::Value) -> (res: Result<
    (),
    String,
>)
    ensures
        res is Ok,
        final(output)@ == old(output)@ + frame(json_text(*message)),
{
    let body = json_to_vec(message)?;
    frame_message(output, body.as_slice());
    Ok(())
}

/// Reads one native message from `input`, advancing it past what was read:
/// nothing at the end of the input, else the message body parsed as JSON.
/// Input that ends inside a body gives the text that `read_exact` on a byte
/// slice reports. A complete body gives what `serde_json` parses it to.
pub fn read_native_message(input: &mut &[u8]) -> (res: Result<Option<serde_json::Value>, String>)
    ensures
        final(input)@ == unframe(old(input)@).1,
        unframe(old(input)@).0 == Ok::<Option<Seq<u8>>, Seq<char>>(None) ==> res matches Ok(None),
        unframe(old(input)@).0 matches Err(e) ==> res matches Err(m) && m@ == e,
        unframe(old(input)@).0 matches Ok(Some(body)) ==> match res {
            Ok(Some(v)) => json_from_bytes(body) == Ok::<serde_json::Value, Seq<char>>(v),
            Ok(None) => false,
            Err(m) => json_from_bytes(body) == Err::<serde_json::Value, Seq<char>>(m@),
        },
        match res {
            Ok(v) => read_outcome(old(input)@) == Ok::<Option<serde_json::Value>, Seq<char>>(v),
            Err(m) => read_outcome(old(input)@) == Err::<Option<serde_json::Value>, Seq<char>>(m@),
        },
{
    let data: &[u8] = *input;
    let len = data.len();
    if len < 4 {
        *input = slice_subrange(data, len, len);
        return Ok(None);
    }
    let header: [u8; 4] = [data[0], data[1], data[2], data[3]];
    let length = match native_message_length(header) {
        Ok(length) => length,
        Err(e) => {
            *input = slice_subrange(data, 4, len);
            return Err(e);
        },
    };
    if len - 4 < length {
        *input = slice_subrange(data, len, len);
        return Err(String::from_str("failed to fill whole buffer"));
    }
    let body = slice_subrange(data, 4, 4 + length);
    *input = slice_subrange(data, 4 + length, len);
    match parse_native_body(body) {
        Ok(value) => Ok(Some(value)),
        Err(e) => Err(e),
    }
}

/// What the launcher does with a message from the extension.
pub enum ExtensionAction {
    /// A snapshot of the open tabs: bring the tab entries up to date.
    SyncTabs,
    /// The answer to the request of this id: hand it to whoever waits for it.
    Deliver(String),
    /// Anything else.
    Ignore,
}

/// What a message of type `kind`, answering `request_id`, asks of the launcher.
pub fn extension_action(kind: Option<&str>, request_id: Option<&str>) -> (res: ExtensionAction)
    ensures
        (kind matches Some(k) && k@ == "snapshot"@) ==> res is SyncTabs,
        (kind matches Some(k) && k@ == "response"@) ==> match request_id {
            Some(id) => res matches ExtensionAction::Deliver(d) && d@ == id@,
            None => res is Ignore,
        },
        !(kind matches Some(k) && (k@ == "snapshot"@ || k@ == "response"@)) ==> res is Ignore,
{
    proof {
        reveal_strlit("snapshot");
        reveal_strlit("response");
        assert("snapshot"@[0] != "response"@[0]);
    }
    match kind {
        Some(k) => {
            if same_text(k, "snapshot") {
                ExtensionAction::SyncTabs
            } else if same_text(k, "response") {
                match request_id {
                    Some(id) => ExtensionAction::Deliver(String::from_str(id)),
                    None => ExtensionAction::Ignore,
                }
            } else {
                ExtensionAction::Ignore
            }
        },
        None => ExtensionAction::Ignore,
    }
}

/// What a message from the extension asks of the launcher, by its `type`
/// member and, for a response, its `requestId` member, each read where it
/// holds a string.
pub fn extension_action_of(message: &serde_json::Value) -> (res: ExtensionAction)
    ensures
        json_str_member(*message, "type"@) == Some("snapshot"@) ==> res is SyncTabs,
        json_str_member(*message, "type"@) == Some("response"@) ==> match json_str_member(
            *message,
            "requestId"@,
        ) {
            Some(id) => res matches ExtensionAction::Deliver(d) && d@ == id,
            None => res is Ignore,
        },
        !(json_str_member(*message, "type"@) == Some("snapshot"@) || json_str_member(
            *message,
            "type"@,
        ) == Some("response"@)) ==> res is Ignore,
{
    let kind = json_get_str(message, "type");
    let request_id = json_get_str(message, "requestId");
    let kind_text: Option<&str> = match &kind {
        Some(k) => Some(k.as_str()),
        None => None,
    };
    let id_text: Option<&str> = match &request_id {
        Some(id) => Some(id.as_str()),
        None => None,
    };
    extension_action(kind_text, id_text)
}

} // verus!
