//! JSON-RPC over lines: what a line is answered, and which connection an item goes to.
use vstd::prelude::*;

use crate::command_journal::Origin;
use crate::digits;
use crate::json;
use crate::protocol::jsonrpc::{ErrorObject, Request, Response};
use crate::seqs;
use crate::text;

pub mod codes;

verus! {

/// Why a connection ended.
#[derive(Debug, Clone, PartialEq, Eq)]
pub enum TransportError {
    Io(String),
    Serde(String),
    OutboundClosed,
}

impl TransportError {
    /// The error in words.
    pub open spec fn words(&self) -> Seq<char> {
        match *self {
            TransportError::Io(e) => "io: "@ + e@,
            TransportError::Serde(e) => "serde: "@ + e@,
            TransportError::OutboundClosed => "outbound channel closed"@,
        }
    }

    /// The error in words.
    pub fn message(&self) -> (r: String)
        ensures
            r@ == self.words(),
    {
        match self {
            TransportError::Io(e) => "io: ".to_owned().concat(e),
            TransportError::Serde(e) => "serde: ".to_owned().concat(e),
            TransportError::OutboundClosed => "outbound channel closed".to_owned(),
        }
    }
}

/// The reply that a request succeeded. `id` and `result` are JSON texts.
pub fn ok_response(id: String, result: String) -> (r: Response)
    ensures
        r is Success,
        r->Success_jsonrpc@ == "2.0"@,
        r->Success_id == id,
        r->Success_result == result,
{
    Response::Success { jsonrpc: "2.0".to_owned(), id, result }
}

/// Whether `r` is the reply that a request failed with a code and a message.
pub open spec fn is_failure(r: Response, id: Seq<char>, code: i32, message: Seq<char>) -> bool {
    &&& r is Failure
    &&& r->Failure_jsonrpc@ == "2.0"@
    &&& r->Failure_id@ == id
    &&& r->Failure_error.code == code
    &&& r->Failure_error.message@ == message
    &&& r->Failure_error.data is None
}

/// The reply that a request failed. `id` is a JSON text.
pub fn err_response(id: String, code: i32, message: &str) -> (r: Response)
    ensures
        is_failure(r, id@, code, message@),
{
    Response::Failure {
        jsonrpc: "2.0".to_owned(),
        id,
        error: ErrorObject { code, message: message.to_owned(), data: None },
    }
}

/// How many items the outbound stream holds for a connection that falls behind.
pub const OUTBOUND_STREAM_CAPACITY: usize = 8192;

/// A reply or a notification, as JSON text.
#[derive(Debug, Clone, PartialEq)]
pub struct Outbound(pub String);

/// An item of the outbound stream.
#[derive(Debug, Clone, PartialEq)]
pub struct OutboundEnvelope {
    /// The connection that it goes to; all of them if there is none.
    pub origin: Option<Origin>,
    /// The JSON text of the request's identifier, for a reply.
    pub request_id: Option<String>,
    pub command_seq: Option<u64>,
    pub item: Outbound,
}

/// Where an item goes.
pub struct OriginView {
    pub transport: Seq<char>,
    pub connection_id: Option<Seq<char>>,
}

/// The contents of an [`Origin`].
pub open spec fn origin_view(o: Origin) -> OriginView {
    OriginView { transport: o.transport@, connection_id: o.connection_id.deep_view() }
}

fn same_origin(a: &Origin, b: &Origin) -> (r: bool)
    ensures
        r == (origin_view(*a) == origin_view(*b)),
{
    text::same(&a.transport, &b.transport) && match (&a.connection_id, &b.connection_id) {
        (Some(x), Some(y)) => text::same(x, y),
        (None, None) => true,
        _ => false,
    }
}

/// Whether a connection delivers an item: one that goes to it, or to all.
pub open spec fn delivered_to(e: OutboundEnvelope, connection: OriginView) -> bool {
    match e.origin {
        Some(o) => origin_view(o) == connection,
        None => true,
    }
}

/// Whether the connection `origin` delivers an item.
pub fn delivers(envelope: &OutboundEnvelope, origin: &Origin) -> (r: bool)
    ensures
        r == delivered_to(*envelope, origin_view(*origin)),
{
    match &envelope.origin {
        Some(o) => same_origin(o, origin),
        None => true,
    }
}

/// The line of an item.
pub fn line_of(item: &Outbound) -> (r: String)
    ensures
        r@ == item.0@ + "\n"@,
{
    item.0.clone().concat("\n")
}

/// What the connection `connection` writes of the items `stream`: those that it delivers, one line
/// each, in the order in which they were sent.
pub open spec fn written(stream: Seq<OutboundEnvelope>, connection: OriginView) -> Seq<char>
    decreases stream.len(),
{
    if stream.len() == 0 {
        Seq::empty()
    } else {
        let before = written(stream.drop_last(), connection);
        if delivered_to(stream.last(), connection) {
            before + (stream.last().item.0@ + "\n"@)
        } else {
            before
        }
    }
}

/// What the connection `origin` writes of the items `stream`.
pub fn write_all(stream: &Vec<OutboundEnvelope>, origin: &Origin) -> (r: String)
    ensures
        r@ == written(stream@, origin_view(*origin)),
{
    let mut r: String = String::new();
    let mut i: usize = 0;
    proof {
        assert(r@ =~= Seq::empty());
        assert(stream@.take(0) =~= Seq::empty());
    }
    while i < stream.len()
        invariant
            i <= stream@.len(),
            r@ == written(stream@.take(i as int), origin_view(*origin)),
        decreases stream@.len() - i,
    {
        proof {
            seqs::lemma_take_step(stream@, i as int);
        }
        if delivers(&stream[i], origin) {
            let line = line_of(&stream[i].item);
            r.append(&line);
        }
        i += 1;
    }
    proof {
        assert(stream@.take(stream@.len() as int) =~= stream@);
    }
    r
}

/// What a connection gets from the outbound stream.
#[derive(Debug, Clone, PartialEq)]
pub enum Received {
    Item(OutboundEnvelope),
    /// The connection fell behind, and this many items are lost to it.
    Lagged(u64),
    /// Nothing can be sent any more.
    Closed,
}

/// What a connection does next.
#[derive(Debug, Clone, PartialEq, Eq)]
pub enum WriteStep {
    Write(String),
    Skip,
    Stop,
}

/// What the connection `origin` does on what it got: it writes the line of an item that it
/// delivers, goes on after a loss, and stops when the stream is closed.
pub fn write_step(received: &Received, origin: &Origin) -> (r: WriteStep)
    ensures
        match *received {
            Received::Item(e) => if delivered_to(e, origin_view(*origin)) {
                r is Write && r->Write_0@ == e.item.0@ + "\n"@
            } else {
                r is Skip
            },
            Received::Lagged(_) => r is Skip,
            Received::Closed => r is Stop,
        },
{
    match received {
        Received::Item(e) => if delivers(e, origin) {
            WriteStep::Write(line_of(&e.item))
        } else {
            WriteStep::Skip
        },
        Received::Lagged(_) => WriteStep::Skip,
        Received::Closed => WriteStep::Stop,
    }
}

/// The connection with the number `id` over standard input and output.
pub fn stdio_origin(id: u64) -> (r: Origin)
    ensures
        origin_view(r) == (OriginView {
            transport: "stdio"@,
            connection_id: Some(text::decimal_view(id as nat)),
        }),
{
    Origin { transport: "stdio".to_owned(), connection_id: Some(text::decimal(id)) }
}

/// The JSON text of a notification. `params` is the JSON text of the parameters.
pub open spec fn notification_text(method: Seq<char>, params: Seq<char>) -> Seq<char> {
    "{\"jsonrpc\":\"2.0\",\"method\":"@ + method + ",\"params\":"@ + params + "}"@
}

/// The item that notifies a connection, or all if there is none. `params` is a JSON text.
pub fn notification_envelope(origin: Option<Origin>, method: &str, params: &str) -> (r:
    OutboundEnvelope)
    ensures
        r.origin == origin,
        r.request_id is None,
        r.command_seq is None,
        r.item.0@ == notification_text(json::quoted(method@), params@),
        json::one_line(params@) ==> json::one_line(r.item.0@),
{
    let quoted = json::quote(method);
    proof {
        if json::one_line(params@) {
            lemma_notification_line(quoted@, params@);
        }
    }
    let line = "{\"jsonrpc\":\"2.0\",\"method\":".to_owned().concat(&quoted).concat(
        ",\"params\":",
    ).concat(params).concat("}");
    OutboundEnvelope { origin, request_id: None, command_seq: None, item: Outbound(line) }
}

/// The JSON text of a reply, from the JSON texts of its protocol version and of its message if it
/// has one.
pub open spec fn response_text(r: Response, version: Seq<char>, message: Seq<char>) -> Seq<char> {
    match r {
        Response::Success { id, result, .. } => {
            "{\"id\":"@ + id@ + ",\"jsonrpc\":"@ + version + ",\"result\":"@ + result@ + "}"@
        },
        Response::Failure { id, error, .. } => {
            "{\"error\":{\"code\":"@ + json::signed_view(error.code as int) + (match error.data {
                Some(data) => ",\"data\":"@ + data@,
                None => Seq::empty(),
            }) + ",\"message\":"@ + message + "},\"id\":"@ + id@ + ",\"jsonrpc\":"@ + version
                + "}"@
        },
    }
}

/// The protocol version of a reply.
pub open spec fn version_of(r: Response) -> Seq<char> {
    match r {
        Response::Success { jsonrpc, .. } => jsonrpc@,
        Response::Failure { jsonrpc, .. } => jsonrpc@,
    }
}

/// The message of a reply.
pub open spec fn message_of(r: Response) -> Seq<char> {
    match r {
        Response::Success { .. } => Seq::empty(),
        Response::Failure { error, .. } => error.message@,
    }
}

/// The identifier of a reply.
pub open spec fn id_of(r: Response) -> Seq<char> {
    match r {
        Response::Success { id, .. } => id@,
        Response::Failure { id, .. } => id@,
    }
}

/// The JSON text of a reply, from the JSON texts of its protocol version and of its message.
pub fn assemble_response(response: &Response, version: &str, message: &str) -> (r: String)
    ensures
        r@ == response_text(*response, version@, message@),
{
    match response {
        Response::Success { id, result, .. } => {
            "{\"id\":".to_owned().concat(id).concat(",\"jsonrpc\":").concat(version).concat(
                ",\"result\":",
            ).concat(result).concat("}")
        },
        Response::Failure { id, error, .. } => {
            let code = json::signed(error.code);
            let data = match &error.data {
                Some(data) => ",\"data\":".to_owned().concat(data),
                None => {
                    let none = String::new();
                    proof {
                        assert(none@ =~= Seq::empty());
                    }
                    none
                },
            };
            "{\"error\":{\"code\":".to_owned().concat(&code).concat(&data).concat(
                ",\"message\":",
            ).concat(message).concat("},\"id\":").concat(id).concat(",\"jsonrpc\":").concat(
                version,
            ).concat("}")
        },
    }
}

/// Whether the JSON texts that a reply holds are each within one line.
pub open spec fn holds_lines(r: Response) -> bool {
    match r {
        Response::Success { id, result, .. } => json::one_line(id@) && json::one_line(result@),
        Response::Failure { id, error, .. } => json::one_line(id@) && match error.data {
            Some(data) => json::one_line(data@),
            None => true,
        },
    }
}

proof fn lemma_notification_line(method: Seq<char>, params: Seq<char>)
    requires
        json::one_line(method),
        json::one_line(params),
    ensures
        json::one_line(notification_text(method, params)),
{
    reveal_strlit("{\"jsonrpc\":\"2.0\",\"method\":");
    reveal_strlit(",\"params\":");
    reveal_strlit("}");
    let a = "{\"jsonrpc\":\"2.0\",\"method\":"@;
    json::lemma_one_line(a, method);
    json::lemma_one_line(a + method, ",\"params\":"@);
    json::lemma_one_line(a + method + ",\"params\":"@, params);
    json::lemma_one_line(a + method + ",\"params\":"@ + params, "}"@);
}

proof fn lemma_signed_line(n: int)
    ensures
        json::one_line(json::signed_view(n)),
{
    reveal_strlit("-");
    let m: nat = if n < 0 {
        (-n) as nat
    } else {
        n as nat
    };
    digits::lemma_decimal_reads_back(m);
    let d = text::decimal_view(m);
    if d.contains('\n') {
        let i = choose|i: int| 0 <= i < d.len() && d[i] == '\n';
        assert(digits::is_digit(d[i]));
    }
    json::lemma_one_line("-"@, d);
}

proof fn lemma_response_line(r: Response, version: Seq<char>, message: Seq<char>)
    requires
        holds_lines(r),
        json::one_line(version),
        json::one_line(message),
    ensures
        json::one_line(response_text(r, version, message)),
{
    reveal_strlit("}");
    match r {
        Response::Success { id, result, .. } => {
            reveal_strlit("{\"id\":");
            reveal_strlit(",\"jsonrpc\":");
            reveal_strlit(",\"result\":");
            let a = "{\"id\":"@;
            let b = a + id@ + ",\"jsonrpc\":"@;
            let c = b + version + ",\"result\":"@;
            json::lemma_one_line(a, id@);
            json::lemma_one_line(a + id@, ",\"jsonrpc\":"@);
            json::lemma_one_line(b, version);
            json::lemma_one_line(b + version, ",\"result\":"@);
            json::lemma_one_line(c, result@);
            json::lemma_one_line(c + result@, "}"@);
        },
        Response::Failure { id, error, .. } => {
            reveal_strlit("{\"error\":{\"code\":");
            reveal_strlit(",\"data\":");
            reveal_strlit(",\"message\":");
            reveal_strlit("},\"id\":");
            reveal_strlit(",\"jsonrpc\":");
            let code = json::signed_view(error.code as int);
            let data = match error.data {
                Some(data) => ",\"data\":"@ + data@,
                None => Seq::empty(),
            };
            lemma_signed_line(error.code as int);
            if let Some(d) = error.data {
                json::lemma_one_line(",\"data\":"@, d@);
            }
            let a = "{\"error\":{\"code\":"@;
            let b = a + code + data + ",\"message\":"@;
            let c = b + message + "},\"id\":"@;
            let d = c + id@ + ",\"jsonrpc\":"@;
            json::lemma_one_line(a, code);
            json::lemma_one_line(a + code, data);
            json::lemma_one_line(a + code + data, ",\"message\":"@);
            json::lemma_one_line(b, message);
            json::lemma_one_line(b + message, "},\"id\":"@);
            json::lemma_one_line(c, id@);
            json::lemma_one_line(c + id@, ",\"jsonrpc\":"@);
            json::lemma_one_line(d, version);
            json::lemma_one_line(d + version, "}"@);
        },
    }
}

/// The JSON text of a reply.
pub open spec fn response_json(r: Response) -> Seq<char> {
    response_text(r, json::quoted(version_of(r)), json::quoted(message_of(r)))
}

/// The item that carries a reply to the connection that asked.
pub fn response_envelope(origin: Origin, request_id: String, response: &Response) -> (r:
    OutboundEnvelope)
    ensures
        r.origin == Some(origin),
        r.request_id == Some(request_id),
        r.command_seq is None,
        r.item.0@ == response_json(*response),
        holds_lines(*response) ==> json::one_line(r.item.0@),
{
    let (version, message): (&str, &str) = match response {
        Response::Success { jsonrpc, .. } => (jsonrpc.as_str(), ""),
        Response::Failure { jsonrpc, error, .. } => (jsonrpc.as_str(), error.message.as_str()),
    };
    proof {
        reveal_strlit("");
        assert(message@ =~= message_of(*response));
    }
    let version = json::quote(version);
    let message = json::quote(message);
    proof {
        if holds_lines(*response) {
            lemma_response_line(*response, version@, message@);
        }
    }
    OutboundEnvelope {
        origin: Some(origin),
        request_id: Some(request_id),
        command_seq: None,
        item: Outbound(assemble_response(response, &version, &message)),
    }
}

/// What a line is answered: a line that is no JSON is refused with the null identifier, and one
/// that is no request is refused with the identifier that it carries, if it carries one. `request`
/// is what the line was read as.
pub open spec fn answers(
    r: Result<Request, Response>,
    is_json: bool,
    id: Option<Seq<char>>,
    request: Option<Request>,
) -> bool {
    if !is_json {
        r is Err && is_failure(r->Err_0, "null"@, codes::PARSE_ERROR, "parse error"@)
    } else {
        match request {
            Some(q) => r == Ok::<Request, Response>(q),
            None => r is Err && is_failure(
                r->Err_0,
                json::or_null(id),
                codes::INVALID_REQUEST,
                "invalid request"@,
            ),
        }
    }
}

/// The request of a line, or the reply that refuses it, given whether the line is JSON, the JSON
/// text of its identifier if it has one, and the request that it was read as.
pub fn request_or_refusal(is_json: bool, id: Option<String>, request: Option<Request>) -> (r: Result<
    Request,
    Response,
>)
    ensures
        answers(r, is_json, id.deep_view(), request),
{
    if !is_json {
        return Err(err_response("null".to_owned(), codes::PARSE_ERROR, "parse error"));
    }
    match request {
        Some(q) => Ok(q),
        None => Err(
            err_response(json::text_or_null(id), codes::INVALID_REQUEST, "invalid request"),
        ),
    }
}

/// The request of a line, or the reply that refuses it. `request` is what the line was read as.
pub fn parse_request_line(line: &str, request: Option<Request>) -> (r: Result<Request, Response>)
    ensures
        answers(
            r,
            json::compacted(line@) is Ok,
            json::member_of(line@, "id"@),
            request,
        ),
        r is Err ==> holds_lines(r->Err_0),
{
    let is_json = json::compact(line).is_ok();
    let id = json::member(line, "id");
    proof {
        reveal_strlit("null");
    }
    request_or_refusal(is_json, id, request)
}

/// What is done with a line.
#[derive(Debug, Clone, PartialEq)]
pub enum LineStep {
    /// The request is handled.
    Handle(Request),
    /// The line is refused with this item.
    Refuse(OutboundEnvelope),
}

fn id_text(response: &Response) -> (r: String)
    ensures
        r@ == id_of(*response),
{
    match response {
        Response::Success { id, .. } => id.clone(),
        Response::Failure { id, .. } => id.clone(),
    }
}

/// What is done with a line that came over the connection `origin`: a request is handled, and any
/// other line is refused to that connection. `request` is what the line was read as.
pub fn line_step(line: &str, request: Option<Request>, origin: Origin) -> (r: LineStep)
    ensures
        match r {
            LineStep::Handle(q) => answers(
                Ok(q),
                json::compacted(line@) is Ok,
                json::member_of(line@, "id"@),
                request,
            ),
            LineStep::Refuse(e) => e.origin == Some(origin) && e.request_id is Some
                && e.command_seq is None && json::one_line(e.item.0@) && exists|refusal: Response|
                #![trigger response_json(refusal)]
                answers(
                    Err(refusal),
                    json::compacted(line@) is Ok,
                    json::member_of(line@, "id"@),
                    request,
                ) && e.request_id->0@ == id_of(refusal) && e.item.0@ == response_json(refusal),
        },
{
    match parse_request_line(line, request) {
        Ok(q) => LineStep::Handle(q),
        Err(refusal) => LineStep::Refuse(
            response_envelope(origin, id_text(&refusal), &refusal),
        ),
    }
}

/// An item for one connection is written by no other.
pub proof fn law_items_reach_only_their_connection(
    e: OutboundEnvelope,
    a: OriginView,
    b: OriginView,
)
    requires
        e.origin is Some,
        delivered_to(e, a),
        a != b,
    ensures
        !delivered_to(e, b),
{
}

/// An item without a connection is written by all.
pub proof fn law_broadcasts_reach_every_connection(e: OutboundEnvelope, connection: OriginView)
    requires
        e.origin is None,
    ensures
        delivered_to(e, connection),
{
}

/// A line is handled exactly if it is read as a request: a line that is not JSON is refused
/// whatever it was read as.
pub proof fn law_lines_are_handled_or_refused(
    r: Result<Request, Response>,
    is_json: bool,
    id: Option<Seq<char>>,
    request: Option<Request>,
)
    requires
        answers(r, is_json, id, request),
    ensures
        r is Ok <==> is_json && request is Some,
        r is Err ==> id_of(r->Err_0) == (if is_json {
            json::or_null(id)
        } else {
            "null"@
        }),
{
}

/// Later items never change what was written before them.
pub proof fn law_lines_keep_their_order(
    a: Seq<OutboundEnvelope>,
    b: Seq<OutboundEnvelope>,
    connection: OriginView,
)
    ensures
        written(a + b, connection) == written(a, connection) + written(b, connection),
    decreases b.len(),
{
    if b.len() == 0 {
        assert(a + b =~= a);
        assert(written(a, connection) + written(b, connection) =~= written(a, connection));
    } else {
        law_lines_keep_their_order(a, b.drop_last(), connection);
        assert((a + b).drop_last() =~= a + b.drop_last());
        assert((a + b).last() == b.last());
        assert(written(a + b, connection) =~= written(a, connection) + written(b, connection));
    }
}

/// The number of items that a connection delivers.
pub open spec fn deliveries(stream: Seq<OutboundEnvelope>, connection: OriginView) -> nat {
    stream.filter(|e: OutboundEnvelope| delivered_to(e, connection)).len()
}

/// A connection writes exactly one line for each item that it delivers, if the items are each
/// within one line.
pub proof fn law_each_item_is_one_line(stream: Seq<OutboundEnvelope>, connection: OriginView)
    requires
        forall|i: int| 0 <= i < stream.len() ==> json::one_line((#[trigger] stream[i]).item.0@),
    ensures
        text::breaks(written(stream, connection)) == deliveries(stream, connection),
        written(stream, connection).len() > 0 ==> written(stream, connection).last() == '\n',
    decreases stream.len(),
{
    let p = |e: OutboundEnvelope| delivered_to(e, connection);
    let q = |c: char| c == '\n';
    reveal(Seq::filter);
    if stream.len() > 0 {
        let before = stream.drop_last();
        let e = stream.last();
        law_each_item_is_one_line(before, connection);
        assert(stream =~= before.push(e));
        if delivered_to(e, connection) {
            reveal_strlit("\n");
            let w = written(before, connection);
            let item = e.item.0@;
            let line = item + "\n"@;
            assert(json::one_line(stream[stream.len() - 1].item.0@));
            seqs::lemma_filter_none(item, q);
            assert(line.drop_last() =~= item);
            assert(line.last() == '\n');
            assert(line.filter(q).len() == 1);
            Seq::filter_distributes_over_add(w, line, q);
            assert((w + line).last() == '\n');
        }
    }
}

/// Connections with different numbers are different.
pub proof fn law_connections_are_told_apart(a: u64, b: u64)
    requires
        a != b,
    ensures
        text::decimal_view(a as nat) != text::decimal_view(b as nat),
{
    if text::decimal_view(a as nat) == text::decimal_view(b as nat) {
        digits::lemma_decimals_differ(a as nat, b as nat);
    }
}

/// A connection writes an item that it delivers as the text of the item and a line end, and nothing
/// of any other.
pub proof fn law_an_item_is_written_as_its_line(e: OutboundEnvelope, connection: OriginView)
    ensures
        e.origin is None || (e.origin->0.transport@ == connection.transport
            && e.origin->0.connection_id.deep_view() == connection.connection_id) ==> written(
            seq![e],
            connection,
        ) == e.item.0@.push('\n'),
        e.origin is Some && (e.origin->0.transport@ != connection.transport
            || e.origin->0.connection_id.deep_view() != connection.connection_id) ==> written(
            seq![e],
            connection,
        ).len() == 0,
        written(Seq::empty(), connection).len() == 0,
{
    reveal_strlit("\n");
    assert(seq![e].drop_last() =~= Seq::empty());
    assert(written(seq![e].drop_last(), connection) =~= Seq::empty());
    if delivered_to(e, connection) {
        assert(written(seq![e], connection) =~= e.item.0@.push('\n'));
    }
}

/// A member of a JSON object in its text.
pub open spec fn member(name: Seq<char>, value: Seq<char>) -> Seq<char> {
    seq!['"'] + name + seq!['"', ':'] + value
}

/// A reply carries its identifier, its protocol version, and its result or its error with code,
/// message, and data if there are any, each under its name.
#[verifier::rlimit(60)]
#[verifier::spinoff_prover]
pub proof fn law_replies_carry_named_values(r: Response, version: Seq<char>, message: Seq<char>)
    ensures
        r is Success ==> response_text(r, version, message) == seq!['{'] + member(
            "id"@,
            r->Success_id@,
        ) + seq![','] + member("jsonrpc"@, version) + seq![','] + member(
            "result"@,
            r->Success_result@,
        ) + seq!['}'],
        r is Failure && r->Failure_error.data is None ==> response_text(r, version, message)
            == seq!['{'] + member(
            "error"@,
            seq!['{'] + member("code"@, json::signed_view(r->Failure_error.code as int)) + seq![',']
                + member("message"@, message) + seq!['}'],
        ) + seq![','] + member("id"@, r->Failure_id@) + seq![','] + member("jsonrpc"@, version)
            + seq!['}'],
        r is Failure && r->Failure_error.data is Some ==> response_text(r, version, message)
            == seq!['{'] + member(
            "error"@,
            seq!['{'] + member("code"@, json::signed_view(r->Failure_error.code as int)) + seq![',']
                + member("data"@, r->Failure_error.data->0@) + seq![','] + member(
                "message"@,
                message,
            ) + seq!['}'],
        ) + seq![','] + member("id"@, r->Failure_id@) + seq![','] + member("jsonrpc"@, version)
            + seq!['}'],
{
    reveal_strlit("{\"id\":");
    reveal_strlit(",\"jsonrpc\":");
    reveal_strlit(",\"result\":");
    reveal_strlit("}");
    reveal_strlit("{\"error\":{\"code\":");
    reveal_strlit(",\"data\":");
    reveal_strlit(",\"message\":");
    reveal_strlit("},\"id\":");
    reveal_strlit("id");
    reveal_strlit("jsonrpc");
    reveal_strlit("result");
    reveal_strlit("error");
    reveal_strlit("code");
    reveal_strlit("data");
    reveal_strlit("message");
    let text = response_text(r, version, message);
    if r is Success {
        assert(text =~= seq!['{'] + member("id"@, r->Success_id@) + seq![','] + member(
            "jsonrpc"@,
            version,
        ) + seq![','] + member("result"@, r->Success_result@) + seq!['}']);
    } else if r->Failure_error.data is None {
        assert(text =~= seq!['{'] + member(
            "error"@,
            seq!['{'] + member("code"@, json::signed_view(r->Failure_error.code as int)) + seq![',']
                + member("message"@, message) + seq!['}'],
        ) + seq![','] + member("id"@, r->Failure_id@) + seq![','] + member("jsonrpc"@, version)
            + seq!['}']);
    } else {
        assert(text =~= seq!['{'] + member(
            "error"@,
            seq!['{'] + member("code"@, json::signed_view(r->Failure_error.code as int)) + seq![',']
                + member("data"@, r->Failure_error.data->0@) + seq![','] + member(
                "message"@,
                message,
            ) + seq!['}'],
        ) + seq![','] + member("id"@, r->Failure_id@) + seq![','] + member("jsonrpc"@, version)
            + seq!['}']);
    }
}

/// A notification carries the protocol version, its method and its parameters, each under its name.
pub proof fn law_notifications_carry_named_values(method: Seq<char>, params: Seq<char>)
    ensures
        notification_text(method, params) == seq!['{'] + member(
            "jsonrpc"@,
            seq!['"', '2', '.', '0', '"'],
        ) + seq![','] + member("method"@, method) + seq![','] + member("params"@, params)
            + seq!['}'],
{
    reveal_strlit("{\"jsonrpc\":\"2.0\",\"method\":");
    reveal_strlit(",\"params\":");
    reveal_strlit("}");
    reveal_strlit("jsonrpc");
    reveal_strlit("method");
    reveal_strlit("params");
    assert(notification_text(method, params) =~= seq!['{'] + member(
        "jsonrpc"@,
        seq!['"', '2', '.', '0', '"'],
    ) + seq![','] + member("method"@, method) + seq![','] + member("params"@, params) + seq!['}']);
}

/// The text of a reply holds its own version, message and identifier.
pub proof fn law_replies_hold_their_own_values(r: Response)
    ensures
        r is Success ==> version_of(r) == r->Success_jsonrpc@ && id_of(r) == r->Success_id@
            && message_of(r).len() == 0,
        r is Failure ==> version_of(r) == r->Failure_jsonrpc@ && id_of(r) == r->Failure_id@
            && message_of(r) == r->Failure_error.message@,
        response_json(r) == response_text(
            r,
            json::quoted(version_of(r)),
            json::quoted(message_of(r)),
        ),
{
}

/// What is no JSON is refused as that, with no identifier to answer to; what is JSON and no request
/// is refused as that, to the identifier that it carries; and a request is handed on as it was read.
pub proof fn law_refusals_tell_what_is_wrong(
    r: Result<Request, Response>,
    is_json: bool,
    id: Option<Seq<char>>,
    request: Option<Request>,
)
    requires
        answers(r, is_json, id, request),
    ensures
        r is Ok ==> request == Some(r->Ok_0),
        !is_json ==> r is Err && r->Err_0 is Failure && r->Err_0->Failure_error.code == -32700
            && r->Err_0->Failure_id@ == "null"@ && r->Err_0->Failure_error.message@
            == "parse error"@ && r->Err_0->Failure_jsonrpc@ == "2.0"@
            && r->Err_0->Failure_error.data is None,
        is_json && request is None ==> r is Err && r->Err_0 is Failure
            && r->Err_0->Failure_error.code == -32600 && r->Err_0->Failure_error.message@
            == "invalid request"@ && (id is Some ==> r->Err_0->Failure_id@ == id->0) && (id is None
            ==> r->Err_0->Failure_id@ == "null"@) && r->Err_0->Failure_jsonrpc@ == "2.0"@
            && r->Err_0->Failure_error.data is None,
{
}

/// A received item is written as its line if the connection delivers it, and skipped if not; a
/// connection that fell behind goes on, and one whose stream has ended stops.
pub proof fn law_received_items_are_written_or_skipped(
    received: &Received,
    origin: &Origin,
    r: WriteStep,
)
    requires
        call_ensures(write_step, (received, origin), r),
    ensures
        r is Stop <==> *received is Closed,
        r is Write <==> *received is Item && delivered_to(received->Item_0, origin_view(*origin)),
        r is Write ==> r->Write_0@ == received->Item_0.item.0@.push('\n'),
{
    reveal_strlit("\n");
    if let Received::Item(e) = *received {
        assert(e.item.0@ + "\n"@ =~= e.item.0@.push('\n'));
    }
}

/// A reply goes to the connection that asked and carries the number of the request; a notification
/// goes where it is sent and answers nothing. Neither has a place among the commands.
pub proof fn law_replies_go_back(
    origin: Origin,
    id: String,
    response: &Response,
    reply: OutboundEnvelope,
    to: Option<Origin>,
    method: &str,
    params: &str,
    notice: OutboundEnvelope,
)
    requires
        call_ensures(response_envelope, (origin, id, response), reply),
        call_ensures(notification_envelope, (to, method, params), notice),
    ensures
        reply.origin == Some(origin),
        delivered_to(reply, origin_view(origin)),
        reply.request_id == Some(id),
        reply.command_seq is None,
        reply.item.0@ == response_json(*response),
        notice.origin == to,
        notice.request_id is None,
        notice.command_seq is None,
        notice.item.0@ == notification_text(json::quoted(method@), params@),
{
}

/// A successful reply carries the result, and a failed one code and message, to the identifier it
/// answers.
pub proof fn law_replies_carry_what_they_are_made_of(
    id: String,
    result: String,
    ok: Response,
    code: i32,
    message: &str,
    failure: Response,
    n: u64,
    origin: Origin,
)
    requires
        call_ensures(ok_response, (id, result), ok),
        call_ensures(err_response, (id, code, message), failure),
        call_ensures(stdio_origin, (n,), origin),
    ensures
        ok is Success && ok->Success_id == id && ok->Success_result == result && version_of(ok)
            == "2.0"@,
        failure is Failure && failure->Failure_id@ == id@ && failure->Failure_error.code == code
            && failure->Failure_error.message@ == message@ && failure->Failure_error.data is None
            && version_of(failure) == "2.0"@,
        origin.transport@ == "stdio"@,
        origin.connection_id is Some && text::number(origin.connection_id->0@) == n,
{
    assert(origin_view(origin).transport == origin.transport@);
    assert(origin_view(origin).connection_id == origin.connection_id.deep_view());
    text::law_decimals_stand_for_their_number(n as nat);
}

/// A line is handled exactly if it is JSON and was read as a request, and else is refused to the
/// connection that it came over.
pub proof fn law_lines_are_answered_to_their_connection(
    line: &str,
    request: Option<Request>,
    origin: Origin,
    r: LineStep,
)
    requires
        call_ensures(line_step, (line, request, origin), r),
    ensures
        r is Handle <==> json::compacted(line@) is Ok && request is Some,
        r is Handle ==> request == Some(r->Handle_0),
        r is Refuse ==> r->Refuse_0.origin == Some(origin) && r->Refuse_0.request_id is Some
            && r->Refuse_0.command_seq is None,
        r is Refuse && json::compacted(line@) is Err ==> r->Refuse_0.request_id->0@ == "null"@,
        r is Refuse && json::compacted(line@) is Ok && json::member_of(line@, "id"@) is Some
            ==> r->Refuse_0.request_id->0@ == json::member_of(line@, "id"@)->0,
{
}

} // verus!
