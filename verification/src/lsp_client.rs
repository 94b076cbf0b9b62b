//! Messages of a client of a language server: framing, requests, replies and symbols.
use vstd::prelude::*;

use crate::digits;
use crate::json;
use crate::seqs;
use crate::text;

verus! {

/// Why a request to the server failed.
#[derive(Debug, Clone, PartialEq, Eq)]
pub enum LspError {
    Connect(String),
    Io(String),
    Json(String),
    Server(String),
    InvalidHeader,
}

impl LspError {
    /// The error in words.
    pub open spec fn words(&self) -> Seq<char> {
        match *self {
            LspError::Connect(e) => "connection failed: "@ + e@,
            LspError::Io(e) => "I/O error: "@ + e@,
            LspError::Json(e) => "JSON error: "@ + e@,
            LspError::Server(e) => "LSP server error: "@ + e@,
            LspError::InvalidHeader => "invalid header from LSP server"@,
        }
    }

    /// The error in words.
    pub fn message(&self) -> (r: String)
        ensures
            r@ == self.words(),
    {
        match self {
            LspError::Connect(e) => "connection failed: ".to_owned().concat(e),
            LspError::Io(e) => "I/O error: ".to_owned().concat(e),
            LspError::Json(e) => "JSON error: ".to_owned().concat(e),
            LspError::Server(e) => "LSP server error: ".to_owned().concat(e),
            LspError::InvalidHeader => "invalid header from LSP server".to_owned(),
        }
    }
}

/// A symbol of the workspace.
#[derive(Debug, Clone, PartialEq, Eq)]
pub struct SymbolResult {
    pub name: String,
    pub kind: u32,
    pub file: String,
    pub start_line: u32,
    pub end_line: u32,
}

/// The contents of a [`SymbolResult`].
pub struct SymbolView {
    pub name: Seq<char>,
    pub kind: u32,
    pub file: Seq<char>,
    pub start_line: u32,
    pub end_line: u32,
}

impl DeepView for SymbolResult {
    type V = SymbolView;

    open spec fn deep_view(&self) -> SymbolView {
        SymbolView {
            name: self.name@,
            kind: self.kind,
            file: self.file@,
            start_line: self.start_line,
            end_line: self.end_line,
        }
    }
}

/// The first line of a message of `n` bytes, without its end.
pub open spec fn header_line(n: nat) -> Seq<char> {
    "Content-Length: "@ + text::decimal_view(n)
}

/// A message: the length of its body in bytes, an empty line, the body.
pub fn frame(body: &str) -> (r: String)
    ensures
        r@ == header_line(text::byte_len_view(body@)) + "\r\n\r\n"@ + body@,
{
    let length = text::decimal(text::byte_len(body) as u64);
    "Content-Length: ".to_owned().concat(&length).concat("\r\n\r\n").concat(body)
}

/// The length that a header line states; none if it states none.
pub open spec fn stated_length(line: Seq<char>) -> Option<nat> {
    let t = text::trim_view(line);
    if text::has_prefix(t, "Content-Length: "@) {
        digits::parsed(t.skip("Content-Length: "@.len() as int))
    } else {
        None
    }
}

/// Reads a header line.
pub fn content_length(header_line: &str) -> (r: Result<usize, LspError>)
    ensures
        match stated_length(header_line@) {
            Some(n) if n <= usize::MAX => r == Ok::<usize, LspError>(n as usize),
            _ => r is Err && r->Err_0 is InvalidHeader,
        },
{
    match text::strip_prefix(text::trim(header_line), "Content-Length: ") {
        Some(rest) => match digits::parse_usize(rest) {
            Some(n) => Ok(n),
            None => Err(LspError::InvalidHeader),
        },
        None => Err(LspError::InvalidHeader),
    }
}

/// The JSON text of a request, from the JSON texts of its method and its parameters.
pub open spec fn request_text(id: u64, method: Seq<char>, params: Seq<char>) -> Seq<char> {
    "{\"id\":"@ + text::decimal_view(id as nat) + ",\"jsonrpc\":\"2.0\",\"method\":"@ + method
        + ",\"params\":"@ + params + "}"@
}

/// The body of a request. `params` is a JSON text.
pub fn request_body(id: u64, method: &str, params: &str) -> (r: String)
    ensures
        r@ == request_text(id, json::quoted(method@), params@),
{
    let id = text::decimal(id);
    let method = json::quote(method);
    "{\"id\":".to_owned().concat(&id).concat(",\"jsonrpc\":\"2.0\",\"method\":").concat(
        &method,
    ).concat(",\"params\":").concat(params).concat("}")
}

/// The JSON text of a notification, from the JSON texts of its method and its parameters.
pub open spec fn notice_text(method: Seq<char>, params: Seq<char>) -> Seq<char> {
    "{\"jsonrpc\":\"2.0\",\"method\":"@ + method + ",\"params\":"@ + params + "}"@
}

/// The body of a notification. `params` is a JSON text.
pub fn notice_body(method: &str, params: &str) -> (r: String)
    ensures
        r@ == notice_text(json::quoted(method@), params@),
{
    let method = json::quote(method);
    "{\"jsonrpc\":\"2.0\",\"method\":".to_owned().concat(&method).concat(",\"params\":").concat(
        params,
    ).concat("}")
}

/// The parameters of the handshake.
pub fn initialize_params() -> (r: &'static str)
    ensures
        r@ == "{\"capabilities\":{},\"processId\":null,\"rootUri\":null}"@,
{
    "{\"capabilities\":{},\"processId\":null,\"rootUri\":null}"
}

/// The parameters of a query for symbols.
pub fn symbol_params(query: &str) -> (r: String)
    ensures
        r@ == "{\"query\":"@ + json::quoted(query@) + "}"@,
{
    let query = json::quote(query);
    "{\"query\":".to_owned().concat(&query).concat("}")
}

/// What a message of the server is to a request that waits.
#[derive(Debug, Clone, PartialEq, Eq)]
pub enum Reply {
    /// It belongs to something else.
    Skip,
    /// The request failed with this error, a JSON text.
    Failed(String),
    /// The request gave this result, a JSON text.
    Done(String),
}

/// Whether `r` says what a message is to the request `expected`, given the message's identifier,
/// error and result.
pub open spec fn is_reply(
    r: Reply,
    expected: u64,
    id: Option<u64>,
    error: Option<Seq<char>>,
    result: Option<Seq<char>>,
) -> bool {
    if id != Some(expected) {
        r is Skip
    } else {
        match error {
            Some(e) => r is Failed && r->Failed_0@ == e,
            None => r is Done && r->Done_0@ == json::or_null(result),
        }
    }
}

/// What a message is to the request `expected`, given the message's identifier, error and result.
pub fn reply_given(expected: u64, id: Option<u64>, error: Option<String>, result: Option<String>)
    -> (r: Reply)
    ensures
        is_reply(r, expected, id, error.deep_view(), result.deep_view()),
{
    match id {
        Some(id) if id == expected => match error {
            Some(e) => Reply::Failed(e),
            None => Reply::Done(json::text_or_null(result)),
        },
        _ => Reply::Skip,
    }
}

/// What a message is to the request `expected`. One that is no JSON is an error.
pub fn read_reply(body: &str, expected: u64) -> (r: Result<Reply, LspError>)
    ensures
        match r {
            Ok(reply) => json::compacted(body@) is Ok && is_reply(
                reply,
                expected,
                json::number_at(body@, "id"@),
                json::member_of(body@, "error"@),
                json::member_of(body@, "result"@),
            ),
            Err(e) => e is Json && json::compacted(body@) == Err::<Seq<char>, Seq<char>>(
                e->Json_0@,
            ),
        },
{
    if let Err(e) = json::compact(body) {
        return Err(LspError::Json(e));
    }
    Ok(
        reply_given(
            expected,
            json::member_number(body, "id"),
            json::member(body, "error"),
            json::member(body, "result"),
        ),
    )
}

/// The name of the server after the handshake, given whether it said anything of itself and the
/// name that it gave.
pub open spec fn named_server(has_info: bool, name: Option<Seq<char>>) -> Seq<char> {
    if !has_info {
        Seq::empty()
    } else {
        match name {
            Some(n) => n,
            None => "unknown"@,
        }
    }
}

/// The name that the reply to a handshake gives the server.
pub open spec fn given_name(reply: Seq<char>) -> Option<Seq<char>> {
    match json::member_of(reply, "serverInfo"@) {
        Some(info) => json::string_at(info, "name"@),
        None => None,
    }
}

/// The name of the server after the handshake, given whether it said anything of itself and the
/// name that it gave.
pub fn name_given(has_info: bool, name: Option<String>) -> (r: String)
    ensures
        r@ == named_server(has_info, name.deep_view()),
{
    if !has_info {
        let none = String::new();
        proof {
            assert(none@ =~= Seq::empty());
        }
        none
    } else {
        match name {
            Some(n) => n,
            None => "unknown".to_owned(),
        }
    }
}

/// The name of the server, from the reply to the handshake.
pub fn server_name(reply: &str) -> (r: String)
    ensures
        r@ == named_server(json::member_of(reply@, "serverInfo"@) is Some, given_name(reply@)),
{
    match json::member(reply, "serverInfo") {
        Some(info) => name_given(true, json::member_string(&info, "name")),
        None => name_given(false, None),
    }
}

/// The path of a location without the scheme of files.
pub open spec fn path_of(uri: Seq<char>) -> Seq<char> {
    if text::has_prefix(uri, "file://"@) {
        uri.skip("file://"@.len() as int)
    } else {
        uri
    }
}

/// The symbol with these parts, if all of them are there.
pub open spec fn symbol_from(
    name: Option<Seq<char>>,
    kind: Option<u64>,
    uri: Option<Seq<char>>,
    start: Option<u64>,
    end: Option<u64>,
) -> Option<SymbolView> {
    if name is Some && kind is Some && uri is Some && start is Some && end is Some {
        Some(
            SymbolView {
                name: name->0,
                kind: kind->0 as u32,
                file: path_of(uri->0),
                start_line: start->0 as u32,
                end_line: end->0 as u32,
            },
        )
    } else {
        None
    }
}

/// Numbers that do not fit are cut to their lower bits.
fn low_bits(n: u64) -> (r: u32)
    ensures
        r == n as u32,
{
    #[verifier::truncate]
    (n as u32)
}

/// The symbol with these parts, if all of them are there.
pub fn symbol_given(
    name: Option<String>,
    kind: Option<u64>,
    uri: Option<String>,
    start: Option<u64>,
    end: Option<u64>,
) -> (r: Option<SymbolResult>)
    ensures
        r.deep_view() == symbol_from(name.deep_view(), kind, uri.deep_view(), start, end),
{
    match (name, kind, uri, start, end) {
        (Some(name), Some(kind), Some(uri), Some(start), Some(end)) => {
            let file = match text::strip_prefix(&uri, "file://") {
                Some(path) => path.to_owned(),
                None => uri.clone(),
            };
            Some(
                SymbolResult {
                    name,
                    kind: low_bits(kind),
                    file,
                    start_line: low_bits(start),
                    end_line: low_bits(end),
                },
            )
        },
        _ => None,
    }
}

/// The line at the end `end` of the range of a symbol.
pub open spec fn line_at(symbol: Seq<char>, end: Seq<char>) -> Option<u64> {
    match json::member_of(symbol, "location"@) {
        Some(location) => match json::member_of(location, "range"@) {
            Some(range) => match json::member_of(range, end) {
                Some(place) => json::number_at(place, "line"@),
                None => None,
            },
            None => None,
        },
        None => None,
    }
}

/// The location of a symbol.
pub open spec fn uri_of(symbol: Seq<char>) -> Option<Seq<char>> {
    match json::member_of(symbol, "location"@) {
        Some(location) => json::string_at(location, "uri"@),
        None => None,
    }
}

/// The symbol of a JSON text, if it has all parts.
pub open spec fn symbol_of(symbol: Seq<char>) -> Option<SymbolView> {
    symbol_from(
        json::string_at(symbol, "name"@),
        json::number_at(symbol, "kind"@),
        uri_of(symbol),
        line_at(symbol, "start"@),
        line_at(symbol, "end"@),
    )
}

fn read_line(symbol: &str, end: &str) -> (r: Option<u64>)
    ensures
        r == line_at(symbol@, end@),
{
    match json::member(symbol, "location") {
        Some(location) => match json::member(&location, "range") {
            Some(range) => match json::member(&range, end) {
                Some(place) => json::member_number(&place, "line"),
                None => None,
            },
            None => None,
        },
        None => None,
    }
}

fn read_uri(symbol: &str) -> (r: Option<String>)
    ensures
        r.deep_view() == uri_of(symbol@),
{
    match json::member(symbol, "location") {
        Some(location) => json::member_string(&location, "uri"),
        None => None,
    }
}

fn read_symbol(symbol: &str) -> (r: Option<SymbolResult>)
    ensures
        r.deep_view() == symbol_of(symbol@),
{
    symbol_given(
        json::member_string(symbol, "name"),
        json::member_number(symbol, "kind"),
        read_uri(symbol),
        read_line(symbol, "start"),
        read_line(symbol, "end"),
    )
}

/// The symbols among `items`.
pub open spec fn symbols_of(items: Seq<Seq<char>>) -> Seq<SymbolView>
    decreases items.len(),
{
    if items.len() == 0 {
        Seq::empty()
    } else {
        let before = symbols_of(items.drop_last());
        match symbol_of(items.last()) {
            Some(s) => before.push(s),
            None => before,
        }
    }
}

/// The first `n` of `items`, or all if there are no more.
pub open spec fn at_most<A>(items: Seq<A>, n: nat) -> Seq<A> {
    if items.len() > n {
        items.take(n as int)
    } else {
        items
    }
}

/// The items of a reply; none if it is no array.
pub open spec fn items_of(reply: Seq<char>) -> Seq<Seq<char>> {
    match json::elements_of(reply) {
        Some(items) => items,
        None => Seq::empty(),
    }
}

/// The symbols among the first `limit` items, each a JSON text.
pub fn symbols_among(items: &Vec<String>, limit: usize) -> (r: Vec<SymbolResult>)
    ensures
        r.deep_view() == symbols_of(at_most(items.deep_view(), limit as nat)),
{
    let n: usize = if items.len() > limit {
        limit
    } else {
        items.len()
    };
    let ghost all = items.deep_view();
    let mut r: Vec<SymbolResult> = Vec::new();
    let mut i: usize = 0;
    proof {
        assert(all.take(0) =~= Seq::empty());
        assert(r.deep_view() =~= Seq::empty());
    }
    while i < n
        invariant
            i <= n,
            n <= items@.len(),
            all == items.deep_view(),
            r.deep_view() == symbols_of(all.take(i as int)),
        decreases n - i,
    {
        proof {
            seqs::lemma_take_step(all, i as int);
            assert(all[i as int] == items@[i as int]@);
        }
        let ghost before = r.deep_view();
        if let Some(symbol) = read_symbol(&items[i]) {
            r.push(symbol);
            proof {
                assert(r.deep_view() =~= before.push(symbol.deep_view()));
            }
        }
        i += 1;
    }
    proof {
        assert(all.take(n as int) =~= at_most(all, limit as nat));
    }
    r
}

/// The symbols among the first `limit` items of a reply. Items that lack a part are left out.
pub fn workspace_symbols(reply: &str, limit: usize) -> (r: Vec<SymbolResult>)
    ensures
        r.deep_view() == symbols_of(at_most(items_of(reply@), limit as nat)),
{
    let items = match json::elements(reply) {
        Some(items) => items,
        None => {
            let none: Vec<String> = Vec::new();
            proof {
                assert(none.deep_view() =~= Seq::empty());
            }
            none
        },
    };
    symbols_among(&items, limit)
}

/// The header of a message states the length of its body.
pub proof fn law_headers_read_back(n: nat)
    ensures
        stated_length(header_line(n) + "\r\n"@) == Some(n),
{
    reveal_strlit("Content-Length: ");
    reveal_strlit("\r\n");
    digits::lemma_decimal_reads_back(n);
    let d = text::decimal_view(n);
    let h = header_line(n);
    let s = h + "\r\n"@;
    assert(s[0] == 'C');
    assert(text::trim_start_view(s) == s);
    assert(s.last() == '\n');
    assert(s.drop_last().last() == '\r');
    assert(s.drop_last().drop_last() =~= h);
    assert(h.last() == d.last());
    assert(digits::is_digit(d[d.len() - 1]));
    assert(text::strip_back(h, text::blank()) == h);
    assert(text::strip_back(s.drop_last(), text::blank()) == h);
    assert(text::trim_view(s) == h);
    assert(h.take("Content-Length: "@.len() as int) =~= "Content-Length: "@);
    assert(h.skip("Content-Length: "@.len() as int) =~= d);
}

/// At most as many symbols are given as were asked for.
pub proof fn law_symbols_respect_the_limit(items: Seq<Seq<char>>, limit: nat)
    ensures
        symbols_of(at_most(items, limit)).len() <= limit,
{
    lemma_symbols_no_more(at_most(items, limit));
}

proof fn lemma_symbols_no_more(items: Seq<Seq<char>>)
    ensures
        symbols_of(items).len() <= items.len(),
    decreases items.len(),
{
    if items.len() > 0 {
        lemma_symbols_no_more(items.drop_last());
    }
}

/// A header line states a length exactly if it is the name of the header and a number, whatever
/// white space stands around it.
pub proof fn law_headers_state_a_length(
    before: Seq<char>,
    digits: Seq<char>,
    after: Seq<char>,
    line: Seq<char>,
)
    requires
        digits.len() > 0,
        digits::all_digits(digits),
        forall|i: int| 0 <= i < before.len() ==> text::is_white_space(#[trigger] before[i]),
        forall|i: int| 0 <= i < after.len() ==> text::is_white_space(#[trigger] after[i]),
    ensures
        stated_length(before + ("Content-Length: "@ + digits) + after) == Some(
            text::number(digits) as nat,
        ),
        stated_length(line) is Some ==> text::has_prefix(
            text::trim_view(line),
            "Content-Length: "@,
        ),
{
    reveal_strlit("Content-Length: ");
    let core = "Content-Length: "@ + digits;
    assert(core[0] == 'C');
    assert(core.last() == digits.last());
    assert(digits::is_digit(digits[digits.len() - 1]));
    text::law_trimming_finds_the_core(before, core, after);
    assert(core.take("Content-Length: "@.len() as int) =~= "Content-Length: "@);
    assert(core.skip("Content-Length: "@.len() as int) =~= digits);
    assert(digits::is_digit(digits[0]));
    digits::law_digits_stand_for_their_number(digits);
}

/// A member of a JSON object in its text.
pub open spec fn member(name: Seq<char>, value: Seq<char>) -> Seq<char> {
    seq!['"'] + name + seq!['"', ':'] + value
}

/// Requests and notifications carry the protocol version, their method and their parameters, each
/// under its name, and requests their number besides.
#[verifier::rlimit(60)]
#[verifier::spinoff_prover]
pub proof fn law_messages_carry_named_values(id: u64, method: Seq<char>, params: Seq<char>)
    ensures
        request_text(id, method, params) == seq!['{'] + member(
            "id"@,
            text::decimal_view(id as nat),
        ) + seq![','] + member("jsonrpc"@, seq!['"', '2', '.', '0', '"']) + seq![','] + member(
            "method"@,
            method,
        ) + seq![','] + member("params"@, params) + seq!['}'],
        notice_text(method, params) == seq!['{'] + member(
            "jsonrpc"@,
            seq!['"', '2', '.', '0', '"'],
        ) + seq![','] + member("method"@, method) + seq![','] + member("params"@, params)
            + seq!['}'],
{
    reveal_strlit("{\"id\":");
    reveal_strlit(",\"jsonrpc\":\"2.0\",\"method\":");
    reveal_strlit(",\"params\":");
    reveal_strlit("}");
    reveal_strlit("{\"jsonrpc\":\"2.0\",\"method\":");
    reveal_strlit("id");
    reveal_strlit("jsonrpc");
    reveal_strlit("method");
    reveal_strlit("params");
    assert(request_text(id, method, params) =~= seq!['{'] + member(
        "id"@,
        text::decimal_view(id as nat),
    ) + seq![','] + member("jsonrpc"@, seq!['"', '2', '.', '0', '"']) + seq![','] + member(
        "method"@,
        method,
    ) + seq![','] + member("params"@, params) + seq!['}']);
    assert(notice_text(method, params) =~= seq!['{'] + member(
        "jsonrpc"@,
        seq!['"', '2', '.', '0', '"'],
    ) + seq![','] + member("method"@, method) + seq![','] + member("params"@, params) + seq!['}']);
}

/// A message answers a request exactly if it carries its number; it is a failure exactly if it
/// carries an error, and its result, or null without one, is what the request gave.
pub proof fn law_replies_belong_to_their_request(
    r: Reply,
    expected: u64,
    id: Option<u64>,
    error: Option<Seq<char>>,
    result: Option<Seq<char>>,
)
    requires
        is_reply(r, expected, id, error, result),
    ensures
        r is Skip <==> id is None || id->0 != expected,
        r is Failed <==> id == Some(expected) && error is Some,
        r is Failed ==> error == Some(r->Failed_0@),
        r is Done <==> id == Some(expected) && error is None,
        r is Done && result is Some ==> result == Some(r->Done_0@),
        r is Done && result is None ==> r->Done_0@ == "null"@,
{
}

/// A server that says nothing of itself has no name, one that leaves out its name is unknown, and
/// any other has the name that it gives.
pub proof fn law_servers_are_named_as_they_say(name: Seq<char>, reply: Seq<char>)
    ensures
        named_server(false, None).len() == 0,
        named_server(true, None) == "unknown"@,
        named_server(true, Some(name)) == name,
        json::member_of(reply, "serverInfo"@) is None ==> given_name(reply) is None,
        json::member_of(reply, "serverInfo"@) is Some ==> given_name(reply) == json::string_at(
            json::member_of(reply, "serverInfo"@)->0,
            "name"@,
        ),
{
}

/// The location of a file is its path behind the scheme of files, and any other location is kept.
pub proof fn law_file_locations_become_paths(path: Seq<char>)
    ensures
        path_of("file://"@ + path) == path,
        !text::has_prefix(path, "file://"@) ==> path_of(path) == path,
{
    let s = "file://"@;
    assert((s + path).take(s.len() as int) =~= s);
    assert((s + path).skip(s.len() as int) =~= path);
}

/// There is a symbol exactly if all five of its parts are there, and it holds each of them in its
/// place.
pub proof fn law_symbols_need_all_their_parts(
    name: Option<Seq<char>>,
    kind: Option<u64>,
    uri: Option<Seq<char>>,
    start: Option<u64>,
    end: Option<u64>,
)
    ensures
        symbol_from(name, kind, uri, start, end) is None <==> name is None || kind is None
            || uri is None || start is None || end is None,
        symbol_from(name, kind, uri, start, end) matches Some(s) ==> {
            &&& s.name == name->0
            &&& s.file == path_of(uri->0)
            &&& kind->0 <= u32::MAX ==> s.kind == kind->0
            &&& start->0 <= u32::MAX ==> s.start_line == start->0
            &&& end->0 <= u32::MAX ==> s.end_line == end->0
        },
{
}

/// The lines of a symbol are the members `line` of the two ends of the range of its location, and
/// its file is the member `uri` of the location.
pub proof fn law_symbols_are_read_from_their_location(
    symbol: Seq<char>,
    location: Seq<char>,
    range: Seq<char>,
    first: Seq<char>,
    last: Seq<char>,
)
    requires
        json::member_of(symbol, "location"@) == Some(location),
        json::member_of(location, "range"@) == Some(range),
        json::member_of(range, "start"@) == Some(first),
        json::member_of(range, "end"@) == Some(last),
    ensures
        symbol_of(symbol) == symbol_from(
            json::string_at(symbol, "name"@),
            json::number_at(symbol, "kind"@),
            json::string_at(location, "uri"@),
            json::number_at(first, "line"@),
            json::number_at(last, "line"@),
        ),
{
}

/// Items are read one by one and in order, those that are no symbols are left out, and of more
/// items than were asked for the first are taken.
pub proof fn law_symbols_are_read_in_order(
    a: Seq<Seq<char>>,
    b: Seq<Seq<char>>,
    item: Seq<char>,
    limit: nat,
)
    ensures
        symbols_of(a + b) == symbols_of(a) + symbols_of(b),
        symbol_of(item) is Some ==> symbols_of(seq![item]) == seq![symbol_of(item)->0],
        symbol_of(item) is None ==> symbols_of(seq![item]).len() == 0,
        symbols_of(Seq::empty()).len() == 0,
        a.len() <= limit ==> at_most(a, limit) == a,
        a.len() == limit ==> at_most(a + b, limit) == a,
{
    lemma_symbols_of_two(a, b);
    assert(seq![item].drop_last() =~= Seq::empty());
    assert(symbols_of(seq![item].drop_last()) =~= Seq::empty());
    if symbol_of(item) is Some {
        assert(symbols_of(seq![item]) =~= seq![symbol_of(item)->0]);
    }
    if a.len() == limit {
        assert(at_most(a + b, limit) =~= a);
    }
}

proof fn lemma_symbols_of_two(a: Seq<Seq<char>>, b: Seq<Seq<char>>)
    ensures
        symbols_of(a + b) == symbols_of(a) + symbols_of(b),
    decreases b.len(),
{
    if b.len() == 0 {
        assert(a + b =~= a);
        assert(symbols_of(a + b) =~= symbols_of(a) + symbols_of(b));
    } else {
        assert((a + b).drop_last() =~= a + b.drop_last());
        lemma_symbols_of_two(a, b.drop_last());
        assert(symbols_of(a + b) =~= symbols_of(a) + symbols_of(b));
    }
}

/// The length that the header of a message states is that of its body in bytes, and the body stands
/// behind an empty line.
pub proof fn law_messages_state_their_length(
    body: &str,
    message: String,
    line: &str,
    r: Result<usize, LspError>,
)
    requires
        call_ensures(frame, (body,), message),
        call_ensures(content_length, (line,), r),
        line@ == header_line(text::byte_len_view(body@)) + "\r\n"@,
        text::byte_len_view(body@) <= usize::MAX,
    ensures
        text::has_prefix(message@, line@ + "\r\n"@),
        text::has_suffix(message@, body@),
        r == Ok::<usize, LspError>(text::byte_len_view(body@) as usize),
        message@.len() == line@.len() + 2 + body@.len(),
{
    law_headers_read_back(text::byte_len_view(body@));
    reveal_strlit("\r\n");
    reveal_strlit("\r\n\r\n");
    assert(message@ =~= line@ + "\r\n"@ + body@);
    assert(message@.take((line@ + "\r\n"@).len() as int) =~= line@ + "\r\n"@);
    assert(message@.skip(message@.len() - body@.len()) =~= body@);
}

/// A message that is no JSON is an error, and any other is read by its members.
pub proof fn law_messages_are_read_by_their_members(
    body: &str,
    expected: u64,
    r: Result<Reply, LspError>,
)
    requires
        call_ensures(read_reply, (body, expected), r),
    ensures
        r is Ok <==> json::compacted(body@) is Ok,
        r is Err ==> r->Err_0 is Json,
        r matches Ok(reply) ==> {
            let ours = json::number_at(body@, "id"@) == Some(expected);
            &&& reply is Skip <==> !ours
            &&& reply is Failed <==> ours && json::member_of(body@, "error"@) is Some
            &&& reply is Failed ==> json::member_of(body@, "error"@) == Some(reply->Failed_0@)
            &&& reply is Done && json::member_of(body@, "result"@) is Some ==> json::member_of(
                body@,
                "result"@,
            ) == Some(reply->Done_0@)
        },
{
}

} // verus!
