//! The small HTTP server behind the infoview window: what a request asks for,
//! and the heads of the answers.

use crate::text;
use vstd::prelude::*;
use vstd::slice::slice_subrange;
use vstd::string::*;
use vstd::utf8::*;

verus! {

/// The first port that the server tries.
pub const FIRST_PORT: u16 = 6237;

/// The port behind the last one that it tries.
pub const END_PORT: u16 = 6247;

/// The media type that goes with a file extension.
pub open spec fn media_type(extension: Seq<char>) -> Seq<char> {
    if extension == "html"@ {
        "text/html; charset=utf-8"@
    } else if extension == "js"@ {
        "text/javascript; charset=utf-8"@
    } else if extension == "css"@ {
        "text/css; charset=utf-8"@
    } else if extension == "ttf"@ {
        "font/ttf"@
    } else if extension == "svg"@ {
        "image/svg+xml"@
    } else if extension == "json"@ {
        "application/json"@
    } else {
        "application/octet-stream"@
    }
}

/// The media type of a file, by what stands behind the last dot of its path.
pub fn content_type(path: &str) -> (r: &'static str)
    ensures
        r@ == media_type(text::after_last(path@, '.')),
{
    let chars = text::chars_of(path);
    let extension = text::text_of(text::behind_last(chars.as_slice(), '.'));
    let e = extension.as_str();
    if text::same_text(e, "html") {
        "text/html; charset=utf-8"
    } else if text::same_text(e, "js") {
        "text/javascript; charset=utf-8"
    } else if text::same_text(e, "css") {
        "text/css; charset=utf-8"
    } else if text::same_text(e, "ttf") {
        "font/ttf"
    } else if text::same_text(e, "svg") {
        "image/svg+xml"
    } else if text::same_text(e, "json") {
        "application/json"
    } else {
        "application/octet-stream"
    }
}

// ---------------------------------------------------------------- requests --

/// The path that a request line asks for; the root where it names none.
pub open spec fn path_in(line: Seq<char>) -> Seq<char> {
    if text::words(line).len() > 1 {
        text::words(line)[1]
    } else {
        "/"@
    }
}

/// The path that a request line asks for.
pub fn request_path(line: &str) -> (r: String)
    ensures
        r@ == path_in(line@),
{
    let chars = text::chars_of(line);
    let words = text::split_words(chars.as_slice());
    proof {
        assert(text::texts(words@).len() == words@.len());
    }
    if words.len() > 1 {
        proof {
            assert(text::texts(words@)[1] == words@[1]@);
        }
        text::text_of(words[1].as_slice())
    } else {
        "/".to_owned()
    }
}

/// The header that carries the key of a WebSocket handshake.
pub open spec fn key_header() -> Seq<char> {
    "Sec-WebSocket-Key:"@
}

/// The key of the handshake once one more header line is read.
pub open spec fn key_after(key: Seq<char>, line: Seq<char>) -> Seq<char> {
    if text::begins(line, key_header()) {
        text::trimmed(line.skip(key_header().len() as int))
    } else {
        key
    }
}

/// Reads one header line, its line end included, into the key of the
/// handshake; returns whether more lines follow.
pub fn read_header(key: &mut String, line: &str) -> (r: bool)
    ensures
        r == (line@ != "\r\n"@),
        final(key)@ == if r {
            key_after(old(key)@, line@)
        } else {
            old(key)@
        },
{
    if text::same_text(line, "\r\n") {
        return false;
    }
    let chars = text::chars_of(line);
    let header = text::chars_of("Sec-WebSocket-Key:");
    if text::starts_with(chars.as_slice(), header.as_slice()) {
        let rest = slice_subrange(chars.as_slice(), header.len(), chars.len());
        proof {
            assert(rest@ =~= line@.skip(key_header().len() as int));
        }
        *key = text::text_of(text::trim(rest));
    }
    true
}

/// The key of the handshake once header lines are read; an empty line ends them.
pub open spec fn key_in(key: Seq<char>, headers: Seq<Seq<char>>) -> Seq<char>
    decreases headers.len(),
{
    if headers.len() == 0 || headers[0] == "\r\n"@ {
        key
    } else {
        key_in(key_after(key, headers[0]), headers.skip(1))
    }
}

/// What a request asks for.
pub enum Route {
    /// The infoview bridge; the answer to the handshake goes back first.
    Bridge(String),
    /// The stream of goal states.
    Events,
    /// A file below the directory of the web page.
    File(String),
    /// Nothing that is there to be had.
    Missing,
}

/// What such a route is.
pub enum RouteView {
    Bridge(Seq<char>),
    Events,
    File(Seq<char>),
    Missing,
}

impl View for Route {
    type V = RouteView;

    open spec fn view(&self) -> RouteView {
        match *self {
            Route::Bridge(t) => RouteView::Bridge(t@),
            Route::Events => RouteView::Events,
            Route::File(t) => RouteView::File(t@),
            Route::Missing => RouteView::Missing,
        }
    }
}

/// The file that a path names, relative to the directory of the web page: its
/// query is dropped, and the root stands for the page itself.
pub open spec fn relative_file(path: Seq<char>) -> Seq<char> {
    let clean = text::before_first(path, '?');
    if clean == "/"@ {
        "index.html"@
    } else {
        text::without_start(clean, '/')
    }
}

/// The key that answers the key of a WebSocket handshake.
pub uninterp spec fn accept_of(key: Seq<u8>) -> Seq<char>;

/// `tungstenite::handshake::derive_accept_key`: the value of the answer's
/// `Sec-WebSocket-Accept` header, which depends on the request's key alone.
#[verifier::external_body]
fn accept_key(key: &[u8]) -> (r: String)
    ensures
        r@ == accept_of(key@),
{
    tungstenite::handshake::derive_accept_key(key)
}

/// The head that accepts a WebSocket connection.
pub open spec fn handshake_head(accept: Seq<char>) -> Seq<char> {
    "HTTP/1.1 101 Switching Protocols\r\nUpgrade: websocket\r\nConnection: Upgrade\r\nSec-WebSocket-Accept: "@
        + accept + "\r\n\r\n"@
}

/// The head that accepts a WebSocket connection.
pub fn handshake(accept: &str) -> (r: String)
    ensures
        r@ == handshake_head(accept@),
{
    let mut out = String::new();
    out.append(
        "HTTP/1.1 101 Switching Protocols\r\nUpgrade: websocket\r\nConnection: Upgrade\r\nSec-WebSocket-Accept: ",
    );
    out.append(accept);
    out.append("\r\n\r\n");
    proof {
        assert(out@ =~= handshake_head(accept@));
    }
    out
}

/// What a request for `path` with the handshake key `key` asks for. A path that
/// could lead out of the directory of the web page is refused.
pub open spec fn route_of(path: Seq<char>, key: Seq<char>) -> RouteView {
    if path == "/ws"@ && key.len() > 0 {
        RouteView::Bridge(handshake_head(accept_of(encode_utf8(key))))
    } else if path == "/events"@ {
        RouteView::Events
    } else if text::occurs(relative_file(path), ".."@) {
        RouteView::Missing
    } else {
        RouteView::File(relative_file(path))
    }
}

/// Decides what a request asks for.
pub fn route(path: &str, key: &str) -> (r: Route)
    ensures
        r@ == route_of(path@, key@),
{
    if text::same_text(path, "/ws") && !key.is_empty() {
        let accept = accept_key(key.as_bytes());
        return Route::Bridge(handshake(accept.as_str()));
    }
    if text::same_text(path, "/events") {
        return Route::Events;
    }
    let chars = text::chars_of(path);
    let clean = text::ahead_of_first(chars.as_slice(), '?');
    let clean_text = text::text_of(clean);
    let file = if text::same_text(clean_text.as_str(), "/") {
        "index.html".to_owned()
    } else {
        text::text_of(text::strip_start(clean, '/'))
    };
    let file_chars = text::chars_of(file.as_str());
    let dots = text::chars_of("..");
    proof {
        reveal_strlit("..");
    }
    match text::find(file_chars.as_slice(), dots.as_slice()) {
        Some(i) => {
            proof {
                assert(text::occurs_at(file@, ".."@, i as int));
            }
            Route::Missing
        },
        None => Route::File(file),
    }
}

/// Decides what a whole request asks for: its request line, and the header lines
/// behind it with their line ends.
pub fn requested(line: &str, headers: &Vec<String>) -> (r: Route)
    ensures
        r@ == route_of(path_in(line@), key_in(Seq::empty(), text::strings(headers@))),
{
    let ghost all = text::strings(headers@);
    let mut key = String::new();
    let mut i: usize = 0;
    proof {
        assert(all.skip(0) =~= all);
    }
    while i < headers.len()
        invariant_except_break
            key_in(Seq::empty(), all) == key_in(key@, all.skip(i as int)),
        invariant
            i <= headers.len(),
            all == text::strings(headers@),
        ensures
            key_in(Seq::empty(), all) == key@,
        decreases headers.len() - i,
    {
        proof {
            let t = all.skip(i as int);
            assert(t[0] == headers@[i as int]@);
            assert(t.skip(1) =~= all.skip(i + 1));
        }
        if !read_header(&mut key, headers[i].as_str()) {
            break;
        }
        i += 1;
    }
    let path = request_path(line);
    route(path.as_str(), key.as_str())
}

// ----------------------------------------------------------------- answers --

/// The head of the stream of goal states.
pub fn events_head() -> (r: String)
    ensures
        r@
            == "HTTP/1.1 200 OK\r\nContent-Type: text/event-stream\r\nCache-Control: no-cache\r\nConnection: keep-alive\r\n\r\n"@,
{
    "HTTP/1.1 200 OK\r\nContent-Type: text/event-stream\r\nCache-Control: no-cache\r\nConnection: keep-alive\r\n\r\n".to_owned()
}

/// The head that goes before the bytes of a file.
pub fn file_head(file: &str, length: usize) -> (r: String)
    ensures
        r@ == "HTTP/1.1 200 OK\r\nContent-Type: "@ + media_type(text::after_last(file@, '.'))
            + "\r\nContent-Length: "@ + text::decimal(length as nat)
            + "\r\nConnection: close\r\n\r\n"@,
{
    let mut out = String::new();
    out.append("HTTP/1.1 200 OK\r\nContent-Type: ");
    out.append(content_type(file));
    out.append("\r\nContent-Length: ");
    text::push_decimal(&mut out, length as u64);
    out.append("\r\nConnection: close\r\n\r\n");
    proof {
        assert(out@ =~= "HTTP/1.1 200 OK\r\nContent-Type: "@ + media_type(
            text::after_last(file@, '.'),
        ) + "\r\nContent-Length: "@ + text::decimal(length as nat)
            + "\r\nConnection: close\r\n\r\n"@);
    }
    out
}

/// The answer where there is nothing to be had.
pub fn missing_head() -> (r: String)
    ensures
        r@ == "HTTP/1.1 404 Not Found\r\nContent-Length: 0\r\n\r\n"@,
{
    "HTTP/1.1 404 Not Found\r\nContent-Length: 0\r\n\r\n".to_owned()
}

// -------------------------------------------------------------------- laws --

proof fn lemma_no_start(s: Seq<char>, c: char)
    ensures
        text::without_start(s, c).len() > 0 ==> text::without_start(s, c)[0] != c,
    decreases s.len(),
{
    if s.len() > 0 && s[0] == c {
        lemma_no_start(s.skip(1), c);
    }
}

/// No request leads out of the directory of the web page: a file that is served
/// is named by a relative path without two dots in a row.
pub proof fn law_no_traversal(path: Seq<char>, key: Seq<char>, file: Seq<char>)
    requires
        route_of(path, key) == RouteView::File(file),
    ensures
        file.len() > 0 ==> file[0] != '/',
        !text::occurs(file, ".."@),
{
    reveal_strlit("index.html");
    lemma_no_start(text::before_first(path, '?'), '/');
}

/// The path is the second word of the request line, and the root where it has no
/// second word.
pub proof fn law_path_asked(method: Seq<char>, path: Seq<char>, rest: Seq<char>)
    requires
        text::is_word(method),
        text::is_word(path),
    ensures
        path_in(method + " "@ + path + " "@ + rest) == path,
        path_in(method + " "@ + path) == path,
        path_in(method) == "/"@,
        path_in(Seq::empty()) == "/"@,
{
    reveal_strlit(" ");
    let tail = " "@ + rest;
    let more = " "@ + path + tail;
    let line = method + " "@ + path + " "@ + rest;
    text::lemma_words_of_word(method);
    text::lemma_words_of_word(path);
    assert(line =~= method + more);
    assert(more[0] == ' ');
    text::lemma_words_split(method, more);
    assert(more.skip(1) =~= path + tail);
    assert(text::words(more) == text::words(path + tail));
    assert(tail[0] == ' ');
    text::lemma_words_split(path, tail);
    assert(text::words(line)[1] == path);
    let short = " "@ + path;
    assert(method + " "@ + path =~= method + short);
    assert(short[0] == ' ');
    text::lemma_words_split(method, short);
    assert(short.skip(1) =~= path);
    assert(text::words(short) == text::words(path));
    assert(text::words(Seq::<char>::empty()).len() == 0);
}

/// The header line is neither empty nor one that carries a handshake key.
pub open spec fn is_other_header(line: Seq<char>) -> bool {
    line != "\r\n"@ && !text::begins(line, "Sec-WebSocket-Key:"@)
}

proof fn lemma_other_headers(key: Seq<char>, others: Seq<Seq<char>>, rest: Seq<Seq<char>>)
    requires
        forall|i: int| 0 <= i < others.len() ==> is_other_header(#[trigger] others[i]),
    ensures
        key_in(key, others + rest) == key_in(key, rest),
    decreases others.len(),
{
    if others.len() == 0 {
        assert(others + rest =~= rest);
    } else {
        assert(is_other_header(others[0]));
        let t = others.skip(1);
        assert((others + rest)[0] == others[0]);
        assert((others + rest).skip(1) =~= t + rest);
        assert forall|i: int| 0 <= i < t.len() implies is_other_header(#[trigger] t[i]) by {
            assert(t[i] == others[i + 1]);
        }
        lemma_other_headers(key, t, rest);
    }
}

/// The key of a handshake is what its header says, without the white space around
/// it, in place of any earlier one and whatever other headers stand before and
/// behind it; what comes after the empty line does not count. Without such a header
/// the key stays as it was.
pub proof fn law_key_found(
    earlier: Seq<char>,
    before: Seq<Seq<char>>,
    lead: Seq<char>,
    key: Seq<char>,
    trail: Seq<char>,
    behind: Seq<Seq<char>>,
    beyond: Seq<Seq<char>>,
)
    requires
        forall|i: int| 0 <= i < before.len() ==> is_other_header(#[trigger] before[i]),
        forall|i: int| 0 <= i < behind.len() ==> is_other_header(#[trigger] behind[i]),
        forall|i: int| 0 <= i < lead.len() ==> text::is_space(#[trigger] lead[i]),
        forall|i: int| 0 <= i < trail.len() ==> text::is_space(#[trigger] trail[i]),
        key.len() > 0 ==> !text::is_space(key[0]) && !text::is_space(key.last()),
    ensures
        key_in(
            earlier,
            before + (seq!["Sec-WebSocket-Key:"@ + (lead + key + trail)] + (behind + (seq![
                "\r\n"@,
            ] + beyond))),
        ) == key,
        key_in(earlier, before + (seq!["\r\n"@] + beyond)) == earlier,
{
    reveal_strlit("Sec-WebSocket-Key:");
    reveal_strlit("\r\n");
    let line = "Sec-WebSocket-Key:"@ + (lead + key + trail);
    let end = seq!["\r\n"@] + beyond;
    let rest = behind + end;
    let all = seq![line] + rest;
    lemma_other_headers(earlier, before, all);
    lemma_other_headers(earlier, before, end);
    lemma_other_headers(key, behind, end);
    assert(all[0] == line);
    assert(all.skip(1) =~= rest);
    assert(end[0] == "\r\n"@);
    assert(line.subrange(0, 18) =~= "Sec-WebSocket-Key:"@);
    assert(line.skip(18) =~= lead + key + trail);
    text::law_trimmed(lead, key, trail);
    assert(line.len() > 2);
}

/// A request for the bridge with a key is accepted, one for the events gets the
/// stream, and any other path is a file: what follows a question mark does not
/// count, nor do slashes in front, and the root is the page itself. A path with two
/// dots in a row is refused.
pub proof fn law_routes(key: Seq<char>, file: Seq<char>, query: Seq<char>)
    requires
        forall|i: int| 0 <= i < file.len() ==> #[trigger] file[i] != '?',
        file.len() > 0 && file[0] != '/',
    ensures
        key.len() > 0 ==> route_of("/ws"@, key) == RouteView::Bridge(
            handshake_head(accept_of(encode_utf8(key))),
        ),
        route_of("/events"@, key) == RouteView::Events,
        route_of("/"@, key) == RouteView::File("index.html"@),
        route_of("/"@ + "?"@ + query, key) == RouteView::File("index.html"@),
        !text::occurs(file, ".."@) ==> route_of("/"@ + file + "?"@ + query, key)
            == RouteView::File(file),
        text::occurs(file, ".."@) ==> route_of("/"@ + file + "?"@ + query, key)
            == RouteView::Missing,
        !text::occurs(file, ".."@) && file != "events"@ && (file != "ws"@ || key.len() == 0)
            ==> route_of("/"@ + file, key) == RouteView::File(file),
        text::occurs(file, ".."@) ==> route_of("/"@ + file, key) == RouteView::Missing,
{
    reveal_strlit("/ws");
    reveal_strlit("/events");
    reveal_strlit("/");
    reveal_strlit("?");
    reveal_strlit("..");
    reveal_strlit("index.html");
    reveal_strlit("ws");
    reveal_strlit("events");
    assert("/ws"@.len() == 3 && "/events"@.len() == 7 && "/"@.len() == 1);
    assert("?"@ =~= seq!['?']);
    let root = "/"@;
    assert forall|i: int| 0 <= i < root.len() implies #[trigger] root[i] != '?' by {}
    text::law_before_first(root, '?', query);
    assert("/"@ + "?"@ + query =~= root + seq!['?'] + query);
    let path = "/"@ + file;
    assert forall|i: int| 0 <= i < path.len() implies #[trigger] path[i] != '?' by {
        if i > 0 {
            assert(path[i] == file[i - 1]);
        }
    }
    text::law_before_first(path, '?', query);
    let full = "/"@ + file + "?"@ + query;
    assert(full =~= path + seq!['?'] + query);
    assert(full[path.len() as int] == '?');
    assert(path.len() > 1);
    assert(path.skip(1) =~= file);
    reveal_with_fuel(text::without_start, 3);
    assert(text::without_start(path, '/') == file);
    assert(path[0] == '/');
    if full == "/ws"@ {
        assert("/ws"@[path.len() as int] == '?');
    }
    if full == "/events"@ {
        assert("/events"@[path.len() as int] == '?');
    }
    if text::occurs("index.html"@, ".."@) {
        let i = choose|i: int| text::occurs_at("index.html"@, ".."@, i);
        let w = "index.html"@.subrange(i, i + 2);
        assert(w == ".."@);
        assert(w[0] == "index.html"@[i] && w[1] == "index.html"@[i + 1]);
        assert(".."@[0] == '.' && ".."@[1] == '.');
    }
    let asked = "/"@ + "?"@ + query;
    assert(asked[1] == '?');
    if path == "/ws"@ {
        assert(file =~= "ws"@) by {
            assert("/ws"@.skip(1) =~= "ws"@);
        }
    }
    if path == "/events"@ {
        assert(file =~= "events"@) by {
            assert("/events"@.skip(1) =~= "events"@);
        }
    }
    if text::occurs(file, ".."@) {
        let i = choose|i: int| text::occurs_at(file, ".."@, i);
        let w = file.subrange(i, i + 2);
        assert(w == ".."@);
        assert(w[0] == file[i]);
        assert(".."@[0] == '.');
        if path == "/ws"@ {
            assert("ws"@[i] == '.');
        }
        if path == "/events"@ {
            assert("events"@[i] == '.');
        }
    }
}

/// The head that accepts a connection switches protocols and answers the key.
pub proof fn law_handshake(accept: Seq<char>)
    ensures
        text::begins(handshake_head(accept), "HTTP/1.1 101 Switching Protocols\r\n"@),
        text::occurs(
            handshake_head(accept),
            "\r\nUpgrade: websocket\r\nConnection: Upgrade\r\nSec-WebSocket-Accept: "@ + accept
                + "\r\n\r\n"@,
        ),
        text::ends(handshake_head(accept), accept + "\r\n\r\n"@),
{
    let first = "HTTP/1.1 101 Switching Protocols\r\n"@;
    let head =
        "HTTP/1.1 101 Switching Protocols\r\nUpgrade: websocket\r\nConnection: Upgrade\r\nSec-WebSocket-Accept: "@;
    let tail = "\r\nUpgrade: websocket\r\nConnection: Upgrade\r\nSec-WebSocket-Accept: "@;
    reveal_strlit("HTTP/1.1 101 Switching Protocols\r\n");
    reveal_strlit(
        "HTTP/1.1 101 Switching Protocols\r\nUpgrade: websocket\r\nConnection: Upgrade\r\nSec-WebSocket-Accept: ",
    );
    reveal_strlit("\r\nUpgrade: websocket\r\nConnection: Upgrade\r\nSec-WebSocket-Accept: ");
    let h = handshake_head(accept);
    assert(head.subrange(0, 34) =~= first);
    assert(h.subrange(0, 34) =~= first);
    assert(head.skip(32) =~= tail);
    let inner = tail + accept + "\r\n\r\n"@;
    assert(h.subrange(32, h.len() as int) =~= inner);
    assert(text::occurs_at(h, inner, 32));
    let last = accept + "\r\n\r\n"@;
    assert(h.subrange(h.len() - last.len(), h.len() as int) =~= last);
}

/// The media type goes by what stands behind the last dot.
pub proof fn law_media_types(stem: Seq<char>)
    ensures
        media_type(text::after_last(stem + ".html"@, '.')) == "text/html; charset=utf-8"@,
        media_type(text::after_last(stem + ".js"@, '.')) == "text/javascript; charset=utf-8"@,
        media_type(text::after_last(stem + ".css"@, '.')) == "text/css; charset=utf-8"@,
        media_type(text::after_last(stem + ".ttf"@, '.')) == "font/ttf"@,
        media_type(text::after_last(stem + ".svg"@, '.')) == "image/svg+xml"@,
        media_type(text::after_last(stem + ".json"@, '.')) == "application/json"@,
{
    reveal_strlit("html");
    reveal_strlit("js");
    reveal_strlit("css");
    reveal_strlit("ttf");
    reveal_strlit("svg");
    reveal_strlit("json");
    reveal_strlit(".html");
    reveal_strlit(".js");
    reveal_strlit(".css");
    reveal_strlit(".ttf");
    reveal_strlit(".svg");
    reveal_strlit(".json");
    assert("html"@.len() == 4 && "js"@.len() == 2 && "css"@.len() == 3 && "ttf"@.len() == 3
        && "svg"@.len() == 3 && "json"@.len() == 4);
    assert("html"@[0] == 'h' && "css"@[0] == 'c' && "ttf"@[0] == 't' && "svg"@[0] == 's'
        && "json"@[0] == 'j');
    text::law_after_last(stem, '.', "html"@);
    text::law_after_last(stem, '.', "js"@);
    text::law_after_last(stem, '.', "css"@);
    text::law_after_last(stem, '.', "ttf"@);
    text::law_after_last(stem, '.', "svg"@);
    text::law_after_last(stem, '.', "json"@);
    assert(stem + ".html"@ =~= stem.push('.') + "html"@);
    assert(stem + ".js"@ =~= stem.push('.') + "js"@);
    assert(stem + ".css"@ =~= stem.push('.') + "css"@);
    assert(stem + ".ttf"@ =~= stem.push('.') + "ttf"@);
    assert(stem + ".svg"@ =~= stem.push('.') + "svg"@);
    assert(stem + ".json"@ =~= stem.push('.') + "json"@);
}

/// Anything else is a stream of bytes.
pub proof fn law_other_media(extension: Seq<char>)
    requires
        !seq!["html"@, "js"@, "css"@, "ttf"@, "svg"@, "json"@].contains(extension),
    ensures
        media_type(extension) == "application/octet-stream"@,
{
    let all = seq!["html"@, "js"@, "css"@, "ttf"@, "svg"@, "json"@];
    assert(all[0] == "html"@ && all[1] == "js"@ && all[2] == "css"@ && all[3] == "ttf"@ && all[4]
        == "svg"@ && all[5] == "json"@);
}

} // verus!
