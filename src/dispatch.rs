use vstd::prelude::*;
use vstd::utf8::encode_utf8;

verus! {

/// `needle` occurs in `hay` starting at position `i`.
pub open spec fn occurs_at(hay: Seq<char>, needle: Seq<char>, i: int) -> bool {
    0 <= i && i + needle.len() <= hay.len() && hay.subrange(i, i + needle.len()) == needle
}

pub open spec fn contains(hay: Seq<char>, needle: Seq<char>) -> bool {
    exists|i: int| occurs_at(hay, needle, i)
}

/// A request asks for the broadcast protocol when it has an
/// `Upgrade: websocket` header line or its path starts with `/ws`.
pub open spec fn is_upgrade_spec(head: Seq<char>) -> bool {
    contains(head, "\nUpgrade: websocket"@) || match request_path_spec(head) {
        Some(p) => starts_with(p, "/ws"@),
        None => false,
    }
}

/// The characters of `s`.
fn chars_of(s: &str) -> (r: Vec<char>)
    ensures
        r@ == s@,
{
    let n = s.unicode_len();
    let mut out: Vec<char> = Vec::new();
    let mut i: usize = 0;
    while i < n
        invariant
            n == s@.len(),
            i <= n,
            out@ == s@.take(i as int),
        decreases n - i,
    {
        out.push(s.get_char(i));
        i = i + 1;
        assert(out@ =~= s@.take(i as int));
    }
    assert(s@.take(n as int) =~= s@);
    out
}

fn occurs_at_exec(hay: &Vec<char>, needle: &Vec<char>, i: usize) -> (r: bool)
    ensures
        r == occurs_at(hay@, needle@, i as int),
{
    if needle.len() > hay.len() || i > hay.len() - needle.len() {
        return false;
    }
    let m = needle.len();
    let mut j: usize = 0;
    while j < m
        invariant
            m == needle@.len(),
            hay@.len() == hay.len(),
            i + m <= hay@.len(),
            j <= m,
            forall|k: int| 0 <= k < j ==> hay@[i + k] == needle@[k],
        decreases m - j,
    {
        if hay[i + j] != needle[j] {
            assert(hay@.subrange(i as int, i + m)[j as int] != needle@[j as int]);
            return false;
        }
        j = j + 1;
    }
    assert(hay@.subrange(i as int, i + m) =~= needle@);
    true
}

fn contains_exec(hay: &Vec<char>, needle: &Vec<char>) -> (r: bool)
    ensures
        r == contains(hay@, needle@),
{
    let n = hay.len();
    let mut i: usize = 0;
    while i < n
        invariant
            n == hay@.len(),
            i <= n,
            forall|k: int| 0 <= k < i ==> !occurs_at(hay@, needle@, k),
        decreases n - i,
    {
        if occurs_at_exec(hay, needle, i) {
            return true;
        }
        i = i + 1;
    }
    if occurs_at_exec(hay, needle, n) {
        return true;
    }
    assert forall|k: int| !occurs_at(hay@, needle@, k) by {
        if 0 <= k && k < n {
            assert(!occurs_at(hay@, needle@, k));
        }
    }
    false
}

/// Decides from the first bytes of a connection (as text) whether it asks
/// to be upgraded to the broadcast protocol rather than served over HTTP.
pub fn is_upgrade_request(head: &str) -> (r: bool)
    ensures
        r == is_upgrade_spec(head@),
{
    let h = chars_of(head);
    if contains_exec(&h, &chars_of("\nUpgrade: websocket")) {
        return true;
    }
    match request_path(head) {
        Some(p) => starts_with_exec(&chars_of(p.as_str()), "/ws"),
        None => false,
    }
}

/// The characters with the Unicode `White_Space` property.
pub open spec fn is_space(c: char) -> bool {
    ('\t' <= c && c <= '\r') || c == ' ' || c == '\u{85}' || c == '\u{A0}' || c == '\u{1680}' || (
    '\u{2000}' <= c && c <= '\u{200A}') || c == '\u{2028}' || c == '\u{2029}' || c == '\u{202F}' || c
        == '\u{205F}' || c == '\u{3000}'
}

fn is_space_exec(c: char) -> (r: bool)
    ensures
        r == is_space(c),
{
    ('\t' <= c && c <= '\r') || c == ' ' || c == '\u{85}' || c == '\u{A0}' || c == '\u{1680}' || (
    '\u{2000}' <= c && c <= '\u{200A}') || c == '\u{2028}' || c == '\u{2029}' || c == '\u{202F}' || c
        == '\u{205F}' || c == '\u{3000}'
}

/// The text before the first line feed.
pub open spec fn first_line(s: Seq<char>) -> Seq<char>
    decreases s.len(),
{
    if s.len() == 0 || s[0] == '\n' {
        Seq::empty()
    } else {
        seq![s[0]] + first_line(s.drop_first())
    }
}

/// The whitespace-separated words of `s`, after those already in `acc` and
/// the partial word `cur`.
pub open spec fn words_from(s: Seq<char>, cur: Seq<char>, acc: Seq<Seq<char>>) -> Seq<Seq<char>>
    decreases s.len(),
{
    let flushed = if cur.len() > 0 { acc.push(cur) } else { acc };
    if s.len() == 0 {
        flushed
    } else if is_space(s[0]) {
        words_from(s.drop_first(), Seq::empty(), flushed)
    } else {
        words_from(s.drop_first(), cur.push(s[0]), acc)
    }
}

pub open spec fn words(s: Seq<char>) -> Seq<Seq<char>> {
    words_from(s, Seq::empty(), Seq::empty())
}

/// The path of an HTTP request: the second word of its request line.
pub open spec fn request_path_spec(head: Seq<char>) -> Option<Seq<char>> {
    let w = words(first_line(head));
    if w.len() >= 2 {
        Some(w[1])
    } else {
        None
    }
}

/// The path that an HTTP request asks for, if its request line has one.
pub fn request_path(head: &str) -> (r: Option<String>)
    ensures
        r matches Some(p) ==> request_path_spec(head@) == Some(p@),
        r is None ==> request_path_spec(head@) is None,
{
    let h = chars_of(head);
    let n = h.len();
    let mut line_end: usize = 0;
    assert(h@.skip(0) =~= h@);
    assert(h@.take(0) =~= Seq::<char>::empty());
    while line_end < n && h[line_end] != '\n'
        invariant
            n == h@.len(),
            line_end <= n,
            first_line(h@) == h@.take(line_end as int) + first_line(h@.skip(line_end as int)),
        decreases n - line_end,
    {
        assert(h@.skip(line_end as int).drop_first() =~= h@.skip(line_end + 1));
        assert(h@.take(line_end + 1) =~= h@.take(line_end as int) + seq![h@[line_end as int]]);
        line_end = line_end + 1;
    }
    assert(first_line(h@.skip(line_end as int)) =~= Seq::<char>::empty());
    assert(first_line(h@) =~= h@.take(line_end as int));
    let ghost line = h@.take(line_end as int);
    let mut words_seen: usize = 0;
    let mut cur_start: usize = 0;
    let mut second_start: usize = 0;
    let mut second_end: usize = 0;
    let ghost mut acc: Seq<Seq<char>> = Seq::empty();
    let mut i: usize = 0;
    assert(line.skip(0) =~= line);
    assert(h@.subrange(0, 0) =~= Seq::<char>::empty());
    while i < line_end
        invariant
            n == h@.len(),
            h@ == head@,
            line_end <= n,
            line == h@.take(line_end as int),
            cur_start <= i <= line_end,
            words(line) == words_from(line.skip(i as int), h@.subrange(cur_start as int, i as int), acc),
            words_seen as nat == acc.len(),
            words_seen <= cur_start,
            second_start <= second_end <= n,
            acc.len() >= 2 ==> h@.subrange(second_start as int, second_end as int) == acc[1],
        decreases line_end - i,
    {
        assert(line.skip(i as int).drop_first() =~= line.skip(i + 1));
        assert(line.skip(i as int)[0] == h@[i as int]);
        let c = h[i];
        if is_space_exec(c) {
            if cur_start < i {
                proof {
                    acc = acc.push(h@.subrange(cur_start as int, i as int));
                }
                if words_seen == 1 {
                    second_start = cur_start;
                    second_end = i;
                }
                words_seen = words_seen + 1;
            }
            cur_start = i + 1;
            assert(h@.subrange(cur_start as int, (i + 1) as int) =~= Seq::<char>::empty());
        } else {
            assert(h@.subrange(cur_start as int, (i + 1) as int) =~= h@.subrange(cur_start as int, i as int).push(c));
        }
        i = i + 1;
    }
    if cur_start < line_end {
        proof {
            acc = acc.push(h@.subrange(cur_start as int, line_end as int));
        }
        if words_seen == 1 {
            second_start = cur_start;
            second_end = line_end;
        }
        words_seen = words_seen + 1;
    }
    assert(line.skip(line_end as int) =~= Seq::<char>::empty());
    assert(words(line) == acc);
    if words_seen >= 2 {
        Some(head.substring_char(second_start, second_end).to_owned())
    } else {
        None
    }
}

/// The kind of content a static response carries.
#[derive(Debug, PartialEq, Eq, Clone, Copy, Structural)]
pub enum ContentType {
    Html,
    Css,
    Json,
    JavaScript,
    Wasm,
    Png,
    Svg,
    Icon,
    OctetStream,
    PlainText,
}

/// The media type written in the `Content-Type` header.
pub open spec fn media_type(c: ContentType) -> Seq<char> {
    match c {
        ContentType::Html => "text/html"@,
        ContentType::Css => "text/css"@,
        ContentType::Json => "application/json"@,
        ContentType::JavaScript => "application/javascript"@,
        ContentType::Wasm => "application/wasm"@,
        ContentType::Png => "image/png"@,
        ContentType::Svg => "image/svg+xml"@,
        ContentType::Icon => "image/x-icon"@,
        ContentType::OctetStream => "application/octet-stream"@,
        ContentType::PlainText => "text/plain"@,
    }
}

impl ContentType {
    /// The media type written in the `Content-Type` header.
    pub fn as_str(&self) -> (r: &'static str)
        ensures
            r@ == media_type(*self),
    {
        match self {
            ContentType::Html => "text/html",
            ContentType::Css => "text/css",
            ContentType::Json => "application/json",
            ContentType::JavaScript => "application/javascript",
            ContentType::Wasm => "application/wasm",
            ContentType::Png => "image/png",
            ContentType::Svg => "image/svg+xml",
            ContentType::Icon => "image/x-icon",
            ContentType::OctetStream => "application/octet-stream",
            ContentType::PlainText => "text/plain",
        }
    }
}

/// How a plain HTTP request is served.
#[derive(Debug, PartialEq, Eq, Clone)]
pub enum Route {
    /// The health report.
    Health,
    /// A static file, by its path relative to the served directory.
    File { path: String, content_type: ContentType },
    /// Nothing is served under this path.
    NotFound,
}

pub enum RouteView {
    Health,
    File { path: Seq<char>, content_type: ContentType },
    NotFound,
}

impl View for Route {
    type V = RouteView;

    open spec fn view(&self) -> RouteView {
        match self {
            Route::Health => RouteView::Health,
            Route::File { path, content_type } => RouteView::File { path: path@, content_type: *content_type },
            Route::NotFound => RouteView::NotFound,
        }
    }
}

pub open spec fn starts_with(s: Seq<char>, prefix: Seq<char>) -> bool {
    occurs_at(s, prefix, 0)
}

pub open spec fn ends_with(s: Seq<char>, suffix: Seq<char>) -> bool {
    s.len() >= suffix.len() && occurs_at(s, suffix, s.len() - suffix.len())
}

/// The request path without its leading `/`.
pub open spec fn relative(p: Seq<char>) -> Seq<char> {
    if p.len() > 0 {
        p.drop_first()
    } else {
        p
    }
}

/// The content type of an asset, by the extension of its path.
pub open spec fn type_by_extension(p: Seq<char>) -> ContentType {
    if ends_with(p, ".js"@) {
        ContentType::JavaScript
    } else if ends_with(p, ".wasm"@) {
        ContentType::Wasm
    } else if ends_with(p, ".json"@) {
        ContentType::Json
    } else if ends_with(p, ".css"@) {
        ContentType::Css
    } else if ends_with(p, ".html"@) {
        ContentType::Html
    } else if ends_with(p, ".png"@) {
        ContentType::Png
    } else if ends_with(p, ".svg"@) {
        ContentType::Svg
    } else if ends_with(p, ".ico"@) {
        ContentType::Icon
    } else if ends_with(p, ".txt"@) {
        ContentType::PlainText
    } else {
        ContentType::OctetStream
    }
}

/// A path under one of the asset roots that cannot climb out of it.
pub open spec fn is_asset_path(p: Seq<char>) -> bool {
    (starts_with(p, "/pkg/"@) || starts_with(p, "/public/"@)) && !contains(p, ".."@) && !contains(
        p,
        "\\"@,
    )
}

/// Where a request path leads: the two pages, the health report, and the
/// package and public assets with their type taken from the extension. Any
/// other path, and an asset path holding `..` or a backslash, is not found.
pub open spec fn route_spec(p: Seq<char>) -> RouteView {
    if p == "/"@ {
        RouteView::File { path: "index.html"@, content_type: ContentType::Html }
    } else if p == "/play"@ {
        RouteView::File { path: "play.html"@, content_type: ContentType::Html }
    } else if p == "/health"@ {
        RouteView::Health
    } else if is_asset_path(p) {
        RouteView::File { path: relative(p), content_type: type_by_extension(p) }
    } else {
        RouteView::NotFound
    }
}

fn type_by_extension_exec(p: &Vec<char>) -> (r: ContentType)
    ensures
        r == type_by_extension(p@),
{
    if ends_with_exec(p, ".js") {
        ContentType::JavaScript
    } else if ends_with_exec(p, ".wasm") {
        ContentType::Wasm
    } else if ends_with_exec(p, ".json") {
        ContentType::Json
    } else if ends_with_exec(p, ".css") {
        ContentType::Css
    } else if ends_with_exec(p, ".html") {
        ContentType::Html
    } else if ends_with_exec(p, ".png") {
        ContentType::Png
    } else if ends_with_exec(p, ".svg") {
        ContentType::Svg
    } else if ends_with_exec(p, ".ico") {
        ContentType::Icon
    } else if ends_with_exec(p, ".txt") {
        ContentType::PlainText
    } else {
        ContentType::OctetStream
    }
}

fn is_exec(p: &Vec<char>, lit: &str) -> (r: bool)
    ensures
        r == (p@ == lit@),
{
    let l = chars_of(lit);
    if p.len() != l.len() {
        return false;
    }
    let r = occurs_at_exec(p, &l, 0);
    assert(p@.subrange(0, p@.len() as int) =~= p@);
    r
}

fn starts_with_exec(p: &Vec<char>, lit: &str) -> (r: bool)
    ensures
        r == starts_with(p@, lit@),
{
    occurs_at_exec(p, &chars_of(lit), 0)
}

fn ends_with_exec(p: &Vec<char>, lit: &str) -> (r: bool)
    ensures
        r == ends_with(p@, lit@),
{
    let l = chars_of(lit);
    if p.len() < l.len() {
        return false;
    }
    occurs_at_exec(p, &l, p.len() - l.len())
}

/// Where the request for `path` leads.
pub fn route(path: &str) -> (r: Route)
    ensures
        r@ == route_spec(path@),
{
    let p = chars_of(path);
    let rel = if path.unicode_len() > 0 {
        path.substring_char(1, path.unicode_len()).to_owned()
    } else {
        String::new()
    };
    assert(path@.len() > 0 ==> path@.subrange(1, path@.len() as int) =~= path@.drop_first());
    assert(rel@ == relative(path@));
    if is_exec(&p, "/") {
        Route::File { path: String::from_str("index.html"), content_type: ContentType::Html }
    } else if is_exec(&p, "/play") {
        Route::File { path: String::from_str("play.html"), content_type: ContentType::Html }
    } else if is_exec(&p, "/health") {
        Route::Health
    } else if (starts_with_exec(&p, "/pkg/") || starts_with_exec(&p, "/public/")) && !contains_exec(
        &p,
        &chars_of(".."),
    ) && !contains_exec(&p, &chars_of("\\")) {
        Route::File { path: rel, content_type: type_by_extension_exec(&p) }
    } else {
        Route::NotFound
    }
}

/// The decimal digit `d`.
pub open spec fn digit_char(d: int) -> char {
    "0123456789"@[d]
}

/// The decimal text of `n`, without leading zeros.
pub open spec fn decimal(n: nat) -> Seq<char>
    decreases n,
{
    if n < 10 {
        seq![digit_char(n as int)]
    } else {
        decimal(n / 10) + seq![digit_char((n % 10) as int)]
    }
}

fn decimal_string(n: usize) -> (r: String)
    ensures
        r@ == decimal(n as nat),
    decreases n,
{
    proof {
        reveal_strlit("0123456789");
    }
    let digits = "0123456789";
    let d = n % 10;
    let one = digits.substring_char(d, d + 1);
    assert(one@ =~= seq![digit_char(d as int)]);
    if n < 10 {
        one.to_owned()
    } else {
        let mut s = decimal_string(n / 10);
        s.append(one);
        s
    }
}

/// The status line and headers of a response that serves a body of `len`
/// bytes of content type `c`.
pub open spec fn found_head(c: ContentType, len: nat) -> Seq<char> {
    "HTTP/1.1 200 OK\r\nContent-Type: "@ + media_type(c) + "\r\nContent-Length: "@ + decimal(len) + "\r\n\r\n"@
}

/// The whole response when nothing is served.
pub open spec fn not_found_text() -> Seq<char> {
    "HTTP/1.1 404 Not Found\r\nContent-Length: 9\r\n\r\n404 Error"@
}

/// The bytes of the response: the head in UTF-8 followed by the body as it
/// is, or the not-found response when there is no body.
pub open spec fn response_spec(body: Option<Seq<u8>>, c: ContentType) -> Seq<u8> {
    match body {
        Some(b) => encode_utf8(found_head(c, b.len())) + b,
        None => encode_utf8(not_found_text()),
    }
}

pub open spec fn body_view(body: Option<Vec<u8>>) -> Option<Seq<u8>> {
    match body {
        Some(b) => Some(b@),
        None => None,
    }
}

fn push_text(out: &mut Vec<u8>, text: &str)
    ensures
        final(out)@ == old(out)@ + encode_utf8(text@),
{
    let bytes = text.as_bytes();
    let ghost start = out@;
    let mut i: usize = 0;
    while i < bytes.len()
        invariant
            bytes@ == encode_utf8(text@),
            i <= bytes@.len(),
            out@ == start + bytes@.take(i as int),
        decreases bytes@.len() - i,
    {
        out.push(bytes[i]);
        i = i + 1;
        assert(out@ =~= start + bytes@.take(i as int));
    }
    assert(bytes@.take(bytes@.len() as int) =~= bytes@);
}

/// The response that serves `body` as content of type `content_type`, or
/// the not-found response when there is no body.
pub fn http_response(body: Option<Vec<u8>>, content_type: ContentType) -> (r: Vec<u8>)
    ensures
        r@ == response_spec(body_view(body), content_type),
{
    let mut out: Vec<u8> = Vec::new();
    match body {
        Some(mut b) => {
            let ghost bv = b@;
            let mut head = String::from_str("HTTP/1.1 200 OK\r\nContent-Type: ");
            head.append(content_type.as_str());
            head.append("\r\nContent-Length: ");
            head.append(decimal_string(b.len()).as_str());
            head.append("\r\n\r\n");
            assert(head@ =~= found_head(content_type, bv.len()));
            push_text(&mut out, head.as_str());
            out.append(&mut b);
            assert(out@ =~= encode_utf8(found_head(content_type, bv.len())) + bv);
        },
        None => {
            push_text(&mut out, "HTTP/1.1 404 Not Found\r\nContent-Length: 9\r\n\r\n404 Error");
            assert(out@ =~= encode_utf8(not_found_text()));
        },
    }
    out
}

} // verus!
