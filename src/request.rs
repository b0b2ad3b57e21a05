use vstd::prelude::*;
use vstd::string::{StrSliceExecFns, StringExecFns};
use crate::context::{method_of, HttpMethod, Request};
use crate::params::{entry_pairs, key_value_within, kv_key, kv_value, pairs_map, KeyValue, Params};
use crate::text::{chars_of, find_within, index_of, line_spans, lines_of, spans_view, trim, trim_bounds};

verus! {

/// The pairs that `application/x-www-form-urlencoded` decoding gives for a text.
pub uninterp spec fn form_decoded(s: Seq<char>) -> Seq<(Seq<char>, Seq<char>)>;

/// Whether a text parses as an absolute URL.
pub uninterp spec fn url_accepts(s: Seq<char>) -> bool;

/// The path of the URL that a text parses as.
pub uninterp spec fn url_path(s: Seq<char>) -> Seq<char>;

/// The query of the URL that a text parses as, if it has one.
pub uninterp spec fn url_query(s: Seq<char>) -> Option<Seq<char>>;

/// Relies on `url::form_urlencoded::parse`: the name/value pairs of a
/// urlencoded text, percent-decoded and with `+` read as a space, in order.
#[verifier::external_body]
fn form_pairs(s: &str) -> (r: Vec<KeyValue>)
    ensures
        entry_pairs(r@) == form_decoded(s@),
{
    url::form_urlencoded::parse(s.as_bytes()).map(
        |(k, v)| KeyValue { key: k.into_owned(), value: v.into_owned() },
    ).collect()
}

/// Relies on `url::Url::parse` (whether the text is accepted), and on
/// `Url::path` and `Url::query` of what it returns.
#[verifier::external_body]
fn resolve_url(s: &str) -> (r: Option<(String, Option<String>)>)
    ensures
        r.is_some() == url_accepts(s@),
        r matches Some(u) ==> u.0@ == url_path(s@),
        r matches Some(u) ==> (u.1 is Some <==> url_query(s@) is Some),
        r matches Some(u) ==> (u.1 matches Some(q) ==> url_query(s@) == Some(q@)),
{
    let u = url::Url::parse(s).ok()?;
    Some((u.path().to_string(), u.query().map(|q| q.to_string())))
}

/// The decoded form parameters of a urlencoded text.
pub fn form_params(s: &str) -> (r: Params)
    ensures
        r@ == pairs_map(form_decoded(s@)),
{
    Params::from_entries(form_pairs(s))
}

/// The first word of a request line.
pub open spec fn first_word(l: Seq<char>) -> Seq<char> {
    l.take(index_of(l, ' '))
}

/// What follows the first space of a request line.
pub open spec fn after_first_word(l: Seq<char>) -> Seq<char> {
    l.skip(index_of(l, ' ') + 1)
}

/// The second word of a request line: the target.
pub open spec fn second_word(l: Seq<char>) -> Seq<char> {
    after_first_word(l).take(index_of(after_first_word(l), ' '))
}

/// Whether a request line has at least three space-separated words.
pub open spec fn has_three_words(l: Seq<char>) -> bool {
    index_of(l, ' ') >= 0 && index_of(after_first_word(l), ' ') >= 0
}

/// Whether there is a request line, and it has three words.
pub open spec fn request_line_ok(ls: Seq<Seq<char>>) -> bool {
    ls.len() > 0 && has_three_words(ls[0])
}

/// The first line from `i` on that holds no colon: where the header ends.
pub open spec fn header_end(ls: Seq<Seq<char>>, i: int) -> int
    decreases ls.len() - i,
{
    if i >= ls.len() || i < 0 {
        ls.len() as int
    } else if !ls[i].contains(':') {
        i
    } else {
        header_end(ls, i + 1)
    }
}

/// The headers of lines `1..k`, each inserted in turn.
pub open spec fn headers_upto(ls: Seq<Seq<char>>, k: int) -> Map<Seq<char>, Seq<char>>
    decreases k,
{
    if k <= 1 {
        Map::empty()
    } else {
        headers_upto(ls, k - 1).insert(kv_key(ls[k - 1], ':'), kv_value(ls[k - 1], ':'))
    }
}

/// The first line from `i` on that is not blank: where the body starts.
pub open spec fn body_index(ls: Seq<Seq<char>>, i: int) -> int
    decreases ls.len() - i,
{
    if i >= ls.len() || i < 0 {
        ls.len() as int
    } else if trim(ls[i]).len() > 0 {
        i
    } else {
        body_index(ls, i + 1)
    }
}

/// The header mapping of a request.
pub open spec fn header_map(ls: Seq<Seq<char>>) -> Map<Seq<char>, Seq<char>> {
    headers_upto(ls, header_end(ls, 1))
}

/// The method of a request.
pub open spec fn request_method(ls: Seq<Seq<char>>) -> HttpMethod {
    method_of(first_word(ls[0]))
}

/// The form parameters of a request: those of its body line, where the
/// method is POST and a body line is there.
pub open spec fn post_map(ls: Seq<Seq<char>>) -> Map<Seq<char>, Seq<char>> {
    let b = body_index(ls, header_end(ls, 1));
    if request_method(ls) == HttpMethod::POST && b < ls.len() {
        pairs_map(form_decoded(ls[b]))
    } else {
        Map::empty()
    }
}

/// The URL text that a request resolves: scheme, `Host` header and target.
pub open spec fn url_text(ls: Seq<Seq<char>>) -> Seq<char> {
    "http://"@ + header_map(ls)["Host"@] + second_word(ls[0])
}

/// Whether a request parses: a request line of three words, a `Host`
/// header, and a target that resolves.
pub open spec fn request_accepted(ls: Seq<Seq<char>>) -> bool {
    request_line_ok(ls) && header_map(ls).contains_key("Host"@) && url_accepts(url_text(ls))
}

/// The raw query string of a request, empty where there is none.
pub open spec fn query_text(ls: Seq<Seq<char>>) -> Seq<char> {
    match url_query(url_text(ls)) {
        Some(q) => q,
        None => Seq::empty(),
    }
}

/// The decoded query parameters of a request.
pub open spec fn get_map(ls: Seq<Seq<char>>) -> Map<Seq<char>, Seq<char>> {
    match url_query(url_text(ls)) {
        Some(q) => pairs_map(form_decoded(q)),
        None => Map::empty(),
    }
}

/// The lines of the text `s` (whose characters are `cs`), as bounds.
pub open spec fn spans_of(cs: Seq<char>, spans: Seq<(usize, usize)>) -> bool {
    &&& spans_view(cs, spans) == lines_of(cs)
    &&& forall|k: int| 0 <= k < spans.len() ==> #[trigger] spans[k].0 <= spans[k].1 <= cs.len()
}

/// Reads the header lines that follow the request line: the mapping they
/// give, and the index of the first line that is no header.
fn read_headers(s: &str, cs: &Vec<char>, spans: &Vec<(usize, usize)>) -> (r: (Params, usize))
    requires
        cs@ == s@,
        spans_of(cs@, spans@),
        spans.len() > 0,
    ensures
        r.1 == header_end(lines_of(cs@), 1),
        1 <= r.1 <= spans.len(),
        r.0@ == header_map(lines_of(cs@)),
{
    let ghost ls = lines_of(cs@);
    let mut header = Params::new();
    let mut cur: usize = 1;
    while cur < spans.len()
        invariant
            1 <= cur <= spans.len(),
            spans@.len() == ls.len(),
            spans_of(cs@, spans@),
            ls == lines_of(cs@),
            cs@ == s@,
            header_end(ls, 1) == header_end(ls, cur as int),
            header@ == headers_upto(ls, cur as int),
        decreases spans.len() - cur,
    {
        let (a, b) = spans[cur];
        assert(spans_view(cs@, spans@)[cur as int] == ls[cur as int]);
        assert(ls[cur as int] =~= cs@.subrange(a as int, b as int));
        if find_within(cs, ':', a, b).is_none() {
            assert(!ls[cur as int].contains(':'));
            return (header, cur);
        }
        let kv = key_value_within(s, cs, a, b, ':');
        header.insert(kv.key, kv.value);
        cur = cur + 1;
    }
    (header, cur)
}

/// The index of the first line from `from` on that is not blank.
fn skip_blank_lines(cs: &Vec<char>, spans: &Vec<(usize, usize)>, from: usize) -> (r: usize)
    requires
        spans_of(cs@, spans@),
        from <= spans.len(),
    ensures
        r == body_index(lines_of(cs@), from as int),
        r <= spans.len(),
{
    let ghost ls = lines_of(cs@);
    let mut cur = from;
    while cur < spans.len()
        invariant
            from <= cur <= spans.len(),
            spans@.len() == ls.len(),
            spans_of(cs@, spans@),
            ls == lines_of(cs@),
            body_index(ls, from as int) == body_index(ls, cur as int),
        decreases spans.len() - cur,
    {
        let (a, b) = spans[cur];
        assert(spans_view(cs@, spans@)[cur as int] == ls[cur as int]);
        assert(ls[cur as int] =~= cs@.subrange(a as int, b as int));
        let (ta, tb) = trim_bounds(cs, a, b);
        if ta < tb {
            assert(trim(ls[cur as int]).len() > 0);
            return cur;
        }
        cur = cur + 1;
    }
    cur
}

/// The method and target of the request line, where it has three words.
fn request_line<'a>(s: &'a str, cs: &Vec<char>, spans: &Vec<(usize, usize)>) -> (r: Option<
    (HttpMethod, &'a str),
>)
    requires
        cs@ == s@,
        spans_of(cs@, spans@),
        spans.len() > 0,
    ensures
        r is Some <==> has_three_words(lines_of(cs@)[0]),
        r matches Some(w) ==> w.0 == request_method(lines_of(cs@)) && w.1@ == second_word(
            lines_of(cs@)[0],
        ),
{
    let ghost ls = lines_of(cs@);
    let (l0a, l0b) = spans[0];
    assert(spans_view(cs@, spans@)[0] == ls[0]);
    assert(ls[0] =~= cs@.subrange(l0a as int, l0b as int));
    let sp1 = match find_within(cs, ' ', l0a, l0b) {
        Some(i) => i,
        None => {
            return None;
        },
    };
    assert(after_first_word(ls[0]) =~= cs@.subrange(sp1 + 1, l0b as int));
    let sp2 = match find_within(cs, ' ', sp1 + 1, l0b) {
        Some(i) => i,
        None => {
            return None;
        },
    };
    assert(first_word(ls[0]) =~= cs@.subrange(l0a as int, sp1 as int));
    assert(second_word(ls[0]) =~= cs@.subrange(sp1 + 1, sp2 as int));
    let method = HttpMethod::from_str(s.substring_char(l0a, sp1));
    Some((method, s.substring_char(sp1 + 1, sp2)))
}

/// Empty input holds no request line, so parsing it fails with `BadRequest`.
pub proof fn lemma_empty_input_is_bad_request()
    ensures
        !request_line_ok(lines_of(Seq::<char>::empty())),
{
}

impl Request {
    /// Parses the text of a request: request line, headers, and for a POST
    /// the urlencoded body line. Fails with `Bad request` on empty input or a
    /// request line of fewer than three words, and with `Failed to parse url`
    /// where there is no `Host` header or the target does not resolve.
    pub fn from_request_data(request_header: &str) -> (r: Result<Request, &'static str>)
        ensures
            ({
                let ls = lines_of(request_header@);
                &&& !request_line_ok(ls) ==> (r matches Err(e) && e@ == "Bad request"@)
                &&& request_line_ok(ls) && !request_accepted(ls) ==> (r matches Err(e) && e@
                    == "Failed to parse url"@)
                &&& r is Ok <==> request_accepted(ls)
                &&& r matches Ok(req) ==> {
                    &&& req.method == request_method(ls)
                    &&& req.protocol@ == "http"@
                    &&& req.path@ == url_path(url_text(ls))
                    &&& req.querystring@ == query_text(ls)
                    &&& req.header@ == header_map(ls)
                    &&& req.get@ == get_map(ls)
                    &&& req.post@ == post_map(ls)
                    &&& req.body@ == Seq::<u8>::empty()
                }
            }),
    {
        proof {
            reveal_strlit("Bad request");
            reveal_strlit("Failed to parse url");
        }
        let ghost ls = lines_of(request_header@);
        let cs = chars_of(request_header);
        let spans = line_spans(&cs);
        assert(spans@.len() == ls.len());
        assert(spans_of(cs@, spans@));
        if spans.len() == 0 {
            return Err("Bad request");
        }
        let (method, target) = match request_line(request_header, &cs, &spans) {
            Some(w) => w,
            None => {
                return Err("Bad request");
            },
        };
        let (header, hend) = read_headers(request_header, &cs, &spans);
        let cur = skip_blank_lines(&cs, &spans, hend);

        let mut post = Params::new();
        if method == HttpMethod::POST && cur < spans.len() {
            let (a, b) = spans[cur];
            assert(spans_view(cs@, spans@)[cur as int] == ls[cur as int]);
            assert(ls[cur as int] =~= cs@.subrange(a as int, b as int));
            post = form_params(request_header.substring_char(a, b));
        }
        proof {
            reveal_strlit("Host");
            reveal_strlit("http://");
        }
        let host = match header.get("Host") {
            Some(h) => h,
            None => {
                return Err("Failed to parse url");
            },
        };
        let mut full = "http://".to_owned();
        full.append(host.as_str());
        full.append(target);
        assert(full@ == url_text(ls));
        let (path, query) = match resolve_url(full.as_str()) {
            Some(u) => u,
            None => {
                return Err("Failed to parse url");
            },
        };
        let (querystring, get) = match query {
            Some(q) => {
                let get = form_params(q.as_str());
                (q, get)
            },
            None => (String::new(), Params::new()),
        };
        Ok(
            Request {
                method,
                protocol: "http".to_owned(),
                path,
                querystring,
                header,
                get,
                post,
                body: Vec::new(),
            },
        )
    }
}

} // verus!
