//! Request parsing: from the raw text lines read off a connection to a
//! `Request` value, or a parse error for that connection.

use vstd::prelude::*;
use vstd::string::*;
use crate::route::{Method, MethodKind, MethodView};

verus! {

/// Why a request failed to parse. Either error aborts only the connection
/// it came from.
#[derive(Debug, Clone, Copy, PartialEq, Eq, Structural)]
pub enum ParseError {
    /// The request line has fewer than two whitespace-separated tokens.
    MalformedRequestLine,
    /// The verb is not one the server supports.
    UnsupportedMethod,
}

/// The separators recognized in the request line.
pub open spec fn is_space(c: char) -> bool {
    c == ' ' || c == '\t' || c == '\r' || c == '\n'
}

/// Length of the leading run of non-separator characters.
pub open spec fn token_len(s: Seq<char>) -> int
    decreases s.len(),
{
    if s.len() == 0 || is_space(s[0]) {
        0
    } else {
        1 + token_len(s.drop_first())
    }
}

proof fn lemma_token_len_bounds(s: Seq<char>)
    ensures
        0 <= token_len(s) <= s.len(),
    decreases s.len(),
{
    if s.len() == 0 || is_space(s[0]) {
    } else {
        lemma_token_len_bounds(s.drop_first());
    }
}

/// The whitespace-separated tokens of a line, in order.
pub open spec fn split_ws(s: Seq<char>) -> Seq<Seq<char>>
    decreases s.len(),
    via split_ws_decreases
{
    if s.len() == 0 {
        Seq::empty()
    } else if is_space(s[0]) {
        split_ws(s.drop_first())
    } else {
        seq![s.take(token_len(s))] + split_ws(s.skip(token_len(s)))
    }
}

#[via_fn]
proof fn split_ws_decreases(s: Seq<char>) {
    if s.len() != 0 && !is_space(s[0]) {
        lemma_token_len_bounds(s.drop_first());
    }
}

/// First index at or after `from` where `": "` occurs, or -1 if none.
pub open spec fn find_sep(s: Seq<char>, from: int) -> int
    decreases s.len() - from,
{
    if from < 0 || from + 2 > s.len() {
        -1
    } else if s[from] == ':' && s[from + 1] == ' ' {
        from
    } else {
        find_sep(s, from + 1)
    }
}

proof fn lemma_find_sep_props(s: Seq<char>, from: int)
    requires
        0 <= from,
    ensures
        find_sep(s, from) == -1 || (from <= find_sep(s, from) && find_sep(s, from) + 2 <= s.len()),
    decreases s.len() - from,
{
    if from + 2 > s.len() {
    } else if s[from] == ':' && s[from + 1] == ' ' {
    } else {
        lemma_find_sep_props(s, from + 1);
    }
}

/// What one header line contributes: the (name, value) pair split at the
/// first `": "`, or nothing when the line has no separator.
pub open spec fn parse_header_line(s: Seq<char>) -> Option<(Seq<char>, Seq<char>)> {
    let i = find_sep(s, 0);
    if i < 0 {
        None
    } else {
        Some((s.take(i), s.skip(i + 2)))
    }
}

/// The header pairs a sequence of lines contributes, in order; lines
/// without a separator contribute nothing.
pub open spec fn parse_headers(lines: Seq<Seq<char>>) -> Seq<(Seq<char>, Seq<char>)>
    decreases lines.len(),
{
    if lines.len() == 0 {
        Seq::empty()
    } else {
        match parse_header_line(lines[0]) {
            Some(h) => seq![h] + parse_headers(lines.drop_first()),
            None => parse_headers(lines.drop_first()),
        }
    }
}

proof fn lemma_parse_headers_push(lines: Seq<Seq<char>>, l: Seq<char>)
    ensures
        parse_headers(lines.push(l)) == parse_headers(lines) + (match parse_header_line(l) {
            Some(h) => seq![h],
            None => Seq::<(Seq<char>, Seq<char>)>::empty(),
        }),
    decreases lines.len(),
{
    let tail = (match parse_header_line(l) {
        Some(h) => seq![h],
        None => Seq::<(Seq<char>, Seq<char>)>::empty(),
    });
    if lines.len() == 0 {
        assert(lines.push(l).drop_first() =~= lines);
        assert(lines.push(l)[0] == l);
        match parse_header_line(l) {
            Some(h) => {
                assert(parse_headers(lines.push(l)) == seq![h] + parse_headers(lines));
                assert(seq![h] + parse_headers(lines) =~= parse_headers(lines) + tail);
            },
            None => {
                assert(parse_headers(lines.push(l)) == parse_headers(lines));
                assert(parse_headers(lines) =~= parse_headers(lines) + tail);
            },
        }
    } else {
        assert(lines.push(l)[0] == lines[0]);
        assert(lines.push(l).drop_first() =~= lines.drop_first().push(l));
        lemma_parse_headers_push(lines.drop_first(), l);
        match parse_header_line(lines[0]) {
            Some(h) => {
                assert(parse_headers(lines.push(l)) == seq![h] + (parse_headers(lines.drop_first())
                    + tail));
                assert(seq![h] + (parse_headers(lines.drop_first()) + tail) =~= (seq![h]
                    + parse_headers(lines.drop_first())) + tail);
            },
            None => {
                assert(parse_headers(lines.push(l)) == parse_headers(lines.drop_first()) + tail);
            },
        }
    }
}

proof fn lemma_token_len_concat(a: Seq<char>, rest: Seq<char>)
    requires
        a.len() > 0,
        forall|i: int| 0 <= i < a.len() ==> !is_space(a[i]),
        rest.len() == 0 || is_space(rest[0]),
    ensures
        token_len(a + rest) == a.len(),
    decreases a.len(),
{
    let s = a + rest;
    assert(s[0] == a[0]);
    if a.len() == 1 {
        assert(s.drop_first() =~= rest);
        if rest.len() == 0 {
            assert(token_len(rest) == 0);
        } else {
            assert(token_len(rest) == 0);
        }
    } else {
        assert(s.drop_first() =~= a.drop_first() + rest);
        lemma_token_len_concat(a.drop_first(), rest);
    }
}

proof fn lemma_split_ws_concat(a: Seq<char>, rest: Seq<char>)
    requires
        a.len() > 0,
        forall|i: int| 0 <= i < a.len() ==> !is_space(a[i]),
        rest.len() == 0 || is_space(rest[0]),
    ensures
        split_ws(a + rest) == seq![a] + split_ws(rest),
{
    let s = a + rest;
    lemma_token_len_concat(a, rest);
    assert(s.take(a.len() as int) =~= a);
    assert(s.skip(a.len() as int) =~= rest);
    assert(s[0] == a[0]);
    assert(split_ws(s) == seq![a] + split_ws(rest));
}

proof fn lemma_find_sep_concat(name: Seq<char>, value: Seq<char>, from: int)
    requires
        0 <= from <= name.len(),
        forall|i: int|
            0 <= i < name.len() - 1 ==> !((#[trigger] name[i]) == ':' && name[i + 1] == ' '),
    ensures
        find_sep(name + ": "@ + value, from) == name.len(),
    decreases name.len() - from,
{
    reveal_strlit(": ");
    let s = name + ": "@ + value;
    assert(s.len() == name.len() + 2 + value.len());
    assert(forall|i: int| 0 <= i < name.len() ==> s[i] == name[i]);
    assert(s[name.len() as int] == ':' && s[name.len() as int + 1] == ' ');
    if from == name.len() {
        assert(find_sep(s, from) == from);
    } else {
        if from == name.len() - 1 {
            assert(s[from + 1] == ':');
            assert(!(s[from] == ':' && s[from + 1] == ' '));
        } else {
            assert(s[from] == name[from] && s[from + 1] == name[from + 1]);
            assert(!(s[from] == ':' && s[from + 1] == ' '));
        }
        lemma_find_sep_concat(name, value, from + 1);
    }
}

/// Parsing round-trip: a well-formed request made of one request line
/// `VERB PATH` and one header line `Name: Value` parses to exactly that
/// method key and exactly that one header pair. The verb must be a
/// supported one, verb and path must be non-empty and free of
/// separators, and the name must not itself contain `": "`.
pub proof fn lemma_parse_round_trip(
    verb: Seq<char>,
    path: Seq<char>,
    name: Seq<char>,
    value: Seq<char>,
)
    requires
        verb == "GET"@,
        path.len() > 0,
        forall|i: int| 0 <= i < path.len() ==> !is_space(path[i]),
        forall|i: int|
            0 <= i < name.len() - 1 ==> !((#[trigger] name[i]) == ':' && name[i + 1] == ' '),
    ensures
        spec_parse(seq![verb + " "@ + path, name + ": "@ + value]) == Ok::<
            RequestView,
            ParseError,
        >(
            RequestView {
                method: MethodView { path: path, method: MethodKind::GET },
                headers: seq![(name, value)],
            },
        ),
{
    reveal_strlit("GET");
    reveal_strlit(" ");
    reveal_strlit(": ");
    let line0 = verb + " "@ + path;
    let line1 = name + ": "@ + value;
    let lines = seq![line0, line1];
    let sp_path = " "@ + path;

    // The request line splits into exactly [verb, path].
    assert(verb.len() == 3);
    assert(forall|i: int| 0 <= i < verb.len() ==> !is_space(verb[i])) by {
        assert(verb[0] == 'G' && verb[1] == 'E' && verb[2] == 'T');
    }
    assert(line0 =~= verb + sp_path);
    assert(is_space(sp_path[0]));
    lemma_split_ws_concat(verb, sp_path);
    assert(sp_path.drop_first() =~= path);
    assert(split_ws(sp_path) == split_ws(path));
    lemma_split_ws_concat(path, Seq::empty());
    assert(path + Seq::<char>::empty() =~= path);
    assert(split_ws(Seq::<char>::empty()) == Seq::<Seq<char>>::empty());
    assert(split_ws(path) == seq![path] + Seq::<Seq<char>>::empty());
    let tokens = split_ws(lines[0]);
    assert(tokens =~= seq![verb, path]);
    assert(tokens.len() == 2);
    assert(tokens[0] == verb && tokens[1] == path);

    // The header line splits at the first `": "` into (name, value).
    lemma_find_sep_concat(name, value, 0);
    assert(line1.take(name.len() as int) =~= name);
    assert(line1.skip(name.len() as int + 2) =~= value);
    assert(parse_header_line(line1) == Some((name, value)));
    assert(lines.drop_first() =~= seq![line1]);
    assert(seq![line1].drop_first() =~= Seq::<Seq<char>>::empty());
    assert(parse_headers(Seq::<Seq<char>>::empty()) == Seq::<(Seq<char>, Seq<char>)>::empty());
    assert(parse_headers(seq![line1]) == seq![(name, value)] + Seq::<(
        Seq<char>,
        Seq<char>,
    )>::empty());
    assert(parse_headers(seq![line1]) =~= seq![(name, value)]);
}

/// A parsed request: its matching key and the headers it carried.
#[derive(Debug)]
pub struct Request {
    pub method: Method,
    pub headers: Vec<(String, String)>,
}

/// The mathematical value of a request.
pub struct RequestView {
    pub method: MethodView,
    pub headers: Seq<(Seq<char>, Seq<char>)>,
}

impl View for Request {
    type V = RequestView;

    open spec fn view(&self) -> RequestView {
        RequestView {
            method: self.method@,
            headers: self.headers@.map_values(|p: (String, String)| (p.0@, p.1@)),
        }
    }
}

/// The request a non-empty sequence of lines parses to, or the error.
/// The first line must yield at least two tokens, and the verb must be a
/// supported one; every later line with a `": "` separator contributes a
/// header, and lines without one are skipped silently.
pub open spec fn spec_parse(lines: Seq<Seq<char>>) -> Result<RequestView, ParseError>
    recommends
        lines.len() >= 1,
{
    let tokens = split_ws(lines[0]);
    if tokens.len() < 2 {
        Err(ParseError::MalformedRequestLine)
    } else if tokens[0] != "GET"@ {
        Err(ParseError::UnsupportedMethod)
    } else {
        Ok(
            RequestView {
                method: MethodView { path: tokens[1], method: MethodKind::GET },
                headers: parse_headers(lines.drop_first()),
            },
        )
    }
}

/// Whether `c` is one of the recognized separators.
fn is_space_exec(c: char) -> (r: bool)
    ensures
        r == is_space(c),
{
    c == ' ' || c == '\t' || c == '\r' || c == '\n'
}

/// Length (in characters) of the token at the start of the line.
fn token_len_exec(s: &str) -> (r: usize)
    ensures
        r as int == token_len(s@),
    decreases s@.len(),
{
    let n = s.unicode_len();
    if n == 0 {
        return 0;
    }
    let c = s.get_char(0);
    if is_space_exec(c) {
        0
    } else {
        let rest = s.substring_char(1, n);
        proof {
            assert(rest@ =~= s@.drop_first());
            lemma_token_len_bounds(s@.drop_first());
        }
        1 + token_len_exec(rest)
    }
}

/// Splits a line into its whitespace-separated tokens.
fn split_ws_exec(s: &str) -> (r: Vec<String>)
    ensures
        r.deep_view() == split_ws(s@),
    decreases s@.len(),
{
    let n = s.unicode_len();
    if n == 0 {
        let r: Vec<String> = Vec::new();
        proof {
            assert(r.deep_view() =~~= split_ws(s@));
        }
        r
    } else {
        let c = s.get_char(0);
        if is_space_exec(c) {
            let rest = s.substring_char(1, n);
            proof {
                assert(rest@ =~= s@.drop_first());
            }
            split_ws_exec(rest)
        } else {
            let t = token_len_exec(s);
            proof {
                lemma_token_len_bounds(s@);
                lemma_token_len_bounds(s@.drop_first());
                assert(token_len(s@) >= 1);
            }
            let tok = s.substring_char(0, t);
            let rest = s.substring_char(t, n);
            let mut r: Vec<String> = Vec::new();
            r.push(String::from_str(tok));
            let mut rr = split_ws_exec(rest);
            r.append(&mut rr);
            proof {
                assert(tok@ == s@.take(token_len(s@)));
                assert(rest@ == s@.skip(token_len(s@)));
                assert(r.deep_view() =~~= split_ws(s@));
            }
            r
        }
    }
}

/// Finds the first `": "` separator in the line, if any.
fn find_sep_exec(s: &str) -> (r: Option<usize>)
    ensures
        match r {
            Some(i) => find_sep(s@, 0) == i as int,
            None => find_sep(s@, 0) == -1,
        },
{
    let n = s.unicode_len();
    if n < 2 {
        proof {
            assert(find_sep(s@, 0) == -1);
        }
        return None;
    }
    let mut i: usize = 0;
    while i < n - 1
        invariant
            n == s@.len(),
            2 <= n,
            i <= n - 1,
            find_sep(s@, 0) == find_sep(s@, i as int),
        decreases n - i,
    {
        let a = s.get_char(i);
        let b = s.get_char(i + 1);
        if a == ':' && b == ' ' {
            return Some(i);
        }
        i = i + 1;
    }
    None
}

/// Parses one header line into its (name, value) pair, if it carries the
/// `": "` separator.
fn parse_header_line_exec(s: &str) -> (r: Option<(String, String)>)
    ensures
        match r {
            Some(p) => parse_header_line(s@) == Some((p.0@, p.1@)),
            None => parse_header_line(s@) is None,
        },
{
    let n = s.unicode_len();
    match find_sep_exec(s) {
        Some(i) => {
            proof {
                lemma_find_sep_props(s@, 0);
            }
            let name = s.substring_char(0, i);
            let value = s.substring_char(i + 2, n);
            proof {
                assert(name@ == s@.take(i as int));
                assert(value@ == s@.skip(i + 2));
            }
            Some((String::from_str(name), String::from_str(value)))
        },
        None => None,
    }
}

impl Request {
    /// Parses the raw lines of one request. The first line yields the verb
    /// and path; each later line with a `": "` separator yields a header
    /// pair, and lines without one contribute nothing.
    pub fn new(request_lines: Vec<String>) -> (r: Result<Self, ParseError>)
        requires
            request_lines@.len() >= 1,
        ensures
            match r {
                Ok(req) => spec_parse(request_lines.deep_view()) == Ok::<
                    RequestView,
                    ParseError,
                >(req@),
                Err(e) => spec_parse(request_lines.deep_view()) == Err::<
                    RequestView,
                    ParseError,
                >(e),
            },
    {
        let ghost lv = request_lines.deep_view();
        let tokens = split_ws_exec(request_lines[0].as_str());
        proof {
            assert(lv[0] == request_lines@[0]@);
            assert(tokens.deep_view() == split_ws(lv[0]));
        }
        if tokens.len() < 2 {
            return Err(ParseError::MalformedRequestLine);
        }
        proof {
            assert(tokens.deep_view()[0] == tokens@[0]@);
            assert(tokens.deep_view()[1] == tokens@[1]@);
        }
        let method = match Method::try_from(tokens[0].as_str(), tokens[1].as_str()) {
            Ok(m) => m,
            Err(_) => {
                return Err(ParseError::UnsupportedMethod);
            },
        };
        let mut headers: Vec<(String, String)> = Vec::new();
        let mut i: usize = 1;
        while i < request_lines.len()
            invariant
                1 <= i <= lv.len(),
                lv == request_lines.deep_view(),
                lv.len() == request_lines@.len(),
                headers@.map_values(|p: (String, String)| (p.0@, p.1@)) == parse_headers(
                    lv.subrange(1, i as int),
                ),
            decreases lv.len() - i,
        {
            let ghost pre = lv.subrange(1, i as int);
            match parse_header_line_exec(request_lines[i].as_str()) {
                Some(p) => {
                    headers.push(p);
                },
                None => {},
            }
            proof {
                assert(lv[i as int] == request_lines@[i as int]@);
                assert(lv.subrange(1, i + 1) =~= pre.push(lv[i as int]));
                lemma_parse_headers_push(pre, lv[i as int]);
                assert(headers@.map_values(|p: (String, String)| (p.0@, p.1@)) =~= parse_headers(
                    lv.subrange(1, i + 1),
                ));
            }
            i = i + 1;
        }
        let r = Request { method, headers };
        proof {
            assert(lv.subrange(1, lv.len() as int) =~= lv.drop_first());
            assert(spec_parse(lv) == Ok::<RequestView, ParseError>(r@));
        }
        Ok(r)
    }
}

} // verus!
