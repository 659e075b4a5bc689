//! The request parser: a raw buffer of UTF-8 text becomes a structured
//! request, or a parse error when the first line is malformed. Bad
//! header lines and bad query pairs are silently dropped, never fatal.

use vstd::prelude::*;

use crate::method::{HttpMethod, MethodView, parse_method};
use crate::string_map::StringMap;
use crate::text::{chars_of, find_char, find_char_range, find_seq, lemma_find_seq, matches_at,
    spec_lines, split_char, split_ws, string_from_range, strip_cr, tokenize, trim, trim_range};

verus! {

/// The mathematical value of a request: its method, path, query
/// parameters (present only when a `?` appeared in the target),
/// headers, and body.
#[verifier::ext_equal]
pub struct RequestView {
    pub method: MethodView,
    pub path: Seq<char>,
    pub query: Option<Map<Seq<char>, Seq<char>>>,
    pub headers: Map<Seq<char>, Seq<char>>,
    pub body: Option<Seq<char>>,
}

/// Why a raw buffer fails to parse; either way the connection is
/// aborted without a response.
#[derive(Debug, Clone, Copy, PartialEq, Eq, Structural)]
pub enum ParseError {
    /// The buffer holds no line at all.
    MissingRequestLine,
    /// The first line does not hold exactly three tokens.
    InvalidRequestLine,
}

/// One query piece folded into the map: the piece is split at its
/// first `=`; a piece without `=` is dropped.
pub open spec fn apply_query_piece(
    m: Map<Seq<char>, Seq<char>>,
    piece: Seq<char>,
) -> Map<Seq<char>, Seq<char>> {
    match find_char(piece, '=') {
        Some(i) => m.insert(piece.take(i), piece.skip(i + 1)),
        None => m,
    }
}

/// Query pieces folded left to right, so that a later key overwrites
/// an earlier one.
pub open spec fn query_fold(
    m: Map<Seq<char>, Seq<char>>,
    pieces: Seq<Seq<char>>,
) -> Map<Seq<char>, Seq<char>>
    decreases pieces.len(),
{
    if pieces.len() == 0 {
        m
    } else {
        query_fold(apply_query_piece(m, pieces[0]), pieces.drop_first())
    }
}

/// The mapping a query string denotes: `&`-separated pieces, each
/// split at its first `=`.
pub open spec fn query_of(qs: Seq<char>) -> Map<Seq<char>, Seq<char>> {
    query_fold(Map::empty(), split_char(qs, '&'))
}

/// The path part of a request target: everything before the first
/// `?`, or the whole target without one.
pub open spec fn target_path(raw: Seq<char>) -> Seq<char> {
    match find_char(raw, '?') {
        None => raw,
        Some(i) => raw.take(i),
    }
}

/// The query part of a request target: present exactly when a `?`
/// appears, holding the mapping of what follows it.
pub open spec fn target_query(raw: Seq<char>) -> Option<Map<Seq<char>, Seq<char>>> {
    match find_char(raw, '?') {
        None => None,
        Some(i) => Some(query_of(raw.skip(i + 1))),
    }
}

/// One header line folded into the map: the line is split at its
/// first `:`, both sides trimmed; a line without `:` is dropped.
pub open spec fn apply_header_line(
    m: Map<Seq<char>, Seq<char>>,
    line: Seq<char>,
) -> Map<Seq<char>, Seq<char>> {
    match find_char(line, ':') {
        Some(i) => m.insert(trim(line.take(i)), trim(line.skip(i + 1))),
        None => m,
    }
}

/// Header lines folded left to right, so that a duplicate header
/// overwrites an earlier one.
pub open spec fn header_fold(
    m: Map<Seq<char>, Seq<char>>,
    lines: Seq<Seq<char>>,
) -> Map<Seq<char>, Seq<char>>
    decreases lines.len(),
{
    if lines.len() == 0 {
        m
    } else {
        header_fold(apply_header_line(m, lines[0]), lines.drop_first())
    }
}

/// The longest prefix of nonempty lines.
pub open spec fn take_nonempty(ls: Seq<Seq<char>>) -> Seq<Seq<char>>
    decreases ls.len(),
{
    if ls.len() == 0 || ls[0].len() == 0 {
        seq![]
    } else {
        seq![ls[0]] + take_nonempty(ls.drop_first())
    }
}

/// The header mapping of a raw buffer: every line after the first, up
/// to (exclusive of) the first empty line.
pub open spec fn headers_of(s: Seq<char>) -> Map<Seq<char>, Seq<char>> {
    header_fold(Map::empty(), take_nonempty(spec_lines(s).skip(1)))
}

/// The blank-line separator between the header block and the body.
pub open spec fn blank_line() -> Seq<char> {
    seq!['\r', '\n', '\r', '\n']
}

/// The body of a raw buffer: everything after the first blank-line
/// separator; an empty remainder, or no separator, means no body.
pub open spec fn body_of(s: Seq<char>) -> Option<Seq<char>> {
    match find_seq(s, blank_line()) {
        Some(i) => if s.skip(i + 4).len() == 0 {
            None
        } else {
            Some(s.skip(i + 4))
        },
        None => None,
    }
}

/// The request a raw buffer parses to, or the parse error. The first
/// line must hold exactly three whitespace-separated tokens: the verb,
/// the target, and the protocol version (parsed but unused). A `Get`
/// request never has a body, whatever follows the header block.
pub open spec fn parse_request(s: Seq<char>) -> Result<RequestView, ParseError> {
    let ls = spec_lines(s);
    if ls.len() == 0 {
        Err(ParseError::MissingRequestLine)
    } else {
        let toks = split_ws(ls[0]);
        if toks.len() != 3 {
            Err(ParseError::InvalidRequestLine)
        } else {
            let method = parse_method(toks[0]);
            Ok(
                RequestView {
                    method,
                    path: target_path(toks[1]),
                    query: target_query(toks[1]),
                    headers: headers_of(s),
                    body: if method is Get {
                        None
                    } else {
                        body_of(s)
                    },
                },
            )
        }
    }
}

/// Law: a request that parses with method `Get` has no body, whatever
/// bytes follow the header block.
pub proof fn lemma_get_has_no_body(s: Seq<char>)
    ensures
        parse_request(s) matches Ok(rv) ==> (rv.method is Get ==> rv.body is None),
{
}

/// The incoming request: one is parsed per connection, transformed at
/// most once by the middleware, and consumed by one handler.
#[derive(Debug)]
pub struct Request {
    /// The verb of the request line.
    pub method: HttpMethod,
    /// The path of the request line, without the query string.
    pub path: String,
    /// The query parameters, present only when the target held a `?`.
    pub query: Option<StringMap>,
    /// The header mapping; keys and values are trimmed.
    pub headers: StringMap,
    /// The body, absent for `Get` requests and empty bodies.
    pub body: Option<String>,
}

impl View for Request {
    type V = RequestView;

    open spec fn view(&self) -> RequestView {
        RequestView {
            method: self.method@,
            path: self.path@,
            query: match self.query {
                Some(q) => Some(q@),
                None => None,
            },
            headers: self.headers@,
            body: self.body.deep_view(),
        }
    }
}

impl Request {
    /// Well-formed: the header and query tables hold no duplicate
    /// keys.
    pub open spec fn wf(&self) -> bool {
        &&& self.headers.wf()
        &&& match self.query {
            Some(q) => q.wf(),
            None => true,
        }
    }

    /// Parses a raw buffer into a request. Fails exactly when the
    /// buffer is empty or its first line does not hold three tokens;
    /// all other malformed pieces are silently dropped.
    pub fn from_str(s: &str) -> (r: Result<Request, ParseError>)
        ensures
            match r {
                Ok(req) => parse_request(s@) == Ok::<RequestView, ParseError>(req@) && req.wf(),
                Err(e) => parse_request(s@) == Err::<RequestView, ParseError>(e),
            },
    {
        let v = chars_of(s);
        let n = v.len();
        if n == 0 {
            return Err(ParseError::MissingRequestLine);
        }
        let ghost ls = spec_lines(s@);
        let nl = find_char_range(&v, 0, n, '\n');
        let content_end: usize = match nl {
            Some(k) => if k > 0 && v[k - 1] == '\r' {
                k - 1
            } else {
                k
            },
            None => n,
        };
        proof {
            assert(v@.subrange(0, n as int) =~= s@);
            match nl {
                Some(k) => {
                    assert(strip_cr(s@.take(k as int)) =~= s@.subrange(0, content_end as int));
                },
                None => {
                    assert(s@.subrange(0, content_end as int) =~= s@);
                },
            }
            assert(ls[0] == s@.subrange(0, content_end as int));
        }
        let toks = tokenize(&v, 0, content_end);
        proof {
            assert(v@.subrange(0, content_end as int) == s@.subrange(0, content_end as int));
            assert(toks.deep_view() == split_ws(ls[0]));
        }
        if toks.len() != 3 {
            return Err(ParseError::InvalidRequestLine);
        }
        let method = HttpMethod::from_str_val(toks[0].as_str());
        assert(method@ == parse_method(split_ws(ls[0])[0]));
        let target = &toks[1];
        let tv = chars_of(target.as_str());
        let tn = tv.len();
        let (path, query) = match find_char_range(&tv, 0, tn, '?') {
            None => {
                proof {
                    assert(tv@.subrange(0, tn as int) =~= target@);
                }
                (target.clone(), None)
            },
            Some(qi) => {
                proof {
                    assert(tv@.subrange(0, tn as int) =~= target@);
                    assert(target@.take(qi as int) =~= tv@.subrange(0, qi as int));
                    assert(target@.skip(qi + 1) =~= tv@.subrange(qi + 1, tn as int));
                }
                (string_from_range(&tv, 0, qi), Some(parse_query_string(&tv, qi + 1, tn)))
            },
        };
        let hstart: usize = match nl {
            Some(k) => k + 1,
            None => n,
        };
        let headers = parse_headers(&v, hstart);
        proof {
            match nl {
                Some(k) => {
                    assert(ls.skip(1) =~= spec_lines(s@.skip(k + 1)));
                    assert(s@.skip(k + 1) =~= v@.subrange(hstart as int, n as int));
                },
                None => {
                    assert(ls.skip(1) =~= Seq::<Seq<char>>::empty());
                    assert(v@.subrange(hstart as int, n as int) =~= Seq::<char>::empty());
                    assert(spec_lines(v@.subrange(hstart as int, n as int)) =~= Seq::<
                        Seq<char>,
                    >::empty());
                },
            }
            assert(headers@ == headers_of(s@));
        }
        let body = match &method {
            HttpMethod::Get => None,
            _ => parse_body(&v),
        };
        let req = Request { method, path, query, headers, body };
        proof {
            let toks_spec = split_ws(ls[0]);
            let rv = parse_request(s@)->Ok_0;
            assert(req@.method == rv.method);
            assert(req@.path == rv.path);
            assert(req@.query == rv.query);
            assert(req@.headers == rv.headers);
            assert(req@.body == rv.body);
            assert(req@ =~= rv);
        }
        Ok(req)
    }
}

/// The query mapping of `v[from..to]`, read as a query string.
fn parse_query_string(v: &Vec<char>, from: usize, to: usize) -> (qm: StringMap)
    requires
        from <= to <= v@.len(),
    ensures
        qm.wf(),
        qm@ == query_of(v@.subrange(from as int, to as int)),
{
    let ghost qs = v@.subrange(from as int, to as int);
    let mut qm = StringMap::new();
    let mut p: usize = from;
    let mut done = false;
    while !done
        invariant
            from <= p <= to <= v@.len(),
            qm.wf(),
            done ==> qm@ == query_of(qs),
            !done ==> query_fold(qm@, split_char(v@.subrange(p as int, to as int), '&'))
                == query_of(qs),
        decreases to - p + if done {
            0int
        } else {
            1int
        },
    {
        let ghost rest = v@.subrange(p as int, to as int);
        let ghost pre = qm@;
        let amp = find_char_range(v, p, to, '&');
        let piece_end: usize = match amp {
            Some(a) => a,
            None => to,
        };
        let ghost piece = v@.subrange(p as int, piece_end as int);
        proof {
            match amp {
                Some(a) => {
                    assert(rest.take(a - p) =~= piece);
                    assert(rest.skip(a - p + 1) =~= v@.subrange(a + 1, to as int));
                    assert(split_char(rest, '&') == seq![piece] + split_char(
                        v@.subrange(a + 1, to as int),
                        '&',
                    ));
                },
                None => {
                    assert(rest =~= piece);
                    assert(split_char(rest, '&') == seq![piece]);
                },
            }
        }
        let eq = find_char_range(v, p, piece_end, '=');
        match eq {
            Some(e) => {
                proof {
                    assert(piece.take(e - p) =~= v@.subrange(p as int, e as int));
                    assert(piece.skip(e - p + 1) =~= v@.subrange(e + 1, piece_end as int));
                }
                let key = string_from_range(v, p, e);
                let val = string_from_range(v, e + 1, piece_end);
                qm.insert(key, val);
                assert(qm@ == apply_query_piece(pre, piece));
            },
            None => {
                assert(qm@ == apply_query_piece(pre, piece));
            },
        }
        match amp {
            Some(a) => {
                p = a + 1;
                proof {
                    let remaining = split_char(v@.subrange(p as int, to as int), '&');
                    assert(query_fold(pre, seq![piece] + remaining) == query_fold(
                        qm@,
                        remaining,
                    )) by {
                        assert((seq![piece] + remaining)[0] == piece);
                        assert((seq![piece] + remaining).drop_first() =~= remaining);
                    }
                }
            },
            None => {
                done = true;
                proof {
                    assert(query_fold(pre, seq![piece]) == qm@) by {
                        reveal_with_fuel(query_fold, 2);
                        assert(seq![piece].drop_first() =~= Seq::<Seq<char>>::empty());
                    }
                }
            },
        }
    }
    qm
}

/// The header mapping of the lines of `v[start..]`, up to the first
/// empty line.
fn parse_headers(v: &Vec<char>, start: usize) -> (hm: StringMap)
    requires
        start <= v@.len(),
    ensures
        hm.wf(),
        hm@ == header_fold(
            Map::<Seq<char>, Seq<char>>::empty(),
            take_nonempty(spec_lines(v@.subrange(start as int, v@.len() as int))),
        ),
{
    let n = v.len();
    let ghost goal = header_fold(
        Map::<Seq<char>, Seq<char>>::empty(),
        take_nonempty(spec_lines(v@.subrange(start as int, n as int))),
    );
    let mut hm = StringMap::new();
    let mut pos: usize = start;
    let mut done = false;
    while !done
        invariant
            start <= pos <= n == v@.len(),
            hm.wf(),
            done ==> hm@ == goal,
            !done ==> header_fold(hm@, take_nonempty(spec_lines(v@.subrange(pos as int, n as int))))
                == goal,
        decreases n - pos + if done {
            0int
        } else {
            1int
        },
    {
        let ghost rest = v@.subrange(pos as int, n as int);
        let ghost pre = hm@;
        if pos == n {
            done = true;
            proof {
                assert(rest =~= Seq::<char>::empty());
                assert(spec_lines(rest) =~= Seq::<Seq<char>>::empty());
            }
        } else {
            let nl = find_char_range(v, pos, n, '\n');
            let content_end: usize = match nl {
                Some(k) => if k > pos && v[k - 1] == '\r' {
                    k - 1
                } else {
                    k
                },
                None => n,
            };
            let next_pos: usize = match nl {
                Some(k) => k + 1,
                None => n,
            };
            let ghost line = v@.subrange(pos as int, content_end as int);
            let ghost after = v@.subrange(next_pos as int, n as int);
            proof {
                match nl {
                    Some(k) => {
                        assert(rest.take(k - pos) =~= v@.subrange(pos as int, k as int));
                        assert(strip_cr(v@.subrange(pos as int, k as int)) =~= line);
                        assert(rest.skip(k - pos + 1) =~= after);
                        assert(spec_lines(rest) == seq![line] + spec_lines(after));
                    },
                    None => {
                        assert(rest =~= line);
                        assert(after =~= Seq::<char>::empty());
                        assert(spec_lines(after) =~= Seq::<Seq<char>>::empty());
                        assert(spec_lines(rest) == seq![line]);
                        assert(seq![line] =~= seq![line] + spec_lines(after));
                    },
                }
            }
            if content_end == pos {
                done = true;
                proof {
                    assert(line.len() == 0);
                    assert(take_nonempty(spec_lines(rest)) =~= Seq::<Seq<char>>::empty());
                }
            } else {
                let colon = find_char_range(v, pos, content_end, ':');
                match colon {
                    Some(ci) => {
                        proof {
                            assert(line.take(ci - pos) =~= v@.subrange(pos as int, ci as int));
                            assert(line.skip(ci - pos + 1) =~= v@.subrange(
                                ci + 1,
                                content_end as int,
                            ));
                        }
                        let key = trim_range(v, pos, ci);
                        let val = trim_range(v, ci + 1, content_end);
                        hm.insert(key, val);
                        assert(hm@ == apply_header_line(pre, line));
                    },
                    None => {
                        assert(hm@ == apply_header_line(pre, line));
                    },
                }
                pos = next_pos;
                proof {
                    let lines = seq![line] + spec_lines(after);
                    assert(take_nonempty(lines) == seq![line] + take_nonempty(spec_lines(after)))
                        by {
                        assert(lines[0] == line);
                        assert(lines.drop_first() =~= spec_lines(after));
                    }
                    let tn_after = take_nonempty(spec_lines(after));
                    assert(header_fold(pre, seq![line] + tn_after) == header_fold(hm@, tn_after))
                        by {
                        assert((seq![line] + tn_after)[0] == line);
                        assert((seq![line] + tn_after).drop_first() =~= tn_after);
                    }
                }
            }
        }
    }
    hm
}

/// The position of the first blank-line separator in `v`, if any.
fn find_blank_line(v: &Vec<char>) -> (r: Option<usize>)
    ensures
        match r {
            Some(i) => find_seq(v@, blank_line()) == Some(i as int) && i + 4 <= v@.len(),
            None => find_seq(v@, blank_line()) is None,
        },
{
    proof {
        lemma_find_seq(v@, blank_line());
    }
    let n = v.len();
    if n < 4 {
        return None;
    }
    let mut i: usize = 0;
    let mut found: Option<usize> = None;
    while i <= n - 4 && found.is_none()
        invariant
            4 <= n,
            i <= n == v@.len(),
            match found {
                Some(k) => k + 4 <= n && matches_at(v@, blank_line(), k as int) && (forall|j: int|
                    0 <= j < k ==> !matches_at(v@, blank_line(), j)),
                None => forall|j: int| 0 <= j < i ==> !matches_at(v@, blank_line(), j),
            },
        decreases n - i + if found.is_none() {
            1int
        } else {
            0int
        },
    {
        if v[i] == '\r' && v[i + 1] == '\n' && v[i + 2] == '\r' && v[i + 3] == '\n' {
            proof {
                assert(v@.subrange(i as int, i + 4) =~= blank_line());
            }
            found = Some(i);
        } else {
            proof {
                if matches_at(v@, blank_line(), i as int) {
                    assert(v@.subrange(i as int, i + 4)[0] == '\r');
                    assert(v@.subrange(i as int, i + 4)[1] == '\n');
                    assert(v@.subrange(i as int, i + 4)[2] == '\r');
                    assert(v@.subrange(i as int, i + 4)[3] == '\n');
                    assert(false);
                }
            }
            i = i + 1;
        }
    }
    proof {
        if found.is_none() {
            assert forall|j: int| 0 <= j < v@.len() implies !matches_at(v@, blank_line(), j) by {
                if j + 4 > v@.len() {
                    assert(!matches_at(v@, blank_line(), j));
                }
            }
        }
    }
    found
}

/// The body of the raw buffer `v`: everything after the first
/// blank-line separator, or nothing when absent or empty.
fn parse_body(v: &Vec<char>) -> (b: Option<String>)
    ensures
        b.deep_view() == body_of(v@),
{
    match find_blank_line(v) {
        Some(i) => {
            let n = v.len();
            if i + 4 == n {
                assert(v@.skip(i + 4).len() == 0);
                None
            } else {
                let body = string_from_range(v, i + 4, n);
                proof {
                    assert(v@.subrange(i + 4, n as int) =~= v@.skip(i + 4));
                }
                Some(body)
            }
        },
        None => None,
    }
}

} // verus!
