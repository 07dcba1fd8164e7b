//! The HTTPS surface's plain-text plumbing: parsing a request head,
//! building a response, and matching routes.
//!
//! Reading and writing sockets stays outside; these functions work on the
//! request text and the route table alone.

use vstd::prelude::*;
use crate::classifier::{nonempty_segments, seq_views, split_path_segments, split_seq};
use crate::text::{
    chars_eq, chars_of, contains_seq, contains_vec, lower_seq, slice_range, string_of,
    to_lower_vec, trim_seq, trim_vec,
};

verus! {

/// A parsed request head.
#[derive(Debug, Clone)]
pub struct HttpRequest {
    pub method: String,
    pub path: String,
    pub headers: Vec<String>,
    pub body: Option<String>,
}

/// A response under construction.
pub struct HttpResponse {
    status_code: u16,
    headers: Vec<(String, String)>,
    body: Option<String>,
    binary_body: Option<Vec<u8>>,
}

impl HttpResponse {
    pub closed spec fn spec_status(&self) -> int {
        self.status_code as int
    }

    pub closed spec fn spec_headers(&self) -> Seq<(String, String)> {
        self.headers@
    }

    pub closed spec fn spec_body(&self) -> Option<Seq<char>> {
        match self.body {
            Some(b) => Some(b@),
            None => None,
        }
    }

    pub closed spec fn spec_binary_body(&self) -> Option<Seq<u8>> {
        match self.binary_body {
            Some(b) => Some(b@),
            None => None,
        }
    }

    pub fn new(status_code: u16) -> (r: HttpResponse)
        ensures
            r.spec_status() == status_code as int,
            r.spec_headers().len() == 0,
            r.spec_body() is None,
            r.spec_binary_body() is None,
    {
        HttpResponse { status_code, headers: Vec::new(), body: None, binary_body: None }
    }

    /// Add one header.
    pub fn with_header(self, key: &str, value: &str) -> (r: HttpResponse)
        ensures
            r.spec_status() == self.spec_status(),
            r.spec_headers().len() == self.spec_headers().len() + 1,
            r.spec_headers().last().0@ == key@,
            r.spec_headers().last().1@ == value@,
            r.spec_headers().subrange(0, self.spec_headers().len() as int)
                == self.spec_headers(),
            r.spec_body() == self.spec_body(),
            r.spec_binary_body() == self.spec_binary_body(),
    {
        let ghost orig = self.headers@;
        let mut s = self;
        s.headers.push((key.to_owned(), value.to_owned()));
        proof {
            assert(s.headers@.subrange(0, s.headers@.len() - 1) =~= orig);
        }
        s
    }

    /// Set the text body.
    pub fn with_body(self, body: &str) -> (r: HttpResponse)
        ensures
            r.spec_status() == self.spec_status(),
            r.spec_headers() == self.spec_headers(),
            r.spec_body() == Some(body@),
            r.spec_binary_body() == self.spec_binary_body(),
    {
        let mut s = self;
        s.body = Some(body.to_owned());
        s
    }

    /// Set a JSON body: the content type header and the text.
    pub fn with_json_body(self, body: &str) -> (r: HttpResponse)
        ensures
            r.spec_status() == self.spec_status(),
            r.spec_headers().len() == self.spec_headers().len() + 1,
            r.spec_headers().last().0@ == "Content-Type"@,
            r.spec_headers().last().1@ == "application/json"@,
            r.spec_body() == Some(body@),
            r.spec_binary_body() == self.spec_binary_body(),
    {
        let s = self.with_header("Content-Type", "application/json");
        s.with_body(body)
    }

    /// Set the binary body.
    pub fn with_binary_body(self, body: Vec<u8>) -> (r: HttpResponse)
        ensures
            r.spec_status() == self.spec_status(),
            r.spec_headers() == self.spec_headers(),
            r.spec_body() == self.spec_body(),
            r.spec_binary_body() == Some(body@),
    {
        let mut s = self;
        s.binary_body = Some(body);
        s
    }

    /// Add the three permissive cross-origin headers.
    pub fn with_cors(self) -> (r: HttpResponse)
        ensures
            r.spec_status() == self.spec_status(),
            r.spec_headers().len() == self.spec_headers().len() + 3,
            r.spec_body() == self.spec_body(),
            r.spec_binary_body() == self.spec_binary_body(),
    {
        let s = self.with_header("Access-Control-Allow-Origin", "*");
        let s = s.with_header("Access-Control-Allow-Methods", "GET, POST, OPTIONS");
        s.with_header("Access-Control-Allow-Headers", "content-type")
    }

    /// The code and bodies, for the unverified writer.
    pub fn into_parts(self) -> (r: (u16, Vec<(String, String)>, Option<String>, Option<Vec<u8>>))
        ensures
            r.0 as int == self.spec_status(),
            r.1@ == self.spec_headers(),
            (match (r.2, self.spec_body()) {
                (Some(a), Some(b)) => a@ == b,
                (None, None) => true,
                _ => false,
            }),
            (match (r.3, self.spec_binary_body()) {
                (Some(a), Some(b)) => a@ == b,
                (None, None) => true,
                _ => false,
            }),
    {
        (self.status_code, self.headers, self.body, self.binary_body)
    }
}

// ---------- request parsing ----------

/// A line with a trailing carriage return removed.
pub open spec fn strip_cr(l: Seq<char>) -> Seq<char> {
    if l.len() > 0 && l.last() == '\r' {
        l.drop_last()
    } else {
        l
    }
}

/// The lines of a text: newline-separated, a final empty segment dropped,
/// carriage returns stripped.
pub open spec fn lines_of(s: Seq<char>) -> Seq<Seq<char>> {
    let segs = split_seq(s, '\n');
    let kept = if segs.len() > 0 && segs.last().len() == 0 {
        segs.drop_last()
    } else {
        segs
    };
    kept.map_values(|l: Seq<char>| strip_cr(l))
}

/// The space-separated words of a line.
pub open spec fn tokens_of(l: Seq<char>) -> Seq<Seq<char>> {
    nonempty_segments(split_seq(l, ' '))
}

/// The head parses: there is a request line with at least a method and a
/// path.
pub open spec fn request_ok(s: Seq<char>) -> bool {
    lines_of(s).len() > 0 && tokens_of(lines_of(s)[0]).len() >= 2
}

/// Index of the first empty line (the head/body separator), or `-1`.
pub open spec fn first_empty_line(ls: Seq<Seq<char>>, i: int) -> int
    decreases ls.len() - i,
{
    if i < 0 || i >= ls.len() {
        -1
    } else if ls[i].len() == 0 {
        i
    } else {
        first_empty_line(ls, i + 1)
    }
}

/// The header lines: everything between the request line and the first
/// empty line.
pub open spec fn headers_of(s: Seq<char>) -> Seq<Seq<char>> {
    let ls = lines_of(s);
    let sep = first_empty_line(ls, 0);
    if sep >= 1 {
        ls.subrange(1, sep)
    } else if sep == 0 {
        Seq::empty()
    } else {
        ls.subrange(1, ls.len() as int)
    }
}

/// The lines joined back with newlines.
pub open spec fn join_lines(parts: Seq<Seq<char>>) -> Seq<char>
    decreases parts.len(),
{
    if parts.len() == 0 {
        Seq::empty()
    } else if parts.len() == 1 {
        parts[0]
    } else {
        join_lines(parts.drop_last()) + seq!['\n'] + parts.last()
    }
}

/// The body: the lines after the separator, joined, when any follow it.
pub open spec fn body_of(s: Seq<char>) -> Option<Seq<char>> {
    let ls = lines_of(s);
    let sep = first_empty_line(ls, 0);
    if sep >= 0 && sep + 1 < ls.len() {
        Some(join_lines(ls.subrange(sep + 1, ls.len() as int)))
    } else {
        None
    }
}

#[verifier::loop_isolation(false)]
fn lines_exec(v: &Vec<char>) -> (r: Vec<Vec<char>>)
    ensures
        r@.len() == lines_of(v@).len(),
        forall|i: int| 0 <= i < r@.len() ==> r@[i]@ == lines_of(v@)[i],
{
    let segs = split_path_segments(v, '\n');
    let mut kept = segs;
    if kept.len() > 0 && kept[kept.len() - 1].len() == 0 {
        let _ = kept.pop();
    }
    proof {
        lemma_split_nonempty_here(v@);
    }
    let mut r: Vec<Vec<char>> = Vec::new();
    let mut i: usize = 0;
    while i < kept.len()
        invariant
            i <= kept@.len(),
            r@.len() == i,
            kept@.len() == lines_of(v@).len(),
            forall|j: int| 0 <= j < kept@.len() ==> strip_cr(kept@[j]@) == lines_of(v@)[j],
            forall|j: int| 0 <= j < i ==> r@[j]@ == lines_of(v@)[j],
        decreases kept@.len() - i,
    {
        let line = &kept[i];
        let stripped = if line.len() > 0 && line[line.len() - 1] == '\r' {
            slice_range(line, 0, line.len() - 1)
        } else {
            slice_range(line, 0, line.len())
        };
        proof {
            if !(line@.len() > 0 && line@.last() == '\r') {
                assert(line@.subrange(0, line@.len() as int) =~= line@);
            } else {
                assert(line@.subrange(0, line@.len() - 1) =~= line@.drop_last());
            }
        }
        r.push(stripped);
        i = i + 1;
    }
    r
}

proof fn lemma_split_nonempty_here(s: Seq<char>)
    ensures
        split_seq(s, '\n').len() >= 1,
{
    crate::classifier::lemma_split_nonempty(s, '\n');
}

#[verifier::loop_isolation(false)]
fn join_lines_exec(parts: &Vec<Vec<char>>, from: usize) -> (r: Vec<char>)
    requires
        from <= parts@.len(),
    ensures
        r@ == join_lines(seq_views(parts@).subrange(from as int, parts@.len() as int)),
{
    let ghost whole = seq_views(parts@).subrange(from as int, parts@.len() as int);
    let mut r: Vec<char> = Vec::new();
    let mut k: usize = from;
    while k < parts.len()
        invariant
            from <= k <= parts@.len(),
            r@ == join_lines(seq_views(parts@).subrange(from as int, k as int)),
        decreases parts@.len() - k,
    {
        if k > from {
            r.push('\n');
        }
        let ghost mid = r@;
        let mut j: usize = 0;
        while j < parts[k].len()
            invariant
                j <= parts@[k as int]@.len(),
                k < parts@.len(),
                r@ == mid + parts@[k as int]@.subrange(0, j as int),
            decreases parts@[k as int]@.len() - j,
        {
            r.push(parts[k][j]);
            j = j + 1;
            proof {
                assert(r@ =~= mid + parts@[k as int]@.subrange(0, j as int));
            }
        }
        k = k + 1;
        proof {
            let pv = seq_views(parts@);
            assert(parts@[k - 1]@.subrange(0, parts@[k - 1]@.len() as int) =~= pv[k - 1]);
            assert(pv.subrange(from as int, k as int).drop_last() =~= pv.subrange(
                from as int,
                k as int - 1,
            ));
            assert(pv.subrange(from as int, k as int).last() == pv[k - 1]);
            assert(r@ =~= join_lines(pv.subrange(from as int, k as int)));
        }
    }
    r
}

/// Parse a request head: the method and path from the request line, the
/// headers up to the first empty line, the body after it.
#[verifier::loop_isolation(false)]
pub fn parse_http_request(request: &str) -> (r: Option<HttpRequest>)
    ensures
        match r {
            Some(req) => {
                &&& request_ok(request@)
                &&& req.method@ == tokens_of(lines_of(request@)[0])[0]
                &&& req.path@ == tokens_of(lines_of(request@)[0])[1]
                &&& req.headers@.len() == headers_of(request@).len()
                &&& forall|i: int|
                    0 <= i < req.headers@.len() ==> req.headers@[i]@ == headers_of(request@)[i]
                &&& (match (req.body, body_of(request@)) {
                    (Some(a), Some(b)) => a@ == b,
                    (None, None) => true,
                    _ => false,
                })
            },
            None => !request_ok(request@),
        },
{
    let rv = chars_of(request);
    let lines = lines_exec(&rv);
    if lines.len() == 0 {
        return None;
    }
    let first_segs = split_path_segments(&lines[0], ' ');
    proof {
        assert(seq_views(first_segs@) =~= split_seq(lines@[0]@, ' '));
    }
    let tokens = crate::classifier::nonempty_path_segments(first_segs);
    if tokens.len() < 2 {
        return None;
    }
    let method = string_of(&tokens[0]);
    let path = string_of(&tokens[1]);
    let ghost ls = lines_of(request@);
    let mut sep: Option<usize> = None;
    let mut i: usize = 0;
    while i < lines.len()
        invariant
            i <= lines@.len(),
            lines@.len() == ls.len(),
            forall|j: int| 0 <= j < ls.len() ==> lines@[j]@ == ls[j],
            sep is None ==> first_empty_line(ls, 0) == first_empty_line(ls, i as int),
            match sep {
                Some(p) => p < i && first_empty_line(ls, 0) == p as int,
                None => true,
            },
        decreases lines@.len() - i, (if sep is None { 1int } else { 0int }),
    {
        match sep {
            None => {
                if lines[i].len() == 0 {
                    sep = Some(i);
                }
                i = i + 1;
            },
            Some(_) => {
                i = lines.len();
            },
        }
    }
    let mut headers: Vec<String> = Vec::new();
    let head_end: usize = match sep {
        Some(p) => p,
        None => lines.len(),
    };
    let mut h: usize = 1;
    while h < head_end
        invariant
            1 <= h <= head_end || (head_end == 0 && h == 1),
            head_end <= lines@.len(),
            lines@.len() == ls.len(),
            forall|j: int| 0 <= j < ls.len() ==> lines@[j]@ == ls[j],
            headers@.len() == (if h > 1 {
                h - 1
            } else {
                0int
            }),
            forall|j: int| 0 <= j < headers@.len() ==> headers@[j]@ == ls[j + 1],
        decreases head_end - h,
    {
        headers.push(string_of(&lines[h]));
        h = h + 1;
    }
    let body: Option<String> = match sep {
        Some(p) => {
            if p + 1 < lines.len() {
                let joined = join_lines_exec(&lines, p + 1);
                proof {
                    assert(seq_views(lines@).subrange(p + 1, lines@.len() as int) =~= ls.subrange(
                        p + 1,
                        ls.len() as int,
                    ));
                }
                Some(string_of(&joined))
            } else {
                None
            }
        },
        None => None,
    };
    proof {
        let sep_spec = first_empty_line(ls, 0);
        if sep_spec >= 1 {
            assert(headers_of(request@) =~= ls.subrange(1, sep_spec));
        } else if sep_spec == -1 {
            assert(headers_of(request@) =~= ls.subrange(1, ls.len() as int));
        }
        assert forall|i2: int|
            0 <= i2 < headers@.len() implies headers@[i2]@ == headers_of(request@)[i2] by {}
    }
    Some(HttpRequest { method, path, headers, body })
}

/// The user agent named by the headers, `Unknown` when none names one.
pub open spec fn is_ua_header(h: Seq<char>) -> bool {
    h.len() >= 11 && lower_seq(h.subrange(0, 11)) == "user-agent:"@
}

pub open spec fn first_ua(hs: Seq<Seq<char>>, i: int) -> int
    decreases hs.len() - i,
{
    if i < 0 || i >= hs.len() {
        -1
    } else if is_ua_header(hs[i]) {
        i
    } else {
        first_ua(hs, i + 1)
    }
}

pub open spec fn user_agent_of(hs: Seq<Seq<char>>) -> Seq<char> {
    let k = first_ua(hs, 0);
    if k >= 0 {
        trim_seq(hs[k].subrange(11, hs[k].len() as int))
    } else {
        "Unknown"@
    }
}

/// Pick the user agent out of the header lines.
#[verifier::loop_isolation(false)]
pub fn extract_user_agent(headers: &Vec<String>) -> (r: String)
    ensures
        r@ == user_agent_of(Seq::new(headers@.len(), |i: int| headers@[i]@)),
{
    let ghost hs = Seq::new(headers@.len(), |i: int| headers@[i]@);
    let tag = chars_of("user-agent:");
    let mut i: usize = 0;
    while i < headers.len()
        invariant
            i <= headers@.len(),
            tag@ == "user-agent:"@,
            first_ua(hs, 0) == first_ua(hs, i as int),
        decreases headers@.len() - i,
    {
        let hv = chars_of(headers[i].as_str());
        proof {
            assert(hs[i as int] == headers@[i as int]@);
        }
        if hv.len() >= 11 {
            let prefix = slice_range(&hv, 0, 11);
            let lower = to_lower_vec(&prefix);
            if chars_eq(&lower, &tag) {
                proof {
                    assert(is_ua_header(hs[i as int]));
                    assert(first_ua(hs, i as int) == i as int);
                }
                let rest = slice_range(&hv, 11, hv.len());
                let trimmed = trim_vec(&rest);
                return string_of(&trimmed);
            }
            proof {
                assert(!is_ua_header(hs[i as int]));
            }
        } else {
            proof {
                assert(!is_ua_header(hs[i as int]));
            }
        }
        i = i + 1;
    }
    let unk = chars_of("Unknown");
    string_of(&unk)
}

// ---------- routes ----------

/// A route: a method and a path pattern.
#[derive(Debug, Clone)]
pub struct Route {
    pub method: String,
    pub path_pattern: String,
}

/// The ordered route table.
pub struct Router {
    routes: Vec<Route>,
}

/// A pattern segment matches a path segment: a braced parameter takes any
/// non-empty value, anything else must match exactly.
pub open spec fn seg_match(p: Seq<char>, q: Seq<char>) -> bool {
    if p.len() >= 2 && p[0] == '{' && p.last() == '}' {
        q.len() > 0
    } else {
        p == q
    }
}

pub open spec fn segs_match(ps: Seq<Seq<char>>, qs: Seq<Seq<char>>) -> bool {
    ps.len() == qs.len() && forall|i: int| 0 <= i < ps.len() ==> seg_match(#[trigger] ps[i], qs[i])
}

/// A pattern matches a path: exactly, by a `*` prefix, or segment-wise with
/// braced parameters.
pub open spec fn pattern_matches(pattern: Seq<char>, path: Seq<char>) -> bool {
    if pattern == path {
        true
    } else if pattern.len() > 0 && pattern.last() == '*' {
        path.len() >= pattern.len() - 1 && path.subrange(0, pattern.len() - 1)
            == pattern.drop_last()
    } else if contains_seq(pattern, seq!['{']) && contains_seq(pattern, seq!['}']) {
        segs_match(split_seq(pattern, '/'), split_seq(path, '/'))
    } else {
        false
    }
}

/// Decide whether a pattern matches a path.
#[verifier::loop_isolation(false)]
pub fn matches_path(pattern: &str, path: &str) -> (r: bool)
    ensures
        r == pattern_matches(pattern@, path@),
{
    let pv = chars_of(pattern);
    let qv = chars_of(path);
    if chars_eq(&pv, &qv) {
        return true;
    }
    if pv.len() > 0 && pv[pv.len() - 1] == '*' {
        if qv.len() >= pv.len() - 1 {
            let prefix = slice_range(&pv, 0, pv.len() - 1);
            let qprefix = slice_range(&qv, 0, pv.len() - 1);
            proof {
                assert(pv@.subrange(0, pv@.len() - 1) =~= pv@.drop_last());
            }
            return chars_eq(&qprefix, &prefix);
        }
        return false;
    }
    let mut open_brace: Vec<char> = Vec::new();
    open_brace.push('{');
    let mut close_brace: Vec<char> = Vec::new();
    close_brace.push('}');
    proof {
        assert(open_brace@ =~= seq!['{']);
        assert(close_brace@ =~= seq!['}']);
    }
    if !contains_vec(&pv, &open_brace) || !contains_vec(&pv, &close_brace) {
        return false;
    }
    let psegs = split_path_segments(&pv, '/');
    let qsegs = split_path_segments(&qv, '/');
    if psegs.len() != qsegs.len() {
        return false;
    }
    let mut i: usize = 0;
    while i < psegs.len()
        invariant
            i <= psegs@.len(),
            psegs@.len() == split_seq(pv@, '/').len(),
            qsegs@.len() == split_seq(qv@, '/').len(),
            psegs@.len() == qsegs@.len(),
            forall|j: int| 0 <= j < psegs@.len() ==> psegs@[j]@ == split_seq(pv@, '/')[j],
            forall|j: int| 0 <= j < qsegs@.len() ==> qsegs@[j]@ == split_seq(qv@, '/')[j],
            forall|j: int|
                0 <= j < i ==> seg_match(
                    #[trigger] split_seq(pv@, '/')[j],
                    split_seq(qv@, '/')[j],
                ),
        decreases psegs@.len() - i,
    {
        let p = &psegs[i];
        let q = &qsegs[i];
        let is_param = p.len() >= 2 && p[0] == '{' && p[p.len() - 1] == '}';
        if is_param {
            if q.len() == 0 {
                proof {
                    assert(!seg_match(split_seq(pv@, '/')[i as int], split_seq(qv@, '/')[i as int]));
                }
                return false;
            }
        } else {
            if !chars_eq(p, q) {
                proof {
                    assert(!seg_match(split_seq(pv@, '/')[i as int], split_seq(qv@, '/')[i as int]));
                }
                return false;
            }
        }
        i = i + 1;
    }
    true
}

impl Router {
    pub closed spec fn spec_routes(&self) -> Seq<Route> {
        self.routes@
    }

    pub fn new() -> (r: Router)
        ensures
            r.spec_routes().len() == 0,
    {
        Router { routes: Vec::new() }
    }

    /// Register a route at the end of the table.
    pub fn add_route(&mut self, method: &str, path_pattern: &str)
        ensures
            final(self).spec_routes().len() == old(self).spec_routes().len() + 1,
            final(self).spec_routes().last().method@ == method@,
            final(self).spec_routes().last().path_pattern@ == path_pattern@,
            final(self).spec_routes().subrange(0, old(self).spec_routes().len() as int) == old(
                self,
            ).spec_routes(),
    {
        let ghost orig = self.routes@;
        self.routes.push(Route { method: method.to_owned(), path_pattern: path_pattern.to_owned() });
        proof {
            assert(self.routes@.subrange(0, self.routes@.len() - 1) =~= orig);
        }
    }

    /// The first route whose method and pattern match the request.
    #[verifier::loop_isolation(false)]
    pub fn find_route(&self, method: &str, path: &str) -> (r: Option<usize>)
        ensures
            match r {
                Some(i) => {
                    &&& i < self.spec_routes().len()
                    &&& self.spec_routes()[i as int].method@ == method@
                    &&& pattern_matches(self.spec_routes()[i as int].path_pattern@, path@)
                    &&& forall|j: int|
                        0 <= j < i ==> !((#[trigger] self.spec_routes()[j]).method@ == method@
                            && pattern_matches(self.spec_routes()[j].path_pattern@, path@))
                },
                None => forall|j: int|
                    0 <= j < self.spec_routes().len() ==> !((
                    #[trigger] self.spec_routes()[j]).method@ == method@ && pattern_matches(
                        self.spec_routes()[j].path_pattern@,
                        path@,
                    )),
            },
    {
        let mut i: usize = 0;
        while i < self.routes.len()
            invariant
                i <= self.routes@.len(),
                forall|j: int|
                    0 <= j < i ==> !((#[trigger] self.spec_routes()[j]).method@ == method@
                        && pattern_matches(self.spec_routes()[j].path_pattern@, path@)),
            decreases self.routes@.len() - i,
        {
            let mv = chars_of(self.routes[i].method.as_str());
            let qv = chars_of(method);
            if chars_eq(&mv, &qv) && matches_path(self.routes[i].path_pattern.as_str(), path) {
                return Some(i);
            }
            i = i + 1;
        }
        None
    }
}

} // verus!
