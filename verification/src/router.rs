//! Routing: an ordered list of (method, pattern, handler) bindings, matched
//! first-registered-wins; `:name` pattern segments capture path text. A
//! matched handler yields either a finished response or a file operation
//! for the surrounding process to perform.

use vstd::prelude::*;
use vstd::utf8::encode_utf8;

use crate::http_headers::get_spec;
use crate::http_request::{HttpRequest, Method, RequestView};
use crate::http_response::{response_new_spec, HttpResponse, ResponseView};
use crate::strutil::{contains_str, has_substring, split_char, split_char_vec, str_eq};

verus! {

/// The abstract outcome a handler produces.
pub enum RouteResponse {
    /// Success with a body and an optional `Content-Encoding` label.
    Success(Vec<u8>, Option<String>),
    /// A file was written.
    Created,
    /// Nothing to serve; also covers a missing request body on file writes.
    NotFound,
    /// A file's raw content.
    FileContent(Vec<u8>),
}

/// The abstract content of an outcome.
pub enum OutcomeView {
    Success(Seq<u8>, Option<Seq<char>>),
    Created,
    NotFound,
    FileContent(Seq<u8>),
}

impl View for RouteResponse {
    type V = OutcomeView;

    open spec fn view(&self) -> OutcomeView {
        match self {
            RouteResponse::Success(body, enc) => OutcomeView::Success(
                body@,
                match enc {
                    Some(e) => Some(e@),
                    None => None,
                },
            ),
            RouteResponse::Created => OutcomeView::Created,
            RouteResponse::NotFound => OutcomeView::NotFound,
            RouteResponse::FileContent(body) => OutcomeView::FileContent(body@),
        }
    }
}

/// The response an outcome translates to: the fixed status line and
/// content-type table, with `Content-Encoding` appended when a label is set.
pub open spec fn respond_spec(o: OutcomeView) -> ResponseView {
    match o {
        OutcomeView::Success(body, enc) => {
            let base = response_new_spec("HTTP/1.1 200 OK"@, "text/plain"@, body);
            match enc {
                Some(e) => ResponseView {
                    headers: base.headers.push(("Content-Encoding"@, e)),
                    ..base
                },
                None => base,
            }
        },
        OutcomeView::Created => response_new_spec(
            "HTTP/1.1 201 Created"@,
            "text/plain"@,
            Seq::<u8>::empty(),
        ),
        OutcomeView::NotFound => response_new_spec(
            "HTTP/1.1 404 Not Found"@,
            "text/plain"@,
            Seq::<u8>::empty(),
        ),
        OutcomeView::FileContent(body) => response_new_spec(
            "HTTP/1.1 200 OK"@,
            "application/octet-stream"@,
            body,
        ),
    }
}

/// Translates an abstract outcome into a concrete response.
pub fn respond(outcome: RouteResponse) -> (r: HttpResponse)
    ensures
        r@ == respond_spec(outcome@),
{
    match outcome {
        RouteResponse::Success(body, content_encoding) => {
            let mut response = HttpResponse::new(
                String::from_str("HTTP/1.1 200 OK"),
                String::from_str("text/plain"),
                body,
            );
            match content_encoding {
                Some(encoding) => {
                    response.headers.add(String::from_str("Content-Encoding"), encoding);
                    proof {
                        assert(response@ =~~= respond_spec(outcome@));
                    }
                    response
                },
                None => response,
            }
        },
        RouteResponse::Created => HttpResponse::new(
            String::from_str("HTTP/1.1 201 Created"),
            String::from_str("text/plain"),
            Vec::new(),
        ),
        RouteResponse::NotFound => HttpResponse::new(
            String::from_str("HTTP/1.1 404 Not Found"),
            String::from_str("text/plain"),
            Vec::new(),
        ),
        RouteResponse::FileContent(body) => HttpResponse::new(
            String::from_str("HTTP/1.1 200 OK"),
            String::from_str("application/octet-stream"),
            body,
        ),
    }
}

/// Named path captures of one successful match, in capture order.
pub struct RouteParams {
    entries: Vec<(String, String)>,
}

impl View for RouteParams {
    type V = Seq<(Seq<char>, Seq<char>)>;

    closed spec fn view(&self) -> Seq<(Seq<char>, Seq<char>)> {
        Seq::new(self.entries@.len(), |i: int| (self.entries@[i].0@, self.entries@[i].1@))
    }
}

/// The value lookup resolves for a parameter name: that of the last capture
/// under that exact name, if any.
pub open spec fn param_get_spec(ps: Seq<(Seq<char>, Seq<char>)>, name: Seq<char>) -> Option<
    Seq<char>,
>
    decreases ps.len(),
{
    if ps.len() == 0 {
        None
    } else if ps.last().0 == name {
        Some(ps.last().1)
    } else {
        param_get_spec(ps.drop_last(), name)
    }
}

impl RouteParams {
    pub fn new() -> (r: RouteParams)
        ensures
            r@ == Seq::<(Seq<char>, Seq<char>)>::empty(),
    {
        let r = RouteParams { entries: Vec::new() };
        proof {
            assert(r@ =~= Seq::<(Seq<char>, Seq<char>)>::empty());
        }
        r
    }

    fn push(&mut self, name: String, value: String)
        ensures
            final(self)@ == old(self)@.push((name@, value@)),
    {
        let ghost n0 = name@;
        let ghost v0 = value@;
        self.entries.push((name, value));
        proof {
            assert(final(self)@ =~= old(self)@.push((n0, v0)));
        }
    }

    /// Exact lookup of a captured parameter, the last capture winning.
    pub fn get(&self, name: &str) -> (r: Option<&str>)
        ensures
            match r {
                Some(v) => param_get_spec(self@, name@) == Some(v@),
                None => param_get_spec(self@, name@) is None,
            },
    {
        let mut i: usize = self.entries.len();
        proof {
            assert(self@.take(i as int) =~= self@);
        }
        while i > 0
            invariant
                i <= self.entries.len(),
                self@.len() == self.entries@.len(),
                param_get_spec(self@, name@) == param_get_spec(self@.take(i as int), name@),
            decreases i,
        {
            i -= 1;
            if str_eq(self.entries[i].0.as_str(), name) {
                proof {
                    assert(self@.take(i + 1).last() == self@[i as int]);
                }
                return Some(self.entries[i].1.as_str());
            }
            proof {
                assert(self@.take(i + 1).last() == self@[i as int]);
                assert(self@.take(i + 1).drop_last() =~= self@.take(i as int));
            }
        }
        None
    }
}

/// Segment-wise match of a pattern against a path: a `:name` segment
/// captures unconditionally, any other segment must be equal, and the
/// segment counts must agree.
pub open spec fn match_segs(pat: Seq<Seq<char>>, path: Seq<Seq<char>>) -> Option<
    Seq<(Seq<char>, Seq<char>)>,
>
    decreases pat.len(),
{
    if pat.len() != path.len() {
        None
    } else if pat.len() == 0 {
        Some(Seq::<(Seq<char>, Seq<char>)>::empty())
    } else {
        let p0 = pat[0];
        let q0 = path[0];
        if p0.len() > 0 && p0[0] == ':' {
            match match_segs(pat.drop_first(), path.drop_first()) {
                Some(rest) => Some(seq![(p0.drop_first(), q0)] + rest),
                None => None,
            }
        } else if p0 == q0 {
            match_segs(pat.drop_first(), path.drop_first())
        } else {
            None
        }
    }
}

/// Whether `pattern` matches `path` once both are split on `/`, and the
/// parameters captured if so.
pub open spec fn match_path_spec(pattern: Seq<char>, path: Seq<char>) -> Option<
    Seq<(Seq<char>, Seq<char>)>,
> {
    match_segs(split_char(pattern, '/'), split_char(path, '/'))
}

/// Matches a registered pattern against a request path in one left-to-right
/// pass, capturing `:name` segments.
#[verifier::loop_isolation(false)]
pub fn match_path(route_path: &str, request_path: &str) -> (r: Option<RouteParams>)
    ensures
        match r {
            Some(ps) => match_path_spec(route_path@, request_path@) == Some(ps@),
            None => match_path_spec(route_path@, request_path@) is None,
        },
{
    let pat = split_char_vec(route_path, '/');
    let pth = split_char_vec(request_path, '/');
    let ghost patv = split_char(route_path@, '/');
    let ghost pthv = split_char(request_path@, '/');
    let n = pat.len();
    if pth.len() != n {
        return None;
    }
    let mut params = RouteParams::new();
    let mut i: usize = 0;
    proof {
        assert(patv.skip(0) =~= patv);
        assert(pthv.skip(0) =~= pthv);
    }
    while i < n
        invariant
            i <= n,
            match match_segs(patv.skip(i as int), pthv.skip(i as int)) {
                Some(rest) => match_segs(patv, pthv) == Some(params@ + rest),
                None => match_segs(patv, pthv) is None,
            },
        decreases n - i,
    {
        proof {
            assert(pat@[i as int]@ == patv[i as int]);
            assert(pth@[i as int]@ == pthv[i as int]);
            assert(patv.skip(i as int)[0] == patv[i as int]);
            assert(pthv.skip(i as int)[0] == pthv[i as int]);
            assert(patv.skip(i as int).drop_first() =~= patv.skip(i + 1));
            assert(pthv.skip(i as int).drop_first() =~= pthv.skip(i + 1));
        }
        let plen = pat[i].unicode_len();
        if plen > 0 && pat[i].as_str().get_char(0) == ':' {
            let name = pat[i].as_str().substring_char(1, plen);
            let ghost ps0 = params@;
            params.push(String::from_str(name), pth[i].clone());
            proof {
                assert(name@ =~= patv[i as int].drop_first());
                match match_segs(patv.skip(i + 1), pthv.skip(i + 1)) {
                    Some(rest) => {
                        assert(ps0 + (seq![(name@, pthv[i as int])] + rest) =~= ps0.push(
                            (name@, pthv[i as int]),
                        ) + rest);
                    },
                    None => {},
                }
            }
        } else {
            if !str_eq(pat[i].as_str(), pth[i].as_str()) {
                return None;
            }
        }
        i += 1;
    }
    proof {
        assert(patv.skip(n as int) =~= Seq::<Seq<char>>::empty());
        assert(pthv.skip(n as int) =~= Seq::<Seq<char>>::empty());
        assert(params@ + Seq::<(Seq<char>, Seq<char>)>::empty() =~= params@);
    }
    Some(params)
}

/// What a handler asks of its caller: a finished outcome, or the file
/// operation only the surrounding process can perform.
pub enum HandlerStep {
    Done(RouteResponse),
    NeedRead { filename: String },
    NeedWrite { filename: String, content: Vec<u8> },
}

/// The abstract content of a handler step.
pub enum StepView {
    Done(OutcomeView),
    NeedRead { filename: Seq<char> },
    NeedWrite { filename: Seq<char>, content: Seq<u8> },
}

impl View for HandlerStep {
    type V = StepView;

    open spec fn view(&self) -> StepView {
        match self {
            HandlerStep::Done(o) => StepView::Done(o@),
            HandlerStep::NeedRead { filename } => StepView::NeedRead { filename: filename@ },
            HandlerStep::NeedWrite { filename, content } => StepView::NeedWrite {
                filename: filename@,
                content: content@,
            },
        }
    }
}

/// The built-in handler capabilities.
#[derive(Debug, Clone, Copy, PartialEq, Eq, Structural)]
pub enum HandlerKind {
    /// `GET /`: empty success.
    Root,
    /// `GET /user-agent`: reflects the `User-Agent` header.
    UserAgent,
    /// `GET /echo/:message`: echoes the captured segment, labelling the
    /// response `gzip` when the client accepts that encoding.
    Echo,
    /// `POST /files/:filename`: writes the request body to a file.
    PostFile,
    /// `GET /files/:filename`: serves a file's content.
    FileRead,
}

/// The `User-Agent` value a request reports, or `Unknown`.
pub open spec fn ua_value(req: RequestView) -> Seq<char> {
    match get_spec(req.headers, "User-Agent"@) {
        Some(v) => v,
        None => "Unknown"@,
    }
}

/// The `message` capture to echo; empty when absent.
pub open spec fn echo_message(ps: Seq<(Seq<char>, Seq<char>)>) -> Seq<char> {
    match param_get_spec(ps, "message"@) {
        Some(v) => v,
        None => Seq::<char>::empty(),
    }
}

/// The `filename` capture of a file route; empty when absent.
pub open spec fn file_param(ps: Seq<(Seq<char>, Seq<char>)>) -> Seq<char> {
    match param_get_spec(ps, "filename"@) {
        Some(v) => v,
        None => Seq::<char>::empty(),
    }
}

/// Whether the request's `Accept-Encoding` value mentions `gzip`
/// (a case-sensitive substring test).
pub open spec fn accepts_gzip(req: RequestView) -> bool {
    match get_spec(req.headers, "Accept-Encoding"@) {
        Some(v) => has_substring(v, "gzip"@),
        None => false,
    }
}

/// What each handler does with a request and its captures.
pub open spec fn handle_spec(
    k: HandlerKind,
    req: RequestView,
    ps: Seq<(Seq<char>, Seq<char>)>,
) -> StepView {
    match k {
        HandlerKind::Root => StepView::Done(OutcomeView::Success(Seq::<u8>::empty(), None)),
        HandlerKind::UserAgent => StepView::Done(
            OutcomeView::Success(encode_utf8(ua_value(req)), None),
        ),
        HandlerKind::Echo => StepView::Done(
            OutcomeView::Success(
                encode_utf8(echo_message(ps)),
                if accepts_gzip(req) {
                    Some("gzip"@)
                } else {
                    None
                },
            ),
        ),
        HandlerKind::PostFile => match req.body {
            Some(b) => StepView::NeedWrite { filename: file_param(ps), content: b },
            None => StepView::Done(OutcomeView::NotFound),
        },
        HandlerKind::FileRead => StepView::NeedRead { filename: file_param(ps) },
    }
}

/// A copy of a byte vector.
fn clone_bytes(v: &Vec<u8>) -> (r: Vec<u8>)
    ensures
        r@ == v@,
{
    let mut r: Vec<u8> = Vec::new();
    let mut i: usize = 0;
    while i < v.len()
        invariant
            i <= v@.len(),
            r@ =~= v@.take(i as int),
        decreases v@.len() - i,
    {
        r.push(v[i]);
        i += 1;
        proof {
            assert(r@ =~= v@.take(i as int));
        }
    }
    proof {
        assert(v@.take(v@.len() as int) =~= v@);
    }
    r
}

/// The capability a route binding carries: consume a request and its
/// captured parameters, produce the next step.
pub trait Handler {
    fn handle(&self, request: &HttpRequest, params: &RouteParams) -> HandlerStep;
}

impl Handler for HandlerKind {
    fn handle(&self, request: &HttpRequest, params: &RouteParams) -> HandlerStep {
        self.run(request, params)
    }
}

impl HandlerKind {
    /// Runs this handler on a request and its captures.
    pub fn run(&self, request: &HttpRequest, params: &RouteParams) -> (r: HandlerStep)
        ensures
            r@ == handle_spec(*self, request@, params@),
    {
        match self {
            HandlerKind::Root => HandlerStep::Done(RouteResponse::Success(Vec::new(), None)),
            HandlerKind::UserAgent => {
                let body = match request.headers.get("User-Agent") {
                    Some(v) => v.as_bytes_vec(),
                    None => "Unknown".as_bytes_vec(),
                };
                HandlerStep::Done(RouteResponse::Success(body, None))
            },
            HandlerKind::Echo => {
                let body = match params.get("message") {
                    Some(v) => v.as_bytes_vec(),
                    None => {
                        let b: Vec<u8> = Vec::new();
                        proof {
                            assert(encode_utf8(Seq::<char>::empty()) =~= Seq::<u8>::empty());
                        }
                        b
                    },
                };
                let accepts = match request.headers.get("Accept-Encoding") {
                    Some(v) => contains_str(v, "gzip"),
                    None => false,
                };
                if accepts {
                    HandlerStep::Done(
                        RouteResponse::Success(body, Some(String::from_str("gzip"))),
                    )
                } else {
                    HandlerStep::Done(RouteResponse::Success(body, None))
                }
            },
            HandlerKind::PostFile => {
                let filename = match params.get("filename") {
                    Some(v) => String::from_str(v),
                    None => String::new(),
                };
                match &request.body {
                    Some(content) => HandlerStep::NeedWrite {
                        filename,
                        content: clone_bytes(content),
                    },
                    None => HandlerStep::Done(RouteResponse::NotFound),
                }
            },
            HandlerKind::FileRead => {
                let filename = match params.get("filename") {
                    Some(v) => String::from_str(v),
                    None => String::new(),
                };
                HandlerStep::NeedRead { filename }
            },
        }
    }
}

/// The action the router decides for a request.
pub enum RouteAction {
    /// A finished response, ready to serialize.
    Respond(HttpResponse),
    /// The matched handler needs this file read; feed the result to
    /// `file_read_outcome` and `respond`.
    ReadFile { filename: String },
    /// The matched handler needs this content written to this file; feed
    /// the result to `file_write_outcome` and `respond`.
    WriteFile { filename: String, content: Vec<u8> },
}

/// The abstract content of a routing decision.
pub enum ActionView {
    Respond(ResponseView),
    ReadFile { filename: Seq<char> },
    WriteFile { filename: Seq<char>, content: Seq<u8> },
}

impl View for RouteAction {
    type V = ActionView;

    open spec fn view(&self) -> ActionView {
        match self {
            RouteAction::Respond(resp) => ActionView::Respond(resp@),
            RouteAction::ReadFile { filename } => ActionView::ReadFile { filename: filename@ },
            RouteAction::WriteFile { filename, content } => ActionView::WriteFile {
                filename: filename@,
                content: content@,
            },
        }
    }
}

/// The action a handler step leads to.
pub open spec fn step_action(step: StepView) -> ActionView {
    match step {
        StepView::Done(o) => ActionView::Respond(respond_spec(o)),
        StepView::NeedRead { filename } => ActionView::ReadFile { filename },
        StepView::NeedWrite { filename, content } => ActionView::WriteFile { filename, content },
    }
}

/// First-match-wins routing over a binding list: the first binding whose
/// method and pattern both match decides; with none, a 404 response.
pub open spec fn route_spec(
    routes: Seq<(Method, Seq<char>, HandlerKind)>,
    req: RequestView,
) -> ActionView
    decreases routes.len(),
{
    if routes.len() == 0 {
        ActionView::Respond(respond_spec(OutcomeView::NotFound))
    } else {
        let b = routes[0];
        if b.0 == req.method && match_path_spec(b.1, req.path) is Some {
            step_action(handle_spec(b.2, req, match_path_spec(b.1, req.path)->Some_0))
        } else {
            route_spec(routes.drop_first(), req)
        }
    }
}

/// The ordered route table.
pub struct Router {
    routes: Vec<(Method, String, HandlerKind)>,
}

impl View for Router {
    type V = Seq<(Method, Seq<char>, HandlerKind)>;

    closed spec fn view(&self) -> Seq<(Method, Seq<char>, HandlerKind)> {
        Seq::new(
            self.routes@.len(),
            |i: int| (self.routes@[i].0, self.routes@[i].1@, self.routes@[i].2),
        )
    }
}

impl Router {
    pub fn new() -> (r: Router)
        ensures
            r@ == Seq::<(Method, Seq<char>, HandlerKind)>::empty(),
    {
        let r = Router { routes: Vec::new() };
        proof {
            assert(r@ =~= Seq::<(Method, Seq<char>, HandlerKind)>::empty());
        }
        r
    }

    /// Appends a binding; overlapping patterns are allowed and resolved
    /// first-registered-wins at match time.
    pub fn add_route(&mut self, method: Method, path: &str, handler: HandlerKind)
        ensures
            final(self)@ == old(self)@.push((method, path@, handler)),
    {
        let ghost pv = path@;
        self.routes.push((method, String::from_str(path), handler));
        proof {
            assert(final(self)@ =~= old(self)@.push((method, pv, handler)));
        }
    }

    /// Scans bindings in registration order; the first whose method and
    /// pattern match decides the action, else a 404 response.
    #[verifier::loop_isolation(false)]
    pub fn route(&self, request: &HttpRequest) -> (r: RouteAction)
        ensures
            r@ == route_spec(self@, request@),
    {
        let n = self.routes.len();
        let mut i: usize = 0;
        proof {
            assert(self@.skip(0) =~= self@);
        }
        while i < n
            invariant
                i <= n,
                route_spec(self@, request@) == route_spec(self@.skip(i as int), request@),
            decreases n - i,
        {
            proof {
                assert(self@.skip(i as int)[0] == self@[i as int]);
                assert(self@.skip(i as int).drop_first() =~= self@.skip(i + 1));
            }
            let binding = &self.routes[i];
            if binding.0 == request.method {
                match match_path(binding.1.as_str(), request.path.as_str()) {
                    Some(params) => {
                        let step = binding.2.run(request, &params);
                        return match step {
                            HandlerStep::Done(o) => RouteAction::Respond(respond(o)),
                            HandlerStep::NeedRead { filename } => RouteAction::ReadFile {
                                filename,
                            },
                            HandlerStep::NeedWrite { filename, content } => {
                                RouteAction::WriteFile { filename, content }
                            },
                        };
                    },
                    None => {},
                }
            }
            i += 1;
        }
        proof {
            assert(self@.skip(n as int) =~= Seq::<(Method, Seq<char>, HandlerKind)>::empty());
        }
        RouteAction::Respond(respond(RouteResponse::NotFound))
    }
}

/// The outcome a file read leads to: served content, or not-found when the
/// file was missing or unreadable.
pub fn file_read_outcome(content: Option<Vec<u8>>) -> (r: RouteResponse)
    ensures
        r@ == match content {
            Some(b) => OutcomeView::FileContent(b@),
            None => OutcomeView::NotFound,
        },
{
    match content {
        Some(b) => RouteResponse::FileContent(b),
        None => RouteResponse::NotFound,
    }
}

/// The outcome a file write leads to: created on success, else not-found.
pub fn file_write_outcome(ok: bool) -> (r: RouteResponse)
    ensures
        r@ == if ok {
            OutcomeView::Created
        } else {
            OutcomeView::NotFound
        },
{
    if ok {
        RouteResponse::Created
    } else {
        RouteResponse::NotFound
    }
}

/// First match wins: when binding `i` matches a request and no earlier
/// binding does, routing acts on binding `i`'s handler and no other.
pub proof fn lemma_first_match_wins(
    routes: Seq<(Method, Seq<char>, HandlerKind)>,
    req: RequestView,
    i: int,
)
    requires
        0 <= i < routes.len(),
        routes[i].0 == req.method,
        match_path_spec(routes[i].1, req.path) is Some,
        forall|j: int|
            0 <= j < i ==> !(routes[j].0 == req.method && (#[trigger] match_path_spec(
                routes[j].1,
                req.path,
            )) is Some),
    ensures
        route_spec(routes, req) == step_action(
            handle_spec(routes[i].2, req, match_path_spec(routes[i].1, req.path)->Some_0),
        ),
    decreases i,
{
    if i == 0 {
    } else {
        let t = routes.drop_first();
        assert(forall|j: int| 0 <= j < routes.len() - 1 ==> t[j] == routes[j + 1]);
        lemma_first_match_wins(t, req, i - 1);
    }
}

/// The server's route table: root, user-agent echo, path echo, file write,
/// file read — registered in that order.
pub fn create_router() -> (r: Router)
    ensures
        r@ == seq![
            (Method::Get, "/"@, HandlerKind::Root),
            (Method::Get, "/user-agent"@, HandlerKind::UserAgent),
            (Method::Get, "/echo/:message"@, HandlerKind::Echo),
            (Method::Post, "/files/:filename"@, HandlerKind::PostFile),
            (Method::Get, "/files/:filename"@, HandlerKind::FileRead),
        ],
{
    let mut router = Router::new();
    router.add_route(Method::Get, "/", HandlerKind::Root);
    router.add_route(Method::Get, "/user-agent", HandlerKind::UserAgent);
    router.add_route(Method::Get, "/echo/:message", HandlerKind::Echo);
    router.add_route(Method::Post, "/files/:filename", HandlerKind::PostFile);
    router.add_route(Method::Get, "/files/:filename", HandlerKind::FileRead);
    proof {
        assert(router@ =~= seq![
            (Method::Get, "/"@, HandlerKind::Root),
            (Method::Get, "/user-agent"@, HandlerKind::UserAgent),
            (Method::Get, "/echo/:message"@, HandlerKind::Echo),
            (Method::Post, "/files/:filename"@, HandlerKind::PostFile),
            (Method::Get, "/files/:filename"@, HandlerKind::FileRead),
        ]);
    }
    router
}

} // verus!
