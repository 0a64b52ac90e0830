//! The route table: which requests a server answers, in which order they
//! are tried, and what is done with each.
//!
//! A route binds a method and a path pattern to a handler. A pattern is a
//! list of segments, each a fixed text or a capture that stands for any one
//! segment. The first route of the table that fits a request decides.

use crate::message::RequestType;
use crate::text::{ascii, literal, rows, same};
use vstd::prelude::*;

verus! {

/// One segment of a path pattern.
#[derive(Clone, Debug, PartialEq, Eq)]
pub enum Segment {
    /// Fits the segment with exactly these bytes.
    Literal(Vec<u8>),
    /// Fits any segment, and hands it to the handler.
    Capture,
}

/// What is done for a request that a route fits.
#[derive(Clone, Copy, Debug, PartialEq, Eq, Structural)]
pub enum Handler {
    /// Answer with an empty body.
    Empty,
    /// Answer with the `User-Agent` header of the request.
    UserAgent,
    /// Answer with the captured segment.
    Echo,
    /// Answer with the file that the captured segment names.
    ReadFile,
    /// Append the body of the request to the file that the captured segment
    /// names.
    AppendFile,
}

/// A binding of method and path pattern to a handler.
#[derive(Clone, Debug, PartialEq, Eq)]
pub struct Route {
    pub method: RequestType,
    pub pattern: Vec<Segment>,
    pub handler: Handler,
}

/// The routes of a server, in the order in which they are tried.
#[derive(Clone, Debug, PartialEq, Eq)]
pub struct RouteTable {
    pub routes: Vec<Route>,
}

/// The mathematical value of a `Segment`.
pub enum SegmentView {
    Literal(Seq<u8>),
    Capture,
}

/// The mathematical value of a `Route`.
pub struct RouteView {
    pub method: RequestType,
    pub pattern: Seq<SegmentView>,
    pub handler: Handler,
}

impl View for Segment {
    type V = SegmentView;

    open spec fn view(&self) -> SegmentView {
        match self {
            Segment::Literal(text) => SegmentView::Literal(text@),
            Segment::Capture => SegmentView::Capture,
        }
    }
}

/// The values of the segments of a pattern.
pub open spec fn pattern_view(pattern: Seq<Segment>) -> Seq<SegmentView> {
    Seq::new(pattern.len(), |i: int| pattern[i]@)
}

impl View for Route {
    type V = RouteView;

    open spec fn view(&self) -> RouteView {
        RouteView {
            method: self.method,
            pattern: pattern_view(self.pattern@),
            handler: self.handler,
        }
    }
}

impl View for RouteTable {
    type V = Seq<RouteView>;

    open spec fn view(&self) -> Seq<RouteView> {
        Seq::new(self.routes@.len(), |i: int| self.routes@[i]@)
    }
}

/// The segment fits the pattern segment.
pub open spec fn segment_fits(pattern: SegmentView, segment: Seq<u8>) -> bool {
    match pattern {
        SegmentView::Literal(text) => segment == text,
        SegmentView::Capture => true,
    }
}

/// The path fits the pattern: segment by segment, and with no segment left
/// over on either side.
pub open spec fn pattern_fits(pattern: Seq<SegmentView>, path: Seq<Seq<u8>>) -> bool {
    &&& pattern.len() == path.len()
    &&& forall|i: int| 0 <= i < pattern.len() ==> segment_fits(#[trigger] pattern[i], path[i])
}

/// The segment of the path that the capture of the pattern stands for: of
/// several captures the last. Empty where the pattern has no capture.
pub open spec fn captured(pattern: Seq<SegmentView>, path: Seq<Seq<u8>>) -> Seq<u8>
    decreases pattern.len(),
{
    if pattern.len() == 0 || pattern.len() > path.len() {
        Seq::empty()
    } else if pattern.last() is Capture {
        path[pattern.len() - 1]
    } else {
        captured(pattern.drop_last(), path)
    }
}

/// The route fits a request with this method and path.
pub open spec fn route_fits(route: RouteView, method: RequestType, path: Seq<Seq<u8>>) -> bool {
    route.method == method && pattern_fits(route.pattern, path)
}

/// The index of the first route at or after `from` that fits, or the length
/// of the table where none does.
pub open spec fn first_route(
    table: Seq<RouteView>,
    method: RequestType,
    path: Seq<Seq<u8>>,
    from: int,
) -> int
    decreases table.len() - from,
{
    if from < 0 || from >= table.len() {
        table.len() as int
    } else if route_fits(table[from], method, path) {
        from
    } else {
        first_route(table, method, path, from + 1)
    }
}

/// The handler of the first route of the table that fits, with what its
/// pattern captures; nothing where no route fits.
pub open spec fn lookup(table: Seq<RouteView>, method: RequestType, path: Seq<Seq<u8>>) -> Option<
    (Handler, Seq<u8>),
> {
    let i = first_route(table, method, path, 0);
    if 0 <= i < table.len() {
        Some((table[i].handler, captured(table[i].pattern, path)))
    } else {
        None
    }
}

/// The table of this server: `GET` of the empty path and of `index.html`,
/// of `user-agent`, of `echo/*` and of `files/*`, and `POST` of `files/*`.
pub open spec fn standard_table() -> Seq<RouteView> {
    seq![
        RouteView { method: RequestType::GET, pattern: seq![], handler: Handler::Empty },
        RouteView {
            method: RequestType::GET,
            pattern: seq![SegmentView::Literal(ascii("index.html"@))],
            handler: Handler::Empty,
        },
        RouteView {
            method: RequestType::GET,
            pattern: seq![SegmentView::Literal(ascii("user-agent"@))],
            handler: Handler::UserAgent,
        },
        RouteView {
            method: RequestType::GET,
            pattern: seq![SegmentView::Literal(ascii("echo"@)), SegmentView::Capture],
            handler: Handler::Echo,
        },
        RouteView {
            method: RequestType::GET,
            pattern: seq![SegmentView::Literal(ascii("files"@)), SegmentView::Capture],
            handler: Handler::ReadFile,
        },
        RouteView {
            method: RequestType::POST,
            pattern: seq![SegmentView::Literal(ascii("files"@)), SegmentView::Capture],
            handler: Handler::AppendFile,
        },
    ]
}

/// An index that fits, or the length, with no fitting route before it is
/// the first route.
pub proof fn lemma_first_route_is(
    table: Seq<RouteView>,
    method: RequestType,
    path: Seq<Seq<u8>>,
    from: int,
    k: int,
)
    requires
        0 <= from <= k <= table.len(),
        k < table.len() ==> route_fits(table[k], method, path),
        forall|j: int| from <= j < k ==> !route_fits(#[trigger] table[j], method, path),
    ensures
        first_route(table, method, path, from) == k,
    decreases k - from,
{
    if from < k {
        lemma_first_route_is(table, method, path, from + 1, k);
    }
}

/// Whether the path fits the pattern, and what the pattern captures.
pub fn match_pattern(pattern: &Vec<Segment>, path: &Vec<Vec<u8>>) -> (r: Option<Vec<u8>>)
    ensures
        r is Some <==> pattern_fits(pattern_view(pattern@), rows(path@)),
        r is Some ==> r->0@ == captured(pattern_view(pattern@), rows(path@)),
{
    if pattern.len() != path.len() {
        return None;
    }
    let ghost wanted = pattern_view(pattern@);
    let mut capture: Vec<u8> = Vec::new();
    let mut i: usize = 0;
    assert(wanted.take(0) =~= Seq::<SegmentView>::empty());
    while i < pattern.len()
        invariant
            i <= pattern.len(),
            pattern.len() == path.len(),
            wanted == pattern_view(pattern@),
            forall|j: int| 0 <= j < i ==> segment_fits(#[trigger] wanted[j], rows(path@)[j]),
            capture@ == captured(wanted.take(i as int), rows(path@)),
        decreases pattern.len() - i,
    {
        proof {
            assert(wanted.take(i + 1).drop_last() =~= wanted.take(i as int));
            assert(wanted.take(i + 1).last() == pattern@[i as int]@);
        }
        match &pattern[i] {
            Segment::Literal(text) => {
                if !same(path[i].as_slice(), text.as_slice()) {
                    assert(!segment_fits(wanted[i as int], rows(path@)[i as int]));
                    return None;
                }
            },
            Segment::Capture => {
                capture = path[i].clone();
            },
        }
        i += 1;
    }
    assert(wanted.take(i as int) =~= wanted);
    Some(capture)
}

impl RouteTable {
    /// The table of this server.
    pub fn standard() -> (table: RouteTable)
        ensures
            table@ == standard_table(),
    {
        proof {
            reveal_strlit("index.html");
            reveal_strlit("user-agent");
            reveal_strlit("echo");
            reveal_strlit("files");
        }
        let root = Route { method: RequestType::GET, pattern: Vec::new(), handler: Handler::Empty };
        let index = Route {
            method: RequestType::GET,
            pattern: vec![Segment::Literal(literal("index.html"))],
            handler: Handler::Empty,
        };
        let agent = Route {
            method: RequestType::GET,
            pattern: vec![Segment::Literal(literal("user-agent"))],
            handler: Handler::UserAgent,
        };
        let echo = Route {
            method: RequestType::GET,
            pattern: vec![Segment::Literal(literal("echo")), Segment::Capture],
            handler: Handler::Echo,
        };
        let read = Route {
            method: RequestType::GET,
            pattern: vec![Segment::Literal(literal("files")), Segment::Capture],
            handler: Handler::ReadFile,
        };
        let write = Route {
            method: RequestType::POST,
            pattern: vec![Segment::Literal(literal("files")), Segment::Capture],
            handler: Handler::AppendFile,
        };
        proof {
            assert(root@.pattern =~= seq![]);
            assert(index@.pattern =~= seq![SegmentView::Literal(ascii("index.html"@))]);
            assert(agent@.pattern =~= seq![SegmentView::Literal(ascii("user-agent"@))]);
            assert(echo@.pattern =~= seq![
                SegmentView::Literal(ascii("echo"@)),
                SegmentView::Capture,
            ]);
            assert(read@.pattern =~= seq![
                SegmentView::Literal(ascii("files"@)),
                SegmentView::Capture,
            ]);
            assert(write@.pattern =~= seq![
                SegmentView::Literal(ascii("files"@)),
                SegmentView::Capture,
            ]);
        }
        let table = RouteTable { routes: vec![root, index, agent, echo, read, write] };
        assert(table@ =~= standard_table());
        table
    }

    /// Looks up the first route that fits a request with this method and
    /// these path segments.
    pub fn find(&self, method: RequestType, path: &Vec<Vec<u8>>) -> (r: Option<(Handler, Vec<u8>)>)
        ensures
            match r {
                Some(found) => lookup(self@, method, rows(path@)) == Some((found.0, found.1@)),
                None => lookup(self@, method, rows(path@)) is None,
            },
    {
        let mut i: usize = 0;
        while i < self.routes.len()
            invariant
                i <= self.routes.len(),
                forall|j: int| 0 <= j < i ==> !route_fits(#[trigger] self@[j], method, rows(path@)),
            decreases self.routes.len() - i,
        {
            let route = &self.routes[i];
            assert(self@[i as int] == route@);
            if route.method == method {
                match match_pattern(&route.pattern, path) {
                    Some(capture) => {
                        proof {
                            lemma_first_route_is(self@, method, rows(path@), 0, i as int);
                        }
                        return Some((route.handler, capture));
                    },
                    None => {},
                }
            }
            i += 1;
        }
        proof {
            lemma_first_route_is(self@, method, rows(path@), 0, i as int);
        }
        None
    }
}

} // verus!
