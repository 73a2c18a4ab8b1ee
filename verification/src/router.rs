//! The routing table: which handler answers which method and path.
//!
//! A route is registered under a method and a path pattern. A pattern is cut
//! at `/` into segments: `:name` binds whatever stands at its place to
//! `name`, a bare `*` accepts the rest of the path, however long or short,
//! and anything else must be met letter for letter. A request is answered by the first route, in order
//! of registration, whose pattern accepts its path and whose method is the
//! request's or `*`.

use crate::text::{
    chars_of, cut, find_char, first_index, pieces, skip_char, split_ranges, str_eq, strip_leading,
    substrings, texts,
};
use std::sync::Arc;
use vstd::hash_map::StringHashMap;
use vstd::prelude::*;
use vstd::string::*;

verus! {

/// One segment of a compiled path pattern.
pub enum Segment {
    /// Met only by the same text.
    Static(String),
    /// Met by any text, which it binds to the name.
    Parameter(String),
    /// Met by whatever is left of the path, also by nothing.
    Wildcard,
}

/// What a `Segment` stands for.
pub enum SegmentView {
    Static(Seq<char>),
    Parameter(Seq<char>),
    Wildcard,
}

impl View for Segment {
    type V = SegmentView;

    open spec fn view(&self) -> SegmentView {
        match self {
            Segment::Static(text) => SegmentView::Static(text@),
            Segment::Parameter(name) => SegmentView::Parameter(name@),
            Segment::Wildcard => SegmentView::Wildcard,
        }
    }
}

impl Clone for Segment {
    fn clone(&self) -> (copy: Self)
        ensures
            copy@ == self@,
    {
        match self {
            Segment::Static(text) => Segment::Static(text.clone()),
            Segment::Parameter(name) => Segment::Parameter(name.clone()),
            Segment::Wildcard => Segment::Wildcard,
        }
    }
}

/// What each segment of a list stands for.
pub open spec fn segment_views(list: Seq<Segment>) -> Seq<SegmentView> {
    Seq::new(list.len(), |k: int| list[k]@)
}

/// The segment that one piece of a pattern compiles to.
pub open spec fn classify(piece: Seq<char>) -> SegmentView {
    if piece.len() > 0 && piece[0] == ':' {
        SegmentView::Parameter(piece.skip(1))
    } else if piece == seq!['*'] {
        SegmentView::Wildcard
    } else {
        SegmentView::Static(piece)
    }
}

/// The segments that a path pattern compiles to.
pub open spec fn compile(pattern: Seq<char>) -> Seq<SegmentView> {
    let parts = pieces(pattern, '/');
    Seq::new(parts.len(), |k: int| classify(parts[k]))
}

/// Matching from position `at` on, with `found` bound so far: the bindings
/// if the pattern accepts the path, `None` if it does not.
pub open spec fn bind_from(
    pattern: Seq<SegmentView>,
    path: Seq<Seq<char>>,
    at: int,
    found: Map<Seq<char>, Seq<char>>,
) -> Option<Map<Seq<char>, Seq<char>>>
    decreases pattern.len() - at,
{
    if at < 0 || at >= pattern.len() || at >= path.len() {
        if pattern.len() == path.len() || (0 <= at < pattern.len() && pattern[at] is Wildcard) {
            Some(found)
        } else {
            None
        }
    } else {
        match pattern[at] {
            SegmentView::Wildcard => Some(found),
            SegmentView::Static(text) => if text == path[at] {
                bind_from(pattern, path, at + 1, found)
            } else {
                None
            },
            SegmentView::Parameter(name) => bind_from(
                pattern,
                path,
                at + 1,
                found.insert(name, path[at]),
            ),
        }
    }
}

/// The parameters that `pattern` binds on `path`, or `None` if the pattern
/// does not accept the path.
///
/// Segments are compared pairwise from the left. A wildcard reached this
/// way accepts whatever is left of the path, be it nothing, one segment
/// or many, and what stands behind the wildcard in the pattern is not
/// looked at: `/files/*` accepts `/files`, `/files/a` and `/files/a/b`,
/// and so does `/files/*/x`. Without a wildcard, pattern and path must
/// have the same number of segments.
pub open spec fn bind(pattern: Seq<SegmentView>, path: Seq<Seq<char>>) -> Option<
    Map<Seq<char>, Seq<char>>,
> {
    bind_from(pattern, path, 0, Map::empty())
}

/// The part of a URL before its first `?`.
pub open spec fn url_path(url: Seq<char>) -> Seq<char> {
    url.take(first_index(url, '?'))
}

/// The part of a URL from its first `?` on.
pub open spec fn url_query(url: Seq<char>) -> Seq<char> {
    url.skip(first_index(url, '?'))
}

/// Key and value of one `key=value` piece of a query string. The value is
/// what stands between the first and the second `=`, and empty without a `=`.
pub open spec fn query_pair(piece: Seq<char>) -> (Seq<char>, Seq<char>) {
    let eq = first_index(piece, '=');
    if 0 <= eq < piece.len() {
        let rest = piece.skip(eq + 1);
        (piece.take(eq), rest.take(first_index(rest, '=')))
    } else {
        (piece, Seq::empty())
    }
}

/// The map that a list of query pieces makes: a later piece overrides an
/// earlier one with the same key.
pub open spec fn query_map(parts: Seq<Seq<char>>) -> Map<Seq<char>, Seq<char>>
    decreases parts.len(),
{
    if parts.len() == 0 {
        Map::empty()
    } else {
        let pair = query_pair(parts.last());
        query_map(parts.drop_last()).insert(pair.0, pair.1)
    }
}

/// The query parameters of a URL.
pub open spec fn url_parameters(url: Seq<char>) -> Map<Seq<char>, Seq<char>> {
    query_map(pieces(strip_leading(url_query(url), '?'), '&'))
}

/// A parameter map as texts.
pub open spec fn text_map(m: Map<Seq<char>, String>) -> Map<Seq<char>, Seq<char>> {
    Map::new(|k: Seq<char>| m.contains_key(k), |k: Seq<char>| m[k]@)
}

/// A pattern without a wildcard accepts only paths of its own length.
pub proof fn lemma_bind_needs_length(
    pattern: Seq<SegmentView>,
    path: Seq<Seq<char>>,
    at: int,
    found: Map<Seq<char>, Seq<char>>,
)
    requires
        0 <= at,
        pattern.len() != path.len(),
        forall|k: int| at <= k < pattern.len() ==> !(pattern[k] is Wildcard),
    ensures
        bind_from(pattern, path, at, found) is None,
    decreases pattern.len() - at,
{
    if at < pattern.len() && at < path.len() {
        match pattern[at] {
            SegmentView::Wildcard => {},
            SegmentView::Static(text) => {
                lemma_bind_needs_length(pattern, path, at + 1, found);
            },
            SegmentView::Parameter(name) => {
                lemma_bind_needs_length(pattern, path, at + 1, found.insert(name, path[at]));
            },
        }
    }
}

/// Compiles a path pattern into its segments.
pub fn compile_pattern(pattern: &str) -> (segments: Vec<Segment>)
    ensures
        segment_views(segments@) == compile(pattern@),
{
    let chars = chars_of(pattern);
    let ranges = split_ranges(chars.as_slice(), 0, chars.len(), '/');
    assert(chars@.subrange(0, chars@.len() as int) == pattern@);
    let ghost parts = pieces(pattern@, '/');
    let mut segments: Vec<Segment> = Vec::new();
    let mut k: usize = 0;
    while k < ranges.len()
        invariant
            k <= ranges@.len(),
            chars@ == pattern@,
            parts == cut(chars@, ranges@),
            segments@.len() == k,
            forall|j: int|
                0 <= j < ranges@.len() ==> 0 <= (#[trigger] ranges@[j]).0 < ranges@[j].1
                    <= chars@.len(),
            forall|j: int| 0 <= j < k ==> (#[trigger] segments@[j])@ == classify(parts[j]),
        decreases ranges@.len() - k,
    {
        let (from, to) = ranges[k];
        let ghost piece = chars@.subrange(from as int, to as int);
        assert(parts[k as int] == piece);
        let segment = if chars[from] == ':' {
            let name = pattern.substring_char(from + 1, to);
            assert(name@ == piece.skip(1));
            Segment::Parameter(name.to_owned())
        } else if to - from == 1 && chars[from] == '*' {
            assert(piece == seq!['*']);
            Segment::Wildcard
        } else {
            Segment::Static(pattern.substring_char(from, to).to_owned())
        };
        assert(piece[0] == chars@[from as int]);
        segments.push(segment);
        k += 1;
    }
    assert(segment_views(segments@) =~= compile(pattern@));
    segments
}

/// Whether a pattern holds a wildcard.
fn has_wildcard(pattern: &Vec<Segment>) -> (found: bool)
    ensures
        found == exists|k: int| 0 <= k < pattern@.len() && pattern@[k] is Wildcard,
{
    let mut k: usize = 0;
    while k < pattern.len()
        invariant
            k <= pattern@.len(),
            forall|j: int| 0 <= j < k ==> !(pattern@[j] is Wildcard),
        decreases pattern@.len() - k,
    {
        if let Segment::Wildcard = &pattern[k] {
            return true;
        }
        k += 1;
    }
    false
}

/// Matches a path, cut into segments, against a compiled pattern, and
/// gives the parameters that the pattern binds.
fn bind_segments(pattern: &Vec<Segment>, segments: &Vec<&str>) -> (bound: Option<
    StringHashMap<String>,
>)
    ensures
        match bound {
            Some(parameters) => bind(segment_views(pattern@), texts(segments@)) == Some(
                text_map(parameters@),
            ),
            None => bind(segment_views(pattern@), texts(segments@)) is None,
        },
{
    let ghost want = segment_views(pattern@);
    let ghost have = texts(segments@);
    if pattern.len() != segments.len() && !has_wildcard(pattern) {
        proof {
            lemma_bind_needs_length(want, have, 0, Map::empty());
        }
        return None;
    }
    let mut parameters: StringHashMap<String> = StringHashMap::new();
    assert(text_map(parameters@) =~= Map::<Seq<char>, Seq<char>>::empty());
    let mut at: usize = 0;
    while at < pattern.len()
        invariant
            at <= pattern@.len(),
            at <= segments@.len(),
            want == segment_views(pattern@),
            have == texts(segments@),
            bind(want, have) == bind_from(want, have, at as int, text_map(parameters@)),
        decreases pattern@.len() - at,
    {
        assert(want[at as int] == pattern@[at as int]@);
        match &pattern[at] {
            Segment::Wildcard => {
                return Some(parameters);
            },
            Segment::Static(text) => {
                if at >= segments.len() {
                    return None;
                }
                let segment: &str = segments[at];
                assert(have[at as int] == segment@);
                if !str_eq(text.as_str(), segment) {
                    return None;
                }
            },
            Segment::Parameter(name) => {
                if at >= segments.len() {
                    return None;
                }
                let segment: &str = segments[at];
                assert(have[at as int] == segment@);
                let ghost before = text_map(parameters@);
                let value = segment.to_owned();
                parameters.insert(name.clone(), value);
                assert(text_map(parameters@) =~= before.insert(name@, segment@));
            },
        }
        at += 1;
    }
    if pattern.len() == segments.len() {
        Some(parameters)
    } else {
        None
    }
}

/// Reads the query parameters out of the part of a URL that starts at
/// `from`, its first `?` or its end.
fn parse_query(url: &str, chars: &[char], from: usize) -> (parameters: StringHashMap<String>)
    requires
        chars@ == url@,
        from <= chars@.len(),
    ensures
        text_map(parameters@) == query_map(
            pieces(strip_leading(url@.skip(from as int), '?'), '&'),
        ),
{
    let end = chars.len();
    assert(chars@.subrange(from as int, end as int) == url@.skip(from as int));
    let start = skip_char(chars, from, end, '?');
    let ranges = split_ranges(chars, start, end, '&');
    let ghost parts = cut(chars@, ranges@);
    let mut parameters: StringHashMap<String> = StringHashMap::new();
    assert(text_map(parameters@) =~= Map::<Seq<char>, Seq<char>>::empty());
    assert(parts.take(0) =~= Seq::<Seq<char>>::empty());
    let mut k: usize = 0;
    while k < ranges.len()
        invariant
            k <= ranges@.len(),
            chars@ == url@,
            end == chars@.len(),
            parts == cut(chars@, ranges@),
            forall|j: int|
                0 <= j < ranges@.len() ==> (#[trigger] ranges@[j]).0 < ranges@[j].1 <= end,
            text_map(parameters@) == query_map(parts.take(k as int)),
        decreases ranges@.len() - k,
    {
        let (a, b) = ranges[k];
        let ghost piece = chars@.subrange(a as int, b as int);
        let ghost before = text_map(parameters@);
        let eq = find_char(chars, a, b, '=');
        let key = url.substring_char(a, eq);
        assert(key@ == piece.take(eq - a));
        if eq < b {
            let close = find_char(chars, eq + 1, b, '=');
            let value = url.substring_char(eq + 1, close);
            proof {
                let rest = piece.skip(eq - a + 1);
                assert(rest == chars@.subrange(eq + 1, b as int));
                assert(value@ == rest.take(close - (eq + 1)));
            }
            parameters.insert(key.to_owned(), value.to_owned());
            assert(text_map(parameters@) =~= before.insert(key@, value@));
        } else {
            assert(key@ == piece);
            parameters.insert(key.to_owned(), String::new());
            assert(text_map(parameters@) =~= before.insert(key@, Seq::<char>::empty()));
        }
        proof {
            let upto = parts.take(k + 1);
            assert(upto.last() == piece);
            assert(upto.drop_last() == parts.take(k as int));
        }
        k += 1;
    }
    assert(parts.take(k as int) == parts);
    parameters
}

/// The query parameters of a URL: what follows its first `?`, cut at `&`
/// into `key=value` pieces.
pub fn query_parameters(url: &str) -> (parameters: StringHashMap<String>)
    ensures
        text_map(parameters@) == url_parameters(url@),
{
    let chars = chars_of(url);
    let from = find_char(chars.as_slice(), 0, chars.len(), '?');
    assert(chars@.subrange(0, chars@.len() as int) == url@);
    parse_query(url, chars.as_slice(), from)
}

/// A registered route.
pub struct RouteNode<H> {
    method: String,
    path: String,
    segments: Vec<Segment>,
    handler: Arc<H>,
}

/// What a route is: the method and pattern it was registered under, and
/// its handler.
pub struct RouteView<H> {
    pub method: Seq<char>,
    pub path: Seq<char>,
    pub handler: H,
}

impl<H> RouteNode<H> {
    #[verifier::type_invariant]
    spec fn compiled(self) -> bool {
        segment_views(self.segments@) == compile(self.path@)
    }

    pub closed spec fn view(&self) -> RouteView<H> {
        RouteView { method: self.method@, path: self.path@, handler: *self.handler }
    }

    /// A route for `method` and the pattern `path`.
    pub fn new(method: &str, path: &str, handler: H) -> (node: Self)
        ensures
            node@ == (RouteView { method: method@, path: path@, handler }),
    {
        RouteNode {
            method: method.to_owned(),
            path: path.to_owned(),
            segments: compile_pattern(path),
            handler: Arc::new(handler),
        }
    }

    /// Matches a path, cut into segments, against this route's pattern,
    /// and gives the parameters that the pattern binds.
    pub fn match_segments(&self, segments: &Vec<&str>) -> (bound: Option<StringHashMap<String>>)
        ensures
            match bound {
                Some(parameters) => bind(compile(self@.path), texts(segments@)) == Some(
                    text_map(parameters@),
                ),
                None => bind(compile(self@.path), texts(segments@)) is None,
            },
    {
        proof {
            use_type_invariant(self);
        }
        bind_segments(&self.segments, segments)
    }
}

impl<H> Clone for RouteNode<H> {
    /// A second handle on the same route: the handler is shared.
    fn clone(&self) -> (copy: Self)
        ensures
            copy@ == self@,
    {
        proof {
            use_type_invariant(self);
        }
        let mut segments: Vec<Segment> = Vec::new();
        let mut k: usize = 0;
        while k < self.segments.len()
            invariant
                k <= self.segments@.len(),
                segments@.len() == k,
                forall|j: int| 0 <= j < k ==> (#[trigger] segments@[j])@ == self.segments@[j]@,
            decreases self.segments@.len() - k,
        {
            segments.push(self.segments[k].clone());
            k += 1;
        }
        assert(segment_views(segments@) =~= segment_views(self.segments@));
        RouteNode {
            method: self.method.clone(),
            path: self.path.clone(),
            segments,
            handler: Arc::clone(&self.handler),
        }
    }
}

/// The result of a lookup: the route that answers, and what it bound.
pub struct MatchedRoute<H> {
    pub method: String,
    pub path: String,
    pub parameters: StringHashMap<String>,
    pub url_parameters: StringHashMap<String>,
    pub handler: Arc<H>,
}

/// What a `MatchedRoute` stands for.
pub struct MatchView<H> {
    pub method: Seq<char>,
    pub path: Seq<char>,
    pub parameters: Map<Seq<char>, Seq<char>>,
    pub url_parameters: Map<Seq<char>, Seq<char>>,
    pub handler: H,
}

impl<H> View for MatchedRoute<H> {
    type V = MatchView<H>;

    open spec fn view(&self) -> MatchView<H> {
        MatchView {
            method: self.method@,
            path: self.path@,
            parameters: text_map(self.parameters@),
            url_parameters: text_map(self.url_parameters@),
            handler: *self.handler,
        }
    }
}

/// Whether a route answers a request: its pattern accepts the path, and
/// its method is the request's or `*`.
pub open spec fn accepts<H>(route: RouteView<H>, method: Seq<char>, segments: Seq<Seq<char>>) -> bool {
    &&& bind(compile(route.path), segments) is Some
    &&& (route.method == method || route.method == "*"@)
}

/// The first route at or after `from` that answers the request.
pub open spec fn first_accepting<H>(
    table: Seq<RouteView<H>>,
    method: Seq<char>,
    segments: Seq<Seq<char>>,
    from: int,
) -> Option<int>
    decreases table.len() - from,
{
    if from < 0 || from >= table.len() {
        None
    } else if accepts(table[from], method, segments) {
        Some(from)
    } else {
        first_accepting(table, method, segments, from + 1)
    }
}

/// What a lookup of `method` and `url` in `table` gives: the first route
/// that answers, with the parameters its pattern binds on the URL's path
/// and the URL's query parameters; `None` when no route answers.
pub open spec fn resolve<H>(table: Seq<RouteView<H>>, method: Seq<char>, url: Seq<char>) -> Option<
    MatchView<H>,
> {
    let segments = pieces(url_path(url), '/');
    match first_accepting(table, method, segments, 0) {
        None => None,
        Some(at) => Some(
            MatchView {
                method: table[at].method,
                path: table[at].path,
                parameters: bind(compile(table[at].path), segments).unwrap(),
                url_parameters: url_parameters(url),
                handler: table[at].handler,
            },
        ),
    }
}

/// The first route at or after `from` registered under this method and
/// pattern.
pub open spec fn key_index<H>(
    table: Seq<RouteView<H>>,
    method: Seq<char>,
    path: Seq<char>,
    from: int,
) -> Option<int>
    decreases table.len() - from,
{
    if from < 0 || from >= table.len() {
        None
    } else if table[from].method == method && table[from].path == path {
        Some(from)
    } else {
        key_index(table, method, path, from + 1)
    }
}

/// The table after a registration. A route under the same method and
/// pattern is replaced where it stands; otherwise the new route goes last.
pub open spec fn register<H>(
    table: Seq<RouteView<H>>,
    method: Seq<char>,
    path: Seq<char>,
    handler: H,
) -> Seq<RouteView<H>> {
    let route = RouteView { method, path, handler };
    match key_index(table, method, path, 0) {
        Some(at) => table.update(at, route),
        None => table.push(route),
    }
}

/// No two routes of the table share method and pattern.
pub open spec fn distinct_keys<H>(table: Seq<RouteView<H>>) -> bool {
    forall|i: int, j: int|
        0 <= i < j < table.len() ==> !(#[trigger] table[i].method == (#[trigger] table[j]).method
            && table[i].path == table[j].path)
}

/// `key_index` gives the least index at or after `from` with the key, and
/// `None` only if there is none.
pub proof fn lemma_key_index<H>(
    table: Seq<RouteView<H>>,
    method: Seq<char>,
    path: Seq<char>,
    from: int,
)
    requires
        0 <= from,
    ensures
        match key_index(table, method, path, from) {
            Some(at) => from <= at < table.len() && table[at].method == method && table[at].path
                == path,
            None => forall|k: int|
                from <= k < table.len() ==> !((#[trigger] table[k]).method == method
                    && table[k].path == path),
        },
    decreases table.len() - from,
{
    if from < table.len() && !(table[from].method == method && table[from].path == path) {
        lemma_key_index(table, method, path, from + 1);
    }
}

/// A table stays free of double keys under registration: the method and
/// pattern of a route name it, and the table holds one route per name.
pub proof fn lemma_register_keeps_keys_distinct<H>(
    table: Seq<RouteView<H>>,
    method: Seq<char>,
    path: Seq<char>,
    handler: H,
)
    requires
        distinct_keys(table),
    ensures
        distinct_keys(register(table, method, path, handler)),
{
    lemma_key_index(table, method, path, 0);
    let after = register(table, method, path, handler);
    assert forall|i: int, j: int| 0 <= i < j < after.len() implies !(#[trigger] after[i].method == (
    #[trigger] after[j]).method && after[i].path == after[j].path) by {
        match key_index(table, method, path, 0) {
            Some(at) => {
                assert(after[i].method == table[i].method && after[i].path == table[i].path);
                assert(after[j].method == table[j].method && after[j].path == table[j].path);
            },
            None => {
                if j < table.len() {
                    assert(after[i] == table[i] && after[j] == table[j]);
                } else {
                    assert(after[i] == table[i]);
                }
            },
        }
    }
}

/// The routing table.
pub struct RouteMatcher<H> {
    routes: Vec<RouteNode<H>>,
}

impl<H> RouteMatcher<H> {
    #[verifier::type_invariant]
    spec fn keyed(self) -> bool {
        distinct_keys(self@)
    }

    /// The routes, in order of registration.
    pub closed spec fn view(&self) -> Seq<RouteView<H>> {
        Seq::new(self.routes@.len(), |k: int| self.routes@[k]@)
    }

    /// An empty table.
    pub fn new() -> (table: RouteMatcher<H>)
        ensures
            table@ == Seq::<RouteView<H>>::empty(),
            distinct_keys(table@),
    {
        let table = RouteMatcher { routes: Vec::new() };
        assert(table@ =~= Seq::<RouteView<H>>::empty());
        table
    }

    /// Registers `handler` for `method` and the pattern `path`. A route
    /// already registered under the same method and pattern is replaced.
    pub fn add_route(&mut self, method: &str, path: &str, handler: H)
        ensures
            final(self)@ == register(old(self)@, method@, path@, handler),
            distinct_keys(final(self)@),
    {
        proof {
            use_type_invariant(&*self);
        }
        let ghost table = self@;
        let node = RouteNode::new(method, path, handler);
        let mut at: usize = 0;
        while at < self.routes.len() && !(str_eq(self.routes[at].method.as_str(), method) && str_eq(
            self.routes[at].path.as_str(),
            path,
        ))
            invariant
                at <= self.routes@.len(),
                table == self@,
                key_index(table, method@, path@, 0) == key_index(table, method@, path@, at as int),
            decreases self.routes@.len() - at,
        {
            assert(table[at as int] == self.routes@[at as int]@);
            at += 1;
        }
        proof {
            if at < self.routes@.len() {
                assert(table[at as int] == self.routes@[at as int]@);
                assert(key_index(table, method@, path@, 0) == Some(at as int));
            } else {
                assert(key_index(table, method@, path@, 0) is None);
            }
        }
        let mut routes: Vec<RouteNode<H>> = Vec::new();
        assert(Seq::new(routes@.len(), |k: int| routes@[k]@) =~= Seq::<RouteView<H>>::empty());
        std::mem::swap(&mut self.routes, &mut routes);
        if at < routes.len() {
            routes[at] = node;
            assert(table.update(at as int, node@) =~= Seq::new(
                routes@.len(),
                |k: int| routes@[k]@,
            ));
        } else {
            routes.push(node);
            assert(table.push(node@) =~= Seq::new(routes@.len(), |k: int| routes@[k]@));
        }
        proof {
            lemma_register_keeps_keys_distinct(table, method@, path@, handler);
        }
        std::mem::swap(&mut self.routes, &mut routes);
    }

    /// Looks up the route that answers `method` and `url`.
    pub fn match_route(&self, method: &str, url: &str) -> (found: Option<MatchedRoute<H>>)
        ensures
            match found {
                Some(route) => resolve(self@, method@, url@) == Some(route@),
                None => resolve(self@, method@, url@) is None,
            },
    {
        let chars = chars_of(url);
        let query_at = find_char(chars.as_slice(), 0, chars.len(), '?');
        assert(chars@.subrange(0, chars@.len() as int) == url@);
        let ranges = split_ranges(chars.as_slice(), 0, query_at, '/');
        let segments = substrings(url, &ranges);
        assert(chars@.subrange(0, query_at as int) == url_path(url@));
        let ghost table = self@;
        let ghost path = texts(segments@);
        let mut at: usize = 0;
        while at < self.routes.len()
            invariant
                at <= self.routes@.len(),
                table == self@,
                chars@ == url@,
                query_at == first_index(url@, '?'),
                query_at <= chars@.len(),
                path == texts(segments@),
                path == pieces(url_path(url@), '/'),
                first_accepting(table, method@, path, 0) == first_accepting(
                    table,
                    method@,
                    path,
                    at as int,
                ),
            decreases self.routes@.len() - at,
        {
            let route = &self.routes[at];
            assert(table[at as int] == route@);
            if let Some(parameters) = route.match_segments(&segments) {
                if str_eq(route.method.as_str(), method) || str_eq(route.method.as_str(), "*") {
                    let url_parameters = parse_query(url, chars.as_slice(), query_at);
                    return Some(
                        MatchedRoute {
                            method: route.method.clone(),
                            path: route.path.clone(),
                            parameters,
                            url_parameters,
                            handler: Arc::clone(&route.handler),
                        },
                    );
                }
            }
            at += 1;
        }
        None
    }
}

impl<H> Clone for RouteMatcher<H> {
    /// A second table with the same routes, which shares their handlers.
    fn clone(&self) -> (copy: Self)
        ensures
            copy@ == self@,
    {
        proof {
            use_type_invariant(self);
        }
        let mut routes: Vec<RouteNode<H>> = Vec::new();
        let mut k: usize = 0;
        while k < self.routes.len()
            invariant
                k <= self.routes@.len(),
                routes@.len() == k,
                forall|j: int| 0 <= j < k ==> (#[trigger] routes@[j])@ == self.routes@[j]@,
            decreases self.routes@.len() - k,
        {
            routes.push(self.routes[k].clone());
            k += 1;
        }
        assert(Seq::new(routes@.len(), |j: int| routes@[j]@) =~= self@);
        RouteMatcher { routes }
    }
}

} // verus!
