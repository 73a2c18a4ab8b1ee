//! What holds of every routing table: which route a lookup finds, what its
//! parameters recover from the path, and what a trailing wildcard accepts.

use crate::router::{
    accepts, bind, bind_from, classify, compile, first_accepting, key_index, lemma_key_index,
    register, resolve, url_parameters, url_path, RouteView, SegmentView,
};
use crate::text::{first_index, lemma_pieces_joined, pieces};
use vstd::prelude::*;

verus! {

/// Position `k` of the pattern is compared with position `k` of the path:
/// both reach that far, and no wildcard stands before it.
pub open spec fn compared(pattern: Seq<SegmentView>, path: Seq<Seq<char>>, k: int) -> bool {
    &&& 0 <= k < pattern.len()
    &&& k < path.len()
    &&& forall|j: int| 0 <= j < k ==> !(#[trigger] pattern[j] is Wildcard)
}

/// Position `k` is the last compared position that binds `name`.
pub open spec fn binds_last(
    pattern: Seq<SegmentView>,
    path: Seq<Seq<char>>,
    k: int,
    name: Seq<char>,
) -> bool {
    &&& compared(pattern, path, k)
    &&& pattern[k] == SegmentView::Parameter(name)
    &&& forall|j: int|
        k < j && compared(pattern, path, j) ==> #[trigger] pattern[j] != SegmentView::Parameter(
            name,
        )
}

/// `first_accepting` gives the least index at or after `from` whose route
/// answers, and `None` only if no route at or after `from` answers.
pub proof fn lemma_first_accepting<H>(
    table: Seq<RouteView<H>>,
    method: Seq<char>,
    segments: Seq<Seq<char>>,
    from: int,
)
    requires
        0 <= from,
    ensures
        match first_accepting(table, method, segments, from) {
            Some(at) => {
                &&& from <= at < table.len()
                &&& accepts(table[at], method, segments)
                &&& forall|k: int| from <= k < at ==> !accepts(#[trigger] table[k], method, segments)
            },
            None => forall|k: int|
                from <= k < table.len() ==> !accepts(#[trigger] table[k], method, segments),
        },
    decreases table.len() - from,
{
    if from < table.len() && !accepts(table[from], method, segments) {
        lemma_first_accepting(table, method, segments, from + 1);
    }
}

/// After a registration the table holds the route that was registered:
/// under its method and pattern, with its handler.
pub proof fn lemma_registered_route_is_in_table<H>(
    table: Seq<RouteView<H>>,
    method: Seq<char>,
    path: Seq<char>,
    handler: H,
)
    ensures
        exists|at: int|
            0 <= at < register(table, method, path, handler).len() && #[trigger] register(
                table,
                method,
                path,
                handler,
            )[at] == (RouteView { method, path, handler }),
{
    lemma_key_index(table, method, path, 0);
    let after = register(table, method, path, handler);
    match key_index(table, method, path, 0) {
        Some(at) => {
            assert(after[at] == (RouteView { method, path, handler }));
        },
        None => {
            assert(after[table.len() as int] == (RouteView { method, path, handler }));
        },
    }
}

/// A lookup finds nothing exactly when no route of the table answers. In
/// particular it finds nothing in an empty table.
pub proof fn lemma_resolve_none<H>(table: Seq<RouteView<H>>, method: Seq<char>, url: Seq<char>)
    ensures
        resolve(table, method, url) is None <==> forall|k: int|
            0 <= k < table.len() ==> !accepts(
                #[trigger] table[k],
                method,
                pieces(url_path(url), '/'),
            ),
        table.len() == 0 ==> resolve(table, method, url) is None,
{
    lemma_first_accepting(table, method, pieces(url_path(url), '/'), 0);
}

/// What matching from `at` on adds to the bindings found so far: a name is
/// bound in the end if it was bound before or a compared position from `at`
/// on binds it, and it is bound to the segment at the last such position.
proof fn lemma_bind_from(
    pattern: Seq<SegmentView>,
    path: Seq<Seq<char>>,
    at: int,
    found: Map<Seq<char>, Seq<char>>,
)
    requires
        0 <= at,
        forall|j: int| 0 <= j < at && j < pattern.len() ==> !(#[trigger] pattern[j] is Wildcard),
        bind_from(pattern, path, at, found) is Some,
    ensures
        forall|name: Seq<char>| #[trigger]
            bind_from(pattern, path, at, found).unwrap().contains_key(name) <==> (
            found.contains_key(name) || exists|k: int|
                at <= k && compared(pattern, path, k) && #[trigger] pattern[k]
                    == SegmentView::Parameter(name)),
        forall|k: int, name: Seq<char>|
            at <= k && #[trigger] binds_last(pattern, path, k, name) ==> bind_from(
                pattern,
                path,
                at,
                found,
            ).unwrap()[name] == path[k],
        forall|name: Seq<char>|
            found.contains_key(name) && !(exists|k: int|
                at <= k && compared(pattern, path, k) && #[trigger] pattern[k]
                    == SegmentView::Parameter(name)) ==> #[trigger] bind_from(
                pattern,
                path,
                at,
                found,
            ).unwrap()[name] == found[name],
    decreases pattern.len() - at,
{
    let result = bind_from(pattern, path, at, found).unwrap();
    if at >= pattern.len() || at >= path.len() {
        assert forall|k: int| at <= k implies !compared(pattern, path, k) by {}
    } else {
        match pattern[at] {
            SegmentView::Wildcard => {
                assert forall|name: Seq<char>| #[trigger]
                    result.contains_key(name) <==> (found.contains_key(name) || exists|k: int|
                        at <= k && compared(pattern, path, k) && #[trigger] pattern[k]
                            == SegmentView::Parameter(name)) by {
                    if exists|k: int|
                        at <= k && compared(pattern, path, k) && #[trigger] pattern[k]
                            == SegmentView::Parameter(name) {
                        let k = choose|k: int|
                            at <= k && compared(pattern, path, k) && #[trigger] pattern[k]
                                == SegmentView::Parameter(name);
                        if k > at {
                            assert(!(pattern[at] is Wildcard));
                        }
                    }
                }
                assert forall|k: int, name: Seq<char>|
                    at <= k && #[trigger] binds_last(pattern, path, k, name) implies result[name]
                    == path[k] by {
                    if k > at {
                        assert(!(pattern[at] is Wildcard));
                    }
                }
            },
            SegmentView::Static(text) => {
                lemma_bind_from(pattern, path, at + 1, found);
                assert forall|name: Seq<char>| #[trigger]
                    result.contains_key(name) <==> (found.contains_key(name) || exists|k: int|
                        at <= k && compared(pattern, path, k) && #[trigger] pattern[k]
                            == SegmentView::Parameter(name)) by {
                    if exists|k: int|
                        at <= k && compared(pattern, path, k) && #[trigger] pattern[k]
                            == SegmentView::Parameter(name) {
                        let k = choose|k: int|
                            at <= k && compared(pattern, path, k) && #[trigger] pattern[k]
                                == SegmentView::Parameter(name);
                        assert(at + 1 <= k && compared(pattern, path, k) && pattern[k]
                            == SegmentView::Parameter(name));
                    }
                }
                assert forall|name: Seq<char>|
                    found.contains_key(name) && !(exists|k: int|
                        at <= k && compared(pattern, path, k) && #[trigger] pattern[k]
                            == SegmentView::Parameter(name)) implies #[trigger] result[name]
                    == found[name] by {
                    assert(!(exists|k: int|
                        at + 1 <= k && compared(pattern, path, k) && #[trigger] pattern[k]
                            == SegmentView::Parameter(name)));
                }
            },
            SegmentView::Parameter(bound) => {
                let next = found.insert(bound, path[at]);
                lemma_bind_from(pattern, path, at + 1, next);
                assert(compared(pattern, path, at));
                assert forall|name: Seq<char>| #[trigger]
                    result.contains_key(name) <==> (found.contains_key(name) || exists|k: int|
                        at <= k && compared(pattern, path, k) && #[trigger] pattern[k]
                            == SegmentView::Parameter(name)) by {
                    if exists|k: int|
                        at <= k && compared(pattern, path, k) && #[trigger] pattern[k]
                            == SegmentView::Parameter(name) {
                        let k = choose|k: int|
                            at <= k && compared(pattern, path, k) && #[trigger] pattern[k]
                                == SegmentView::Parameter(name);
                        if k == at {
                            assert(name == bound);
                            assert(next.contains_key(name));
                        } else {
                            assert(at + 1 <= k && compared(pattern, path, k) && pattern[k]
                                == SegmentView::Parameter(name));
                        }
                    }
                    if result.contains_key(name) && !found.contains_key(name) {
                        if next.contains_key(name) {
                            assert(name == bound);
                            assert(at <= at && compared(pattern, path, at) && pattern[at]
                                == SegmentView::Parameter(name));
                        }
                    }
                }
                assert forall|k: int, name: Seq<char>|
                    at <= k && #[trigger] binds_last(pattern, path, k, name) implies result[name]
                    == path[k] by {
                    if k == at {
                        assert(name == bound);
                        assert(!(exists|j: int|
                            at + 1 <= j && compared(pattern, path, j) && #[trigger] pattern[j]
                                == SegmentView::Parameter(name)));
                        assert(next.contains_key(name));
                    }
                }
                assert forall|name: Seq<char>|
                    found.contains_key(name) && !(exists|k: int|
                        at <= k && compared(pattern, path, k) && #[trigger] pattern[k]
                            == SegmentView::Parameter(name)) implies #[trigger] result[name]
                    == found[name] by {
                    assert(name != bound);
                    assert(next.contains_key(name));
                    assert(!(exists|k: int|
                        at + 1 <= k && compared(pattern, path, k) && #[trigger] pattern[k]
                            == SegmentView::Parameter(name)));
                }
            },
        }
    }
}

/// The parameters of a match are the names at the compared `:name`
/// positions of the pattern, each bound to the path segment at its last
/// such position.
pub proof fn lemma_bind_recovers_segments(pattern: Seq<SegmentView>, path: Seq<Seq<char>>)
    requires
        bind(pattern, path) is Some,
    ensures
        forall|name: Seq<char>| #[trigger]
            bind(pattern, path).unwrap().contains_key(name) <==> exists|k: int|
                compared(pattern, path, k) && #[trigger] pattern[k] == SegmentView::Parameter(
                    name,
                ),
        forall|k: int, name: Seq<char>| #[trigger]
            binds_last(pattern, path, k, name) ==> bind(pattern, path).unwrap()[name] == path[k],
{
    lemma_bind_from(pattern, path, 0, Map::empty());
    let result = bind(pattern, path).unwrap();
    assert forall|name: Seq<char>| #[trigger]
        result.contains_key(name) <==> exists|k: int|
            compared(pattern, path, k) && #[trigger] pattern[k] == SegmentView::Parameter(
                name,
            ) by {
        if exists|k: int|
            compared(pattern, path, k) && #[trigger] pattern[k] == SegmentView::Parameter(name) {
            let k = choose|k: int|
                compared(pattern, path, k) && #[trigger] pattern[k] == SegmentView::Parameter(
                    name,
                );
            assert(0 <= k && compared(pattern, path, k) && pattern[k] == SegmentView::Parameter(
                name,
            ));
        }
    }
}

/// A registered route that answers a request, with no earlier route
/// answering it, is the one a lookup finds: the result carries its method,
/// which is the request's or `*`, its pattern and its handler, the query
/// parameters of the URL, and parameters that recover the path segments at
/// the pattern's `:name` positions.
pub proof fn lemma_registered_route_resolves<H>(
    table: Seq<RouteView<H>>,
    at: int,
    method: Seq<char>,
    url: Seq<char>,
)
    requires
        0 <= at < table.len(),
        accepts(table[at], method, pieces(url_path(url), '/')),
        forall|k: int| 0 <= k < at ==> !accepts(#[trigger] table[k], method, pieces(url_path(url), '/')),
    ensures
        resolve(table, method, url) matches Some(found) && {
            &&& found.method == table[at].method
            &&& (found.method == method || found.method == "*"@)
            &&& found.path == table[at].path
            &&& found.handler == table[at].handler
            &&& found.url_parameters == url_parameters(url)
            &&& forall|name: Seq<char>| #[trigger]
                found.parameters.contains_key(name) <==> exists|k: int|
                    compared(compile(table[at].path), pieces(url_path(url), '/'), k)
                        && #[trigger] compile(table[at].path)[k] == SegmentView::Parameter(name)
            &&& forall|k: int, name: Seq<char>| #[trigger]
                binds_last(compile(table[at].path), pieces(url_path(url), '/'), k, name)
                    ==> found.parameters[name] == pieces(url_path(url), '/')[k]
        },
{
    let segments = pieces(url_path(url), '/');
    lemma_first_accepting(table, method, segments, 0);
    assert(first_accepting(table, method, segments, 0) == Some(at));
    lemma_bind_recovers_segments(compile(table[at].path), segments);
}

/// Matching against a pattern with a wildcard appended, on a path at
/// least as long as the pattern before it, goes as matching the pattern
/// before it against as many leading segments.
proof fn lemma_wildcard_from(
    prefix: Seq<SegmentView>,
    path: Seq<Seq<char>>,
    at: int,
    found: Map<Seq<char>, Seq<char>>,
)
    requires
        0 <= at <= prefix.len(),
        path.len() >= prefix.len(),
    ensures
        bind_from(prefix.push(SegmentView::Wildcard), path, at, found) == bind_from(
            prefix,
            path.take(prefix.len() as int),
            at,
            found,
        ),
    decreases prefix.len() - at,
{
    let whole = prefix.push(SegmentView::Wildcard);
    let head = path.take(prefix.len() as int);
    if at < prefix.len() {
        assert(whole[at] == prefix[at]);
        assert(head[at] == path[at]);
        match prefix[at] {
            SegmentView::Wildcard => {},
            SegmentView::Static(text) => {
                lemma_wildcard_from(prefix, path, at + 1, found);
            },
            SegmentView::Parameter(name) => {
                lemma_wildcard_from(prefix, path, at + 1, found.insert(name, path[at]));
            },
        }
    } else {
        assert(whole[at] is Wildcard);
    }
}

/// A pattern text that ends in `/*` compiles to the segments of the text
/// before it and a wildcard.
pub proof fn lemma_trailing_wildcard_compiles(pattern: Seq<char>)
    ensures
        compile(pattern + seq!['/', '*']) == compile(pattern).push(SegmentView::Wildcard),
{
    let star = seq!['*'];
    assert(pattern + seq!['/', '*'] == pattern + seq!['/'] + star);
    lemma_pieces_joined(pattern, star, '/');
    assert(pieces(star, '/') == seq![star]) by {
        reveal_with_fuel(first_index, 3);
        reveal_with_fuel(pieces, 3);
        assert(star.take(1) == star);
    }
    assert(classify(star) == SegmentView::Wildcard);
    assert(compile(pattern + seq!['/', '*']) =~= compile(pattern).push(SegmentView::Wildcard));
}

/// A pattern that ends in a wildcard accepts every path that begins with
/// segments that the pattern before the wildcard accepts, whatever follows
/// them and however much: nothing, one segment or many. It binds what the
/// pattern before the wildcard binds.
pub proof fn lemma_wildcard_accepts_any_suffix(prefix: Seq<SegmentView>, path: Seq<Seq<char>>)
    requires
        path.len() >= prefix.len(),
        bind(prefix, path.take(prefix.len() as int)) is Some,
    ensures
        bind(prefix.push(SegmentView::Wildcard), path) == bind(
            prefix,
            path.take(prefix.len() as int),
        ),
{
    lemma_wildcard_from(prefix, path, 0, Map::empty());
}

} // verus!
