//! The course of building an identity, from the first call to the last, and what comes of it.

use reqwest::Proxy;

use vstd::prelude::*;

use crate::headers::{appended, grouped, has_room, named, Entries, Field};
use crate::identity::{BuilderCall, Identity, IdentityBuilder, IdentityError};
use crate::query::pair_names;

verus! {

/// The builders that a sequence of calls leads to, starting from one with nothing set.
pub open spec fn is_history<S>(
    builders: Seq<IdentityBuilder<S>>,
    calls: Seq<BuilderCall<S>>,
) -> bool {
    &&& builders.len() == calls.len() + 1
    &&& builders[0].is_fresh()
    &&& forall|i: int|
        0 <= i < calls.len() ==> builders[i].became(#[trigger] calls[i], &builders[i + 1])
}

/// The error that a call brings, if it adds an invalid header: that of the name before that of the
/// value.
pub open spec fn call_error<S>(call: BuilderCall<S>) -> Option<http::Error> {
    match call {
        BuilderCall::AddHeader { name: Err(e), .. } => Some(e),
        BuilderCall::AddHeader { value: Err(e), .. } => Some(e),
        _ => None,
    }
}

/// The error of the first call that brings one.
pub open spec fn first_error<S>(calls: Seq<BuilderCall<S>>) -> Option<http::Error>
    decreases calls.len(),
{
    if calls.len() == 0 {
        None
    } else {
        match first_error(calls.drop_last()) {
            Some(e) => Some(e),
            None => call_error(calls.last()),
        }
    }
}

/// The headers that the calls add, in order, each marked as sensitive.
pub open spec fn headers_called<S>(calls: Seq<BuilderCall<S>>) -> Seq<(Seq<char>, Field)>
    decreases calls.len(),
{
    if calls.len() == 0 {
        Seq::empty()
    } else {
        let before = headers_called(calls.drop_last());
        match calls.last() {
            BuilderCall::AddHeader { name: Ok(name), value: Ok(value) } => before.push(
                (name, Field { bytes: value, sensitive: true }),
            ),
            _ => before,
        }
    }
}

/// The query parameters that the calls add, in order.
pub open spec fn query_called<S>(calls: Seq<BuilderCall<S>>) -> Seq<(Seq<char>, Seq<char>)>
    decreases calls.len(),
{
    if calls.len() == 0 {
        Seq::empty()
    } else {
        let before = query_called(calls.drop_last());
        match calls.last() {
            BuilderCall::AddQuery { key, content } => before.push((key, content)),
            _ => before,
        }
    }
}

/// The last proxy that the calls set.
pub open spec fn proxy_called<S>(calls: Seq<BuilderCall<S>>) -> Option<Proxy>
    decreases calls.len(),
{
    if calls.len() == 0 {
        None
    } else {
        match calls.last() {
            BuilderCall::SetProxy { proxy } => Some(proxy),
            _ => proxy_called(calls.drop_last()),
        }
    }
}

/// The last hook that the calls set.
pub open spec fn stamp_called<S>(calls: Seq<BuilderCall<S>>) -> Option<S>
    decreases calls.len(),
{
    if calls.len() == 0 {
        None
    } else {
        match calls.last() {
            BuilderCall::SetStamp { stamp } => Some(stamp),
            _ => stamp_called(calls.drop_last()),
        }
    }
}

/// The names of headers, each once, in the order in which they come first.
pub open spec fn names_first_seen(headers: Seq<(Seq<char>, Field)>) -> Seq<Seq<char>>
    decreases headers.len(),
{
    if headers.len() == 0 {
        Seq::empty()
    } else {
        named(names_first_seen(headers.drop_last()), headers.last().0)
    }
}

/// The names of headers, as often as they come.
pub open spec fn names_of(headers: Seq<(Seq<char>, Field)>) -> Seq<Seq<char>> {
    Seq::new(headers.len(), |i: int| headers[i].0)
}

/// No valid header was refused because the header map could not grow any more.
pub open spec fn none_refused<S>(
    builders: Seq<IdentityBuilder<S>>,
    calls: Seq<BuilderCall<S>>,
) -> bool {
    forall|i: int|
        0 <= i < calls.len() && call_error(#[trigger] calls[i]) is None && builders[i].error_set()
            is None ==> builders[i + 1].error_set() is None
}

/// The error is that of the first call that adds an invalid header: all calls before it are valid.
pub proof fn law_first_error_is_the_first<S>(calls: Seq<BuilderCall<S>>)
    ensures
        first_error(calls) is None <==> forall|i: int|
            0 <= i < calls.len() ==> call_error(#[trigger] calls[i]) is None,
        first_error(calls) is Some ==> exists|i: int|
            {
                &&& 0 <= i < calls.len()
                &&& call_error(#[trigger] calls[i]) == first_error(calls)
                &&& forall|j: int| 0 <= j < i ==> call_error(#[trigger] calls[j]) is None
            },
    decreases calls.len(),
{
    if calls.len() > 0 {
        let front = calls.drop_last();
        law_first_error_is_the_first(front);
        assert forall|i: int| 0 <= i < front.len() implies front[i] == calls[i] by {}
        assert(calls.last() == calls[calls.len() - 1]);
        if first_error(front) is Some {
            let i = choose|i: int|
                {
                    &&& 0 <= i < front.len()
                    &&& call_error(#[trigger] front[i]) == first_error(front)
                    &&& forall|j: int| 0 <= j < i ==> call_error(#[trigger] front[j]) is None
                };
            assert(call_error(calls[i]) == first_error(calls));
            assert forall|j: int| 0 <= j < i implies call_error(#[trigger] calls[j]) is None by {
                assert(call_error(front[j]) is None);
            }
        } else {
            assert forall|j: int| 0 <= j < front.len() implies call_error(
                #[trigger] calls[j],
            ) is None by {
                assert(call_error(front[j]) is None);
            }
        }
    }
}

/// What a sequence of calls builds.
///
/// An identity has every header and every query parameter in the order of the calls, the last proxy
/// and the last hook, and then no header was invalid. It is an error of its own if no call was made.
/// An invalid header is reported, and the first one only, unless a valid one was refused before
/// because the header map could not grow any more.
pub proof fn law_calls_build_the_identity<S>(
    builders: Seq<IdentityBuilder<S>>,
    calls: Seq<BuilderCall<S>>,
    result: Result<Identity<S>, IdentityError>,
)
    requires
        is_history(builders, calls),
        builders.last().finishes(result),
    ensures
        result matches Ok(identity) ==> {
            &&& calls.len() > 0
            &&& first_error(calls) is None
            &&& identity.header_entries() == grouped(headers_called(calls))
            &&& identity.header_names() == names_first_seen(headers_called(calls))
            &&& identity.query_pairs() == query_called(calls)
            &&& identity.proxy_set() == proxy_called(calls)
            &&& identity.stamp_set() == stamp_called(calls)
        },
        result matches Err(IdentityError::Empty) <==> calls.len() == 0,
        none_refused(builders, calls) ==> match first_error(calls) {
            Some(first) => result matches Err(IdentityError::Header(e)) && e == first,
            None => calls.len() > 0 ==> result is Ok,
        },
{
    let n = calls.len() as int;
    lemma_history(builders, calls, n);
    assert(calls.take(n) =~= calls);
    if none_refused(builders, calls) {
        lemma_first_error_is_kept(builders, calls, n);
    }
    if n > 0 {
        assert(calls.last() == calls[n - 1]);
        if builders[n].error_set() is None {
            if let BuilderCall::AddHeader { name: Ok(name), value: Ok(value) } = calls.last() {
                let list = headers_called(calls);
                assert(list.last().0 == name);
                assert(grouped(list).contains_key(name));
                assert(builders[n].header_entries().dom().contains(name));
            } else {
                lemma_no_error(calls);
            }
        }
    } else {
        assert(builders[n].header_entries().dom() =~= Set::<Seq<char>>::empty());
    }
}

/// Without an error the last call brought none.
proof fn lemma_no_error<S>(calls: Seq<BuilderCall<S>>)
    requires
        calls.len() > 0,
        first_error(calls) is None,
    ensures
        call_error(calls.last()) is None,
{
}

/// Where a builder stands after the first calls. Without an error every one of them was valid, and
/// all headers were added.
proof fn lemma_history<S>(
    builders: Seq<IdentityBuilder<S>>,
    calls: Seq<BuilderCall<S>>,
    k: int,
)
    requires
        is_history(builders, calls),
        0 <= k <= calls.len(),
    ensures
        builders[k].query_pairs() == query_called(calls.take(k)),
        builders[k].proxy_set() == proxy_called(calls.take(k)),
        builders[k].stamp_set() == stamp_called(calls.take(k)),
        builders[k].error_set() is None ==> {
            &&& first_error(calls.take(k)) is None
            &&& builders[k].header_entries() == grouped(headers_called(calls.take(k)))
            &&& builders[k].header_names() == names_first_seen(headers_called(calls.take(k)))
        },
    decreases k,
{
    if k > 0 {
        lemma_history(builders, calls, k - 1);
        let before = builders[k - 1];
        let after = builders[k];
        assert(before.became(calls[k - 1], &builders[k - 1 + 1]));
        assert(calls.take(k).drop_last() =~= calls.take(k - 1));
        assert(calls.take(k).last() == calls[k - 1]);
        if let BuilderCall::AddHeader { name: Ok(name), value: Ok(value) } = calls[k - 1] {
            let list = headers_called(calls.take(k - 1));
            let field = Field { bytes: value, sensitive: true };
            assert(list.push((name, field)).drop_last() =~= list);
            assert(grouped(list.push((name, field))) == appended(grouped(list), name, field));
        }
    } else {
        assert(calls.take(0) =~= Seq::empty());
    }
}

/// The error of a builder is that of the first invalid header, where no valid one was refused.
proof fn lemma_first_error_is_kept<S>(
    builders: Seq<IdentityBuilder<S>>,
    calls: Seq<BuilderCall<S>>,
    k: int,
)
    requires
        is_history(builders, calls),
        none_refused(builders, calls),
        0 <= k <= calls.len(),
    ensures
        builders[k].error_set() == first_error(calls.take(k)),
    decreases k,
{
    if k > 0 {
        lemma_first_error_is_kept(builders, calls, k - 1);
        assert(builders[k - 1].became(calls[k - 1], &builders[k - 1 + 1]));
        assert(call_error(calls[k - 1]) is None && builders[k - 1].error_set() is None
            ==> builders[k - 1 + 1].error_set() is None);
        assert(calls.take(k).drop_last() =~= calls.take(k - 1));
        assert(calls.take(k).last() == calls[k - 1]);
    } else {
        assert(calls.take(0) =~= Seq::empty());
    }
}

/// No header is refused as long as there are no more names than always leave room.
pub proof fn law_none_is_refused_with_room<S>(
    builders: Seq<IdentityBuilder<S>>,
    calls: Seq<BuilderCall<S>>,
)
    requires
        is_history(builders, calls),
        has_room(builders.last().header_entries()),
    ensures
        none_refused(builders, calls),
{
    assert forall|i: int|
        0 <= i < calls.len() && call_error(#[trigger] calls[i]) is None && builders[i].error_set()
            is None implies builders[i + 1].error_set() is None by {
        lemma_room(builders, calls, i, calls.len() as int);
        assert(builders[i].became(calls[i], &builders[i + 1]));
    }
}

/// Headers are never taken away, so there was room before if there is room now.
proof fn lemma_room<S>(
    builders: Seq<IdentityBuilder<S>>,
    calls: Seq<BuilderCall<S>>,
    k: int,
    n: int,
)
    requires
        is_history(builders, calls),
        0 <= k <= n <= calls.len(),
        has_room(builders[n].header_entries()),
    ensures
        has_room(builders[k].header_entries()),
    decreases n - k,
{
    if k < n {
        lemma_room(builders, calls, k + 1, n);
        assert(builders[k].became(calls[k], &builders[k + 1]));
        let before: Entries = builders[k].header_entries();
        let after: Entries = builders[k + 1].header_entries();
        assert(before.dom().subset_of(after.dom()));
        vstd::set_lib::lemma_len_subset(before.dom(), after.dom());
    }
}

/// Two identities that were built with the same header names and the same query names, in the same
/// order, and both with or both without a proxy and a hook, show the same, whatever the values are.
pub proof fn law_same_names_show_the_same<S>(
    builders_of_a: Seq<IdentityBuilder<S>>,
    calls_of_a: Seq<BuilderCall<S>>,
    a: Identity<S>,
    builders_of_b: Seq<IdentityBuilder<S>>,
    calls_of_b: Seq<BuilderCall<S>>,
    b: Identity<S>,
)
    requires
        is_history(builders_of_a, calls_of_a),
        builders_of_a.last().finishes(Ok(a)),
        is_history(builders_of_b, calls_of_b),
        builders_of_b.last().finishes(Ok(b)),
        names_of(headers_called(calls_of_a)) == names_of(headers_called(calls_of_b)),
        pair_names(query_called(calls_of_a)) == pair_names(query_called(calls_of_b)),
        proxy_called(calls_of_a) is Some <==> proxy_called(calls_of_b) is Some,
        stamp_called(calls_of_a) is Some <==> stamp_called(calls_of_b) is Some,
    ensures
        a.shown() == b.shown(),
{
    law_calls_build_the_identity(builders_of_a, calls_of_a, Ok(a));
    law_calls_build_the_identity(builders_of_b, calls_of_b, Ok(b));
    lemma_same_names(headers_called(calls_of_a), headers_called(calls_of_b));
}

/// The names that come first are the same where all names are.
proof fn lemma_same_names(a: Seq<(Seq<char>, Field)>, b: Seq<(Seq<char>, Field)>)
    requires
        names_of(a) == names_of(b),
    ensures
        names_first_seen(a) == names_first_seen(b),
    decreases a.len(),
{
    assert(a.len() == names_of(a).len() && b.len() == names_of(b).len());
    if a.len() > 0 {
        assert(names_of(a)[a.len() - 1] == names_of(b)[a.len() - 1]);
        assert(names_of(a.drop_last()) =~= names_of(a).drop_last());
        assert(names_of(b.drop_last()) =~= names_of(b).drop_last());
        assert(a.last().0 == b.last().0);
        lemma_same_names(a.drop_last(), b.drop_last());
        assert(names_first_seen(a) == named(names_first_seen(a.drop_last()), a.last().0));
        assert(names_first_seen(b) == named(names_first_seen(b.drop_last()), b.last().0));
    }
}

/// Each call adds to what the calls before it built, and to one thing only: a valid header to the
/// headers, a parameter to the query; a proxy and a hook take the place of those before.
pub proof fn law_each_call_adds_its_own<S>(calls: Seq<BuilderCall<S>>, call: BuilderCall<S>)
    ensures
        calls.len() == 0 ==> {
            &&& headers_called(calls).len() == 0
            &&& query_called(calls).len() == 0
            &&& proxy_called(calls) is None
            &&& stamp_called(calls) is None
            &&& first_error(calls) is None
        },
        headers_called(calls.push(call)) == match call {
            BuilderCall::AddHeader { name: Ok(name), value: Ok(value) } => headers_called(
                calls,
            ).push((name, Field { bytes: value, sensitive: true })),
            _ => headers_called(calls),
        },
        query_called(calls.push(call)) == match call {
            BuilderCall::AddQuery { key, content } => query_called(calls).push((key, content)),
            _ => query_called(calls),
        },
        proxy_called(calls.push(call)) == match call {
            BuilderCall::SetProxy { proxy } => Some(proxy),
            _ => proxy_called(calls),
        },
        stamp_called(calls.push(call)) == match call {
            BuilderCall::SetStamp { stamp } => Some(stamp),
            _ => stamp_called(calls),
        },
        first_error(calls.push(call)) == match first_error(calls) {
            Some(e) => Some(e),
            None => match call {
                BuilderCall::AddHeader { name: Err(e), .. } => Some(e),
                BuilderCall::AddHeader { value: Err(e), .. } => Some(e),
                _ => None,
            },
        },
{
    assert(calls.push(call).drop_last() =~= calls);
    assert(calls.push(call).last() == call);
}

} // verus!
