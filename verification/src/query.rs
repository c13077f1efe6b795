//! Query parameters of an identity, merged into the query of a URL.

use reqwest::Url;

use vstd::prelude::*;
use vstd::utf8::encode_utf8;

use crate::request::{
    append_query, clear_query, encoded, fragment_size, is_unreserved,
    law_pairs_are_written_like_a_form, pair_texts, places_fit, query_pairs, query_size, url_frame,
    url_pairs, url_query, url_size, url_text, with_pair,
};

verus! {

/// The names in a list of pairs.
pub open spec fn pair_names(pairs: Seq<(Seq<char>, Seq<char>)>) -> Seq<Seq<char>> {
    Seq::new(pairs.len(), |i: int| pairs[i].0)
}

/// The name of a query parameter is among those of the identity.
pub open spec fn is_overridden(query: Seq<(Seq<char>, Seq<char>)>, name: Seq<char>) -> bool {
    exists|i: int| 0 <= i < query.len() && (#[trigger] query[i]).0 == name
}

/// The parameters of the caller that keep their value, and the identity's own behind them.
pub open spec fn merged_query(
    caller: Seq<(Seq<char>, Seq<char>)>,
    query: Seq<(Seq<char>, Seq<char>)>,
) -> Seq<(Seq<char>, Seq<char>)> {
    caller.filter(|pair: (Seq<char>, Seq<char>)| !is_overridden(query, pair.0)) + query
}

/// A query with the pairs behind it.
pub open spec fn with_pairs(query: Seq<u8>, pairs: Seq<(Seq<char>, Seq<char>)>) -> Seq<u8>
    decreases pairs.len(),
{
    if pairs.len() == 0 {
        query
    } else {
        with_pair(with_pairs(query, pairs.drop_last()), pairs.last().0, pairs.last().1)
    }
}

/// The text of a query that is made of the pairs.
pub open spec fn query_text(pairs: Seq<(Seq<char>, Seq<char>)>) -> Seq<u8> {
    with_pairs(Seq::empty(), pairs)
}

/// `after` is the URL `before` with the query parameters of an identity: they come last and replace
/// what the caller set under the same names, and all else is as it was. Without parameters the URL
/// is the same.
pub open spec fn query_applied(
    query: Seq<(Seq<char>, Seq<char>)>,
    before: Url,
    after: Url,
) -> bool {
    if query.len() == 0 {
        after == before
    } else {
        &&& url_pairs(after) == merged_query(url_pairs(before), query)
        &&& url_query(after) == Some(query_text(merged_query(url_pairs(before), query)))
        &&& url_frame(after) == url_frame(before)
    }
}

/// The URL can hold the query parameters of an identity.
pub open spec fn query_fits(query: Seq<(Seq<char>, Seq<char>)>, url: Url) -> bool {
    query.len() == 0 || places_fit(
        url_frame(url),
        query_text(merged_query(url_pairs(url), query)).len(),
    )
}

/// The values that a query has under one name, in order.
pub open spec fn values_named(
    pairs: Seq<(Seq<char>, Seq<char>)>,
    name: Seq<char>,
) -> Seq<(Seq<char>, Seq<char>)> {
    pairs.filter(|pair: (Seq<char>, Seq<char>)| pair.0 == name)
}

/// One of the pairs has that name.
fn has_name(query: &Vec<(String, String)>, name: &String) -> (found: bool)
    ensures
        found == is_overridden(pair_texts(query@), name@),
{
    let mut i: usize = 0;
    while i < query.len()
        invariant
            i <= query.len(),
            forall|j: int| 0 <= j < i ==> (#[trigger] pair_texts(query@)[j]).0 != name@,
        decreases query.len() - i,
    {
        if query[i].0 == *name {
            assert(pair_texts(query@)[i as int].0 == name@);
            return true;
        }
        i = i + 1;
    }
    false
}

/// The bytes that a text takes in a query.
fn encoded_size(text: &str) -> (size: u128)
    ensures
        size == encoded(encode_utf8(text@)).len(),
{
    let bytes = text.as_bytes();
    let ghost all = encode_utf8(text@);
    let mut size: u128 = 0;
    let mut i: usize = 0;
    proof {
        assert(all.take(0) =~= Seq::empty());
    }
    while i < bytes.len()
        invariant
            i <= bytes.len(),
            bytes@ == all,
            size == encoded(all.take(i as int)).len(),
            size <= 3 * i,
        decreases bytes.len() - i,
    {
        let byte: u8 = bytes[i];
        let unreserved = (48 <= byte && byte <= 57) || (65 <= byte && byte <= 90) || (97 <= byte
            && byte <= 122) || byte == 42 || byte == 45 || byte == 46 || byte == 95;
        proof {
            assert(all.take(i + 1).drop_last() =~= all.take(i as int));
            assert(all.take(i + 1).last() == byte);
            assert(unreserved == is_unreserved(byte));
        }
        size = if unreserved || byte == 32 {
            size + 1
        } else {
            size + 3
        };
        i = i + 1;
    }
    proof {
        assert(all.take(i as int) =~= all);
    }
    size
}

/// The bytes of a query of so many bytes with the pairs behind it, or `None` if there are more than
/// the limit.
fn grown_size(size: u128, pairs: &Vec<(String, String)>, limit: u128) -> (grown: Option<u128>)
    requires
        size <= limit <= u32::MAX,
    ensures
        forall|query: Seq<u8>|
            query.len() == size ==> match grown {
                Some(g) => g == (#[trigger] with_pairs(query, pair_texts(pairs@))).len() && g
                    <= limit,
                None => with_pairs(query, pair_texts(pairs@)).len() > limit,
            },
{
    let ghost texts = pair_texts(pairs@);
    let mut total: u128 = size;
    let mut i: usize = 0;
    proof {
        assert(texts.take(0) =~= Seq::empty());
    }
    while i < pairs.len()
        invariant
            i <= pairs.len(),
            texts == pair_texts(pairs@),
            total <= limit <= u32::MAX,
            forall|query: Seq<u8>|
                query.len() == size ==> total == (#[trigger] with_pairs(
                    query,
                    texts.take(i as int),
                )).len(),
        decreases pairs.len() - i,
    {
        let name: u128 = encoded_size(pairs[i].0.as_str());
        let value: u128 = encoded_size(pairs[i].1.as_str());
        proof {
            assert(texts.take(i + 1).drop_last() =~= texts.take(i as int));
            assert(texts.take(i + 1).last() == texts[i as int]);
        }
        let separator: u128 = if total > 0 {
            1
        } else {
            0
        };
        let ghost exact: int = total + separator + name + 1 + value;
        proof {
            assert forall|query: Seq<u8>| query.len() == size implies (#[trigger] with_pairs(
                query,
                texts.take(i + 1),
            )).len() == exact by {
                assert(with_pairs(query, texts.take(i as int)).len() == total);
            }
        }
        let room: u128 = limit - total;
        if name > room || value > room || separator + name + 1 + value > room {
            proof {
                assert forall|query: Seq<u8>| query.len() == size implies (#[trigger] with_pairs(
                    query,
                    texts,
                )).len() > limit by {
                    lemma_prefix_is_shorter(query, texts, i + 1);
                    assert(with_pairs(query, texts.take(i + 1)).len() == exact);
                }
            }
            return None;
        }
        total = total + separator + name + 1 + value;
        i = i + 1;
    }
    proof {
        assert(texts.take(i as int) =~= texts);
    }
    Some(total)
}

/// Add pairs behind those in the query of a URL.
fn append_all(url: &mut Url, pairs: &Vec<(String, String)>)
    requires
        url_query(*old(url)) is Some,
        places_fit(
            url_frame(*old(url)),
            with_pairs(url_query(*old(url))->0, pair_texts(pairs@)).len(),
        ),
    ensures
        url_pairs(*final(url)) == url_pairs(*old(url)) + pair_texts(pairs@),
        url_query(*final(url)) == Some(
            with_pairs(url_query(*old(url))->0, pair_texts(pairs@)),
        ),
        url_frame(*final(url)) == url_frame(*old(url)),
{
    let ghost texts = pair_texts(pairs@);
    let ghost first = url_query(*url)->0;
    let mut i: usize = 0;
    proof {
        assert(texts.take(0) =~= Seq::empty());
    }
    while i < pairs.len()
        invariant
            i <= pairs.len(),
            texts == pair_texts(pairs@),
            first == url_query(*old(url))->0,
            places_fit(url_frame(*old(url)), with_pairs(first, texts).len()),
            url_pairs(*url) =~= url_pairs(*old(url)) + texts.take(i as int),
            url_query(*url) == Some(with_pairs(first, texts.take(i as int))),
            url_frame(*url) == url_frame(*old(url)),
        decreases pairs.len() - i,
    {
        proof {
            assert(texts.take(i + 1).drop_last() =~= texts.take(i as int));
            assert(texts.take(i + 1).last() == texts[i as int]);
            assert(texts.take(i + 1) =~= texts.take(i as int).push(texts[i as int]));
            lemma_prefix_is_shorter(first, texts, i + 1);
        }
        append_query(url, pairs[i].0.as_str(), pairs[i].1.as_str());
        i = i + 1;
    }
    proof {
        assert(texts.take(i as int) =~= texts);
    }
}

/// The places in the URL fit once the query is made of the pairs of two lists.
fn merged_fits(
    url: &Url,
    kept: &Vec<(String, String)>,
    own: &Vec<(String, String)>,
) -> (fits: bool)
    ensures
        fits == places_fit(
            url_frame(*url),
            query_text(pair_texts(kept@) + pair_texts(own@)).len(),
        ),
{
    let size: usize = url_size(url);
    let query: usize = match query_size(url) {
        Some(n) => n,
        None => 0,
    };
    let mark: usize = if query_size(url).is_some() {
        1
    } else {
        0
    };
    let fragment = fragment_size(url);
    let tail: usize = match fragment {
        Some(n) => n,
        None => 0,
    };
    let hash: usize = if fragment.is_some() {
        1
    } else {
        0
    };
    let before: usize = size - query - mark - tail - hash;
    assert(before == url_frame(*url).before.len());
    if before as u128 > u32::MAX as u128 {
        return false;
    }
    if fragment.is_none() {
        return true;
    }
    if before as u128 == u32::MAX as u128 {
        return false;
    }
    let limit: u128 = u32::MAX as u128 - before as u128 - 1;
    proof {
        lemma_pairs_in_two_parts(Seq::empty(), pair_texts(kept@), pair_texts(own@));
        lemma_pairs_only_add(query_text(pair_texts(kept@)), pair_texts(own@));
    }
    match grown_size(0, kept, limit) {
        None => {
            assert(query_text(pair_texts(kept@)).len() > limit);
            false
        },
        Some(grown) => {
            assert(query_text(pair_texts(kept@)).len() == grown);
            grown_size(grown, own, limit).is_some()
        },
    }
}

/// Put the query parameters of an identity on a URL. They come last and replace any the caller set
/// under the same name.
pub(crate) fn override_query(url: &mut Url, own: &Vec<(String, String)>) -> (applied: bool)
    requires
        own@.len() > 0,
    ensures
        applied == query_fits(pair_texts(own@), *old(url)),
        applied ==> query_applied(pair_texts(own@), *old(url), *final(url)),
        !applied ==> *final(url) == *old(url),
{
    let ghost query = pair_texts(own@);
    let ghost keeps = |pair: (Seq<char>, Seq<char>)| !is_overridden(query, pair.0);
    let ghost caller = url_pairs(*url);
    let pairs = query_pairs(url);
    let ghost list = pairs@;
    let mut kept: Vec<(String, String)> = Vec::new();
    proof {
        assert(caller.take(0) =~= Seq::empty());
        reveal(Seq::filter);
    }
    for pair in iter: pairs.into_iter()
        invariant
            iter.seq() == list,
            caller == pair_texts(list),
            query == pair_texts(own@),
            keeps == (|pair: (Seq<char>, Seq<char>)| !is_overridden(query, pair.0)),
            pair_texts(kept@) =~= caller.take(iter.index()).filter(keeps),
    {
        let ghost at = iter.index();
        let ghost before = kept@;
        proof {
            assert(caller.take(at + 1).drop_last() =~= caller.take(at));
            assert(caller.take(at + 1).last() == caller[at]);
            reveal(Seq::filter);
        }
        if !has_name(own, &pair.0) {
            kept.push(pair);
            proof {
                assert(pair_texts(kept@) =~= pair_texts(before).push(caller[at]));
            }
        }
    }
    proof {
        assert(caller.take(caller.len() as int) =~= caller);
    }
    if !merged_fits(url, &kept, own) {
        return false;
    }
    proof {
        lemma_pairs_in_two_parts(Seq::empty(), pair_texts(kept@), query);
        lemma_pairs_only_add(query_text(pair_texts(kept@)), query);
    }
    clear_query(url);
    append_all(url, &kept);
    append_all(url, own);
    proof {
        assert(url_pairs(*url) =~= merged_query(caller, query));
    }
    true
}

/// The first of some pairs take no more bytes than all of them.
proof fn lemma_prefix_is_shorter(query: Seq<u8>, pairs: Seq<(Seq<char>, Seq<char>)>, i: int)
    requires
        0 <= i <= pairs.len(),
    ensures
        with_pairs(query, pairs.take(i)).len() <= with_pairs(query, pairs).len(),
    decreases pairs.len() - i,
{
    if i == pairs.len() {
        assert(pairs.take(i) =~= pairs);
    } else {
        lemma_prefix_is_shorter(query, pairs, i + 1);
        assert(pairs.take(i + 1).drop_last() =~= pairs.take(i));
    }
}

/// Pairs behind a query do not make it shorter.
proof fn lemma_pairs_only_add(query: Seq<u8>, pairs: Seq<(Seq<char>, Seq<char>)>)
    ensures
        query.len() <= with_pairs(query, pairs).len(),
{
    lemma_prefix_is_shorter(query, pairs, 0);
    assert(pairs.take(0) =~= Seq::empty());
}

/// Pairs in two parts are written one part behind the other.
proof fn lemma_pairs_in_two_parts(
    query: Seq<u8>,
    front: Seq<(Seq<char>, Seq<char>)>,
    back: Seq<(Seq<char>, Seq<char>)>,
)
    ensures
        with_pairs(query, front + back) == with_pairs(with_pairs(query, front), back),
    decreases back.len(),
{
    if back.len() == 0 {
        assert(front + back =~= front);
    } else {
        lemma_pairs_in_two_parts(query, front, back.drop_last());
        assert((front + back).drop_last() =~= front + back.drop_last());
    }
}

/// A query parameter that the identity sets has the values of the identity and no others; one that
/// it does not set keeps the values that the caller set.
pub proof fn law_identity_query_wins(
    query: Seq<(Seq<char>, Seq<char>)>,
    before: Url,
    after: Url,
    name: Seq<char>,
)
    requires
        query_applied(query, before, after),
    ensures
        is_overridden(query, name) ==> values_named(url_pairs(after), name) == values_named(
            query,
            name,
        ),
        !is_overridden(query, name) ==> values_named(url_pairs(after), name) == values_named(
            url_pairs(before),
            name,
        ),
{
    if query.len() > 0 {
        let caller = url_pairs(before);
        let keeps = |pair: (Seq<char>, Seq<char>)| !is_overridden(query, pair.0);
        let named = |pair: (Seq<char>, Seq<char>)| pair.0 == name;
        Seq::filter_distributes_over_add(caller.filter(keeps), query, named);
        lemma_named_among_kept(caller, query, name);
        if !is_overridden(query, name) {
            lemma_none_named(query, name);
        }
    }
}

/// Filtering by a name what was kept leaves nothing of an overridden name and all of another.
proof fn lemma_named_among_kept(
    caller: Seq<(Seq<char>, Seq<char>)>,
    query: Seq<(Seq<char>, Seq<char>)>,
    name: Seq<char>,
)
    ensures
        ({
            let keeps = |pair: (Seq<char>, Seq<char>)| !is_overridden(query, pair.0);
            values_named(caller.filter(keeps), name) == if is_overridden(query, name) {
                Seq::empty()
            } else {
                values_named(caller, name)
            }
        }),
    decreases caller.len(),
{
    let keeps = |pair: (Seq<char>, Seq<char>)| !is_overridden(query, pair.0);
    let named = |pair: (Seq<char>, Seq<char>)| pair.0 == name;
    reveal(Seq::filter);
    if caller.len() > 0 {
        let front = caller.drop_last();
        lemma_named_among_kept(front, query, name);
        if keeps(caller.last()) {
            let kept = front.filter(keeps);
            assert(kept.push(caller.last()).drop_last() =~= kept);
        }
    }
}

/// Nothing of a name that does not occur.
proof fn lemma_none_named(pairs: Seq<(Seq<char>, Seq<char>)>, name: Seq<char>)
    requires
        !is_overridden(pairs, name),
    ensures
        values_named(pairs, name) == Seq::<(Seq<char>, Seq<char>)>::empty(),
    decreases pairs.len(),
{
    reveal(Seq::filter);
    if pairs.len() > 0 {
        let front = pairs.drop_last();
        assert(pairs[pairs.len() - 1].0 != name);
        assert forall|i: int| 0 <= i < front.len() implies (#[trigger] front[i]).0 != name by {
            assert(pairs[i].0 != name);
        }
        lemma_none_named(front, name);
    }
}

/// The parameters that are set later override those that were set before: if all names of the first
/// identity are names of the second, the URL is the same as with the second alone.
pub proof fn law_later_query_overrides(
    first: Seq<(Seq<char>, Seq<char>)>,
    second: Seq<(Seq<char>, Seq<char>)>,
    before: Url,
    between: Url,
    both: Url,
    alone: Url,
)
    requires
        forall|i: int| 0 <= i < first.len() ==> is_overridden(second, (#[trigger] first[i]).0),
        query_applied(first, before, between),
        query_applied(second, between, both),
        query_applied(second, before, alone),
    ensures
        url_pairs(both) == url_pairs(alone),
        url_text(both) == url_text(alone),
{
    if first.len() > 0 {
        assert(is_overridden(second, first[0].0));
        let caller = url_pairs(before);
        let keeps = |pair: (Seq<char>, Seq<char>)| !is_overridden(second, pair.0);
        let keeps_first = |pair: (Seq<char>, Seq<char>)| !is_overridden(first, pair.0);
        Seq::filter_distributes_over_add(caller.filter(keeps_first), first, keeps);
        lemma_kept_of_kept(caller, first, second);
        lemma_all_overridden(first, second);
        assert(caller.filter(keeps) + Seq::empty() =~= caller.filter(keeps));
    }
}

/// Keeping less afterwards is as good as keeping less at once.
proof fn lemma_kept_of_kept(
    caller: Seq<(Seq<char>, Seq<char>)>,
    first: Seq<(Seq<char>, Seq<char>)>,
    second: Seq<(Seq<char>, Seq<char>)>,
)
    requires
        forall|i: int| 0 <= i < first.len() ==> is_overridden(second, (#[trigger] first[i]).0),
    ensures
        ({
            let keeps = |pair: (Seq<char>, Seq<char>)| !is_overridden(second, pair.0);
            let keeps_first = |pair: (Seq<char>, Seq<char>)| !is_overridden(first, pair.0);
            caller.filter(keeps_first).filter(keeps) == caller.filter(keeps)
        }),
    decreases caller.len(),
{
    let keeps = |pair: (Seq<char>, Seq<char>)| !is_overridden(second, pair.0);
    let keeps_first = |pair: (Seq<char>, Seq<char>)| !is_overridden(first, pair.0);
    reveal(Seq::filter);
    if caller.len() > 0 {
        let front = caller.drop_last();
        lemma_kept_of_kept(front, first, second);
        if keeps_first(caller.last()) {
            let kept = front.filter(keeps_first);
            assert(kept.push(caller.last()).drop_last() =~= kept);
        }
    }
}

/// Nothing is kept of parameters whose names are all overridden.
proof fn lemma_all_overridden(
    pairs: Seq<(Seq<char>, Seq<char>)>,
    query: Seq<(Seq<char>, Seq<char>)>,
)
    requires
        forall|i: int| 0 <= i < pairs.len() ==> is_overridden(query, (#[trigger] pairs[i]).0),
    ensures
        ({
            let keeps = |pair: (Seq<char>, Seq<char>)| !is_overridden(query, pair.0);
            pairs.filter(keeps) == Seq::<(Seq<char>, Seq<char>)>::empty()
        }),
    decreases pairs.len(),
{
    reveal(Seq::filter);
    if pairs.len() > 0 {
        let front = pairs.drop_last();
        assert(is_overridden(query, pairs[pairs.len() - 1].0));
        assert forall|i: int| 0 <= i < front.len() implies is_overridden(
            query,
            (#[trigger] front[i]).0,
        ) by {
            assert(is_overridden(query, pairs[i].0));
        }
        lemma_all_overridden(front, query);
    }
}

/// A parameter of the caller is dropped only if its name is exactly that of one of the identity's; all
/// others stay, in order, and the identity's own come behind them, in order. Nothing else of the URL
/// changes, and nothing at all without parameters.
pub proof fn law_only_the_same_names_are_replaced(
    query: Seq<(Seq<char>, Seq<char>)>,
    before: Url,
    after: Url,
)
    requires
        query_applied(query, before, after),
    ensures
        query.len() == 0 ==> after == before,
        url_pairs(after) == url_pairs(before).filter(
            |pair: (Seq<char>, Seq<char>)|
                forall|i: int| 0 <= i < query.len() ==> (#[trigger] query[i]).0 != pair.0,
        ) + query,
        url_frame(after) == url_frame(before),
{
    let keeps = |pair: (Seq<char>, Seq<char>)| !is_overridden(query, pair.0);
    let other = |pair: (Seq<char>, Seq<char>)|
        forall|i: int| 0 <= i < query.len() ==> (#[trigger] query[i]).0 != pair.0;
    assert forall|pair: (Seq<char>, Seq<char>)| #[trigger] keeps(pair) == other(pair) by {
        if other(pair) {
            assert(!is_overridden(query, pair.0));
        }
    }
    lemma_filters_alike(url_pairs(before), keeps, other);
    if query.len() == 0 {
        lemma_nothing_is_filtered(url_pairs(before), other);
        assert(url_pairs(before) + query =~= url_pairs(before));
    }
}

/// Conditions that agree filter alike.
proof fn lemma_filters_alike(
    pairs: Seq<(Seq<char>, Seq<char>)>,
    a: spec_fn((Seq<char>, Seq<char>)) -> bool,
    b: spec_fn((Seq<char>, Seq<char>)) -> bool,
)
    requires
        forall|pair: (Seq<char>, Seq<char>)| #[trigger] a(pair) == b(pair),
    ensures
        pairs.filter(a) == pairs.filter(b),
    decreases pairs.len(),
{
    reveal(Seq::filter);
    if pairs.len() > 0 {
        lemma_filters_alike(pairs.drop_last(), a, b);
        assert(a(pairs.last()) == b(pairs.last()));
    }
}

/// A condition that always holds filters nothing.
proof fn lemma_nothing_is_filtered(
    pairs: Seq<(Seq<char>, Seq<char>)>,
    condition: spec_fn((Seq<char>, Seq<char>)) -> bool,
)
    requires
        forall|pair: (Seq<char>, Seq<char>)| #[trigger] condition(pair),
    ensures
        pairs.filter(condition) == pairs,
    decreases pairs.len(),
{
    reveal(Seq::filter);
    if pairs.len() > 0 {
        lemma_nothing_is_filtered(pairs.drop_last(), condition);
        assert(condition(pairs.last()));
        assert(pairs.drop_last().push(pairs.last()) =~= pairs);
    } else {
        assert(pairs.filter(condition) =~= pairs);
    }
}

/// The pairs of a name that is not the name of one of the identity's parameters are those that the
/// caller had, in order; the pairs of any other name are those of the identity, in order.
pub proof fn law_other_names_keep_their_pairs(
    query: Seq<(Seq<char>, Seq<char>)>,
    before: Url,
    after: Url,
    name: Seq<char>,
    of_that_name: spec_fn((Seq<char>, Seq<char>)) -> bool,
)
    requires
        query_applied(query, before, after),
        forall|pair: (Seq<char>, Seq<char>)| #[trigger] of_that_name(pair) <==> pair.0 == name,
    ensures
        (forall|i: int| 0 <= i < query.len() ==> (#[trigger] query[i]).0 != name) ==> url_pairs(
            after,
        ).filter(of_that_name) == url_pairs(before).filter(of_that_name),
        (exists|i: int| 0 <= i < query.len() && (#[trigger] query[i]).0 == name) ==> url_pairs(
            after,
        ).filter(of_that_name) == query.filter(of_that_name),
{
    law_identity_query_wins(query, before, after, name);
    if exists|i: int| 0 <= i < query.len() && (#[trigger] query[i]).0 == name {
        assert(is_overridden(query, name));
    } else {
        assert(!is_overridden(query, name));
    }
    lemma_values_named(url_pairs(after), name, of_that_name);
    lemma_values_named(url_pairs(before), name, of_that_name);
    lemma_values_named(query, name, of_that_name);
}

/// The values under a name are the pairs of that name.
proof fn lemma_values_named(
    pairs: Seq<(Seq<char>, Seq<char>)>,
    name: Seq<char>,
    of_that_name: spec_fn((Seq<char>, Seq<char>)) -> bool,
)
    requires
        forall|pair: (Seq<char>, Seq<char>)| #[trigger] of_that_name(pair) <==> pair.0 == name,
    ensures
        values_named(pairs, name) == pairs.filter(of_that_name),
    decreases pairs.len(),
{
    reveal(Seq::filter);
    if pairs.len() > 0 {
        lemma_values_named(pairs.drop_last(), name, of_that_name);
        assert(of_that_name(pairs.last()) <==> pairs.last().0 == name);
    }
}

/// The query is written pair by pair, each behind those before it.
pub proof fn law_query_is_written_pair_by_pair(
    pairs: Seq<(Seq<char>, Seq<char>)>,
    name: Seq<char>,
    value: Seq<char>,
)
    ensures
        query_text(Seq::<(Seq<char>, Seq<char>)>::empty()) == Seq::<u8>::empty(),
        pairs.len() == 0 ==> query_text(pairs.push((name, value))) == encoded(
            encode_utf8(name),
        ).push(61) + encoded(encode_utf8(value)),
        pairs.len() > 0 ==> query_text(pairs.push((name, value))) == query_text(pairs).push(38)
            + encoded(encode_utf8(name)).push(61) + encoded(encode_utf8(value)),
{
    assert(pairs.push((name, value)).drop_last() =~= pairs);
    law_pairs_are_written_like_a_form(query_text(pairs), name, value);
    if pairs.len() > 0 {
        assert(query_text(pairs).len() > 0);
    } else {
        assert(pairs =~= Seq::empty());
    }
}

/// The URL with the parameters of the identity has the query that its pairs write.
pub proof fn law_query_is_written_anew(
    query: Seq<(Seq<char>, Seq<char>)>,
    before: Url,
    after: Url,
)
    requires
        query_applied(query, before, after),
        query.len() > 0,
    ensures
        url_query(after) == Some(query_text(url_pairs(after))),
{
}

/// The parameters fit exactly if the places at which the query and the fragment start fit in 32 bits.
pub proof fn law_places_must_fit_in_32_bits(query: Seq<(Seq<char>, Seq<char>)>, url: Url)
    ensures
        query.len() == 0 ==> query_fits(query, url),
        query.len() > 0 ==> query_fits(query, url) == {
            let pairs = url_pairs(url).filter(
                |pair: (Seq<char>, Seq<char>)|
                    forall|i: int| 0 <= i < query.len() ==> (#[trigger] query[i]).0 != pair.0,
            ) + query;
            &&& url_frame(url).before.len() <= 4_294_967_295
            &&& url_frame(url).fragment is Some ==> url_frame(url).before.len() + 1 + query_text(
                pairs,
            ).len() <= 4_294_967_295
        },
{
    let keeps = |pair: (Seq<char>, Seq<char>)| !is_overridden(query, pair.0);
    let other = |pair: (Seq<char>, Seq<char>)|
        forall|i: int| 0 <= i < query.len() ==> (#[trigger] query[i]).0 != pair.0;
    assert forall|pair: (Seq<char>, Seq<char>)| #[trigger] keeps(pair) == other(pair) by {
        if other(pair) {
            assert(!is_overridden(query, pair.0));
        }
    }
    lemma_filters_alike(url_pairs(url), keeps, other);
}

} // verus!
