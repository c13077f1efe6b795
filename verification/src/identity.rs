//! Identities: the credential a request is sent under.

use http::header::{HeaderMap, HeaderName, HeaderValue};
use reqwest::{Proxy, Request};

use vstd::prelude::*;
use vstd::utf8::encode_utf8;

use crate::headers::{
    all_sensitive, append_header, appended, copy_headers, full_error, grouped, has_room,
    header_entries, header_field, header_name_text, header_names, header_order, header_pairs,
    headers_are_empty, is_header_name, is_header_value, lower_text, name_error, name_texts, named,
    new_headers, pair_contents, parse_name, parse_value, remove_header, value_error, values_under,
    Entries, Field,
};
use crate::query::{
    is_overridden, law_later_query_overrides, law_only_the_same_names_are_replaced,
    override_query, pair_names, query_applied, query_fits,
};
use crate::request::{
    pair_texts, request_headers, request_replayable, request_rest, request_url, url_frame,
    url_pairs, url_text,
};

verus! {

/// A proxy that requests are routed through.
#[verifier::external_type_specification]
#[verifier::external_body]
pub struct ExProxy(reqwest::Proxy);

/// `Proxy::clone`: the same proxy once more.
pub assume_specification[ <Proxy as Clone>::clone ](proxy: &Proxy) -> (copy: Proxy)
    ensures
        copy == *proxy,
;

/// Error from [`IdentityBuilder::build`].
#[derive(Debug)]
pub enum IdentityError {
    /// No header, query parameter, proxy, or stamp was set.
    Empty,
    /// A header name or value was invalid.
    Header(http::Error),
}

/// Error from [`Identity::apply`]: the request cannot hold what the identity adds to it.
#[derive(Debug, Clone, Copy, PartialEq, Eq)]
pub enum ApplyError {
    /// The headers of the request cannot grow any more.
    HeadersFull,
    /// The URL of the request would grow too long.
    UrlTooLong,
}

/// One credential: everything applied to every request sent under it.
///
/// Headers, query parameters, a proxy, a stamp hook, or any combination.
/// Build one with [`Identity::builder`].
pub struct Identity<S> {
    headers: HeaderMap,
    query: Vec<(String, String)>,
    proxy: Option<Proxy>,
    stamp: Option<S>,
}

/// Builder for [`Identity`]. Every field starts empty.
pub struct IdentityBuilder<S> {
    headers: HeaderMap,
    query: Vec<(String, String)>,
    proxy: Option<Proxy>,
    stamp: Option<S>,
    error: Option<http::Error>,
}

/// A call that adds to a builder. A header comes as it was parsed: its name and the bytes of its
/// value, or the error of either.
pub enum BuilderCall<S> {
    AddHeader { name: Result<Seq<char>, http::Error>, value: Result<Seq<u8>, http::Error> },
    AddQuery { key: Seq<char>, content: Seq<char> },
    SetProxy { proxy: Proxy },
    SetStamp { stamp: S },
}

/// The header name that a text is, in lower case, or the error if it is none.
pub open spec fn parsed_name(text: Seq<char>) -> Result<Seq<char>, http::Error> {
    if is_header_name(text) {
        Ok(lower_text(text))
    } else {
        Err(name_error(text))
    }
}

/// The bytes of the header value that a text is, or the error if it is none.
pub open spec fn parsed_value(text: Seq<char>) -> Result<Seq<u8>, http::Error> {
    if is_header_value(text) {
        Ok(encode_utf8(text))
    } else {
        Err(value_error(text))
    }
}

/// What may be shown of an identity: the names of its headers and of its query parameters, and
/// whether it has a proxy and a hook. Values never reach logs.
#[derive(Debug, PartialEq, Eq)]
pub struct IdentitySummary {
    pub headers: Vec<String>,
    pub query: Vec<String>,
    pub proxy: bool,
    pub stamp: bool,
}

/// What a summary shows: the header names and the names of the query parameters in order, and
/// whether there are a proxy and a hook.
#[verifier::ext_equal]
pub struct Shown {
    pub headers: Seq<Seq<char>>,
    pub query: Seq<Seq<char>>,
    pub proxy: bool,
    pub stamp: bool,
}

impl View for IdentitySummary {
    type V = Shown;

    open spec fn view(&self) -> Shown {
        Shown {
            headers: texts(self.headers@),
            query: texts(self.query@),
            proxy: self.proxy,
            stamp: self.stamp,
        }
    }
}

/// What the strings in a list are.
pub open spec fn texts(strings: Seq<String>) -> Seq<Seq<char>> {
    Seq::new(strings.len(), |i: int| strings[i]@)
}

/// `after` is the request `before` with the headers and query parameters of an identity: they
/// replace what the caller set under the same names, and all else is as it was.
pub open spec fn fields_applied(
    headers: Entries,
    query: Seq<(Seq<char>, Seq<char>)>,
    before: Request,
    after: Request,
) -> bool {
    &&& header_entries(request_headers(after)) == header_entries(
        request_headers(before),
    ).union_prefer_right(headers)
    &&& query_applied(query, request_url(before), request_url(after))
    &&& request_rest(after) == request_rest(before)
    &&& request_replayable(after) == request_replayable(before)
}

/// The request can hold the headers of an identity besides its own.
pub open spec fn headers_fit(headers: Entries, request: Request) -> bool {
    has_room(header_entries(request_headers(request)).union_prefer_right(headers))
}

impl<S> Identity<S> {
    /// Every header value is marked as sensitive.
    #[verifier::type_invariant]
    spec fn secrets_are_marked(self) -> bool {
        all_sensitive(header_entries(self.headers))
    }

    /// The headers that every request gets.
    pub closed spec fn header_entries(&self) -> Entries {
        header_entries(self.headers)
    }

    /// The names of these headers, each once, in the order in which they are shown.
    pub closed spec fn header_names(&self) -> Seq<Seq<char>> {
        header_order(self.headers)
    }

    /// What may be shown of this identity.
    pub open spec fn shown(&self) -> Shown {
        Shown {
            headers: self.header_names(),
            query: pair_names(self.query_pairs()),
            proxy: self.proxy_set() is Some,
            stamp: self.stamp_set() is Some,
        }
    }

    /// The query parameters that every request gets.
    pub closed spec fn query_pairs(&self) -> Seq<(Seq<char>, Seq<char>)> {
        pair_texts(self.query@)
    }

    /// The proxy that every request is routed through.
    pub closed spec fn proxy_set(&self) -> Option<Proxy> {
        self.proxy
    }

    /// The hook that runs on every request.
    pub closed spec fn stamp_set(&self) -> Option<S> {
        self.stamp
    }

    /// Start an identity with nothing set.
    pub fn builder() -> (builder: IdentityBuilder<S>)
        ensures
            builder.is_fresh(),
            builder.header_entries() == Entries::empty(),
            builder.header_names() == Seq::<Seq<char>>::empty(),
            builder.query_pairs() == Seq::<(Seq<char>, Seq<char>)>::empty(),
            builder.proxy_set() is None,
            builder.stamp_set() is None,
            builder.error_set() is None,
            all_sensitive(builder.header_entries()),
    {
        let builder = IdentityBuilder {
            headers: new_headers(),
            query: Vec::new(),
            proxy: None,
            stamp: None,
            error: None,
        };
        proof {
            assert(builder.query_pairs() =~= Seq::<(Seq<char>, Seq<char>)>::empty());
        }
        builder
    }

    /// The proxy every request under this identity routes through, if any.
    pub fn proxy(&self) -> (proxy: Option<&Proxy>)
        ensures
            match proxy {
                Some(p) => self.proxy_set() == Some(*p),
                None => self.proxy_set() is None,
            },
    {
        self.proxy.as_ref()
    }

    /// What may be shown of this identity: names only.
    pub fn summary(&self) -> (summary: IdentitySummary)
        ensures
            summary@ == self.shown(),
            summary.headers@.len() == self.header_names().len(),
            forall|i: int|
                0 <= i < summary.headers@.len() ==> #[trigger] summary.headers@[i]@
                    == self.header_names()[i],
            summary.query@.len() == self.query_pairs().len(),
            forall|i: int|
                0 <= i < summary.query@.len() ==> #[trigger] summary.query@[i]@
                    == self.query_pairs()[i].0,
            summary.proxy == (self.proxy_set() is Some),
            summary.stamp == (self.stamp_set() is Some),
            summary@.headers.no_duplicates(),
            summary@.headers.to_set() == self.header_entries().dom(),
    {
        summarize(&self.headers, &self.query, self.proxy.is_some(), self.stamp.is_some())
    }

    /// Put the headers of this identity on a request. They replace any the caller set under the
    /// same name.
    fn apply_headers(&self, headers: &mut HeaderMap) -> (applied: Result<(), ApplyError>)
        ensures
            applied is Ok ==> header_entries(*final(headers)) == header_entries(
                *old(headers),
            ).union_prefer_right(self.header_entries()),
            applied is Err ==> !has_room(
                header_entries(*old(headers)).union_prefer_right(self.header_entries()),
            ),
            applied matches Err(e) ==> e is HeadersFull,
    {
        let ghost caller = header_entries(*headers);
        let ghost own = header_entries(self.headers);
        let names = header_names(&self.headers);
        let ghost texts = name_texts(names@);
        let mut i: usize = 0;
        while i < names.len()
            invariant
                i <= names.len(),
                texts == name_texts(names@),
                caller == header_entries(*old(headers)),
                header_entries(*headers) =~= caller.remove_keys(texts.take(i as int).to_set()),
            decreases names.len() - i,
        {
            remove_header(headers, &names[i]);
            proof {
                assert(texts.take(i + 1) =~= texts.take(i as int).push(texts[i as int]));
                assert(texts.take(i + 1).to_set() =~= texts.take(i as int).to_set().insert(
                    texts[i as int],
                )) by {
                    broadcast use vstd::seq_lib::group_seq_properties;
                };
            }
            i = i + 1;
        }
        let ghost kept = header_entries(*headers);
        let pairs = header_pairs(&self.headers);
        let ghost list = pairs@;
        let ghost contents = pair_contents(list);
        let ghost full = caller.union_prefer_right(own);
        proof {
            assert(texts.take(i as int) =~= texts);
            assert(contents.take(0) =~= Seq::empty());
            assert(kept.union_prefer_right(grouped(contents.take(0))) =~= kept);
        }
        for pair in iter: pairs.into_iter()
            invariant
                iter.seq() == list,
                contents == pair_contents(list),
                caller == header_entries(*old(headers)),
                own == self.header_entries(),
                own == grouped(contents),
                full == caller.union_prefer_right(own),
                kept =~= caller.remove_keys(own.dom()),
                header_entries(*headers) == kept.union_prefer_right(
                    grouped(contents.take(iter.index())),
                ),
        {
            let ghost at = iter.index();
            proof {
                lemma_grouped_prefix(contents, at);
                lemma_grouped_prefix(contents, at + 1);
                assert(contents.take(at + 1).drop_last() =~= contents.take(at));
                assert(contents.take(at + 1).last() == contents[at]);
                let name = contents[at].0;
                assert(grouped(contents.take(at + 1)).contains_key(name));
                assert(own.contains_key(name));
                assert(appended(header_entries(*headers), name, contents[at].1)
                    =~= kept.union_prefer_right(grouped(contents.take(at + 1))));
                if has_room(full) {
                    assert(header_entries(*headers).dom().subset_of(full.dom()));
                    vstd::set_lib::lemma_len_subset(header_entries(*headers).dom(), full.dom());
                }
            }
            match append_header(headers, pair.0, pair.1) {
                Ok(_) => {},
                Err(_) => {
                    return Err(ApplyError::HeadersFull);
                },
            }
        }
        proof {
            assert(contents.take(contents.len() as int) =~= contents);
            assert(kept.union_prefer_right(own) =~= full);
        }
        Ok(())
    }

}

impl<S: Clone> Clone for Identity<S> {
    fn clone(&self) -> (copy: Self)
        ensures
            copy.header_entries() == self.header_entries(),
            copy.header_names() == self.header_names(),
            copy.query_pairs() == self.query_pairs(),
            copy.proxy_set() == self.proxy_set(),
            match self.stamp_set() {
                Some(stamp) => copy.stamp_set() matches Some(hook) && cloned(stamp, hook),
                None => copy.stamp_set() is None,
            },
    {
        proof {
            use_type_invariant(self);
        }
        let mut query: Vec<(String, String)> = Vec::new();
        let mut i: usize = 0;
        while i < self.query.len()
            invariant
                i <= self.query.len(),
                pair_texts(query@) =~= pair_texts(self.query@).take(i as int),
            decreases self.query.len() - i,
        {
            let ghost copied = pair_texts(query@);
            query.push((self.query[i].0.clone(), self.query[i].1.clone()));
            proof {
                assert(pair_texts(query@) =~= copied.push(pair_texts(self.query@)[i as int]));
            }
            i = i + 1;
        }
        let proxy = match &self.proxy {
            Some(proxy) => Some(proxy.clone()),
            None => None,
        };
        let stamp = match &self.stamp {
            Some(stamp) => Some(stamp.clone()),
            None => None,
        };
        Identity { headers: copy_headers(&self.headers), query, proxy, stamp }
    }
}

impl<S> IdentityBuilder<S> {
    /// Every header value is marked as sensitive.
    #[verifier::type_invariant]
    spec fn secrets_are_marked(self) -> bool {
        all_sensitive(header_entries(self.headers))
    }

    /// The headers that were added.
    pub closed spec fn header_entries(&self) -> Entries {
        header_entries(self.headers)
    }

    /// The names of these headers, each once, in the order in which they were added first.
    pub closed spec fn header_names(&self) -> Seq<Seq<char>> {
        header_order(self.headers)
    }

    /// What may be shown of this builder.
    pub open spec fn shown(&self) -> Shown {
        Shown {
            headers: self.header_names(),
            query: pair_names(self.query_pairs()),
            proxy: self.proxy_set() is Some,
            stamp: self.stamp_set() is Some,
        }
    }

    /// The query parameters that were added.
    pub closed spec fn query_pairs(&self) -> Seq<(Seq<char>, Seq<char>)> {
        pair_texts(self.query@)
    }

    /// The proxy that was set.
    pub closed spec fn proxy_set(&self) -> Option<Proxy> {
        self.proxy
    }

    /// The hook that was set.
    pub closed spec fn stamp_set(&self) -> Option<S> {
        self.stamp
    }

    /// The first invalid header.
    pub closed spec fn error_set(&self) -> Option<http::Error> {
        self.error
    }

    /// Nothing is set.
    pub open spec fn is_fresh(&self) -> bool {
        &&& self.header_entries() == Entries::empty()
        &&& self.header_names() == Seq::<Seq<char>>::empty()
        &&& self.query_pairs() == Seq::<(Seq<char>, Seq<char>)>::empty()
        &&& self.proxy_set() is None
        &&& self.stamp_set() is None
        &&& self.error_set() is None
    }

    /// The headers are the same.
    pub open spec fn keeps_headers(&self, after: &Self) -> bool {
        &&& after.header_entries() == self.header_entries()
        &&& after.header_names() == self.header_names()
    }

    /// `after` is this builder once the call was made.
    ///
    /// A header is added behind the others, and its value is marked as sensitive. The first error
    /// is kept, that of the name before that of the value, and nothing is added any more. A header
    /// map that cannot grow any more is an error too.
    pub open spec fn became(&self, call: BuilderCall<S>, after: &Self) -> bool {
        match call {
            BuilderCall::AddHeader { name, value } => {
                &&& after.query_pairs() == self.query_pairs()
                &&& after.proxy_set() == self.proxy_set()
                &&& after.stamp_set() == self.stamp_set()
                &&& if self.error_set() is Some {
                    after.error_set() == self.error_set() && self.keeps_headers(after)
                } else {
                    match (name, value) {
                        (Ok(n), Ok(v)) => {
                            &&& has_room(self.header_entries()) ==> after.error_set() is None
                            &&& after.error_set() is None ==> {
                                &&& after.header_entries() == appended(
                                    self.header_entries(),
                                    n,
                                    Field { bytes: v, sensitive: true },
                                )
                                &&& after.header_names() == named(self.header_names(), n)
                            }
                            &&& after.error_set() is Some ==> self.keeps_headers(after)
                        },
                        (Err(e), _) => after.error_set() == Some(e) && self.keeps_headers(after),
                        (_, Err(e)) => after.error_set() == Some(e) && self.keeps_headers(after),
                    }
                }
            },
            BuilderCall::AddQuery { key, content } => {
                &&& after.query_pairs() == self.query_pairs().push((key, content))
                &&& after.proxy_set() == self.proxy_set()
                &&& after.stamp_set() == self.stamp_set()
                &&& after.error_set() == self.error_set()
                &&& self.keeps_headers(after)
            },
            BuilderCall::SetProxy { proxy } => {
                &&& after.query_pairs() == self.query_pairs()
                &&& after.proxy_set() == Some(proxy)
                &&& after.stamp_set() == self.stamp_set()
                &&& after.error_set() == self.error_set()
                &&& self.keeps_headers(after)
            },
            BuilderCall::SetStamp { stamp } => {
                &&& after.query_pairs() == self.query_pairs()
                &&& after.proxy_set() == self.proxy_set()
                &&& after.stamp_set() == Some(stamp)
                &&& after.error_set() == self.error_set()
                &&& self.keeps_headers(after)
            },
        }
    }

    /// `result` is what becomes of this builder in the end: the error if there is one, else an
    /// error if nothing is set, else an identity of all that was set.
    pub open spec fn finishes(&self, result: Result<Identity<S>, IdentityError>) -> bool {
        match result {
            Err(IdentityError::Header(e)) => self.error_set() == Some(e),
            Err(IdentityError::Empty) => {
                &&& self.error_set() is None
                &&& self.header_entries().dom() == Set::<Seq<char>>::empty()
                &&& self.query_pairs().len() == 0
                &&& self.proxy_set() is None
                &&& self.stamp_set() is None
            },
            Ok(built) => {
                &&& self.error_set() is None
                &&& {
                    ||| self.header_entries().dom() != Set::<Seq<char>>::empty()
                    ||| self.query_pairs().len() > 0
                    ||| self.proxy_set() is Some
                    ||| self.stamp_set() is Some
                }
                &&& built.header_entries() == self.header_entries()
                &&& built.header_names() == self.header_names()
                &&& built.query_pairs() == self.query_pairs()
                &&& built.proxy_set() == self.proxy_set()
                &&& built.stamp_set() == self.stamp_set()
            },
        }
    }

    /// Add a header sent with every request. Repeatable. Its value is marked as sensitive, so that
    /// it never reaches logs.
    ///
    /// An invalid name or value is reported by [`build`](Self::build).
    pub fn header(self, name: &str, value: &str) -> (builder: Self)
        ensures
            self.became(
                BuilderCall::AddHeader { name: parsed_name(name@), value: parsed_value(value@) },
                &builder,
            ),
            self.error_set() is Some ==> builder == self,
            all_sensitive(builder.header_entries()),
    {
        proof {
            use_type_invariant(&self);
        }
        if self.error.is_some() {
            return self;
        }
        self.parsed_header(parse_name(name), parse_value(value))
    }

    /// Add a header whose name and value were parsed, or the error of the name, or else that of the
    /// value. Once there is an error nothing is added any more.
    ///
    /// Adding to a header map that cannot grow any more is an error too.
    pub fn parsed_header(
        self,
        name: Result<HeaderName, http::Error>,
        value: Result<HeaderValue, http::Error>,
    ) -> (builder: Self)
        ensures
            self.became(
                BuilderCall::AddHeader {
                    name: match name {
                        Ok(n) => Ok(header_name_text(n)),
                        Err(e) => Err(e),
                    },
                    value: match value {
                        Ok(v) => Ok(header_field(v).bytes),
                        Err(e) => Err(e),
                    },
                },
                &builder,
            ),
            self.error_set() is Some ==> builder == self,
            all_sensitive(builder.header_entries()),
    {
        proof {
            use_type_invariant(&self);
        }
        if self.error.is_some() {
            return self;
        }
        let mut headers = self.headers;
        let mut error: Option<http::Error> = None;
        match (name, value) {
            (Ok(n), Ok(v)) => {
                let mut secret = v;
                secret.set_sensitive(true);
                match append_header(&mut headers, n, secret) {
                    Ok(_) => {},
                    Err(full) => {
                        error = Some(full_error(full));
                    },
                }
            },
            (Err(e), _) => {
                error = Some(e);
            },
            (_, Err(e)) => {
                error = Some(e);
            },
        }
        IdentityBuilder { headers, query: self.query, proxy: self.proxy, stamp: self.stamp, error }
    }

    /// Add a query parameter appended to every request URL. Repeatable.
    pub fn query(self, name: &str, value: &str) -> (builder: Self)
        ensures
            self.became(BuilderCall::AddQuery { key: name@, content: value@ }, &builder),
            builder.header_names() == self.header_names(),
            builder.query_pairs() == self.query_pairs().push((name@, value@)),
            builder.header_entries() == self.header_entries(),
            builder.proxy_set() == self.proxy_set(),
            builder.stamp_set() == self.stamp_set(),
            builder.error_set() == self.error_set(),
            all_sensitive(builder.header_entries()),
    {
        proof {
            use_type_invariant(&self);
        }
        let mut query = self.query;
        query.push((name.to_owned(), value.to_owned()));
        proof {
            assert(pair_texts(query@) =~= self.query_pairs().push((name@, value@)));
        }
        IdentityBuilder {
            headers: self.headers,
            query,
            proxy: self.proxy,
            stamp: self.stamp,
            error: self.error,
        }
    }

    /// Route every request through this proxy.
    pub fn proxy(self, proxy: Proxy) -> (builder: Self)
        ensures
            self.became(BuilderCall::SetProxy { proxy }, &builder),
            builder.header_names() == self.header_names(),
            builder.proxy_set() == Some(proxy),
            builder.header_entries() == self.header_entries(),
            builder.query_pairs() == self.query_pairs(),
            builder.stamp_set() == self.stamp_set(),
            builder.error_set() == self.error_set(),
            all_sensitive(builder.header_entries()),
    {
        proof {
            use_type_invariant(&self);
        }
        IdentityBuilder {
            headers: self.headers,
            query: self.query,
            proxy: Some(proxy),
            stamp: self.stamp,
            error: self.error,
        }
    }

    /// Run a hook on every request after headers and query are applied.
    /// Use it for keys in the path, the body, or a request signature.
    pub fn stamp(self, stamp: S) -> (builder: Self)
        ensures
            self.became(BuilderCall::SetStamp { stamp }, &builder),
            builder.header_names() == self.header_names(),
            builder.stamp_set() == Some(stamp),
            builder.header_entries() == self.header_entries(),
            builder.query_pairs() == self.query_pairs(),
            builder.proxy_set() == self.proxy_set(),
            builder.error_set() == self.error_set(),
            all_sensitive(builder.header_entries()),
    {
        proof {
            use_type_invariant(&self);
        }
        IdentityBuilder {
            headers: self.headers,
            query: self.query,
            proxy: self.proxy,
            stamp: Some(stamp),
            error: self.error,
        }
    }

    /// Finish the identity. Fails if nothing was set or a header was invalid.
    pub fn build(self) -> (identity: Result<Identity<S>, IdentityError>)
        ensures
            self.finishes(identity),
            match identity {
                Err(IdentityError::Header(e)) => self.error_set() == Some(e),
                Err(IdentityError::Empty) => {
                    &&& self.error_set() is None
                    &&& forall|name: Seq<char>| !#[trigger] self.header_entries().contains_key(name)
                    &&& self.query_pairs().len() == 0
                    &&& self.proxy_set() is None
                    &&& self.stamp_set() is None
                },
                Ok(built) => {
                    &&& self.error_set() is None
                    &&& {
                        ||| exists|name: Seq<char>| #[trigger]
                            self.header_entries().contains_key(name)
                        ||| self.query_pairs().len() > 0
                        ||| self.proxy_set() is Some
                        ||| self.stamp_set() is Some
                    }
                    &&& built.header_entries() == self.header_entries()
                    &&& built.header_names() == self.header_names()
                    &&& built.query_pairs() == self.query_pairs()
                    &&& built.proxy_set() == self.proxy_set()
                    &&& built.stamp_set() == self.stamp_set()
                },
            },
            identity matches Ok(built) ==> all_sensitive(built.header_entries()),
    {
        proof {
            use_type_invariant(&self);
        }
        let empty = headers_are_empty(&self.headers) && self.query.len() == 0
            && self.proxy.is_none() && self.stamp.is_none();
        if let Some(e) = self.error {
            return Err(IdentityError::Header(e));
        }
        if empty {
            return Err(IdentityError::Empty);
        }
        proof {
            lemma_some_name(header_entries(self.headers));
        }
        Ok(
            Identity {
                headers: self.headers,
                query: self.query,
                proxy: self.proxy,
                stamp: self.stamp,
            },
        )
    }

    /// What may be shown of this builder: names only.
    pub fn summary(&self) -> (summary: IdentitySummary)
        ensures
            summary@ == self.shown(),
            summary.headers@.len() == self.header_names().len(),
            forall|i: int|
                0 <= i < summary.headers@.len() ==> #[trigger] summary.headers@[i]@
                    == self.header_names()[i],
            summary.query@.len() == self.query_pairs().len(),
            forall|i: int|
                0 <= i < summary.query@.len() ==> #[trigger] summary.query@[i]@
                    == self.query_pairs()[i].0,
            summary.proxy == (self.proxy_set() is Some),
            summary.stamp == (self.stamp_set() is Some),
            summary@.headers.no_duplicates(),
            summary@.headers.to_set() == self.header_entries().dom(),
    {
        summarize(&self.headers, &self.query, self.proxy.is_some(), self.stamp.is_some())
    }

    /// The error that [`build`](Self::build) will report, if there is one.
    pub fn error(&self) -> (error: Option<&http::Error>)
        ensures
            match error {
                Some(e) => self.error_set() == Some(*e),
                None => self.error_set() is None,
            },
    {
        self.error.as_ref()
    }
}

/// The names of headers and query parameters.
fn summarize(
    headers: &HeaderMap,
    query: &Vec<(String, String)>,
    proxy: bool,
    stamp: bool,
) -> (summary: IdentitySummary)
    ensures
        summary@ == (Shown {
            headers: header_order(*headers),
            query: pair_names(pair_texts(query@)),
            proxy,
            stamp,
        }),
        summary@.headers.no_duplicates(),
        summary@.headers.to_set() == header_entries(*headers).dom(),
        summary.headers@.len() == header_order(*headers).len(),
        forall|i: int|
            0 <= i < summary.headers@.len() ==> #[trigger] summary.headers@[i]@ == header_order(
                *headers,
            )[i],
        summary.query@.len() == query@.len(),
        forall|i: int|
            0 <= i < summary.query@.len() ==> #[trigger] summary.query@[i]@ == query@[i].0@,
        summary.proxy == proxy,
        summary.stamp == stamp,
{
    let names = header_names(headers);
    let mut shown: Vec<String> = Vec::new();
    let mut i: usize = 0;
    while i < names.len()
        invariant
            i <= names.len(),
            shown.len() == i,
            forall|k: int| 0 <= k < i ==> shown@[k]@ == #[trigger] header_name_text(names@[k]),
        decreases names.len() - i,
    {
        shown.push(names[i].as_str().to_owned());
        i = i + 1;
    }
    let mut parameters: Vec<String> = Vec::new();
    let mut j: usize = 0;
    while j < query.len()
        invariant
            j <= query.len(),
            parameters.len() == j,
            forall|k: int| 0 <= k < j ==> #[trigger] parameters@[k]@ == query@[k].0@,
        decreases query.len() - j,
    {
        parameters.push(query[j].0.clone());
        j = j + 1;
    }
    proof {
        assert(texts(shown@) =~= name_texts(names@));
        assert forall|k: int| 0 <= k < shown@.len() implies #[trigger] shown@[k]@ == header_order(
            *headers,
        )[k] by {
            assert(texts(shown@)[k] == shown@[k]@);
        }
        assert(texts(parameters@) =~= pair_names(pair_texts(query@)));
    }
    IdentitySummary { headers: shown, query: parameters, proxy, stamp }
}

impl<S: Fn(&mut Request)> Identity<S> {
    /// Stamp this identity onto a request. Headers and query values from the
    /// identity replace any the caller set under the same name. The hook runs last.
    ///
    /// Fails if the request cannot hold what the identity adds to it, and is then not to be sent:
    /// a part of the headers may have been replaced.
    pub fn apply(&self, request: &mut Request) -> (applied: Result<(), ApplyError>)
        requires
            self.stamp_set() matches Some(stamp) ==> forall|reached: &mut Request|
                fields_applied(
                    self.header_entries(),
                    self.query_pairs(),
                    *old(request),
                    *reached,
                ) ==> #[trigger] call_requires(stamp, (reached,)),
        ensures
            applied is Ok ==> match self.stamp_set() {
                None => fields_applied(
                    self.header_entries(),
                    self.query_pairs(),
                    *old(request),
                    *final(request),
                ),
                Some(stamp) => exists|reached: &mut Request|
                    {
                        &&& #[trigger] call_ensures(stamp, (reached,), ())
                        &&& fields_applied(
                            self.header_entries(),
                            self.query_pairs(),
                            *old(request),
                            *reached,
                        )
                        &&& *final(reached) == *final(request)
                    },
            },
            headers_fit(self.header_entries(), *old(request)) && query_fits(
                self.query_pairs(),
                request_url(*old(request)),
            ) ==> applied is Ok,
            all_sensitive(self.header_entries()),
            applied matches Err(e) ==> match e {
                ApplyError::HeadersFull => !headers_fit(self.header_entries(), *old(request)),
                ApplyError::UrlTooLong => !query_fits(
                    self.query_pairs(),
                    request_url(*old(request)),
                ),
            },
    {
        proof {
            use_type_invariant(self);
        }
        let ghost before = *request;
        if !headers_are_empty(&self.headers) {
            match self.apply_headers(request.headers_mut()) {
                Ok(()) => {},
                Err(e) => {
                    return Err(e);
                },
            }
        }
        proof {
            let caller = header_entries(request_headers(before));
            assert(header_entries(request_headers(*request)) =~= caller.union_prefer_right(
                self.header_entries(),
            ));
        }
        if self.query.len() > 0 {
            if !override_query(request.url_mut(), &self.query) {
                return Err(ApplyError::UrlTooLong);
            }
        }
        if let Some(stamp) = &self.stamp {
            stamp(request);
        }
        Ok(())
    }
}

/// The headers of the identity replace any header of the same name that the caller set, and all
/// others stay as the caller set them.
pub proof fn law_identity_headers_win(
    headers: Entries,
    query: Seq<(Seq<char>, Seq<char>)>,
    before: Request,
    after: Request,
    name: Seq<char>,
)
    requires
        fields_applied(headers, query, before, after),
    ensures
        headers.contains_key(name) ==> values_under(
            header_entries(request_headers(after)),
            name,
        ) == headers[name],
        !headers.contains_key(name) ==> values_under(
            header_entries(request_headers(after)),
            name,
        ) == values_under(header_entries(request_headers(before)), name),
{
}

/// Every header value that the identity puts on a request is marked as sensitive, as all those of an
/// identity are.
pub proof fn law_identity_values_are_marked(
    headers: Entries,
    query: Seq<(Seq<char>, Seq<char>)>,
    before: Request,
    after: Request,
    name: Seq<char>,
    i: int,
)
    requires
        all_sensitive(headers),
        fields_applied(headers, query, before, after),
        headers.contains_key(name),
        0 <= i < headers[name].len(),
    ensures
        values_under(header_entries(request_headers(after)), name)[i].sensitive,
{
    law_identity_headers_win(headers, query, before, after, name);
}

/// A later identity overrides an earlier one: if it has all the header names and all the query names
/// of the earlier one, the request is the same as with the later identity alone.
pub proof fn law_later_identity_overrides(
    first_headers: Entries,
    first_query: Seq<(Seq<char>, Seq<char>)>,
    headers: Entries,
    query: Seq<(Seq<char>, Seq<char>)>,
    before: Request,
    between: Request,
    both: Request,
    alone: Request,
)
    requires
        first_headers.dom().subset_of(headers.dom()),
        forall|i: int|
            0 <= i < first_query.len() ==> is_overridden(query, (#[trigger] first_query[i]).0),
        fields_applied(first_headers, first_query, before, between),
        fields_applied(headers, query, between, both),
        fields_applied(headers, query, before, alone),
    ensures
        header_entries(request_headers(both)) == header_entries(request_headers(alone)),
        url_pairs(request_url(both)) == url_pairs(request_url(alone)),
        url_text(request_url(both)) == url_text(request_url(alone)),
        request_rest(both) == request_rest(alone),
        request_replayable(both) == request_replayable(alone),
{
    assert(header_entries(request_headers(both)) =~= header_entries(request_headers(alone)));
    law_later_query_overrides(
        first_query,
        query,
        request_url(before),
        request_url(between),
        request_url(both),
        request_url(alone),
    );
}

/// Stamping the same identity onto a request once more changes nothing.
pub proof fn law_applying_twice_is_applying_once(
    headers: Entries,
    query: Seq<(Seq<char>, Seq<char>)>,
    before: Request,
    once: Request,
    twice: Request,
)
    requires
        fields_applied(headers, query, before, once),
        fields_applied(headers, query, once, twice),
    ensures
        header_entries(request_headers(twice)) == header_entries(request_headers(once)),
        url_pairs(request_url(twice)) == url_pairs(request_url(once)),
        url_text(request_url(twice)) == url_text(request_url(once)),
        request_rest(twice) == request_rest(once),
        request_replayable(twice) == request_replayable(once),
{
    law_later_identity_overrides(
        headers,
        query,
        headers,
        query,
        before,
        once,
        twice,
        once,
    );
}

/// What is shown of an identity tells its names only: two identities with the same names, and both
/// with or both without a proxy and a hook, show the same, whatever their values are.
pub proof fn law_summary_hides_values<S>(
    a: &Identity<S>,
    b: &Identity<S>,
    shown_of_a: &IdentitySummary,
    shown_of_b: &IdentitySummary,
)
    requires
        a.header_names() == b.header_names(),
        pair_names(a.query_pairs()) == pair_names(b.query_pairs()),
        a.proxy_set() is Some <==> b.proxy_set() is Some,
        a.stamp_set() is Some <==> b.stamp_set() is Some,
        shown_of_a@ == a.shown(),
        shown_of_b@ == b.shown(),
    ensures
        shown_of_a@ == shown_of_b@,
{
}

/// The names that the first of some pairs bring are among those that all of them bring.
proof fn lemma_grouped_prefix(list: Seq<(Seq<char>, Field)>, i: int)
    requires
        0 <= i <= list.len(),
    ensures
        grouped(list.take(i)).dom().subset_of(grouped(list).dom()),
    decreases list.len() - i,
{
    if i == list.len() {
        assert(list.take(i) =~= list);
    } else {
        lemma_grouped_prefix(list, i + 1);
        assert(list.take(i + 1).drop_last() =~= list.take(i));
    }
}

/// Entries that are not empty have a name.
proof fn lemma_some_name(entries: Entries)
    ensures
        entries.dom() != Set::<Seq<char>>::empty() ==> exists|name: Seq<char>| #[trigger]
            entries.contains_key(name),
        entries.dom() == Set::<Seq<char>>::empty() ==> forall|name: Seq<char>|
            !#[trigger] entries.contains_key(name),
{
    if forall|name: Seq<char>| !#[trigger] entries.contains_key(name) {
        assert(entries.dom() =~= Set::<Seq<char>>::empty());
    }
}

/// What an identity does to a request, name by name: a header that it has replaces all values of the
/// caller under that very name, any other header stays, and so do the method, the body, the timeout,
/// the version and what stands before and behind the query.
pub proof fn law_identity_replaces_its_own_names_only(
    headers: Entries,
    query: Seq<(Seq<char>, Seq<char>)>,
    before: Request,
    after: Request,
    name: Seq<char>,
)
    requires
        fields_applied(headers, query, before, after),
    ensures
        headers.contains_key(name) ==> {
            &&& header_entries(request_headers(after)).contains_key(name)
            &&& header_entries(request_headers(after))[name] == headers[name]
        },
        !headers.contains_key(name) ==> {
            &&& header_entries(request_headers(after)).contains_key(name) == header_entries(
                request_headers(before),
            ).contains_key(name)
            &&& header_entries(request_headers(before)).contains_key(name) ==> header_entries(
                request_headers(after),
            )[name] == header_entries(request_headers(before))[name]
        },
        query.len() == 0 ==> request_url(after) == request_url(before),
        url_pairs(request_url(after)) == url_pairs(request_url(before)).filter(
            |pair: (Seq<char>, Seq<char>)|
                forall|i: int| 0 <= i < query.len() ==> (#[trigger] query[i]).0 != pair.0,
        ) + query,
        url_frame(request_url(after)) == url_frame(request_url(before)),
        request_rest(after) == request_rest(before),
        request_replayable(after) == request_replayable(before),
{
    law_only_the_same_names_are_replaced(query, request_url(before), request_url(after));
}

/// A valid header is added behind the others of its name, with its value marked as sensitive, unless
/// there was an error before or the header map cannot grow any more; the values of all other names
/// stay, and so does all else.
pub proof fn law_valid_header_is_added<S>(
    before: &IdentityBuilder<S>,
    after: &IdentityBuilder<S>,
    name: Seq<char>,
    bytes: Seq<u8>,
    other: Seq<char>,
)
    requires
        before.became(BuilderCall::AddHeader { name: Ok(name), value: Ok(bytes) }, after),
        other != name,
    ensures
        after.query_pairs() == before.query_pairs(),
        after.proxy_set() == before.proxy_set(),
        after.stamp_set() == before.stamp_set(),
        before.error_set() is Some ==> after.error_set() == before.error_set(),
        before.error_set() is None && before.header_entries().dom().finite()
            && before.header_entries().dom().len() <= 6553 ==> after.error_set() is None,
        after.header_entries().contains_key(other) == before.header_entries().contains_key(other),
        before.header_entries().contains_key(other) ==> after.header_entries()[other]
            == before.header_entries()[other],
        after.error_set() is Some ==> after.header_entries() == before.header_entries(),
        after.error_set() is None ==> {
            let values = after.header_entries()[name];
            &&& after.header_entries().contains_key(name)
            &&& values.len() > 0
            &&& values.last().bytes == bytes
            &&& values.last().sensitive
            &&& (exists|i: int|
                0 <= i < before.header_names().len() && #[trigger] before.header_names()[i] == name)
                ==> after.header_names() == before.header_names()
            &&& (forall|i: int|
                0 <= i < before.header_names().len() ==> #[trigger] before.header_names()[i] != name)
                ==> after.header_names() == before.header_names().push(name)
            &&& if before.header_entries().contains_key(name) {
                values.drop_last() == before.header_entries()[name]
            } else {
                values.len() == 1
            }
        },
{
    if after.error_set() is None && before.header_entries().contains_key(name) {
        let old_values = before.header_entries()[name];
        let field = Field { bytes, sensitive: true };
        assert(old_values.push(field).drop_last() =~= old_values);
    }
}

/// The headers of an identity fit besides those of the caller as long as there are no more than 6553
/// names in all.
pub proof fn law_few_headers_fit(headers: Entries, request: Request)
    requires
        header_entries(request_headers(request)).union_prefer_right(headers).dom().finite(),
        header_entries(request_headers(request)).union_prefer_right(headers).dom().len() <= 6553,
    ensures
        headers_fit(headers, request),
{
}

/// An invalid header adds nothing. Its error is kept, that of the name if both are invalid, unless
/// there was an error before.
pub proof fn law_invalid_header_is_reported<S>(
    before: &IdentityBuilder<S>,
    after: &IdentityBuilder<S>,
    name: Result<Seq<char>, http::Error>,
    value: Result<Seq<u8>, http::Error>,
)
    requires
        before.became(BuilderCall::AddHeader { name, value }, after),
        name is Err || value is Err,
    ensures
        after.header_entries() == before.header_entries(),
        after.header_names() == before.header_names(),
        after.query_pairs() == before.query_pairs(),
        after.proxy_set() == before.proxy_set(),
        after.stamp_set() == before.stamp_set(),
        before.error_set() is Some ==> after.error_set() == before.error_set(),
        before.error_set() is None ==> match name {
            Err(e) => after.error_set() == Some(e),
            Ok(_) => value matches Err(e) && after.error_set() == Some(e),
        },
{
}

/// A text is a header name in lower case, or its own error; a text is the bytes of a header value, or
/// its own error.
pub proof fn law_texts_are_parsed(text: Seq<char>)
    ensures
        is_header_name(text) ==> parsed_name(text) == Ok::<Seq<char>, http::Error>(lower_text(text)),
        !is_header_name(text) ==> parsed_name(text) == Err::<Seq<char>, http::Error>(
            name_error(text),
        ),
        is_header_value(text) ==> parsed_value(text) == Ok::<Seq<u8>, http::Error>(
            encode_utf8(text),
        ),
        !is_header_value(text) ==> parsed_value(text) == Err::<Seq<u8>, http::Error>(
            value_error(text),
        ),
{
}

/// What is shown of an identity is its names and whether it has a proxy and a hook: nothing of it is
/// a value.
pub proof fn law_names_are_shown<S>(identity: &Identity<S>)
    ensures
        identity.shown().headers == identity.header_names(),
        identity.shown().query.len() == identity.query_pairs().len(),
        forall|i: int|
            0 <= i < identity.query_pairs().len() ==> #[trigger] identity.shown().query[i]
                == identity.query_pairs()[i].0,
        identity.shown().proxy == (identity.proxy_set() is Some),
        identity.shown().stamp == (identity.stamp_set() is Some),
{
}

} // verus!
