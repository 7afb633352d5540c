//! CORS policy of the backend.

use vstd::prelude::*;

use crate::cors::{
    allowlist_origin_rule, allowlist_rule, has_wildcard, is_header_value, is_wildcard_origin, lemma_valid_origins_members, valid_origins, CorsPolicy, CorsPolicyView, HttpMethod,
    OriginRuleView,
};

verus! {

/// The backend's policy for an allowlist: GET, POST and OPTIONS, any
/// request header, and the origin rule of the allowlist.
pub open spec fn backend_cors(list: Seq<Seq<char>>) -> CorsPolicyView {
    CorsPolicyView {
        methods: seq![HttpMethod::Get, HttpMethod::Post, HttpMethod::Options],
        any_header: true,
        origins: allowlist_rule(list),
    }
}

pub(crate) fn backend_methods() -> (v: Vec<HttpMethod>)
    ensures
        v@ == seq![HttpMethod::Get, HttpMethod::Post, HttpMethod::Options],
{
    let mut v = Vec::new();
    v.push(HttpMethod::Get);
    v.push(HttpMethod::Post);
    v.push(HttpMethod::Options);
    assert(v@ =~= seq![HttpMethod::Get, HttpMethod::Post, HttpMethod::Options]);
    v
}

/// The CORS policy for an origin allowlist: every origin when an entry is
/// `*` or `any` (in any ASCII case), else exactly the entries that are
/// valid header values.
pub fn cors_from_allowlist(allowlist: &[String]) -> (p: CorsPolicy)
    ensures
        p@ == backend_cors(allowlist.deep_view()),
{
    CorsPolicy {
        methods: backend_methods(),
        any_header: true,
        origins: allowlist_origin_rule(allowlist),
    }
}

/// An allowlist with a `*` entry allows every origin.
pub proof fn lemma_star_allows_any(list: Seq<Seq<char>>)
    requires
        list.contains(seq!['*']),
    ensures
        backend_cors(list).origins == OriginRuleView::Any,
{
    let i = choose|i: int| 0 <= i < list.len() && list[i] == seq!['*'];
    assert(is_wildcard_origin(list[i]));
}

/// An allowlist entry that is `*` or `any` in some ASCII case.
pub open spec fn names_every_origin(o: Seq<char>) -> bool {
    ||| o == seq!['*']
    ||| (o.len() == 3 && (o[0] == 'a' || o[0] == 'A') && (o[1] == 'n' || o[1] == 'N') && (o[2]
        == 'y' || o[2] == 'Y'))
}

/// For every allowlist, the backend allows GET, POST and OPTIONS and any
/// request header; it allows every origin when some entry is `*` or `any`,
/// and otherwise exactly the entries that are valid header values.
pub proof fn lemma_backend_policy(list: Seq<Seq<char>>)
    ensures
        backend_cors(list).any_header,
        backend_cors(list).methods == seq![HttpMethod::Get, HttpMethod::Post, HttpMethod::Options],
        (exists|i: int| 0 <= i < list.len() && names_every_origin(#[trigger] list[i]))
            ==> backend_cors(list).origins == OriginRuleView::Any,
        (forall|i: int| 0 <= i < list.len() ==> !names_every_origin(#[trigger] list[i]))
            ==> (backend_cors(list).origins matches OriginRuleView::List(v) && forall|o: Seq<char>|
            v.contains(o) <==> (list.contains(o) && is_header_value(o))),
{
    if exists|i: int| 0 <= i < list.len() && names_every_origin(#[trigger] list[i]) {
        let i = choose|i: int| 0 <= i < list.len() && names_every_origin(#[trigger] list[i]);
        assert(is_wildcard_origin(list[i]));
    }
    if forall|i: int| 0 <= i < list.len() ==> !names_every_origin(#[trigger] list[i]) {
        assert forall|i: int| 0 <= i < list.len() implies !is_wildcard_origin(#[trigger] list[i]) by {
            assert(!names_every_origin(list[i]));
            if list[i] =~= seq!['*'] {
                assert(list[i] == seq!['*']);
            }
        }
        assert(!has_wildcard(list));
        let v = valid_origins(list);
        assert forall|o: Seq<char>| #[trigger] v.contains(o) <==> (list.contains(o)
            && is_header_value(o)) by {
            lemma_valid_origins_members(list, o);
        }
        assert(backend_cors(list).origins == OriginRuleView::List(v));
    }
}

} // verus!
