//! CORS policy of the web terminal.

use vstd::prelude::*;

use crate::cors::{is_header_value, lemma_valid_origins_members, valid_origin_values, valid_origins, CorsPolicy, CorsPolicyView, HttpMethod, OriginRule, OriginRuleView};
use crate::webssh::config::{allowlist_from, Config};

verus! {

/// The policy for an allowlist: GET and POST, any request header; no
/// cross-origin request where the allowlist is empty, else exactly the
/// entries that are valid header values.
pub open spec fn webssh_cors(list: Seq<Seq<char>>) -> CorsPolicyView {
    CorsPolicyView {
        methods: seq![HttpMethod::Get, HttpMethod::Post],
        any_header: true,
        origins: if list.len() == 0 {
            OriginRuleView::Unset
        } else {
            OriginRuleView::List(valid_origins(list))
        },
    }
}

pub fn cors_layer(cfg: &Config) -> (p: CorsPolicy)
    ensures
        p@ == webssh_cors(cfg.origin_allowlist.deep_view()),
{
    let mut methods = Vec::new();
    methods.push(HttpMethod::Get);
    methods.push(HttpMethod::Post);
    assert(methods@ =~= seq![HttpMethod::Get, HttpMethod::Post]);
    if cfg.origin_allowlist.len() == 0 {
        CorsPolicy { methods, any_header: true, origins: OriginRule::Unset }
    } else {
        let origins = valid_origin_values(cfg.origin_allowlist.as_slice());
        CorsPolicy { methods, any_header: true, origins: OriginRule::List(origins) }
    }
}

/// Where `ORIGIN_ALLOWLIST` is unset, only same-origin requests are allowed:
/// the policy names no origin.
pub proof fn lemma_unset_allowlist_same_origin()
    ensures
        webssh_cors(allowlist_from(None)).origins == OriginRuleView::Unset,
{
}

/// For every allowlist, the web terminal allows GET and POST and any
/// request header; it names no origin exactly when the allowlist is empty,
/// and otherwise allows exactly the entries that are valid header values
/// (a single valid entry is allowed).
pub proof fn lemma_webssh_policy(list: Seq<Seq<char>>)
    ensures
        webssh_cors(list).any_header,
        webssh_cors(list).methods == seq![HttpMethod::Get, HttpMethod::Post],
        (webssh_cors(list).origins is Unset) <==> list.len() == 0,
        list.len() > 0 ==> (webssh_cors(list).origins matches OriginRuleView::List(v) && forall|
            o: Seq<char>,
        | v.contains(o) <==> (list.contains(o) && is_header_value(o))),
{
    let v = valid_origins(list);
    assert forall|o: Seq<char>| #[trigger] v.contains(o) <==> (list.contains(o) && is_header_value(o)) by {
        lemma_valid_origins_members(list, o);
    }
    if list.len() > 0 {
        assert(webssh_cors(list).origins == OriginRuleView::List(v));
    }
}

} // verus!
