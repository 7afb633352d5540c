//! The model of a CORS policy: which methods, headers and origins a
//! cross-origin request may use, and how an origin allowlist becomes one.

use vstd::prelude::*;

verus! {

/// An HTTP method that a CORS policy allows.
#[derive(PartialEq, Eq, Structural, Clone, Copy, Debug)]
pub enum HttpMethod {
    Get,
    Post,
    Options,
}

/// Which origins may make cross-origin requests.
#[derive(Debug)]
pub enum OriginRule {
    /// No origin was configured: cross-origin requests are not allowed.
    Unset,
    /// Every origin is allowed.
    Any,
    /// Exactly these origins are allowed.
    List(Vec<String>),
}

pub enum OriginRuleView {
    Unset,
    Any,
    List(Seq<Seq<char>>),
}

impl View for OriginRule {
    type V = OriginRuleView;

    open spec fn view(&self) -> OriginRuleView {
        match self {
            OriginRule::Unset => OriginRuleView::Unset,
            OriginRule::Any => OriginRuleView::Any,
            OriginRule::List(v) => OriginRuleView::List(v.deep_view()),
        }
    }
}

/// A CORS policy: allowed methods, whether any request header is allowed,
/// and the allowed origins.
#[derive(Debug)]
pub struct CorsPolicy {
    pub methods: Vec<HttpMethod>,
    pub any_header: bool,
    pub origins: OriginRule,
}

pub struct CorsPolicyView {
    pub methods: Seq<HttpMethod>,
    pub any_header: bool,
    pub origins: OriginRuleView,
}

impl View for CorsPolicy {
    type V = CorsPolicyView;

    open spec fn view(&self) -> CorsPolicyView {
        CorsPolicyView {
            methods: self.methods@,
            any_header: self.any_header,
            origins: self.origins@,
        }
    }
}

/// A character that may stand in an HTTP header value: a tab, or any
/// character from the space on except DEL (characters beyond ASCII are
/// encoded as bytes of 0x80 and above, which are allowed).
pub open spec fn is_header_value_char(c: char) -> bool {
    c == '\t' || (' ' <= c && c != '\u{7f}')
}

pub open spec fn is_header_value(s: Seq<char>) -> bool {
    forall|i: int| 0 <= i < s.len() ==> is_header_value_char(#[trigger] s[i])
}

/// `http::HeaderValue::from_str` (through `axum::http`): tells whether the
/// text is accepted as a header value. The crate's code accepts exactly the
/// strings whose UTF-8 bytes are each a tab, or at least 0x20 and not 0x7f
/// (so bytes of non-ASCII characters pass too, though its documentation
/// speaks of visible ASCII only); the contract states that over characters.
#[verifier::external_body]
fn accepts_header_value(s: &str) -> (ok: bool)
    ensures
        ok == is_header_value(s@),
{
    axum::http::HeaderValue::from_str(s).is_ok()
}

/// The entries of `list` that are valid header values, in order.
pub open spec fn valid_origins(list: Seq<Seq<char>>) -> Seq<Seq<char>>
    decreases list.len(),
{
    if list.len() == 0 {
        seq![]
    } else {
        let r = valid_origins(list.drop_last());
        if is_header_value(list.last()) {
            r.push(list.last())
        } else {
            r
        }
    }
}

/// An allowlist entry that stands for every origin: `*`, or `any` in any
/// ASCII case.
pub open spec fn is_wildcard_origin(o: Seq<char>) -> bool {
    ||| o =~= seq!['*']
    ||| (o.len() == 3 && (o[0] == 'a' || o[0] == 'A') && (o[1] == 'n' || o[1] == 'N') && (o[2]
        == 'y' || o[2] == 'Y'))
}

pub open spec fn has_wildcard(list: Seq<Seq<char>>) -> bool {
    exists|i: int| 0 <= i < list.len() && is_wildcard_origin(#[trigger] list[i])
}

/// The origin rule of an allowlist that may hold a wildcard.
pub open spec fn allowlist_rule(list: Seq<Seq<char>>) -> OriginRuleView {
    if has_wildcard(list) {
        OriginRuleView::Any
    } else {
        OriginRuleView::List(valid_origins(list))
    }
}

pub fn is_wildcard_origin_str(o: &str) -> (b: bool)
    ensures
        b == is_wildcard_origin(o@),
{
    let n = o.unicode_len();
    if n == 1 {
        o.get_char(0) == '*'
    } else if n == 3 {
        let a = o.get_char(0);
        let b = o.get_char(1);
        let c = o.get_char(2);
        (a == 'a' || a == 'A') && (b == 'n' || b == 'N') && (c == 'y' || c == 'Y')
    } else {
        false
    }
}

/// The entries of `list` that are valid header values, in order.
pub fn valid_origin_values(list: &[String]) -> (out: Vec<String>)
    ensures
        out.deep_view() == valid_origins(list.deep_view()),
{
    let ghost whole = list.deep_view();
    let mut out: Vec<String> = Vec::new();
    let mut i: usize = 0;
    assert(whole.take(0) =~= Seq::<Seq<char>>::empty());
    assert(out.deep_view() =~= Seq::<Seq<char>>::empty());
    while i < list.len()
        invariant
            i <= list.len(),
            whole == list.deep_view(),
            whole.len() == list.len(),
            out.deep_view() == valid_origins(whole.take(i as int)),
        decreases list.len() - i,
    {
        let ghost before = out.deep_view();
        assert(whole.take(i + 1).drop_last() =~= whole.take(i as int));
        assert(whole.take(i + 1).last() == list[i as int]@);
        if accepts_header_value(list[i].as_str()) {
            out.push(list[i].clone());
            assert(out.deep_view() =~= before.push(list[i as int]@));
        }
        i += 1;
    }
    assert(whole.take(list.len() as int) =~= whole);
    out
}

/// The origin rule of an allowlist: any origin when an entry is a wildcard,
/// else the entries that are valid header values.
pub fn allowlist_origin_rule(list: &[String]) -> (r: OriginRule)
    ensures
        r@ == allowlist_rule(list.deep_view()),
{
    let ghost whole = list.deep_view();
    let mut i: usize = 0;
    while i < list.len()
        invariant
            i <= list.len(),
            whole == list.deep_view(),
            whole.len() == list.len(),
            forall|j: int| 0 <= j < i ==> !is_wildcard_origin(#[trigger] whole[j]),
        decreases list.len() - i,
    {
        if is_wildcard_origin_str(list[i].as_str()) {
            assert(is_wildcard_origin(whole[i as int]));
            return OriginRule::Any;
        }
        i += 1;
    }
    OriginRule::List(valid_origin_values(list))
}

/// An origin is in the list of valid origins exactly when it is an entry of
/// the allowlist and a valid header value.
pub proof fn lemma_valid_origins_members(list: Seq<Seq<char>>, o: Seq<char>)
    ensures
        valid_origins(list).contains(o) <==> (list.contains(o) && is_header_value(o)),
    decreases list.len(),
{
    if list.len() > 0 {
        let d = list.drop_last();
        lemma_valid_origins_members(d, o);
        let r = valid_origins(d);
        assert(list =~= d.push(list.last()));
        if list.contains(o) && o != list.last() {
            let i = choose|i: int| 0 <= i < list.len() && list[i] == o;
            assert(d[i] == o);
        }
        if d.contains(o) {
            let i = choose|i: int| 0 <= i < d.len() && d[i] == o;
            assert(list[i] == o);
        }
        if is_header_value(list.last()) {
            if r.contains(o) {
                let i = choose|i: int| 0 <= i < r.len() && r[i] == o;
                assert(r.push(list.last())[i] == o);
            }
            if r.push(list.last()).contains(o) && o != list.last() {
                let i = choose|i: int| 0 <= i < r.len() + 1 && r.push(list.last())[i] == o;
                assert(r[i] == o);
            }
            assert(r.push(list.last())[r.len() as int] == list.last());
        }
    } else {
        assert(valid_origins(list) =~= Seq::<Seq<char>>::empty());
    }
}

/// A header value may hold tabs, visible ASCII, spaces and any character
/// beyond ASCII, but no other control character and no DEL.
pub proof fn lemma_header_value_chars(c: char)
    ensures
        (c == '\t' || (' ' <= c && c <= '~') || c >= '\u{80}') ==> is_header_value_char(c),
        ((c < ' ' && c != '\t') || c == '\u{7f}') ==> !is_header_value_char(c),
{
}

} // verus!
