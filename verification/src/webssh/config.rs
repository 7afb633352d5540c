//! Configuration from the values of `PORT` and `ORIGIN_ALLOWLIST`.

use vstd::prelude::*;

use crate::text::{
    decimal, is_clean_item, join_with_commas, lemma_list_items_of_join, lemma_parse_decimal_round_trip,
    lemma_space_separates_like_comma, list_items, opt_view, parse_u16, parse_u16_spec, split_list};

verus! {

/// Port used when `PORT` is unset or is not a port number.
pub const DEFAULT_PORT: u16 = 8080;

/// The port that a `PORT` value selects.
pub open spec fn port_from(var: Option<Seq<char>>) -> u16 {
    match var {
        Some(v) => match parse_u16_spec(v) {
            Some(p) => p,
            None => DEFAULT_PORT,
        },
        None => DEFAULT_PORT,
    }
}

/// The origin allowlist that an `ORIGIN_ALLOWLIST` value selects: its
/// comma- or space-separated entries, trimmed, without empty ones; empty
/// where the variable is unset.
pub open spec fn allowlist_from(var: Option<Seq<char>>) -> Seq<Seq<char>> {
    match var {
        Some(v) => list_items(v, true),
        None => seq![],
    }
}

#[derive(Clone, Debug)]
pub struct Config {
    pub port: u16,
    pub origin_allowlist: Vec<String>,
}

impl Default for Config {
    /// Port 8080 and no allowed origin.
    fn default() -> (c: Self)
        ensures
            c.port == DEFAULT_PORT,
            c.origin_allowlist.deep_view() == Seq::<Seq<char>>::empty(),
    {
        let v: Vec<String> = Vec::new();
        assert(v.deep_view() =~= Seq::<Seq<char>>::empty());
        Config { port: DEFAULT_PORT, origin_allowlist: v }
    }
}

impl Config {
    /// Builds the configuration from the values of `PORT` and
    /// `ORIGIN_ALLOWLIST` (`None` where a variable is unset).
    pub fn from_vars(port: Option<&str>, origin_allowlist: Option<&str>) -> (c: Config)
        ensures
            c.port == port_from(opt_view(port)),
            c.origin_allowlist.deep_view() == allowlist_from(opt_view(origin_allowlist)),
    {
        let mut cfg = Config::default();
        if let Some(p) = port {
            if let Some(n) = parse_u16(p) {
                cfg.port = n;
            }
        }
        if let Some(list) = origin_allowlist {
            cfg.origin_allowlist = split_list(list, true);
        }
        cfg
    }
}

/// With neither variable set, the configuration is the default one.
pub proof fn lemma_unset_vars_give_default()
    ensures
        port_from(None) == DEFAULT_PORT,
        allowlist_from(None) == Seq::<Seq<char>>::empty(),
{
}

/// `PORT` set to the decimal text of any port number `p` (below 1024 too)
/// selects `p`.
pub proof fn lemma_port_round_trip(p: u16)
    ensures
        port_from(Some(decimal(p as nat))) == p,
{
    lemma_parse_decimal_round_trip(p);
}

/// `ORIGIN_ALLOWLIST` set to clean origins joined by commas gives back
/// those origins, in order.
pub proof fn lemma_allowlist_round_trip(xs: Seq<Seq<char>>)
    requires
        forall|i: int| 0 <= i < xs.len() ==> is_clean_item(#[trigger] xs[i], true),
    ensures
        allowlist_from(Some(join_with_commas(xs))) == xs,
{
    lemma_list_items_of_join(xs, true);
}

/// In `ORIGIN_ALLOWLIST` a space separates origins just as a comma does.
pub proof fn lemma_space_separates_origins(a: Seq<char>, b: Seq<char>)
    ensures
        allowlist_from(Some(a + seq![' '] + b)) == allowlist_from(Some(a + seq![','] + b)),
{
    lemma_space_separates_like_comma(a, b);
}

} // verus!
