//! Backend configuration from the values of `APP_HOST`, `APP_PORT`,
//! `APP_ALLOW_ORIGINS` and `RUST_LOG`.

use vstd::prelude::*;

use crate::text::{
    is_clean_item, join_with_commas, lemma_list_items_of_join, decimal, lemma_parse_decimal_round_trip, list_items, opt_view, parse_u16, parse_u16_spec, push_char,
    push_decimal, split_list,
};

verus! {

/// Port used when `APP_PORT` is unset or is not a port number.
pub const DEFAULT_PORT: u16 = 8080;

/// Host used when `APP_HOST` is unset.
pub open spec fn default_host() -> Seq<char> {
    "0.0.0.0"@
}

/// Allowlist used when `APP_ALLOW_ORIGINS` is unset: every origin.
pub open spec fn default_allow_origins() -> Seq<char> {
    seq!['*']
}

/// The origin allowlist that an `APP_ALLOW_ORIGINS` value selects: its
/// comma-separated entries (default `*`), trimmed, without empty ones.
pub open spec fn allow_origins_from(var: Option<Seq<char>>) -> Seq<Seq<char>> {
    list_items(
        match var {
            Some(s) => s,
            None => default_allow_origins(),
        },
        false,
    )
}

/// The port that an `APP_PORT` value selects.
pub open spec fn port_from(var: Option<Seq<char>>) -> u16 {
    match var {
        Some(v) => match parse_u16_spec(v) {
            Some(p) => p,
            None => DEFAULT_PORT,
        },
        None => DEFAULT_PORT,
    }
}

/// The backend configuration.
#[derive(Clone, Debug)]
pub struct Config {
    pub host: String,
    pub port: u16,
    pub allow_origins: Vec<String>,
}

impl Config {
    /// Builds the configuration from the values of `APP_HOST`, `APP_PORT`
    /// and `APP_ALLOW_ORIGINS` (`None` where a variable is unset): the host
    /// defaults to `0.0.0.0`; the port is the decimal `u16` in `APP_PORT`,
    /// else 8080; the allowlist is the comma-separated entries of
    /// `APP_ALLOW_ORIGINS` (default `*`), trimmed, without empty ones.
    pub fn from_vars(app_host: Option<&str>, app_port: Option<&str>, app_allow_origins: Option<&str>) -> (c: Config)
        ensures
            app_host matches Some(h) ==> c.host@ == h@,
            app_host is None ==> c.host@ == default_host(),
            c.port == port_from(opt_view(app_port)),
            c.allow_origins.deep_view() == allow_origins_from(opt_view(app_allow_origins)),
    {
        let host = match app_host {
            Some(h) => h.to_owned(),
            None => "0.0.0.0".to_owned(),
        };
        let port = match app_port {
            Some(v) => match parse_u16(v) {
                Some(p) => p,
                None => DEFAULT_PORT,
            },
            None => DEFAULT_PORT,
        };
        let allow_origins = match app_allow_origins {
            Some(s) => split_list(s, false),
            None => {
                let star = "*";
                proof {
                    reveal_strlit("*");
                }
                assert(star@ =~= default_allow_origins());
                split_list(star, false)
            },
        };
        Config { host, port, allow_origins }
    }

    /// The socket address to bind, as text: `host:port`.
    pub fn addr_text(&self) -> (s: String)
        ensures
            s@ == self.host@ + seq![':'] + decimal(self.port as nat),
    {
        let mut s = self.host.clone();
        push_char(&mut s, ':');
        push_decimal(&mut s, self.port);
        s
    }

    /// The tracing filter: the value of `RUST_LOG` where it is set, else
    /// `info,backend=debug,tower_http=info`.
    pub fn default_rust_log(&self, rust_log: Option<&str>) -> (s: String)
        ensures
            rust_log matches Some(v) ==> s@ == v@,
            rust_log is None ==> s@ == "info,backend=debug,tower_http=info"@,
    {
        match rust_log {
            Some(v) => v.to_owned(),
            None => "info,backend=debug,tower_http=info".to_owned(),
        }
    }
}

/// `APP_PORT` set to the decimal text of a port selects that port.
pub proof fn lemma_port_round_trip(p: u16)
    ensures
        port_from(Some(decimal(p as nat))) == p,
{
    lemma_parse_decimal_round_trip(p);
}

/// `APP_ALLOW_ORIGINS` set to clean origins joined by commas gives back
/// those origins, in order (spaces inside an origin are kept: only commas
/// separate).
pub proof fn lemma_allow_origins_round_trip(xs: Seq<Seq<char>>)
    requires
        forall|i: int| 0 <= i < xs.len() ==> is_clean_item(#[trigger] xs[i], false),
    ensures
        allow_origins_from(Some(join_with_commas(xs))) == xs,
{
    lemma_list_items_of_join(xs, false);
}

} // verus!
