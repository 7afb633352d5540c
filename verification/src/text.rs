//! Text primitives shared by the configuration and protocol code: Unicode
//! whitespace trimming, list splitting and decimal numbers.

use vstd::prelude::*;

verus! {

/// The text of an optional string.
pub open spec fn opt_view(o: Option<&str>) -> Option<Seq<char>> {
    match o {
        Some(s) => Some(s@),
        None => None,
    }
}

/// The Unicode `White_Space` property.
pub open spec fn is_white_space(c: char) -> bool {
    ||| ('\u{9}' <= c && c <= '\u{d}')
    ||| c == ' '
    ||| c == '\u{85}'
    ||| c == '\u{a0}'
    ||| c == '\u{1680}'
    ||| ('\u{2000}' <= c && c <= '\u{200a}')
    ||| c == '\u{2028}'
    ||| c == '\u{2029}'
    ||| c == '\u{202f}'
    ||| c == '\u{205f}'
    ||| c == '\u{3000}'
}

pub fn is_white_space_char(c: char) -> (b: bool)
    ensures
        b == is_white_space(c),
{
    ('\u{9}' <= c && c <= '\u{d}') || c == ' ' || c == '\u{85}' || c == '\u{a0}' || c
        == '\u{1680}' || ('\u{2000}' <= c && c <= '\u{200a}') || c == '\u{2028}' || c
        == '\u{2029}' || c == '\u{202f}' || c == '\u{205f}' || c == '\u{3000}'
}

/// `s` without its leading whitespace.
pub open spec fn trim_start(s: Seq<char>) -> Seq<char>
    decreases s.len(),
{
    if s.len() > 0 && is_white_space(s[0]) {
        trim_start(s.drop_first())
    } else {
        s
    }
}

/// `s` without its trailing whitespace.
pub open spec fn trim_end(s: Seq<char>) -> Seq<char>
    decreases s.len(),
{
    if s.len() > 0 && is_white_space(s.last()) {
        trim_end(s.drop_last())
    } else {
        s
    }
}

/// `s` without leading and trailing whitespace.
pub open spec fn trim(s: Seq<char>) -> Seq<char> {
    trim_end(trim_start(s))
}

/// Returns `s` without leading and trailing whitespace.
pub fn trim_str(s: &str) -> (t: &str)
    ensures
        t@ == trim(s@),
{
    let n = s.unicode_len();
    let mut lo: usize = 0;
    assert(s@.subrange(0, n as int) =~= s@);
    while lo < n && is_white_space_char(s.get_char(lo))
        invariant
            lo <= n,
            n == s@.len(),
            trim_start(s@) == trim_start(s@.subrange(lo as int, n as int)),
        decreases n - lo,
    {
        assert(s@.subrange(lo as int, n as int).drop_first() =~= s@.subrange(
            lo + 1,
            n as int,
        ));
        lo += 1;
    }
    assert(trim_start(s@) == s@.subrange(lo as int, n as int));
    let mut hi: usize = n;
    while hi > lo && is_white_space_char(s.get_char(hi - 1))
        invariant
            lo <= hi <= n,
            n == s@.len(),
            trim(s@) == trim_end(s@.subrange(lo as int, hi as int)),
        decreases hi - lo,
    {
        assert(s@.subrange(lo as int, hi as int).drop_last() =~= s@.subrange(
            lo as int,
            hi - 1,
        ));
        hi -= 1;
    }
    s.substring_char(lo, hi)
}

/// Character-wise equality of two strings.
pub fn str_equals(a: &str, b: &str) -> (r: bool)
    ensures
        r == (a@ == b@),
{
    let n = a.unicode_len();
    if n != b.unicode_len() {
        return false;
    }
    let mut i: usize = 0;
    while i < n
        invariant
            i <= n,
            n == a@.len(),
            n == b@.len(),
            forall|j: int| 0 <= j < i ==> a@[j] == b@[j],
        decreases n - i,
    {
        if a.get_char(i) != b.get_char(i) {
            return false;
        }
        i += 1;
    }
    assert(a@ =~= b@);
    true
}

/// A character that ends one list item: a comma, and also a space where
/// `also_space` is set.
pub open spec fn is_separator(c: char, also_space: bool) -> bool {
    c == ',' || (also_space && c == ' ')
}

pub fn is_separator_char(c: char, also_space: bool) -> (b: bool)
    ensures
        b == is_separator(c, also_space),
{
    c == ',' || (also_space && c == ' ')
}

/// The pieces of `s` between separators, in order; `n` separators give
/// `n + 1` pieces, some of which may be empty.
pub open spec fn split_pieces(s: Seq<char>, also_space: bool) -> Seq<Seq<char>>
    decreases s.len(),
{
    if s.len() == 0 {
        seq![Seq::empty()]
    } else {
        let p = split_pieces(s.drop_last(), also_space);
        if is_separator(s.last(), also_space) {
            p.push(Seq::empty())
        } else {
            p.update(p.len() - 1, p.last().push(s.last()))
        }
    }
}

/// The trimmed pieces that are not empty once trimmed, in order.
pub open spec fn kept_items(pieces: Seq<Seq<char>>) -> Seq<Seq<char>>
    decreases pieces.len(),
{
    if pieces.len() == 0 {
        seq![]
    } else {
        let r = kept_items(pieces.drop_last());
        let t = trim(pieces.last());
        if t.len() > 0 {
            r.push(t)
        } else {
            r
        }
    }
}

/// The items of a separated list: its pieces, trimmed, without the empty ones.
pub open spec fn list_items(s: Seq<char>, also_space: bool) -> Seq<Seq<char>> {
    kept_items(split_pieces(s, also_space))
}

pub proof fn lemma_split_pieces_len(s: Seq<char>, also_space: bool)
    ensures
        split_pieces(s, also_space).len() >= 1,
    decreases s.len(),
{
    if s.len() > 0 {
        lemma_split_pieces_len(s.drop_last(), also_space);
    }
}

/// Splits `s` at its separators, trims each piece and keeps the pieces that
/// are not empty.
pub fn split_list(s: &str, also_space: bool) -> (out: Vec<String>)
    ensures
        out.deep_view() == list_items(s@, also_space),
{
    let n = s.unicode_len();
    let mut out: Vec<String> = Vec::new();
    let mut start: usize = 0;
    let mut i: usize = 0;
    proof {
        assert(s@.take(0) =~= Seq::<char>::empty());
        assert(out.deep_view() =~= Seq::<Seq<char>>::empty());
    }
    while i < n
        invariant
            n == s@.len(),
            start <= i <= n,
            split_pieces(s@.take(i as int), also_space).len() >= 1,
            out.deep_view() == kept_items(split_pieces(s@.take(i as int), also_space).drop_last()),
            s@.subrange(start as int, i as int) == split_pieces(
                s@.take(i as int),
                also_space,
            ).last(),
        decreases n - i,
    {
        let ghost pre = s@.take(i as int);
        let ghost post = s@.take(i + 1);
        let ghost p = split_pieces(pre, also_space);
        let c = s.get_char(i);
        proof {
            assert(post.drop_last() =~= pre);
            assert(post.last() == c);
        }
        if is_separator_char(c, also_space) {
            let piece = s.substring_char(start, i);
            let t = trim_str(piece);
            let ghost before = out.deep_view();
            if !t.is_empty() {
                out.push(t.to_owned());
                assert(out.deep_view() =~= before.push(t@));
            }
            proof {
                assert(split_pieces(post, also_space) == p.push(Seq::empty()));
                assert(p.push(Seq::<char>::empty()).drop_last() =~= p);
                assert(s@.subrange(i + 1, i + 1) =~= Seq::<char>::empty());
            }
            start = i + 1;
        } else {
            proof {
                let q = p.update(p.len() - 1, p.last().push(c));
                assert(split_pieces(post, also_space) == q);
                assert(q.drop_last() =~= p.drop_last());
                assert(s@.subrange(start as int, i + 1) =~= p.last().push(c));
            }
        }
        i += 1;
    }
    proof {
        assert(s@.take(n as int) =~= s@);
    }
    let piece = s.substring_char(start, n);
    let t = trim_str(piece);
    let ghost before = out.deep_view();
    if !t.is_empty() {
        out.push(t.to_owned());
        assert(out.deep_view() =~= before.push(t@));
    }
    out
}

pub open spec fn is_ascii_digit(c: char) -> bool {
    '0' <= c && c <= '9'
}

/// The value of an ASCII digit.
pub open spec fn digit_value(c: char) -> int {
    c as int - '0' as int
}

pub open spec fn all_digits(s: Seq<char>) -> bool {
    forall|i: int| 0 <= i < s.len() ==> is_ascii_digit(#[trigger] s[i])
}

/// The value of a string of decimal digits, most significant first.
pub open spec fn decimal_value(s: Seq<char>) -> int
    decreases s.len(),
{
    if s.len() == 0 {
        0
    } else {
        decimal_value(s.drop_last()) * 10 + digit_value(s.last())
    }
}

/// The digits of an unsigned number as text: one optional leading `+` is dropped.
pub open spec fn unsigned_digits(s: Seq<char>) -> Seq<char> {
    if s.len() > 0 && s[0] == '+' {
        s.drop_first()
    } else {
        s
    }
}

/// The `u16` that `s` spells in decimal: an optional `+`, then at least one
/// ASCII digit, and a value that fits in 16 bits. `None` for anything else.
pub open spec fn parse_u16_spec(s: Seq<char>) -> Option<u16> {
    let d = unsigned_digits(s);
    if d.len() > 0 && all_digits(d) && decimal_value(d) <= u16::MAX {
        Some(decimal_value(d) as u16)
    } else {
        None
    }
}

/// Reads a `u16` written in decimal, as `str::parse::<u16>` does.
pub fn parse_u16(s: &str) -> (r: Option<u16>)
    ensures
        r == parse_u16_spec(s@),
{
    let n = s.unicode_len();
    let mut i: usize = 0;
    if n > 0 && s.get_char(0) == '+' {
        i = 1;
    }
    if i >= n {
        return None;
    }
    let start = i;
    assert(unsigned_digits(s@) =~= s@.subrange(start as int, n as int));
    let mut value: u32 = 0;
    let mut too_big = false;
    assert(s@.subrange(start as int, start as int) =~= Seq::<char>::empty());
    while i < n
        invariant
            start <= i <= n,
            n == s@.len(),
            unsigned_digits(s@) == s@.subrange(start as int, n as int),
            all_digits(s@.subrange(start as int, i as int)),
            too_big ==> decimal_value(s@.subrange(start as int, i as int)) > u16::MAX,
            !too_big ==> value == decimal_value(s@.subrange(start as int, i as int)) && value
                <= u16::MAX,
        decreases n - i,
    {
        let c = s.get_char(i);
        if !('0' <= c && c <= '9') {
            assert(!is_ascii_digit(s@.subrange(start as int, n as int)[i - start]));
            return None;
        }
        let d: u32 = (c as u32) - 48;
        let ghost prefix = s@.subrange(start as int, i + 1);
        assert(prefix.drop_last() =~= s@.subrange(start as int, i as int));
        assert(prefix.last() == c);
        if !too_big {
            let next: u32 = value * 10 + d;
            if next > 65535 {
                too_big = true;
            } else {
                value = next;
            }
        }
        i += 1;
    }
    if too_big {
        None
    } else {
        Some(value as u16)
    }
}

/// The ASCII digit for `d`, which is below ten.
pub open spec fn digit_char(d: int) -> char {
    (d + 48) as char
}

/// The decimal digits of `n`, without leading zeros ("0" for zero).
pub open spec fn decimal(n: nat) -> Seq<char>
    decreases n,
{
    if n < 10 {
        seq![digit_char(n as int)]
    } else {
        decimal(n / 10).push(digit_char((n % 10) as int))
    }
}

fn digit_char_of(d: u16) -> (c: char)
    requires
        d < 10,
    ensures
        c == digit_char(d as int),
{
    let b: u8 = (d as u8) + 48;
    b as char
}

/// `String::push`: appends one character.
#[verifier::external_body]
pub(crate) fn push_char(s: &mut String, c: char)
    ensures
        final(s)@ == old(s)@.push(c),
{
    s.push(c);
}

/// Appends the decimal digits of `n` to `out`.
pub fn push_decimal(out: &mut String, n: u16)
    ensures
        final(out)@ == old(out)@ + decimal(n as nat),
    decreases n,
{
    if n >= 10 {
        push_decimal(out, n / 10);
    }
    push_char(out, digit_char_of(n % 10));
    assert(old(out)@ + decimal(n as nat) =~= out@);
}

proof fn lemma_digit_char(d: int)
    requires
        0 <= d < 10,
    ensures
        is_ascii_digit(digit_char(d)),
        digit_value(digit_char(d)) == d,
{
}

/// The decimal text of a number is a nonempty string of digits whose value
/// is the number.
pub proof fn lemma_decimal_digits(n: nat)
    ensures
        decimal(n).len() > 0,
        all_digits(decimal(n)),
        decimal_value(decimal(n)) == n,
    decreases n,
{
    if n < 10 {
        lemma_digit_char(n as int);
        assert(decimal(n).drop_last() =~= Seq::<char>::empty());
        assert(decimal_value(Seq::<char>::empty()) == 0);
        assert(decimal(n).last() == digit_char(n as int));
        assert(decimal_value(decimal(n)) == decimal_value(decimal(n).drop_last()) * 10
            + digit_value(decimal(n).last()));
    } else {
        lemma_decimal_digits(n / 10);
        lemma_digit_char((n % 10) as int);
        assert(decimal(n).drop_last() =~= decimal(n / 10));
        assert(decimal(n).last() == digit_char((n % 10) as int));
        assert((n / 10) * 10 + n % 10 == n) by (nonlinear_arith);
        assert(decimal_value(decimal(n)) == decimal_value(decimal(n).drop_last()) * 10
            + digit_value(decimal(n).last()));
    }
}

/// Reading back the decimal text of a port number gives the number.
pub proof fn lemma_parse_decimal_round_trip(n: u16)
    ensures
        parse_u16_spec(decimal(n as nat)) == Some(n),
{
    lemma_decimal_digits(n as nat);
    let d = decimal(n as nat);
    assert(is_ascii_digit(d[0]));
    assert(unsigned_digits(d) == d);
}

/// A list item as the parser produces it: not empty, no whitespace at
/// either end, and no separator inside.
pub open spec fn is_clean_item(x: Seq<char>, also_space: bool) -> bool {
    &&& x.len() > 0
    &&& !is_white_space(x[0])
    &&& !is_white_space(x.last())
    &&& forall|j: int| 0 <= j < x.len() ==> !is_separator(#[trigger] x[j], also_space)
}

/// `xs` joined by commas.
pub open spec fn join_with_commas(xs: Seq<Seq<char>>) -> Seq<char>
    decreases xs.len(),
{
    if xs.len() == 0 {
        seq![]
    } else if xs.len() == 1 {
        xs[0]
    } else {
        join_with_commas(xs.drop_last()) + seq![','] + xs.last()
    }
}

proof fn lemma_trim_start_suffix(x: Seq<char>) -> (k: int)
    ensures
        0 <= k <= x.len(),
        trim_start(x) == x.subrange(k, x.len() as int),
        trim_start(x).len() > 0 ==> !is_white_space(trim_start(x)[0]),
    decreases x.len(),
{
    if x.len() > 0 && is_white_space(x[0]) {
        let k1 = lemma_trim_start_suffix(x.drop_first());
        assert(x.drop_first().subrange(k1, x.drop_first().len() as int) =~= x.subrange(
            k1 + 1,
            x.len() as int,
        ));
        k1 + 1
    } else {
        assert(x.subrange(0, x.len() as int) =~= x);
        0
    }
}

proof fn lemma_trim_end_prefix(x: Seq<char>) -> (k: int)
    ensures
        0 <= k <= x.len(),
        trim_end(x) == x.subrange(0, k),
        trim_end(x).len() > 0 ==> !is_white_space(trim_end(x).last()),
    decreases x.len(),
{
    if x.len() > 0 && is_white_space(x.last()) {
        let k1 = lemma_trim_end_prefix(x.drop_last());
        assert(x.drop_last().subrange(0, k1) =~= x.subrange(0, k1));
        k1
    } else {
        assert(x.subrange(0, x.len() as int) =~= x);
        x.len() as int
    }
}

/// A trimmed text is a piece of the original with no whitespace at either end.
proof fn lemma_trim_shape(x: Seq<char>) -> (r: (int, int))
    ensures
        0 <= r.0 <= r.1 <= x.len(),
        trim(x) == x.subrange(r.0, r.1),
        trim(x).len() > 0 ==> !is_white_space(trim(x)[0]) && !is_white_space(trim(x).last()),
{
    let a = lemma_trim_start_suffix(x);
    let y = trim_start(x);
    let b = lemma_trim_end_prefix(y);
    assert(y.subrange(0, b) =~= x.subrange(a, a + b));
    if trim(x).len() > 0 {
        assert(trim(x)[0] == y[0]);
    }
    (a, a + b)
}

proof fn lemma_split_pieces_no_separator(s: Seq<char>, also_space: bool)
    ensures
        forall|i: int, j: int|
            0 <= i < split_pieces(s, also_space).len() && 0 <= j < split_pieces(
                s,
                also_space,
            )[i].len() ==> !is_separator(#[trigger] split_pieces(s, also_space)[i][j], also_space),
    decreases s.len(),
{
    if s.len() > 0 {
        lemma_split_pieces_no_separator(s.drop_last(), also_space);
        lemma_split_pieces_len(s.drop_last(), also_space);
        let p = split_pieces(s.drop_last(), also_space);
        if !is_separator(s.last(), also_space) {
            let q = p.update(p.len() - 1, p.last().push(s.last()));
            assert forall|i: int, j: int| 0 <= i < q.len() && 0 <= j < q[i].len() implies !is_separator(
                #[trigger] q[i][j],
                also_space,
            ) by {
                if i == p.len() - 1 && j < p.last().len() {
                    assert(q[i][j] == p[i][j]);
                }
            }
        }
    }
}

/// Every item the list parser produces is clean: not empty, no whitespace
/// at either end, and no separator inside.
pub proof fn lemma_list_items_clean(s: Seq<char>, also_space: bool)
    ensures
        forall|i: int|
            0 <= i < list_items(s, also_space).len() ==> is_clean_item(
                #[trigger] list_items(s, also_space)[i],
                also_space,
            ),
{
    lemma_split_pieces_no_separator(s, also_space);
    lemma_kept_items_clean(split_pieces(s, also_space), also_space);
}

proof fn lemma_kept_items_clean(pieces: Seq<Seq<char>>, also_space: bool)
    requires
        forall|i: int, j: int|
            0 <= i < pieces.len() && 0 <= j < pieces[i].len() ==> !is_separator(
                #[trigger] pieces[i][j],
                also_space,
            ),
    ensures
        forall|i: int|
            0 <= i < kept_items(pieces).len() ==> is_clean_item(
                #[trigger] kept_items(pieces)[i],
                also_space,
            ),
    decreases pieces.len(),
{
    if pieces.len() > 0 {
        let d = pieces.drop_last();
        assert forall|i: int, j: int| 0 <= i < d.len() && 0 <= j < d[i].len() implies !is_separator(
            #[trigger] d[i][j],
            also_space,
        ) by {
            assert(d[i] == pieces[i]);
        }
        lemma_kept_items_clean(d, also_space);
        let x = pieces.last();
        let r = lemma_trim_shape(x);
        let t = trim(x);
        if t.len() > 0 {
            assert forall|j: int| 0 <= j < t.len() implies !is_separator(#[trigger] t[j], also_space) by {
                assert(t[j] == x[r.0 + j]);
                assert(x == pieces[pieces.len() - 1]);
            }
            assert(is_clean_item(t, also_space));
            let k = kept_items(pieces);
            assert(k == kept_items(d).push(t));
            assert forall|i: int| 0 <= i < k.len() implies is_clean_item(#[trigger] k[i], also_space) by {
                if i < k.len() - 1 {
                    assert(k[i] == kept_items(d)[i]);
                }
            }
        } else {
            assert(kept_items(pieces) == kept_items(d));
        }
    }
}

/// No separator occurs in `x`.
pub open spec fn has_no_separator(x: Seq<char>, also_space: bool) -> bool {
    forall|j: int| 0 <= j < x.len() ==> !is_separator(#[trigger] x[j], also_space)
}

proof fn lemma_split_append_plain(a: Seq<char>, b: Seq<char>, also_space: bool)
    requires
        has_no_separator(b, also_space),
    ensures
        split_pieces(a + b, also_space) == split_pieces(a, also_space).update(
            split_pieces(a, also_space).len() - 1,
            split_pieces(a, also_space).last() + b,
        ),
    decreases b.len(),
{
    lemma_split_pieces_len(a, also_space);
    let p = split_pieces(a, also_space);
    if b.len() == 0 {
        assert(a + b =~= a);
        assert(p.last() + b =~= p.last());
        assert(p.update(p.len() - 1, p.last() + b) =~= p);
    } else {
        let b1 = b.drop_last();
        assert(has_no_separator(b1, also_space)) by {
            assert forall|j: int| 0 <= j < b1.len() implies !is_separator(#[trigger] b1[j], also_space) by {
                assert(b1[j] == b[j]);
            }
        }
        lemma_split_append_plain(a, b1, also_space);
        assert((a + b).drop_last() =~= a + b1);
        assert((a + b).last() == b.last());
        assert(!is_separator(b[b.len() - 1], also_space));
        assert((p.last() + b1).push(b.last()) =~= p.last() + b);
        let q = p.update(p.len() - 1, p.last() + b1);
        assert(q.update(q.len() - 1, q.last().push(b.last())) =~= p.update(p.len() - 1, p.last() + b));
    }
}

proof fn lemma_split_join(xs: Seq<Seq<char>>, also_space: bool)
    requires
        xs.len() > 0,
        forall|i: int| 0 <= i < xs.len() ==> has_no_separator(#[trigger] xs[i], also_space),
    ensures
        split_pieces(join_with_commas(xs), also_space) == xs,
    decreases xs.len(),
{
    let x = xs.last();
    assert(has_no_separator(xs[xs.len() - 1], also_space));
    if xs.len() == 1 {
        let e = Seq::<char>::empty();
        lemma_split_append_plain(e, x, also_space);
        assert(e + x =~= x);
        assert(split_pieces(e, also_space) =~= seq![e]);
        assert(seq![e].update(0, e + x) =~= xs);
    } else {
        let d = xs.drop_last();
        assert forall|i: int| 0 <= i < d.len() implies has_no_separator(#[trigger] d[i], also_space) by {
            assert(d[i] == xs[i]);
        }
        lemma_split_join(d, also_space);
        let jd = join_with_commas(d);
        let a = jd.push(',');
        assert(a.drop_last() =~= jd);
        assert(split_pieces(a, also_space) == d.push(Seq::<char>::empty()));
        lemma_split_append_plain(a, x, also_space);
        assert(join_with_commas(xs) == jd + seq![','] + x);
        assert(jd + seq![','] + x =~= a + x);
        assert(Seq::<char>::empty() + x =~= x);
        assert(d.push(Seq::<char>::empty()).update(d.len() as int, Seq::<char>::empty() + x) =~= xs);
    }
}

proof fn lemma_kept_items_of_clean(xs: Seq<Seq<char>>, also_space: bool)
    requires
        forall|i: int| 0 <= i < xs.len() ==> is_clean_item(#[trigger] xs[i], also_space),
    ensures
        kept_items(xs) == xs,
    decreases xs.len(),
{
    if xs.len() > 0 {
        let d = xs.drop_last();
        assert forall|i: int| 0 <= i < d.len() implies is_clean_item(#[trigger] d[i], also_space) by {
            assert(d[i] == xs[i]);
        }
        lemma_kept_items_of_clean(d, also_space);
        let x = xs.last();
        assert(is_clean_item(xs[xs.len() - 1], also_space));
        assert(trim_start(x) == x);
        assert(trim_end(x) == x);
        assert(d.push(x) =~= xs);
    }
}

/// Parsing a list written as its clean items joined by commas gives back
/// the items.
pub proof fn lemma_list_items_of_join(xs: Seq<Seq<char>>, also_space: bool)
    requires
        forall|i: int| 0 <= i < xs.len() ==> is_clean_item(#[trigger] xs[i], also_space),
    ensures
        list_items(join_with_commas(xs), also_space) == xs,
{
    if xs.len() == 0 {
        assert(split_pieces(Seq::<char>::empty(), also_space) =~= seq![Seq::<char>::empty()]);
        assert(seq![Seq::<char>::empty()].drop_last() =~= Seq::<Seq<char>>::empty());
        assert(kept_items(seq![Seq::<char>::empty()]) == kept_items(Seq::<Seq<char>>::empty()));
        assert(xs =~= Seq::<Seq<char>>::empty());
    } else {
        assert forall|i: int| 0 <= i < xs.len() implies has_no_separator(#[trigger] xs[i], also_space) by {
            assert(is_clean_item(xs[i], also_space));
        }
        lemma_split_join(xs, also_space);
        lemma_kept_items_of_clean(xs, also_space);
    }
}

/// The ASCII whitespace characters: tab, line feed, vertical tab, form
/// feed, carriage return and space.
pub open spec fn is_ascii_white_space(c: char) -> bool {
    c == '\t' || c == '\n' || c == '\u{b}' || c == '\u{c}' || c == '\r' || c == ' '
}

/// Among ASCII characters, the whitespace is exactly tab, line feed,
/// vertical tab, form feed, carriage return and space; beyond ASCII it
/// includes the next line, no-break, ogham, en/em and other spaces, the line
/// and paragraph separators and the ideographic space.
pub proof fn lemma_white_space_chars(c: char)
    ensures
        c <= '\u{7f}' ==> (is_white_space(c) <==> is_ascii_white_space(c)),
        is_white_space('\u{85}') && is_white_space('\u{a0}') && is_white_space('\u{1680}'),
        is_white_space('\u{2000}') && is_white_space('\u{200a}') && is_white_space('\u{2028}'),
        is_white_space('\u{2029}') && is_white_space('\u{202f}') && is_white_space('\u{205f}'),
        is_white_space('\u{3000}'),
{
}

proof fn lemma_trim_start_push(x: Seq<char>, c: char)
    requires
        is_white_space(c),
    ensures
        trim_start(x.push(c)) == if trim_start(x).len() == 0 {
            Seq::<char>::empty()
        } else {
            trim_start(x).push(c)
        },
    decreases x.len(),
{
    if x.len() == 0 {
        assert(x.push(c).drop_first() =~= Seq::<char>::empty());
        assert(trim_start(Seq::<char>::empty()) == Seq::<char>::empty());
    } else {
        assert(x.push(c)[0] == x[0]);
        if is_white_space(x[0]) {
            lemma_trim_start_push(x.drop_first(), c);
            assert(x.push(c).drop_first() =~= x.drop_first().push(c));
        }
    }
}

/// Whitespace at either end of a text does not survive trimming: for every
/// text `x` and whitespace character `c`, `x` followed by `c` and `c`
/// followed by `x` trim to what `x` trims to. In particular a value ending
/// in a line feed or carriage return trims as if it did not.
pub proof fn lemma_trim_ignores_white_space(x: Seq<char>, c: char)
    requires
        is_white_space(c),
    ensures
        trim(x.push(c)) == trim(x),
        trim(seq![c] + x) == trim(x),
{
    lemma_trim_start_push(x, c);
    let y = trim_start(x);
    if y.len() > 0 {
        assert(y.push(c).drop_last() =~= y);
    }
    assert((seq![c] + x).drop_first() =~= x);
}

/// A line feed, carriage return, tab or other ASCII whitespace at either end
/// of any text is trimmed away.
pub proof fn lemma_trim_strips_ascii_white_space(x: Seq<char>, c: char)
    requires
        is_ascii_white_space(c),
    ensures
        trim(x.push(c)) == trim(x),
        trim(seq![c] + x) == trim(x),
{
    lemma_trim_ignores_white_space(x, c);
}

/// Texts of the same length that differ only in which separator stands at
/// a position split into the same pieces.
proof fn lemma_split_same_separators(s1: Seq<char>, s2: Seq<char>, also_space: bool)
    requires
        s1.len() == s2.len(),
        forall|i: int|
            0 <= i < s1.len() ==> (#[trigger] s1[i] == s2[i] || (is_separator(s1[i], also_space)
                && is_separator(s2[i], also_space))),
    ensures
        split_pieces(s1, also_space) == split_pieces(s2, also_space),
    decreases s1.len(),
{
    if s1.len() > 0 {
        let d1 = s1.drop_last();
        let d2 = s2.drop_last();
        assert forall|i: int| 0 <= i < d1.len() implies (#[trigger] d1[i] == d2[i] || (is_separator(
            d1[i],
            also_space,
        ) && is_separator(d2[i], also_space))) by {
            assert(d1[i] == s1[i] && d2[i] == s2[i]);
        }
        lemma_split_same_separators(d1, d2, also_space);
        assert(s1.last() == s1[s1.len() - 1]);
        assert(s2.last() == s2[s2.len() - 1]);
    }
}

/// Where spaces separate too, a space between two parts of a list does
/// what a comma does.
pub proof fn lemma_space_separates_like_comma(a: Seq<char>, b: Seq<char>)
    ensures
        list_items(a + seq![' '] + b, true) == list_items(a + seq![','] + b, true),
{
    let s1 = a + seq![' '] + b;
    let s2 = a + seq![','] + b;
    assert forall|i: int| 0 <= i < s1.len() implies (#[trigger] s1[i] == s2[i] || (is_separator(
        s1[i],
        true,
    ) && is_separator(s2[i], true))) by {
        if i < a.len() {
            assert(s1[i] == a[i] && s2[i] == a[i]);
        } else if i == a.len() {
            assert(s1[i] == ' ' && s2[i] == ',');
        } else {
            assert(s1[i] == b[i - a.len() - 1] && s2[i] == b[i - a.len() - 1]);
        }
    }
    lemma_split_same_separators(s1, s2, true);
}

/// A text that reads as a port holds only ASCII digits, after at most one
/// leading `+`; and a nonempty run of ASCII digits whose value fits in 16
/// bits reads as that value.
pub proof fn lemma_parse_u16_digits(s: Seq<char>)
    ensures
        parse_u16_spec(s) is Some ==> forall|i: int|
            0 <= i < s.len() ==> ('0' <= #[trigger] s[i] && s[i] <= '9') || (i == 0 && s[i] == '+'),
        (s.len() > 0 && (forall|i: int| 0 <= i < s.len() ==> '0' <= #[trigger] s[i] && s[i] <= '9')
            && decimal_value(s) <= 65535) ==> parse_u16_spec(s) == Some(decimal_value(s) as u16),
{
    if parse_u16_spec(s) is Some {
        let d = unsigned_digits(s);
        assert forall|i: int| 0 <= i < s.len() implies ('0' <= #[trigger] s[i] && s[i] <= '9') || (i
            == 0 && s[i] == '+') by {
            if s.len() > 0 && s[0] == '+' {
                if i > 0 {
                    assert(s[i] == d[i - 1]);
                    assert(is_ascii_digit(d[i - 1]));
                }
            } else {
                assert(s[i] == d[i]);
                assert(is_ascii_digit(d[i]));
            }
        }
    }
    if s.len() > 0 && (forall|i: int| 0 <= i < s.len() ==> '0' <= #[trigger] s[i] && s[i] <= '9') {
        assert(s[0] != '+');
        assert(unsigned_digits(s) == s);
        assert(all_digits(s));
    }
}

} // verus!
