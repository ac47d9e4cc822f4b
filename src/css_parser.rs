//! The style sheet parser: a rule list from text, with typed values.
//!
//! A rule is a selector group, `{`, declarations and `}`; a rule that lacks
//! either brace ends the list, and the rules before it are kept. A
//! declaration without a colon is dropped.
use crate::colors::{lookup_named_color, named_color};
use crate::layout::{Color, ColorV, CssRule, Decimal, Length, PropV, Selector, SelectorV, StyleProperty};
use crate::strmap::StrMap;
use crate::text::{
    chars_of, find, find_from, is_digit, is_whitespace, lemma_find,
    matches_at, occurs_at, same_chars, split, split_on, string_from, sub_vec, trim, trim_start, trimmed, views,
};
use vstd::prelude::*;

verus! {

pub open spec fn is_digits(s: Seq<char>) -> bool {
    forall|i: int| 0 <= i < s.len() ==> is_digit(#[trigger] s[i])
}

/// The value of a string of decimal digits.
pub open spec fn digits_value(s: Seq<char>) -> int
    decreases s.len(),
{
    if s.len() == 0 {
        0
    } else {
        digits_value(s.drop_last()) * 10 + (s.last() as int - '0' as int)
    }
}

pub open spec fn pow10(n: nat) -> int
    decreases n,
{
    if n == 0 {
        1
    } else {
        10 * pow10((n - 1) as nat)
    }
}

proof fn lemma_pow10_mono(a: nat, b: nat)
    requires
        a <= b,
    ensures
        1 <= pow10(a) <= pow10(b),
    decreases b,
{
    if b > 0 {
        if a < b {
            lemma_pow10_mono(a, (b - 1) as nat);
        } else {
            lemma_pow10_mono((a - 1) as nat, (b - 1) as nat);
        }
    }
}

proof fn lemma_digits_mono(s: Seq<char>, k: int)
    requires
        is_digits(s),
        0 <= k <= s.len(),
    ensures
        0 <= digits_value(s.take(k)) <= digits_value(s),
    decreases s.len(),
{
    if s.len() > 0 {
        assert(is_digits(s.drop_last()));
        if k == s.len() {
            assert(s.take(k) =~= s);
            lemma_digits_mono(s.drop_last(), k - 1);
            assert(s.drop_last().take(k - 1) =~= s.drop_last());
        } else {
            lemma_digits_mono(s.drop_last(), k);
            assert(s.drop_last().take(k) =~= s.take(k));
            lemma_digits_mono(s.drop_last(), s.len() - 1);
            assert(s.drop_last().take(s.len() - 1) =~= s.drop_last());
            assert(is_digit(s.last()));
        }
    } else {
        assert(s.take(k) =~= s);
    }
}

/// The value of the digit string `d`, of at most 18 digits.
fn digits_to_int(d: &[char]) -> (r: i64)
    requires
        is_digits(d@),
        d@.len() <= 18,
    ensures
        r == digits_value(d@),
        0 <= r < pow10(d@.len()),
{
    let mut v: i64 = 0;
    let mut k: usize = 0;
    proof {
        lemma_pow10_mono(d@.len(), 18);
        reveal_with_fuel(pow10, 19);
        assert(d@.take(0) =~= Seq::<char>::empty());
    }
    while k < d.len()
        invariant
            k <= d@.len() <= 18,
            is_digits(d@),
            v == digits_value(d@.take(k as int)),
            0 <= v < pow10(k as nat),
            pow10(d@.len()) <= 1_000_000_000_000_000_000,
        decreases d@.len() - k,
    {
        let c = d[k];
        assert(is_digit(d@[k as int]));
        let ghost p = pow10(k as nat);
        proof {
            lemma_pow10_mono((k + 1) as nat, d@.len());
        }
        let dv = (c as u32 - '0' as u32) as i64;
        assert(v * 10 + dv < p * 10) by (nonlinear_arith)
            requires
                v < p,
                0 <= dv <= 9,
        ;
        assert(d@.take(k + 1).drop_last() =~= d@.take(k as int));
        v = v * 10 + dv;
        k += 1;
    }
    assert(d@.take(d@.len() as int) =~= d@);
    v
}

fn all_digits(s: &[char]) -> (r: bool)
    ensures
        r == is_digits(s@),
{
    let mut i: usize = 0;
    while i < s.len()
        invariant
            i <= s@.len(),
            forall|j: int| 0 <= j < i ==> is_digit(#[trigger] s@[j]),
        decreases s@.len() - i,
    {
        if !('0' <= s[i] && s[i] <= '9') {
            assert(!is_digit(s@[i as int]));
            return false;
        }
        i += 1;
    }
    true
}

/// The text after a leading sign, if there is one.
pub open spec fn unsigned_part(s: Seq<char>) -> Seq<char> {
    if s.len() > 0 && (s[0] == '-' || s[0] == '+') {
        s.drop_first()
    } else {
        s
    }
}

/// A decimal number: an optional sign, digits with at most one point, at
/// least one digit and at most 18.
pub open spec fn decimal_of(s: Seq<char>) -> Option<Decimal> {
    let neg = s.len() > 0 && s[0] == '-';
    let b = unsigned_part(s);
    let ip = match find(b, '.') {
        Some(i) => b.take(i),
        None => b,
    };
    let fp = match find(b, '.') {
        Some(i) => b.skip(i + 1),
        None => Seq::<char>::empty(),
    };
    if is_digits(ip) && is_digits(fp) && 1 <= ip.len() + fp.len() <= 18 {
        let v = digits_value(ip + fp);
        Some(Decimal { mantissa: (if neg { -v } else { v }) as i64, scale: fp.len() as u32 })
    } else {
        None
    }
}

pub fn parse_decimal(s: &[char]) -> (r: Option<Decimal>)
    ensures
        r == decimal_of(s@),
{
    let n = s.len();
    let neg = n > 0 && s[0] == '-';
    let start: usize = if n > 0 && (s[0] == '-' || s[0] == '+') {
        1
    } else {
        0
    };
    let b = sub_vec(s, start, n);
    assert(b@ =~= unsigned_part(s@));
    assert(b@.skip(0) =~= b@);
    let (ip, fp) = match find_from(&b, 0, '.') {
        Some(i) => {
            proof {
                lemma_find(b@, '.');
            }
            (sub_vec(&b, 0, i), sub_vec(&b, i + 1, b.len()))
        },
        None => (b, Vec::new()),
    };
    assert(ip@ =~= match find(unsigned_part(s@), '.') {
        Some(i) => unsigned_part(s@).take(i),
        None => unsigned_part(s@),
    });
    assert(fp@ =~= match find(unsigned_part(s@), '.') {
        Some(i) => unsigned_part(s@).skip(i + 1),
        None => Seq::<char>::empty(),
    });
    if !all_digits(&ip) || !all_digits(&fp) || ip.len() + fp.len() < 1 || ip.len() + fp.len()
        > 18 {
        return None;
    }
    let scale = fp.len() as u32;
    let mut all = ip;
    let mut rest = fp;
    let ghost joined = all@ + rest@;
    all.append(&mut rest);
    assert(all@ == joined);
    assert(is_digits(all@)) by {
        assert forall|i: int| 0 <= i < all@.len() implies is_digit(#[trigger] all@[i]) by {
            if i < ip@.len() {
                assert(all@[i] == ip@[i]);
            } else {
                assert(all@[i] == fp@[i - ip@.len()]);
            }
        }
    }
    let v = digits_to_int(&all);
    Some(Decimal { mantissa: if neg { -v } else { v }, scale })
}

/// What `u8::from_str` accepts: an optional `+`, then digits of a value up to
/// 255.
pub open spec fn u8_of(s: Seq<char>) -> Option<u8> {
    let b = if s.len() > 0 && s[0] == '+' {
        s.drop_first()
    } else {
        s
    };
    if b.len() >= 1 && is_digits(b) && digits_value(b) <= 255 {
        Some(digits_value(b) as u8)
    } else {
        None
    }
}

pub fn parse_u8(s: &[char]) -> (r: Option<u8>)
    ensures
        r == u8_of(s@),
{
    let n = s.len();
    let start: usize = if n > 0 && s[0] == '+' {
        1
    } else {
        0
    };
    let b = sub_vec(s, start, n);
    let ghost bs = if s@.len() > 0 && s@[0] == '+' {
        s@.drop_first()
    } else {
        s@
    };
    assert(b@ =~= bs);
    if b.len() == 0 || !all_digits(&b) {
        return None;
    }
    let mut v: u32 = 0;
    let mut k: usize = 0;
    assert(b@.take(0) =~= Seq::<char>::empty());
    while k < b.len()
        invariant
            k <= b@.len(),
            is_digits(b@),
            b@ == bs,
            bs == (if s@.len() > 0 && s@[0] == '+' {
                s@.drop_first()
            } else {
                s@
            }),
            v == digits_value(b@.take(k as int)),
            v <= 255,
        decreases b@.len() - k,
    {
        assert(is_digit(b@[k as int]));
        assert(b@.take(k + 1).drop_last() =~= b@.take(k as int));
        let nv = v * 10 + (b[k] as u32 - '0' as u32);
        assert(b@.take(k + 1).last() == b@[k as int]);
        assert(nv == digits_value(b@.take(k + 1)));
        if nv > 255 {
            proof {
                lemma_digits_mono(b@, k + 1);
                assert(digits_value(bs) > 255);
            }
            return None;
        }
        v = nv;
        k += 1;
    }
    assert(b@.take(b@.len() as int) =~= b@);
    Some(v as u8)
}

/// `s` ends with `p`.
pub open spec fn ends_with(s: Seq<char>, p: Seq<char>) -> bool {
    p.len() <= s.len() && occurs_at(s, s.len() - p.len(), p)
}

fn has_suffix(s: &[char], p: &[char]) -> (r: bool)
    ensures
        r == ends_with(s@, p@),
{
    if p.len() > s.len() {
        return false;
    }
    matches_at(s, s.len() - p.len(), p)
}

pub open spec fn px_unit() -> Seq<char> {
    seq!['p', 'x']
}

pub open spec fn rem_unit() -> Seq<char> {
    seq!['r', 'e', 'm']
}

pub open spec fn em_unit() -> Seq<char> {
    seq!['e', 'm']
}

pub open spec fn percent_unit() -> Seq<char> {
    seq!['%']
}

/// The number before a unit of `n` characters.
pub open spec fn number_before(t: Seq<char>, n: int) -> Option<Decimal> {
    decimal_of(t.take(t.len() - n))
}

/// A length: a number followed by `px`, `rem`, `em` or `%`, tried in that
/// order, so that `rem` is never read as `em`.
pub open spec fn length_of(s: Seq<char>) -> Option<Length> {
    let t = trim(s);
    if ends_with(t, px_unit()) {
        match number_before(t, 2) {
            Some(d) => Some(Length::Px(d)),
            None => None,
        }
    } else if ends_with(t, rem_unit()) {
        match number_before(t, 3) {
            Some(d) => Some(Length::Rem(d)),
            None => None,
        }
    } else if ends_with(t, em_unit()) {
        match number_before(t, 2) {
            Some(d) => Some(Length::Em(d)),
            None => None,
        }
    } else if ends_with(t, percent_unit()) {
        match number_before(t, 1) {
            Some(d) => Some(Length::Percent(d)),
            None => None,
        }
    } else {
        None
    }
}

pub fn parse_length(s: &[char]) -> (r: Option<Length>)
    ensures
        r == length_of(s@),
{
    let t = trimmed(s);
    let px = ['p', 'x'];
    let rem = ['r', 'e', 'm'];
    let em = ['e', 'm'];
    let pct = ['%'];
    assert(px@ == px_unit());
    assert(rem@ == rem_unit());
    assert(em@ == em_unit());
    assert(pct@ == percent_unit());
    if has_suffix(&t, &px) {
        match parse_decimal(&sub_vec(&t, 0, t.len() - 2)) {
            Some(d) => Some(Length::Px(d)),
            None => None,
        }
    } else if has_suffix(&t, &rem) {
        match parse_decimal(&sub_vec(&t, 0, t.len() - 3)) {
            Some(d) => Some(Length::Rem(d)),
            None => None,
        }
    } else if has_suffix(&t, &em) {
        match parse_decimal(&sub_vec(&t, 0, t.len() - 2)) {
            Some(d) => Some(Length::Em(d)),
            None => None,
        }
    } else if has_suffix(&t, &pct) {
        match parse_decimal(&sub_vec(&t, 0, t.len() - 1)) {
            Some(d) => Some(Length::Percent(d)),
            None => None,
        }
    } else {
        None
    }
}

/// The comma-separated arguments of `t` read as a call of `name` (which ends
/// with its opening parenthesis), each trimmed.
pub open spec fn call_args(t: Seq<char>, name: Seq<char>) -> Option<Seq<Seq<char>>> {
    if occurs_at(t, 0, name) && t.len() >= name.len() + 1 && t.last() == ')' {
        Some(
            split(t.subrange(name.len() as int, t.len() - 1), ',').map_values(
                |p: Seq<char>| trim(p),
            ),
        )
    } else {
        None
    }
}

/// Each piece of `pieces`, trimmed.
fn trim_all(pieces: &Vec<Vec<char>>) -> (r: Vec<Vec<char>>)
    ensures
        views(r@) == views(pieces@).map_values(|p: Seq<char>| trim(p)),
{
    let mut out: Vec<Vec<char>> = Vec::new();
    let mut i: usize = 0;
    while i < pieces.len()
        invariant
            i <= pieces@.len(),
            views(out@) == views(pieces@).take(i as int).map_values(|p: Seq<char>| trim(p)),
        decreases pieces@.len() - i,
    {
        let t = trimmed(&pieces[i]);
        let ghost o = views(out@);
        out.push(t);
        assert(views(out@) =~= o.push(t@));
        assert(views(pieces@)[i as int] == pieces@[i as int]@);
        assert(views(pieces@).take(i + 1).map_values(|p: Seq<char>| trim(p)) =~= views(
            pieces@,
        ).take(i as int).map_values(|p: Seq<char>| trim(p)).push(trim(views(pieces@)[i as int])));
        i += 1;
    }
    assert(views(pieces@).take(pieces@.len() as int) =~= views(pieces@));
    out
}

fn parse_call_args(t: &[char], name: &[char]) -> (r: Option<Vec<Vec<char>>>)
    ensures
        match call_args(t@, name@) {
            Some(a) => r is Some && views(r->0@) == a,
            None => r is None,
        },
{
    if matches_at(t, 0, name) && t.len() > name.len() && t[t.len() - 1] == ')' {
        let inner = sub_vec(t, name.len(), t.len() - 1);
        let pieces = split_on(&inner, ',');
        Some(trim_all(&pieces))
    } else {
        None
    }
}

/// A `%`-terminated component of `hsl()`.
pub open spec fn percent_u8_of(p: Seq<char>) -> Option<u8> {
    if p.len() > 0 && p.last() == '%' {
        u8_of(p.drop_last())
    } else {
        None
    }
}

fn parse_percent_u8(p: &[char]) -> (r: Option<u8>)
    ensures
        r == percent_u8_of(p@),
{
    if p.len() > 0 && p[p.len() - 1] == '%' {
        parse_u8(&sub_vec(p, 0, p.len() - 1))
    } else {
        None
    }
}

pub open spec fn rgb_name() -> Seq<char> {
    seq!['r', 'g', 'b', '(']
}

pub open spec fn rgba_name() -> Seq<char> {
    seq!['r', 'g', 'b', 'a', '(']
}

pub open spec fn hsl_name() -> Seq<char> {
    seq!['h', 's', 'l', '(']
}

pub open spec fn hsla_name() -> Seq<char> {
    seq!['h', 's', 'l', 'a', '(']
}

pub open spec fn rgb_of(t: Seq<char>) -> Option<ColorV> {
    match call_args(t, rgb_name()) {
        Some(a) => if a.len() == 3 && u8_of(a[0]) is Some && u8_of(a[1]) is Some && u8_of(
            a[2],
        ) is Some {
            Some(ColorV::Rgb(u8_of(a[0])->0, u8_of(a[1])->0, u8_of(a[2])->0))
        } else {
            None
        },
        None => None,
    }
}

pub open spec fn rgba_of(t: Seq<char>) -> Option<ColorV> {
    match call_args(t, rgba_name()) {
        Some(a) => if a.len() == 4 && u8_of(a[0]) is Some && u8_of(a[1]) is Some && u8_of(
            a[2],
        ) is Some && decimal_of(a[3]) is Some {
            Some(
                ColorV::Rgba(
                    u8_of(a[0])->0,
                    u8_of(a[1])->0,
                    u8_of(a[2])->0,
                    decimal_of(a[3])->0,
                ),
            )
        } else {
            None
        },
        None => None,
    }
}

pub open spec fn hsl_of(t: Seq<char>) -> Option<ColorV> {
    match call_args(t, hsl_name()) {
        Some(a) => if a.len() == 3 && u8_of(a[0]) is Some && percent_u8_of(a[1]) is Some
            && percent_u8_of(a[2]) is Some {
            Some(ColorV::Hsl(u8_of(a[0])->0, percent_u8_of(a[1])->0, percent_u8_of(a[2])->0))
        } else {
            None
        },
        None => None,
    }
}

pub open spec fn hsla_of(t: Seq<char>) -> Option<ColorV> {
    match call_args(t, hsla_name()) {
        Some(a) => if a.len() == 4 && u8_of(a[0]) is Some && percent_u8_of(a[1]) is Some
            && percent_u8_of(a[2]) is Some && decimal_of(a[3]) is Some {
            Some(
                ColorV::Hsla(
                    u8_of(a[0])->0,
                    percent_u8_of(a[1])->0,
                    percent_u8_of(a[2])->0,
                    decimal_of(a[3])->0,
                ),
            )
        } else {
            None
        },
        None => None,
    }
}

/// A colour: `#` and hex digits (kept as written), `rgb()`, `rgba()`,
/// `hsl()`, `hsla()`, or a colour name, tried in that order.
pub open spec fn color_of(s: Seq<char>) -> Option<ColorV> {
    let t = trim(s);
    if t.len() > 0 && t[0] == '#' {
        Some(ColorV::Hex(t.drop_first()))
    } else if rgb_of(t) is Some {
        rgb_of(t)
    } else if rgba_of(t) is Some {
        rgba_of(t)
    } else if hsl_of(t) is Some {
        hsl_of(t)
    } else if hsla_of(t) is Some {
        hsla_of(t)
    } else {
        match named_color(t) {
            Some(c) => Some(ColorV::Rgb(c.0, c.1, c.2)),
            None => None,
        }
    }
}

fn parse_rgb(t: &[char]) -> (r: Option<Color>)
    ensures
        match r {
            Some(c) => rgb_of(t@) == Some(c@),
            None => rgb_of(t@) is None,
        },
{
    let name = ['r', 'g', 'b', '('];
    assert(name@ == rgb_name());
    if let Some(a) = parse_call_args(t, &name) {
        if a.len() == 3 {
            assert(views(a@)[0] == a@[0]@ && views(a@)[1] == a@[1]@ && views(a@)[2] == a@[2]@);
            if let (Some(r), Some(g), Some(b)) = (parse_u8(&a[0]), parse_u8(&a[1]), parse_u8(&a[2])) {
                return Some(Color::Rgb(r, g, b));
            }
        }
    }
    None
}

fn parse_rgba(t: &[char]) -> (r: Option<Color>)
    ensures
        match r {
            Some(c) => rgba_of(t@) == Some(c@),
            None => rgba_of(t@) is None,
        },
{
    let name = ['r', 'g', 'b', 'a', '('];
    assert(name@ == rgba_name());
    if let Some(a) = parse_call_args(t, &name) {
        if a.len() == 4 {
            assert(views(a@)[0] == a@[0]@ && views(a@)[1] == a@[1]@ && views(a@)[2] == a@[2]@
                && views(a@)[3] == a@[3]@);
            if let (Some(r), Some(g), Some(b), Some(al)) = (
                parse_u8(&a[0]),
                parse_u8(&a[1]),
                parse_u8(&a[2]),
                parse_decimal(&a[3]),
            ) {
                return Some(Color::Rgba(r, g, b, al));
            }
        }
    }
    None
}

fn parse_hsl(t: &[char]) -> (r: Option<Color>)
    ensures
        match r {
            Some(c) => hsl_of(t@) == Some(c@),
            None => hsl_of(t@) is None,
        },
{
    let name = ['h', 's', 'l', '('];
    assert(name@ == hsl_name());
    if let Some(a) = parse_call_args(t, &name) {
        if a.len() == 3 {
            assert(views(a@)[0] == a@[0]@ && views(a@)[1] == a@[1]@ && views(a@)[2] == a@[2]@);
            if let (Some(h), Some(sat), Some(light)) = (
                parse_u8(&a[0]),
                parse_percent_u8(&a[1]),
                parse_percent_u8(&a[2]),
            ) {
                return Some(Color::Hsl(h, sat, light));
            }
        }
    }
    None
}

fn parse_hsla(t: &[char]) -> (r: Option<Color>)
    ensures
        match r {
            Some(c) => hsla_of(t@) == Some(c@),
            None => hsla_of(t@) is None,
        },
{
    let name = ['h', 's', 'l', 'a', '('];
    assert(name@ == hsla_name());
    if let Some(a) = parse_call_args(t, &name) {
        if a.len() == 4 {
            assert(views(a@)[0] == a@[0]@ && views(a@)[1] == a@[1]@ && views(a@)[2] == a@[2]@
                && views(a@)[3] == a@[3]@);
            if let (Some(h), Some(sat), Some(light), Some(al)) = (
                parse_u8(&a[0]),
                parse_percent_u8(&a[1]),
                parse_percent_u8(&a[2]),
                parse_decimal(&a[3]),
            ) {
                return Some(Color::Hsla(h, sat, light, al));
            }
        }
    }
    None
}

pub fn parse_color(s: &[char]) -> (r: Option<Color>)
    ensures
        match r {
            Some(c) => color_of(s@) == Some(c@),
            None => color_of(s@) is None,
        },
{
    let t = trimmed(s);
    if t.len() > 0 && t[0] == '#' {
        let hex = sub_vec(&t, 1, t.len());
        assert(hex@ =~= t@.drop_first());
        return Some(Color::Hex(string_from(&hex)));
    }
    if let Some(c) = parse_rgb(&t) {
        return Some(c);
    }
    if let Some(c) = parse_rgba(&t) {
        return Some(c);
    }
    if let Some(c) = parse_hsl(&t) {
        return Some(c);
    }
    if let Some(c) = parse_hsla(&t) {
        return Some(c);
    }
    match lookup_named_color(&t) {
        Some((r, g, b)) => Some(Color::Rgb(r, g, b)),
        None => None,
    }
}

/// A declared value: a length, else a colour, else the text as a keyword.
pub open spec fn value_of(s: Seq<char>) -> PropV {
    match length_of(s) {
        Some(l) => PropV::Length(l),
        None => match color_of(s) {
            Some(c) => PropV::Color(c),
            None => PropV::Keyword(s),
        },
    }
}

/// One selector of a group, already trimmed.
pub open spec fn selector_of(p: Seq<char>) -> SelectorV {
    if p == seq!['*'] {
        SelectorV::Universal
    } else if p.len() > 0 && p[0] == '.' {
        SelectorV::Class(p.drop_first())
    } else if p.len() > 0 && p[0] == '#' {
        SelectorV::Id(p.drop_first())
    } else {
        SelectorV::Type(p)
    }
}

/// The selectors of a comma-separated group.
pub open spec fn selectors_of(text: Seq<char>) -> Seq<SelectorV> {
    split(text, ',').map_values(|p: Seq<char>| selector_of(trim(p)))
}

/// The declarations of a rule body, in order; a later one overrides an
/// earlier one of the same name.
pub open spec fn props_of(decls: Seq<Seq<char>>) -> Map<Seq<char>, PropV>
    decreases decls.len(),
{
    if decls.len() == 0 {
        Map::empty()
    } else {
        let m = props_of(decls.drop_last());
        let d = trim(decls.last());
        if d.len() == 0 {
            m
        } else {
            match find(d, ':') {
                Some(i) => m.insert(trim(d.take(i)), value_of(trim(d.skip(i + 1)))),
                None => m,
            }
        }
    }
}

pub open spec fn props_view(m: Map<Seq<char>, StyleProperty>) -> Map<Seq<char>, PropV> {
    m.map_values(|p: StyleProperty| p@)
}

/// A rule as plain values.
pub struct RuleV {
    pub selectors: Seq<SelectorV>,
    pub properties: Map<Seq<char>, PropV>,
}

pub open spec fn rule_view(r: CssRule) -> RuleV {
    RuleV {
        selectors: r.selectors@.map_values(|s: Selector| s@),
        properties: props_view(r.properties@),
    }
}

pub open spec fn rules_view(rs: Seq<CssRule>) -> Seq<RuleV> {
    rs.map_values(|r: CssRule| rule_view(r))
}

/// The rule at the start of `t`, and what follows it: the selector text up
/// to the first `{`, and the body up to the next `}`.
#[verifier::opaque]
pub open spec fn rule_at(t: Seq<char>) -> Option<(RuleV, Seq<char>)> {
    match find(t, '{') {
        None => None,
        Some(i) => {
            let after = t.skip(i + 1);
            match find(after, '}') {
                None => None,
                Some(j) => Some(
                    (
                        RuleV {
                            selectors: selectors_of(trim(t.take(i))),
                            properties: props_of(split(trim(after.take(j)), ';')),
                        },
                        after.skip(j + 1),
                    ),
                ),
            }
        },
    }
}

pub proof fn lemma_trim_start_len(s: Seq<char>)
    ensures
        trim_start(s).len() <= s.len(),
        trim_start(s) == s.skip(s.len() - trim_start(s).len()),
    decreases s.len(),
{
    if s.len() > 0 && crate::text::is_ws(s[0]) {
        lemma_trim_start_len(s.drop_first());
        assert(s.drop_first().skip(s.drop_first().len() - trim_start(s).len()) =~= s.skip(
            s.len() - trim_start(s).len(),
        ));
    } else {
        assert(s.skip(0) =~= s);
    }
}

pub proof fn lemma_rule_at_shorter(t: Seq<char>)
    ensures
        rule_at(t) matches Some((_, rest)) ==> rest.len() < t.len(),
{
    reveal(rule_at);
    lemma_find(t, '{');
    if let Some(i) = find(t, '{') {
        lemma_find(t.skip(i + 1), '}');
    }
}

/// The rules of a style sheet: skip whitespace, read a rule, and repeat
/// until no complete rule is left.
pub open spec fn css_rules(s: Seq<char>) -> Seq<RuleV>
    decreases s.len(),
{
    match rule_at(trim_start(s)) {
        None => seq![],
        Some((r, rest)) => {
            proof {
                lemma_trim_start_len(s);
                lemma_rule_at_shorter(trim_start(s));
            }
            seq![r] + css_rules(rest)
        },
    }
}

proof fn lemma_skip_skip(s: Seq<char>, a: int, b: int)
    requires
        0 <= a,
        0 <= b,
        a + b <= s.len(),
    ensures
        s.skip(a).skip(b) == s.skip(a + b),
{
    assert(s.skip(a).skip(b) =~= s.skip(a + b));
}

/// A style sheet parser: the text and how far it has been read.
pub struct CssParser {
    input: Vec<char>,
    position: usize,
}

impl CssParser {
    /// The text not yet read.
    pub closed spec fn remaining(&self) -> Seq<char> {
        self.input@.skip(self.position as int)
    }

    pub closed spec fn wf(&self) -> bool {
        self.position <= self.input@.len()
    }

    /// A parser at the start of `input`.
    pub fn new(input: &str) -> (r: Self)
        ensures
            r.wf(),
            r.remaining() == input@,
    {
        let r = CssParser { input: chars_of(input), position: 0 };
        assert(r.input@.skip(0) =~= r.input@);
        r
    }

    /// Every rule of the remaining text, in order.
    pub fn parse_rules(&mut self) -> (r: Vec<CssRule>)
        requires
            old(self).wf(),
        ensures
            final(self).wf(),
            rules_view(r@) == css_rules(old(self).remaining()),
    {
        let mut rules: Vec<CssRule> = Vec::new();
        let ghost start = self.remaining();
        let mut done = false;
        while !done && self.position < self.input.len()
            invariant
                self.wf(),
                !done ==> rules_view(rules@) + css_rules(self.remaining()) == css_rules(start),
                done ==> rules_view(rules@) == css_rules(start),
            decreases self.input@.len() - self.position + (if done {
                0int
            } else {
                1int
            }),
        {
            let ghost before = self.remaining();
            self.skip_whitespace();
            let ghost t = self.remaining();
            proof {
                lemma_rule_at_shorter(t);
            }
            match self.parse_rule() {
                Some(rule) => {
                    assert(self.remaining().len() < t.len());
                    let ghost rv = rule_view(rule);
                    let ghost prev = rules_view(rules@);
                    rules.push(rule);
                    assert(rules_view(rules@) =~= prev.push(rv));
                    assert(css_rules(before) == seq![rv] + css_rules(self.remaining()));
                    assert(rules_view(rules@) + css_rules(self.remaining()) =~= prev + (seq![rv]
                        + css_rules(self.remaining())));
                },
                None => {
                    assert(css_rules(before) == Seq::<RuleV>::empty());
                    assert(rules_view(rules@) + css_rules(before) =~= rules_view(rules@));
                    done = true;
                },
            }
        }
        proof {
            if !done {
                assert(self.remaining() =~= Seq::<char>::empty());
                assert(trim_start(self.remaining()) =~= Seq::<char>::empty());
                assert(find(Seq::<char>::empty(), '{') is None);
                reveal(rule_at);
                assert(rules_view(rules@) + css_rules(self.remaining()) =~= rules_view(rules@));
            }
        }
        rules
    }

    /// The rule at the start of the remaining text, which is consumed with it.
    fn parse_rule(&mut self) -> (r: Option<CssRule>)
        requires
            old(self).wf(),
        ensures
            final(self).wf(),
            final(self).input == old(self).input,
            final(self).position >= old(self).position,
            match rule_at(old(self).remaining()) {
                Some((rv, rest)) => r is Some && rule_view(r->0) == rv && final(self).remaining()
                    == rest,
                None => r is None,
            },
    {
        let ghost t = self.remaining();
        let ghost p0 = self.position;
        let selector_text = match self.consume_until('{') {
            Some(x) => x,
            None => {
                proof {
                    reveal(rule_at);
                }
                return None;
            },
        };
        let ghost i = find(t, '{')->0;
        let n = self.input.len();
        assert(self.position == p0 + i);
        assert(t == self.input@.skip(p0 as int));
        assert(self.input@.len() == n);
        assert(p0 + i < n);
        self.position = self.position + 1;
        let ghost after = self.remaining();
        assert(after == self.input@.skip(p0 + i + 1));
        proof {
            lemma_find(t, '{');
            lemma_skip_skip(self.input@, p0 as int, i + 1);
        }
        let body_text = match self.consume_until('}') {
            Some(x) => x,
            None => {
                proof {
                    reveal(rule_at);
                }
                return None;
            },
        };
        let ghost j = find(after, '}')->0;
        let ghost p1 = (p0 + i + 1) as int;
        assert(self.position == p1 + j);
        let n = self.input.len();
        self.position = self.position + 1;
        assert(self.remaining() == self.input@.skip(p1 + j + 1));
        proof {
            lemma_find(after, '}');
            lemma_skip_skip(self.input@, p1, j + 1);
        }
        let selectors = parse_selectors(&selector_text);
        let properties = parse_properties(&body_text);
        proof {
            reveal(rule_at);
        }
        Some(CssRule { selectors, properties })
    }

    /// The trimmed text up to the next `delim`, where the reading then stops;
    /// nothing is read if no `delim` is left.
    fn consume_until(&mut self, delim: char) -> (r: Option<Vec<char>>)
        requires
            old(self).wf(),
        ensures
            final(self).wf(),
            final(self).input == old(self).input,
            match find(old(self).remaining(), delim) {
                Some(i) => r is Some && r->0@ == trim(old(self).remaining().take(i))
                    && final(self).position == old(self).position + i && final(self).position
                    < final(self).input@.len() && final(self).input@[final(self).position as int]
                    == delim,
                None => r is None && final(self).position == old(self).position,
            },
    {
        let ghost rest = self.remaining();
        assert(rest == self.input@.skip(self.position as int));
        let inp: &[char] = self.input.as_slice();
        assert(inp@ == self.input@);
        let found = find_from(inp, self.position, delim);
        assert(inp@.skip(self.position as int) == rest);
        match found {
            Some(idx) => {
                proof {
                    lemma_find(rest, delim);
                }
                assert(find(rest, delim) is Some);
                let ghost i = find(rest, delim)->0;
                assert(0 <= i < rest.len());
                let n = self.input.len();
                assert(idx == self.position + i);
                assert(idx < self.input@.len());
                let text = sub_vec(self.input.as_slice(), self.position, idx);
                assert(text@ =~= rest.take(idx - self.position));
                self.position = idx;
                Some(trimmed(&text))
            },
            None => None,
        }
    }

    /// Reads past the whitespace at the reading position.
    fn skip_whitespace(&mut self)
        requires
            old(self).wf(),
        ensures
            final(self).wf(),
            final(self).input == old(self).input,
            final(self).position >= old(self).position,
            final(self).remaining() == trim_start(old(self).remaining()),
    {
        let ghost s = self.remaining();
        while self.position < self.input.len() && is_whitespace(self.input[self.position])
            invariant
                self.wf(),
                self.input == old(self).input,
                self.position >= old(self).position,
                trim_start(self.remaining()) == trim_start(s),
            decreases self.input@.len() - self.position,
        {
            assert(self.remaining().drop_first() =~= self.input@.skip(self.position + 1));
            self.position = self.position + 1;
        }
    }
}

/// The selectors of a comma-separated group.
fn parse_selectors(text: &[char]) -> (r: Vec<Selector>)
    ensures
        r@.map_values(|s: Selector| s@) == selectors_of(text@),
{
    let pieces = split_on(text, ',');
    let mut out: Vec<Selector> = Vec::new();
    let mut i: usize = 0;
    while i < pieces.len()
        invariant
            i <= pieces@.len(),
            views(pieces@) == split(text@, ','),
            out@.map_values(|s: Selector| s@) == views(pieces@).take(i as int).map_values(
                |p: Seq<char>| selector_of(trim(p)),
            ),
        decreases pieces@.len() - i,
    {
        let p = trimmed(&pieces[i]);
        assert(views(pieces@)[i as int] == pieces@[i as int]@);
        let star = ['*'];
        assert(star@ == seq!['*']);
        let sel = if same_chars(&p, &star) {
            Selector::Universal
        } else if p.len() > 0 && p[0] == '.' {
            let rest = sub_vec(&p, 1, p.len());
            assert(rest@ =~= p@.drop_first());
            Selector::Class(string_from(&rest))
        } else if p.len() > 0 && p[0] == '#' {
            let rest = sub_vec(&p, 1, p.len());
            assert(rest@ =~= p@.drop_first());
            Selector::Id(string_from(&rest))
        } else {
            Selector::Type(string_from(&p))
        };
        let ghost o = out@.map_values(|s: Selector| s@);
        out.push(sel);
        assert(out@.map_values(|s: Selector| s@) =~= o.push(sel@));
        assert(views(pieces@).take(i + 1).map_values(|p: Seq<char>| selector_of(trim(p))) =~= views(
            pieces@,
        ).take(i as int).map_values(|p: Seq<char>| selector_of(trim(p))).push(
            selector_of(trim(views(pieces@)[i as int])),
        ));
        i += 1;
    }
    assert(views(pieces@).take(pieces@.len() as int) =~= views(pieces@));
    out
}

/// The declarations of a rule body.
fn parse_properties(text: &[char]) -> (r: StrMap<StyleProperty>)
    ensures
        props_view(r@) == props_of(split(text@, ';')),
{
    let pieces = split_on(text, ';');
    let mut map: StrMap<StyleProperty> = StrMap::new();
    let mut i: usize = 0;
    assert(props_view(map@) =~= props_of(views(pieces@).take(0)));
    while i < pieces.len()
        invariant
            i <= pieces@.len(),
            views(pieces@) == split(text@, ';'),
            props_view(map@) == props_of(views(pieces@).take(i as int)),
        decreases pieces@.len() - i,
    {
        let d = trimmed(&pieces[i]);
        let ghost decls = views(pieces@).take(i + 1);
        assert(decls.drop_last() =~= views(pieces@).take(i as int));
        assert(decls.last() == pieces@[i as int]@);
        if d.len() > 0 {
            assert(d@.skip(0) =~= d@);
            match find_from(&d, 0, ':') {
                Some(c) => {
                    proof {
                        lemma_find(d@, ':');
                    }
                    let name = trimmed(&sub_vec(&d, 0, c));
                    let value = trimmed(&sub_vec(&d, c + 1, d.len()));
                    assert(d@.subrange(0, c as int) =~= d@.take(c as int));
                    assert(d@.subrange(c + 1, d@.len() as int) =~= d@.skip(c + 1));
                    let prop = parse_value(&value);
                    let ghost m0 = map@;
                    let ghost pv = prop@;
                    map.insert(string_from(&name), prop);
                    assert(props_view(map@) =~= props_view(m0).insert(name@, pv));
                },
                None => {},
            }
        }
        i += 1;
    }
    assert(views(pieces@).take(pieces@.len() as int) =~= views(pieces@));
    map
}

/// A declared value, already trimmed: a length, else a colour, else a keyword.
fn parse_value(s: &[char]) -> (r: StyleProperty)
    ensures
        r@ == value_of(s@),
{
    if let Some(length) = parse_length(s) {
        return StyleProperty::Length(length);
    }
    if let Some(color) = parse_color(s) {
        return StyleProperty::Color(color);
    }
    StyleProperty::Keyword(string_from(s))
}

/// The rules of a style sheet, in order.
pub fn parse_css(input: &str) -> (r: Vec<CssRule>)
    ensures
        rules_view(r@) == css_rules(input@),
{
    let mut parser = CssParser::new(input);
    parser.parse_rules()
}

} // verus!
