//! Locale-tolerant price text normalization.
use vstd::prelude::*;
use vstd::string::*;
use crate::strings::{parse_unsigned, parsed_unsigned, commas_to_dots, digits_value, is_digit, occurs_at, remove_all, removed, replace_commas, trim, trim_end_spec, trim_spec, trim_start_spec};

verus! {

/// Mantissa of the sentinel price returned for malformed price text.
pub const SENTINEL_MANTISSA: i64 = -999;

/// Scale of the sentinel price returned for malformed price text.
pub const SENTINEL_SCALE: u32 = 2;

/// Most decimal digits a price may carry; more would not fit the mantissa.
pub const MAX_PRICE_DIGITS: usize = 18;

/// A decimal price: `mantissa / 10^scale`, as it was written in the page.
/// Two prices are equal when they denote the same number.
#[derive(Debug, Clone, Copy)]
pub struct Price {
    pub mantissa: i64,
    pub scale: u32,
}

impl Price {
    /// The same number with no trailing zero in its fraction.
    pub open spec fn canonical(self) -> Price
        decreases self.scale,
    {
        if self.scale > 0 && self.mantissa % 10 == 0 {
            Price { mantissa: (self.mantissa / 10) as i64, scale: (self.scale - 1) as u32 }.canonical()
        } else {
            self
        }
    }

    /// Drops the trailing zeros of the fraction.
    pub fn reduced(&self) -> (r: Price)
        ensures
            r == self.canonical(),
    {
        let mut m = self.mantissa;
        let mut s = self.scale;
        while s > 0 && m % 10 == 0
            invariant
                (Price { mantissa: m, scale: s }).canonical() == self.canonical(),
            decreases s,
        {
            m = m / 10;
            s = s - 1;
        }
        Price { mantissa: m, scale: s }
    }
}

impl PartialEq for Price {
    fn eq(&self, other: &Price) -> (r: bool) {
        let a = self.reduced();
        let b = other.reduced();
        a.mantissa == b.mantissa && a.scale == b.scale
    }
}

impl vstd::std_specs::cmp::PartialEqSpecImpl for Price {
    open spec fn obeys_eq_spec() -> bool {
        true
    }

    open spec fn eq_spec(&self, other: &Price) -> bool {
        self.canonical() == other.canonical()
    }
}

pub open spec fn all_digits(s: Seq<char>) -> bool {
    forall|i: int| 0 <= i < s.len() ==> is_digit(#[trigger] s[i])
}

pub open spec fn nbsp_euro() -> Seq<char> {
    seq!['\u{a0}', '€']
}

pub open spec fn euro_nbsp() -> Seq<char> {
    seq!['€', '\u{a0}']
}

pub open spec fn euro() -> Seq<char> {
    seq!['€']
}

pub open spec fn zloty() -> Seq<char> {
    seq!['z', 'ł']
}

/// The price text once currency markers are gone, commas are dots, and the
/// surrounding white space is trimmed.
pub open spec fn cleaned_price_text(raw: Seq<char>) -> Seq<char> {
    trim_spec(
        commas_to_dots(
            removed(removed(removed(removed(raw, nbsp_euro()), euro_nbsp()), euro()), zloty()),
        ),
    )
}

/// Index of the first dot in `s`, or its length when it has none.
pub open spec fn dot_index(s: Seq<char>) -> nat
    decreases s.len(),
{
    if s.len() == 0 || s[0] == '.' {
        0
    } else {
        1 + dot_index(s.drop_first())
    }
}

/// The digits before the dot.
pub open spec fn integer_part(s: Seq<char>) -> Seq<char> {
    s.subrange(0, dot_index(s) as int)
}

/// The digits after the dot (empty when there is no dot).
pub open spec fn fraction_part(s: Seq<char>) -> Seq<char> {
    if dot_index(s) < s.len() {
        s.subrange(dot_index(s) as int + 1, s.len() as int)
    } else {
        Seq::empty()
    }
}

/// Text of the form `<digits>`, `<digits>.<digits>`, `<digits>.` or
/// `.<digits>`, with at least one and at most `MAX_PRICE_DIGITS` digits.
pub open spec fn is_decimal_text(s: Seq<char>) -> bool {
    &&& integer_part(s).len() + fraction_part(s).len() > 0
    &&& all_digits(integer_part(s))
    &&& all_digits(fraction_part(s))
    &&& integer_part(s).len() + fraction_part(s).len() <= MAX_PRICE_DIGITS
}

/// The price that a decimal text denotes, keeping its number of fraction digits.
pub open spec fn decimal_price(s: Seq<char>) -> Price {
    Price {
        mantissa: digits_value(integer_part(s) + fraction_part(s)) as i64,
        scale: fraction_part(s).len() as u32,
    }
}

/// Largest exponent magnitude read; beyond it no price is representable.
pub const MAX_EXPONENT: u32 = 1000;

/// Length of a leading sign.
pub open spec fn sign_len(s: Seq<char>) -> int {
    if s.len() > 0 && (s[0] == '+' || s[0] == '-') {
        1
    } else {
        0
    }
}

pub open spec fn is_exp_marker(c: char) -> bool {
    c == 'e' || c == 'E'
}

/// Index of the first exponent marker in `s`, or its length when it has none.
pub open spec fn exp_index(s: Seq<char>) -> nat
    decreases s.len(),
{
    if s.len() == 0 || is_exp_marker(s[0]) {
        0
    } else {
        1 + exp_index(s.drop_first())
    }
}

/// A number text without its sign.
pub open spec fn unsigned_part(s: Seq<char>) -> Seq<char> {
    s.subrange(sign_len(s), s.len() as int)
}

/// The digits and dot before the exponent.
pub open spec fn significand_text(s: Seq<char>) -> Seq<char> {
    unsigned_part(s).subrange(0, exp_index(unsigned_part(s)) as int)
}

/// The exponent: 0 without one; `None` where its text is not a signed
/// number of at most `MAX_EXPONENT`.
pub open spec fn exponent_value(s: Seq<char>) -> Option<int> {
    let u = unsigned_part(s);
    let k = exp_index(u);
    if k == u.len() {
        Some(0)
    } else {
        let x = u.subrange(k as int + 1, u.len() as int);
        if x.len() > 0 && x[0] == '-' {
            let body = x.drop_first();
            if body.len() > 0 && body[0] == '+' {
                None
            } else {
                match parsed_unsigned(body, MAX_EXPONENT as nat) {
                    Some(v) => Some(-v),
                    None => None,
                }
            }
        } else {
            match parsed_unsigned(x, MAX_EXPONENT as nat) {
                Some(v) => Some(v as int),
                None => None,
            }
        }
    }
}

/// The largest mantissa a price can hold.
pub open spec fn max_mantissa() -> nat {
    0x7fff_ffff_ffff_ffffnat
}

/// A price times `10^e`, where it stays representable.
pub open spec fn scaled(p: Price, e: int) -> Option<Price> {
    let ns = p.scale - e;
    if ns >= 0 {
        Some(Price { mantissa: p.mantissa, scale: ns as u32 })
    } else if (p.mantissa as nat) * pow10((-ns) as nat) <= max_mantissa() {
        Some(Price { mantissa: ((p.mantissa as nat) * pow10((-ns) as nat)) as i64, scale: 0 })
    } else {
        None
    }
}

/// The price a number text denotes: an optional sign, a decimal text and an
/// optional exponent (`e` or `E`, an optional sign, digits); `None` where the
/// text is no such number or its value is not representable.
pub open spec fn number_price(t: Seq<char>) -> Option<Price> {
    let sig = significand_text(t);
    if !is_decimal_text(sig) {
        None
    } else {
        match exponent_value(t) {
            None => None,
            Some(e) => match scaled(decimal_price(sig), e) {
                None => None,
                Some(p) => if t.len() > 0 && t[0] == '-' {
                    Some(Price { mantissa: (-p.mantissa) as i64, scale: p.scale })
                } else {
                    Some(p)
                },
            },
        }
    }
}

/// What `clean_price` makes of a raw price text.
pub open spec fn normalized(raw: Seq<char>) -> Price {
    match number_price(cleaned_price_text(raw)) {
        Some(p) => p,
        None => sentinel(),
    }
}

pub open spec fn pow10(n: nat) -> nat
    decreases n,
{
    if n == 0 {
        1
    } else {
        10 * pow10((n - 1) as nat)
    }
}

proof fn lemma_digits_value_bound(s: Seq<char>)
    requires
        all_digits(s),
    ensures
        digits_value(s) < pow10(s.len()),
    decreases s.len(),
{
    if s.len() > 0 {
        let t = s.drop_last();
        assert(all_digits(t)) by {
            assert forall|i: int| 0 <= i < t.len() implies is_digit(#[trigger] t[i]) by {
                assert(t[i] == s[i]);
            }
        }
        lemma_digits_value_bound(t);
        assert(is_digit(s[s.len() - 1]));
    }
}

proof fn lemma_pow10_18()
    ensures
        pow10(18) == 1_000_000_000_000_000_000nat,
{
    reveal_with_fuel(pow10, 19);
}

proof fn lemma_pow10_mono(a: nat, b: nat)
    requires
        a <= b,
    ensures
        pow10(a) <= pow10(b),
    decreases b,
{
    if a < b {
        lemma_pow10_mono(a, (b - 1) as nat);
    }
}


proof fn lemma_dot_index_is_first(s: Seq<char>)
    ensures
        dot_index(s) <= s.len(),
        forall|j: int| 0 <= j < dot_index(s) ==> s[j] != '.',
        dot_index(s) < s.len() ==> s[dot_index(s) as int] == '.',
    decreases s.len(),
{
    if s.len() > 0 && s[0] != '.' {
        lemma_dot_index_is_first(s.drop_first());
        assert forall|j: int| 0 <= j < dot_index(s) implies s[j] != '.' by {
            if j > 0 {
                assert(s[j] == s.drop_first()[j - 1]);
            }
        }
    }
}

fn find_dot(s: &str, n: usize) -> (k: usize)
    requires
        n == s@.len(),
    ensures
        k == dot_index(s@),
{
    proof {
        lemma_dot_index_is_first(s@);
    }
    let mut i: usize = 0;
    while i < n && s.get_char(i) != '.'
        invariant
            n == s@.len(),
            i <= n,
            dot_index(s@) <= n,
            forall|j: int| 0 <= j < dot_index(s@) ==> s@[j] != '.',
            dot_index(s@) < n ==> s@[dot_index(s@) as int] == '.',
            forall|j: int| 0 <= j < i ==> s@[j] != '.',
        decreases n - i,
    {
        i = i + 1;
    }
    i
}

/// Reads a decimal text; `None` where it is not one.
pub fn parse_decimal(s: &str) -> (r: Option<Price>)
    ensures
        r == (if is_decimal_text(s@) {
            Some(decimal_price(s@))
        } else {
            None::<Price>
        }),
{
    let n = s.unicode_len();
    let k = find_dot(s, n);
    proof {
        lemma_dot_index_is_first(s@);
    }
    let ghost ip = integer_part(s@);
    let ghost fp = fraction_part(s@);
    let ghost d = ip + fp;
    let frac_start: usize = if k < n { k + 1 } else { n };
    if k + (n - frac_start) == 0 || k + (n - frac_start) > MAX_PRICE_DIGITS {
        return None;
    }
    assert(fp =~= s@.subrange(frac_start as int, n as int));
    let mut mant: u64 = 0;
    let mut i: usize = 0;
    let total: usize = k + (n - frac_start);
    proof {
        lemma_pow10_18();
        lemma_pow10_mono(total as nat, 18);
    }
    while i < total
        invariant
            n == s@.len(),
            k == dot_index(s@),
            k <= n,
            frac_start <= n,
            fp == s@.subrange(frac_start as int, n as int),
            ip == s@.subrange(0, k as int),
            ip == integer_part(s@),
            fp == fraction_part(s@),
            d == ip + fp,
            total == d.len(),
            total <= 18,
            pow10(total as nat) <= 1_000_000_000_000_000_000nat,
            i <= total,
            all_digits(d.subrange(0, i as int)),
            mant == digits_value(d.subrange(0, i as int)),
        decreases total - i,
    {
        let c = if i < k { s.get_char(i) } else { s.get_char(frac_start + (i - k)) };
        assert(c == d[i as int]);
        if !('0' <= c && c <= '9') {
            assert(!is_decimal_text(s@)) by {
                assert(!is_digit(c));
                if i < k {
                    assert(ip[i as int] == c);
                    assert(!all_digits(ip));
                } else {
                    assert(fp[i - k] == c);
                    assert(!all_digits(fp));
                }
            }
            return None;
        }
        proof {
            let nx = d.subrange(0, i + 1);
            assert(nx.drop_last() =~= d.subrange(0, i as int));
            assert(all_digits(nx));
            lemma_digits_value_bound(nx);
            lemma_pow10_mono((i + 1) as nat, total as nat);
        }
        mant = mant * 10 + (c as u32 - '0' as u32) as u64;
        i = i + 1;
    }
    assert(d.subrange(0, total as int) =~= d);
    assert(all_digits(ip)) by {
        assert forall|j: int| 0 <= j < ip.len() implies is_digit(#[trigger] ip[j]) by {
            assert(ip[j] == d[j]);
        }
    }
    assert(all_digits(fp)) by {
        assert forall|j: int| 0 <= j < fp.len() implies is_digit(#[trigger] fp[j]) by {
            assert(fp[j] == d[ip.len() + j]);
        }
    }
    proof {
        lemma_digits_value_bound(d);
    }
    Some(Price { mantissa: mant as i64, scale: (n - frac_start) as u32 })
}

pub open spec fn sentinel() -> Price {
    Price { mantissa: SENTINEL_MANTISSA, scale: SENTINEL_SCALE }
}

} // verus!

verus! {

proof fn lemma_exp_index_is_first(s: Seq<char>)
    ensures
        exp_index(s) <= s.len(),
        forall|j: int| 0 <= j < exp_index(s) ==> !is_exp_marker(s[j]),
        exp_index(s) < s.len() ==> is_exp_marker(s[exp_index(s) as int]),
    decreases s.len(),
{
    if s.len() > 0 && !is_exp_marker(s[0]) {
        lemma_exp_index_is_first(s.drop_first());
        assert forall|j: int| 0 <= j < exp_index(s) implies !is_exp_marker(s[j]) by {
            if j > 0 {
                assert(s[j] == s.drop_first()[j - 1]);
            }
        }
    }
}

fn find_exp(s: &str, n: usize) -> (k: usize)
    requires
        n == s@.len(),
    ensures
        k == exp_index(s@),
        k <= n,
{
    proof {
        lemma_exp_index_is_first(s@);
    }
    let mut i: usize = 0;
    while i < n && !(s.get_char(i) == 'e' || s.get_char(i) == 'E')
        invariant
            n == s@.len(),
            i <= n,
            exp_index(s@) <= n,
            forall|j: int| 0 <= j < exp_index(s@) ==> !is_exp_marker(s@[j]),
            exp_index(s@) < n ==> is_exp_marker(s@[exp_index(s@) as int]),
            forall|j: int| 0 <= j < i ==> !is_exp_marker(s@[j]),
        decreases n - i,
    {
        i = i + 1;
    }
    i
}

proof fn lemma_decimal_price_bounds(s: Seq<char>)
    requires
        is_decimal_text(s),
    ensures
        digits_value(integer_part(s) + fraction_part(s)) < 1_000_000_000_000_000_000nat,
        fraction_part(s).len() <= MAX_PRICE_DIGITS,
{
    let d = integer_part(s) + fraction_part(s);
    let ip = integer_part(s);
    assert forall|i: int| 0 <= i < d.len() implies is_digit(#[trigger] d[i]) by {
        if i < ip.len() {
            assert(d[i] == ip[i]);
        } else {
            assert(d[i] == fraction_part(s)[i - ip.len()]);
        }
    }
    lemma_digits_value_bound(d);
    lemma_pow10_mono(d.len(), 18);
    lemma_pow10_18();
}

/// `m * 10^k`, where it does not exceed the largest mantissa.
fn scale_up(m: u64, k: u32) -> (r: Option<u64>)
    requires
        m <= max_mantissa(),
    ensures
        r matches Some(v) ==> v as nat == (m as nat) * pow10(k as nat) && v as nat <= max_mantissa(),
        r is None ==> (m as nat) * pow10(k as nat) > max_mantissa(),
{
    let mut cur: u64 = m;
    let mut j: u32 = 0;
    assert(pow10(0) == 1);
    assert((m as nat) * pow10(0) == m as nat) by (nonlinear_arith)
        requires
            pow10(0) == 1,
    ;
    while j < k
        invariant
            j <= k,
            cur as nat == (m as nat) * pow10(j as nat),
            cur as nat <= max_mantissa(),
        decreases k - j,
    {
        if cur > 922_337_203_685_477_580 {
            proof {
                lemma_pow10_split(j as nat, (k - j) as nat);
                lemma_pow10_mono(1, (k - j) as nat);
                let rest = pow10((k - j) as nat);
                assert(pow10(1) == 10) by {
                    reveal_with_fuel(pow10, 2);
                }
                assert((cur as nat) * rest >= (cur as nat) * 10) by (nonlinear_arith)
                    requires
                        rest >= 10,
                ;
                assert((m as nat) * pow10(k as nat) == (cur as nat) * rest) by (nonlinear_arith)
                    requires
                        pow10(k as nat) == pow10(j as nat) * rest,
                        (cur as nat) == (m as nat) * pow10(j as nat),
                ;
            }
            return None;
        }
        proof {
            let pj = pow10(j as nat);
            assert(pow10((j + 1) as nat) == 10 * pj);
            assert((m as nat) * (10 * pj) == ((m as nat) * pj) * 10) by (nonlinear_arith);
        }
        cur = cur * 10;
        j = j + 1;
    }
    Some(cur)
}

proof fn lemma_pow10_split(a: nat, b: nat)
    ensures
        pow10(a + b) == pow10(a) * pow10(b),
    decreases b,
{
    if b == 0 {
        assert(a + b == a);
        assert(pow10(0) == 1);
        assert(pow10(a) * 1 == pow10(a));
    } else {
        let c = (b - 1) as nat;
        lemma_pow10_split(a, c);
        let x = pow10(a);
        let y = pow10(c);
        assert(a + b == (a + c) + 1);
        assert(pow10(a + b) == 10 * pow10(a + c));
        assert(pow10(b) == 10 * y);
        assert(x * (10 * y) == 10 * (x * y)) by (nonlinear_arith);
    }
}

/// Reads a number text: an optional sign, a decimal text with at most
/// `MAX_PRICE_DIGITS` digits, and an optional exponent. `None` where the
/// text is no such number or its value does not fit a price.
pub fn parse_number(t: &str) -> (r: Option<Price>)
    ensures
        r == number_price(t@),
{
    let n = t.unicode_len();
    let first: char = if n > 0 { t.get_char(0) } else { ' ' };
    let neg = n > 0 && first == '-';
    let sl: usize = if n > 0 && (first == '+' || first == '-') { 1 } else { 0 };
    let u = t.substring_char(sl, n);
    let un = n - sl;
    assert(u@ == unsigned_part(t@));
    let k = find_exp(u, un);
    let sig = u.substring_char(0, k);
    let base = match parse_decimal(sig) {
        Some(b) => b,
        None => return None,
    };
    proof {
        lemma_decimal_price_bounds(sig@);
    }
    let e: i64 = if k == un {
        0
    } else {
        let x = u.substring_char(k + 1, un);
        let xn = un - k - 1;
        if xn > 0 && x.get_char(0) == '-' {
            let body = x.substring_char(1, xn);
            assert(body@ == x@.drop_first());
            if xn > 1 && body.get_char(0) == '+' {
                return None;
            }
            match parse_unsigned(body, MAX_EXPONENT) {
                Some(v) => -(v as i64),
                None => return None,
            }
        } else {
            match parse_unsigned(x, MAX_EXPONENT) {
                Some(v) => v as i64,
                None => return None,
            }
        }
    };
    assert(exponent_value(t@) == Some(e as int));
    let ns: i64 = base.scale as i64 - e;
    let p = if ns >= 0 {
        Price { mantissa: base.mantissa, scale: ns as u32 }
    } else {
        match scale_up(base.mantissa as u64, (-ns) as u32) {
            Some(v) => Price { mantissa: v as i64, scale: 0 },
            None => return None,
        }
    };
    if neg {
        Some(Price { mantissa: -p.mantissa, scale: p.scale })
    } else {
        Some(p)
    }
}

/// Turns a price text as found on a page into a price: currency markers are
/// dropped, a comma is a decimal point, surrounding white space is ignored.
/// The rest is read as a number (sign, decimal digits, exponent); text that
/// is no such number, or whose value a price cannot hold, gives the sentinel.
pub fn clean_price(raw: &str) -> (r: Price)
    ensures
        r == normalized(raw@),
{
    let a = remove_all(raw, "\u{a0}€");
    let b = remove_all(a.as_str(), "€\u{a0}");
    let c = remove_all(b.as_str(), "€");
    let d = remove_all(c.as_str(), "zł");
    let e = replace_commas(d.as_str());
    let t = trim(e.as_str());
    proof {
        reveal_strlit("\u{a0}€");
        reveal_strlit("€\u{a0}");
        reveal_strlit("€");
        reveal_strlit("zł");
        assert("\u{a0}€"@ =~= nbsp_euro());
        assert("€\u{a0}"@ =~= euro_nbsp());
        assert("€"@ =~= euro());
        assert("zł"@ =~= zloty());
    }
    match parse_number(t.as_str()) {
        Some(p) => p,
        None => Price { mantissa: SENTINEL_MANTISSA, scale: SENTINEL_SCALE },
    }
}

} // verus!

verus! {

/// Characters that appear in a written number: digits and the two separators.
pub open spec fn is_number_char(c: char) -> bool {
    is_digit(c) || c == ',' || c == '.'
}

proof fn lemma_removed_prefix(x: Seq<char>, y: Seq<char>, pat: Seq<char>)
    requires
        pat.len() > 0,
        forall|i: int| 0 <= i < x.len() ==> x[i] != pat[0],
    ensures
        removed(x + y, pat) == x + removed(y, pat),
    decreases x.len(),
{
    if x.len() > 0 {
        let s = x + y;
        assert(!occurs_at(s, pat, 0)) by {
            if occurs_at(s, pat, 0) {
                assert(s.subrange(0, pat.len() as int)[0] == s[0]);
            }
        }
        assert(s.drop_first() =~= x.drop_first() + y);
        lemma_removed_prefix(x.drop_first(), y, pat);
        assert(seq![s[0]] + (x.drop_first() + removed(y, pat)) =~= x + removed(y, pat));
    }
}

proof fn lemma_dot_index_concat(x: Seq<char>, y: Seq<char>)
    requires
        forall|i: int| 0 <= i < x.len() ==> x[i] != '.',
    ensures
        dot_index(x + y) == x.len() + dot_index(y),
    decreases x.len(),
{
    if x.len() > 0 {
        assert((x + y).drop_first() =~= x.drop_first() + y);
        lemma_dot_index_concat(x.drop_first(), y);
    }
}

spec fn number_text(x: Seq<char>) -> bool {
    &&& x.len() > 0
    &&& is_digit(x[0])
    &&& forall|i: int| 0 <= i < x.len() ==> is_number_char(#[trigger] x[i])
}

pub open spec fn spaced_zloty() -> Seq<char> {
    seq![' ', 'z', 'ł']
}

proof fn lemma_spaced_zloty_removed()
    ensures
        removed(spaced_zloty(), nbsp_euro()) == spaced_zloty(),
        removed(spaced_zloty(), euro_nbsp()) == spaced_zloty(),
        removed(spaced_zloty(), euro()) == spaced_zloty(),
        removed(spaced_zloty(), zloty()) == seq![' '],
{
    let z = spaced_zloty();
    assert(z.drop_first() =~= zloty());
    lemma_small_removed();
    assert(!occurs_at(z, nbsp_euro(), 0)) by {
        assert(z.subrange(0, 2)[0] == ' ');
    }
    assert(!occurs_at(z, euro_nbsp(), 0)) by {
        assert(z.subrange(0, 2)[0] == ' ');
    }
    assert(!occurs_at(z, euro(), 0)) by {
        assert(z.subrange(0, 1)[0] == ' ');
    }
    assert(!occurs_at(z, zloty(), 0)) by {
        assert(z.subrange(0, 2)[0] == ' ');
    }
    assert(seq![z[0]] + zloty() =~= z);
    assert(seq![z[0]] + Seq::<char>::empty() =~= seq![' ']);
}

proof fn lemma_small_removed()
    ensures
        removed(euro(), nbsp_euro()) == euro(),
        removed(zloty(), nbsp_euro()) == zloty(),
        removed(nbsp_euro(), nbsp_euro()) == Seq::<char>::empty(),
        removed(euro(), euro_nbsp()) == euro(),
        removed(zloty(), euro_nbsp()) == zloty(),
        removed(euro(), euro()) == Seq::<char>::empty(),
        removed(zloty(), euro()) == zloty(),
        removed(zloty(), zloty()) == Seq::<char>::empty(),
{
    reveal_with_fuel(removed, 3);
    assert(euro().drop_first() =~= Seq::<char>::empty());
    assert(seq![euro()[0]] + Seq::<char>::empty() =~= euro());
    assert(zloty().drop_first() =~= seq!['ł']);
    assert(seq!['ł'].drop_first() =~= Seq::<char>::empty());
    assert(seq!['z'] + (seq!['ł'] + Seq::<char>::empty()) =~= zloty());
    assert(nbsp_euro().subrange(0, 2) =~= nbsp_euro());
    assert(nbsp_euro().subrange(2, 2) =~= Seq::<char>::empty());
    assert(euro().subrange(0, 1) =~= euro());
    assert(euro().subrange(1, 1) =~= Seq::<char>::empty());
    assert(zloty().subrange(0, 2) =~= zloty());
    assert(zloty().subrange(2, 2) =~= Seq::<char>::empty());
    assert(!occurs_at(zloty(), euro(), 0)) by {
        assert(zloty().subrange(0, 1)[0] == 'z');
    }
    assert(!occurs_at(seq!['ł'], euro(), 0)) by {
        assert(seq!['ł'].subrange(0, 1)[0] == 'ł');
    }
}

proof fn lemma_removed_around(prefix: Seq<char>, num: Seq<char>, suffix: Seq<char>, pat: Seq<char>)
    requires
        number_text(num),
        prefix == Seq::<char>::empty() || prefix == euro(),
        pat == nbsp_euro() || pat == euro_nbsp() || pat == zloty(),
    ensures
        removed(prefix + (num + suffix), pat) == prefix + (num + removed(suffix, pat)),
{
    assert forall|i: int| 0 <= i < num.len() implies num[i] != pat[0] by {
        assert(is_number_char(num[i]));
    }
    lemma_removed_prefix(num, suffix, pat);
    let s = prefix + (num + suffix);
    if prefix.len() > 0 {
        assert(!occurs_at(s, pat, 0)) by {
            if occurs_at(s, pat, 0) {
                assert(s.subrange(0, pat.len() as int)[0] == s[0]);
                assert(s.subrange(0, pat.len() as int)[1] == num[0]);
            }
        }
        assert(s.drop_first() =~= num + suffix);
        assert(seq![s[0]] + (num + removed(suffix, pat)) =~= prefix + (num + removed(suffix, pat)));
    } else {
        assert(s =~= num + suffix);
        assert(prefix + (num + removed(suffix, pat)) =~= num + removed(suffix, pat));
    }
}

proof fn lemma_euro_removed(prefix: Seq<char>, num: Seq<char>, suffix: Seq<char>)
    requires
        number_text(num),
        prefix == Seq::<char>::empty() || prefix == euro(),
    ensures
        removed(prefix + (num + suffix), euro()) == num + removed(suffix, euro()),
{
    assert forall|i: int| 0 <= i < num.len() implies num[i] != euro()[0] by {
        assert(is_number_char(num[i]));
    }
    lemma_removed_prefix(num, suffix, euro());
    let s = prefix + (num + suffix);
    if prefix.len() > 0 {
        assert(s.subrange(0, 1) =~= euro());
        assert(s.subrange(1, s.len() as int) =~= num + suffix);
    } else {
        assert(s =~= num + suffix);
    }
}

/// A euro sign and a no-break space before the number go in the second pass.
proof fn lemma_euro_nbsp_prefix(num: Seq<char>, suffix: Seq<char>)
    requires
        number_text(num),
    ensures
        removed(euro_nbsp() + (num + suffix), nbsp_euro()) == euro_nbsp() + (num + removed(
            suffix,
            nbsp_euro(),
        )),
        removed(euro_nbsp() + (num + suffix), euro_nbsp()) == num + removed(suffix, euro_nbsp()),
{
    assert forall|i: int| 0 <= i < num.len() implies num[i] != nbsp_euro()[0] && num[i]
        != euro_nbsp()[0] by {
        assert(is_number_char(num[i]));
    }
    lemma_removed_prefix(num, suffix, nbsp_euro());
    lemma_removed_prefix(num, suffix, euro_nbsp());
    let s = euro_nbsp() + (num + suffix);
    let t = s.drop_first();
    assert(t =~= seq!['\u{a0}'] + (num + suffix));
    assert(!occurs_at(s, nbsp_euro(), 0)) by {
        assert(s.subrange(0, 2)[0] == s[0]);
    }
    assert(!occurs_at(t, nbsp_euro(), 0)) by {
        if occurs_at(t, nbsp_euro(), 0) {
            assert(t.subrange(0, 2)[1] == num[0]);
        }
    }
    assert(t.drop_first() =~= num + suffix);
    assert(removed(s, nbsp_euro()) == seq![s[0]] + removed(t, nbsp_euro()));
    assert(removed(t, nbsp_euro()) == seq![t[0]] + removed(num + suffix, nbsp_euro()));
    assert(seq![s[0]] + (seq![t[0]] + (num + removed(suffix, nbsp_euro()))) =~= euro_nbsp() + (num
        + removed(suffix, nbsp_euro())));
    assert(s.subrange(0, 2) =~= euro_nbsp());
    assert(s.subrange(2, s.len() as int) =~= num + suffix);
}

proof fn lemma_markers_removed(prefix: Seq<char>, num: Seq<char>, suffix: Seq<char>)
    requires
        number_text(num),
        prefix == Seq::<char>::empty() || prefix == euro() || prefix == euro_nbsp(),
        suffix == Seq::<char>::empty() || suffix == euro() || suffix == nbsp_euro() || suffix
            == zloty() || suffix == spaced_zloty(),
    ensures
        ({
            let r = removed(
                removed(removed(removed(prefix + (num + suffix), nbsp_euro()), euro_nbsp()), euro()),
                zloty(),
            );
            r == num || (suffix == spaced_zloty() && r == num + seq![' '])
        }),
{
    lemma_small_removed();
    lemma_spaced_zloty_removed();
    let s1 = removed(suffix, nbsp_euro());
    let s2 = removed(s1, euro_nbsp());
    let s3 = removed(s2, euro());
    if prefix == euro_nbsp() {
        lemma_euro_nbsp_prefix(num, suffix);
        lemma_euro_nbsp_prefix(num, s1);
        lemma_euro_removed(Seq::<char>::empty(), num, s2);
        assert(Seq::<char>::empty() + (num + s2) =~= num + s2);
    } else {
        lemma_removed_around(prefix, num, suffix, nbsp_euro());
        lemma_removed_around(prefix, num, s1, euro_nbsp());
        lemma_euro_removed(prefix, num, s2);
    }
    lemma_removed_around(Seq::<char>::empty(), num, s3, zloty());
    assert(Seq::<char>::empty() + (num + s3) =~= num + s3);
    assert(num + Seq::<char>::empty() =~= num);
}

proof fn lemma_exp_index_none(t: Seq<char>)
    requires
        forall|i: int| 0 <= i < t.len() ==> !is_exp_marker(#[trigger] t[i]),
    ensures
        exp_index(t) == t.len(),
    decreases t.len(),
{
    if t.len() > 0 {
        assert forall|i: int| 0 <= i < t.drop_first().len() implies !is_exp_marker(
            #[trigger] t.drop_first()[i],
        ) by {
            assert(t.drop_first()[i] == t[i + 1]);
        }
        lemma_exp_index_none(t.drop_first());
    }
}

/// A decimal text without sign or exponent reads as the decimal it is.
proof fn lemma_number_plain(t: Seq<char>)
    requires
        is_decimal_text(t),
        t.len() > 0,
        is_digit(t[0]),
        forall|i: int| 0 <= i < t.len() ==> is_number_char(#[trigger] t[i]),
    ensures
        number_price(t) == Some(decimal_price(t)),
{
    assert(sign_len(t) == 0);
    assert(unsigned_part(t) =~= t);
    assert forall|i: int| 0 <= i < t.len() implies !is_exp_marker(#[trigger] t[i]) by {
        assert(is_number_char(t[i]));
    }
    lemma_exp_index_none(t);
    assert(significand_text(t) =~= t);
    assert(exponent_value(t) == Some(0int));
    lemma_decimal_price_bounds(t);
}

proof fn lemma_cleaned_text(
    prefix: Seq<char>,
    int_digits: Seq<char>,
    sep: char,
    frac_digits: Seq<char>,
    suffix: Seq<char>,
)
    requires
        prefix == Seq::<char>::empty() || prefix == euro() || prefix == euro_nbsp(),
        suffix == Seq::<char>::empty() || suffix == euro() || suffix == nbsp_euro() || suffix
            == zloty() || suffix == spaced_zloty(),
        int_digits.len() > 0,
        frac_digits.len() > 0,
        all_digits(int_digits),
        all_digits(frac_digits),
        sep == ',' || sep == '.',
        int_digits.len() + frac_digits.len() <= MAX_PRICE_DIGITS,
    ensures
        cleaned_price_text(prefix + int_digits + seq![sep] + frac_digits + suffix) == int_digits
            + seq!['.'] + frac_digits,
{
    let num = int_digits + seq![sep] + frac_digits;
    assert forall|i: int| 0 <= i < num.len() implies is_number_char(#[trigger] num[i]) by {
        if i < int_digits.len() {
            assert(num[i] == int_digits[i]);
        } else if i > int_digits.len() {
            assert(num[i] == frac_digits[i - int_digits.len() - 1]);
        }
    }
    assert(is_digit(num[0])) by {
        assert(num[0] == int_digits[0]);
    }
    let raw = prefix + int_digits + seq![sep] + frac_digits + suffix;
    assert(raw =~= prefix + (num + suffix));
    lemma_markers_removed(prefix, num, suffix);
    // The separator becomes a dot, and there is no white space to trim.
    let dotted = int_digits + seq!['.'] + frac_digits;
    assert(commas_to_dots(num) =~= dotted) by {
        assert forall|i: int| 0 <= i < num.len() implies #[trigger] commas_to_dots(num)[i]
            == dotted[i] by {
            if i < int_digits.len() {
                assert(num[i] == int_digits[i]);
                assert(is_digit(int_digits[i]));
            } else if i > int_digits.len() {
                assert(num[i] == frac_digits[i - int_digits.len() - 1]);
                assert(is_digit(frac_digits[i - int_digits.len() - 1]));
            }
        }
    }
    assert(is_digit(dotted[0]));
    assert(is_digit(dotted.last())) by {
        assert(dotted.last() == frac_digits.last());
    }
    assert(trim_start_spec(dotted) == dotted);
    assert(trim_end_spec(dotted) == dotted);
    let stripped = removed(
        removed(removed(removed(prefix + (num + suffix), nbsp_euro()), euro_nbsp()), euro()),
        zloty(),
    );
    if stripped != num {
        let spaced = dotted + seq![' '];
        assert(commas_to_dots(num + seq![' ']) =~= spaced);
        assert(spaced[0] == dotted[0]);
        assert(trim_start_spec(spaced) == spaced);
        assert(spaced.drop_last() =~= dotted);
        assert(trim_end_spec(spaced) == trim_end_spec(dotted));
    }
    assert(cleaned_price_text(raw) == dotted);
}

proof fn lemma_dotted_number(int_digits: Seq<char>, frac_digits: Seq<char>)
    requires
        int_digits.len() > 0,
        frac_digits.len() > 0,
        all_digits(int_digits),
        all_digits(frac_digits),
        int_digits.len() + frac_digits.len() <= MAX_PRICE_DIGITS,
    ensures
        number_price(int_digits + seq!['.'] + frac_digits) == Some(
            Price {
                mantissa: digits_value(int_digits + frac_digits) as i64,
                scale: frac_digits.len() as u32,
            },
        ),
{
    let dotted = int_digits + seq!['.'] + frac_digits;
    // The dot splits the integer part from the fraction.
    assert forall|i: int| 0 <= i < int_digits.len() implies int_digits[i] != '.' by {
        assert(is_digit(int_digits[i]));
    }
    assert(dotted =~= int_digits + (seq!['.'] + frac_digits));
    lemma_dot_index_concat(int_digits, seq!['.'] + frac_digits);
    assert(dot_index(dotted) == int_digits.len());
    assert(integer_part(dotted) =~= int_digits);
    assert(fraction_part(dotted) =~= frac_digits);
    assert(is_decimal_text(dotted));
    assert forall|i: int| 0 <= i < dotted.len() implies is_number_char(#[trigger] dotted[i]) by {
        if i < int_digits.len() {
            assert(dotted[i] == int_digits[i]);
        } else if i > int_digits.len() {
            assert(dotted[i] == frac_digits[i - int_digits.len() - 1]);
        }
    }
    lemma_number_plain(dotted);
}

/// A number written as `<digits><comma or dot><digits>`, optionally preceded
/// by a euro sign (with or without a no-break space after it) and optionally
/// followed by a currency marker (a euro sign, a no-break space and a euro
/// sign, or the zloty sign with or without a space before it), is read as
/// the decimal number it denotes, the comma being a decimal point.
pub proof fn lemma_clean_price_reads_decimal(
    prefix: Seq<char>,
    int_digits: Seq<char>,
    sep: char,
    frac_digits: Seq<char>,
    suffix: Seq<char>,
)
    requires
        prefix == Seq::<char>::empty() || prefix == euro() || prefix == euro_nbsp(),
        suffix == Seq::<char>::empty() || suffix == euro() || suffix == nbsp_euro() || suffix
            == zloty() || suffix == spaced_zloty(),
        int_digits.len() > 0,
        frac_digits.len() > 0,
        all_digits(int_digits),
        all_digits(frac_digits),
        sep == ',' || sep == '.',
        int_digits.len() + frac_digits.len() <= MAX_PRICE_DIGITS,
    ensures
        normalized(prefix + int_digits + seq![sep] + frac_digits + suffix) == (Price {
            mantissa: digits_value(int_digits + frac_digits) as i64,
            scale: frac_digits.len() as u32,
        }),
{
    lemma_cleaned_text(prefix, int_digits, sep, frac_digits, suffix);
    lemma_dotted_number(int_digits, frac_digits);
}

} // verus!
