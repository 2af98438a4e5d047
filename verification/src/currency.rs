use vstd::prelude::*;
use crate::text::{
    all_digits, chars_of, dec_digits, digit_char, digit_to_char, digit_val, digits_val, find_char,
    find_char_vec, parse_u32_digits, push_dec_u32, string_from_chars,
};

verus! {

/// The error returned when a currency text does not denote a value.
#[derive(PartialEq, Eq, Structural, Clone, Copy, Debug)]
pub struct ParseError;

/// An exact monetary amount: whole units plus a fraction in
/// hundredths.  The canonical textual rule is fixed here once: a
/// fractional part of one digit means tenths ("1.3" is 130
/// hundredths), of two digits hundredths ("1.30" is also 130
/// hundredths); more than two fractional digits are rejected.  Two
/// texts denoting the same amount parse to the same value, and
/// rendering always uses the shortest of the equivalent forms.
#[derive(PartialEq, Eq, Structural, Clone, Copy, Debug, Hash)]
pub struct Currency {
    pub value: u16,
    pub cents: u8,
}

/// The value denoted by a currency text, when it denotes one:
/// `"<digits>"` or `"<digits>.<one or two digits>"`, with the whole
/// part fitting in a `u16`.
pub open spec fn parse_currency(s: Seq<char>) -> Option<Currency> {
    let d = find_char(s, '.');
    if d == s.len() {
        if s.len() >= 1 && all_digits(s) && digits_val(s) <= u16::MAX {
            Some(Currency { value: digits_val(s) as u16, cents: 0 })
        } else {
            None
        }
    } else {
        let ip = s.take(d);
        let fp = s.skip(d + 1);
        if ip.len() >= 1 && all_digits(ip) && digits_val(ip) <= u16::MAX && 1 <= fp.len() <= 2
            && all_digits(fp) {
            Some(
                Currency {
                    value: digits_val(ip) as u16,
                    cents: (if fp.len() == 1 {
                        10 * digit_val(fp[0])
                    } else {
                        digits_val(fp)
                    }) as u8,
                },
            )
        } else {
            None
        }
    }
}

/// The canonical rendering of a currency value: no fraction when the
/// cents are zero, one fractional digit when they are a whole number
/// of tenths, two otherwise.
pub open spec fn currency_text(c: Currency) -> Seq<char> {
    if c.cents == 0 {
        dec_digits(c.value as int)
    } else if c.cents % 10 == 0 {
        dec_digits(c.value as int) + seq!['.', digit_char(c.cents as int / 10)]
    } else if c.cents < 10 {
        dec_digits(c.value as int) + seq!['.', '0', digit_char(c.cents as int)]
    } else {
        dec_digits(c.value as int) + seq!['.'] + dec_digits(c.cents as int)
    }
}

impl Currency {
    /// A well-formed amount keeps its fraction below one whole unit.
    pub open spec fn wf(self) -> bool {
        self.cents < 100
    }

    /// The amount in hundredths of a unit.
    pub open spec fn total_hundredths(self) -> int {
        self.value as int * 100 + self.cents as int
    }

    pub fn new(value: u16, cents: u8) -> (r: Currency)
        requires
            cents < 100,
        ensures
            r == (Currency { value, cents }),
            r.wf(),
    {
        Currency { value, cents }
    }

    pub fn zero() -> (r: Currency)
        ensures
            r == (Currency { value: 0, cents: 0 }),
            r.wf(),
    {
        Currency { value: 0, cents: 0 }
    }

    /// The amount denoted by `h` hundredths.
    pub fn from_hundredths(h: u32) -> (r: Currency)
        requires
            h <= u16::MAX as u32 * 100 + 99,
        ensures
            r.wf(),
            r.total_hundredths() == h,
    {
        Currency { value: (h / 100) as u16, cents: (h % 100) as u8 }
    }

    /// Parses a currency text; fails exactly on the texts that denote
    /// no value under the canonical rule.
    pub fn from_str(s: &str) -> (r: Result<Currency, ParseError>)
        ensures
            match parse_currency(s@) {
                Some(c) => r == Ok::<Currency, ParseError>(c),
                None => r == Err::<Currency, ParseError>(ParseError),
            },
    {
        let v = chars_of(s);
        Self::from_chars(&v)
    }

    /// Parses a currency text given as characters.
    pub fn from_chars(v: &Vec<char>) -> (r: Result<Currency, ParseError>)
        ensures
            match parse_currency(v@) {
                Some(c) => r == Ok::<Currency, ParseError>(c),
                None => r == Err::<Currency, ParseError>(ParseError),
            },
    {
        let d = find_char_vec(v, '.');
        let ghost ip = if d == v@.len() {
            v@
        } else {
            v@.take(d as int)
        };
        proof {
            assert(v@.subrange(0, d as int) =~= v@.take(d as int));
            if d == v@.len() {
                assert(v@.take(d as int) =~= v@);
            }
        }
        let whole = match parse_u32_digits(v, 0, d) {
            Some(x) => x,
            None => {
                return Err(ParseError);
            },
        };
        if whole > u16::MAX as u32 {
            return Err(ParseError);
        }
        if d == v.len() {
            return Ok(Currency { value: whole as u16, cents: 0 });
        }
        let flen = v.len() - d - 1;
        if flen == 1 {
            let c = v[d + 1];
            if '0' <= c && c <= '9' {
                proof {
                    assert(v@.skip(d + 1)[0] == c);
                    assert(v@.skip(d + 1).len() == 1);
                }
                let cents = 10 * (c as u32 - '0' as u32);
                return Ok(Currency { value: whole as u16, cents: cents as u8 });
            } else {
                proof {
                    let fp = v@.skip(d + 1);
                    assert(fp[0] == c);
                    assert(!all_digits(fp));
                }
                return Err(ParseError);
            }
        }
        if flen == 2 {
            let ghost fp = v@.skip(d + 1);
            proof {
                assert(v@.subrange(d + 1, v@.len() as int) =~= fp);
            }
            match parse_u32_digits(v, d + 1, v.len()) {
                Some(x) => {
                    proof {
                        crate::text::lemma_digits_val_two(fp);
                        assert(digits_val(fp) <= 99);
                    }
                    return Ok(Currency { value: whole as u16, cents: x as u8 });
                },
                None => {
                    proof {
                        crate::text::lemma_digits_val_two(fp);
                    }
                    return Err(ParseError);
                },
            }
        }
        Err(ParseError)
    }

    /// The canonical text of this amount.
    pub fn to_text(&self) -> (r: String)
        requires
            self.wf(),
        ensures
            r@ == currency_text(*self),
    {
        let mut out: Vec<char> = Vec::new();
        push_dec_u32(&mut out, self.value as u32);
        if self.cents != 0 {
            out.push('.');
            if self.cents % 10 == 0 {
                out.push(digit_to_char(self.cents / 10));
            } else if self.cents < 10 {
                out.push('0');
                out.push(digit_to_char(self.cents));
            } else {
                push_dec_u32(&mut out, self.cents as u32);
            }
        }
        proof {
            assert(out@ =~= currency_text(*self));
        }
        string_from_chars(&out)
    }

    /// The JSON encoding of this amount: a bare integer when the
    /// fraction is zero, a decimal number otherwise.
    pub fn to_json(&self) -> (r: String)
        requires
            self.wf(),
        ensures
            r@ == currency_text(*self),
    {
        self.to_text()
    }
}

// ===== Laws =====

pub proof fn lemma_dec_digits(n: int)
    requires
        n >= 0,
    ensures
        dec_digits(n).len() >= 1,
        all_digits(dec_digits(n)),
        digits_val(dec_digits(n)) == n,
    decreases n,
{
    if n <= 9 {
        assert(digit_char(n) as int == '0' as int + n);
        assert(is_digit_char_val(digit_char(n), n));
        crate::text::lemma_digits_val_one(dec_digits(n));
    } else {
        lemma_dec_digits(n / 10);
        let prev = dec_digits(n / 10);
        let d = n % 10;
        assert(digit_char(d) as int == '0' as int + d);
        assert(is_digit_char_val(digit_char(d), d));
        assert(prev.push(digit_char(d)).drop_last() =~= prev);
        assert(all_digits(prev.push(digit_char(d)))) by {
            assert(forall|i: int|
                0 <= i < prev.len() ==> prev.push(digit_char(d))[i] == #[trigger] prev[i]);
        }
    }
}

/// `c` is the digit character of value `d`.
pub open spec fn is_digit_char_val(c: char, d: int) -> bool {
    '0' <= c && c <= '9' && digit_val(c) == d
}

/// Re-parsing the canonical rendering of a well-formed amount yields
/// the amount itself.  Together with the contracts of `from_str` and
/// `to_json`, this is the textual round trip at hundredth precision.
pub proof fn lemma_text_round_trip(c: Currency)
    requires
        c.wf(),
    ensures
        parse_currency(currency_text(c)) == Some(c),
{
    lemma_dec_digits(c.value as int);
    let ds = dec_digits(c.value as int);
    let t = currency_text(c);
    if c.cents == 0 {
        assert(forall|j: int| 0 <= j < ds.len() ==> #[trigger] ds[j] != '.');
        crate::text::lemma_find_char_absent(ds, '.');
    } else {
        let fp = t.skip(ds.len() as int);
        assert(t.take(ds.len() as int) =~= ds);
        assert(forall|j: int| 0 <= j < ds.len() ==> #[trigger] t[j] != '.');
        assert(t[ds.len() as int] == '.');
        crate::text::lemma_find_char_at(t, '.', ds.len() as int);
        let frac = t.skip(ds.len() as int + 1);
        if c.cents % 10 == 0 {
            assert(frac =~= seq![digit_char(c.cents as int / 10)]);
            assert(is_digit_char_val(digit_char(c.cents as int / 10), c.cents as int / 10));
            assert(digit_val(frac[0]) * 10 == c.cents as int);
        } else if c.cents < 10 {
            assert(frac =~= seq!['0', digit_char(c.cents as int)]);
            assert(is_digit_char_val(digit_char(c.cents as int), c.cents as int));
            crate::text::lemma_digits_val_two(frac);
        } else {
            lemma_dec_digits(c.cents as int);
            assert(frac =~= dec_digits(c.cents as int));
            assert(frac.len() == 2) by {
                lemma_dec_digits_len_two(c.cents as int);
            }
        }
    }
}

/// A two-digit value renders as exactly two digit characters.
proof fn lemma_dec_digits_len_two(n: int)
    requires
        10 <= n <= 99,
    ensures
        dec_digits(n).len() == 2,
{
    assert(dec_digits(n) == dec_digits(n / 10).push(digit_char(n % 10)));
    assert(1 <= n / 10 <= 9);
}

/// A parsed amount is well formed: its fraction stays below one unit.
pub proof fn lemma_parse_wf(s: Seq<char>)
    requires
        parse_currency(s) is Some,
    ensures
        parse_currency(s).unwrap().wf(),
{
    let d = find_char(s, '.');
    if d != s.len() {
        let fp = s.skip(d + 1);
        if fp.len() == 2 {
            crate::text::lemma_digits_val_two(fp);
        }
    }
}

/// Parsing a valid text and rendering the result denotes the same
/// amount again: the full round trip over texts.
pub proof fn lemma_from_text_round_trip(s: Seq<char>)
    requires
        parse_currency(s) is Some,
    ensures
        parse_currency(currency_text(parse_currency(s).unwrap())) == parse_currency(s),
{
    lemma_parse_wf(s);
    lemma_text_round_trip(parse_currency(s).unwrap());
}

/// The JSON encoding scheme: an integral amount renders as its bare
/// digits with no decimal point; a non-zero fraction renders with a
/// decimal point, and the rendering re-parses to the exact amount
/// (integer plus fraction in hundredths).
pub proof fn lemma_json_encoding(c: Currency)
    requires
        c.wf(),
    ensures
        c.cents == 0 ==> currency_text(c) == dec_digits(c.value as int) && !currency_text(
            c,
        ).contains('.'),
        c.cents != 0 ==> currency_text(c).contains('.') && parse_currency(
            currency_text(c),
        ).unwrap().total_hundredths() == c.total_hundredths(),
{
    lemma_dec_digits(c.value as int);
    lemma_text_round_trip(c);
    if c.cents == 0 {
        let ds = dec_digits(c.value as int);
        assert forall|i: int| 0 <= i < ds.len() implies ds[i] != '.' by {}
        if ds.contains('.') {
            let i = choose|i: int| 0 <= i < ds.len() && ds[i] == '.';
            assert(false);
        }
    } else {
        let t = currency_text(c);
        assert(t[dec_digits(c.value as int).len() as int] == '.');
        assert(t.contains('.'));
    }
}

} // verus!
