use vstd::prelude::*;

use vstd::string::StrSliceExecFns;

verus! {

/// An exact fixed-point decimal currency amount. `raw` counts units of
/// 10^-4, so four decimal digits of fractional precision are represented
/// exactly, and addition, subtraction and comparison on `raw` are exact, with
/// no binary rounding error. Negative values are representable: balances may
/// legitimately go negative after a chargeback.
#[derive(Clone, Copy, PartialEq, Eq, Structural, Debug)]
pub struct Amount {
    pub raw: i64,
}

impl View for Amount {
    type V = int;

    open spec fn view(&self) -> int {
        self.raw as int
    }
}

/// A decimal digit: scalar values 48 ('0') through 57 ('9').
pub open spec fn is_digit(c: char) -> bool {
    48 <= (c as u32) <= 57
}

/// The numeric value of a decimal digit.
pub open spec fn digit_val(c: char) -> int {
    (c as u32) - 48
}

pub open spec fn all_digits(s: Seq<char>) -> bool {
    forall|i: int| 0 <= i < s.len() ==> is_digit(#[trigger] s[i])
}

/// The value of a digit string, most significant digit first.
pub open spec fn digits_val(s: Seq<char>) -> int
    decreases s.len(),
{
    if s.len() == 0 {
        0
    } else {
        digits_val(s.drop_last()) * 10 + digit_val(s.last())
    }
}

pub open spec fn pow10(k: int) -> int
    decreases k,
{
    if k <= 0 {
        1
    } else {
        10 * pow10(k - 1)
    }
}

/// The index of the first '.' in the string, or its length if there is none.
pub open spec fn first_dot(s: Seq<char>) -> int
    decreases s.len(),
{
    if s.len() == 0 {
        0
    } else if s.first() == '.' {
        0
    } else {
        1 + first_dot(s.drop_first())
    }
}

/// The exact value, in 10^-4 units, of an unsigned decimal numeral: one or
/// more digits, optionally followed by a dot and one to four fraction digits.
/// `None` for anything else, a fifth fraction digit included: excess
/// precision is a parse failure, never rounded away.
pub open spec fn unsigned_numeral_val(s: Seq<char>) -> Option<int> {
    let p = first_dot(s);
    if p == s.len() {
        if s.len() > 0 && all_digits(s) {
            Some(digits_val(s) * 10000)
        } else {
            None
        }
    } else {
        let ip = s.subrange(0, p);
        let fp = s.subrange(p + 1, s.len() as int);
        if ip.len() > 0 && 1 <= fp.len() <= 4 && all_digits(ip) && all_digits(fp) {
            Some(digits_val(ip) * 10000 + digits_val(fp) * pow10(4 - fp.len()))
        } else {
            None
        }
    }
}

/// The exact value of a decimal numeral with an optional leading minus sign.
pub open spec fn numeral_val(s: Seq<char>) -> Option<int> {
    if s.len() > 0 && s.first() == '-' {
        match unsigned_numeral_val(s.drop_first()) {
            Some(v) => Some(-v),
            None => None,
        }
    } else {
        unsigned_numeral_val(s)
    }
}

/// `first_dot` is the least index holding a '.', and is the length if none
/// does.
proof fn lemma_first_dot_props(s: Seq<char>)
    ensures
        0 <= first_dot(s) <= s.len(),
        first_dot(s) < s.len() ==> s[first_dot(s)] == '.',
        forall|i: int| 0 <= i < first_dot(s) ==> s[i] != '.',
    decreases s.len(),
{
    if s.len() > 0 && s.first() != '.' {
        lemma_first_dot_props(s.drop_first());
        assert forall|i: int| 0 <= i < first_dot(s) implies s[i] != '.' by {
            if i >= 1 {
                assert(s[i] == s.drop_first()[i - 1]);
            }
        }
    }
}

/// A string of digits holds no dot, so its first dot is its length.
proof fn lemma_all_digits_no_dot(s: Seq<char>)
    requires
        all_digits(s),
    ensures
        first_dot(s) == s.len(),
{
    lemma_first_dot_props(s);
    if first_dot(s) < s.len() {
        assert(is_digit(s[first_dot(s)]));
    }
}

/// Digit strings have nonnegative value.
proof fn lemma_digits_val_nonneg(s: Seq<char>)
    requires
        all_digits(s),
    ensures
        digits_val(s) >= 0,
    decreases s.len(),
{
    if s.len() > 0 {
        lemma_digits_val_nonneg(s.drop_last());
    }
}

// An accumulator never grows past this while a numeral still fits the
// amount's range: i64::MAX / 10000 is under 2 * 10^15.
const BIG: i128 = 2_000_000_000_000_000;

impl Amount {
    /// The amount with the given raw count of 10^-4 units.
    pub fn from_raw(raw: i64) -> (r: Amount)
        ensures
            r@ == raw,
    {
        Amount { raw }
    }

    /// The zero amount.
    pub fn zero() -> (r: Amount)
        ensures
            r@ == 0,
    {
        Amount { raw: 0 }
    }

    /// Parse a decimal numeral (optional minus sign, digits, optionally a dot
    /// and one to four fraction digits) into its exact value. `None` exactly
    /// where the string is no such numeral or its value does not fit the
    /// representation.
    #[verifier::rlimit(60)]
    pub fn parse(s: &str) -> (r: Option<Amount>)
        ensures
            match r {
                Some(a) => numeral_val(s@) == Some(a.raw as int),
                None => numeral_val(s@) is None || (numeral_val(s@) matches Some(v) && !(i64::MIN
                    <= v <= i64::MAX)),
            },
    {
        let n = s.unicode_len();
        let neg = if n >= 1 {
            s.get_char(0) as u32 == 45
        } else {
            false
        };
        let start: usize = if neg {
            1
        } else {
            0
        };
        let ghost u: Seq<char> = s@.subrange(start as int, n as int);
        proof {
            assert('-' as u32 == 45);
            assert('.' as u32 == 46);
            if neg {
                assert(u =~= s@.drop_first());
                assert(s@.first() == '-');
            } else {
                assert(u =~= s@);
                if s@.len() > 0 {
                    assert(s@.first() != '-');
                }
            }
        }
        // Integer part: scan digits, keeping the exact value until it is past
        // every representable amount.
        let mut i: usize = start;
        let mut acc: i128 = 0;
        let mut big = false;
        while i < n && digit_at(s, i)
            invariant
                start <= i <= n,
                n == s@.len(),
                start <= 1,
                all_digits(s@.subrange(start as int, i as int)),
                !big ==> 0 <= acc <= BIG && acc == digits_val(s@.subrange(start as int, i as int)),
                big ==> digits_val(s@.subrange(start as int, i as int)) > BIG,
            decreases n - i,
        {
            let c = s.get_char(i);
            let v = c as u32;
            proof {
                assert(s@.subrange(start as int, i + 1).drop_last() =~= s@.subrange(
                    start as int,
                    i as int,
                ));
                assert(s@.subrange(start as int, i + 1).last() == s@[i as int]);
            }
            if big {
            } else {
                let cand: i128 = acc * 10 + (v - 48) as i128;
                if cand > BIG {
                    big = true;
                } else {
                    acc = cand;
                }
            }
            i = i + 1;
        }
        let ghost ip_scanned = s@.subrange(start as int, i as int);
        if i == n {
            // The whole numeral is an integer.
            if i == start {
                // Empty: no digits at all.
                return None;
            }
            proof {
                assert(u =~= ip_scanned);
                lemma_all_digits_no_dot(u);
            }
            if big {
                // The value is past the representation in either sign.
                return None;
            }
            let sv: i128 = if neg {
                -(acc * 10000)
            } else {
                acc * 10000
            };
            if sv < i64::MIN as i128 || sv > i64::MAX as i128 {
                return None;
            }
            return Some(Amount { raw: sv as i64 });
        }
        // A non-digit stopped the scan, at offset k of the unsigned part.
        let ghost k = i - start;
        proof {
            lemma_first_dot_props(u);
            assert(u[k] == s@[i as int]);
            assert(forall|q: int| 0 <= q < k ==> u[q] == #[trigger] ip_scanned[q]);
            assert(!is_digit(u[k]));
            if first_dot(u) < k {
                assert(is_digit(ip_scanned[first_dot(u)]));
                assert(false);
            }
        }
        let c = s.get_char(i);
        let cv = c as u32;
        if cv != 46 {
            // Neither digit nor dot: no decomposition of the string is valid.
            proof {
                assert(u[k] != '.');
                assert(first_dot(u) != k);
                if first_dot(u) == u.len() {
                    assert(!all_digits(u));
                } else {
                    assert(u.subrange(0, first_dot(u))[k] == u[k]);
                    assert(!all_digits(u.subrange(0, first_dot(u))));
                }
            }
            return None;
        }
        proof {
            // The dot the scan stopped at is the first one.
            assert(u[k] == '.');
            assert(first_dot(u) == k);
        }
        let ghost fp = u.subrange(k + 1, u.len() as int);
        let fstart = i + 1;
        let mut j: usize = fstart;
        let mut facc: i128 = 0;
        while j < n && j - fstart < 5 && digit_at(s, j)
            invariant
                fstart <= j <= n,
                n == s@.len(),
                fstart <= n,
                j - fstart <= 5,
                all_digits(s@.subrange(fstart as int, j as int)),
                0 <= facc,
                facc < pow10(j - fstart),
                facc == digits_val(s@.subrange(fstart as int, j as int)),
            decreases n - j,
        {
            let c2 = s.get_char(j);
            let v2 = c2 as u32;
            proof {
                assert(s@.subrange(fstart as int, j + 1).drop_last() =~= s@.subrange(
                    fstart as int,
                    j as int,
                ));
                assert(s@.subrange(fstart as int, j + 1).last() == s@[j as int]);
                assert(pow10(j + 1 - fstart) == 10 * pow10(j - fstart));
                let d = j - fstart;
                assert(pow10(0) == 1);
                assert(pow10(1) == 10);
                assert(pow10(2) == 100);
                assert(pow10(3) == 1000);
                assert(pow10(4) == 10000);
                assert(d == 0 || d == 1 || d == 2 || d == 3 || d == 4);
                assert(facc < 10000);
            }
            facc = facc * 10 + (v2 - 48) as i128;
            j = j + 1;
        }
        proof {
            assert(fp =~= s@.subrange(fstart as int, n as int));
        }
        if j - fstart == 5 {
            // A fifth fraction digit: the fraction part is too long.
            proof {
                assert(fp.len() >= 5);
            }
            return None;
        }
        if j < n {
            // A non-digit inside the fraction part.
            proof {
                assert(fp[j - fstart] == s@[j as int]);
                assert(!is_digit(fp[j - fstart]));
            }
            return None;
        }
        proof {
            assert(fp =~= s@.subrange(fstart as int, j as int));
        }
        let flen = j - fstart;
        if flen == 0 {
            // A trailing dot with no fraction digits.
            return None;
        }
        if i == start {
            // A leading dot with no integer digits.
            return None;
        }
        proof {
            assert(u.subrange(0, k) =~= ip_scanned);
            assert(pow10(0) == 1);
            assert(pow10(1) == 10);
            assert(pow10(2) == 100);
            assert(pow10(3) == 1000);
            assert(pow10(4) == 10000);
        }
        if big {
            // The integer part alone is past the representation.
            proof {
                lemma_digits_val_nonneg(fp);
            }
            return None;
        }
        let scale: i128 = if flen == 1 {
            1000
        } else if flen == 2 {
            100
        } else if flen == 3 {
            10
        } else {
            1
        };
        let v: i128 = acc * 10000 + facc * scale;
        let sv: i128 = if neg {
            -v
        } else {
            v
        };
        if sv < i64::MIN as i128 || sv > i64::MAX as i128 {
            return None;
        }
        Some(Amount { raw: sv as i64 })
    }
}

/// Whether the character at a position is a decimal digit.
fn digit_at(s: &str, i: usize) -> (r: bool)
    requires
        i < s@.len(),
    ensures
        r == is_digit(s@[i as int]),
{
    let v = s.get_char(i) as u32;
    48 <= v && v <= 57
}

/// The character of a decimal digit.
fn digit_char(d: u64) -> (c: char)
    requires
        d < 10,
    ensures
        is_digit(c),
        digit_val(c) == d,
{
    (48 + d as u8) as char
}

/// Relies on std's `FromIterator<char> for String`: collecting characters
/// yields a string of exactly those characters.
#[verifier::external_body]
fn chars_to_string(v: &Vec<char>) -> (r: String)
    ensures
        r@ == v@,
{
    v.iter().collect()
}

/// Append the decimal digits of `m`, most significant first.
fn push_digits(out: &mut Vec<char>, m: u64)
    ensures
        final(out)@.len() > old(out)@.len(),
        final(out)@.subrange(0, old(out)@.len() as int) == old(out)@,
        all_digits(final(out)@.subrange(old(out)@.len() as int, final(out)@.len() as int)),
        digits_val(final(out)@.subrange(old(out)@.len() as int, final(out)@.len() as int)) == m,
    decreases m,
{
    let ghost pre = out@;
    if m >= 10 {
        assert(m / 10 < m);
        push_digits(out, m / 10);
    }
    let ghost mid = out@;
    let c = digit_char(m % 10);
    out.push(c);
    proof {
        let sfx_mid = mid.subrange(pre.len() as int, mid.len() as int);
        let sfx = out@.subrange(pre.len() as int, out@.len() as int);
        assert(out@ == mid.push(c));
        assert(sfx =~= sfx_mid.push(c));
        assert(sfx.drop_last() =~= sfx_mid);
        assert(sfx.last() == c);
        if m >= 10 {
            assert(digits_val(sfx) == (m / 10) * 10 + (m % 10));
            assert(m == 10 * (m / 10) + (m % 10));
        } else {
            assert(sfx_mid =~= Seq::<char>::empty());
            assert(digits_val(Seq::<char>::empty()) == 0);
            assert(digits_val(sfx) == digit_val(c));
        }
        assert(out@.subrange(0, pre.len() as int) =~= pre);
    }
}

/// Append exactly `width` decimal digits of `m`, zero-padded at the left.
fn push_digits_padded(out: &mut Vec<char>, m: u64, width: usize)
    requires
        1 <= width <= 4,
        m < pow10(width as int),
    ensures
        final(out)@.len() == old(out)@.len() + width,
        final(out)@.subrange(0, old(out)@.len() as int) == old(out)@,
        all_digits(final(out)@.subrange(old(out)@.len() as int, final(out)@.len() as int)),
        digits_val(final(out)@.subrange(old(out)@.len() as int, final(out)@.len() as int)) == m,
    decreases width,
{
    let ghost pre = out@;
    if width > 1 {
        proof {
            assert(pow10(width as int) == 10 * pow10(width as int - 1));
            assert(m == 10 * (m / 10) + (m % 10));
            assert(m / 10 < pow10(width as int - 1));
        }
        push_digits_padded(out, m / 10, width - 1);
    }
    let ghost mid = out@;
    let c = digit_char(m % 10);
    out.push(c);
    proof {
        let sfx_mid = mid.subrange(pre.len() as int, mid.len() as int);
        let sfx = out@.subrange(pre.len() as int, out@.len() as int);
        assert(out@ == mid.push(c));
        assert(sfx =~= sfx_mid.push(c));
        assert(sfx.drop_last() =~= sfx_mid);
        assert(sfx.last() == c);
        if width > 1 {
            assert(digits_val(sfx) == (m / 10) * 10 + (m % 10));
            assert(m == 10 * (m / 10) + (m % 10));
        } else {
            assert(pow10(0) == 1);
            assert(pow10(1) == 10);
            assert(sfx_mid =~= Seq::<char>::empty());
            assert(digits_val(Seq::<char>::empty()) == 0);
            assert(digits_val(sfx) == digit_val(c));
            assert(m % 10 == m);
        }
        assert(out@.subrange(0, pre.len() as int) =~= pre);
    }
}

/// A digit string, a dot, and one to four fraction digits form a valid
/// unsigned numeral whose value scales the fraction to 10^-4 units.
proof fn lemma_numeral_decompose(d: Seq<char>, e: Seq<char>)
    requires
        d.len() > 0,
        1 <= e.len() <= 4,
        all_digits(d),
        all_digits(e),
    ensures
        unsigned_numeral_val(d + seq!['.'] + e) == Some(
            digits_val(d) * 10000 + digits_val(e) * pow10(4 - e.len()),
        ),
{
    let u = d + seq!['.'] + e;
    lemma_first_dot_props(u);
    assert(u[d.len() as int] == '.');
    if first_dot(u) < d.len() {
        assert(u[first_dot(u)] == d[first_dot(u)]);
        assert(is_digit(d[first_dot(u)]));
        assert(false);
    }
    if first_dot(u) > d.len() {
        assert(false);
    }
    assert(u.subrange(0, d.len() as int) =~= d);
    assert(u.subrange(d.len() as int + 1, u.len() as int) =~= e);
}

impl Amount {
    /// Render the amount as a decimal string: a minus sign where negative,
    /// the integer part, and, where the fraction is nonzero, a dot and the
    /// fraction digits with trailing zeros trimmed. Rendering is exact, with
    /// no rounding: the string parses back to exactly this amount.
    #[verifier::rlimit(100)]
    pub fn render(&self) -> (r: String)
        ensures
            numeral_val(r@) == Some(self.raw as int),
    {
        let mut cs: Vec<char> = Vec::new();
        if self.raw < 0 {
            cs.push('-');
        }
        let ghost s0 = cs@;
        let mag: u64 = if self.raw < 0 {
            (-(self.raw as i128)) as u64
        } else {
            self.raw as u64
        };
        proof {
            assert(mag == if self.raw < 0 {
                -(self.raw as int)
            } else {
                self.raw as int
            });
            assert(!is_digit('-'));
            assert(self.raw < 0 ==> s0 =~= seq!['-']);
            assert(self.raw >= 0 ==> s0 =~= Seq::<char>::empty());
        }
        let ip: u64 = mag / 10000;
        let fr: u64 = mag % 10000;
        proof {
            assert(mag == 10000 * (mag / 10000) + (mag % 10000));
        }
        push_digits(&mut cs, ip);
        let ghost s1 = cs@;
        let ghost d = s1.subrange(s0.len() as int, s1.len() as int);
        if fr == 0 {
            let r = chars_to_string(&cs);
            proof {
                lemma_all_digits_no_dot(d);
                assert(forall|q: int| 0 <= q < s0.len() ==> #[trigger] s1[q] == s0[q]);
                if self.raw < 0 {
                    assert(r@[0] == '-');
                    assert(r@.drop_first() =~= d);
                } else {
                    assert(r@ =~= d);
                    assert(r@[0] == d[0]);
                    assert(is_digit(d[0]));
                    assert(r@.first() != '-');
                }
            }
            return r;
        }
        cs.push('.');
        let ghost s2 = cs@;
        let mut f = fr;
        let mut w: usize = 4;
        proof {
            assert(pow10(0) == 1);
            assert(pow10(1) == 10);
            assert(pow10(2) == 100);
            assert(pow10(3) == 1000);
            assert(pow10(4) == 10000);
        }
        while f % 10 == 0
            invariant
                1 <= w <= 4,
                1 <= f <= 9999,
                fr <= 9999,
                f * pow10(4 - w) == fr,
                pow10(0) == 1 && pow10(1) == 10 && pow10(2) == 100 && pow10(3) == 1000 && pow10(4)
                    == 10000,
            decreases w,
        {
            proof {
                assert(f == 10 * (f / 10) + (f % 10));
                if w == 1 {
                    assert(f * pow10(3) == fr);
                    assert(f <= 9);
                    assert(f % 10 == f);
                    assert(false);
                }
                if w == 4 {
                    assert((f / 10) * pow10(1) == fr);
                }
                if w == 3 {
                    assert((f / 10) * pow10(2) == fr);
                }
                if w == 2 {
                    assert((f / 10) * pow10(3) == fr);
                }
            }
            f = f / 10;
            w = w - 1;
        }
        proof {
            if w == 4 {
                assert(f * pow10(0) == fr);
                assert(f < pow10(4));
            }
            if w == 3 {
                assert(f * pow10(1) == fr);
                assert(f < pow10(3));
            }
            if w == 2 {
                assert(f * pow10(2) == fr);
                assert(f < pow10(2) * 100);
                assert(f < pow10(2) || f * pow10(2) > 9999);
                assert(f < pow10(2));
            }
            if w == 1 {
                assert(f * pow10(3) == fr);
                assert(f < pow10(1));
            }
        }
        push_digits_padded(&mut cs, f, w);
        let ghost s3 = cs@;
        let ghost e = s3.subrange(s2.len() as int, s3.len() as int);
        let r = chars_to_string(&cs);
        proof {
            let u = d + seq!['.'] + e;
            assert(forall|q: int| 0 <= q < s2.len() ==> #[trigger] s3[q] == s2[q]);
            assert(forall|q: int| 0 <= q < s1.len() ==> #[trigger] s2[q] == s1[q]);
            assert(forall|q: int| 0 <= q < s0.len() ==> #[trigger] s1[q] == s0[q]);
            assert(forall|q: int| 0 <= q < d.len() ==> #[trigger] d[q] == s1[s0.len() + q]);
            assert(forall|q: int| 0 <= q < e.len() ==> #[trigger] e[q] == s3[s2.len() + q]);
            assert(s2[s1.len() as int] == '.');
            assert(r@ =~= s0 + u);
            lemma_numeral_decompose(d, e);
            assert(e.len() == w);
            assert(digits_val(e) * pow10(4 - e.len()) == fr);
            assert(unsigned_numeral_val(u) == Some(mag as int));
            if self.raw < 0 {
                assert(r@[0] == '-');
                assert(r@.drop_first() =~= u);
            } else {
                assert(r@ =~= u);
                assert(r@[0] == d[0]);
                assert(is_digit(d[0]));
                assert(r@.first() != '-');
            }
        }
        r
    }
}

} // verus!
