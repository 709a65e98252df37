//! On-chain amounts, coins and the denomination table.
use vstd::prelude::*;
use vstd::string::StringExecFns;
use crate::text::ParseIntError;
use vstd::arithmetic::div_mod::lemma_div_denominator;

verus! {

/// Scale of a USD price: a price is a whole number of nano-dollars per token.
pub const PRICE_SCALE: u8 = 9;

pub open spec fn pow10(e: nat) -> nat
    decreases e,
{
    if e == 0 {
        1
    } else {
        10 * pow10((e - 1) as nat)
    }
}

pub proof fn lemma_pow10_positive(e: nat)
    ensures
        pow10(e) >= 1,
    decreases e,
{
    if e > 0 {
        lemma_pow10_positive((e - 1) as nat);
    }
}

proof fn lemma_pow10_monotone(a: nat, b: nat)
    requires
        a <= b,
    ensures
        pow10(a) <= pow10(b),
    decreases b,
{
    if a < b {
        lemma_pow10_monotone(a, (b - 1) as nat);
        lemma_pow10_positive((b - 1) as nat);
    }
}

proof fn lemma_pow10_38()
    ensures
        pow10(38) == 100_000_000_000_000_000_000_000_000_000_000_000_000nat,
        pow10(39) == 1_000_000_000_000_000_000_000_000_000_000_000_000_000nat,
{
    reveal_with_fuel(pow10, 40);
}

/// `10^e`, for `e <= 38` (the largest power of ten in a `u128`).
fn pow10_u128(e: u8) -> (r: u128)
    requires
        e <= 38,
    ensures
        r == pow10(e as nat),
{
    proof {
        lemma_pow10_38();
        lemma_pow10_monotone(e as nat, 38);
    }
    let mut r: u128 = 1;
    let mut i: u8 = 0;
    while i < e
        invariant
            i <= e <= 38,
            r == pow10(i as nat),
            pow10(e as nat) <= pow10(38),
            pow10(38) == 100_000_000_000_000_000_000_000_000_000_000_000_000nat,
        decreases e - i,
    {
        proof {
            lemma_pow10_monotone((i + 1) as nat, e as nat);
        }
        r = r * 10;
        i = i + 1;
    }
    r
}

/// A result that does not fit the integers it is computed in.
#[derive(Clone, Copy, Debug, PartialEq, Eq, Structural)]
pub struct ArithmeticError;

/// The number that decimal digits denote, most significant first.
pub open spec fn be_value(d: Seq<u8>) -> nat
    decreases d.len(),
{
    if d.len() == 0 {
        0
    } else {
        be_value(d.drop_last()) * 10 + d.last() as nat
    }
}

/// Every element is a decimal digit.
pub open spec fn decimal_digits(d: Seq<u8>) -> bool {
    forall|i: int| 0 <= i < d.len() ==> #[trigger] d[i] < 10
}

proof fn lemma_be_value_bound(d: Seq<u8>)
    requires
        decimal_digits(d),
    ensures
        be_value(d) < pow10(d.len()),
    decreases d.len(),
{
    if d.len() > 0 {
        assert(decimal_digits(d.drop_last()));
        lemma_be_value_bound(d.drop_last());
        assert(d.last() < 10);
    }
}

proof fn lemma_be_prefix_bound(d: Seq<u8>, k: int)
    requires
        0 <= k <= d.len(),
    ensures
        be_value(d.subrange(0, k)) <= be_value(d),
    decreases d.len() - k,
{
    if k < d.len() {
        lemma_be_prefix_bound(d, k + 1);
        assert(d.subrange(0, k + 1).drop_last() =~= d.subrange(0, k));
    } else {
        assert(d.subrange(0, k) =~= d);
    }
}

/// Dropping the last `k` digits divides by `10^k`.
proof fn lemma_be_drop(d: Seq<u8>, k: nat)
    requires
        decimal_digits(d),
        k <= d.len(),
    ensures
        be_value(d.subrange(0, d.len() - k)) == be_value(d) / pow10(k),
    decreases k,
{
    if k == 0 {
        assert(d.subrange(0, d.len() as int) =~= d);
        assert(pow10(0) == 1);
    } else {
        let e = d.drop_last();
        let k1 = (k - 1) as nat;
        assert(decimal_digits(e));
        lemma_be_drop(e, k1);
        assert(e.subrange(0, e.len() - k1) =~= d.subrange(0, d.len() - k));
        let v = be_value(d);
        let w = be_value(e);
        assert(v == w * 10 + d.last() as nat);
        assert(d.last() < 10);
        lemma_pow10_positive(k1);
        assert(v / 10 == w) by (nonlinear_arith)
            requires
                v == w * 10 + d.last() as nat,
                d.last() < 10,
        ;
        assert(pow10(k) == 10 * pow10(k1));
        lemma_div_denominator(v as int, 10, pow10(k1) as int);
        assert(be_value(d.subrange(0, d.len() - k)) == w / pow10(k1));
        assert(v / pow10(k) == (v / 10) / pow10(k1));
    }
}

/// Appending `k` zero digits multiplies by `10^k`.
proof fn lemma_be_append_zeros(d: Seq<u8>, k: nat)
    ensures
        be_value(d + Seq::new(k, |i: int| 0u8)) == be_value(d) * pow10(k),
    decreases k,
{
    if k > 0 {
        let k1 = (k - 1) as nat;
        let z = d + Seq::new(k, |i: int| 0u8);
        let z1 = d + Seq::new(k1, |i: int| 0u8);
        assert(z.drop_last() =~= z1);
        assert(z.last() == 0u8);
        assert(be_value(z) == be_value(z1) * 10);
        assert(pow10(k) == 10 * pow10(k1));
        lemma_be_append_zeros(d, k1);
        let b = be_value(d);
        let p = pow10(k1);
        assert(b * p * 10 == b * (10 * p)) by (nonlinear_arith);
    } else {
        assert(d + Seq::new(k, |i: int| 0u8) =~= d);
        assert(pow10(0) == 1);
    }
}

/// A non-negative decimal of any size: its digits, most significant first,
/// times `10^-scale`.
#[derive(Debug)]
pub struct Amount {
    pub digits: Vec<u8>,
    pub scale: u8,
}

impl Clone for Amount {
    fn clone(&self) -> (r: Amount)
        ensures
            r.digits@ == self.digits@,
            r.scale == self.scale,
    {
        let mut digits: Vec<u8> = Vec::new();
        let mut i: usize = 0;
        while i < self.digits.len()
            invariant
                i <= self.digits@.len(),
                digits@ == self.digits@.subrange(0, i as int),
            decreases self.digits@.len() - i,
        {
            digits.push(self.digits[i]);
            assert(digits@ =~= self.digits@.subrange(0, i as int + 1));
            i += 1;
        }
        assert(digits@ =~= self.digits@);
        Amount { digits, scale: self.scale }
    }
}

/// How bigdecimal writes `digits * 10^-scale`.
pub uninterp spec fn decimal_display(digits: nat, scale: int) -> Seq<char>;

/// Relies on num-bigint's `BigUint::from_radix_be` (through bigdecimal),
/// which reads decimal digits, most significant first, and on bigdecimal's
/// `BigDecimal::new` and its `Display`: the text of `digits * 10^-scale`, a
/// function of the two numbers alone.
#[verifier::external_body]
fn bigdecimal_text(digits: &Vec<u8>, scale: i64) -> (r: String)
    requires
        decimal_digits(digits@),
    ensures
        r@ == decimal_display(be_value(digits@), scale as int),
{
    let n = bigdecimal::num_bigint::BigUint::from_radix_be(digits, 10).unwrap_or_default();
    bigdecimal::BigDecimal::new(bigdecimal::num_bigint::BigInt::from(n), scale).to_string()
}

/// The integer that num-bigint reads from `s`, if it reads one.
pub uninterp spec fn biguint_of(s: Seq<char>) -> Option<nat>;

/// Relies on num-bigint's `BigUint::from_str` (through bigdecimal) to read an
/// unsigned integer, and on `BigUint::to_radix_be(10)`, which gives its
/// decimal digits, most significant first.
#[verifier::external_body]
fn parse_biguint(s: &str) -> (r: Option<Vec<u8>>)
    ensures
        match r {
            Some(d) => decimal_digits(d@) && biguint_of(s@) == Some(be_value(d@)),
            None => biguint_of(s@) is None,
        },
{
    <bigdecimal::num_bigint::BigUint as std::str::FromStr>::from_str(s).ok().map(|n| n.to_radix_be(10))
}

/// The value of `digits * 10^-from` at scale `to`, dropping the digits that
/// no longer fit (the value is never rounded up).
pub open spec fn rescaled(digits: nat, from: nat, to: nat) -> nat {
    if to >= from {
        digits * pow10((to - from) as nat)
    } else {
        digits / pow10((from - to) as nat)
    }
}

/// Value in nano-dollars of `digits * 10^-scale` tokens at `price`
/// nano-dollars per token, rounded down.
pub open spec fn usd_nano(digits: nat, scale: nat, price: nat) -> nat {
    (digits * price) / pow10(scale)
}

impl Amount {
    /// The digits are decimal digits.
    pub open spec fn wf(&self) -> bool {
        decimal_digits(self.digits@)
    }

    /// The integer that the digits denote: the amount is `value * 10^-scale`.
    pub open spec fn value(&self) -> nat {
        be_value(self.digits@)
    }

    /// The amount `value * 10^-scale` read from a raw integer amount.
    pub fn parse(amount: &str, scale: u8) -> (r: Result<Amount, ParseIntError>)
        ensures
            match biguint_of(amount@) {
                Some(v) => r matches Ok(a) && a.wf() && a.value() == v && a.scale == scale,
                None => r == Err::<Amount, ParseIntError>(ParseIntError),
            },
    {
        match parse_biguint(amount) {
            Some(digits) => Ok(Amount { digits, scale }),
            None => Err(ParseIntError),
        }
    }

    /// The same amount at another scale; digits below the new scale are dropped.
    pub fn with_scale(&self, scale: u8) -> (r: Amount)
        requires
            self.wf(),
        ensures
            r.wf(),
            r.scale == scale,
            r.value() == rescaled(self.value(), self.scale as nat, scale as nat),
    {
        let mut digits: Vec<u8> = Vec::new();
        if scale >= self.scale {
            let k = scale - self.scale;
            let mut i: usize = 0;
            while i < self.digits.len()
                invariant
                    i <= self.digits@.len(),
                    digits@ == self.digits@.subrange(0, i as int),
                decreases self.digits@.len() - i,
            {
                digits.push(self.digits[i]);
                assert(digits@ =~= self.digits@.subrange(0, i as int + 1));
                i += 1;
            }
            let mut j: u8 = 0;
            while j < k
                invariant
                    j <= k,
                    digits@ == self.digits@ + Seq::new(j as nat, |i: int| 0u8),
                decreases k - j,
            {
                digits.push(0);
                assert(digits@ =~= self.digits@ + Seq::new((j + 1) as nat, |i: int| 0u8));
                j += 1;
            }
            proof {
                assert(self.digits@.subrange(0, self.digits@.len() as int) =~= self.digits@);
                lemma_be_append_zeros(self.digits@, k as nat);
                assert forall|i: int| 0 <= i < digits@.len() implies #[trigger] digits@[i] < 10 by {
                    if i < self.digits@.len() {
                        assert(digits@[i] == self.digits@[i]);
                    }
                }
            }
        } else {
            let k = self.scale - scale;
            let keep: usize = if self.digits.len() > k as usize {
                self.digits.len() - k as usize
            } else {
                0
            };
            let mut i: usize = 0;
            while i < keep
                invariant
                    keep <= self.digits@.len(),
                    i <= keep,
                    digits@ == self.digits@.subrange(0, i as int),
                decreases keep - i,
            {
                digits.push(self.digits[i]);
                assert(digits@ =~= self.digits@.subrange(0, i as int + 1));
                i += 1;
            }
            proof {
                if self.digits@.len() > k {
                    lemma_be_drop(self.digits@, k as nat);
                } else {
                    assert(digits@ =~= Seq::<u8>::empty());
                    lemma_be_value_bound(self.digits@);
                    lemma_pow10_monotone(self.digits@.len(), k as nat);
                    assert(be_value(self.digits@) / pow10(k as nat) == 0) by (nonlinear_arith)
                        requires
                            be_value(self.digits@) < pow10(k as nat),
                    ;
                }
            }
        }
        Amount { digits, scale }
    }

    /// The value as a `u128`, if it fits.
    pub fn to_u128(&self) -> (r: Option<u128>)
        requires
            self.wf(),
        ensures
            self.value() <= u128::MAX ==> r == Some(self.value() as u128),
            self.value() > u128::MAX ==> r is None,
    {
        let mut v: u128 = 0;
        let mut i: usize = 0;
        while i < self.digits.len()
            invariant
                i <= self.digits@.len(),
                decimal_digits(self.digits@),
                v == be_value(self.digits@.subrange(0, i as int)),
            decreases self.digits@.len() - i,
        {
            let d = self.digits[i] as u128;
            proof {
                assert(self.digits@.subrange(0, i as int + 1).drop_last() =~= self.digits@.subrange(
                    0,
                    i as int,
                ));
                assert(self.digits@[i as int] < 10);
            }
            if v > (u128::MAX - d) / 10 {
                proof {
                    lemma_be_prefix_bound(self.digits@, i as int + 1);
                }
                return None;
            }
            v = v * 10 + d;
            i += 1;
        }
        assert(self.digits@.subrange(0, i as int) =~= self.digits@);
        Some(v)
    }

    /// The amount written as bigdecimal writes it.
    pub fn to_text(&self) -> (r: String)
        requires
            self.wf(),
        ensures
            r@ == decimal_display(self.value(), self.scale as int),
    {
        bigdecimal_text(&self.digits, self.scale as i64)
    }
}

proof fn lemma_be_prepend(d: u8, ds: Seq<u8>)
    ensures
        be_value(seq![d] + ds) == d as nat * pow10(ds.len()) + be_value(ds),
    decreases ds.len(),
{
    if ds.len() == 0 {
        assert(seq![d] + ds =~= seq![d]);
        assert(seq![d].drop_last() =~= Seq::<u8>::empty());
        assert(be_value(seq![d]) == be_value(Seq::<u8>::empty()) * 10 + d as nat);
        assert(pow10(0) == 1);
    } else {
        let e = ds.drop_last();
        lemma_be_prepend(d, e);
        assert((seq![d] + ds).drop_last() =~= seq![d] + e);
        assert((seq![d] + ds).last() == ds.last());
        let x = be_value(seq![d] + e);
        let w = be_value(e);
        let p = pow10(e.len());
        assert(be_value(seq![d] + ds) == x * 10 + ds.last() as nat);
        assert(be_value(ds) == w * 10 + ds.last() as nat);
        assert(x == d as nat * p + w);
        assert(pow10(ds.len()) == 10 * p);
        assert((d as nat * p + w) * 10 + ds.last() as nat == d as nat * (10 * p) + (w * 10
            + ds.last() as nat)) by (nonlinear_arith);
    }
}

impl Amount {
    /// The amount `v * 10^-scale`.
    pub fn from_u128(v: u128, scale: u8) -> (r: Amount)
        ensures
            r.wf(),
            r.value() == v,
            r.scale == scale,
    {
        let mut m: u128 = v / 10;
        let mut digits: Vec<u8> = Vec::new();
        digits.push((v % 10) as u8);
        proof {
            assert(digits@.drop_last() =~= Seq::<u8>::empty());
            assert(pow10(1) == 10) by {
                reveal_with_fuel(pow10, 2);
            }
            assert(be_value(digits@) == be_value(digits@.drop_last()) * 10 + (v % 10) as nat);
            assert(v == (v / 10) * 10 + v % 10);
        }
        while m > 0
            invariant
                v == m * pow10(digits@.len()) + be_value(digits@),
                decimal_digits(digits@),
            decreases m,
        {
            let d = (m % 10) as u8;
            let ghost old = digits@;
            digits.insert(0, d);
            proof {
                assert(digits@ =~= seq![d] + old);
                lemma_be_prepend(d, old);
                assert(pow10(digits@.len()) == 10 * pow10(old.len()));
                assert(m == (m / 10) * 10 + d as nat);
                assert(m * pow10(old.len()) == (m / 10) * pow10(digits@.len()) + d as nat * pow10(
                    old.len(),
                )) by (nonlinear_arith)
                    requires
                        m == (m / 10) * 10 + d as nat,
                        pow10(digits@.len()) == 10 * pow10(old.len()),
                ;
                assert forall|i: int| 0 <= i < digits@.len() implies #[trigger] digits@[i] < 10 by {
                    if i > 0 {
                        assert(digits@[i] == old[i - 1]);
                    }
                }
            }
            m = m / 10;
        }
        assert(0 * pow10(digits@.len()) == 0);
        Amount { digits, scale }
    }
}

/// The text that bigdecimal gives a value in hundredths.
pub fn centi_amount_text(v: u128) -> (r: String)
    ensures
        r@ == decimal_display(v as nat, 2),
{
    Amount::from_u128(v, 2).to_text()
}

/// Scale of the chain's native token: amounts are written in units of `10^-18`.
pub const NATIVE_DECIMALS: u8 = 18;

/// A raw integer amount of the native token, as a decimal.
pub fn to_bigdecimal(amount: &str) -> (r: Result<Amount, ParseIntError>)
    ensures
        match biguint_of(amount@) {
            Some(v) => r matches Ok(a) && a.wf() && a.value() == v && a.scale == NATIVE_DECIMALS,
            None => r == Err::<Amount, ParseIntError>(ParseIntError),
        },
{
    Amount::parse(amount, NATIVE_DECIMALS)
}

/// A balance of one on-chain denomination.
#[derive(Debug)]
pub struct Coin {
    pub denom: String,
    pub amount: Amount,
    pub coingecko_id: Option<String>,
}

impl Clone for Coin {
    fn clone(&self) -> (r: Coin)
        ensures
            r.denom == self.denom,
            r.coingecko_id == self.coingecko_id,
            r.amount.digits@ == self.amount.digits@,
            r.amount.scale == self.amount.scale,
    {
        Coin {
            denom: self.denom.clone(),
            amount: self.amount.clone(),
            coingecko_id: match &self.coingecko_id {
                Some(id) => Some(id.clone()),
                None => None,
            },
        }
    }
}

/// What a coin stands for: its denomination, the value and scale of its
/// amount, and its price id.
pub type CoinValue = (Seq<char>, nat, u8, Option<Seq<char>>);

pub open spec fn opt_text(o: Option<String>) -> Option<Seq<char>> {
    match o {
        Some(s) => Some(s@),
        None => None,
    }
}

impl View for Coin {
    type V = CoinValue;

    open spec fn view(&self) -> CoinValue {
        (self.denom@, self.amount.value(), self.amount.scale, opt_text(self.coingecko_id))
    }
}

/// The coin of `denom` whose raw integer amount is written `amount`, scaled
/// by `10^-decimals`; an error when num-bigint reads no integer there.
pub open spec fn coin_built(denom: Seq<char>, amount: Seq<char>, decimals: u8, coingecko_id: Option<
    Seq<char>,
>) -> Result<CoinValue, ParseIntError> {
    match biguint_of(amount) {
        Some(v) => Ok((denom, v, decimals, coingecko_id)),
        None => Err(ParseIntError),
    }
}

impl Coin {
    /// A coin from the raw integer amount of the chain, scaled by `10^-decimals`.
    pub fn build(denom: String, amount: String, decimals: u8, coingecko_id: Option<String>) -> (r:
        Result<Coin, ParseIntError>)
        ensures
            match coin_built(denom@, amount@, decimals, opt_text(coingecko_id)) {
                Ok(v) => r matches Ok(c) && c@ == v && c.amount.wf() && c.denom == denom
                    && c.coingecko_id == coingecko_id,
                Err(e) => r == Err::<Coin, ParseIntError>(e),
            },
    {
        match Amount::parse(amount.as_str(), decimals) {
            Ok(amount) => Ok(Coin { denom, amount, coingecko_id }),
            Err(e) => Err(e),
        }
    }

    /// The value of the coin in nano-dollars at `price` nano-dollars per
    /// token, rounded down; it fails where the product of the amount's
    /// digits and the price does not fit a `u128`.
    pub fn total_value(&self, price: u128) -> (r: Result<u128, ArithmeticError>)
        requires
            self.amount.wf(),
        ensures
            self.amount.value() * price <= u128::MAX ==> r == Ok::<u128, ArithmeticError>(
                usd_nano(self.amount.value(), self.amount.scale as nat, price as nat) as u128,
            ),
            self.amount.value() * price > u128::MAX ==> r == Err::<u128, ArithmeticError>(
                ArithmeticError,
            ),
            self.amount.value() * price <= u128::MAX ==> usd_nano(
                self.amount.value(),
                self.amount.scale as nat,
                price as nat,
            ) <= u128::MAX,
    {
        let e = self.amount.scale;
        proof {
            lemma_pow10_38();
            lemma_pow10_positive(e as nat);
        }
        if price == 0 {
            assert(self.amount.value() * 0 == 0);
            assert(0nat / pow10(e as nat) == 0) by (nonlinear_arith)
                requires
                    pow10(e as nat) >= 1,
            ;
            return Ok(0);
        }
        let digits = match self.amount.to_u128() {
            Some(v) => v,
            None => {
                assert(self.amount.value() * price >= self.amount.value()) by (nonlinear_arith)
                    requires
                        price >= 1,
                ;
                return Err(ArithmeticError);
            },
        };
        let product = match digits.checked_mul(price) {
            Some(p) => p,
            None => return Err(ArithmeticError),
        };
        if e > 38 {
            proof {
                lemma_pow10_monotone(39, e as nat);
                assert(product as nat / pow10(e as nat) == 0) by (nonlinear_arith)
                    requires
                        product < pow10(e as nat),
                ;
            }
            return Ok(0);
        }
        let p = pow10_u128(e);
        proof {
            assert(product as nat / pow10(e as nat) <= product) by (nonlinear_arith)
                requires
                    pow10(e as nat) >= 1,
            ;
        }
        Ok(product / p)
    }

    /// The coin at another scale (see `Amount::with_scale`).
    pub fn with_scale(&self, scale: u8) -> (r: Coin)
        requires
            self.amount.wf(),
        ensures
            r.denom == self.denom,
            r.coingecko_id == self.coingecko_id,
            r.amount.wf(),
            r.amount.scale == scale,
            r.amount.value() == rescaled(self.amount.value(), self.amount.scale as nat, scale as nat),
    {
        Coin {
            denom: self.denom.clone(),
            amount: self.amount.with_scale(scale),
            coingecko_id: match &self.coingecko_id {
                Some(id) => Some(id.clone()),
                None => None,
            },
        }
    }

    /// The amount followed by the denomination, as in `12.34uarch`.
    pub fn to_text(&self) -> (r: String)
        requires
            self.amount.wf(),
        ensures
            r@ == decimal_display(self.amount.value(), self.amount.scale as int) + self.denom@,
    {
        let amount = self.amount.to_text();
        amount.concat(self.denom.as_str())
    }
}

} // verus!
