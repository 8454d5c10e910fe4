//! Fixed-point tax calculator.
//!
//! Every amount is integer paisa (hundredths of an INR), so the computation
//! is bit-identical wherever it runs.  Per-row INR values are the product
//! amount × USD price × USD→INR rate, each parsed as centi-units, scaled
//! back down by 10^4.  Totals clamp at `u64::MAX` instead of wrapping, so
//! noisy data can never make the liability wrap around to a small number.

use vstd::prelude::*;
use vstd::arithmetic::div_mod::lemma_div_is_ordered;
use crate::amounts::{
    cap64, centi_of, format_inr_paisa, inr_bytes, lemma_centi_of_range, parse_amount,
};
use crate::text::{ascii_str_of, str_eq};
use crate::types::{Category, Direction, LedgerRow, PriceEntry, TaxBreakdown, TaxInput, UserType};

verus! {

/// USD price of an asset in cents: the first matching table entry's parsed
/// price, or 100 (one dollar) when the asset has no entry.  A present but
/// malformed price degrades to zero like any other malformed number.
pub open spec fn price_centi(asset: Seq<char>, prices: Seq<PriceEntry>) -> int
    decreases prices.len(),
{
    if prices.len() == 0 {
        100
    } else if prices[0].asset@ == asset {
        centi_of(prices[0].usd_price@)
    } else {
        price_centi(asset, prices.skip(1))
    }
}

pub proof fn lemma_price_centi_range(asset: Seq<char>, prices: Seq<PriceEntry>)
    ensures
        0 <= price_centi(asset, prices) <= u64::MAX,
    decreases prices.len(),
{
    if prices.len() == 0 {
    } else if prices[0].asset@ == asset {
        lemma_centi_of_range(prices[0].usd_price@);
    } else {
        lemma_price_centi_range(asset, prices.skip(1));
    }
}

/// Find the price of `asset` in cents.
fn lookup_price_centi(asset: &str, prices: &[PriceEntry]) -> (r: u64)
    ensures
        r == price_centi(asset@, prices@),
{
    let n = prices.len();
    let mut i: usize = 0;
    proof {
        assert(prices@.skip(0) =~= prices@);
    }
    while i < n
        invariant
            0 <= i <= n,
            n == prices@.len(),
            price_centi(asset@, prices@) == price_centi(asset@, prices@.skip(i as int)),
        decreases n - i,
    {
        proof {
            assert(prices@.skip(i as int)[0] == prices@[i as int]);
            assert(prices@.skip(i as int).skip(1) =~= prices@.skip(i + 1));
        }
        if str_eq(prices[i].asset.as_str(), asset) {
            return parse_amount(prices[i].usd_price.as_str());
        }
        i = i + 1;
    }
    proof {
        assert(prices@.skip(n as int).len() == 0);
    }
    100
}

/// INR paisa value of one amount: centi-units × price in cents × rate in
/// paisa per USD carries a scale of 10^4 beyond paisa, so the product is
/// scaled down by 10^4 and clamped into the `u64` range.
pub open spec fn inr_paisa(amount_c: int, price_c: int, rate_p: int) -> int {
    cap64((amount_c * price_c * rate_p) / 10000)
}

/// Compute `a * p * r / 10^4` exactly, clamped at `u64::MAX`.
fn mul3_div_ten_thousand(a: u64, p: u64, r: u64) -> (res: u64)
    ensures
        res == inr_paisa(a as int, p as int, r as int),
{
    proof {
        assert((a as int) * (p as int) <= u128::MAX) by (nonlinear_arith)
            requires
                a <= u64::MAX,
                p <= u64::MAX,
        ;
        assert((a as int) * (p as int) >= 0) by (nonlinear_arith)
            requires
                a >= 0,
                p >= 0,
        ;
    }
    let ap: u128 = (a as u128) * (p as u128);
    if r > 0 && ap > u128::MAX / (r as u128) {
        proof {
            assert(ap * r > u128::MAX) by (nonlinear_arith)
                requires
                    r >= 1,
                    ap > u128::MAX as int / (r as int),
            ;
            assert((ap * r) / 10000 > u64::MAX) by (nonlinear_arith)
                requires
                    ap * r > u128::MAX as int,
            ;
        }
        u64::MAX
    } else {
        proof {
            if r > 0 {
                assert(ap * r <= u128::MAX) by (nonlinear_arith)
                    requires
                        r >= 1,
                        ap >= 0,
                        ap <= u128::MAX as int / (r as int),
                ;
            } else {
                assert(ap * r == 0) by (nonlinear_arith)
                    requires
                        r == 0,
                ;
            }
            assert(ap * r >= 0) by (nonlinear_arith)
                requires
                    ap >= 0,
                    r >= 0,
            ;
        }
        let apr: u128 = ap * (r as u128);
        let v: u128 = apr / 10000;
        if v > u64::MAX as u128 {
            u64::MAX
        } else {
            v as u64
        }
    }
}

/// Convert one row's amount to INR paisa using the price table and the
/// USD→INR rate given in paisa per USD.
pub fn amount_to_inr_paisa(amount: &str, asset: &str, prices: &[PriceEntry], usd_inr_rate: u64) -> (r:
    u64)
    ensures
        r == inr_paisa(centi_of(amount@), price_centi(asset@, prices@), usd_inr_rate as int),
{
    let a = parse_amount(amount);
    let p = lookup_price_centi(asset, prices);
    mul3_div_ten_thousand(a, p, usd_inr_rate)
}

/// Contribution of one row to a category total: its INR paisa value when
/// the row carries that category inbound, zero otherwise.
pub open spec fn row_contribution(
    row: LedgerRow,
    prices: Seq<PriceEntry>,
    rate_p: int,
    cat: Category,
) -> int {
    if row.category == cat && row.direction == Direction::In {
        inr_paisa(centi_of(row.amount@), price_centi(row.asset@, prices), rate_p)
    } else {
        0
    }
}

/// Running total of one category over the ledger, clamped at `u64::MAX`
/// after every addition.
pub open spec fn category_total(
    ledger: Seq<LedgerRow>,
    prices: Seq<PriceEntry>,
    rate_p: int,
    cat: Category,
) -> int
    decreases ledger.len(),
{
    if ledger.len() == 0 {
        0
    } else {
        cap64(
            category_total(ledger.drop_last(), prices, rate_p, cat) + row_contribution(
                ledger.last(),
                prices,
                rate_p,
                cat,
            ),
        )
    }
}

pub proof fn lemma_row_contribution_range(
    row: LedgerRow,
    prices: Seq<PriceEntry>,
    rate_p: int,
    cat: Category,
)
    requires
        rate_p >= 0,
    ensures
        0 <= row_contribution(row, prices, rate_p, cat) <= u64::MAX,
{
    if row.category == cat && row.direction == Direction::In {
        lemma_centi_of_range(row.amount@);
        lemma_price_centi_range(row.asset@, prices);
        let a = centi_of(row.amount@);
        let p = price_centi(row.asset@, prices);
        assert(a * p * rate_p >= 0) by (nonlinear_arith)
            requires
                a >= 0,
                p >= 0,
                rate_p >= 0,
        ;
        assert(a * p * rate_p / 10000 >= 0) by (nonlinear_arith)
            requires
                a * p * rate_p >= 0,
        ;
    }
}

pub proof fn lemma_category_total_range(
    ledger: Seq<LedgerRow>,
    prices: Seq<PriceEntry>,
    rate_p: int,
    cat: Category,
)
    requires
        rate_p >= 0,
    ensures
        0 <= category_total(ledger, prices, rate_p, cat) <= u64::MAX,
    decreases ledger.len(),
{
    if ledger.len() > 0 {
        lemma_category_total_range(ledger.drop_last(), prices, rate_p, cat);
        lemma_row_contribution_range(ledger.last(), prices, rate_p, cat);
    }
}

/// Saturating addition.
fn sat_add(a: u64, b: u64) -> (r: u64)
    ensures
        r == cap64(a as int + b as int),
{
    if a > u64::MAX - b {
        u64::MAX
    } else {
        a + b
    }
}

/// The three taxable running totals of a ledger, in paisa:
/// professional income, VDA gains and VDA losses, inbound rows only.
fn accumulate_totals(ledger: &Vec<LedgerRow>, prices: &[PriceEntry], rate_p: u64) -> (t: (
    u64,
    u64,
    u64,
))
    ensures
        t.0 == category_total(ledger@, prices@, rate_p as int, Category::Income),
        t.1 == category_total(ledger@, prices@, rate_p as int, Category::Gains),
        t.2 == category_total(ledger@, prices@, rate_p as int, Category::Losses),
{
    let n = ledger.len();
    let mut income: u64 = 0;
    let mut gains: u64 = 0;
    let mut losses: u64 = 0;
    let mut i: usize = 0;
    while i < n
        invariant
            0 <= i <= n,
            n == ledger@.len(),
            income == category_total(ledger@.take(i as int), prices@, rate_p as int, Category::Income),
            gains == category_total(ledger@.take(i as int), prices@, rate_p as int, Category::Gains),
            losses == category_total(ledger@.take(i as int), prices@, rate_p as int, Category::Losses),
        decreases n - i,
    {
        let row = &ledger[i];
        let value = amount_to_inr_paisa(
            row.amount.as_str(),
            row.asset.as_str(),
            prices,
            rate_p,
        );
        proof {
            assert(ledger@.take(i + 1).drop_last() =~= ledger@.take(i as int));
            assert(ledger@.take(i + 1).last() == ledger@[i as int]);
        }
        match row.category {
            Category::Income => {
                if matches!(row.direction, Direction::In) {
                    income = sat_add(income, value);
                } else {
                    proof {
                        lemma_category_total_range(
                            ledger@.take(i as int),
                            prices@,
                            rate_p as int,
                            Category::Income,
                        );
                    }
                }
            },
            Category::Gains => {
                if matches!(row.direction, Direction::In) {
                    gains = sat_add(gains, value);
                } else {
                    proof {
                        lemma_category_total_range(
                            ledger@.take(i as int),
                            prices@,
                            rate_p as int,
                            Category::Gains,
                        );
                    }
                }
            },
            Category::Losses => {
                if matches!(row.direction, Direction::In) {
                    losses = sat_add(losses, value);
                } else {
                    proof {
                        lemma_category_total_range(
                            ledger@.take(i as int),
                            prices@,
                            rate_p as int,
                            Category::Losses,
                        );
                    }
                }
            },
            _ => {},
        }
        proof {
            lemma_category_total_range(
                ledger@.take(i as int),
                prices@,
                rate_p as int,
                Category::Income,
            );
            lemma_category_total_range(
                ledger@.take(i as int),
                prices@,
                rate_p as int,
                Category::Gains,
            );
            lemma_category_total_range(
                ledger@.take(i as int),
                prices@,
                rate_p as int,
                Category::Losses,
            );
        }
        i = i + 1;
    }
    proof {
        assert(ledger@.take(n as int) =~= ledger@);
    }
    (income, gains, losses)
}

/// The value of income that falls inside a slab: clamped between the
/// slab's exclusive lower bound and its inclusive upper bound.
pub open spec fn slab_portion(income: int, lo: int, hi: int) -> int {
    if income <= lo {
        0
    } else if income >= hi {
        hi - lo
    } else {
        income - lo
    }
}

/// Progressive new-regime slab tax in whole INR over taxable income in
/// whole INR: seven brackets, each marginal amount taxed at its own rate
/// and floored separately.
pub open spec fn slab_tax_inr(income: int) -> int {
    slab_portion(income, 400001, 800000) * 5 / 100 + slab_portion(income, 800001, 1200000) * 10
        / 100 + slab_portion(income, 1200001, 1600000) * 15 / 100 + slab_portion(
        income,
        1600001,
        2000000,
    ) * 20 / 100 + slab_portion(income, 2000001, 2400000) * 25 / 100 + slab_portion(
        income,
        2400001,
        0xffff_ffff_ffff_ffff,
    ) * 30 / 100
}

fn slab_portion_exec(income: u64, lo: u64, hi: u64) -> (p: u64)
    requires
        lo <= hi,
    ensures
        p == slab_portion(income as int, lo as int, hi as int),
{
    if income <= lo {
        0
    } else if income >= hi {
        hi - lo
    } else {
        income - lo
    }
}

/// Each slab term is at most the slab's width times its rate; the top term
/// is at most 30% of the income.
pub proof fn lemma_slab_tax_bound(x: int)
    requires
        x >= 0,
    ensures
        0 <= slab_tax_inr(x) <= x * 30 / 100 + 299995,
{
    lemma_slab_term_bound(x, 400001, 800000, 5);
    lemma_slab_term_bound(x, 800001, 1200000, 10);
    lemma_slab_term_bound(x, 1200001, 1600000, 15);
    lemma_slab_term_bound(x, 1600001, 2000000, 20);
    lemma_slab_term_bound(x, 2000001, 2400000, 25);
    lemma_slab_term_bound(x, 2400001, 0xffff_ffff_ffff_ffff, 30);
    assert(slab_portion(x, 2400001, 0xffff_ffff_ffff_ffff) <= x);
    assert(slab_portion(x, 2400001, 0xffff_ffff_ffff_ffff) * 30 <= x * 30) by (nonlinear_arith)
        requires
            slab_portion(x, 2400001, 0xffff_ffff_ffff_ffff) <= x,
    ;
    lemma_div_is_ordered(slab_portion(x, 2400001, 0xffff_ffff_ffff_ffff) * 30, x * 30, 100);
}

proof fn lemma_slab_term_bound(x: int, lo: int, hi: int, rate: int)
    requires
        0 <= lo <= hi,
        0 <= rate <= 30,
        x >= 0,
    ensures
        0 <= slab_portion(x, lo, hi) * rate / 100 <= (hi - lo) * rate / 100,
{
    let p = slab_portion(x, lo, hi);
    assert(0 <= p <= hi - lo);
    assert(0 <= p * rate <= (hi - lo) * rate) by (nonlinear_arith)
        requires
            0 <= p <= hi - lo,
            0 <= rate,
    ;
    lemma_div_is_ordered(p * rate, (hi - lo) * rate, 100);
}

/// Slab tax for an individual or family unit under the new regime.
pub fn calculate_slab_tax(taxable_income: u64) -> (tax: u64)
    ensures
        tax == slab_tax_inr(taxable_income as int),
{
    let x = taxable_income;
    let t1 = slab_portion_exec(x, 400001, 800000) as u128 * 5 / 100;
    let t2 = slab_portion_exec(x, 800001, 1200000) as u128 * 10 / 100;
    let t3 = slab_portion_exec(x, 1200001, 1600000) as u128 * 15 / 100;
    let t4 = slab_portion_exec(x, 1600001, 2000000) as u128 * 20 / 100;
    let t5 = slab_portion_exec(x, 2000001, 2400000) as u128 * 25 / 100;
    let t6 = slab_portion_exec(x, 2400001, 0xffff_ffff_ffff_ffff) as u128 * 30 / 100;
    proof {
        lemma_slab_term_bound(x as int, 400001, 800000, 5);
        lemma_slab_term_bound(x as int, 800001, 1200000, 10);
        lemma_slab_term_bound(x as int, 1200001, 1600000, 15);
        lemma_slab_term_bound(x as int, 1600001, 2000000, 20);
        lemma_slab_term_bound(x as int, 2000001, 2400000, 25);
        lemma_slab_term_bound(x as int, 2400001, 0xffff_ffff_ffff_ffff, 30);
        assert(slab_portion(x as int, 2400001, 0xffff_ffff_ffff_ffff) * 30 / 100 <= u64::MAX * 30
            / 100) by {
            assert(slab_portion(x as int, 2400001, 0xffff_ffff_ffff_ffff) * 30 <= u64::MAX * 30)
                by (nonlinear_arith)
                requires
                    slab_portion(x as int, 2400001, 0xffff_ffff_ffff_ffff) <= u64::MAX,
            ;
            lemma_div_is_ordered(
                slab_portion(x as int, 2400001, 0xffff_ffff_ffff_ffff) * 30,
                u64::MAX * 30,
                100,
            );
        }
    }
    let sum: u128 = t1 + t2 + t3 + t4 + t5 + t6;
    sum as u64
}

/// Professional income after the presumptive-income regime: half when the
/// toggle is on for an individual, unchanged otherwise.
pub open spec fn taxable_income_paisa(ut: UserType, use_44ada: bool, income_paisa: int) -> int {
    if use_44ada && ut == UserType::Individual {
        income_paisa / 2
    } else {
        income_paisa
    }
}

/// Tax on professional income in paisa: slab tax on whole INR scaled back
/// to paisa for individuals and family units; a 22% flat rate plus a 10%
/// surcharge on that tax (together 24.2%) for corporate filers.
pub open spec fn professional_tax_paisa(ut: UserType, taxable_paisa: int) -> int {
    match ut {
        UserType::Individual => slab_tax_inr(taxable_paisa / 100) * 100,
        UserType::Huf => slab_tax_inr(taxable_paisa / 100) * 100,
        UserType::Corporate => taxable_paisa * 242 / 1000,
    }
}

/// Flat-rate tax on VDA gains in paisa; losses are never offset.
pub open spec fn vda_tax_paisa(gains_paisa: int) -> int {
    gains_paisa * 30 / 100
}

/// Total tax in paisa from the two taxable totals: professional tax plus
/// VDA tax, plus a 4% cess on that sum.
pub open spec fn tax_from_totals(
    ut: UserType,
    use_44ada: bool,
    income_paisa: int,
    gains_paisa: int,
) -> int {
    let taxable = taxable_income_paisa(ut, use_44ada, income_paisa);
    let pt = professional_tax_paisa(ut, taxable);
    let vt = vda_tax_paisa(gains_paisa);
    let before = pt + vt;
    before + before * 4 / 100
}

/// The parsed USD→INR exchange rate of an input, in paisa per USD.
pub open spec fn rate_paisa(input: TaxInput) -> int {
    centi_of(input.usd_inr_rate@)
}

pub open spec fn income_total(input: TaxInput) -> int {
    category_total(input.ledger@, input.prices@, rate_paisa(input), Category::Income)
}

pub open spec fn gains_total(input: TaxInput) -> int {
    category_total(input.ledger@, input.prices@, rate_paisa(input), Category::Gains)
}

pub open spec fn losses_total(input: TaxInput) -> int {
    category_total(input.ledger@, input.prices@, rate_paisa(input), Category::Losses)
}

/// The total tax of a complete input, in paisa.
pub open spec fn spec_total_tax_paisa(input: TaxInput) -> int {
    tax_from_totals(input.user_type, input.use_44ada, income_total(input), gains_total(input))
}

proof fn lemma_professional_tax_range(ut: UserType, taxable: int)
    requires
        0 <= taxable <= u64::MAX,
    ensures
        0 <= professional_tax_paisa(ut, taxable) <= 0x5000_0000_0000_0000,
{
    match ut {
        UserType::Individual | UserType::Huf => {
            lemma_div_is_ordered(taxable, u64::MAX as int, 100);
            lemma_slab_tax_bound(taxable / 100);
            assert(taxable / 100 * 30 <= u64::MAX as int / 100 * 30) by (nonlinear_arith)
                requires
                    taxable / 100 <= u64::MAX as int / 100,
            ;
            lemma_div_is_ordered(taxable / 100 * 30, u64::MAX as int / 100 * 30, 100);
            assert(slab_tax_inr(taxable / 100) * 100 <= (u64::MAX as int / 100 * 30 / 100 + 299995)
                * 100) by (nonlinear_arith)
                requires
                    0 <= slab_tax_inr(taxable / 100),
                    slab_tax_inr(taxable / 100) <= u64::MAX as int / 100 * 30 / 100 + 299995,
            ;
            assert(slab_tax_inr(taxable / 100) * 100 >= 0) by (nonlinear_arith)
                requires
                    slab_tax_inr(taxable / 100) >= 0,
            ;
        },
        UserType::Corporate => {
            assert(taxable * 242 <= u64::MAX * 242) by (nonlinear_arith)
                requires
                    0 <= taxable <= u64::MAX,
            ;
            assert(taxable * 242 >= 0) by (nonlinear_arith)
                requires
                    taxable >= 0,
            ;
            lemma_div_is_ordered(taxable * 242, u64::MAX * 242, 1000);
        },
    }
}

proof fn lemma_vda_tax_range(gains: int)
    requires
        0 <= gains <= u64::MAX,
    ensures
        0 <= vda_tax_paisa(gains) <= 0x5000_0000_0000_0000,
{
    assert(gains * 30 <= u64::MAX * 30) by (nonlinear_arith)
        requires
            0 <= gains <= u64::MAX,
    ;
    assert(gains * 30 >= 0) by (nonlinear_arith)
        requires
            gains >= 0,
    ;
    lemma_div_is_ordered(gains * 30, u64::MAX * 30, 100);
}

/// Tax on professional income, dispatched on the user type.
fn professional_tax_exec(ut: UserType, taxable_paisa: u64) -> (r: u64)
    ensures
        r == professional_tax_paisa(ut, taxable_paisa as int),
{
    match ut {
        UserType::Individual | UserType::Huf => {
            let inr = taxable_paisa / 100;
            let slab = calculate_slab_tax(inr);
            proof {
                lemma_professional_tax_range(ut, taxable_paisa as int);
            }
            let wide = slab as u128 * 100;
            wide as u64
        },
        UserType::Corporate => {
            proof {
                lemma_professional_tax_range(ut, taxable_paisa as int);
            }
            let wide = taxable_paisa as u128 * 242 / 1000;
            wide as u64
        },
    }
}

/// Taxable professional income of an input, after the presumptive regime.
pub open spec fn taxable_income_of(input: TaxInput) -> int {
    taxable_income_paisa(input.user_type, input.use_44ada, income_total(input))
}

/// Professional-income tax of an input, in paisa.
pub open spec fn professional_tax_of(input: TaxInput) -> int {
    professional_tax_paisa(input.user_type, taxable_income_of(input))
}

/// VDA tax of an input, in paisa.
pub open spec fn vda_tax_of(input: TaxInput) -> int {
    vda_tax_paisa(gains_total(input))
}

/// Health-and-education cess of an input: 4% of the summed taxes.
pub open spec fn cess_of(input: TaxInput) -> int {
    (professional_tax_of(input) + vda_tax_of(input)) * 4 / 100
}

/// Presumptive-income law: with the toggle on, an individual's taxable
/// professional income is exactly half (rounded down to the paisa) of the
/// gross professional income.
pub proof fn lemma_presumptive_halves(input: TaxInput)
    requires
        input.use_44ada,
        input.user_type == UserType::Individual,
    ensures
        taxable_income_of(input) == income_total(input) / 2,
{
}

proof fn lemma_slab_portion_monotone(x: int, y: int, lo: int, hi: int)
    requires
        x <= y,
        lo <= hi,
    ensures
        slab_portion(x, lo, hi) <= slab_portion(y, lo, hi),
{
}

proof fn lemma_slab_term_monotone(x: int, y: int, lo: int, hi: int, rate: int)
    requires
        x <= y,
        lo <= hi,
        rate >= 0,
    ensures
        slab_portion(x, lo, hi) * rate / 100 <= slab_portion(y, lo, hi) * rate / 100,
{
    lemma_slab_portion_monotone(x, y, lo, hi);
    assert(slab_portion(x, lo, hi) * rate <= slab_portion(y, lo, hi) * rate) by (nonlinear_arith)
        requires
            slab_portion(x, lo, hi) <= slab_portion(y, lo, hi),
            rate >= 0,
    ;
    lemma_div_is_ordered(slab_portion(x, lo, hi) * rate, slab_portion(y, lo, hi) * rate, 100);
}

/// The slab schedule never taxes a larger income less.
pub proof fn lemma_slab_tax_monotone(x: int, y: int)
    requires
        x <= y,
    ensures
        slab_tax_inr(x) <= slab_tax_inr(y),
{
    lemma_slab_term_monotone(x, y, 400001, 800000, 5);
    lemma_slab_term_monotone(x, y, 800001, 1200000, 10);
    lemma_slab_term_monotone(x, y, 1200001, 1600000, 15);
    lemma_slab_term_monotone(x, y, 1600001, 2000000, 20);
    lemma_slab_term_monotone(x, y, 2000001, 2400000, 25);
    lemma_slab_term_monotone(x, y, 2400001, 0xffff_ffff_ffff_ffff, 30);
}

/// Tax monotonicity at the level of the two taxable totals: more income or
/// more gains never means less tax.
pub proof fn lemma_tax_monotone_totals(
    ut: UserType,
    use_44ada: bool,
    i1: int,
    i2: int,
    g1: int,
    g2: int,
)
    requires
        0 <= i1 <= i2,
        0 <= g1 <= g2,
    ensures
        tax_from_totals(ut, use_44ada, i1, g1) <= tax_from_totals(ut, use_44ada, i2, g2),
{
    let t1 = taxable_income_paisa(ut, use_44ada, i1);
    let t2 = taxable_income_paisa(ut, use_44ada, i2);
    lemma_div_is_ordered(i1, i2, 2);
    assert(0 <= t1 <= t2) by {
        vstd::arithmetic::div_mod::lemma_div_pos_is_pos(i1, 2);
    }
    let p1 = professional_tax_paisa(ut, t1);
    let p2 = professional_tax_paisa(ut, t2);
    assert(p1 <= p2) by {
        match ut {
            UserType::Individual | UserType::Huf => {
                lemma_div_is_ordered(t1, t2, 100);
                lemma_slab_tax_monotone(t1 / 100, t2 / 100);
                vstd::arithmetic::div_mod::lemma_div_pos_is_pos(t1, 100);
                lemma_slab_tax_bound(t1 / 100);
                assert(slab_tax_inr(t1 / 100) * 100 <= slab_tax_inr(t2 / 100) * 100)
                    by (nonlinear_arith)
                    requires
                        slab_tax_inr(t1 / 100) <= slab_tax_inr(t2 / 100),
                ;
            },
            UserType::Corporate => {
                assert(t1 * 242 <= t2 * 242) by (nonlinear_arith)
                    requires
                        t1 <= t2,
                ;
                lemma_div_is_ordered(t1 * 242, t2 * 242, 1000);
            },
        }
    }
    let v1 = vda_tax_paisa(g1);
    let v2 = vda_tax_paisa(g2);
    assert(v1 <= v2) by {
        assert(g1 * 30 <= g2 * 30) by (nonlinear_arith)
            requires
                g1 <= g2,
        ;
        lemma_div_is_ordered(g1 * 30, g2 * 30, 100);
    }
    let b1 = p1 + v1;
    let b2 = p2 + v2;
    assert(b1 * 4 <= b2 * 4) by (nonlinear_arith)
        requires
            b1 <= b2,
    ;
    lemma_div_is_ordered(b1 * 4, b2 * 4, 100);
}

proof fn lemma_cap64_monotone(a: int, b: int)
    requires
        a <= b,
    ensures
        cap64(a) <= cap64(b),
{
}

/// A row whose amount denotes no smaller a value contributes no less,
/// all its other fields being equal.
proof fn lemma_contribution_monotone_in_amount(
    r1: LedgerRow,
    r2: LedgerRow,
    prices: Seq<PriceEntry>,
    rate_p: int,
    cat: Category,
)
    requires
        rate_p >= 0,
        r1.category == r2.category,
        r1.direction == r2.direction,
        r1.asset@ == r2.asset@,
        centi_of(r1.amount@) <= centi_of(r2.amount@),
    ensures
        row_contribution(r1, prices, rate_p, cat) <= row_contribution(r2, prices, rate_p, cat),
{
    if r1.category == cat && r1.direction == Direction::In {
        let a1 = centi_of(r1.amount@);
        let a2 = centi_of(r2.amount@);
        let p = price_centi(r1.asset@, prices);
        lemma_centi_of_range(r1.amount@);
        lemma_price_centi_range(r1.asset@, prices);
        assert(a1 * p * rate_p <= a2 * p * rate_p) by (nonlinear_arith)
            requires
                0 <= a1 <= a2,
                p >= 0,
                rate_p >= 0,
        ;
        lemma_div_is_ordered(a1 * p * rate_p, a2 * p * rate_p, 10000);
        lemma_cap64_monotone(a1 * p * rate_p / 10000, a2 * p * rate_p / 10000);
    }
}

proof fn lemma_category_total_pointwise(
    l1: Seq<LedgerRow>,
    l2: Seq<LedgerRow>,
    prices: Seq<PriceEntry>,
    rate_p: int,
    cat: Category,
)
    requires
        l1.len() == l2.len(),
        forall|j: int|
            0 <= j < l1.len() ==> #[trigger] row_contribution(l1[j], prices, rate_p, cat)
                <= row_contribution(l2[j], prices, rate_p, cat),
    ensures
        category_total(l1, prices, rate_p, cat) <= category_total(l2, prices, rate_p, cat),
    decreases l1.len(),
{
    if l1.len() > 0 {
        assert(forall|j: int|
            0 <= j < l1.len() - 1 ==> l1.drop_last()[j] == l1[j] && l2.drop_last()[j] == l2[j]);
        lemma_category_total_pointwise(l1.drop_last(), l2.drop_last(), prices, rate_p, cat);
        assert(l1.last() == l1[l1.len() - 1] && l2.last() == l2[l2.len() - 1]);
        lemma_cap64_monotone(
            category_total(l1.drop_last(), prices, rate_p, cat) + row_contribution(
                l1.last(),
                prices,
                rate_p,
                cat,
            ),
            category_total(l2.drop_last(), prices, rate_p, cat) + row_contribution(
                l2.last(),
                prices,
                rate_p,
                cat,
            ),
        );
    }
}

/// Tax monotonicity: raising a single row's INR-equivalent value, holding
/// everything else fixed, never decreases the total computed tax.
pub proof fn lemma_tax_monotone_in_row(a: TaxInput, b: TaxInput, i: int)
    requires
        0 <= i < a.ledger@.len(),
        b.ledger@.len() == a.ledger@.len(),
        forall|j: int| 0 <= j < a.ledger@.len() && j != i ==> a.ledger@[j] == #[trigger] b.ledger@[j],
        b.user_type == a.user_type,
        b.use_44ada == a.use_44ada,
        b.prices@ == a.prices@,
        b.usd_inr_rate@ == a.usd_inr_rate@,
        b.ledger@[i].category == a.ledger@[i].category,
        b.ledger@[i].direction == a.ledger@[i].direction,
        b.ledger@[i].asset@ == a.ledger@[i].asset@,
        centi_of(a.ledger@[i].amount@) <= centi_of(b.ledger@[i].amount@),
    ensures
        spec_total_tax_paisa(a) <= spec_total_tax_paisa(b),
{
    let rate = rate_paisa(a);
    lemma_centi_of_range(a.usd_inr_rate@);
    assert(rate_paisa(b) == rate);
    assert forall|j: int, cat: Category|
        0 <= j < a.ledger@.len() implies #[trigger] row_contribution(
        a.ledger@[j],
        a.prices@,
        rate,
        cat,
    ) <= row_contribution(b.ledger@[j], a.prices@, rate, cat) by {
        if j == i {
            lemma_contribution_monotone_in_amount(
                a.ledger@[i],
                b.ledger@[i],
                a.prices@,
                rate,
                cat,
            );
        }
    }
    lemma_category_total_pointwise(a.ledger@, b.ledger@, a.prices@, rate, Category::Income);
    lemma_category_total_pointwise(a.ledger@, b.ledger@, a.prices@, rate, Category::Gains);
    lemma_category_total_range(a.ledger@, a.prices@, rate, Category::Income);
    lemma_category_total_range(a.ledger@, a.prices@, rate, Category::Gains);
    lemma_category_total_range(b.ledger@, a.prices@, rate, Category::Income);
    lemma_category_total_range(b.ledger@, a.prices@, rate, Category::Gains);
    lemma_tax_monotone_totals(
        a.user_type,
        a.use_44ada,
        income_total(a),
        income_total(b),
        gains_total(a),
        gains_total(b),
    );
}

/// Total tax in paisa for a complete input.  This is the figure that the
/// attestation commits to: identical on every run over identical input.
pub fn calculate_tax_paisa(input: &TaxInput) -> (r: u64)
    ensures
        r == spec_total_tax_paisa(*input),
{
    let rate = parse_amount(input.usd_inr_rate.as_str());
    let (income, gains, _losses) = accumulate_totals(&input.ledger, input.prices.as_slice(), rate);
    let taxable = if input.use_44ada && matches!(input.user_type, UserType::Individual) {
        income / 2
    } else {
        income
    };
    let pt = professional_tax_exec(input.user_type, taxable);
    let vt_wide = gains as u128 * 30 / 100;
    proof {
        lemma_vda_tax_range(gains as int);
    }
    let vt = vt_wide as u64;
    proof {
        lemma_professional_tax_range(input.user_type, taxable as int);
    }
    let before = pt + vt;
    let cess_wide = before as u128 * 4 / 100;
    proof {
        assert(before as int * 4 / 100 <= before as int) by (nonlinear_arith)
            requires
                before >= 0,
        ;
    }
    let cess = cess_wide as u64;
    before + cess
}

/// The total tax decomposes into the three reported parts.
pub proof fn lemma_total_decomposition(input: TaxInput)
    ensures
        spec_total_tax_paisa(input) == professional_tax_of(input) + vda_tax_of(input) + cess_of(
            input,
        ),
{
}

/// Full tax breakdown for a complete input: every reported amount is the
/// two-decimal INR rendering of the corresponding paisa figure of the
/// integer model, so the human-readable report and the attested number can
/// never drift apart.
pub fn calculate_tax(input: &TaxInput) -> (b: TaxBreakdown)
    ensures
        b.professional_income_inr@ == ascii_str_of(inr_bytes(income_total(*input))),
        b.taxable_professional_income_inr@ == ascii_str_of(inr_bytes(taxable_income_of(*input))),
        b.vda_gains_inr@ == ascii_str_of(inr_bytes(gains_total(*input))),
        b.vda_losses_inr@ == ascii_str_of(inr_bytes(losses_total(*input))),
        b.professional_tax_inr@ == ascii_str_of(inr_bytes(professional_tax_of(*input))),
        b.vda_tax_inr@ == ascii_str_of(inr_bytes(vda_tax_of(*input))),
        b.cess_inr@ == ascii_str_of(inr_bytes(cess_of(*input))),
        b.total_tax_inr@ == ascii_str_of(inr_bytes(spec_total_tax_paisa(*input))),
{
    let rate = parse_amount(input.usd_inr_rate.as_str());
    let (income, gains, losses) = accumulate_totals(&input.ledger, input.prices.as_slice(), rate);
    let taxable = if input.use_44ada && matches!(input.user_type, UserType::Individual) {
        income / 2
    } else {
        income
    };
    let pt = professional_tax_exec(input.user_type, taxable);
    proof {
        lemma_vda_tax_range(gains as int);
        lemma_professional_tax_range(input.user_type, taxable as int);
    }
    let vt = (gains as u128 * 30 / 100) as u64;
    let before = pt + vt;
    proof {
        assert(before as int * 4 / 100 <= before as int) by (nonlinear_arith)
            requires
                before >= 0,
        ;
    }
    let cess = (before as u128 * 4 / 100) as u64;
    let total = before + cess;
    TaxBreakdown {
        professional_income_inr: format_inr_paisa(income),
        taxable_professional_income_inr: format_inr_paisa(taxable),
        vda_gains_inr: format_inr_paisa(gains),
        vda_losses_inr: format_inr_paisa(losses),
        professional_tax_inr: format_inr_paisa(pt),
        vda_tax_inr: format_inr_paisa(vt),
        cess_inr: format_inr_paisa(cess),
        total_tax_inr: format_inr_paisa(total),
    }
}

} // verus!
