use crate::money::{round_half_up, Amount};
use crate::time::ZonedTime;
use vstd::prelude::*;

verus! {

/// The grid fee, in öre, of an hour on a weekday from 06:00 to 21:59.
pub const PEAK_FEE_MINOR: i64 = 70;

/// The grid fee, in öre, of every other hour.
pub const OFF_PEAK_FEE_MINOR: i64 = 12;

/// The energy tax, in öre, of every hour.
pub const TAX_MINOR: i64 = 45;

/// Whether the grid fee of the peak tier applies: Monday to Friday, from 06:00
/// up to and including the hour that starts at 21:00.
pub open spec fn is_peak(start: ZonedTime) -> bool {
    start.weekday < 5 && 6 <= start.local.hour <= 21
}

/// The grid fee of the hour that starts at `start`.
pub open spec fn fee_at(start: ZonedTime) -> Amount {
    if is_peak(start) {
        Amount { units: Amount::spec_from_minor(PEAK_FEE_MINOR as int) as i128 }
    } else {
        Amount { units: Amount::spec_from_minor(OFF_PEAK_FEE_MINOR as int) as i128 }
    }
}

/// The energy tax of every hour.
pub open spec fn tax_amount() -> Amount {
    Amount { units: Amount::spec_from_minor(TAX_MINOR as int) as i128 }
}

/// The value-added tax on `energy`: 25%, rounded half up to a hundredth of an
/// öre (100 amount units).
pub open spec fn vat_of(energy: Amount) -> Amount {
    Amount { units: (round_half_up(energy.units as int, 400) * 100) as i128 }
}

/// One hour's fully loaded consumer price.
#[derive(Clone, Copy, Debug, PartialEq, Eq, Structural)]
pub struct TotalPrice {
    start_time: ZonedTime,
    energy: Amount,
    vat: Amount,
    fee: Amount,
    tax: Amount,
}

impl TotalPrice {
    pub closed spec fn spec_start_time(self) -> ZonedTime {
        self.start_time
    }

    pub closed spec fn spec_energy(self) -> Amount {
        self.energy
    }

    pub closed spec fn spec_vat(self) -> Amount {
        self.vat
    }

    pub closed spec fn spec_fee(self) -> Amount {
        self.fee
    }

    pub closed spec fn spec_tax(self) -> Amount {
        self.tax
    }

    /// The price of the hour that starts at `start` with energy price `energy`.
    pub open spec fn priced(self, start: ZonedTime, energy: Amount) -> bool {
        &&& self.spec_start_time() == start
        &&& self.spec_energy() == energy
        &&& self.spec_vat() == vat_of(energy)
        &&& self.spec_fee() == fee_at(start)
        &&& self.spec_tax() == tax_amount()
    }

    /// The four parts agree with the tariff for the hour's start and energy price.
    pub open spec fn wf(self) -> bool {
        &&& self.priced(self.spec_start_time(), self.spec_energy())
        &&& self.spec_energy().in_range()
    }

    /// The total of the four parts.
    pub open spec fn spec_sum(self) -> int {
        self.spec_energy().units + self.spec_vat().units + self.spec_fee().units
            + self.spec_tax().units
    }

    /// Prices the hour that starts at `start_time` with energy price `energy` per kWh.
    pub fn compute(start_time: ZonedTime, energy: Amount) -> (r: TotalPrice)
        requires
            start_time.wf(),
            energy.in_range(),
        ensures
            r.priced(start_time, energy),
            r.wf(),
    {
        let vat = Amount { units: crate::money::div_floor(energy.units + 200, 400) * 100 };
        let peak = start_time.weekday < 5 && 6 <= start_time.local.hour
            && start_time.local.hour <= 21;
        let fee = if peak {
            Amount::from_minor(PEAK_FEE_MINOR)
        } else {
            Amount::from_minor(OFF_PEAK_FEE_MINOR)
        };
        TotalPrice { start_time, energy, vat, fee, tax: Amount::from_minor(TAX_MINOR) }
    }

    /// `energy + vat + fee + tax`.
    pub fn sum(&self) -> (r: Amount)
        requires
            self.wf(),
        ensures
            r.units == self.spec_sum(),
    {
        Amount { units: self.energy.units + self.vat.units + self.fee.units + self.tax.units }
    }

    pub fn start_time(&self) -> (r: ZonedTime)
        ensures
            r == self.spec_start_time(),
    {
        self.start_time
    }

    pub fn energy(&self) -> (r: Amount)
        ensures
            r == self.spec_energy(),
    {
        self.energy
    }

    pub fn vat(&self) -> (r: Amount)
        ensures
            r == self.spec_vat(),
    {
        self.vat
    }

    pub fn fee(&self) -> (r: Amount)
        ensures
            r == self.spec_fee(),
    {
        self.fee
    }

    pub fn tax(&self) -> (r: Amount)
        ensures
            r == self.spec_tax(),
    {
        self.tax
    }
}

/// The grid fee of a priced hour is 0.70 SEK exactly when the hour starts on a
/// weekday between 06:00 and 21:59, and 0.12 SEK otherwise.
pub proof fn lemma_fee_tiers(p: TotalPrice)
    requires
        p.wf(),
    ensures
        (p.spec_fee().units == 700_000) <==> (p.spec_start_time().weekday < 5 && 6
            <= p.spec_start_time().local.hour <= 21),
        (p.spec_fee().units != 700_000) ==> p.spec_fee().units == 120_000,
{
}

/// The energy tax of a priced hour is always 0.45 SEK.
pub proof fn lemma_tax_constant(p: TotalPrice)
    requires
        p.wf(),
    ensures
        p.spec_tax().units == 450_000,
{
}

/// The value-added tax of a priced hour is a quarter of its energy price, rounded
/// half up to a hundredth of an öre: four times it differs from the energy price
/// by more than minus half and at most half of four hundredths of an öre.
pub proof fn lemma_vat_quarter_of_energy(p: TotalPrice)
    requires
        p.wf(),
    ensures
        p.spec_vat() == vat_of(p.spec_energy()),
        p.spec_vat().units % 100 == 0,
        -200 < 4 * p.spec_vat().units - p.spec_energy().units <= 200,
{
    let e = p.spec_energy().units as int;
    let q = round_half_up(e, 400);
    vstd::arithmetic::div_mod::lemma_fundamental_div_mod(e + 200, 400);
    let h = (e + 200) / 400;
    vstd::arithmetic::div_mod::lemma_fundamental_div_mod_converse(
        2 * e + 400,
        800,
        h,
        2 * ((e + 200) % 400),
    );
    assert(q == h);
    assert((q * 100) % 100 == 0) by {
        vstd::arithmetic::div_mod::lemma_mod_multiples_basic(q, 100);
    }
}

/// The total of a priced hour is exactly the sum of its four parts.
pub proof fn lemma_sum_of_parts(p: TotalPrice, start: ZonedTime, energy: Amount)
    requires
        p.priced(start, energy),
    ensures
        p.spec_sum() == energy.units + vat_of(energy).units + fee_at(start).units
            + tax_amount().units,
{
}

/// The tariff leaves no freedom: two prices of the same hour and energy price are
/// equal in every part.
pub proof fn lemma_price_determined(p: TotalPrice, q: TotalPrice, start: ZonedTime, energy: Amount)
    requires
        p.priced(start, energy),
        q.priced(start, energy),
    ensures
        p == q,
{
}

} // verus!
