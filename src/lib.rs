//! Day-ahead electricity spot prices turned into fully loaded consumer prices.
//!
//! A response of the market-data endpoint is decoded elsewhere into [`RowText`]s;
//! [`get_prices`] reads their start times, picks each row's price for a bidding
//! area, resolves the hour in the Stockholm time zone and applies the tariff.

mod money;
mod pricing;
mod quote;
mod retrieval;
mod time;

pub use money::{div_floor, floor_div, round_half_up, Amount, AMOUNT_LIMIT, UNITS_PER_SEK};
pub use pricing::{
    fee_at, is_peak, lemma_fee_tiers, lemma_price_determined, lemma_sum_of_parts,
    lemma_tax_constant, lemma_vat_quarter_of_energy, tax_amount, vat_of, TotalPrice,
    OFF_PEAK_FEE_MINOR, PEAK_FEE_MINOR, TAX_MINOR,
};
pub use quote::{
    energy_of_quote, energy_units, is_negative, is_separator, magnitude, normalize, pow10,
    quote_decimal, signed, space_in_place, spaces_in_place, spec_energy_of_quote,
    split_amount_text, split_mantissa, whole_amount_text,
};
pub use retrieval::{
    all_start_times_read, area_column, column_from, find_column, first_unread, get_prices,
    hour_sources, lemma_all_rows_priced, lemma_extra_row_dropped, lemma_hours_come_from_rows,
    lemma_priced_row_yields_one_hour, lemma_prices_reproducible, lemma_row_without_area_dropped,
    lemma_unresolved_start_dropped, price_row, priced_hours, prices_match, read_start_times,
    request_url, row_outcome, row_start, spec_request_url, spec_start_time, Column, FetchError,
    RowText, NORDPOOL_URL_HOUR,
};
pub use time::{
    canonical_date_time, chrono_year, date_time_fields, date_time_shape, day_month_year,
    days_from_civil, days_in_month, digit_char, digit_value, digits_at, four_digits,
    is_canonical_date_time, is_digit, is_leap_year, number_at, offset_of, shape_char_ok,
    stockholm_offset, two_digits, valid_date, weekday_of, CalendarDate, LocalDateTime,
    ZonedTime,
};
