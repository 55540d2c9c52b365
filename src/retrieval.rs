use crate::money::Amount;
use crate::pricing::{lemma_price_determined, TotalPrice};
use crate::quote::{energy_of_quote, spec_energy_of_quote};
use crate::time::{
    canonical_date_time, date_time_fields, day_month_year, format_day_month_year,
    is_canonical_date_time, parse_naive_date_time, CalendarDate,
    LocalDateTime, ZonedTime,
};
use vstd::prelude::*;
use vstd::string::StringExecFns;

verus! {

/// The market-data endpoint of hourly day-ahead prices.
pub const NORDPOOL_URL_HOUR: &'static str = "https://www.nordpoolgroup.com/api/marketdata/page/10";

/// One named value of a row: a bidding area's price, or an aggregate.
#[derive(Clone, Debug)]
pub struct Column {
    pub name: String,
    pub value: String,
}

/// A row of the response body as decoded, its start time still text.
#[derive(Clone, Debug)]
pub struct RowText {
    pub start_time: String,
    pub columns: Vec<Column>,
    pub is_extra_row: bool,
}

/// Why a retrieval failed as a whole.
#[derive(Clone, Debug, PartialEq, Eq)]
pub enum FetchError {
    /// The request could not be made or was answered with a failure status.
    Transport(String),
    /// The body is not the expected JSON document, or a start time is not
    /// `YYYY-MM-DDTHH:MM:SS`; the text says which.
    Decode(String),
}

/// The start time that a text gives: the fields it writes where it is exactly
/// `YYYY-MM-DDTHH:MM:SS` of a valid date and time, else `None`.
pub open spec fn spec_start_time(s: Seq<char>) -> Option<LocalDateTime> {
    if canonical_date_time(s) {
        Some(date_time_fields(s))
    } else {
        None
    }
}

/// Whether every row's start time is exactly `YYYY-MM-DDTHH:MM:SS` of a valid
/// date and time.
pub open spec fn all_start_times_read(rows: Seq<RowText>) -> bool {
    forall|i: int| 0 <= i < rows.len() ==> canonical_date_time(#[trigger] rows[i].start_time@)
}

/// Whether every start time before row `i` is exactly `YYYY-MM-DDTHH:MM:SS` of a
/// valid date and time.
pub open spec fn first_unread(rows: Seq<RowText>, i: int) -> bool {
    forall|j: int| 0 <= j < i ==> canonical_date_time(#[trigger] rows[j].start_time@)
}

/// Reads the start time of every row, in order. Each must be exactly
/// `YYYY-MM-DDTHH:MM:SS`, zero-padded, of a valid date and time, and is read as
/// written; the first that is not fails the whole with [`FetchError::Decode`],
/// carrying its text.
pub fn read_start_times(rows: &Vec<RowText>) -> (r: Result<Vec<LocalDateTime>, FetchError>)
    ensures
        match r {
            Ok(times) => {
                &&& all_start_times_read(rows@)
                &&& times@.len() == rows@.len()
                &&& forall|i: int|
                    0 <= i < rows@.len() ==> #[trigger] times@[i] == date_time_fields(
                        rows@[i].start_time@,
                    ) && times@[i].wf()
            },
            Err(e) => exists|i: int|
                0 <= i < rows@.len() && spec_start_time(rows@[i].start_time@) is None && e
                    == FetchError::Decode(rows@[i].start_time) && #[trigger] first_unread(
                    rows@,
                    i,
                ),
        },
{
    let mut times: Vec<LocalDateTime> = Vec::new();
    let mut i: usize = 0;
    while i < rows.len()
        invariant
            i <= rows@.len(),
            times@.len() == i,
            forall|j: int|
                0 <= j < i ==> Some(#[trigger] times@[j]) == spec_start_time(rows@[j].start_time@)
                    && times@[j].wf(),
        decreases rows@.len() - i,
    {
        let text = rows[i].start_time.as_str();
        let parsed = if is_canonical_date_time(text) {
            parse_naive_date_time(text)
        } else {
            None
        };
        match parsed {
            Some(t) => {
                times.push(t);
            },
            None => {
                assert forall|j: int| 0 <= j < i implies canonical_date_time(
                    #[trigger] rows@[j].start_time@,
                ) by {
                    assert(Some(times@[j]) == spec_start_time(rows@[j].start_time@));
                }
                assert(first_unread(rows@, i as int));
                return Err(FetchError::Decode(rows[i].start_time.clone()));
            },
        }
        i = i + 1;
    }
    assert forall|j: int| 0 <= j < rows@.len() implies canonical_date_time(
        #[trigger] rows@[j].start_time@,
    ) by {
        assert(Some(times@[j]) == spec_start_time(rows@[j].start_time@));
    }
    assert forall|j: int| 0 <= j < rows@.len() implies #[trigger] times@[j] == date_time_fields(
        rows@[j].start_time@,
    ) by {
        assert(Some(times@[j]) == spec_start_time(rows@[j].start_time@));
    }
    Ok(times)
}

/// The index of the first column named `area` from index `i` on.
pub open spec fn column_from(cols: Seq<Column>, area: Seq<char>, i: int) -> Option<int>
    decreases cols.len() - i,
{
    if i < 0 || i >= cols.len() {
        None
    } else if cols[i].name@ == area {
        Some(i)
    } else {
        column_from(cols, area, i + 1)
    }
}

/// The index of the first column named `area`.
pub open spec fn area_column(cols: Seq<Column>, area: Seq<char>) -> Option<int> {
    column_from(cols, area, 0)
}

/// What a row priced at local start time `t` gives: the resolved start and the
/// energy price, or `None` where the row is dropped.
pub open spec fn row_outcome(row: RowText, t: LocalDateTime, area: Seq<char>) -> Option<
    (ZonedTime, Amount),
> {
    if row.is_extra_row {
        None
    } else {
        match area_column(row.columns@, area) {
            None => None,
            Some(k) => match spec_energy_of_quote(row.columns@[k].value@) {
                None => None,
                Some(e) => match ZonedTime::spec_resolve(t) {
                    None => None,
                    Some(z) => Some((z, e)),
                },
            },
        }
    }
}

/// The start time read from a row, which the pricing uses where it is read.
pub open spec fn row_start(row: RowText) -> LocalDateTime {
    date_time_fields(row.start_time@)
}

/// The priced hours of the first `n` rows, in row order.
pub open spec fn priced_hours(rows: Seq<RowText>, area: Seq<char>, n: nat) -> Seq<
    (ZonedTime, Amount),
>
    decreases n,
{
    if n == 0 || n > rows.len() {
        Seq::empty()
    } else {
        let prev = priced_hours(rows, area, (n - 1) as nat);
        match row_outcome(rows[n - 1], row_start(rows[n - 1]), area) {
            Some(o) => prev.push(o),
            None => prev,
        }
    }
}

/// Whether `prices` are exactly the hours of `hours`, each priced by the tariff.
pub open spec fn prices_match(prices: Seq<TotalPrice>, hours: Seq<(ZonedTime, Amount)>) -> bool {
    &&& prices.len() == hours.len()
    &&& forall|i: int|
        0 <= i < prices.len() ==> (#[trigger] prices[i]).priced(hours[i].0, hours[i].1)
            && prices[i].wf()
}

/// The index of the first column named `area`, if any.
pub fn find_column(columns: &Vec<Column>, area: &String) -> (r: Option<usize>)
    ensures
        match r {
            Some(k) => area_column(columns@, area@) == Some(k as int) && k < columns@.len(),
            None => area_column(columns@, area@) is None,
        },
{
    let mut i: usize = 0;
    while i < columns.len()
        invariant
            i <= columns@.len(),
            area_column(columns@, area@) == column_from(columns@, area@, i as int),
        decreases columns@.len() - i,
    {
        if columns[i].name == *area {
            return Some(i);
        }
        i = i + 1;
    }
    None
}

/// Prices one row whose start time reads as `t`; `None` where the row is an
/// extra row, has no column for `area`, has a value that writes no amount, or
/// starts at a wall-clock time that is skipped or repeated in Stockholm.
pub fn price_row(row: &RowText, t: LocalDateTime, area: &String) -> (r: Option<TotalPrice>)
    requires
        t.wf(),
    ensures
        match (r, row_outcome(*row, t, area@)) {
            (Some(p), Some((z, e))) => p.priced(z, e) && p.wf(),
            (None, None) => true,
            _ => false,
        },
{
    if row.is_extra_row {
        return None;
    }
    let k = match find_column(&row.columns, area) {
        Some(k) => k,
        None => return None,
    };
    let energy = match energy_of_quote(row.columns[k].value.as_str()) {
        Some(e) => e,
        None => return None,
    };
    match ZonedTime::resolve(t) {
        Some(z) => Some(TotalPrice::compute(z, energy)),
        None => None,
    }
}

/// Prices the decoded rows of a response for the bidding area `area`, keeping
/// row order. Fails with [`FetchError::Decode`] where a start time is not read;
/// otherwise every row is priced or dropped as [`price_row`] says.
pub fn get_prices(area: &str, rows: &Vec<RowText>) -> (r: Result<Vec<TotalPrice>, FetchError>)
    ensures
        r is Ok <==> all_start_times_read(rows@),
        r matches Ok(prices) ==> prices_match(prices@, priced_hours(rows@, area@, rows@.len())),
        r matches Err(e) ==> exists|i: int|
            0 <= i < rows@.len() && spec_start_time(rows@[i].start_time@) is None && e
                == FetchError::Decode(rows@[i].start_time) && #[trigger] first_unread(rows@, i),
{
    let times = match read_start_times(rows) {
        Ok(times) => times,
        Err(e) => {
            assert(!all_start_times_read(rows@));
            return Err(e);
        },
    };
    let area_name = area.to_owned();
    let mut prices: Vec<TotalPrice> = Vec::new();
    let mut i: usize = 0;
    while i < rows.len()
        invariant
            i <= rows@.len() == times@.len(),
            area_name@ == area@,
            forall|j: int|
                0 <= j < rows@.len() ==> Some(#[trigger] times@[j]) == spec_start_time(
                    rows@[j].start_time@,
                ) && times@[j].wf(),
            prices_match(prices@, priced_hours(rows@, area@, i as nat)),
        decreases rows@.len() - i,
    {
        let ghost before = prices@;
        assert(row_start(rows@[i as int]) == times@[i as int]);
        match price_row(&rows[i], times[i], &area_name) {
            Some(p) => {
                prices.push(p);
                assert(prices@ == before.push(p));
            },
            None => {},
        }
        i = i + 1;
    }
    Ok(prices)
}

/// The request URL for the prices of the day `end_date`.
pub open spec fn spec_request_url(end_date: CalendarDate) -> Seq<char> {
    NORDPOOL_URL_HOUR@ + "?currency=SEK&endDate="@ + day_month_year(end_date)
}

/// The request URL of the hourly prices in SEK for the day `end_date`, written
/// `DD-MM-YYYY` in the query.
pub fn request_url(end_date: &CalendarDate) -> (r: String)
    ensures
        end_date.wf() && 0 <= end_date.year <= 9999 ==> r@ == spec_request_url(*end_date),
{
    let date = format_day_month_year(end_date);
    let mut url = String::from_str(NORDPOOL_URL_HOUR);
    url.append("?currency=SEK&endDate=");
    url.append(date.as_str());
    url
}

/// A row that can be priced adds exactly one hour, its own, after the hours of
/// the rows before it.
pub proof fn lemma_priced_row_yields_one_hour(rows: Seq<RowText>, area: Seq<char>, i: int)
    requires
        0 <= i < rows.len(),
        row_outcome(rows[i], row_start(rows[i]), area) is Some,
    ensures
        priced_hours(rows, area, (i + 1) as nat) == priced_hours(rows, area, i as nat).push(
            row_outcome(rows[i], row_start(rows[i]), area)->0,
        ),
{
}

/// An extra row adds no hour, whatever it holds.
pub proof fn lemma_extra_row_dropped(rows: Seq<RowText>, area: Seq<char>, i: int)
    requires
        0 <= i < rows.len(),
        rows[i].is_extra_row,
    ensures
        priced_hours(rows, area, (i + 1) as nat) == priced_hours(rows, area, i as nat),
{
}

/// A row without a column for the area adds no hour.
pub proof fn lemma_row_without_area_dropped(rows: Seq<RowText>, area: Seq<char>, i: int)
    requires
        0 <= i < rows.len(),
        area_column(rows[i].columns@, area) is None,
    ensures
        priced_hours(rows, area, (i + 1) as nat) == priced_hours(rows, area, i as nat),
{
}

/// A row whose start is skipped or repeated on the Stockholm wall clock adds no
/// hour.
pub proof fn lemma_unresolved_start_dropped(rows: Seq<RowText>, area: Seq<char>, i: int)
    requires
        0 <= i < rows.len(),
        ZonedTime::spec_resolve(row_start(rows[i])) is None,
    ensures
        priced_hours(rows, area, (i + 1) as nat) == priced_hours(rows, area, i as nat),
{
}

/// Whether `src` gives, for each of the first `n` rows' priced hours, the index of
/// the row it comes from: a row that is not an extra row and has a column for the
/// area, the indices rising.
pub open spec fn hour_sources(rows: Seq<RowText>, area: Seq<char>, n: nat, src: Seq<int>) -> bool {
    &&& src.len() == priced_hours(rows, area, n).len()
    &&& forall|j: int|
        0 <= j < src.len() ==> {
            &&& 0 <= #[trigger] src[j] < n
            &&& !rows[src[j]].is_extra_row
            &&& area_column(rows[src[j]].columns@, area) is Some
            &&& row_outcome(rows[src[j]], row_start(rows[src[j]]), area) == Some(
                priced_hours(rows, area, n)[j],
            )
        }
    &&& forall|j: int, k: int| 0 <= j < k < src.len() ==> src[j] < src[k]
}

/// Every priced hour comes from a row that is not an extra row and has a column
/// for the area; the hours keep the order of their rows.
pub proof fn lemma_hours_come_from_rows(rows: Seq<RowText>, area: Seq<char>, n: nat)
    requires
        n <= rows.len(),
    ensures
        exists|src: Seq<int>| #[trigger] hour_sources(rows, area, n, src),
    decreases n,
{
    if n == 0 {
        assert(hour_sources(rows, area, n, Seq::<int>::empty()));
    } else {
        lemma_hours_come_from_rows(rows, area, (n - 1) as nat);
        let prev = priced_hours(rows, area, (n - 1) as nat);
        let src0 = choose|src: Seq<int>| #[trigger] hour_sources(rows, area, (n - 1) as nat, src);
        let i = n - 1;
        match row_outcome(rows[i], row_start(rows[i]), area) {
            Some(o) => {
                let src = src0.push(i);
                assert(priced_hours(rows, area, n) == prev.push(o));
                assert forall|j: int| 0 <= j < src.len() implies {
                    &&& 0 <= #[trigger] src[j] < n
                    &&& !rows[src[j]].is_extra_row
                    &&& area_column(rows[src[j]].columns@, area) is Some
                    &&& row_outcome(rows[src[j]], row_start(rows[src[j]]), area) == Some(
                        priced_hours(rows, area, n)[j],
                    )
                } by {
                    if j < src0.len() {
                        assert(src[j] == src0[j]);
                    }
                }
                assert forall|j: int, k: int| 0 <= j < k < src.len() implies src[j] < src[k] by {
                    if k < src0.len() {
                        assert(src[j] == src0[j] && src[k] == src0[k]);
                    } else {
                        assert(src[j] == src0[j]);
                    }
                }
                assert(hour_sources(rows, area, n, src));
            },
            None => {
                assert(priced_hours(rows, area, n) == prev);
                assert(hour_sources(rows, area, n, src0));
            },
        }
    }
}

/// Where every row can be priced, each row gives one hour, in row order.
pub proof fn lemma_all_rows_priced(rows: Seq<RowText>, area: Seq<char>, n: nat)
    requires
        n <= rows.len(),
        forall|i: int|
            0 <= i < rows.len() ==> (#[trigger] row_outcome(rows[i], row_start(rows[i]), area))
                is Some,
    ensures
        priced_hours(rows, area, n).len() == n,
        forall|i: int|
            0 <= i < n ==> (#[trigger] priced_hours(rows, area, n)[i]).0.local == row_start(
                rows[i],
            ),
    decreases n,
{
    if n > 0 {
        lemma_all_rows_priced(rows, area, (n - 1) as nat);
        let i = n - 1;
        assert(row_outcome(rows[i], row_start(rows[i]), area) is Some);
        let prev = priced_hours(rows, area, (n - 1) as nat);
        assert forall|k: int| 0 <= k < n implies (#[trigger] priced_hours(rows, area, n)[k]).0.local
            == row_start(rows[k]) by {
            if k < n - 1 {
                assert(priced_hours(rows, area, n)[k] == prev[k]);
            }
        }
    }
}

/// Pricing the same rows twice gives the same prices, part for part.
pub proof fn lemma_prices_reproducible(
    a: Seq<TotalPrice>,
    b: Seq<TotalPrice>,
    rows: Seq<RowText>,
    area: Seq<char>,
)
    requires
        prices_match(a, priced_hours(rows, area, rows.len())),
        prices_match(b, priced_hours(rows, area, rows.len())),
    ensures
        a == b,
{
    let h = priced_hours(rows, area, rows.len());
    assert forall|i: int| 0 <= i < a.len() implies a[i] == b[i] by {
        assert(a[i].priced(h[i].0, h[i].1));
        assert(b[i].priced(h[i].0, h[i].1));
        lemma_price_determined(a[i], b[i], h[i].0, h[i].1);
    }
    assert(a =~= b);
}

} // verus!
