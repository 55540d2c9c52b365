use nordpool_prices::{
    energy_of_quote, get_prices, is_canonical_date_time, price_row, read_start_times,
    request_url, Amount, CalendarDate, Column,
    FetchError, LocalDateTime, RowText, TotalPrice, ZonedTime,
};

fn column(name: &str, value: &str) -> Column {
    Column { name: name.to_string(), value: value.to_string() }
}

fn row(start: &str, columns: Vec<Column>, is_extra_row: bool) -> RowText {
    RowText { start_time: start.to_string(), columns, is_extra_row }
}

fn day_rows(date: &str) -> Vec<RowText> {
    (0..24)
        .map(|h| {
            row(
                &format!("{}T{:02}:00:00", date, h),
                vec![column("SE1", "100,00"), column("SE3", &format!("{},25", 400 + h))],
                false,
            )
        })
        .collect()
}

fn local(y: i32, mo: u32, d: u32, h: u32) -> LocalDateTime {
    LocalDateTime { year: y, month: mo, day: d, hour: h, minute: 0, second: 0 }
}

fn price_at(y: i32, mo: u32, d: u32, h: u32, energy_units: i128) -> TotalPrice {
    let z = ZonedTime::resolve(local(y, mo, d, h)).expect("a single instant");
    TotalPrice::compute(z, Amount { units: energy_units })
}

#[test]
fn example_hour_wednesday_afternoon() {
    let rows = vec![row("2022-11-09T14:00:00", vec![column("SE3", "523.45")], false)];
    let prices = get_prices("SE3", &rows).expect("decoded");
    assert_eq!(prices.len(), 1);
    let p = &prices[0];
    assert_eq!(p.energy().units, 523_450);
    assert_eq!(p.vat().units, 130_900);
    assert_eq!(p.fee().units, 700_000);
    assert_eq!(p.tax().units, 450_000);
    assert_eq!(p.sum().units, 1_804_350);
    assert_eq!(p.start_time().local, local(2022, 11, 9, 14));
    assert_eq!(p.start_time().weekday, 2);
    assert_eq!(p.start_time().utc_offset_seconds, 3600);
}

#[test]
fn comma_and_point_quotes_agree() {
    assert_eq!(energy_of_quote("523,45"), Some(Amount { units: 523_450 }));
    assert_eq!(energy_of_quote("523.45"), Some(Amount { units: 523_450 }));
}

#[test]
fn quote_texts() {
    assert_eq!(energy_of_quote("1 234,56"), Some(Amount { units: 1_234_560 }));
    assert_eq!(energy_of_quote("-12,5"), Some(Amount { units: -12_500 }));
    assert_eq!(energy_of_quote("5"), Some(Amount { units: 5_000 }));
    assert_eq!(energy_of_quote("12,3456"), Some(Amount { units: 12_346 }));
    assert_eq!(energy_of_quote("12,3454"), Some(Amount { units: 12_345 }));
    assert_eq!(energy_of_quote("0,0005"), Some(Amount { units: 1 }));
    assert_eq!(energy_of_quote("abc"), None);
    assert_eq!(energy_of_quote(""), None);
    assert_eq!(energy_of_quote("-"), None);
    assert_eq!(energy_of_quote(",5"), None);
    assert_eq!(energy_of_quote("5,"), None);
    assert_eq!(energy_of_quote("1,2,3"), None);
    assert_eq!(energy_of_quote("1,2345678901"), None);
    assert_eq!(energy_of_quote("123456789012345678901"), None);
}

#[test]
fn full_day_gives_every_hour_in_order() {
    let prices = get_prices("SE3", &day_rows("2022-11-09")).expect("decoded");
    assert_eq!(prices.len(), 24);
    for (h, p) in prices.iter().enumerate() {
        assert_eq!(p.start_time().local, local(2022, 11, 9, h as u32));
        assert_eq!(p.energy().units, (400 + h as i128) * 1000 + 250);
    }
}

#[test]
fn spring_forward_hour_is_absent() {
    let prices = get_prices("SE3", &day_rows("2023-03-26")).expect("decoded");
    assert_eq!(prices.len(), 23);
    assert!(prices.iter().all(|p| p.start_time().local.hour != 2));
    assert_eq!(prices[1].start_time().utc_offset_seconds, 3600);
    assert_eq!(prices[2].start_time().local.hour, 3);
    assert_eq!(prices[2].start_time().utc_offset_seconds, 7200);
}

#[test]
fn fall_back_repeated_hour_is_absent() {
    let prices = get_prices("SE3", &day_rows("2022-10-30")).expect("decoded");
    assert_eq!(prices.len(), 23);
    assert!(prices.iter().all(|p| p.start_time().local.hour != 2));
}

#[test]
fn extra_rows_never_priced() {
    let mut rows = day_rows("2022-11-09");
    rows.push(row("2022-11-09T00:00:00", vec![column("SE3", "999,99")], true));
    rows[5].is_extra_row = true;
    let prices = get_prices("SE3", &rows).expect("decoded");
    assert_eq!(prices.len(), 23);
    assert!(prices.iter().all(|p| p.start_time().local.hour != 5));
}

#[test]
fn rows_without_area_or_amount_are_dropped() {
    let mut rows = day_rows("2022-11-09");
    rows[3].columns = vec![column("SE1", "1,00")];
    rows[4].columns = vec![column("SE3", "-")];
    let prices = get_prices("SE3", &rows).expect("decoded");
    assert_eq!(prices.len(), 22);
    assert!(get_prices("SE9", &rows).expect("decoded").is_empty());
}

#[test]
fn first_matching_column_is_used() {
    let r = row("2022-11-09T14:00:00", vec![column("SE3", "1,00"), column("SE3", "2,00")], false);
    let p = price_row(&r, local(2022, 11, 9, 14), &"SE3".to_string()).expect("priced");
    assert_eq!(p.energy().units, 1_000);
    assert!(price_row(&r, local(2022, 11, 9, 14), &"se3".to_string()).is_none());
}

#[test]
fn bad_start_time_is_a_decode_error() {
    let mut rows = day_rows("2022-11-09");
    rows[7].start_time = "2022-11-09 07:00".to_string();
    assert_eq!(
        get_prices("SE3", &rows).map(|p| p.len()),
        Err(FetchError::Decode("2022-11-09 07:00".to_string()))
    );
}

#[test]
fn fee_tiers() {
    assert_eq!(price_at(2022, 11, 9, 6, 0).fee().units, 700_000);
    assert_eq!(price_at(2022, 11, 9, 21, 0).fee().units, 700_000);
    assert_eq!(price_at(2022, 11, 9, 5, 0).fee().units, 120_000);
    assert_eq!(price_at(2022, 11, 9, 22, 0).fee().units, 120_000);
    assert_eq!(price_at(2022, 11, 12, 12, 0).fee().units, 120_000);
    assert_eq!(price_at(2022, 11, 13, 12, 0).fee().units, 120_000);
    assert_eq!(price_at(2022, 11, 14, 12, 0).fee().units, 700_000);
}

#[test]
fn tax_and_vat() {
    let p = price_at(2022, 11, 9, 3, 523_450);
    assert_eq!(p.tax().units, 450_000);
    assert_eq!(p.vat().units, 130_900);
    assert_eq!(p.sum().units, 523_450 + 130_900 + 120_000 + 450_000);
    assert_eq!(price_at(2022, 11, 9, 3, -523_450).vat().units, -130_900);
    assert_eq!(price_at(2022, 11, 9, 3, 200).vat().units, 100);
    assert_eq!(price_at(2022, 11, 9, 3, 199).vat().units, 0);
    assert_eq!(price_at(2022, 11, 9, 3, 0).sum().units, 570_000);
}

#[test]
fn weekday_and_offset_of_resolved_times() {
    let z = ZonedTime::resolve(local(2022, 7, 3, 12)).expect("a single instant");
    assert_eq!(z.weekday, 6);
    assert_eq!(z.utc_offset_seconds, 7200);
    assert_eq!(z.hour(), 12);
    assert!(ZonedTime::resolve(local(2023, 3, 26, 2)).is_none());
}

#[test]
fn url_of_end_date() {
    let url = request_url(&CalendarDate { year: 2022, month: 11, day: 9 });
    assert_eq!(
        url,
        "https://www.nordpoolgroup.com/api/marketdata/page/10?currency=SEK&endDate=09-11-2022"
    );
}

#[test]
fn minor_units() {
    assert_eq!(Amount::from_minor(70).units, 700_000);
}

#[test]
fn start_times_must_match_the_format_exactly() {
    for bad in [
        "2022-11-09T14:00:00Z",
        "2022-11-09T14:00:00+01:00",
        "2022-11-09 14:00:00",
        "2022-11-09",
        "2022-02-30T00:00:00",
        "2022-11-9T14:00:00",
        " 2022-11-09T14:00:00",
        "2022-11-09T24:00:00",
    ] {
        let mut rows = day_rows("2022-11-09");
        rows[10].start_time = bad.to_string();
        assert_eq!(
            get_prices("SE3", &rows).map(|p| p.len()),
            Err(FetchError::Decode(bad.to_string()))
        );
    }
}

#[test]
fn start_times_read_as_written() {
    let rows = vec![
        row("2022-11-09T14:00:00", vec![], false),
        row("2024-02-29T23:59:59", vec![], true),
    ];
    let times = read_start_times(&rows).expect("read");
    assert_eq!(times, vec![
        local(2022, 11, 9, 14),
        LocalDateTime { year: 2024, month: 2, day: 29, hour: 23, minute: 59, second: 59 },
    ]);
    assert!(is_canonical_date_time("2022-11-09T14:00:00"));
    assert!(!is_canonical_date_time("2022-11-9T14:00:00"));
}

#[test]
fn spaces_only_between_digit_groups() {
    assert_eq!(energy_of_quote("1 234 567,5"), Some(Amount { units: 1_234_567_500 }));
    assert_eq!(energy_of_quote("-1 234"), Some(Amount { units: -1_234_000 }));
    assert_eq!(energy_of_quote("12 34,5"), None);
    assert_eq!(energy_of_quote("- 5"), None);
    assert_eq!(energy_of_quote("1  234"), None);
    assert_eq!(energy_of_quote("1,234 567"), None);
    assert_eq!(energy_of_quote("1 234 "), None);
    assert_eq!(energy_of_quote(" 1"), None);
}
