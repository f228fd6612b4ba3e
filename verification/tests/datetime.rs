use makecab::datetime::{CivilTime, DateTime, FIRST_SECOND, LAST_SECOND};

fn civil(year: i32, month: u32, day: u32, hour: u32, minute: u32, second: u32) -> CivilTime {
    CivilTime { year, month, day, hour, minute, second }
}

fn words(time: CivilTime) -> (u16, u16) {
    let time = DateTime::new(time).unwrap();
    (time.encode_date(), time.encode_time())
}

#[test]
fn valid_datetime_bits() {
    assert_eq!(words(civil(2018, 1, 6, 15, 19, 42)), (0x4c26, 0x7a75));
}

#[test]
fn date_word_is_years_since_1980_month_and_day() {
    assert_eq!(words(civil(1980, 1, 1, 0, 0, 0)), (0x0021, 0x0000));
    assert_eq!(words(civil(2107, 12, 31, 23, 59, 59)), (0xff9f, 0xbf7d));
    assert_eq!(words(civil(2012, 3, 4, 1, 2, 6)).0, ((2012 - 1980) << 9) | (3 << 5) | 4);
}

#[test]
fn time_word_halves_the_second_and_rounds_down() {
    assert_eq!(words(civil(2012, 3, 4, 1, 2, 6)).1, 0x0843);
    assert_eq!(words(civil(2012, 3, 4, 1, 2, 7)).1, 0x0843);
    assert_eq!(words(civil(2012, 3, 4, 5, 6, 59)).1, (5 << 11) | (6 << 5) | 29);
}

#[test]
fn fields_can_be_read_back_from_the_words() {
    for time in [civil(1999, 12, 31, 23, 59, 58), civil(2000, 2, 29, 12, 0, 0), civil(2107, 1, 1, 0, 0, 1)] {
        let (date, clock) = words(time);
        assert_eq!((date >> 9) as i32 + 1980, time.year);
        assert_eq!(((date >> 5) & 0xf) as u32, time.month);
        assert_eq!((date & 0x1f) as u32, time.day);
        assert_eq!((clock >> 11) as u32, time.hour);
        assert_eq!(((clock >> 5) & 0x3f) as u32, time.minute);
        assert_eq!((clock & 0x1f) as u32, time.second / 2);
    }
}

#[test]
fn times_that_a_cabinet_cannot_hold_are_refused() {
    for time in [
        civil(1979, 12, 31, 23, 59, 59),
        civil(2108, 1, 1, 0, 0, 0),
        civil(2000, 0, 1, 0, 0, 0),
        civil(2000, 13, 1, 0, 0, 0),
        civil(2000, 1, 0, 0, 0, 0),
        civil(2000, 1, 32, 0, 0, 0),
        civil(2000, 1, 1, 24, 0, 0),
        civil(2000, 1, 1, 0, 60, 0),
        civil(2000, 1, 1, 0, 0, 60),
        civil(-5, 1, 1, 0, 0, 0),
    ] {
        assert_eq!(DateTime::new(time), None);
    }
}

#[test]
fn new_keeps_the_fields() {
    let time = civil(2024, 2, 29, 13, 37, 11);
    assert_eq!(DateTime::new(time).unwrap().civil(), time);
}

#[test]
fn datetime_outside_range() {
    assert_eq!(DateTime::clamped(civil(1977, 2, 3, 4, 5, 6)), DateTime::earliest());
    assert_eq!(DateTime::clamped(civil(2110, 2, 3, 4, 5, 6)), DateTime::latest());
    assert_eq!(DateTime::earliest().civil(), civil(1980, 1, 1, 0, 0, 0));
    assert_eq!(DateTime::latest().civil(), civil(2107, 12, 31, 23, 59, 59));
    assert_eq!((DateTime::earliest().encode_date(), DateTime::earliest().encode_time()), (0x21, 0));
    assert_eq!(
        (DateTime::latest().encode_date(), DateTime::latest().encode_time()),
        (0xff9f, 0xbf7d)
    );
}

#[test]
fn clamping_keeps_what_fits_and_drops_what_is_out_of_range() {
    let time = civil(2001, 9, 9, 1, 46, 40);
    assert_eq!(DateTime::clamped(time).civil(), time);
    assert_eq!(DateTime::clamped(civil(2001, 13, 9, 1, 46, 40)), DateTime::earliest());
    assert_eq!(DateTime::clamped(civil(2200, 13, 9, 1, 46, 40)), DateTime::earliest());
}

#[test]
fn timestamps_outside_the_range_are_clamped() {
    for seconds in [i64::MIN, -1, 0, FIRST_SECOND - 1] {
        assert_eq!(DateTime::from_timestamp(seconds, 0), DateTime::earliest());
    }
    for seconds in [LAST_SECOND + 1, 1 << 40, i64::MAX] {
        assert_eq!(DateTime::from_timestamp(seconds, 0), DateTime::latest());
    }
    assert_eq!(DateTime::from_timestamp(i64::MAX, i32::MAX), DateTime::latest());
    assert_eq!(DateTime::from_timestamp(i64::MIN, i32::MIN), DateTime::earliest());
}

#[test]
fn offset_decides_at_the_edges() {
    assert_eq!(DateTime::from_timestamp(FIRST_SECOND - 1, 0), DateTime::earliest());
    assert_eq!(
        DateTime::from_timestamp(FIRST_SECOND - 1, 3600).civil(),
        civil(1980, 1, 1, 0, 59, 59)
    );
    assert_eq!(DateTime::from_timestamp(FIRST_SECOND, 0).civil(), civil(1980, 1, 1, 0, 0, 0));
    assert_eq!(DateTime::from_timestamp(FIRST_SECOND, -1), DateTime::earliest());
    assert_eq!(DateTime::from_timestamp(LAST_SECOND, 0).civil(), civil(2107, 12, 31, 23, 59, 59));
    assert_eq!(DateTime::from_timestamp(LAST_SECOND, 1), DateTime::latest());
    assert_eq!(
        DateTime::from_timestamp(LAST_SECOND + 3600, -3600).civil(),
        civil(2107, 12, 31, 23, 59, 59)
    );
}

#[test]
fn timestamp_is_read_by_the_civil_calendar() {
    // 2018-01-06 15:19:42 UTC.
    assert_eq!(DateTime::from_timestamp(1_515_251_982, 0).civil(), civil(2018, 1, 6, 15, 19, 42));
    assert_eq!(DateTime::from_timestamp(1_515_251_982, 3600).civil(), civil(2018, 1, 6, 16, 19, 42));
    assert_eq!(
        DateTime::from_timestamp(1_515_251_982, -16 * 3600).civil(),
        civil(2018, 1, 5, 23, 19, 42)
    );
    // Leap days: 2000 has one, 2100 has none.
    assert_eq!(DateTime::from_timestamp(951_782_400, 0).civil(), civil(2000, 2, 29, 0, 0, 0));
    assert_eq!(DateTime::from_timestamp(4_107_542_399, 0).civil(), civil(2100, 2, 28, 23, 59, 59));
    assert_eq!(DateTime::from_timestamp(4_107_542_400, 0).civil(), civil(2100, 3, 1, 0, 0, 0));
}

#[test]
fn seconds_of_a_time_are_counted_by_the_civil_calendar() {
    assert_eq!(DateTime::earliest().to_timestamp(), 315_532_800);
    assert_eq!(DateTime::latest().to_timestamp(), 4_354_819_199);
    let time = DateTime::new(civil(2018, 1, 6, 15, 19, 42)).unwrap();
    assert_eq!(time.to_timestamp(), 1_515_251_982);
    let time = DateTime::new(civil(2000, 2, 29, 0, 0, 0)).unwrap();
    assert_eq!(time.to_timestamp(), 951_782_400);
    let time = DateTime::new(civil(2100, 3, 1, 0, 0, 0)).unwrap();
    assert_eq!(time.to_timestamp(), 4_107_542_400);
}

#[test]
fn timestamp_and_time_go_back_and_forth() {
    let mut seconds = FIRST_SECOND;
    let mut checked = 0;
    while seconds <= LAST_SECOND {
        let time = DateTime::from_timestamp(seconds, 0);
        assert_eq!(time.to_timestamp(), seconds);
        let fields = time.civil();
        assert!(1 <= fields.month && fields.month <= 12);
        assert!(1 <= fields.day && fields.day <= 31);
        seconds += 86_399 * 7 + 1_234;
        checked += 1;
    }
    assert!(checked > 6000);
    // Every day over two leap years and the century year without a leap day.
    for (from, days) in [(946_684_800i64, 366 * 2), (4_102_444_800, 366)] {
        for day in 0..days {
            for clock in [0, 43_200, 86_399] {
                let seconds = from + day * 86_400 + clock;
                assert_eq!(DateTime::from_timestamp(seconds, 0).to_timestamp(), seconds);
            }
        }
    }
}
