use chrono::SubsecRound;
use kiss_rss::text::{compare_text, same_text, Order};
use kiss_rss::time::{days_between, read_feed_date, seconds_between, serialize_dt, show_utc, Timestamp};

fn at(secs: i64) -> Timestamp {
    Timestamp { secs, nanos: 0 }
}

#[test]
fn text_order_is_that_of_strings() {
    assert_eq!(compare_text("apple", "banana"), Order::Less);
    assert_eq!(compare_text("banana", "apple"), Order::Greater);
    assert_eq!(compare_text("same", "same"), Order::Equal);
    assert_eq!(compare_text("", "a"), Order::Less);
    assert_eq!(compare_text("ab", "a"), Order::Greater);
    assert_eq!(compare_text("Zebra", "apple"), Order::Less);
    assert_eq!(compare_text("\u{e9}", "z"), Order::Greater);
}

#[test]
fn text_order_agrees_with_std() {
    let words = ["", "a", "ab", "b", "B", "\u{2713}", "\u{1F589}", "abc", "abd"];
    for a in words.iter() {
        for b in words.iter() {
            let expected = match a.cmp(b) {
                std::cmp::Ordering::Less => Order::Less,
                std::cmp::Ordering::Equal => Order::Equal,
                std::cmp::Ordering::Greater => Order::Greater,
            };
            assert_eq!(compare_text(a, b), expected);
        }
    }
}

#[test]
fn same_text_compares_contents() {
    assert!(same_text("https://example.com/1", "https://example.com/1"));
    assert!(!same_text("https://example.com/1", "https://example.com/2"));
    assert!(!same_text("", "x"));
    assert!(same_text("", ""));
}

#[test]
fn epoch_and_order_of_instants() {
    let epoch = Timestamp::epoch();
    assert_eq!(epoch, Timestamp { secs: 0, nanos: 0 });
    assert!(epoch.is_before(&at(1)));
    assert!(!at(1).is_before(&epoch));
    assert!(Timestamp { secs: 5, nanos: 1 }.is_before(&Timestamp { secs: 5, nanos: 2 }));
    assert!(!at(5).is_before(&at(5)));
}

#[test]
fn rounding_to_the_second() {
    assert_eq!(Timestamp { secs: 10, nanos: 499_999_999 }.round_to_second(), at(10));
    assert_eq!(Timestamp { secs: 10, nanos: 500_000_000 }.round_to_second(), at(11));
    assert_eq!(Timestamp { secs: -3, nanos: 700_000_000 }.round_to_second(), at(-2));
    assert_eq!(at(7).round_to_second(), at(7));
}

#[test]
fn whole_seconds_round_toward_zero() {
    assert_eq!(seconds_between(at(100), at(40)), 60);
    assert_eq!(seconds_between(at(40), at(100)), -60);
    assert_eq!(seconds_between(Timestamp { secs: 10, nanos: 900_000_000 }, at(9)), 1);
    assert_eq!(seconds_between(at(9), Timestamp { secs: 10, nanos: 900_000_000 }), -1);
    assert_eq!(seconds_between(Timestamp { secs: 10, nanos: 100 }, Timestamp { secs: 10, nanos: 200 }), 0);
}

#[test]
fn whole_days_round_toward_zero() {
    let day: i64 = 86_400;
    assert_eq!(days_between(at(3 * day - 1), at(0)), 2);
    assert_eq!(days_between(at(3 * day), at(0)), 3);
    assert_eq!(days_between(at(0), at(3 * day - 1)), -2);
    assert_eq!(days_between(at(0), at(0)), 0);
}

#[test]
fn chrono_agrees_on_differences() {
    let pairs = [
        (Timestamp { secs: 1_680_177_600, nanos: 250 }, Timestamp { secs: 1_679_997_600, nanos: 999_999_999 }),
        (Timestamp { secs: -5, nanos: 3 }, Timestamp { secs: 7, nanos: 999 }),
        (at(1_709_251_199), at(1_679_299_200)),
    ];
    for (later, earlier) in pairs.iter() {
        let a = chrono::DateTime::from_timestamp(later.secs, later.nanos).unwrap();
        let b = chrono::DateTime::from_timestamp(earlier.secs, earlier.nanos).unwrap();
        assert_eq!(seconds_between(*later, *earlier), (a - b).num_seconds() as i128);
        assert_eq!(days_between(*later, *earlier), (a - b).num_days());
    }
}

#[test]
fn chrono_agrees_on_leap_seconds() {
    let leap = Timestamp { secs: 86_399, nanos: 1_500_000_000 };
    let pairs = [
        (at(86_401), leap),
        (leap, at(86_398)),
        (leap, at(86_400)),
        (at(86_398), leap),
        (Timestamp { secs: 2 * 86_400 + 86_399, nanos: 1_000_000_000 }, Timestamp { secs: 86_399, nanos: 1_999_999_999 }),
    ];
    for (later, earlier) in pairs.iter() {
        let a = chrono::DateTime::from_timestamp(later.secs, later.nanos).unwrap();
        let b = chrono::DateTime::from_timestamp(earlier.secs, earlier.nanos).unwrap();
        assert_eq!(seconds_between(*later, *earlier), (a - b).num_seconds() as i128);
        assert_eq!(days_between(*later, *earlier), (a - b).num_days());
    }
}

#[test]
fn chrono_agrees_on_rounding() {
    let samples = [
        Timestamp { secs: 10, nanos: 499_999_999 },
        Timestamp { secs: 10, nanos: 500_000_000 },
        Timestamp { secs: -3, nanos: 700_000_000 },
        Timestamp { secs: 1_680_177_600, nanos: 600_000_000 },
        at(42),
    ];
    for t in samples.iter() {
        let d = chrono::DateTime::from_timestamp(t.secs, t.nanos).unwrap().round_subsecs(0);
        let r = t.round_to_second();
        assert_eq!((r.secs, r.nanos), (d.timestamp(), d.timestamp_subsec_nanos()));
    }
}

#[test]
fn dates_of_feeds() {
    assert_eq!(read_feed_date("Tue, 28 Mar 2023 10:00:00 +0000", true), at(1_679_997_600));
    assert_eq!(read_feed_date("Tue, 28 Mar 2023 12:00:00 +0200", true), at(1_679_997_600));
    assert_eq!(read_feed_date("2023-03-28T10:00:00Z", false), at(1_679_997_600));
    assert_eq!(read_feed_date("2023-03-28T10:00:00.5+00:00", false), Timestamp { secs: 1_679_997_600, nanos: 500_000_000 });
    assert_eq!(read_feed_date("not a date", true), Timestamp::epoch());
    assert_eq!(read_feed_date("2023-03-28T10:00:00Z", true), Timestamp::epoch());
    assert_eq!(read_feed_date("", false), Timestamp::epoch());
}

#[test]
fn instants_as_text() {
    assert_eq!(show_utc(at(1_679_997_600)), "2023-03-28 10:00:00 UTC");
    assert_eq!(show_utc(Timestamp::epoch()), "1970-01-01 00:00:00 UTC");
    assert_eq!(serialize_dt(&at(1_709_251_199)), "2024-02-29 23:59:59");
    assert_eq!(show_utc(at(i64::MAX)), "");
    assert_eq!(serialize_dt(&at(i64::MIN)), "");
}
