use chia_harvester_watcher::entry::{LineFields, LogEntry};
use chia_harvester_watcher::line::split_line;
use chia_harvester_watcher::timestamp::Timestamp;

const REPORT: &str = "2021-05-01T10:00:00.123 harvester chia.harvester.harvester : INFO 512 plots were eligible for farming abcd1234... Found 3 proofs. Time: 1.0s. Total 9001 plots";

fn fields(line: &str) -> Option<(String, String, String, String, String)> {
    LineFields::split(line).map(|f| (f.stamp, f.app, f.module, f.level, f.text))
}

fn owned(a: &str, b: &str, c: &str, d: &str, e: &str) -> Option<(String, String, String, String, String)> {
    Some((a.to_string(), b.to_string(), c.to_string(), d.to_string(), e.to_string()))
}

#[test]
fn parses_a_harvester_line() {
    let entry = LogEntry::parse_str(REPORT).unwrap();
    assert_eq!(entry.date, Timestamp { millis: 1_619_863_200_123 });
    assert_eq!(entry.app, "harvester");
    assert_eq!(entry.module, "chia.harvester.harvester");
    assert_eq!(entry.level, "INFO");
    assert_eq!(
        entry.text,
        "512 plots were eligible for farming abcd1234... Found 3 proofs. Time: 1.0s. Total 9001 plots"
    );
}

#[test]
fn written_lines_are_recovered() {
    let stamps = ["2021-05-01T10:00:00.123", "1970-01-01T00:00:00.000", "1999-12-31T23:59:59.999"];
    let apps = ["harvester", "full_node", "a", "Wallet.x"];
    let modules = ["chia.harvester.harvester", "m", "chia.full_node.full_node"];
    let levels = ["INFO", "WARNING", "E"];
    let texts = ["", "x", "hello  world ", "a : B c", "Total 5 plots"];
    let gaps = [" ", "  ", "\t", "\u{a0} "];
    let mut n = 0;
    for stamp in stamps {
        for app in apps {
            for module in modules {
                for level in levels {
                    for text in texts {
                        let gap = gaps[n % gaps.len()];
                        n += 1;
                        let line = format!("{stamp}{gap}{app}{gap}{module} :{gap}{level}{gap}{text}");
                        assert_eq!(fields(&line), owned(stamp, app, module, level, text), "{line:?}");
                        let entry = LogEntry::parse_str(&line).unwrap();
                        assert_eq!(Some(entry.date), Timestamp::parse(stamp));
                        assert_eq!(entry.app, app);
                        assert_eq!(entry.module, module);
                        assert_eq!(entry.level, level);
                        assert_eq!(entry.text, text);
                    }
                }
            }
        }
    }
}

#[test]
fn lines_that_lack_a_field_give_nothing() {
    let lines = [
        "",
        " ",
        "2021-05-01T10:00:00.123",
        "2021-05-01T10:00:00.123 harvester",
        "2021-05-01T10:00:00.123 harvester chia.harvester.harvester",
        "2021-05-01T10:00:00.123 harvester chia.harvester.harvester :",
        "2021-05-01T10:00:00.123 harvester chia.harvester.harvester : INFO",
        "2021-05-01T10:00:00.123 harvester chia.harvester.harvester INFO text",
        "2021-05-01T10:00:00.123 : INFO text",
        "2021-05-01T10:00:00.123 harvester : INFO text",
        "2021-05-01T10:00:00.123 harvester : INFO hello",
        "harvester chia.harvester.harvester : INFO text",
        " 2021-05-01T10:00:00.123 harvester chia.harvester.harvester : INFO text",
        "2021-05-01T10:00:00.123 harvester chia.harvester.harvester : info text",
        "2021-05-01T10:00:00.123 harvester chia.harvester.harvester : INFOtext",
        "2021-05-01T10:00:00.123 harvester chia-harvester : INFO text",
        "2021-05-01T10:00:00.123 har vester chia.harvester : INFO text",
    ];
    for line in lines {
        assert!(LineFields::split(line).is_none(), "{line:?}");
        assert!(LogEntry::parse_str(line).is_none(), "{line:?}");
    }
}

#[test]
fn a_level_needs_white_space_behind_it_but_no_message() {
    assert_eq!(
        fields("2021-05-01T10:00:00.123 harvester m : INFO "),
        owned("2021-05-01T10:00:00.123", "harvester", "m", "INFO", "")
    );
    assert_eq!(fields("2021-05-01T10:00:00.123 harvester m : INFO"), None);
}

#[test]
fn malformed_timestamps_give_nothing() {
    let stamps = [
        "2021-13-01T10:00:00.123",
        "2021-02-30T10:00:00.123",
        "2021-05-01T24:00:00.123",
        "2021-05-01T10:60:00.123",
        "2021-05-01T10:00:00.12",
        "2021-05-01T10:00:00.1234",
        "2021-05-01T10:00",
        "2021-05-01",
        "10:00:00.123",
        "T",
        "....",
        "2021-05-01T10:00:00.123T",
        "20210501T100000",
    ];
    for stamp in stamps {
        let line = format!("{stamp} harvester chia.harvester.harvester : INFO text");
        assert_eq!(
            fields(&line),
            owned(stamp, "harvester", "chia.harvester.harvester", "INFO", "text"),
            "{line:?}"
        );
        assert_eq!(Timestamp::parse(stamp), None, "{stamp:?}");
        assert!(LogEntry::parse_str(&line).is_none(), "{line:?}");
    }
}

#[test]
fn timestamps_are_milliseconds_since_1970() {
    let cases: [(&str, i64); 6] = [
        ("1970-01-01T00:00:00.000", 0),
        ("1970-01-01T00:00:00.001", 1),
        ("1970-01-01T00:00:01.000", 1_000),
        ("1969-12-31T23:59:59.999", -1),
        ("2001-09-09T01:46:40.555", 1_000_000_000_555),
        ("2021-05-01T10:00:00.123", 1_619_863_200_123),
    ];
    for (text, millis) in cases {
        assert_eq!(Timestamp::parse(text), Some(Timestamp { millis }), "{text:?}");
    }
}

#[test]
fn timestamps_without_milliseconds_or_padding_are_read() {
    assert_eq!(Timestamp::parse("2021-05-01T10:00:00"), Some(Timestamp { millis: 1_619_863_200_000 }));
    assert_eq!(Timestamp::parse("2021-5-1T10:0:0.123"), Some(Timestamp { millis: 1_619_863_200_123 }));
}

#[test]
fn the_cutoff_is_the_first_millisecond_from_the_start() {
    assert_eq!(Timestamp::starting_at(5, 0), Timestamp { millis: 5 });
    assert_eq!(Timestamp::starting_at(5, 1), Timestamp { millis: 6 });
    assert_eq!(Timestamp::starting_at(5, 999_999), Timestamp { millis: 6 });
    assert_eq!(Timestamp::starting_at(1_005, 5_000_000), Timestamp { millis: 1_005 });
    assert_eq!(Timestamp::starting_at(1_005, 5_000_001), Timestamp { millis: 1_006 });
    assert_eq!(Timestamp::starting_at(1_999, 999_999_999), Timestamp { millis: 2_000 });
    assert_eq!(Timestamp::starting_at(-1, 999_000_001), Timestamp { millis: 0 });
    assert_eq!(Timestamp::starting_at(-1_000, 0), Timestamp { millis: -1_000 });
    assert_eq!(Timestamp::starting_at(i64::MAX, 1), Timestamp { millis: i64::MAX });
    assert_eq!(Timestamp::starting_at(i64::MIN, 1), Timestamp { millis: i64::MIN + 1 });
    let stamp = Timestamp::parse("2021-05-01T10:00:00.123").unwrap();
    assert!(stamp.is_before(&Timestamp::starting_at(stamp.millis, 123_000_001)));
    assert!(!stamp.is_before(&Timestamp::starting_at(stamp.millis, 123_000_000)));
}

#[test]
fn timestamps_are_ordered_by_time() {
    let early = Timestamp::parse("2021-05-01T10:00:00.123").unwrap();
    let late = Timestamp::parse("2021-05-01T10:00:00.124").unwrap();
    assert!(early.is_before(&late));
    assert!(!late.is_before(&early));
    assert!(!early.is_before(&early));
}

#[test]
fn white_space_of_any_kind_separates_fields() {
    assert_eq!(
        fields("1\u{3000}a\u{2003}\u{2029}b\u{85}:\u{1680}C\u{205f}\u{202f}d"),
        owned("1", "a", "b", "C", "d")
    );
    assert_eq!(fields("1\ta\rb\n:\u{b}C\u{c} d"), owned("1", "a", "b", "C", "d"));
    assert_eq!(fields("1\u{200b}a b : C d"), None);
    assert_eq!(fields("1 a b : C\u{feff}d"), None);
}

#[test]
fn white_space_must_part_the_first_three_fields() {
    assert_eq!(fields("1 a b:C d"), owned("1", "a", "b", "C", "d"));
    assert_eq!(fields("1a b:C d"), None);
    assert_eq!(fields("1 ab:C d"), None);
    assert_eq!(fields("1 abc:C d"), None);
    assert_eq!(fields("2021-05-01T10:00:00.123harvester m:INFO x"), None);
    assert_eq!(fields("2021-05-01T10:00:00.123 harvester.m:INFO x"), None);
}

#[test]
fn a_line_without_a_module_gives_nothing() {
    assert_eq!(fields("2021-05-01T10:00:00.123 harvester : INFO hello"), None);
    assert!(LogEntry::parse_str("2021-05-01T10:00:00.123 harvester : INFO hello").is_none());
    assert_eq!(fields("2021-05-01T10:00:00.123 harvester : INFO text"), None);
    assert_eq!(fields("1 ab : C d"), None);
    assert_eq!(fields("1 a : C d"), None);
}

#[test]
fn the_colon_may_touch_its_neighbours() {
    assert_eq!(fields("1 a b:C d"), owned("1", "a", "b", "C", "d"));
    assert_eq!(fields("1 a b :C d"), owned("1", "a", "b", "C", "d"));
    assert_eq!(fields("1 a b: C d"), owned("1", "a", "b", "C", "d"));
    assert_eq!(fields("1 a b  :  C d"), owned("1", "a", "b", "C", "d"));
    assert_eq!(fields("1 a b C d"), None);
    assert_eq!(fields("1 a b :: C d"), None);
}

#[test]
fn each_field_is_the_whole_run_of_its_characters() {
    assert_eq!(fields("T. ab c:X  y z"), owned("T.", "ab", "c", "X", "y z"));
    assert_eq!(fields("12T.T a b : INFO x"), owned("12T.T", "a", "b", "INFO", "x"));
    assert_eq!(fields("12T.T : INFO x"), None);
    assert_eq!(fields("1TT:T x"), None);
    assert_eq!(fields("2021-05-01T10:00:00.123.x : INFO y"), None);
    assert_eq!(fields("1.T.T.T : A b"), None);
    assert_eq!(fields("1TT b : A c"), None);
    assert_eq!(fields("TT : A c"), None);
    assert_eq!(fields("TTT : A c"), None);
    assert_eq!(fields("T T T : A c"), owned("T", "T", "T", "A", "c"));
    assert_eq!(fields(". . . : A c"), owned(".", ".", ".", "A", "c"));
    assert_eq!(fields("1 a b1 : A c"), None);
    assert_eq!(fields("1 a b : Ab c"), None);
}

#[test]
fn the_message_runs_to_the_end_of_the_line() {
    assert_eq!(fields("1 a b : C  d  e  "), owned("1", "a", "b", "C", "d  e  "));
    assert_eq!(fields("1 a b : C d\n"), None);
    assert_eq!(fields("1 a b : C d\ne"), None);
    assert_eq!(fields("1 a b : C \n"), owned("1", "a", "b", "C", ""));
    assert_eq!(fields("1 a b : C \n \n"), owned("1", "a", "b", "C", ""));
    assert_eq!(fields("1 a b : C d\r"), owned("1", "a", "b", "C", "d\r"));
    assert_eq!(fields("1 a b : C é☃\u{1f600}"), owned("1", "a", "b", "C", "é☃\u{1f600}"));
}

#[test]
fn identifiers_hold_letters_underscores_and_dots_only() {
    assert_eq!(fields("1 a_b. _.Z : C d"), owned("1", "a_b.", "_.Z", "C", "d"));
    for bad in ["a-b", "a1", "a[b", "a^b", "a`b", "a]b", "a\\b", "é"] {
        assert_eq!(fields(&format!("1 {bad} m : C d")), None, "{bad:?}");
        assert_eq!(fields(&format!("1 m {bad} : C d")), None, "{bad:?}");
    }
}

#[test]
fn split_places_are_counted_in_characters() {
    let chars: Vec<char> = "1\u{3000}é".chars().collect();
    assert!(split_line(&chars).is_none());
    let chars: Vec<char> = "12\u{3000}ab\u{3000}cd\u{3000}:\u{3000}EF\u{3000}é".chars().collect();
    let p = split_line(&chars).unwrap();
    assert_eq!(
        (p.stamp_end, p.app_start, p.app_end, p.module_start, p.module_end),
        (2, 3, 5, 6, 8)
    );
    assert_eq!((p.colon, p.level_start, p.level_end, p.text_start), (9, 11, 13, 14));
}

#[test]
fn long_runs_are_split_in_reasonable_time() {
    let line = "T".repeat(200_000);
    assert_eq!(fields(&line), None);
    let line = format!("{} : A {}\n", ".".repeat(100_000), "x".repeat(100_000));
    assert_eq!(fields(&line), None);
    let line = format!("{} : A {}", "T.".repeat(50_000), "x".repeat(100_000));
    assert_eq!(fields(&line), None);
    let line = format!(
        "{} {} {} : A {}",
        "T.".repeat(50_000),
        "a.".repeat(50_000),
        "_".repeat(100_000),
        "x".repeat(100_000)
    );
    let f = LineFields::split(&line).unwrap();
    assert_eq!(f.stamp.len(), 100_000);
    assert_eq!(f.app.len(), 100_000);
    assert_eq!(f.module.len(), 100_000);
    assert_eq!(f.text.len(), 100_000);
}
