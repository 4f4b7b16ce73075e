//! Strings, numbers, times, maps and tags.

use irc_client::message::{listed_names, DccSend};
use irc_client::number::{parse_u64, to_numeral};
use irc_client::proto::{is_channel, remove_tag, Command, Numeric, Tag};
use irc_client::settings::{Message, Section, Settings, WindowId};
use irc_client::string_map::StringMap;
use irc_client::text;
use irc_client::time::{Clock, DateTime, Instant, Posix};

fn strings(list: &[&str]) -> Vec<String> {
    list.iter().map(|text| text.to_string()).collect()
}

#[test]
fn splits_at_every_separator() {
    assert_eq!(text::split("a b  c", ' '), strings(&["a", "b", "", "c"]));
    assert_eq!(text::split("", ' '), strings(&[""]));
    assert_eq!(text::split(" ", ' '), strings(&["", ""]));
    assert_eq!(text::split("één,twee", ','), strings(&["één", "twee"]));
}

#[test]
fn pieces_make_up_the_string_again() {
    for value in ["a,b,,c", "", ",", "no separator", ",x,"] {
        assert_eq!(text::split(value, ',').join(","), value);
    }
}

#[test]
fn looks_into_strings() {
    assert!(text::starts_with("sasl=PLAIN", "sasl"));
    assert!(!text::starts_with("sas", "sasl"));
    assert!(text::contains("x-sasl-y", "sasl"));
    assert!(!text::contains("x-sas-l", "sasl"));
    assert!(text::contains("", ""));
    assert_eq!(text::first_char("éa"), Some('é'));
    assert_eq!(text::first_char(""), None);
    assert_eq!(text::after_first("+abc"), "abc");
    assert_eq!(text::len_in_bytes("é#"), 3);
}

#[test]
fn orders_strings_by_bytes() {
    assert!(text::is_before("a", "b"));
    assert!(text::is_before("a", "aa"));
    assert!(text::is_before("Z", "a"));
    assert!(text::is_before("z", "é"));
    assert!(!text::is_before("a", "a"));
    assert!(text::is_before("", "a"));
}

#[test]
fn parses_numbers_as_seconds() {
    assert_eq!(parse_u64("0"), Some(0));
    assert_eq!(parse_u64("+12"), Some(12));
    assert_eq!(parse_u64("18446744073709551615"), Some(u64::MAX));
    assert_eq!(parse_u64("18446744073709551616"), None);
    assert_eq!(parse_u64("00018446744073709551615"), Some(u64::MAX));
    assert_eq!(parse_u64(""), None);
    assert_eq!(parse_u64("+"), None);
    assert_eq!(parse_u64("-1"), None);
    assert_eq!(parse_u64("1 "), None);
    assert_eq!(parse_u64("++1"), None);
}

#[test]
fn writes_numerals() {
    assert_eq!(to_numeral(0), "0");
    assert_eq!(to_numeral(10), "10");
    assert_eq!(to_numeral(u128::MAX), u128::MAX.to_string());
    assert_eq!(parse_u64(&to_numeral(9876543210)), Some(9876543210));
    assert_ne!(to_numeral(11), to_numeral(1));
}

#[test]
fn turns_seconds_into_dates() {
    let time = Posix::from_seconds(1_700_000_000);
    assert_eq!(time.as_nanos(), 1_700_000_000_000_000_000);
    assert_eq!(time.datetime(), Some(DateTime { seconds: 1_700_000_000, nanos: 0 }));
    let fraction = Posix { nanos: 1_500_000_000 };
    assert_eq!(fraction.datetime(), Some(DateTime { seconds: 1, nanos: 500_000_000 }));
    let last = Posix::from_seconds(8_210_266_876_799);
    assert_eq!(last.datetime(), Some(DateTime { seconds: 8_210_266_876_799, nanos: 0 }));
    assert_eq!(Posix::from_seconds(8_210_266_876_800).datetime(), None);
    assert_eq!(Posix::from_seconds(u64::MAX).datetime(), None);
}

#[test]
fn a_clock_before_its_start_reads_the_start() {
    assert_eq!(Posix::from_reading(Some(12)).as_nanos(), 12);
    assert_eq!(Posix::from_reading(None).as_nanos(), 0);
}

#[test]
fn clocks_go_forward() {
    let clock = Clock::start();
    let first = clock.now();
    let second = clock.now();
    assert!(second.nanos >= first.nanos);
    let early = Instant { nanos: 5 };
    let late = Instant { nanos: 12 };
    assert_eq!(late.duration_since(early), 7);
    assert_eq!(early.duration_since(late), 0);
    assert!(Posix::now().nanos > 1_600_000_000_000_000_000);
}

#[test]
fn maps_keep_their_keys_in_order() {
    let mut map: StringMap<String> = StringMap::new();
    assert!(map.is_empty());
    assert_eq!(map.insert("b".to_string(), "1".to_string()), None);
    assert_eq!(map.insert("a".to_string(), "2".to_string()), None);
    assert_eq!(map.insert("c".to_string(), "3".to_string()), None);
    assert_eq!(map.insert("b".to_string(), "4".to_string()), Some("1".to_string()));
    assert_eq!(map.len(), 3);
    assert_eq!(map.keys(), strings(&["a", "b", "c"]));
    assert_eq!(map.get("b"), Some(&"4".to_string()));
    assert_eq!(map.get("d"), None);
    if let Some(value) = map.get_mut("c") {
        value.push('!');
    }
    assert_eq!(map.value_at(2), "3!");
    assert_eq!(map.key_at(0), "a");
    let copy = map.copy();
    assert_eq!(map.remove("b"), Some("4".to_string()));
    assert_eq!(map.remove("b"), None);
    assert!(!map.contains_key("b"));
    assert_eq!(copy.keys(), strings(&["a", "b", "c"]));
}

#[test]
fn knows_channels_by_their_first_character() {
    for name in ["#a", "&a", "+a", "!a", "#"] {
        assert!(is_channel(name));
    }
    for name in ["", "a", "a#", "@#a"] {
        assert!(!is_channel(name));
    }
}

#[test]
fn removes_the_first_tag_with_a_key() {
    let tag = |key: &str, value: Option<&str>| Tag {
        key: key.to_string(),
        value: value.map(str::to_string),
    };
    let mut tags = vec![
        tag("time", Some("now")),
        tag("label", Some("1")),
        tag("label", Some("2")),
        tag("bare", None),
    ];
    assert_eq!(remove_tag("label", &mut tags), Some("1".to_string()));
    assert_eq!(tags.len(), 3);
    assert_eq!(remove_tag("label", &mut tags), Some("2".to_string()));
    assert_eq!(remove_tag("label", &mut tags), None);
    assert_eq!(tags.len(), 2);
    assert_eq!(remove_tag("bare", &mut tags), None);
    assert_eq!(tags.len(), 1);
    assert_eq!(tags[0].key, "time");
}

#[test]
fn finds_the_names_that_stand_for_users() {
    let numeric = |numeric, args: &[&str]| Command::Numeric(numeric, strings(args));
    assert_eq!(
        listed_names(&numeric(Numeric::RPL_NAMREPLY, &["me", "=", "#a", "@x y"])),
        strings(&["@x", "y"])
    );
    assert!(listed_names(&numeric(Numeric::RPL_NAMREPLY, &["me", "=", "#a"])).is_empty());
    assert_eq!(
        listed_names(&numeric(Numeric::RPL_MONONLINE, &["me", "x!u@h,y"])),
        strings(&["x!u@h", "y"])
    );
    assert_eq!(listed_names(&numeric(Numeric::RPL_NOWAWAY, &["me", "text"])), strings(&["me"]));
    assert!(listed_names(&numeric(Numeric::RPL_UNAWAY, &[])).is_empty());
    assert!(listed_names(&Command::TAGMSG("x".to_string())).is_empty());
}

#[test]
fn settings_list_their_sections() {
    assert_eq!(Section::list(), vec![Section::Buffer, Section::ScaleFactor]);
    let mut settings = Settings { window: WindowId(7) };
    assert!(settings.update(Message::Open(Section::Buffer)).is_none());
    assert!(settings.update(Message::Open(Section::ScaleFactor)).is_none());
    assert_eq!(settings.window, WindowId(7));
}

#[test]
fn copies_hold_the_same() {
    let request = DccSend { text: "file".to_string() };
    assert_eq!(request.clone().text, "file");
}
