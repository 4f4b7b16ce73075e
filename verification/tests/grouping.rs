//! Putting channels and users into few messages.

use irc_client::grouping::{group_joins, group_monitors};
use irc_client::proto::{Command, Message};
use irc_client::string_map::StringMap;

fn strings(list: &[&str]) -> Vec<String> {
    list.iter().map(|text| text.to_string()).collect()
}

fn no_keys() -> StringMap<String> {
    StringMap::new()
}

fn joins(messages: Vec<Message>) -> Vec<(String, Option<String>)> {
    messages
        .into_iter()
        .map(|message| match message.command {
            Command::JOIN(channels, keys) => {
                assert!(message.tags.is_empty());
                (channels, keys)
            }
            other => panic!("not a join: {other:?}"),
        })
        .collect()
}

fn monitors(messages: Vec<Message>) -> Vec<String> {
    messages
        .into_iter()
        .map(|message| match message.command {
            Command::MONITOR(sign, Some(targets)) => {
                assert_eq!(sign, "+");
                targets
            }
            other => panic!("not a monitor: {other:?}"),
        })
        .collect()
}

#[test]
fn joins_nothing_without_channels() {
    assert!(joins(group_joins(&vec![], &no_keys())).is_empty());
}

#[test]
fn joins_few_channels_at_once() {
    assert_eq!(
        joins(group_joins(&strings(&["#a", "#b", "#c"]), &no_keys())),
        vec![("#a,#b,#c".to_string(), None)]
    );
}

#[test]
fn joins_channels_with_keys_apart() {
    let mut keys = no_keys();
    keys.insert("#b".to_string(), "secret".to_string());
    keys.insert("#d".to_string(), "other".to_string());
    keys.insert("#z".to_string(), "unused".to_string());
    assert_eq!(
        joins(group_joins(&strings(&["#a", "#b", "#c", "#d"]), &keys)),
        vec![
            ("#a,#c".to_string(), None),
            ("#b,#d".to_string(), Some("secret,other".to_string())),
        ]
    );
}

fn named(len: usize, first: char) -> String {
    format!("#{first}{}", "x".repeat(len - 2))
}

fn line_len(join: &(String, Option<String>)) -> usize {
    match &join.1 {
        Some(keys) => format!("JOIN {} {keys}\r\n", join.0).len(),
        None => format!("JOIN {}\r\n", join.0).len(),
    }
}

#[test]
fn a_message_is_filled_to_the_last_byte() {
    let full = vec![named(250, 'a'), named(254, 'b')];
    let messages = joins(group_joins(&full, &no_keys()));
    assert_eq!(messages, vec![(full.join(","), None)]);
    assert_eq!(line_len(&messages[0]), 512);
    let nearly = vec![named(250, 'a'), named(253, 'b')];
    let messages = joins(group_joins(&nearly, &no_keys()));
    assert_eq!(messages.len(), 1);
    assert_eq!(line_len(&messages[0]), 511);
    let over = vec![named(250, 'a'), named(255, 'b')];
    let messages = joins(group_joins(&over, &no_keys()));
    assert_eq!(messages, vec![(over[0].clone(), None), (over[1].clone(), None)]);
}

#[test]
fn a_channel_without_room_begins_a_message() {
    let names = vec![named(300, 'a'), named(300, 'b'), named(300, 'c')];
    let messages = joins(group_joins(&names, &no_keys()));
    assert_eq!(messages.len(), 3);
    // Each name takes 100 bytes and a comma: five of them have room, and a sixth has none.
    let names: Vec<String> = (0..7).map(|i| format!("#{i}{}", "x".repeat(98))).collect();
    let messages = joins(group_joins(&names, &no_keys()));
    assert_eq!(
        messages,
        vec![(names[0..5].join(","), None), (names[5..7].join(","), None)]
    );
}

#[test]
fn keys_take_room_too() {
    // Name, key and two commas take 102 bytes: four pairs have room, and a fifth has none.
    let mut keys = no_keys();
    let names: Vec<String> = (0..5).map(|i| format!("#{i}{}", "x".repeat(48))).collect();
    for name in &names {
        keys.insert(name.clone(), "k".repeat(50));
    }
    let messages = joins(group_joins(&names, &keys));
    assert_eq!(messages.len(), 2);
    assert_eq!(messages[0].0, names[0..4].join(","));
    assert_eq!(messages[1], (names[4].clone(), Some("k".repeat(50))));
}

#[test]
fn keyed_messages_are_filled_to_the_last_byte() {
    let mut keys = no_keys();
    let names = vec![named(100, 'a'), named(100, 'b')];
    keys.insert(names[0].clone(), "k".repeat(151));
    keys.insert(names[1].clone(), "k".repeat(151));
    let messages = joins(group_joins(&names, &keys));
    assert_eq!(messages.len(), 1);
    assert_eq!(line_len(&messages[0]), 512);
    keys.insert(names[1].clone(), "k".repeat(152));
    assert_eq!(joins(group_joins(&names, &keys)).len(), 2);
}

#[test]
fn no_channel_is_lost_and_none_is_doubled() {
    let names: Vec<String> = (0..300).map(|i| format!("#channel{i}")).collect();
    let messages = joins(group_joins(&names, &no_keys()));
    let together: Vec<String> = messages
        .iter()
        .flat_map(|(channels, _)| channels.split(',').map(str::to_string).collect::<Vec<_>>())
        .collect();
    assert_eq!(together, names);
}

#[test]
fn every_message_fits_and_none_could_take_the_next_channel() {
    let names: Vec<String> = (0..200).map(|i| named(2 + i % 90, 'n')).collect();
    let messages = joins(group_joins(&names, &no_keys()));
    for pair in messages.windows(2) {
        let next = pair[1].0.split(',').next().unwrap();
        assert!(line_len(&pair[0]) + 1 + next.len() > 512);
    }
    for message in &messages {
        assert!(!message.0.is_empty());
        assert!(line_len(message) <= 512);
    }
}

#[test]
fn a_channel_that_is_too_long_stands_alone() {
    let names = vec![named(1200, 'a'), named(3, 'b'), named(1200, 'c'), named(3, 'd')];
    let messages = joins(group_joins(&names, &no_keys()));
    assert_eq!(messages.len(), 4);
    assert_eq!(messages[0].0, names[0]);
    assert_eq!(messages[1].0, names[1]);
}

#[test]
fn watches_no_more_users_than_the_server_takes() {
    let names = strings(&["a", "b", "c"]);
    assert_eq!(monitors(group_monitors(&names, Some(2))), vec!["a,b".to_string()]);
    assert_eq!(monitors(group_monitors(&names, Some(9))), vec!["a,b,c".to_string()]);
    assert_eq!(monitors(group_monitors(&names, None)), vec!["a,b,c".to_string()]);
    assert!(monitors(group_monitors(&names, Some(0))).is_empty());
}

#[test]
fn watching_has_its_own_limit() {
    // Each name takes 99 bytes and a comma: the fifth ends at 500, where the limit is reached.
    let names: Vec<String> = (0..5).map(|i| format!("{i}{}", "n".repeat(98))).collect();
    let messages = monitors(group_monitors(&names, None));
    assert_eq!(messages, vec![names[0..4].join(","), names[4].clone()]);
    let reached = vec!["a".repeat(248), "b".repeat(250)];
    assert_eq!(monitors(group_monitors(&reached, None)), reached);
    let below = vec!["a".repeat(248), "b".repeat(249)];
    assert_eq!(monitors(group_monitors(&below, None)), vec![below.join(",")]);
}

#[test]
fn watching_counts_room_over_all_messages() {
    // The room so far is 101, 582 and 983: the second and the third reach one multiple together.
    let names = vec!["a".repeat(100), "b".repeat(480), "c".repeat(400)];
    let messages = monitors(group_monitors(&names, None));
    assert_eq!(messages, vec![names[0].clone(), names[1..3].join(",")]);
    let long = vec!["a".repeat(1200), "b".repeat(10)];
    assert_eq!(monitors(group_monitors(&long, None)), vec![long.join(",")]);
}
