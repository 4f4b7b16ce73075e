//! Putting many targets into few messages.

use std::collections::HashMap;

use itertools::Itertools;
use vstd::prelude::*;

use crate::order;
use crate::proto::{message_views, Command, Message, MessageView, BYTE_LIMIT};
use crate::string_map::StringMap;
use crate::text;
use crate::text::{byte_len, joined, texts};

verus! {

broadcast use vstd::std_specs::hash::group_hash_axioms;

// ---------------------------------------------------------------------------
// Groups of entries

/// The sum of sizes.
pub open spec fn total(sizes: Seq<nat>) -> nat
    decreases sizes.len(),
{
    if sizes.len() == 0 {
        0
    } else {
        total(sizes.drop_last()) + sizes.last()
    }
}

/// The room that the last group takes, where each group is filled as long as the limit allows.
pub open spec fn last_room(sizes: Seq<nat>, limit: nat) -> nat
    decreases sizes.len(),
{
    if sizes.len() == 0 {
        0
    } else {
        let room = last_room(sizes.drop_last(), limit);
        if sizes.len() == 1 || room + sizes.last() > limit {
            sizes.last()
        } else {
            room + sizes.last()
        }
    }
}

/// Where groups begin.
pub enum Rule {
    /// An entry begins a group where it has no room in the one before it, which has the room of the
    /// limit.
    Room(nat),
    /// An entry begins a group where the room of all entries so far reaches the next multiple of
    /// the limit.
    Running(nat),
}

/// Whether the last entry begins a group: it is the first one, or the rule says so.
pub open spec fn begins_group(sizes: Seq<nat>, rule: Rule) -> bool {
    sizes.len() == 1 || match rule {
        Rule::Room(limit) => last_room(sizes.drop_last(), limit) + sizes.last() > limit,
        Rule::Running(limit) => total(sizes) / limit != total(sizes.drop_last()) / limit,
    }
}

/// The entries in groups, in order. Each entry goes in the group of the one before it, unless it
/// begins a group.
pub open spec fn divided<V>(entries: Seq<V>, sizes: Seq<nat>, rule: Rule) -> Seq<Seq<V>>
    decreases entries.len(),
{
    if entries.len() == 0 {
        Seq::empty()
    } else {
        let groups = divided(entries.drop_last(), sizes.drop_last(), rule);
        if begins_group(sizes, rule) {
            groups.push(seq![entries.last()])
        } else {
            groups.drop_last().push(groups.last().push(entries.last()))
        }
    }
}

/// The number of groups.
pub open spec fn group_count(sizes: Seq<nat>, rule: Rule) -> nat
    decreases sizes.len(),
{
    if sizes.len() == 0 {
        0
    } else if begins_group(sizes, rule) {
        group_count(sizes.drop_last(), rule) + 1
    } else {
        group_count(sizes.drop_last(), rule)
    }
}

/// The number of groups, by the groups themselves.
proof fn lemma_group_count<V>(entries: Seq<V>, sizes: Seq<nat>, rule: Rule)
    requires
        entries.len() == sizes.len(),
    ensures
        divided(entries, sizes, rule).len() == group_count(sizes, rule),
        entries.len() > 0 ==> group_count(sizes, rule) > 0,
        group_count(sizes, rule) <= sizes.len(),
    decreases entries.len(),
{
    if entries.len() > 0 {
        lemma_group_count(entries.drop_last(), sizes.drop_last(), rule);
    }
}

/// Groups go along with a change of all entries.
proof fn lemma_divided_map<V, W>(entries: Seq<V>, sizes: Seq<nat>, rule: Rule, f: spec_fn(V) -> W)
    requires
        entries.len() == sizes.len(),
    ensures
        divided(entries.map_values(f), sizes, rule) == divided(entries, sizes, rule).map_values(
            |group: Seq<V>| group.map_values(f),
        ),
    decreases entries.len(),
{
    let after = |group: Seq<V>| group.map_values(f);
    let left = divided(entries.map_values(f), sizes, rule);
    let right = divided(entries, sizes, rule).map_values(after);
    if entries.len() == 0 {
        assert(left =~= right);
    } else {
        let fewer = entries.drop_last();
        let groups = divided(fewer, sizes.drop_last(), rule);
        lemma_divided_map(fewer, sizes.drop_last(), rule, f);
        lemma_group_count(fewer, sizes.drop_last(), rule);
        assert(entries.map_values(f).drop_last() =~= fewer.map_values(f));
        if begins_group(sizes, rule) {
            assert(seq![entries.last()].map_values(f) =~= seq![f(entries.last())]);
        } else {
            assert(groups.last().push(entries.last()).map_values(f)
                =~= groups.last().map_values(f).push(f(entries.last())));
        }
        assert(left =~= right);
    }
}

// ---------------------------------------------------------------------------
// Grouping entries

/// The values that stand beside a key, in order.
pub open spec fn beside<K, V>(keys: Seq<K>, values: Seq<V>, key: K) -> Seq<V>
    decreases keys.len(),
{
    if keys.len() == 0 {
        Seq::empty()
    } else {
        let rest = beside(keys.drop_last(), values.drop_last(), key);
        if keys.last() == key {
            rest.push(values.last())
        } else {
            rest
        }
    }
}

/// The keys of pairs.
pub open spec fn pair_keys<V>(pairs: Seq<(u128, V)>) -> Seq<u128> {
    pairs.map_values(|pair: (u128, V)| pair.0)
}

/// The values of pairs.
pub open spec fn pair_values<V>(pairs: Seq<(u128, V)>) -> Seq<V> {
    pairs.map_values(|pair: (u128, V)| pair.1)
}

/// Calls `itertools::Itertools::into_group_map`. Each key that a pair has comes with the values
/// of the pairs that have it, in the order of the pairs; there is no other key.
#[verifier::external_body]
fn group_map<V>(pairs: Vec<(u128, V)>) -> (groups: HashMap<u128, Vec<V>>)
    ensures
        forall|key: u128| #[trigger]
            groups@.contains_key(key) <==> pair_keys(pairs@).contains(key),
        forall|key: u128| #[trigger]
            groups@.contains_key(key) ==> groups@[key]@ == beside(
                pair_keys(pairs@),
                pair_values(pairs@),
                key,
            ),
{
    pairs.into_iter().into_group_map()
}

/// Whether each entry has the number of its group, counted from one.
spec fn numbered(numbers: Seq<u128>, sizes: Seq<nat>, rule: Rule) -> bool {
    &&& numbers.len() == sizes.len()
    &&& forall|i: int|
        0 <= i < numbers.len() ==> #[trigger] numbers[i] == group_count(sizes.take(i + 1), rule)
}

/// The entries that have the number of a group are the group, and no entry has another number.
proof fn lemma_numbered<V>(numbers: Seq<u128>, values: Seq<V>, sizes: Seq<nat>, rule: Rule, key: u128)
    requires
        values.len() == sizes.len(),
        numbered(numbers, sizes, rule),
    ensures
        numbers.contains(key) <==> 1 <= key <= group_count(sizes, rule),
        beside(numbers, values, key) == (if 1 <= key <= group_count(sizes, rule) {
            divided(values, sizes, rule)[key - 1]
        } else {
            Seq::empty()
        }),
    decreases values.len(),
{
    if values.len() > 0 {
        let fewer = numbers.drop_last();
        let most = values.drop_last();
        let rest = sizes.drop_last();
        let count = group_count(sizes, rule);
        assert forall|i: int| 0 <= i < fewer.len() implies #[trigger] fewer[i] == group_count(
            rest.take(i + 1),
            rule,
        ) by {
            assert(rest.take(i + 1) =~= sizes.take(i + 1));
            assert(fewer[i] == numbers[i]);
        }
        lemma_numbered(fewer, most, rest, rule, key);
        lemma_group_count(most, rest, rule);
        lemma_group_count(values, sizes, rule);
        assert(sizes.take(sizes.len() as int) =~= sizes);
        assert(numbers[numbers.len() - 1] == count);
        assert(numbers.last() == count);
        assert(numbers.contains(key) <==> fewer.contains(key) || key == count) by {
            if numbers.contains(key) {
                let i = numbers.index_of(key);
                if i < fewer.len() {
                    assert(fewer[i] == key);
                }
            }
            if fewer.contains(key) {
                assert(numbers[fewer.index_of(key)] == key);
            }
        }
        if key == count && begins_group(sizes, rule) {
            assert(Seq::<V>::empty().push(values.last()) =~= seq![values.last()]);
        }
    }
}

/// The number of the group of each entry, where groups are filled as long as the limit allows.
fn room_numbers(sizes: &Vec<u128>, limit: u128) -> (numbers: Vec<u128>)
    requires
        limit <= BYTE_LIMIT,
        forall|i: int| 0 <= i < sizes@.len() ==> #[trigger] sizes@[i] <= 0x4_0000_0000_0000_0000,
    ensures
        numbered(numbers@, sizes@.map_values(|size: u128| size as nat), Rule::Room(limit as nat)),
{
    let ghost all = sizes@.map_values(|size: u128| size as nat);
    let mut numbers: Vec<u128> = Vec::new();
    let mut number: u128 = 0;
    let mut room: u128 = 0;
    for i in 0..sizes.len()
        invariant
            limit <= BYTE_LIMIT,
            all == sizes@.map_values(|size: u128| size as nat),
            forall|j: int| 0 <= j < sizes@.len() ==> #[trigger] sizes@[j] <= 0x4_0000_0000_0000_0000,
            numbers@.len() == i,
            forall|j: int|
                0 <= j < i ==> #[trigger] numbers@[j] == group_count(
                    all.take(j + 1),
                    Rule::Room(limit as nat),
                ),
            number == group_count(all.take(i as int), Rule::Room(limit as nat)),
            number <= i,
            room == last_room(all.take(i as int), limit as nat),
            room <= 0x4_0000_0000_0000_0000,
    {
        proof {
            assert(all.take(i + 1).drop_last() =~= all.take(i as int));
            assert(all.take(i + 1).last() == sizes@[i as int]);
        }
        if i == 0 || room + sizes[i] > limit {
            number = number + 1;
            room = sizes[i];
        } else {
            room = room + sizes[i];
        }
        numbers.push(number);
    }
    numbers
}

/// The number of the group of each entry, where each multiple of the limit begins a group.
fn running_numbers(sizes: &Vec<u128>, limit: u128) -> (numbers: Vec<u128>)
    requires
        0 < limit <= BYTE_LIMIT,
        forall|i: int| 0 <= i < sizes@.len() ==> #[trigger] sizes@[i] <= 0x4_0000_0000_0000_0000,
    ensures
        numbered(
            numbers@,
            sizes@.map_values(|size: u128| size as nat),
            Rule::Running(limit as nat),
        ),
{
    let ghost all = sizes@.map_values(|size: u128| size as nat);
    let mut numbers: Vec<u128> = Vec::new();
    let mut number: u128 = 0;
    let mut rest: u128 = 0;
    proof {
        vstd::arithmetic::div_mod::lemma_small_mod(0, limit as nat);
    }
    for i in 0..sizes.len()
        invariant
            0 < limit <= BYTE_LIMIT,
            all == sizes@.map_values(|size: u128| size as nat),
            forall|j: int| 0 <= j < sizes@.len() ==> #[trigger] sizes@[j] <= 0x4_0000_0000_0000_0000,
            numbers@.len() == i,
            forall|j: int|
                0 <= j < i ==> #[trigger] numbers@[j] == group_count(
                    all.take(j + 1),
                    Rule::Running(limit as nat),
                ),
            number == group_count(all.take(i as int), Rule::Running(limit as nat)),
            number <= i,
            rest == total(all.take(i as int)) % (limit as nat),
            rest < limit,
    {
        let sum: u128 = rest + sizes[i];
        proof {
            assert(all.take(i + 1).drop_last() =~= all.take(i as int));
            assert(all.take(i + 1).last() == sizes@[i as int]);
            lemma_next_multiple(total(all.take(i as int)), sizes@[i as int] as nat, limit as nat);
        }
        if i == 0 || sum >= limit {
            number = number + 1;
        }
        rest = sum % limit;
        numbers.push(number);
    }
    numbers
}

/// A sum reaches the next multiple of a limit where what was over the last one does.
proof fn lemma_next_multiple(before: nat, more: nat, limit: nat)
    requires
        limit > 0,
    ensures
        (before + more) / limit != before / limit <==> before % limit + more >= limit,
        (before + more) % limit == (before % limit + more) % limit,
{
    let rest = before % limit;
    let times = before / limit;
    assert(before == limit * times + rest) by (nonlinear_arith)
        requires
            limit > 0,
            rest == before % limit,
            times == before / limit,
    ;
    vstd::arithmetic::div_mod::lemma_hoist_over_denominator(
        (rest + more) as int,
        times as int,
        limit,
    );
    vstd::arithmetic::div_mod::lemma_mod_multiples_vanish(
        times as int,
        (rest + more) as int,
        limit as int,
    );
    assert((rest + more) / limit >= 1 <==> rest + more >= limit) by (nonlinear_arith)
        requires
            limit > 0,
    ;
    assert(times * limit == limit * times) by (nonlinear_arith);
}

/// What groups hold.
pub open spec fn group_views<V>(groups: Seq<Vec<V>>) -> Seq<Seq<V>> {
    groups.map_values(|group: Vec<V>| group@)
}

/// Whether a group is found under its number.
spec fn holds_group<V>(found: Map<u128, Vec<V>>, number: u128, groups: Seq<Seq<V>>) -> bool {
    found.contains_key(number) && found[number]@ == groups[number - 1]
}

/// The entries in groups, by the number of the group of each.
fn divide<V>(
    entries: Vec<V>,
    numbers: &Vec<u128>,
    Ghost(all): Ghost<Seq<nat>>,
    Ghost(rule): Ghost<Rule>,
) -> (groups: Vec<Vec<V>>)
    requires
        entries@.len() == all.len(),
        numbered(numbers@, all, rule),
    ensures
        group_views(groups@) == divided(entries@, all, rule),
{
    let ghost values = entries@;
    let ghost expected = divided(values, all, rule);
    let mut pairs: Vec<(u128, V)> = Vec::new();
    let len = entries.len();
    let count: u128 = if len == 0 {
        0
    } else {
        numbers[len - 1]
    };
    let mut pending = order::reversed(entries);
    for i in 0..len
        invariant
            len == values.len(),
            numbers@.len() == len,
            pending@.len() == len - i,
            forall|j: int| 0 <= j < pending@.len() ==> pending@[j] == values[values.len() - 1 - j],
            pairs@.len() == i,
            forall|j: int| 0 <= j < i ==> #[trigger] pairs@[j] == (numbers@[j], values[j]),
    {
        let entry = pending.pop();
        if let Some(entry) = entry {
            pairs.push((numbers[i], entry));
        }
    }
    let ghost zipped = pairs@;
    proof {
        assert(pair_keys(zipped) =~= numbers@);
        assert(pair_values(zipped) =~= values);
        assert(all.take(all.len() as int) =~= all);
        lemma_group_count(values, all, rule);
        assert(count == group_count(all, rule));
    }
    let mut found = group_map(pairs);
    proof {
        assert forall|key: u128| 1 <= key <= count implies holds_group(found@, key, expected) by {
            lemma_numbered(numbers@, values, all, rule, key);
            assert(pair_keys(zipped).contains(key));
            assert(found@.contains_key(key));
        }
    }
    let mut groups: Vec<Vec<V>> = Vec::new();
    let mut number: u128 = 1;
    while number <= count
        invariant
            count == expected.len(),
            count <= usize::MAX,
            1 <= number <= count + 1,
            groups@.len() == number - 1,
            forall|j: int| 0 <= j < groups@.len() ==> (#[trigger] groups@[j])@ == expected[j],
            forall|key: u128|
                number <= key <= count ==> #[trigger] holds_group(found@, key, expected),
        decreases count + 1 - number,
    {
        assert(holds_group(found@, number, expected));
        let ghost before = found@;
        if let Some(group) = found.remove(&number) {
            groups.push(group);
        }
        assert forall|key: u128| number < key <= count implies #[trigger] holds_group(
            found@,
            key,
            expected,
        ) by {
            assert(holds_group(before, key, expected));
        }
        number = number + 1;
    }
    assert(group_views(groups@) =~= expected);
    groups
}

// ---------------------------------------------------------------------------
// Joining channels

/// The room that a `JOIN` has for its channels and keys, each with a comma: what a line may have,
/// less `JOIN`, a space and the end of the line, and more by the comma that the last does without.
pub const JOIN_LIMIT: u128 = 506;

/// The channels that have no key.
pub open spec fn without_key(channels: Seq<Seq<char>>, keys: Map<Seq<char>, Seq<char>>) -> Seq<Seq<char>>
    decreases channels.len(),
{
    if channels.len() == 0 {
        Seq::empty()
    } else {
        let rest = without_key(channels.drop_last(), keys);
        if keys.contains_key(channels.last()) {
            rest
        } else {
            rest.push(channels.last())
        }
    }
}

/// The channels that have a key, each with its key.
pub open spec fn with_key(channels: Seq<Seq<char>>, keys: Map<Seq<char>, Seq<char>>) -> Seq<
    (Seq<char>, Seq<char>),
>
    decreases channels.len(),
{
    if channels.len() == 0 {
        Seq::empty()
    } else {
        let rest = with_key(channels.drop_last(), keys);
        if keys.contains_key(channels.last()) {
            rest.push((channels.last(), keys[channels.last()]))
        } else {
            rest
        }
    }
}

/// The room that names take: their bytes, and a comma for each.
pub open spec fn name_sizes(names: Seq<Seq<char>>) -> Seq<nat> {
    names.map_values(|name: Seq<char>| byte_len(name) + 1)
}

/// The room that channels with their keys take: their bytes, and a comma for each name and key.
pub open spec fn pair_sizes(pairs: Seq<(Seq<char>, Seq<char>)>) -> Seq<nat> {
    pairs.map_values(|pair: (Seq<char>, Seq<char>)| byte_len(pair.0) + byte_len(pair.1) + 2)
}

/// The message that joins channels without keys.
pub open spec fn plain_join(channels: Seq<Seq<char>>) -> MessageView {
    MessageView::plain(Command::JOIN(joined(channels, ","@), None))
}

/// The first parts of pairs.
pub open spec fn firsts(pairs: Seq<(Seq<char>, Seq<char>)>) -> Seq<Seq<char>> {
    pairs.map_values(|pair: (Seq<char>, Seq<char>)| pair.0)
}

/// The second parts of pairs.
pub open spec fn seconds(pairs: Seq<(Seq<char>, Seq<char>)>) -> Seq<Seq<char>> {
    pairs.map_values(|pair: (Seq<char>, Seq<char>)| pair.1)
}

/// The message that joins channels with their keys.
pub open spec fn keyed_join(pairs: Seq<(Seq<char>, Seq<char>)>) -> MessageView {
    MessageView::plain(
        Command::JOIN(joined(firsts(pairs), ","@), Some(joined(seconds(pairs), ","@))),
    )
}

/// The messages that join channels: first those without a key, then those with one.
pub open spec fn joins(channels: Seq<Seq<char>>, keys: Map<Seq<char>, Seq<char>>) -> Seq<
    MessageView,
> {
    let plain = without_key(channels, keys);
    let keyed = with_key(channels, keys);
    divided(plain, name_sizes(plain), Rule::Room(JOIN_LIMIT as nat)).map_values(
        |group: Seq<Seq<char>>| plain_join(group),
    ) + divided(keyed, pair_sizes(keyed), Rule::Room(JOIN_LIMIT as nat)).map_values(
        |group: Seq<(Seq<char>, Seq<char>)>| keyed_join(group),
    )
}

/// A pair of strings, as it is held.
pub open spec fn pair_text(pair: (String, String)) -> (Seq<char>, Seq<char>) {
    (pair.0@, pair.1@)
}

/// What pairs of strings hold.
pub open spec fn pair_texts(pairs: Seq<(String, String)>) -> Seq<(Seq<char>, Seq<char>)> {
    pairs.map_values(|pair: (String, String)| pair_text(pair))
}

/// The room that names take.
fn sizes_of_names(names: &Vec<String>) -> (sizes: Vec<u128>)
    ensures
        sizes@.len() == names@.len(),
        sizes@.map_values(|size: u128| size as nat) == name_sizes(texts(names@)),
        forall|i: int| 0 <= i < sizes@.len() ==> #[trigger] sizes@[i] <= 0x4_0000_0000_0000_0000,
{
    let mut sizes: Vec<u128> = Vec::new();
    for i in 0..names.len()
        invariant
            sizes@.len() == i,
            forall|j: int| 0 <= j < i ==> #[trigger] sizes@[j] == byte_len(names@[j]@) + 1,
            forall|j: int| 0 <= j < i ==> #[trigger] sizes@[j] <= 0x4_0000_0000_0000_0000,
    {
        sizes.push(text::len_in_bytes(names[i].as_str()) as u128 + 1);
    }
    assert(sizes@.map_values(|size: u128| size as nat) =~= name_sizes(texts(names@)));
    sizes
}

/// The room that channels with their keys take.
fn sizes_of_pairs(pairs: &Vec<(String, String)>) -> (sizes: Vec<u128>)
    ensures
        sizes@.len() == pairs@.len(),
        sizes@.map_values(|size: u128| size as nat) == pair_sizes(pair_texts(pairs@)),
        forall|i: int| 0 <= i < sizes@.len() ==> #[trigger] sizes@[i] <= 0x4_0000_0000_0000_0000,
{
    let mut sizes: Vec<u128> = Vec::new();
    for i in 0..pairs.len()
        invariant
            sizes@.len() == i,
            forall|j: int|
                0 <= j < i ==> #[trigger] sizes@[j] == byte_len(pairs@[j].0@) + byte_len(
                    pairs@[j].1@,
                ) + 2,
            forall|j: int| 0 <= j < i ==> #[trigger] sizes@[j] <= 0x4_0000_0000_0000_0000,
    {
        let (channel, key) = &pairs[i];
        sizes.push(
            text::len_in_bytes(channel.as_str()) as u128 + text::len_in_bytes(key.as_str()) as u128
                + 2,
        );
    }
    assert(sizes@.map_values(|size: u128| size as nat) =~= pair_sizes(pair_texts(pairs@)));
    sizes
}

/// Sorts channels by whether they have a key.
fn partition(channels: &Vec<String>, keys: &StringMap<String>) -> (parts: (
    Vec<String>,
    Vec<(String, String)>,
))
    ensures
        texts(parts.0@) == without_key(texts(channels@), keys@),
        pair_texts(parts.1@) == with_key(texts(channels@), keys@),
{
    let mut plain: Vec<String> = Vec::new();
    let mut keyed: Vec<(String, String)> = Vec::new();
    proof {
        assert(texts(channels@).take(0) =~= Seq::<Seq<char>>::empty());
        assert(texts(plain@) =~= Seq::<Seq<char>>::empty());
        assert(pair_texts(keyed@) =~= Seq::<(Seq<char>, Seq<char>)>::empty());
    }
    for i in 0..channels.len()
        invariant
            texts(plain@) == without_key(texts(channels@).take(i as int), keys@),
            pair_texts(keyed@) == with_key(texts(channels@).take(i as int), keys@),
    {
        let ghost names = texts(channels@);
        let ghost plain_before = texts(plain@);
        let ghost keyed_before = pair_texts(keyed@);
        proof {
            assert(names.take(i + 1).drop_last() =~= names.take(i as int));
            assert(names.take(i + 1).last() == channels@[i as int]@);
        }
        match keys.get(channels[i].as_str()) {
            Some(key) => {
                keyed.push((channels[i].clone(), key.clone()));
                assert(pair_texts(keyed@) =~= keyed_before.push((channels@[i as int]@, key@)));
            },
            None => {
                plain.push(channels[i].clone());
                assert(texts(plain@) =~= plain_before.push(channels@[i as int]@));
            },
        }
    }
    assert(texts(channels@).take(channels@.len() as int) =~= texts(channels@));
    (plain, keyed)
}

/// The first and the second parts of pairs.
fn unzip(pairs: &Vec<(String, String)>) -> (parts: (Vec<String>, Vec<String>))
    ensures
        texts(parts.0@) == firsts(pair_texts(pairs@)),
        texts(parts.1@) == seconds(pair_texts(pairs@)),
{
    let mut left: Vec<String> = Vec::new();
    let mut right: Vec<String> = Vec::new();
    for i in 0..pairs.len()
        invariant
            left@.len() == i,
            right@.len() == i,
            forall|j: int| 0 <= j < i ==> #[trigger] left@[j]@ == pairs@[j].0@,
            forall|j: int| 0 <= j < i ==> #[trigger] right@[j]@ == pairs@[j].1@,
    {
        let (channel, key) = &pairs[i];
        left.push(channel.clone());
        right.push(key.clone());
    }
    assert(texts(left@) =~= firsts(pair_texts(pairs@)));
    assert(texts(right@) =~= seconds(pair_texts(pairs@)));
    (left, right)
}

/// The messages that join channels, as few as possible.
pub fn group_joins(channels: &Vec<String>, keys: &StringMap<String>) -> (messages: Vec<Message>)
    ensures
        message_views(messages@) == joins(texts(channels@), keys@),
{
    let (plain, keyed) = partition(channels, keys);
    let ghost plain_names = texts(plain@);
    let ghost keyed_names = pair_texts(keyed@);
    let plain_sizes = sizes_of_names(&plain);
    let keyed_sizes = sizes_of_pairs(&keyed);
    proof {
        lemma_divided_map(
            plain@,
            name_sizes(plain_names),
            Rule::Room(JOIN_LIMIT as nat),
            |name: String| name@,
        );
        lemma_divided_map(
            keyed@,
            pair_sizes(keyed_names),
            Rule::Room(JOIN_LIMIT as nat),
            |pair: (String, String)| pair_text(pair),
        );
    }
    let plain_numbers = room_numbers(&plain_sizes, JOIN_LIMIT);
    let keyed_numbers = room_numbers(&keyed_sizes, JOIN_LIMIT);
    let plain_groups = divide(
        plain,
        &plain_numbers,
        Ghost(name_sizes(plain_names)),
        Ghost(Rule::Room(JOIN_LIMIT as nat)),
    );
    let keyed_groups = divide(
        keyed,
        &keyed_numbers,
        Ghost(pair_sizes(keyed_names)),
        Ghost(Rule::Room(JOIN_LIMIT as nat)),
    );
    let ghost expected = joins(texts(channels@), keys@);
    let ghost plain_expected = divided(
        plain_names,
        name_sizes(plain_names),
        Rule::Room(JOIN_LIMIT as nat),
    );
    let ghost keyed_expected = divided(
        keyed_names,
        pair_sizes(keyed_names),
        Rule::Room(JOIN_LIMIT as nat),
    );
    let mut messages: Vec<Message> = Vec::new();
    for i in 0..plain_groups.len()
        invariant
            plain_groups@.len() == plain_expected.len(),
            plain_expected == group_views(plain_groups@).map_values(
                |group: Seq<String>| group.map_values(|name: String| name@),
            ),
            messages@.len() == i,
            forall|j: int|
                0 <= j < i ==> (#[trigger] messages@[j])@ == plain_join(plain_expected[j]),
    {
        let names = text::join(&plain_groups[i], ",");
        assert(texts(plain_groups@[i as int]@) == plain_expected[i as int]);
        messages.push(Message::plain(Command::JOIN(names, None)));
    }
    for i in 0..keyed_groups.len()
        invariant
            plain_groups@.len() == plain_expected.len(),
            keyed_groups@.len() == keyed_expected.len(),
            keyed_expected == group_views(keyed_groups@).map_values(
                |group: Seq<(String, String)>|
                    group.map_values(|pair: (String, String)| pair_text(pair)),
            ),
            messages@.len() == plain_expected.len() + i,
            forall|j: int|
                0 <= j < plain_expected.len() ==> (#[trigger] messages@[j])@ == plain_join(
                    plain_expected[j],
                ),
            forall|j: int|
                plain_expected.len() <= j < plain_expected.len() + i ==> (#[trigger] messages@[j])@
                    == keyed_join(keyed_expected[j - plain_expected.len()]),
    {
        let (names, passwords) = unzip(&keyed_groups[i]);
        assert(pair_texts(keyed_groups@[i as int]@) == keyed_expected[i as int]);
        messages.push(
            Message::plain(
                Command::JOIN(text::join(&names, ","), Some(text::join(&passwords, ","))),
            ),
        );
    }
    assert(message_views(messages@) =~= expected);
    messages
}

// ---------------------------------------------------------------------------
// Watching users

/// The room after which targets go in another `MONITOR`, each with a comma: what a line may have,
/// less `MONITOR +`, a space and the end of the line.
pub const MONITOR_LIMIT: u128 = 500;

/// The targets that are watched: as many as the server takes.
pub open spec fn watched(targets: Seq<Seq<char>>, target_limit: Option<u16>) -> Seq<Seq<char>> {
    match target_limit {
        Some(limit) => if limit < targets.len() {
            targets.take(limit as int)
        } else {
            targets
        },
        None => targets,
    }
}

/// The message that asks to watch users.
pub open spec fn watch(targets: Seq<Seq<char>>) -> MessageView {
    MessageView::plain(Command::MONITOR("+"@, Some(joined(targets, ","@))))
}

/// The messages that ask to watch users. The room is counted over all of them: where it reaches
/// the next multiple of the limit, a message begins.
pub open spec fn monitors(targets: Seq<Seq<char>>, target_limit: Option<u16>) -> Seq<MessageView> {
    let names = watched(targets, target_limit);
    divided(names, name_sizes(names), Rule::Running(MONITOR_LIMIT as nat)).map_values(
        |group: Seq<Seq<char>>| watch(group),
    )
}

/// The messages that ask to watch users, of no more users than the server takes.
pub fn group_monitors(targets: &Vec<String>, target_limit: Option<u16>) -> (messages: Vec<Message>)
    ensures
        message_views(messages@) == monitors(texts(targets@), target_limit),
{
    let count: usize = match target_limit {
        Some(limit) => if (limit as usize) < targets.len() {
            limit as usize
        } else {
            targets.len()
        },
        None => targets.len(),
    };
    let mut names: Vec<String> = Vec::new();
    for i in 0..count
        invariant
            count <= targets@.len(),
            names@.len() == i,
            forall|j: int| 0 <= j < i ==> #[trigger] names@[j]@ == targets@[j]@,
    {
        names.push(targets[i].clone());
    }
    let ghost expected_names = watched(texts(targets@), target_limit);
    assert(texts(names@) =~= expected_names);
    let sizes = sizes_of_names(&names);
    proof {
        lemma_divided_map(
            names@,
            name_sizes(expected_names),
            Rule::Running(MONITOR_LIMIT as nat),
            |name: String| name@,
        );
    }
    let numbers = running_numbers(&sizes, MONITOR_LIMIT);
    let groups = divide(
        names,
        &numbers,
        Ghost(name_sizes(expected_names)),
        Ghost(Rule::Running(MONITOR_LIMIT as nat)),
    );
    let ghost expected = divided(
        expected_names,
        name_sizes(expected_names),
        Rule::Running(MONITOR_LIMIT as nat),
    );
    let mut messages: Vec<Message> = Vec::new();
    for i in 0..groups.len()
        invariant
            groups@.len() == expected.len(),
            expected == group_views(groups@).map_values(
                |group: Seq<String>| group.map_values(|name: String| name@),
            ),
            messages@.len() == i,
            forall|j: int| 0 <= j < i ==> (#[trigger] messages@[j])@ == watch(expected[j]),
    {
        let names = text::join(&groups[i], ",");
        assert(texts(groups@[i as int]@) == expected[i as int]);
        messages.push(Message::plain(Command::MONITOR("+".to_owned(), Some(names))));
    }
    assert(message_views(messages@) =~= monitors(texts(targets@), target_limit));
    messages
}

// ---------------------------------------------------------------------------
// What holds of groups

/// Grouping loses nothing and keeps the order: the groups, put together, are the entries.
pub proof fn law_groups_hold_all<V>(entries: Seq<V>, sizes: Seq<nat>, rule: Rule)
    requires
        entries.len() == sizes.len(),
    ensures
        divided(entries, sizes, rule).flatten_alt() == entries,
    decreases entries.len(),
{
    let groups = divided(entries, sizes, rule);
    if entries.len() == 0 {
        assert(groups.flatten_alt() =~= entries);
    } else {
        let fewer = entries.drop_last();
        let before = divided(fewer, sizes.drop_last(), rule);
        law_groups_hold_all(fewer, sizes.drop_last(), rule);
        lemma_group_count(fewer, sizes.drop_last(), rule);
        assert(entries =~= fewer.push(entries.last()));
        if begins_group(sizes, rule) {
            assert(groups.drop_last() =~= before);
            assert(groups.flatten_alt() =~= entries);
        } else {
            assert(groups.drop_last() =~= before.drop_last());
            assert(before.drop_last().flatten_alt() + before.last() == fewer);
            assert(groups.flatten_alt() =~= entries);
        }
    }
}

/// The groups of sizes: the last takes the room that it takes, and each keeps to the limit unless
/// it has one entry alone.
proof fn lemma_rooms(sizes: Seq<nat>, limit: nat)
    ensures
        ({
            let groups = divided(sizes, sizes, Rule::Room(limit));
            &&& sizes.len() > 0 ==> groups.len() > 0 && total(groups.last()) == last_room(
                sizes,
                limit,
            )
            &&& forall|i: int|
                0 <= i < groups.len() ==> (#[trigger] groups[i]).len() > 0 && (groups[i].len() == 1
                    || total(groups[i]) <= limit)
        }),
    decreases sizes.len(),
{
    if sizes.len() > 0 {
        let fewer = sizes.drop_last();
        let before = divided(fewer, fewer, Rule::Room(limit));
        let groups = divided(sizes, sizes, Rule::Room(limit));
        lemma_rooms(fewer, limit);
        lemma_group_count(fewer, fewer, Rule::Room(limit));
        if begins_group(sizes, Rule::Room(limit)) {
            let alone = seq![sizes.last()];
            reveal_with_fuel(total, 2);
            assert(alone.drop_last() =~= Seq::<nat>::empty());
            assert(total(alone) == sizes.last());
        } else {
            let longer = before.last().push(sizes.last());
            assert(longer.drop_last() =~= before.last());
            assert(total(longer) == total(before.last()) + sizes.last());
        }
    }
}

/// No group is empty.
pub proof fn law_groups_not_empty<V>(entries: Seq<V>, sizes: Seq<nat>, rule: Rule, i: int)
    requires
        entries.len() == sizes.len(),
        0 <= i < divided(entries, sizes, rule).len(),
    ensures
        divided(entries, sizes, rule)[i].len() > 0,
    decreases entries.len(),
{
    if entries.len() > 0 {
        let before = divided(entries.drop_last(), sizes.drop_last(), rule);
        lemma_group_count(entries.drop_last(), sizes.drop_last(), rule);
        if i < before.len() && (begins_group(sizes, rule) || i < before.len() - 1) {
            law_groups_not_empty(entries.drop_last(), sizes.drop_last(), rule, i);
        }
    }
}

/// The room that a group takes, by the size of each entry.
pub open spec fn room_of<V>(group: Seq<V>, size: spec_fn(V) -> nat) -> nat {
    total(group.map_values(size))
}

/// A group of more than one entry keeps to the limit.
pub proof fn law_groups_fit<V>(entries: Seq<V>, size: spec_fn(V) -> nat, limit: nat, i: int)
    requires
        0 <= i < divided(entries, entries.map_values(size), Rule::Room(limit)).len(),
    ensures
        divided(entries, entries.map_values(size), Rule::Room(limit))[i].len() == 1 || room_of(
            divided(entries, entries.map_values(size), Rule::Room(limit))[i],
            size,
        ) <= limit,
{
    let sizes = entries.map_values(size);
    lemma_rooms(sizes, limit);
    lemma_divided_map(entries, sizes, Rule::Room(limit), size);
    let group = divided(entries, sizes, Rule::Room(limit))[i];
    assert(divided(sizes, sizes, Rule::Room(limit))[i] == group.map_values(size));
}

/// However sizes are divided in order so that each group keeps to the limit, there are more groups
/// than in [`divided`], or as many and the last takes no less room.
proof fn lemma_stays_ahead(sizes: Seq<nat>, limit: nat, other: Seq<Seq<nat>>)
    requires
        other.flatten_alt() == sizes,
        forall|i: int| 0 <= i < other.len() ==> total(#[trigger] other[i]) <= limit,
    ensures
        group_count(sizes, Rule::Room(limit)) <= other.len(),
        sizes.len() > 0 && group_count(sizes, Rule::Room(limit)) == other.len() ==> last_room(sizes, limit)
            <= total(other.last()),
    decreases sizes.len(), other.len(),
{
    if sizes.len() > 0 {
        assert(other.len() > 0);
        let others = other.drop_last();
        let last = other.last();
        assert(others.flatten_alt() + last == sizes);
        if last.len() == 0 {
            assert(others.flatten_alt() =~= sizes);
            lemma_stays_ahead(sizes, limit, others);
        } else {
            let fewer = sizes.drop_last();
            let shorter = others.push(last.drop_last());
            assert(shorter.drop_last() =~= others);
            assert(shorter.flatten_alt() =~= fewer) by {
                assert((others.flatten_alt() + last).drop_last() =~= others.flatten_alt()
                    + last.drop_last());
            }
            assert(last.last() == sizes.last());
            assert(total(last) == total(last.drop_last()) + sizes.last());
            assert forall|i: int| 0 <= i < shorter.len() implies total(#[trigger] shorter[i]) <= limit by {
                if i < others.len() {
                    assert(shorter[i] == other[i]);
                } else {
                    assert(total(other[other.len() - 1]) <= limit);
                }
            }
            lemma_stays_ahead(fewer, limit, shorter);
            assert(total(other[other.len() - 1]) <= limit);
            if sizes.len() == 1 {
                assert(fewer.len() == 0);
                assert(last_room(fewer, limit) == 0);
            }
        }
    }
}

/// The sizes of groups, put together, are the sizes of the groups put together.
proof fn lemma_flatten_map<V>(groups: Seq<Seq<V>>, size: spec_fn(V) -> nat)
    ensures
        groups.map_values(|group: Seq<V>| group.map_values(size)).flatten_alt()
            == groups.flatten_alt().map_values(size),
    decreases groups.len(),
{
    let after = groups.map_values(|group: Seq<V>| group.map_values(size));
    if groups.len() == 0 {
        assert(after.flatten_alt() =~= groups.flatten_alt().map_values(size));
    } else {
        lemma_flatten_map(groups.drop_last(), size);
        assert(after.drop_last() =~= groups.drop_last().map_values(
            |group: Seq<V>| group.map_values(size),
        ));
        assert(after.flatten_alt() =~= groups.flatten_alt().map_values(size));
    }
}

/// Groups are as few as possible: no division of the same entries in order, each group of which
/// keeps to the limit, has fewer groups.
pub proof fn law_fewest_groups<V>(
    entries: Seq<V>,
    size: spec_fn(V) -> nat,
    limit: nat,
    other: Seq<Seq<V>>,
)
    requires
        other.flatten_alt() == entries,
        forall|i: int| 0 <= i < other.len() ==> room_of(#[trigger] other[i], size) <= limit,
    ensures
        divided(entries, entries.map_values(size), Rule::Room(limit)).len() <= other.len(),
{
    let sizes = entries.map_values(size);
    let rooms = other.map_values(|group: Seq<V>| group.map_values(size));
    lemma_flatten_map(other, size);
    lemma_group_count(entries, sizes, Rule::Room(limit));
    assert forall|i: int| 0 <= i < rooms.len() implies total(#[trigger] rooms[i]) <= limit by {
        assert(room_of(other[i], size) <= limit);
    }
    lemma_stays_ahead(sizes, limit, rooms);
}

/// The number of groups is at most the number of multiples that were reached, and one.
proof fn lemma_running_count(sizes: Seq<nat>, limit: nat)
    requires
        limit > 0,
    ensures
        group_count(sizes, Rule::Running(limit)) <= total(sizes) / limit + 1,
        sizes.len() == 0 ==> group_count(sizes, Rule::Running(limit)) == 0,
    decreases sizes.len(),
{
    if sizes.len() > 0 {
        let before = total(sizes.drop_last());
        lemma_running_count(sizes.drop_last(), limit);
        vstd::arithmetic::div_mod::lemma_div_is_ordered(
            before as int,
            total(sizes) as int,
            limit as int,
        );
    } else {
        vstd::arithmetic::div_mod::lemma_div_pos_is_pos(0, limit as int);
    }
}

/// Groups with less room than a limit each take less room together than the limit as often.
proof fn lemma_total_below(groups: Seq<Seq<nat>>, limit: nat)
    requires
        forall|i: int| 0 <= i < groups.len() ==> total(#[trigger] groups[i]) < limit,
    ensures
        total(groups.flatten_alt()) <= groups.len() * limit,
        groups.len() > 0 ==> total(groups.flatten_alt()) < groups.len() * limit,
    decreases groups.len(),
{
    if groups.len() > 0 {
        let others = groups.drop_last();
        assert forall|i: int| 0 <= i < others.len() implies total(#[trigger] others[i]) < limit by {
            assert(others[i] == groups[i]);
        }
        lemma_total_below(others, limit);
        lemma_total_concat(others.flatten_alt(), groups.last());
        assert(total(groups[groups.len() - 1]) < limit);
        assert((groups.len() - 1) * limit + limit == groups.len() * limit) by (nonlinear_arith);
    }
}

proof fn lemma_total_concat(a: Seq<nat>, b: Seq<nat>)
    ensures
        total(a + b) == total(a) + total(b),
    decreases b.len(),
{
    if b.len() == 0 {
        assert(a + b =~= a);
    } else {
        lemma_total_concat(a, b.drop_last());
        assert((a + b).drop_last() =~= a + b.drop_last());
    }
}

/// Groups that begin at the multiples of a limit are as few as possible: no division of the same
/// entries, each group of which has less room than the limit, has fewer groups.
pub proof fn law_fewest_running_groups<V>(
    entries: Seq<V>,
    size: spec_fn(V) -> nat,
    limit: nat,
    other: Seq<Seq<V>>,
)
    requires
        other.flatten_alt() == entries,
        forall|i: int| 0 <= i < other.len() ==> room_of(#[trigger] other[i], size) < limit,
        limit > 0,
    ensures
        divided(entries, entries.map_values(size), Rule::Running(limit)).len() <= other.len(),
{
    let sizes = entries.map_values(size);
    let rooms = other.map_values(|group: Seq<V>| group.map_values(size));
    lemma_flatten_map(other, size);
    lemma_group_count(entries, sizes, Rule::Running(limit));
    assert forall|i: int| 0 <= i < rooms.len() implies total(#[trigger] rooms[i]) < limit by {
        assert(room_of(other[i], size) < limit);
    }
    lemma_total_below(rooms, limit);
    lemma_running_count(sizes, limit);
    if entries.len() > 0 {
        assert(other.len() > 0);
        let sum = total(sizes);
        let count = other.len();
        assert(sum / limit < count) by (nonlinear_arith)
            requires
                sum < count * limit,
                limit > 0,
        ;
    }
}

/// The groups of sizes that begin at the multiples of a limit: after its first entry, each has
/// less room than the limit. `first` is the room of all entries up to the first of the last group.
proof fn lemma_running_rooms(sizes: Seq<nat>, limit: nat) -> (first: nat)
    requires
        limit > 0,
    ensures
        ({
            let groups = divided(sizes, sizes, Rule::Running(limit));
            &&& sizes.len() > 0 ==> {
                &&& groups.len() > 0
                &&& groups.last().len() > 0
                &&& first / limit == total(sizes) / limit
                &&& first + total(groups.last().skip(1)) == total(sizes)
            }
            &&& forall|i: int| 0 <= i < groups.len() ==> total((#[trigger] groups[i]).skip(1)) < limit
        }),
    decreases sizes.len(),
{
    if sizes.len() == 0 {
        0
    } else {
        let fewer = sizes.drop_last();
        let before = divided(fewer, fewer, Rule::Running(limit));
        let groups = divided(sizes, sizes, Rule::Running(limit));
        let first = lemma_running_rooms(fewer, limit);
        lemma_group_count(fewer, fewer, Rule::Running(limit));
        if begins_group(sizes, Rule::Running(limit)) {
            assert(groups.last().skip(1) =~= Seq::<nat>::empty());
            total(sizes)
        } else {
            let last = before.last();
            let longer = last.push(sizes.last());
            let sum = total(sizes);
            assert(longer.skip(1).drop_last() =~= last.skip(1));
            assert(longer.skip(1).last() == sizes.last());
            assert(sum - first < limit) by (nonlinear_arith)
                requires
                    first / limit == sum / limit,
                    limit > 0,
            ;
            first
        }
    }
}

/// All that a group holds after its first entry takes less room than the limit, where groups begin
/// at its multiples.
pub proof fn law_running_groups_fit_after_first<V>(
    entries: Seq<V>,
    size: spec_fn(V) -> nat,
    limit: nat,
    i: int,
)
    requires
        limit > 0,
        0 <= i < divided(entries, entries.map_values(size), Rule::Running(limit)).len(),
    ensures
        room_of(
            divided(entries, entries.map_values(size), Rule::Running(limit))[i].skip(1),
            size,
        ) < limit,
{
    let sizes = entries.map_values(size);
    let group = divided(entries, sizes, Rule::Running(limit))[i];
    let first = lemma_running_rooms(sizes, limit);
    lemma_divided_map(entries, sizes, Rule::Running(limit), size);
    assert(divided(sizes, sizes, Rule::Running(limit))[i] == group.map_values(size));
    law_groups_not_empty(entries, sizes, Rule::Running(limit), i);
    assert(group.skip(1).map_values(size) =~= group.map_values(size).skip(1));
}

// ---------------------------------------------------------------------------
// What holds of the messages

/// The line of a `JOIN`, with its end.
pub open spec fn join_line(channels: Seq<char>, keys: Option<Seq<char>>) -> Seq<char> {
    match keys {
        Some(keys) => "JOIN "@ + channels + " "@ + keys + "\r\n"@,
        None => "JOIN "@ + channels + "\r\n"@,
    }
}

/// Whether a line has no more bytes than a line may have.
pub open spec fn fits(line: Seq<char>) -> bool {
    byte_len(line) <= BYTE_LIMIT
}

/// The room that a name takes.
pub open spec fn name_size() -> spec_fn(Seq<char>) -> nat {
    |name: Seq<char>| byte_len(name) + 1
}

/// The room that a channel with its key takes.
pub open spec fn pair_size() -> spec_fn((Seq<char>, Seq<char>)) -> nat {
    |pair: (Seq<char>, Seq<char>)| byte_len(pair.0) + byte_len(pair.1) + 2
}

/// The bytes of names with commas between them.
proof fn lemma_joined_len(names: Seq<Seq<char>>)
    ensures
        names.len() > 0 ==> byte_len(joined(names, ","@)) + 1 == total(name_sizes(names)),
        names.len() == 0 ==> byte_len(joined(names, ","@)) == 0,
    decreases names.len(),
{
    let sizes = name_sizes(names);
    if names.len() > 0 {
        let fewer = names.drop_last();
        lemma_joined_len(fewer);
        assert(sizes.drop_last() =~= name_sizes(fewer));
        if names.len() == 1 {
            reveal_with_fuel(total, 2);
        } else {
            reveal_strlit(",");
            text::lemma_ascii_len(","@);
            text::lemma_byte_len_concat(joined(fewer, ","@), ","@);
            text::lemma_byte_len_concat(joined(fewer, ","@) + ","@, names.last());
        }
    }
}

/// The bytes of channels with commas between them, and of their keys.
proof fn lemma_joined_pairs_len(pairs: Seq<(Seq<char>, Seq<char>)>)
    requires
        pairs.len() > 0,
    ensures
        byte_len(joined(firsts(pairs), ","@)) + byte_len(joined(seconds(pairs), ","@)) + 2 == total(
            pair_sizes(pairs),
        ),
{
    lemma_joined_len(firsts(pairs));
    lemma_joined_len(seconds(pairs));
    lemma_pair_totals(pairs);
}

proof fn lemma_pair_totals(pairs: Seq<(Seq<char>, Seq<char>)>)
    ensures
        total(pair_sizes(pairs)) == total(name_sizes(firsts(pairs))) + total(
            name_sizes(seconds(pairs)),
        ),
    decreases pairs.len(),
{
    if pairs.len() > 0 {
        let fewer = pairs.drop_last();
        lemma_pair_totals(fewer);
        assert(pair_sizes(pairs).drop_last() =~= pair_sizes(fewer));
        assert(name_sizes(firsts(pairs)).drop_last() =~= name_sizes(firsts(fewer)));
        assert(name_sizes(seconds(pairs)).drop_last() =~= name_sizes(seconds(fewer)));
    }
}

/// The bytes of the line of a `JOIN`.
proof fn lemma_join_line_len(channels: Seq<char>, keys: Option<Seq<char>>)
    ensures
        byte_len(join_line(channels, keys)) == (match keys {
            Some(keys) => 8 + byte_len(channels) + byte_len(keys),
            None => 7 + byte_len(channels),
        }),
{
    reveal_strlit("JOIN ");
    reveal_strlit("\r\n");
    reveal_strlit(" ");
    text::lemma_ascii_len("JOIN "@);
    text::lemma_ascii_len("\r\n"@);
    text::lemma_ascii_len(" "@);
    let head = "JOIN "@ + channels;
    text::lemma_byte_len_concat("JOIN "@, channels);
    match keys {
        Some(keys) => {
            text::lemma_byte_len_concat(head, " "@);
            text::lemma_byte_len_concat(head + " "@, keys);
            text::lemma_byte_len_concat(head + " "@ + keys, "\r\n"@);
        },
        None => {
            text::lemma_byte_len_concat(head, "\r\n"@);
        },
    }
}

/// A message of channels fits where the room that they take keeps to the limit, and only there.
proof fn lemma_plain_fits(group: Seq<Seq<char>>)
    ensures
        group.len() > 0 ==> (fits(join_line(joined(group, ","@), None)) <==> room_of(
            group,
            name_size(),
        ) <= JOIN_LIMIT),
        fits(join_line(joined(group, ","@), None)) ==> room_of(group, name_size()) <= JOIN_LIMIT,
{
    lemma_joined_len(group);
    lemma_join_line_len(joined(group, ","@), None);
    assert(name_sizes(group) =~= group.map_values(name_size()));
}

/// A message of channels with their keys fits where the room that they take keeps to the limit,
/// and only there.
proof fn lemma_keyed_fits(group: Seq<(Seq<char>, Seq<char>)>)
    ensures
        group.len() > 0 ==> (fits(
            join_line(joined(firsts(group), ","@), Some(joined(seconds(group), ","@))),
        ) <==> room_of(group, pair_size()) <= JOIN_LIMIT),
        fits(join_line(joined(firsts(group), ","@), Some(joined(seconds(group), ","@))))
            ==> room_of(group, pair_size()) <= JOIN_LIMIT,
{
    if group.len() > 0 {
        lemma_joined_pairs_len(group);
    }
    lemma_join_line_len(joined(firsts(group), ","@), Some(joined(seconds(group), ","@)));
    assert(pair_sizes(group) =~= group.map_values(pair_size()));
}

/// The members of the groups are entries.
proof fn lemma_member<V>(entries: Seq<V>, sizes: Seq<nat>, rule: Rule, i: int, j: int)
    requires
        entries.len() == sizes.len(),
        0 <= i < divided(entries, sizes, rule).len(),
        0 <= j < divided(entries, sizes, rule)[i].len(),
    ensures
        entries.contains(divided(entries, sizes, rule)[i][j]),
    decreases entries.len(),
{
    if entries.len() > 0 {
        let fewer = entries.drop_last();
        let before = divided(fewer, sizes.drop_last(), rule);
        let member = divided(entries, sizes, rule)[i][j];
        lemma_group_count(fewer, sizes.drop_last(), rule);
        assert(entries[entries.len() - 1] == entries.last());
        if i < before.len() && j < before[i].len() {
            lemma_member(fewer, sizes.drop_last(), rule, i, j);
            assert(before[i][j] == member);
            let k = fewer.index_of(member);
            assert(entries[k] == member);
        }
    }
}

/// Whether a channel, with its key if it has one, fits in a message alone.
pub open spec fn fits_alone(channel: Seq<char>, keys: Map<Seq<char>, Seq<char>>) -> bool {
    fits(
        join_line(
            channel,
            if keys.contains_key(channel) {
                Some(keys[channel])
            } else {
                None
            },
        ),
    )
}

proof fn lemma_without_key_member(channels: Seq<Seq<char>>, keys: Map<Seq<char>, Seq<char>>, name: Seq<char>)
    requires
        without_key(channels, keys).contains(name),
    ensures
        channels.contains(name),
        !keys.contains_key(name),
    decreases channels.len(),
{
    if channels.len() > 0 {
        let rest = without_key(channels.drop_last(), keys);
        let i = without_key(channels, keys).index_of(name);
        if i < rest.len() {
            assert(rest[i] == name);
            lemma_without_key_member(channels.drop_last(), keys, name);
            let j = channels.drop_last().index_of(name);
            assert(channels[j] == name);
        } else {
            assert(channels[channels.len() - 1] == name);
        }
    }
}

proof fn lemma_with_key_member(
    channels: Seq<Seq<char>>,
    keys: Map<Seq<char>, Seq<char>>,
    pair: (Seq<char>, Seq<char>),
)
    requires
        with_key(channels, keys).contains(pair),
    ensures
        channels.contains(pair.0),
        keys.contains_key(pair.0),
        keys[pair.0] == pair.1,
    decreases channels.len(),
{
    if channels.len() > 0 {
        let rest = with_key(channels.drop_last(), keys);
        let i = with_key(channels, keys).index_of(pair);
        if i < rest.len() {
            assert(rest[i] == pair);
            lemma_with_key_member(channels.drop_last(), keys, pair);
            let j = channels.drop_last().index_of(pair.0);
            assert(channels[j] == pair.0);
        } else {
            assert(channels[channels.len() - 1] == pair.0);
        }
    }
}

/// Where each channel, with its key if it has one, fits in a message alone, every message that
/// joins channels has no more bytes than a line may have.
pub proof fn law_joins_fit(channels: Seq<Seq<char>>, keys: Map<Seq<char>, Seq<char>>, i: int)
    requires
        forall|j: int| 0 <= j < channels.len() ==> fits_alone(#[trigger] channels[j], keys),
        0 <= i < joins(channels, keys).len(),
    ensures
        joins(channels, keys)[i].tags.len() == 0,
        joins(channels, keys)[i].command is JOIN,
        fits(
            join_line(
                joins(channels, keys)[i].command->JOIN_0,
                joins(channels, keys)[i].command->JOIN_1,
            ),
        ),
{
    let plain = without_key(channels, keys);
    let keyed = with_key(channels, keys);
    let limit = JOIN_LIMIT as nat;
    assert(name_sizes(plain) =~= plain.map_values(name_size()));
    assert(pair_sizes(keyed) =~= keyed.map_values(pair_size()));
    let plain_groups = divided(plain, name_sizes(plain), Rule::Room(limit));
    let keyed_groups = divided(keyed, pair_sizes(keyed), Rule::Room(limit));
    if i < plain_groups.len() {
        let group = plain_groups[i];
        law_groups_not_empty(plain, name_sizes(plain), Rule::Room(limit), i);
        law_groups_fit(plain, name_size(), limit, i);
        lemma_plain_fits(group);
        if group.len() == 1 {
            lemma_member(plain, name_sizes(plain), Rule::Room(limit), i, 0);
            lemma_without_key_member(channels, keys, group[0]);
            assert(fits_alone(channels[channels.index_of(group[0])], keys));
            assert(joined(group, ","@) == group[0]);
        }
    } else {
        let k = i - plain_groups.len();
        let group = keyed_groups[k];
        law_groups_not_empty(keyed, pair_sizes(keyed), Rule::Room(limit), k);
        law_groups_fit(keyed, pair_size(), limit, k);
        lemma_keyed_fits(group);
        if group.len() == 1 {
            lemma_member(keyed, pair_sizes(keyed), Rule::Room(limit), k, 0);
            lemma_with_key_member(channels, keys, group[0]);
            assert(fits_alone(channels[channels.index_of(group[0].0)], keys));
            assert(joined(firsts(group), ","@) == group[0].0);
            assert(joined(seconds(group), ","@) == group[0].1);
        }
    }
}

/// Channels are joined by as few messages as possible: no grouping in order of those without a key
/// and, apart from them, of those with one, into messages that fit, has fewer messages.
pub proof fn law_fewest_joins(
    channels: Seq<Seq<char>>,
    keys: Map<Seq<char>, Seq<char>>,
    plain: Seq<Seq<Seq<char>>>,
    keyed: Seq<Seq<(Seq<char>, Seq<char>)>>,
)
    requires
        plain.flatten_alt() == without_key(channels, keys),
        keyed.flatten_alt() == with_key(channels, keys),
        forall|i: int|
            0 <= i < plain.len() ==> fits(join_line(joined(#[trigger] plain[i], ","@), None)),
        forall|i: int|
            0 <= i < keyed.len() ==> fits(
                join_line(
                    joined(firsts(#[trigger] keyed[i]), ","@),
                    Some(joined(seconds(keyed[i]), ","@)),
                ),
            ),
    ensures
        joins(channels, keys).len() <= plain.len() + keyed.len(),
{
    let limit = JOIN_LIMIT as nat;
    let names = without_key(channels, keys);
    let pairs = with_key(channels, keys);
    assert forall|i: int| 0 <= i < plain.len() implies room_of(#[trigger] plain[i], name_size())
        <= limit by {
        lemma_plain_fits(plain[i]);
    }
    assert forall|i: int| 0 <= i < keyed.len() implies room_of(#[trigger] keyed[i], pair_size())
        <= limit by {
        lemma_keyed_fits(keyed[i]);
    }
    assert(name_sizes(names) =~= names.map_values(name_size()));
    assert(pair_sizes(pairs) =~= pairs.map_values(pair_size()));
    law_fewest_groups(names, name_size(), limit, plain);
    law_fewest_groups(pairs, pair_size(), limit, keyed);
}

/// The users that messages ask to watch, one message after the other, are those that are watched,
/// in order.
pub proof fn law_monitors_hold_all(targets: Seq<Seq<char>>, target_limit: Option<u16>)
    ensures
        ({
            let names = watched(targets, target_limit);
            let groups = divided(names, name_sizes(names), Rule::Running(MONITOR_LIMIT as nat));
            &&& groups.flatten_alt() == names
            &&& monitors(targets, target_limit) == groups.map_values(
                |group: Seq<Seq<char>>| watch(group),
            )
        }),
{
    let names = watched(targets, target_limit);
    law_groups_hold_all(names, name_sizes(names), Rule::Running(MONITOR_LIMIT as nat));
}

/// Users are watched by as few messages as possible, where each message has less room than the
/// limit.
pub proof fn law_fewest_monitors(
    targets: Seq<Seq<char>>,
    target_limit: Option<u16>,
    other: Seq<Seq<Seq<char>>>,
)
    requires
        other.flatten_alt() == watched(targets, target_limit),
        forall|i: int|
            0 <= i < other.len() ==> room_of(#[trigger] other[i], name_size()) < MONITOR_LIMIT,
    ensures
        monitors(targets, target_limit).len() <= other.len(),
{
    let names = watched(targets, target_limit);
    assert(name_sizes(names) =~= names.map_values(name_size()));
    law_fewest_running_groups(names, name_size(), MONITOR_LIMIT as nat, other);
}

/// One channel is joined by one message, with its key if it has one.
pub proof fn law_one_join(channel: Seq<char>, keys: Map<Seq<char>, Seq<char>>)
    ensures
        joins(seq![channel], keys) == seq![
            MessageView::plain(
                Command::JOIN(
                    channel,
                    if keys.contains_key(channel) {
                        Some(keys[channel])
                    } else {
                        None
                    },
                ),
            ),
        ],
{
    let channels = seq![channel];
    let plain = without_key(channels, keys);
    let keyed = with_key(channels, keys);
    let limit = JOIN_LIMIT as nat;
    reveal_with_fuel(divided, 2);
    assert(channels.drop_last() =~= Seq::<Seq<char>>::empty());
    assert(without_key(channels.drop_last(), keys) =~= Seq::<Seq<char>>::empty());
    assert(with_key(channels.drop_last(), keys) =~= Seq::<(Seq<char>, Seq<char>)>::empty());
    if keys.contains_key(channel) {
        let pair = (channel, keys[channel]);
        assert(keyed =~= seq![pair]);
        assert(keyed.drop_last() =~= Seq::<(Seq<char>, Seq<char>)>::empty());
        assert(divided(keyed, pair_sizes(keyed), Rule::Room(limit)) =~= seq![seq![pair]]);
        assert(firsts(seq![pair]) =~= seq![channel]);
        assert(seconds(seq![pair]) =~= seq![keys[channel]]);
        assert(divided(plain, name_sizes(plain), Rule::Room(limit)) =~= Seq::<Seq<Seq<char>>>::empty());
    } else {
        assert(plain =~= seq![channel]);
        assert(plain.drop_last() =~= Seq::<Seq<char>>::empty());
        assert(divided(plain, name_sizes(plain), Rule::Room(limit)) =~= seq![seq![channel]]);
        assert(divided(keyed, pair_sizes(keyed), Rule::Room(limit))
            =~= Seq::<Seq<(Seq<char>, Seq<char>)>>::empty());
    }
    assert(joins(channels, keys) =~= seq![
        MessageView::plain(
            Command::JOIN(
                channel,
                if keys.contains_key(channel) {
                    Some(keys[channel])
                } else {
                    None
                },
            ),
        ),
    ]);
}

/// Each channel is joined once: those without a key and those with one, taken together, are the
/// channels, each as often as it was given.
pub proof fn law_joins_cover(channels: Seq<Seq<char>>, keys: Map<Seq<char>, Seq<char>>)
    ensures
        without_key(channels, keys).to_multiset().add(firsts(with_key(channels, keys)).to_multiset())
            == channels.to_multiset(),
    decreases channels.len(),
{
    broadcast use vstd::seq_lib::group_to_multiset_ensures;

    let plain = without_key(channels, keys);
    let keyed = firsts(with_key(channels, keys));
    if channels.len() == 0 {
        assert(keyed =~= Seq::<Seq<char>>::empty());
        assert(channels =~= Seq::<Seq<char>>::empty());
        assert(plain.to_multiset().add(keyed.to_multiset()) =~= channels.to_multiset());
    } else {
        let fewer = channels.drop_last();
        let last = channels.last();
        law_joins_cover(fewer, keys);
        assert(channels =~= fewer.push(last));
        if keys.contains_key(last) {
            assert(keyed =~= firsts(with_key(fewer, keys)).push(last));
        }
        assert(plain.to_multiset().add(keyed.to_multiset()) =~= channels.to_multiset());
    }
}

/// A key goes with the channel that it is of.
pub proof fn law_keys_go_with_channels(channels: Seq<Seq<char>>, keys: Map<Seq<char>, Seq<char>>, i: int)
    requires
        0 <= i < with_key(channels, keys).len(),
    ensures
        keys.contains_key(with_key(channels, keys)[i].0),
        with_key(channels, keys)[i].1 == keys[with_key(channels, keys)[i].0],
    decreases channels.len(),
{
    let rest = with_key(channels.drop_last(), keys);
    if i < rest.len() {
        law_keys_go_with_channels(channels.drop_last(), keys, i);
    }
}

/// No more users are watched than the server takes, and the first ones that were set are.
pub proof fn law_watched_within_limit(targets: Seq<Seq<char>>, limit: u16)
    ensures
        watched(targets, Some(limit)).len() <= limit,
        watched(targets, Some(limit)).is_prefix_of(targets),
        watched(targets, None) == targets,
{
}

/// The channels that have no key, or those that have one, by a filter.
proof fn lemma_by_key(channels: Seq<Seq<char>>, keys: Map<Seq<char>, Seq<char>>)
    ensures
        without_key(channels, keys) == channels.filter(
            |channel: Seq<char>| !keys.contains_key(channel),
        ),
        firsts(with_key(channels, keys)) == channels.filter(
            |channel: Seq<char>| keys.contains_key(channel),
        ),
        with_key(channels, keys) == firsts(with_key(channels, keys)).map_values(
            |channel: Seq<char>| (channel, keys[channel]),
        ),
    decreases channels.len(),
{
    let plain = |channel: Seq<char>| !keys.contains_key(channel);
    let keyed = |channel: Seq<char>| keys.contains_key(channel);
    let paired = |channel: Seq<char>| (channel, keys[channel]);
    reveal(Seq::filter);
    if channels.len() == 0 {
        assert(without_key(channels, keys) =~= channels.filter(plain));
        assert(firsts(with_key(channels, keys)) =~= channels.filter(keyed));
        assert(with_key(channels, keys) =~= firsts(with_key(channels, keys)).map_values(paired));
    } else {
        let fewer = channels.drop_last();
        let last = channels.last();
        lemma_by_key(fewer, keys);
        let pairs = with_key(fewer, keys);
        assert(channels.filter(plain) == if plain(last) {
            fewer.filter(plain).push(last)
        } else {
            fewer.filter(plain)
        });
        assert(channels.filter(keyed) == if keyed(last) {
            fewer.filter(keyed).push(last)
        } else {
            fewer.filter(keyed)
        });
        if keys.contains_key(last) {
            assert(firsts(pairs.push((last, keys[last]))) =~= firsts(pairs).push(last));
        }
        assert(with_key(channels, keys) =~= firsts(with_key(channels, keys)).map_values(paired));
    }
}

/// The first parts of groups of pairs, put together.
proof fn lemma_flatten_firsts(groups: Seq<Seq<(Seq<char>, Seq<char>)>>)
    ensures
        groups.map_values(|group: Seq<(Seq<char>, Seq<char>)>| firsts(group)).flatten_alt()
            == firsts(groups.flatten_alt()),
    decreases groups.len(),
{
    let after = groups.map_values(|group: Seq<(Seq<char>, Seq<char>)>| firsts(group));
    if groups.len() == 0 {
        assert(after.flatten_alt() =~= firsts(groups.flatten_alt()));
    } else {
        lemma_flatten_firsts(groups.drop_last());
        assert(after.drop_last() =~= groups.drop_last().map_values(
            |group: Seq<(Seq<char>, Seq<char>)>| firsts(group),
        ));
        assert(after.flatten_alt() =~= firsts(groups.flatten_alt()));
    }
}

/// The messages that join channels name every channel that has no key, in order, and then every
/// channel that has one, in order, with its key; nothing else. `groups` are the channels of each
/// message, first those without a key.
pub proof fn law_joins_name_all(channels: Seq<Seq<char>>, keys: Map<Seq<char>, Seq<char>>) -> (groups: (
    Seq<Seq<Seq<char>>>,
    Seq<Seq<Seq<char>>>,
))
    ensures
        ({
            let (plain, keyed) = groups;
            let messages = joins(channels, keys);
            &&& plain.flatten_alt() == channels.filter(
                |channel: Seq<char>| !keys.contains_key(channel),
            )
            &&& keyed.flatten_alt() == channels.filter(
                |channel: Seq<char>| keys.contains_key(channel),
            )
            &&& messages.len() == plain.len() + keyed.len()
            &&& forall|i: int|
                0 <= i < plain.len() ==> plain[i].len() > 0 && #[trigger] messages[i] == (MessageView {
                    tags: Seq::empty(),
                    command: Command::JOIN(joined(plain[i], ","@), None),
                })
            &&& forall|i: int|
                plain.len() <= i < messages.len() ==> {
                    let group = keyed[i - plain.len()];
                    group.len() > 0 && #[trigger] messages[i] == (MessageView {
                        tags: Seq::empty(),
                        command: Command::JOIN(
                            joined(group, ","@),
                            Some(
                                joined(
                                    group.map_values(|channel: Seq<char>| keys[channel]),
                                    ","@,
                                ),
                            ),
                        ),
                    })
                }
        }),
{
    let rule = Rule::Room(JOIN_LIMIT as nat);
    let names = without_key(channels, keys);
    let pairs = with_key(channels, keys);
    let plain = divided(names, name_sizes(names), rule);
    let groups = divided(pairs, pair_sizes(pairs), rule);
    let keyed = groups.map_values(|group: Seq<(Seq<char>, Seq<char>)>| firsts(group));
    let messages = joins(channels, keys);
    lemma_by_key(channels, keys);
    law_groups_hold_all(names, name_sizes(names), rule);
    law_groups_hold_all(pairs, pair_sizes(pairs), rule);
    lemma_flatten_firsts(groups);
    assert forall|i: int| 0 <= i < plain.len() implies plain[i].len() > 0 && #[trigger] messages[i] == (
    MessageView {
        tags: Seq::empty(),
        command: Command::JOIN(joined(plain[i], ","@), None),
    }) by {
        law_groups_not_empty(names, name_sizes(names), rule, i);
    }
    assert forall|i: int| plain.len() <= i < messages.len() implies ({
        let group = keyed[i - plain.len()];
        group.len() > 0 && #[trigger] messages[i] == (MessageView {
            tags: Seq::empty(),
            command: Command::JOIN(
                joined(group, ","@),
                Some(joined(group.map_values(|channel: Seq<char>| keys[channel]), ","@)),
            ),
        })
    }) by {
        let k = i - plain.len();
        let group = groups[k];
        law_groups_not_empty(pairs, pair_sizes(pairs), rule, k);
        let secrets = keyed[k].map_values(|channel: Seq<char>| keys[channel]);
        assert forall|j: int| 0 <= j < group.len() implies secrets[j] == seconds(group)[j] by {
            lemma_member(pairs, pair_sizes(pairs), rule, k, j);
            lemma_with_key_member(channels, keys, group[j]);
        }
        assert(secrets =~= seconds(group));
    }
    (plain, keyed)
}

/// A channel that is to be joined is named in a message that joins channels.
pub proof fn law_every_channel_is_joined(
    channels: Seq<Seq<char>>,
    keys: Map<Seq<char>, Seq<char>>,
    channel: Seq<char>,
) -> (found: (int, Seq<Seq<char>>))
    requires
        channels.contains(channel),
    ensures
        ({
            let (i, group) = found;
            let messages = joins(channels, keys);
            &&& 0 <= i < messages.len()
            &&& group.contains(channel)
            &&& messages[i].tags.len() == 0
            &&& messages[i].command is JOIN
            &&& messages[i].command->JOIN_0 == joined(group, ","@)
            &&& messages[i].command->JOIN_1 is Some <==> keys.contains_key(channel)
        }),
{
    let (plain, keyed) = law_joins_name_all(channels, keys);
    let keep = if keys.contains_key(channel) {
        |channel: Seq<char>| keys.contains_key(channel)
    } else {
        |channel: Seq<char>| !keys.contains_key(channel)
    };
    let groups = if keys.contains_key(channel) {
        keyed
    } else {
        plain
    };
    lemma_filter_keeps(channels, keep, channel);
    let k = lemma_flatten_member(groups, channel);
    if keys.contains_key(channel) {
        let i = plain.len() + k;
        assert(joins(channels, keys)[i].command is JOIN);
        (i, keyed[k])
    } else {
        assert(joins(channels, keys)[k].command is JOIN);
        (k, plain[k])
    }
}

proof fn lemma_filter_keeps(list: Seq<Seq<char>>, keep: spec_fn(Seq<char>) -> bool, member: Seq<char>)
    requires
        list.contains(member),
        keep(member),
    ensures
        list.filter(keep).contains(member),
    decreases list.len(),
{
    reveal(Seq::filter);
    let fewer = list.drop_last();
    let i = list.index_of(member);
    if i == list.len() - 1 {
        assert(list.filter(keep).last() == member);
    } else {
        assert(fewer[i] == member);
        lemma_filter_keeps(fewer, keep, member);
        let j = fewer.filter(keep).index_of(member);
        assert(list.filter(keep)[j] == member);
    }
}

proof fn lemma_flatten_member(groups: Seq<Seq<Seq<char>>>, member: Seq<char>) -> (k: int)
    requires
        groups.flatten_alt().contains(member),
    ensures
        0 <= k < groups.len(),
        groups[k].contains(member),
    decreases groups.len(),
{
    let whole = groups.flatten_alt();
    let i = whole.index_of(member);
    let rest = groups.drop_last().flatten_alt();
    assert(whole == rest + groups.last());
    if i < rest.len() {
        assert(rest[i] == member);
        lemma_flatten_member(groups.drop_last(), member)
    } else {
        assert(groups.last()[i - rest.len()] == member);
        groups.len() - 1
    }
}

/// The messages that ask to watch users name the first users that were set, as many as the server
/// takes, in order; nothing else. `groups` are the users of each message.
pub proof fn law_monitors_name_all(targets: Seq<Seq<char>>, target_limit: Option<u16>) -> (groups: Seq<
    Seq<Seq<char>>,
>)
    ensures
        ({
            let messages = monitors(targets, target_limit);
            &&& groups.flatten_alt() == if target_limit is Some && target_limit->0 < targets.len() {
                targets.take(target_limit->0 as int)
            } else {
                targets
            }
            &&& messages.len() == groups.len()
            &&& forall|i: int|
                0 <= i < groups.len() ==> groups[i].len() > 0 && #[trigger] messages[i] == (
                MessageView {
                    tags: Seq::empty(),
                    command: Command::MONITOR("+"@, Some(joined(groups[i], ","@))),
                })
        }),
{
    let names = watched(targets, target_limit);
    let rule = Rule::Running(MONITOR_LIMIT as nat);
    let groups = divided(names, name_sizes(names), rule);
    law_groups_hold_all(names, name_sizes(names), rule);
    assert forall|i: int| 0 <= i < groups.len() implies groups[i].len() > 0 && #[trigger] monitors(
        targets,
        target_limit,
    )[i] == (MessageView {
        tags: Seq::empty(),
        command: Command::MONITOR("+"@, Some(joined(groups[i], ","@))),
    }) by {
        law_groups_not_empty(names, name_sizes(names), rule, i);
    }
    groups
}

/// One user more to watch begins a message where the bytes of all users, each with a comma, reach
/// the next multiple of 500 with it; otherwise the last message names it too. The other messages
/// stay.
pub proof fn law_one_more_to_watch(targets: Seq<Seq<char>>, target: Seq<char>)
    ensures
        ({
            let before = monitors(targets, None);
            let after = monitors(targets.push(target), None);
            let room = byte_len(joined(targets, ","@)) + 1;
            let more = byte_len(joined(targets.push(target), ","@)) + 1;
            let alone = MessageView {
                tags: Seq::empty(),
                command: Command::MONITOR("+"@, Some(target)),
            };
            if targets.len() == 0 || room / 500 != more / 500 {
                after == before.push(alone)
            } else {
                &&& before.len() > 0
                &&& after.len() == before.len()
                &&& after.drop_last() == before.drop_last()
                &&& after.last().command is MONITOR
                &&& after.last().command->MONITOR_1 == Some(
                    before.last().command->MONITOR_1->0 + ","@ + target,
                )
            }
        }),
{
    let rule = Rule::Running(MONITOR_LIMIT as nat);
    let longer = targets.push(target);
    let sizes = name_sizes(longer);
    lemma_joined_len(targets);
    lemma_joined_len(longer);
    lemma_group_count(targets, name_sizes(targets), rule);
    assert(longer.drop_last() =~= targets);
    assert(sizes.drop_last() =~= name_sizes(targets));
    let groups = divided(targets, name_sizes(targets), rule);
    let more = divided(longer, sizes, rule);
    let before = monitors(targets, None);
    let after = monitors(longer, None);
    if begins_group(sizes, rule) {
        assert(more == groups.push(seq![target]));
        assert(joined(seq![target], ","@) == target);
        assert(after =~= before.push(watch(seq![target])));
    } else {
        law_groups_not_empty(targets, name_sizes(targets), rule, groups.len() - 1);
        text::law_joining_one_more(groups.last(), target, ","@);
        assert(after.drop_last() =~= before.drop_last());
    }
}

} // verus!
