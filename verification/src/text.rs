//! Text: the order of strings, taking them apart and putting them together.

use itertools::Itertools;
use vstd::prelude::*;
use vstd::string::StrSliceExecFns;
use vstd::utf8::encode_utf8;

use crate::order;

verus! {

/// What a list of strings holds.
pub open spec fn texts(list: Seq<String>) -> Seq<Seq<char>> {
    list.map_values(|text: String| text@)
}

/// What an optional string holds.
pub open spec fn opt_text(text: Option<String>) -> Option<Seq<char>> {
    match text {
        Some(text) => Some(text@),
        None => None,
    }
}

/// A copy of a list of strings.
pub fn copy_texts(list: &Vec<String>) -> (copy: Vec<String>)
    ensures
        texts(copy@) == texts(list@),
        copy@ == list@,
{
    let mut copy: Vec<String> = Vec::new();
    for i in 0..list.len()
        invariant
            copy@ == list@.take(i as int),
    {
        copy.push(list[i].clone());
        assert(list@.take(i + 1) =~= list@.take(i as int).push(list@[i as int]));
    }
    assert(list@.take(list@.len() as int) =~= list@);
    copy
}

/// A copy of an optional string.
pub fn copy_opt_text(text: &Option<String>) -> (copy: Option<String>)
    ensures
        copy == *text,
{
    match text {
        Some(text) => Some(text.clone()),
        None => None,
    }
}

// ---------------------------------------------------------------------------
// The order of strings

/// Byte strings in dictionary order.
pub open spec fn bytes_before(a: Seq<u8>, b: Seq<u8>) -> bool
    decreases a.len(),
{
    if a.len() == 0 || b.len() == 0 {
        a.len() < b.len()
    } else if a[0] == b[0] {
        bytes_before(a.drop_first(), b.drop_first())
    } else {
        a[0] < b[0]
    }
}

/// Strings in the order of their bytes, which is the order that `str` has.
pub open spec fn before(a: Seq<char>, b: Seq<char>) -> bool {
    bytes_before(encode_utf8(a), encode_utf8(b))
}

proof fn lemma_bytes_before_transitive(a: Seq<u8>, b: Seq<u8>, c: Seq<u8>)
    requires
        bytes_before(a, b),
        bytes_before(b, c),
    ensures
        bytes_before(a, c),
    decreases a.len(),
{
    if a.len() > 0 && b.len() > 0 && c.len() > 0 && a[0] == b[0] && b[0] == c[0] {
        lemma_bytes_before_transitive(a.drop_first(), b.drop_first(), c.drop_first());
    }
}

proof fn lemma_bytes_before_irreflexive(a: Seq<u8>)
    ensures
        !bytes_before(a, a),
    decreases a.len(),
{
    if a.len() > 0 {
        lemma_bytes_before_irreflexive(a.drop_first());
    }
}

proof fn lemma_bytes_before_total(a: Seq<u8>, b: Seq<u8>)
    ensures
        bytes_before(a, b) || a == b || bytes_before(b, a),
    decreases a.len(),
{
    if a.len() > 0 && b.len() > 0 && a[0] == b[0] {
        lemma_bytes_before_total(a.drop_first(), b.drop_first());
        if a.drop_first() == b.drop_first() {
            assert(a =~= seq![a[0]] + a.drop_first());
            assert(b =~= seq![b[0]] + b.drop_first());
        }
    } else {
        assert(a.len() == 0 && b.len() == 0 ==> a =~= b);
    }
}

/// Strings with the same bytes are the same string.
pub proof fn lemma_bytes_determine_text(a: Seq<char>, b: Seq<char>)
    requires
        encode_utf8(a) == encode_utf8(b),
    ensures
        a == b,
{
    vstd::utf8::encode_utf8_decode_utf8(a);
    vstd::utf8::encode_utf8_decode_utf8(b);
}

/// The order of strings is transitive.
pub proof fn lemma_before_transitive(a: Seq<char>, b: Seq<char>, c: Seq<char>)
    requires
        before(a, b),
        before(b, c),
    ensures
        before(a, c),
{
    lemma_bytes_before_transitive(encode_utf8(a), encode_utf8(b), encode_utf8(c));
}

/// No string comes before itself.
pub proof fn lemma_before_irreflexive(a: Seq<char>)
    ensures
        !before(a, a),
{
    lemma_bytes_before_irreflexive(encode_utf8(a));
}

/// Of two different strings one comes before the other.
pub proof fn lemma_before_total(a: Seq<char>, b: Seq<char>)
    ensures
        before(a, b) || a == b || before(b, a),
{
    lemma_bytes_before_total(encode_utf8(a), encode_utf8(b));
    if encode_utf8(a) == encode_utf8(b) {
        lemma_bytes_determine_text(a, b);
    }
}

/// Whether two strings are the same.
pub fn same(a: &str, b: &str) -> (res: bool)
    ensures
        res == (a@ == b@),
{
    let x = a.as_bytes();
    let y = b.as_bytes();
    if x.len() != y.len() {
        return false;
    }
    for i in 0..x.len()
        invariant
            x@.len() == y@.len(),
            x@ == encode_utf8(a@),
            y@ == encode_utf8(b@),
            forall|j: int| 0 <= j < i ==> x@[j] == y@[j],
    {
        if x[i] != y[i] {
            return false;
        }
    }
    proof {
        assert(x@ =~= y@);
        lemma_bytes_determine_text(a@, b@);
    }
    true
}

/// Whether the first string comes before the second.
pub fn is_before(a: &str, b: &str) -> (res: bool)
    ensures
        res == before(a@, b@),
{
    let x = a.as_bytes();
    let y = b.as_bytes();
    let mut i: usize = 0;
    proof {
        assert(x@.skip(0) =~= x@);
        assert(y@.skip(0) =~= y@);
    }
    while i < x.len() && i < y.len()
        invariant
            i <= x@.len(),
            i <= y@.len(),
            x@ == encode_utf8(a@),
            y@ == encode_utf8(b@),
            bytes_before(x@, y@) == bytes_before(x@.skip(i as int), y@.skip(i as int)),
        decreases x@.len() - i,
    {
        if x[i] != y[i] {
            return x[i] < y[i];
        }
        proof {
            assert(x@.skip(i as int).drop_first() =~= x@.skip(i + 1));
            assert(y@.skip(i as int).drop_first() =~= y@.skip(i + 1));
        }
        i = i + 1;
    }
    x.len() < y.len()
}

/// The number of bytes of a string.
pub open spec fn byte_len(text: Seq<char>) -> nat {
    encode_utf8(text).len()
}

/// The number of bytes of a string.
pub fn len_in_bytes(text: &str) -> (len: usize)
    ensures
        len == byte_len(text@),
{
    text.as_bytes().len()
}

/// The bytes of a string that is put together are those of its parts.
pub proof fn lemma_byte_len_concat(a: Seq<char>, b: Seq<char>)
    ensures
        byte_len(a + b) == byte_len(a) + byte_len(b),
    decreases a.len(),
{
    if a.len() == 0 {
        assert(a + b =~= b);
    } else {
        lemma_byte_len_concat(a.drop_first(), b);
        assert((a + b).drop_first() =~= a.drop_first() + b);
    }
}

/// A character of ASCII has one byte.
pub proof fn lemma_ascii_len(text: Seq<char>)
    requires
        forall|i: int| 0 <= i < text.len() ==> (#[trigger] text[i]) as u32 <= 0x7f,
    ensures
        byte_len(text) == text.len(),
    decreases text.len(),
{
    if text.len() > 0 {
        let rest = text.drop_first();
        assert forall|i: int| 0 <= i < rest.len() implies (#[trigger] rest[i]) as u32 <= 0x7f by {
            assert(rest[i] == text[i + 1]);
        }
        lemma_ascii_len(rest);
        assert(text[0] as u32 <= 0x7f);
    }
}

// ---------------------------------------------------------------------------
// Lists in order

/// Whether the strings of a list come in increasing order.
pub open spec fn increasing(list: Seq<Seq<char>>) -> bool {
    forall|i: int, j: int| 0 <= i < j < list.len() ==> before(#[trigger] list[i], #[trigger] list[j])
}

/// The members of a set of strings, in increasing order.
pub open spec fn in_order(set: Set<Seq<char>>) -> Seq<Seq<char>> {
    choose|list: Seq<Seq<char>>| increasing(list) && list.to_set() == set
}

/// The order of strings, as a relation.
pub open spec fn text_order() -> spec_fn(Seq<char>, Seq<char>) -> bool {
    |a: Seq<char>, b: Seq<char>| before(a, b)
}

/// The order of strings is strict.
pub proof fn lemma_text_order()
    ensures
        order::strict(text_order()),
{
    let lt = text_order();
    assert forall|a: Seq<char>| !#[trigger] lt(a, a) by {
        lemma_before_irreflexive(a);
    }
    assert forall|a: Seq<char>, b: Seq<char>, c: Seq<char>| #[trigger] lt(a, b) && #[trigger] lt(b, c) implies lt(
        a,
        c,
    ) by {
        lemma_before_transitive(a, b, c);
    }
}

/// A list in increasing order is what its members are in order.
pub proof fn lemma_in_order(list: Seq<Seq<char>>)
    requires
        increasing(list),
    ensures
        in_order(list.to_set()) == list,
{
    lemma_text_order();
    let other = in_order(list.to_set());
    assert(increasing(other) && other.to_set() == list.to_set());
    assert forall|text: Seq<char>| list.contains(text) <==> other.contains(text) by {
        assert(list.contains(text) <==> list.to_set().contains(text));
        assert(other.contains(text) <==> other.to_set().contains(text));
    }
    order::lemma_ordered_unique(other, list, text_order());
}

// ---------------------------------------------------------------------------
// Taking strings apart

/// The pieces of a string between the occurrences of a separator.
pub open spec fn split_on(text: Seq<char>, separator: char) -> Seq<Seq<char>>
    decreases text.len(),
{
    if text.len() == 0 {
        seq![text]
    } else {
        let pieces = split_on(text.drop_last(), separator);
        if text.last() == separator {
            pieces.push(Seq::empty())
        } else {
            pieces.drop_last().push(pieces.last().push(text.last()))
        }
    }
}

/// The characters of a string.
pub fn characters(text: &str) -> (chars: Vec<char>)
    ensures
        chars@ == text@,
{
    let mut chars: Vec<char> = Vec::new();
    for c in it: text.chars()
        invariant
            chars@ == it.seq().take(it.index()),
            it.seq() == text@,
    {
        chars.push(c);
        assert(it.seq().take(it.index() + 1) =~= it.seq().take(it.index()).push(c));
    }
    assert(text@.take(text@.len() as int) =~= text@);
    chars
}

/// The pieces of a string between the occurrences of a separator.
pub fn split(text: &str, separator: char) -> (pieces: Vec<String>)
    ensures
        texts(pieces@) == split_on(text@, separator),
{
    let chars = characters(text);
    let mut pieces: Vec<String> = Vec::new();
    let mut start: usize = 0;
    assert(texts(pieces@).push(text@.subrange(0, 0)) =~= split_on(text@.take(0), separator));
    for i in 0..chars.len()
        invariant
            chars@ == text@,
            start <= i,
            split_on(text@.take(i as int), separator) == texts(pieces@).push(
                text@.subrange(start as int, i as int),
            ),
    {
        proof {
            assert(text@.take(i + 1).drop_last() =~= text@.take(i as int));
            assert(text@.take(i + 1).last() == chars@[i as int]);
        }
        if chars[i] == separator {
            let ghost before_push = texts(pieces@);
            let piece = text.substring_char(start, i).to_owned();
            pieces.push(piece);
            start = i + 1;
            proof {
                assert(texts(pieces@) =~= before_push.push(piece@));
                assert(text@.subrange(i + 1, i + 1) =~= Seq::<char>::empty());
            }
        } else {
            assert(text@.subrange(start as int, i + 1) =~= text@.subrange(
                start as int,
                i as int,
            ).push(text@[i as int]));
            assert(texts(pieces@).push(text@.subrange(start as int, i as int)).drop_last()
                =~= texts(pieces@));
        }
    }
    let ghost before_push = texts(pieces@);
    let piece = text.substring_char(start, chars.len()).to_owned();
    pieces.push(piece);
    proof {
        assert(texts(pieces@) =~= before_push.push(piece@));
        assert(text@.take(text@.len() as int) =~= text@);
    }
    pieces
}

// ---------------------------------------------------------------------------
// Putting strings together

/// The strings of a list with a separator between them.
pub open spec fn joined(list: Seq<Seq<char>>, separator: Seq<char>) -> Seq<char>
    decreases list.len(),
{
    if list.len() == 0 {
        Seq::empty()
    } else if list.len() == 1 {
        list[0]
    } else {
        joined(list.drop_last(), separator) + separator + list.last()
    }
}

/// Calls `itertools::Itertools::join`, which writes the strings one after the other with the
/// separator between them.
#[verifier::external_body]
pub(crate) fn join(list: &Vec<String>, separator: &str) -> (text: String)
    ensures
        text@ == joined(texts(list@), separator@),
{
    list.iter().join(separator)
}

// ---------------------------------------------------------------------------
// Looking into strings

/// The first character of a string.
pub fn first_char(text: &str) -> (first: Option<char>)
    ensures
        first == (if text@.len() > 0 {
            Some(text@[0])
        } else {
            None
        }),
{
    if text.unicode_len() == 0 {
        None
    } else {
        Some(text.get_char(0))
    }
}

/// A string without its first character.
pub fn after_first(text: &str) -> (rest: String)
    requires
        text@.len() > 0,
    ensures
        rest@ == text@.drop_first(),
{
    let len = text.unicode_len();
    text.substring_char(1, len).to_owned()
}

/// Whether a string starts with another.
pub open spec fn has_prefix(text: Seq<char>, prefix: Seq<char>) -> bool {
    prefix.len() <= text.len() && text.take(prefix.len() as int) == prefix
}

/// Whether a string holds another.
pub open spec fn has_within(text: Seq<char>, part: Seq<char>) -> bool {
    exists|i: int| 0 <= i <= text.len() - part.len() && #[trigger] text.subrange(i, i + part.len()) == part
}

/// Whether a string starts with another.
pub fn starts_with(text: &str, prefix: &str) -> (res: bool)
    ensures
        res == has_prefix(text@, prefix@),
{
    let len = prefix.unicode_len();
    if len > text.unicode_len() {
        return false;
    }
    same(text.substring_char(0, len), prefix)
}

/// Whether a string holds another.
pub fn contains(text: &str, part: &str) -> (res: bool)
    ensures
        res == has_within(text@, part@),
{
    let len = part.unicode_len();
    let end = text.unicode_len();
    if len > end {
        return false;
    }
    let mut i: usize = 0;
    while i <= end - len
        invariant
            len == part@.len(),
            end == text@.len(),
            len <= end,
            i <= end - len + 1,
            forall|j: int| 0 <= j < i ==> #[trigger] text@.subrange(j, j + len) != part@,
        decreases end - i,
    {
        if same(text.substring_char(i, i + len), part) {
            return true;
        }
        if i == end - len {
            return false;
        }
        i = i + 1;
    }
    false
}

/// Whether a list of strings holds a string.
pub fn list_contains(list: &Vec<String>, text: &str) -> (res: bool)
    ensures
        res == texts(list@).contains(text@),
{
    for i in 0..list.len()
        invariant
            forall|j: int| 0 <= j < i ==> (#[trigger] list@[j])@ != text@,
    {
        if same(list[i].as_str(), text) {
            assert(texts(list@)[i as int] == text@);
            return true;
        }
    }
    proof {
        if texts(list@).contains(text@) {
            let j = texts(list@).index_of(text@);
            assert(texts(list@)[j] == list@[j]@);
        }
    }
    false
}

// ---------------------------------------------------------------------------
// What holds of strings

/// Strings in order are all strings of the set, and no others, each before those that follow it.
pub proof fn law_in_order_holds_all(set: Set<Seq<char>>)
    requires
        set.finite(),
    ensures
        increasing(in_order(set)),
        in_order(set).to_set() == set,
{
    lemma_text_order();
    let lt = text_order();
    assert forall|a: Seq<char>, b: Seq<char>| #[trigger]
        set.contains(a) && #[trigger] set.contains(b) && a != b implies lt(a, b) || lt(b, a) by {
        lemma_before_total(a, b);
    }
    order::law_listing_holds_all(set, lt);
    let list = order::listing(set, lt);
    assert(increasing(list)) by {
        assert forall|i: int, j: int| 0 <= i < j < list.len() implies before(
            #[trigger] list[i],
            #[trigger] list[j],
        ) by {
            assert(lt(list[i], list[j]));
        }
    }
}

proof fn lemma_split_not_empty(text: Seq<char>, separator: char)
    ensures
        split_on(text, separator).len() > 0,
    decreases text.len(),
{
    if text.len() > 0 {
        lemma_split_not_empty(text.drop_last(), separator);
    }
}

/// One more piece is joined behind the others.
proof fn lemma_joined_push(list: Seq<Seq<char>>, piece: Seq<char>, separator: Seq<char>)
    requires
        list.len() > 0,
    ensures
        joined(list.push(piece), separator) == joined(list, separator) + separator + piece,
{
    assert(list.push(piece).drop_last() =~= list);
}

/// A character more at the end of the last piece.
proof fn lemma_joined_longer(list: Seq<Seq<char>>, c: char, separator: Seq<char>)
    requires
        list.len() > 0,
    ensures
        joined(list.drop_last().push(list.last().push(c)), separator) == joined(list, separator).push(
            c,
        ),
{
    let longer = list.drop_last().push(list.last().push(c));
    assert(longer.drop_last() =~= list.drop_last());
    if list.len() == 1 {
        assert(longer =~= seq![list[0].push(c)]);
    } else {
        assert(joined(longer, separator) =~= joined(list, separator).push(c));
    }
}

/// The pieces of a string, put together with the separator between them, are the string again.
pub proof fn law_split_and_join(text: Seq<char>, separator: char)
    ensures
        joined(split_on(text, separator), seq![separator]) == text,
    decreases text.len(),
{
    if text.len() > 0 {
        let before = text.drop_last();
        let pieces = split_on(before, separator);
        law_split_and_join(before, separator);
        lemma_split_not_empty(before, separator);
        if text.last() == separator {
            lemma_joined_push(pieces, Seq::empty(), seq![separator]);
            assert(joined(split_on(text, separator), seq![separator]) =~= text);
        } else {
            lemma_joined_longer(pieces, text.last(), seq![separator]);
            assert(before.push(text.last()) =~= text);
        }
    }
}

/// No piece of a string holds the separator.
pub proof fn law_pieces_hold_no_separator(text: Seq<char>, separator: char, i: int)
    requires
        0 <= i < split_on(text, separator).len(),
    ensures
        !split_on(text, separator)[i].contains(separator),
    decreases text.len(),
{
    if text.len() > 0 {
        let pieces = split_on(text.drop_last(), separator);
        lemma_split_not_empty(text.drop_last(), separator);
        if i < pieces.len() {
            law_pieces_hold_no_separator(text.drop_last(), separator, i);
        }
        if text.last() != separator && i == pieces.len() - 1 {
            let longer = pieces.last().push(text.last());
            assert(!longer.contains(separator)) by {
                if longer.contains(separator) {
                    let j = longer.index_of(separator);
                    assert(pieces.last()[j] == separator);
                }
            }
        }
    }
}

/// One string more stands behind the others, with the separator before it unless it is the first.
pub proof fn law_joining_one_more(list: Seq<Seq<char>>, piece: Seq<char>, separator: Seq<char>)
    ensures
        joined(Seq::empty(), separator).len() == 0,
        joined(seq![piece], separator) == piece,
        list.len() > 0 ==> joined(list.push(piece), separator) == joined(list, separator) + separator
            + piece,
{
    if list.len() > 0 {
        lemma_joined_push(list, piece, separator);
    }
}

/// A byte string is before another where it is the beginning of it, or has the smaller byte at the
/// first place where they differ. `k` is the number of bytes that they have in common.
pub proof fn law_bytes_before(a: Seq<u8>, b: Seq<u8>, k: int)
    requires
        0 <= k <= a.len(),
        k <= b.len(),
        a.take(k) == b.take(k),
        k < a.len() && k < b.len() ==> a[k] != b[k],
    ensures
        bytes_before(a, b) <==> k < b.len() && (k == a.len() || a[k] < b[k]),
    decreases k,
{
    if k > 0 {
        assert(a.take(k)[0] == b.take(k)[0]);
        assert(a.drop_first().take(k - 1) =~= a.take(k).drop_first());
        assert(b.drop_first().take(k - 1) =~= b.take(k).drop_first());
        assert(a.take(k)[0] == a[0]);
        assert(b.take(k)[0] == b[0]);
        if k < a.len() {
            assert(a.drop_first()[k - 1] == a[k]);
        }
        if k < b.len() {
            assert(b.drop_first()[k - 1] == b[k]);
        }
        law_bytes_before(a.drop_first(), b.drop_first(), k - 1);
    }
}

/// Strings are in the order of their bytes.
pub proof fn law_before_by_bytes(a: Seq<char>, b: Seq<char>)
    ensures
        before(a, b) == bytes_before(encode_utf8(a), encode_utf8(b)),
        byte_len(a) == encode_utf8(a).len(),
{
}

} // verus!
