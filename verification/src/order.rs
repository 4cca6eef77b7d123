//! The order of a region's entries: which entry is at the front, which at the
//! back, where the next one goes, and the laws that make the region a queue.

use crate::keys::is_key;
use crate::keys::key_position;
use crate::keys::key_seq;
use crate::keys::lemma_key_order;
use crate::keys::lemma_lex_lt_asymmetric;
use crate::keys::lemma_lex_lt_transitive;
use crate::keys::lex_le;
use crate::keys::lex_lt;
use crate::keys::next_position;
use crate::store::is_first_key;
use crate::store::is_last_key;
use vstd::prelude::*;

verus! {

/// The least key of `entries`, where there is one.
pub open spec fn first_key(entries: Map<Seq<u8>, Seq<u8>>) -> Seq<u8> {
    choose|key: Seq<u8>| is_first_key(entries, key)
}

/// The greatest key of `entries`, where there is one.
pub open spec fn last_key(entries: Map<Seq<u8>, Seq<u8>>) -> Seq<u8> {
    choose|key: Seq<u8>| is_last_key(entries, key)
}

/// `after` is `before` without its least entry.
pub open spec fn took_first(before: Map<Seq<u8>, Seq<u8>>, after: Map<Seq<u8>, Seq<u8>>) -> bool {
    &&& is_first_key(before, first_key(before))
    &&& after == before.remove(first_key(before))
}

/// `after` is `before` without its greatest entry.
pub open spec fn took_last(before: Map<Seq<u8>, Seq<u8>>, after: Map<Seq<u8>, Seq<u8>>) -> bool {
    &&& is_last_key(before, last_key(before))
    &&& after == before.remove(last_key(before))
}

/// The key under which the next appended entry is stored: the key of
/// position zero in an empty region, otherwise the key of the position one
/// past the greatest key's. There is none where the greatest key is no
/// position key or encodes the largest position.
pub open spec fn next_key(entries: Map<Seq<u8>, Seq<u8>>) -> Option<Seq<u8>> {
    let last = if entries == Map::<Seq<u8>, Seq<u8>>::empty() {
        None
    } else {
        Some(last_key(entries))
    };
    match next_position(last) {
        Some(n) => Some(key_seq(n)),
        None => None,
    }
}

/// `after` is `before` with one more entry, stored under the next key.
pub open spec fn appended(before: Map<Seq<u8>, Seq<u8>>, after: Map<Seq<u8>, Seq<u8>>) -> bool {
    &&& next_key(before) matches Some(key)
    &&& !before.contains_key(key)
    &&& after.contains_key(key)
    &&& after == before.insert(key, after[key])
    &&& is_last_key(after, key)
}

/// A map has at most one least key.
pub proof fn lemma_first_key_unique(entries: Map<Seq<u8>, Seq<u8>>, key: Seq<u8>)
    requires
        is_first_key(entries, key),
    ensures
        first_key(entries) == key,
{
    let chosen = first_key(entries);
    if chosen != key {
        lemma_lex_lt_asymmetric(chosen, key);
    }
}

/// A map has at most one greatest key.
pub proof fn lemma_last_key_unique(entries: Map<Seq<u8>, Seq<u8>>, key: Seq<u8>)
    requires
        is_last_key(entries, key),
    ensures
        last_key(entries) == key,
{
    let chosen = last_key(entries);
    if chosen != key {
        lemma_lex_lt_asymmetric(chosen, key);
    }
}

/// Insertion is order-monotonic: the next key comes strictly after every key
/// present, so it is not yet in use and becomes the greatest key once an
/// entry is stored under it.
pub proof fn lemma_next_key_is_greatest(
    entries: Map<Seq<u8>, Seq<u8>>,
    key: Seq<u8>,
    value: Seq<u8>,
)
    requires
        next_key(entries) == Some(key),
        entries == Map::<Seq<u8>, Seq<u8>>::empty() || is_last_key(entries, last_key(entries)),
    ensures
        forall|other: Seq<u8>| #[trigger] entries.contains_key(other) ==> lex_lt(other, key),
        !entries.contains_key(key),
        is_last_key(entries.insert(key, value), key),
        appended(entries, entries.insert(key, value)),
{
    if entries != Map::<Seq<u8>, Seq<u8>>::empty() {
        let last = last_key(entries);
        let position = key_position(last);
        assert(is_key(last));
        assert(last == key_seq(position));
        assert(key == key_seq((position + 1) as u64));
        lemma_key_order(position, (position + 1) as u64);
        assert forall|other: Seq<u8>| #[trigger] entries.contains_key(other) implies lex_lt(
            other,
            key,
        ) by {
            assert(lex_le(other, last));
            if other != last {
                lemma_lex_lt_transitive(other, last, key);
            }
        }
    } else {
        assert forall|other: Seq<u8>| #[trigger] entries.contains_key(other) implies lex_lt(
            other,
            key,
        ) by {
            assert(!Map::<Seq<u8>, Seq<u8>>::empty().contains_key(other));
        }
    }
    if entries.contains_key(key) {
        lemma_lex_lt_asymmetric(key, key);
    }
    let after = entries.insert(key, value);
    assert(after.contains_key(key));
    assert(after[key] == value);
}

/// The region without entries.
pub open spec fn no_entries() -> Map<Seq<u8>, Seq<u8>> {
    Map::<Seq<u8>, Seq<u8>>::empty()
}

/// The bytes that an append stored: the value under the key it used.
pub open spec fn appended_value(before: Map<Seq<u8>, Seq<u8>>, after: Map<Seq<u8>, Seq<u8>>) -> Seq<
    u8,
> {
    after[next_key(before).unwrap()]
}

/// The first entry appended to an empty region is stored under the key of
/// position zero and is both its front and its back.
pub proof fn lemma_append_to_empty(after: Map<Seq<u8>, Seq<u8>>)
    requires
        appended(no_entries(), after),
    ensures
        next_key(no_entries()) == Some(key_seq(0)),
        after == no_entries().insert(key_seq(0), after[key_seq(0)]),
        first_key(after) == key_seq(0),
        last_key(after) == key_seq(0),
        is_first_key(after, key_seq(0)),
{
    let key = key_seq(0);
    assert(is_first_key(after, key)) by {
        assert forall|other: Seq<u8>| #[trigger] after.contains_key(other) implies lex_le(
            key,
            other,
        ) by {
            assert(other == key);
        }
    }
    lemma_first_key_unique(after, key);
    lemma_last_key_unique(after, key);
}

/// An append behind other entries leaves the front as it was: the least key
/// and the value under it do not change.
pub proof fn lemma_append_keeps_front(before: Map<Seq<u8>, Seq<u8>>, after: Map<Seq<u8>, Seq<u8>>)
    requires
        is_first_key(before, first_key(before)),
        appended(before, after),
    ensures
        is_first_key(after, first_key(before)),
        first_key(after) == first_key(before),
        after[first_key(after)] == before[first_key(before)],
{
    let front = first_key(before);
    let key = next_key(before).unwrap();
    assert(after.contains_key(front));
    assert forall|other: Seq<u8>| #[trigger] after.contains_key(other) implies lex_le(
        front,
        other,
    ) by {
        if other == key {
            assert(lex_le(front, key));
        } else {
            assert(before.contains_key(other));
        }
    }
    lemma_first_key_unique(after, front);
}

/// Last in, first out at the back: taking the back entry right after an
/// append takes the appended entry and leaves the region as it was before
/// the append.
pub proof fn lemma_append_then_take_last(
    before: Map<Seq<u8>, Seq<u8>>,
    after: Map<Seq<u8>, Seq<u8>>,
    rest: Map<Seq<u8>, Seq<u8>>,
)
    requires
        appended(before, after),
        took_last(after, rest),
    ensures
        last_key(after) == next_key(before).unwrap(),
        after[last_key(after)] == appended_value(before, after),
        rest == before,
{
    let key = next_key(before).unwrap();
    lemma_last_key_unique(after, key);
    assert(rest =~= before);
}

/// Taking the front entry after an append behind other entries takes the
/// entry that was at the front before the append; the appended entry stays,
/// still at the back.
pub proof fn lemma_append_then_take_first(
    before: Map<Seq<u8>, Seq<u8>>,
    after: Map<Seq<u8>, Seq<u8>>,
    rest: Map<Seq<u8>, Seq<u8>>,
)
    requires
        is_first_key(before, first_key(before)),
        appended(before, after),
        took_first(after, rest),
    ensures
        after[first_key(after)] == before[first_key(before)],
        rest == before.remove(first_key(before)).insert(
            next_key(before).unwrap(),
            appended_value(before, after),
        ),
        is_last_key(rest, next_key(before).unwrap()),
{
    lemma_append_keeps_front(before, after);
    let key = next_key(before).unwrap();
    let front = first_key(before);
    assert(rest =~= before.remove(front).insert(key, after[key]));
    assert(rest.contains_key(key));
    assert forall|other: Seq<u8>| #[trigger] rest.contains_key(other) implies lex_le(
        other,
        key,
    ) by {
        assert(after.contains_key(other));
    }
}

/// First in, first out: after three appends to an empty region, taking the
/// front three times takes the three stored values in the order in which
/// they were appended, and leaves the region empty.
pub proof fn lemma_fifo_order(
    one: Map<Seq<u8>, Seq<u8>>,
    two: Map<Seq<u8>, Seq<u8>>,
    three: Map<Seq<u8>, Seq<u8>>,
    less_one: Map<Seq<u8>, Seq<u8>>,
    less_two: Map<Seq<u8>, Seq<u8>>,
    less_three: Map<Seq<u8>, Seq<u8>>,
)
    requires
        appended(no_entries(), one),
        appended(one, two),
        appended(two, three),
        took_first(three, less_one),
        took_first(less_one, less_two),
        took_first(less_two, less_three),
    ensures
        three[first_key(three)] == appended_value(no_entries(), one),
        less_one[first_key(less_one)] == appended_value(one, two),
        less_two[first_key(less_two)] == appended_value(two, three),
        less_three == no_entries(),
{
    let a = next_key(no_entries()).unwrap();
    let b = next_key(one).unwrap();
    let c = next_key(two).unwrap();
    lemma_append_to_empty(one);
    lemma_append_keeps_front(one, two);
    lemma_append_keeps_front(two, three);
    assert(first_key(three) == a);
    assert(one.contains_key(a));
    assert(two.contains_key(a) && two.contains_key(b));
    assert(three.contains_key(a) && three.contains_key(b) && three.contains_key(c));
    assert(a != b && a != c && b != c);
    assert(three[a] == one[a]);
    assert(three[b] == two[b]);
    assert(less_one =~= no_entries().insert(b, two[b]).insert(c, three[c]));
    assert(is_first_key(less_one, b)) by {
        assert forall|other: Seq<u8>| #[trigger] less_one.contains_key(other) implies lex_le(
            b,
            other,
        ) by {
            if other == c {
                assert(lex_le(b, c));
            }
        }
    }
    lemma_first_key_unique(less_one, b);
    assert(less_two =~= no_entries().insert(c, three[c]));
    assert(is_first_key(less_two, c)) by {
        assert forall|other: Seq<u8>| #[trigger] less_two.contains_key(other) implies lex_le(
            c,
            other,
        ) by {
            assert(other == c);
        }
    }
    lemma_first_key_unique(less_two, c);
    assert(less_three =~= no_entries());
}

/// Last in, first out: after three appends, taking the back three times
/// takes the three stored values in the reverse of the order in which they
/// were appended, and leaves the region as it was before the appends.
pub proof fn lemma_lifo_order(
    start: Map<Seq<u8>, Seq<u8>>,
    one: Map<Seq<u8>, Seq<u8>>,
    two: Map<Seq<u8>, Seq<u8>>,
    three: Map<Seq<u8>, Seq<u8>>,
    less_one: Map<Seq<u8>, Seq<u8>>,
    less_two: Map<Seq<u8>, Seq<u8>>,
    less_three: Map<Seq<u8>, Seq<u8>>,
)
    requires
        appended(start, one),
        appended(one, two),
        appended(two, three),
        took_last(three, less_one),
        took_last(less_one, less_two),
        took_last(less_two, less_three),
    ensures
        three[last_key(three)] == appended_value(two, three),
        less_one[last_key(less_one)] == appended_value(one, two),
        less_two[last_key(less_two)] == appended_value(start, one),
        less_three == start,
{
    lemma_append_then_take_last(two, three, less_one);
    lemma_append_then_take_last(one, two, less_two);
    lemma_append_then_take_last(start, one, less_three);
}

/// Emptiness follows the members: an empty set that gains `value` is not
/// empty, the only member that can then leave is `value`, and once it has
/// left the set is empty again.
pub proof fn lemma_one_in_one_out<T>(members: Set<T>, value: T, item: T)
    requires
        members == Set::<T>::empty(),
        members.insert(value).contains(item),
    ensures
        members.insert(value) != Set::<T>::empty(),
        item == value,
        members.insert(value).remove(item) == Set::<T>::empty(),
{
    assert(members.insert(value).contains(value));
    assert(members.insert(value).remove(item) =~= Set::<T>::empty());
}

} // verus!
