//! Comparing texts byte by byte, the order in which the store ranks dates.

use vstd::prelude::*;
use vstd::utf8::*;

verus! {

/// `a` comes before `b`, or equals it, in the lexicographic order of bytes; a
/// proper prefix comes before what it is a prefix of.
pub open spec fn bytes_le(a: Seq<u8>, b: Seq<u8>) -> bool
    decreases a.len(),
{
    if a.len() == 0 {
        true
    } else if b.len() == 0 {
        false
    } else if a[0] == b[0] {
        bytes_le(a.drop_first(), b.drop_first())
    } else {
        a[0] < b[0]
    }
}

/// The order of texts: that of their UTF-8 bytes. For dates in the canonical
/// form it is the order of the calendar.
pub open spec fn text_le(a: Seq<char>, b: Seq<char>) -> bool {
    bytes_le(encode_utf8(a), encode_utf8(b))
}

/// Every byte sequence is at most itself.
pub proof fn bytes_le_reflexive(a: Seq<u8>)
    ensures
        bytes_le(a, a),
    decreases a.len(),
{
    if a.len() > 0 {
        bytes_le_reflexive(a.drop_first());
    }
}

/// Of two byte sequences one is at most the other.
pub proof fn bytes_le_total(a: Seq<u8>, b: Seq<u8>)
    ensures
        bytes_le(a, b) || bytes_le(b, a),
    decreases a.len(),
{
    if a.len() > 0 && b.len() > 0 && a[0] == b[0] {
        bytes_le_total(a.drop_first(), b.drop_first());
    }
}

/// The order of bytes passes along a chain.
pub proof fn bytes_le_transitive(a: Seq<u8>, b: Seq<u8>, c: Seq<u8>)
    requires
        bytes_le(a, b),
        bytes_le(b, c),
    ensures
        bytes_le(a, c),
    decreases a.len(),
{
    if a.len() > 0 && b.len() > 0 && c.len() > 0 && a[0] == b[0] && b[0] == c[0] {
        bytes_le_transitive(a.drop_first(), b.drop_first(), c.drop_first());
    }
}

/// Two byte sequences that are each at most the other are the same.
pub proof fn bytes_le_antisymmetric(a: Seq<u8>, b: Seq<u8>)
    requires
        bytes_le(a, b),
        bytes_le(b, a),
    ensures
        a == b,
    decreases a.len(),
{
    if a.len() > 0 && b.len() > 0 {
        bytes_le_antisymmetric(a.drop_first(), b.drop_first());
        assert(a =~= seq![a[0]] + a.drop_first());
        assert(b =~= seq![b[0]] + b.drop_first());
    } else {
        assert(a =~= b);
    }
}

/// Texts with the same bytes are the same text.
pub proof fn same_bytes_same_text(a: Seq<char>, b: Seq<char>)
    requires
        encode_utf8(a) == encode_utf8(b),
    ensures
        a == b,
{
    encode_utf8_decode_utf8(a);
    encode_utf8_decode_utf8(b);
}

/// The order of texts is total: reflexive, and one of two texts is at most the other.
pub proof fn text_le_total(a: Seq<char>, b: Seq<char>)
    ensures
        text_le(a, a),
        text_le(a, b) || text_le(b, a),
{
    bytes_le_reflexive(encode_utf8(a));
    bytes_le_total(encode_utf8(a), encode_utf8(b));
}

/// The order of texts passes along a chain.
pub proof fn text_le_transitive(a: Seq<char>, b: Seq<char>, c: Seq<char>)
    requires
        text_le(a, b),
        text_le(b, c),
    ensures
        text_le(a, c),
{
    bytes_le_transitive(encode_utf8(a), encode_utf8(b), encode_utf8(c));
}

/// Two texts that are each at most the other are the same.
pub proof fn text_le_antisymmetric(a: Seq<char>, b: Seq<char>)
    requires
        text_le(a, b),
        text_le(b, a),
    ensures
        a == b,
{
    bytes_le_antisymmetric(encode_utf8(a), encode_utf8(b));
    same_bytes_same_text(a, b);
}

/// Whether two texts are the same.
pub fn same_text(a: &str, b: &str) -> (same: bool)
    ensures
        same == (a@ == b@),
{
    let x = a.as_bytes();
    let y = b.as_bytes();
    if x.len() != y.len() {
        return false;
    }
    let mut i: usize = 0;
    while i < x.len()
        invariant
            x@.len() == y@.len(),
            i <= x@.len(),
            x@ == encode_utf8(a@),
            y@ == encode_utf8(b@),
            forall|j: int| 0 <= j < i ==> x@[j] == y@[j],
        decreases x.len() - i,
    {
        if x[i] != y[i] {
            return false;
        }
        i += 1;
    }
    proof {
        assert(x@ =~= y@);
        same_bytes_same_text(a@, b@);
    }
    true
}

/// Whether `a` comes before `b`, or equals it, in the order of texts.
pub fn text_at_most(a: &str, b: &str) -> (le: bool)
    ensures
        le == text_le(a@, b@),
{
    let x = a.as_bytes();
    let y = b.as_bytes();
    let mut i: usize = 0;
    proof {
        assert(x@.skip(0) =~= x@);
        assert(y@.skip(0) =~= y@);
    }
    while i < x.len() && i < y.len()
        invariant
            i <= x@.len(),
            i <= y@.len(),
            x@ == encode_utf8(a@),
            y@ == encode_utf8(b@),
            bytes_le(x@, y@) == bytes_le(x@.skip(i as int), y@.skip(i as int)),
        decreases x.len() - i,
    {
        proof {
            assert(x@.skip(i as int).drop_first() =~= x@.skip(i + 1));
            assert(y@.skip(i as int).drop_first() =~= y@.skip(i + 1));
        }
        if x[i] != y[i] {
            return x[i] < y[i];
        }
        i += 1;
    }
    i == x.len()
}

/// What a list of strings says, text by text.
pub open spec fn texts_of(strings: Seq<String>) -> Seq<Seq<char>> {
    strings.map_values(|s: String| s@)
}

/// No text comes before one that stands earlier in the list: the list falls,
/// or stays level, from its first text to its last.
pub open spec fn is_descending(texts: Seq<Seq<char>>) -> bool {
    forall|i: int, j: int| 0 <= i < j < texts.len() ==> text_le(texts[j], texts[i])
}

/// `text` is one of `texts`, and none of them comes after it.
pub open spec fn is_latest(text: Seq<char>, texts: Seq<Seq<char>>) -> bool {
    &&& texts.contains(text)
    &&& forall|i: int| 0 <= i < texts.len() ==> text_le(#[trigger] texts[i], text)
}

/// A list has at most one latest text.
pub proof fn latest_is_unique(a: Seq<char>, b: Seq<char>, texts: Seq<Seq<char>>)
    requires
        is_latest(a, texts),
        is_latest(b, texts),
    ensures
        a == b,
{
    let i = choose|i: int| 0 <= i < texts.len() && texts[i] == a;
    let j = choose|j: int| 0 <= j < texts.len() && texts[j] == b;
    assert(text_le(texts[i], b));
    assert(text_le(texts[j], a));
    text_le_antisymmetric(a, b);
}

/// Two descending lists of the same texts, each as often in one as in the
/// other, are the same list.
pub proof fn descending_is_unique(a: Seq<Seq<char>>, b: Seq<Seq<char>>)
    requires
        is_descending(a),
        is_descending(b),
        a.to_multiset() == b.to_multiset(),
    ensures
        a == b,
    decreases a.len(),
{
    broadcast use vstd::seq_lib::group_to_multiset_ensures;

    a.to_multiset_ensures();
    b.to_multiset_ensures();
    if a.len() == 0 {
        assert(a =~= b);
    } else {
        assert(b.len() == a.len());
        // Both lists start with a text that none comes after, so with the same one.
        assert(a.to_multiset().count(a[0]) > 0);
        assert(b.contains(a[0]));
        let j = choose|j: int| 0 <= j < b.len() && b[j] == a[0];
        assert(text_le(a[0], b[0])) by {
            if j > 0 {
                assert(text_le(b[j], b[0]));
            } else {
                text_le_total(a[0], a[0]);
            }
        }
        assert(b.to_multiset().count(b[0]) > 0);
        assert(a.contains(b[0]));
        let i = choose|i: int| 0 <= i < a.len() && a[i] == b[0];
        assert(text_le(b[0], a[0])) by {
            if i > 0 {
                assert(text_le(a[i], a[0]));
            } else {
                text_le_total(b[0], b[0]);
            }
        }
        text_le_antisymmetric(a[0], b[0]);
        let a_rest = a.drop_first();
        let b_rest = b.drop_first();
        assert(a_rest =~= a.remove(0));
        assert(b_rest =~= b.remove(0));
        assert(a_rest.to_multiset() =~= a.to_multiset().remove(a[0]));
        assert(b_rest.to_multiset() =~= b.to_multiset().remove(b[0]));
        assert forall|x: int, y: int| 0 <= x < y < a_rest.len() implies text_le(
            a_rest[y],
            a_rest[x],
        ) by {
            assert(text_le(a[y + 1], a[x + 1]));
        }
        assert forall|x: int, y: int| 0 <= x < y < b_rest.len() implies text_le(
            b_rest[y],
            b_rest[x],
        ) by {
            assert(text_le(b[y + 1], b[x + 1]));
        }
        descending_is_unique(a_rest, b_rest);
        assert(a =~= seq![a[0]] + a_rest);
        assert(b =~= seq![b[0]] + b_rest);
    }
}

/// Sorts texts so that the latest comes first. A text that stands several
/// times in the list stands as often in the result.
pub fn sort_descending(texts: Vec<String>) -> (sorted: Vec<String>)
    ensures
        is_descending(texts_of(sorted@)),
        texts_of(sorted@).to_multiset() == texts_of(texts@).to_multiset(),
{
    broadcast use vstd::seq_lib::group_to_multiset_ensures;

    let mut rest = texts;
    let mut sorted: Vec<String> = Vec::new();
    proof {
        assert(texts_of(sorted@) =~= Seq::empty());
        assert(texts_of(sorted@).to_multiset().add(texts_of(rest@).to_multiset()) =~= texts_of(
            texts@,
        ).to_multiset());
    }
    while rest.len() > 0
        invariant
            is_descending(texts_of(sorted@)),
            texts_of(sorted@).to_multiset().add(texts_of(rest@).to_multiset()) == texts_of(
                texts@,
            ).to_multiset(),
        decreases rest.len(),
    {
        let ghost before = rest@;
        let ghost placed = texts_of(sorted@);
        let text = rest.pop().unwrap();
        proof {
            assert(texts_of(before) =~= texts_of(rest@).push(text@));
        }
        let mut at: usize = 0;
        while at < sorted.len() && !text_at_most(sorted[at].as_str(), text.as_str())
            invariant
                at <= sorted.len(),
                forall|i: int| 0 <= i < at ==> !text_le(#[trigger] texts_of(sorted@)[i], text@),
            decreases sorted.len() - at,
        {
            at += 1;
        }
        sorted.insert(at, text);
        proof {
            let now = texts_of(sorted@);
            assert(now =~= placed.insert(at as int, text@));
            assert forall|i: int, j: int| 0 <= i < j < now.len() implies text_le(
                now[j],
                now[i],
            ) by {
                if j == at {
                    text_le_total(placed[i], text@);
                } else if i == at {
                    // now[j] is placed[j - 1], at or after the first text that is at most `text`
                    if j - 1 > at {
                        assert(text_le(placed[j - 1], placed[at as int]));
                    } else {
                        text_le_total(placed[at as int], placed[at as int]);
                    }
                    assert(text_le(placed[at as int], text@));
                    text_le_transitive(placed[j - 1], placed[at as int], text@);
                } else {
                    let a = if i < at { i } else { i - 1 };
                    let b = if j < at { j } else { j - 1 };
                    assert(text_le(placed[b], placed[a]));
                }
            }
            vstd::seq_lib::to_multiset_insert(placed, at as int, text@);
            vstd::seq_lib::to_multiset_build(texts_of(rest@), text@);
            assert(now.to_multiset().add(texts_of(rest@).to_multiset()) =~= placed.to_multiset().add(
                texts_of(before).to_multiset(),
            ));
        }
    }
    proof {
        assert(texts_of(rest@) =~= Seq::empty());
        assert(texts_of(sorted@).to_multiset().add(texts_of(rest@).to_multiset()) =~= texts_of(
            sorted@,
        ).to_multiset());
    }
    sorted
}

} // verus!
