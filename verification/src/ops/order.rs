//! The order in which the paths of files are sorted: component by
//! component, each component byte by byte over its UTF-8 form, and a path
//! before what lies below it.
//!
//! Over the text of a path, with `/` between the components, this is the
//! order of its bytes in which the separator ranks before every other byte:
//! where two paths part ways, the one whose component ends there comes
//! first, and two components that both go on are told apart by the byte at
//! which they differ.

use vstd::prelude::*;
use vstd::utf8::{encode_utf8, encode_utf8_decode_utf8};
use crate::ops::text::{same_text, texts};

verus! {

/// The byte that separates the components of a path.
pub const SEPARATOR: u8 = 0x2f;

/// The rank of a byte in the order of paths: the separator first, then the
/// other bytes in their own order.
pub open spec fn byte_rank(byte: u8) -> int {
    if byte == SEPARATOR {
        0
    } else {
        byte + 1
    }
}

/// Whether `a` sorts strictly before `b`: at the first place where the two
/// differ, the byte of `a` ranks lower, or `a` ends there.
pub open spec fn bytes_before(a: Seq<u8>, b: Seq<u8>) -> bool
    decreases a.len(),
{
    if b.len() == 0 {
        false
    } else if a.len() == 0 {
        true
    } else if a[0] != b[0] {
        byte_rank(a[0]) < byte_rank(b[0])
    } else {
        bytes_before(a.drop_first(), b.drop_first())
    }
}

/// Whether the path written `a` sorts strictly before the path written `b`.
pub open spec fn text_before(a: Seq<char>, b: Seq<char>) -> bool {
    bytes_before(encode_utf8(a), encode_utf8(b))
}

/// Whether a list of texts is sorted with no text twice.
pub open spec fn sorted(list: Seq<Seq<char>>) -> bool {
    forall|i: int, j: int| 0 <= i < j < list.len() ==> text_before(#[trigger] list[i], #[trigger] list[j])
}

/// `list` with `x` put in its place, unless `list` holds it already. The
/// place is looked for from the end.
pub open spec fn inserted(list: Seq<Seq<char>>, x: Seq<char>) -> Seq<Seq<char>>
    decreases list.len(),
{
    if list.len() == 0 {
        seq![x]
    } else if list.last() == x {
        list
    } else if text_before(list.last(), x) {
        list.push(x)
    } else {
        inserted(list.drop_last(), x).push(list.last())
    }
}

/// The order of byte strings is transitive.
proof fn lemma_bytes_before_transitive(a: Seq<u8>, b: Seq<u8>, c: Seq<u8>)
    requires
        bytes_before(a, b),
        bytes_before(b, c),
    ensures
        bytes_before(a, c),
    decreases a.len(),
{
    if a.len() > 0 && b.len() > 0 && c.len() > 0 && a[0] == b[0] && b[0] == c[0] {
        lemma_bytes_before_transitive(a.drop_first(), b.drop_first(), c.drop_first());
    }
}

/// Of two different byte strings one sorts before the other.
proof fn lemma_bytes_before_total(a: Seq<u8>, b: Seq<u8>)
    ensures
        bytes_before(a, b) || bytes_before(b, a) || a == b,
    decreases a.len(),
{
    if a.len() > 0 && b.len() > 0 {
        if a[0] == b[0] {
            lemma_bytes_before_total(a.drop_first(), b.drop_first());
            if a.drop_first() == b.drop_first() {
                assert(a =~= seq![a[0]] + a.drop_first());
                assert(b =~= seq![b[0]] + b.drop_first());
            }
        }
    } else if a.len() == 0 && b.len() == 0 {
        assert(a =~= b);
    }
}

/// The order of texts is transitive.
pub proof fn lemma_text_before_transitive(a: Seq<char>, b: Seq<char>, c: Seq<char>)
    requires
        text_before(a, b),
        text_before(b, c),
    ensures
        text_before(a, c),
{
    lemma_bytes_before_transitive(encode_utf8(a), encode_utf8(b), encode_utf8(c));
}

/// Of two different texts one sorts before the other.
pub proof fn lemma_text_before_total(a: Seq<char>, b: Seq<char>)
    ensures
        text_before(a, b) || text_before(b, a) || a == b,
{
    lemma_bytes_before_total(encode_utf8(a), encode_utf8(b));
    if encode_utf8(a) == encode_utf8(b) {
        encode_utf8_decode_utf8(a);
        encode_utf8_decode_utf8(b);
    }
}

/// Putting a text into a sorted list leaves it sorted, and the outcome holds
/// that text and what the list held, nothing else.
pub proof fn lemma_inserted(list: Seq<Seq<char>>, x: Seq<char>)
    requires
        sorted(list),
    ensures
        sorted(inserted(list, x)),
        inserted(list, x).contains(x),
        forall|y: Seq<char>| list.contains(y) ==> inserted(list, x).contains(y),
        forall|y: Seq<char>| inserted(list, x).contains(y) ==> y == x || list.contains(y),
    decreases list.len(),
{
    let out = inserted(list, x);
    if list.len() == 0 {
        assert(out[0] == x);
    } else if list.last() == x {
        assert(list[list.len() - 1] == x);
    } else if text_before(list.last(), x) {
        assert(out[list.len() as int] == x);
        assert forall|i: int, j: int| 0 <= i < j < out.len() implies text_before(
            #[trigger] out[i],
            #[trigger] out[j],
        ) by {
            if j == list.len() {
                if i < list.len() - 1 {
                    assert(text_before(list[i], list[list.len() - 1]));
                    lemma_text_before_transitive(list[i], list.last(), x);
                }
            } else {
                assert(text_before(list[i], list[j]));
            }
        }
        assert forall|y: Seq<char>| list.contains(y) implies out.contains(y) by {
            let k = choose|k: int| 0 <= k < list.len() && list[k] == y;
            assert(out[k] == y);
        }
        assert forall|y: Seq<char>| out.contains(y) implies y == x || list.contains(y) by {
            let k = choose|k: int| 0 <= k < out.len() && out[k] == y;
            if k < list.len() {
                assert(list[k] == y);
            }
        }
    } else {
        let front = list.drop_last();
        let last = list.last();
        assert(sorted(front)) by {
            assert forall|i: int, j: int| 0 <= i < j < front.len() implies text_before(
                #[trigger] front[i],
                #[trigger] front[j],
            ) by {
                assert(text_before(list[i], list[j]));
            }
        }
        lemma_inserted(front, x);
        let mid = inserted(front, x);
        lemma_text_before_total(last, x);
        assert(text_before(x, last));
        assert forall|i: int, j: int| 0 <= i < j < out.len() implies text_before(
            #[trigger] out[i],
            #[trigger] out[j],
        ) by {
            if j == mid.len() {
                assert(mid.contains(mid[i]));
                if mid[i] != x {
                    assert(front.contains(mid[i]));
                    let k = choose|k: int| 0 <= k < front.len() && front[k] == mid[i];
                    assert(text_before(list[k], list[list.len() - 1]));
                }
            } else {
                assert(text_before(mid[i], mid[j]));
            }
        }
        let w = choose|w: int| 0 <= w < mid.len() && mid[w] == x;
        assert(out[w] == x);
        assert forall|y: Seq<char>| list.contains(y) implies out.contains(y) by {
            let k = choose|k: int| 0 <= k < list.len() && list[k] == y;
            if k == list.len() - 1 {
                assert(out[mid.len() as int] == y);
            } else {
                assert(front[k] == y);
                assert(front.contains(y));
                assert(mid.contains(y));
                let m = choose|m: int| 0 <= m < mid.len() && mid[m] == y;
                assert(out[m] == y);
            }
        }
        assert forall|y: Seq<char>| out.contains(y) implies y == x || list.contains(y) by {
            let k = choose|k: int| 0 <= k < out.len() && out[k] == y;
            if k < mid.len() {
                assert(mid[k] == y);
                assert(mid.contains(y));
                if y != x {
                    assert(front.contains(y));
                    let m = choose|m: int| 0 <= m < front.len() && front[m] == y;
                    assert(list[m] == y);
                }
            } else {
                assert(list[list.len() - 1] == y);
            }
        }
    }
}

/// Computes [`byte_rank`].
fn rank_of(byte: u8) -> (rank: u16)
    ensures
        rank == byte_rank(byte),
{
    if byte == SEPARATOR {
        0
    } else {
        byte as u16 + 1
    }
}

/// Decides [`text_before`].
pub fn sorts_before(a: &str, b: &str) -> (before: bool)
    ensures
        before == text_before(a@, b@),
{
    let left = a.as_bytes();
    let right = b.as_bytes();
    let mut i: usize = 0;
    proof {
        assert(left@.skip(0) =~= left@);
        assert(right@.skip(0) =~= right@);
    }
    while i < left.len() && i < right.len()
        invariant
            left@ == encode_utf8(a@),
            right@ == encode_utf8(b@),
            i <= left@.len(),
            i <= right@.len(),
            bytes_before(left@, right@) == bytes_before(left@.skip(i as int), right@.skip(i as int)),
        decreases left@.len() - i,
    {
        proof {
            assert(left@.skip(i as int).drop_first() =~= left@.skip(i + 1));
            assert(right@.skip(i as int).drop_first() =~= right@.skip(i + 1));
            assert(left@.skip(i as int)[0] == left@[i as int]);
            assert(right@.skip(i as int)[0] == right@[i as int]);
        }
        if left[i] != right[i] {
            return rank_of(left[i]) < rank_of(right[i]);
        }
        i += 1;
    }
    i < right.len()
}

/// Puts `x` into the sorted list `list`, unless the list holds it already.
pub fn insert_sorted(list: &mut Vec<String>, x: &str)
    ensures
        texts(final(list)@) == inserted(texts(old(list)@), x@),
{
    let ghost before = texts(list@);
    let mut k: usize = list.len();
    proof {
        assert(before.take(k as int) =~= before);
        assert(inserted(before, x@) =~= inserted(before, x@) + before.skip(k as int));
    }
    while k > 0
        invariant
            k <= list@.len(),
            list@ == old(list)@,
            before == texts(list@),
            inserted(before, x@) == inserted(before.take(k as int), x@) + before.skip(k as int),
        decreases k,
    {
        let ghost front = before.take(k as int);
        proof {
            assert(front.last() == list@[k - 1]@);
            assert(front.drop_last() =~= before.take(k - 1));
            assert(seq![front.last()] + before.skip(k as int) =~= before.skip(k - 1));
        }
        if same_text(list[k - 1].as_str(), x) {
            assert(inserted(before, x@) =~= before);
            return ;
        }
        if sorts_before(list[k - 1].as_str(), x) {
            list.insert(k, x.to_owned());
            assert(texts(list@) =~= inserted(before, x@));
            return ;
        }
        proof {
            assert(inserted(front, x@) == inserted(front.drop_last(), x@).push(front.last()));
            assert(inserted(before, x@) =~= inserted(before.take(k - 1), x@) + before.skip(k - 1));
        }
        k -= 1;
    }
    list.insert(0, x.to_owned());
    assert(texts(list@) =~= inserted(before, x@));
}

} // verus!
