//! Moving a text cursor, kept as a UTF-8 byte offset, one character at a time.

use vstd::prelude::*;
use vstd::utf8::encode_utf8;

use crate::ids::lemma_encode_concat;
use crate::text::chars_of;

verus! {

/// The byte offset at which character `k` of `s` starts in its UTF-8 encoding.
pub open spec fn char_offset(s: Seq<char>, k: int) -> nat {
    encode_utf8(s.take(k)).len()
}

/// `cursor` is the byte offset of character boundary `k` of `s`.
pub open spec fn is_boundary(s: Seq<char>, cursor: int, k: int) -> bool {
    0 <= k <= s.len() && cursor == char_offset(s, k)
}

/// Number of bytes in the UTF-8 encoding of one character.
pub open spec fn char_width(c: char) -> nat {
    encode_utf8(seq![c]).len()
}

fn width_of(c: char) -> (width: usize)
    ensures
        width == char_width(c),
        1 <= width <= 4,
{
    let v = c as u32;
    proof {
        let s = seq![c];
        assert(s.drop_first() =~= Seq::<char>::empty());
        assert(encode_utf8(s) == vstd::utf8::encode_scalar(c as u32) + encode_utf8(s.drop_first()));
        assert(encode_utf8(Seq::<char>::empty()) =~= Seq::<u8>::empty());
        assert(encode_utf8(s) =~= vstd::utf8::encode_scalar(c as u32));
    }
    if v <= 0x7f {
        1
    } else if v <= 0x7ff {
        2
    } else if v <= 0xffff {
        proof {
            vstd::utf8::char_is_scalar(c);
        }
        3
    } else {
        4
    }
}

pub(crate) proof fn lemma_offset_step(s: Seq<char>, k: int)
    requires
        0 <= k < s.len(),
    ensures
        char_offset(s, k + 1) == char_offset(s, k) + char_width(s[k]),
{
    assert(s.take(k + 1) =~= s.take(k) + seq![s[k]]);
    lemma_encode_concat(s.take(k), seq![s[k]]);
}

pub(crate) proof fn lemma_offset_increases(s: Seq<char>, j: int, k: int)
    requires
        0 <= j < k <= s.len(),
    ensures
        char_offset(s, j) < char_offset(s, k),
    decreases k - j,
{
    lemma_offset_step(s, k - 1);
    assert(char_width(s[k - 1]) >= 1) by {
        crate::ids::lemma_encode_nonempty(seq![s[k - 1]]);
    }
    if j < k - 1 {
        lemma_offset_increases(s, j, k - 1);
    }
}

pub(crate) proof fn lemma_offset_bounded(s: Seq<char>, k: int)
    requires
        0 <= k <= s.len(),
    ensures
        char_offset(s, k) <= encode_utf8(s).len(),
{
    assert(s.take(s.len() as int) =~= s);
    if k < s.len() {
        lemma_offset_increases(s, k, s.len() as int);
    }
}

/// The boundary after the character that starts at `cursor`, or `cursor`
/// itself at the end of the text.
pub fn next_text_cursor(text: &str, cursor: usize) -> (next: usize)
    requires
        exists|k: int| is_boundary(text@, cursor as int, k),
    ensures
        forall|k: int| #[trigger] is_boundary(text@, cursor as int, k) ==> next == if k < text@.len() {
            char_offset(text@, k + 1)
        } else {
            cursor as nat
        },
{
    let total = text.as_bytes().len();
    let chars = chars_of(text);
    let mut offset: usize = 0;
    let mut i: usize = 0;
    proof {
        assert(text@.take(0) =~= Seq::<char>::empty());
        assert(encode_utf8(Seq::<char>::empty()) =~= Seq::<u8>::empty());
    }
    while i < chars.len()
        invariant
            chars@ == text@,
            total == encode_utf8(text@).len(),
            i <= chars@.len(),
            offset == char_offset(text@, i as int),
            forall|j: int| 0 <= j < i ==> char_offset(text@, j) != cursor,
        decreases chars@.len() - i,
    {
        proof {
            lemma_offset_step(text@, i as int);
            lemma_offset_bounded(text@, i + 1);
        }
        let width = width_of(chars[i]);
        if offset == cursor {
            proof {
                assert forall|k: int| #[trigger] is_boundary(text@, cursor as int, k) implies k == i by {
                    if k < i {
                        lemma_offset_increases(text@, k, i as int);
                    } else if k > i {
                        lemma_offset_increases(text@, i as int, k);
                    }
                }
            }
            return offset + width;
        }
        offset = offset + width;
        i = i + 1;
    }
    proof {
        assert forall|k: int| #[trigger] is_boundary(text@, cursor as int, k) implies k == text@.len() by {
            if k < i {
                assert(char_offset(text@, k) != cursor);
            }
        }
    }
    cursor
}

/// The boundary where the character before `cursor` starts, or 0 at the
/// start of the text.
pub fn previous_text_cursor(text: &str, cursor: usize) -> (previous: usize)
    requires
        exists|k: int| is_boundary(text@, cursor as int, k),
    ensures
        forall|k: int| #[trigger] is_boundary(text@, cursor as int, k) ==> previous == if k > 0 {
            char_offset(text@, k - 1)
        } else {
            0
        },
{
    let total = text.as_bytes().len();
    let chars = chars_of(text);
    let ghost k0 = choose|k: int| is_boundary(text@, cursor as int, k);
    let mut offset: usize = 0;
    let mut previous: usize = 0;
    let mut i: usize = 0;
    proof {
        assert(text@.take(0) =~= Seq::<char>::empty());
        assert(encode_utf8(Seq::<char>::empty()) =~= Seq::<u8>::empty());
        if k0 > 0 {
            lemma_offset_increases(text@, 0, k0);
        }
    }
    while i < chars.len() && offset < cursor
        invariant
            chars@ == text@,
            total == encode_utf8(text@).len(),
            is_boundary(text@, cursor as int, k0),
            i <= k0,
            offset == char_offset(text@, i as int),
            i > 0 ==> previous == char_offset(text@, i - 1),
            i == 0 ==> previous == 0,
        decreases chars@.len() - i,
    {
        proof {
            lemma_offset_step(text@, i as int);
            lemma_offset_bounded(text@, i + 1);
            if i == k0 {
                assert(false);
            }
            if i + 1 < k0 {
                lemma_offset_increases(text@, i + 1, k0);
            }
        }
        let width = width_of(chars[i]);
        previous = offset;
        offset = offset + width;
        i = i + 1;
    }
    proof {
        if i < k0 {
            lemma_offset_increases(text@, i as int, k0);
        }
        assert forall|k: int| #[trigger] is_boundary(text@, cursor as int, k) implies k == k0 by {
            if k < k0 {
                lemma_offset_increases(text@, k, k0);
            } else if k > k0 {
                lemma_offset_increases(text@, k0, k);
            }
        }
    }
    previous
}

} // verus!
