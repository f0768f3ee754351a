//! Text helpers: cutting UTF-8 text to a byte budget without splitting a
//! character, and the bounded previews that `show` prints.
use vstd::prelude::*;
use vstd::string::StringSliceAdditionalSpecFns;
use vstd::utf8::*;

verus! {

broadcast use vstd::utf8::group_utf8_lib;

/// The UTF-8 encoding of a character sequence.
pub open spec fn bytes_of(s: Seq<char>) -> Seq<u8> {
    encode_utf8(s)
}

/// The largest character boundary of `bytes` that is at most `index`.
pub open spec fn floor_boundary(bytes: Seq<u8>, index: int) -> int
    decreases index,
{
    if index <= 0 {
        0
    } else if is_char_boundary(bytes, index) {
        index
    } else {
        floor_boundary(bytes, index - 1)
    }
}

/// `s` cut to at most `index` bytes without splitting a character.
pub open spec fn truncated(s: Seq<char>, index: int) -> Seq<char> {
    if bytes_of(s).len() <= index {
        s
    } else {
        decode_utf8(bytes_of(s).take(floor_boundary(bytes_of(s), index)))
    }
}

/// The cut chosen by `floor_boundary` is a character boundary no greater
/// than `index`, and no boundary lies strictly between the two.
pub proof fn lemma_floor_boundary(bytes: Seq<u8>, index: int)
    requires
        valid_utf8(bytes),
        0 <= index,
    ensures
        0 <= floor_boundary(bytes, index) <= index,
        is_char_boundary(bytes, floor_boundary(bytes, index)),
        forall|q: int|
            floor_boundary(bytes, index) < q <= index ==> !is_char_boundary(bytes, q),
    decreases index,
{
    if index > 0 && !is_char_boundary(bytes, index) {
        lemma_floor_boundary(bytes, index - 1);
    }
}

/// Truncation never splits a character. A string that fits in `i` bytes is
/// left as it is; otherwise the result is a prefix of the string, encoded in
/// at most `i` bytes, whose encoding ends on a character boundary of the
/// string's encoding.
pub proof fn lemma_truncation_safe(s: Seq<char>, i: int)
    requires
        0 <= i,
    ensures
        bytes_of(s).len() <= i ==> truncated(s, i) == s,
        bytes_of(s).len() > i ==> {
            let p = floor_boundary(bytes_of(s), i);
            let t = truncated(s, i);
            &&& 0 <= p <= i
            &&& is_char_boundary(bytes_of(s), p)
            &&& bytes_of(t) == bytes_of(s).take(p)
            &&& t.len() <= s.len()
            &&& t == s.take(t.len() as int)
        },
{
    let b = bytes_of(s);
    if b.len() > i {
        lemma_floor_boundary(b, i);
        let p = floor_boundary(b, i);
        assert(b.take(p) == b.subrange(0, p));
        assert(valid_utf8(b.subrange(0, p)));
        assert(valid_utf8(b.subrange(p, b.len() as int)));
        let t = decode_utf8(b.subrange(0, p));
        let rest = decode_utf8(b.subrange(p, b.len() as int));
        assert(decode_utf8(b) == t + rest);
        assert(decode_utf8(b) == s);
        assert(t == s.take(t.len() as int));
    }
}

/// Cuts `s` to at most `index` bytes, at a character boundary.
///
/// When `s` is longer than `index` bytes, the cut is the last character
/// boundary at or before `index`; in valid UTF-8 that boundary lies at most
/// three bytes back, since no character is wider than four bytes.
pub fn truncate_utf8(s: &str, index: usize) -> (r: &str)
    ensures
        r@ == truncated(s@, index as int),
        s.spec_bytes().len() <= index ==> r@ == s@,
        index < s.spec_bytes().len() ==> r.spec_bytes() == s.spec_bytes().take(
            floor_boundary(s.spec_bytes(), index as int),
        ),
{
    let bytes = s.as_bytes();
    if index >= bytes.len() {
        return s;
    }
    let ghost b = s.spec_bytes();
    let mut i: usize = index;
    while i > 0 && 0x80 <= bytes[i] && bytes[i] <= 0xbf
        invariant
            b == bytes@,
            valid_utf8(b),
            i <= index < b.len(),
            floor_boundary(b, i as int) == floor_boundary(b, index as int),
        decreases i,
    {
        assert(is_continuation_byte(b[i as int]));
        assert(!is_char_boundary(b, i as int));
        i = i - 1;
    }
    if i > 0 {
        assert(!is_continuation_byte(b[i as int]));
    }
    assert(is_char_boundary(b, i as int));
    assert(floor_boundary(b, i as int) == i);
    let (head, _tail) = s.split_at(i);
    proof {
        assert(decode_utf8(head.spec_bytes()) == head@);
    }
    head
}

/// What `show` displays of a value: the value itself when it fits in
/// `limit` bytes, else its cut to `limit` bytes followed by an ellipsis.
pub open spec fn preview_of(v: Seq<char>, limit: int) -> Seq<char> {
    if bytes_of(v).len() <= limit {
        v
    } else {
        truncated(v, limit) + "..."@
    }
}

/// The encoding of two character sequences one after the other is the two
/// encodings one after the other.
proof fn lemma_bytes_of_concat(a: Seq<char>, b: Seq<char>)
    ensures
        bytes_of(a + b) == bytes_of(a) + bytes_of(b),
    decreases a.len(),
{
    if a.len() == 0 {
        assert(a + b == b);
        assert(bytes_of(a) + bytes_of(b) == bytes_of(b));
    } else {
        lemma_bytes_of_concat(a.drop_first(), b);
        assert((a + b).drop_first() == a.drop_first() + b);
        assert((a + b)[0] == a[0]);
    }
}

/// A preview never takes more than `limit` bytes plus the three of the
/// ellipsis.
pub proof fn lemma_preview_bounded(v: Seq<char>, limit: int)
    requires
        0 <= limit,
    ensures
        bytes_of(preview_of(v, limit)).len() <= limit + 3,
{
    if bytes_of(v).len() > limit {
        lemma_truncation_safe(v, limit);
        lemma_bytes_of_concat(truncated(v, limit), "..."@);
        reveal_strlit("...");
        assert(is_ascii_chars("..."@));
        assert(bytes_of("..."@).len() == 3);
    }
}

/// A preview of `v` bounded to `limit` bytes plus the ellipsis.
pub fn preview(v: &str, limit: usize) -> (r: String)
    ensures
        r@ == preview_of(v@, limit as int),
        bytes_of(r@).len() <= limit + 3,
{
    proof {
        lemma_preview_bounded(v@, limit as int);
    }
    if v.as_bytes().len() <= limit {
        v.to_owned()
    } else {
        let mut r = truncate_utf8(v, limit).to_owned();
        r.append("...");
        r
    }
}

} // verus!
