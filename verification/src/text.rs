use vstd::prelude::*;
use vstd::utf8::*;

verus! {

/// The position of the first `x` in `s`, or the length of `s` when `x` does
/// not occur.
pub open spec fn first_index<T>(s: Seq<T>, x: T) -> int
    decreases s.len(),
{
    if s.len() == 0 {
        0
    } else if s[0] == x {
        0
    } else {
        1 + first_index(s.drop_first(), x)
    }
}

/// `first_index` is a position in `s`, or its end; what comes before it is not `x`.
pub proof fn lemma_first_index<T>(s: Seq<T>, x: T)
    ensures
        0 <= first_index(s, x) <= s.len(),
        first_index(s, x) < s.len() ==> s[first_index(s, x)] == x,
        forall|i: int| 0 <= i < first_index(s, x) ==> s[i] != x,
        s.contains(x) <==> first_index(s, x) < s.len(),
    decreases s.len(),
{
    if s.len() > 0 && s[0] != x {
        lemma_first_index(s.drop_first(), x);
        assert forall|i: int| 0 <= i < first_index(s, x) implies s[i] != x by {
            if i > 0 {
                assert(s[i] == s.drop_first()[i - 1]);
            }
        }
        if s.contains(x) {
            let j = choose|j: int| 0 <= j < s.len() && s[j] == x;
            assert(s.drop_first()[j - 1] == x);
        }
        if first_index(s, x) < s.len() {
            assert(s[first_index(s, x)] == s.drop_first()[first_index(s.drop_first(), x)]);
        }
    }
}

/// UTF-8 encoding distributes over concatenation.
pub proof fn lemma_encode_concat(a: Seq<char>, b: Seq<char>)
    ensures
        encode_utf8(a + b) == encode_utf8(a) + encode_utf8(b),
    decreases a.len(),
{
    if a.len() > 0 {
        lemma_encode_concat(a.drop_first(), b);
        assert((a + b).drop_first() =~= a.drop_first() + b);
        assert((a + b)[0] == a[0]);
        assert(encode_utf8(a + b) =~= encode_utf8(a) + encode_utf8(b));
    } else {
        assert(a + b =~= b);
    }
}

/// Encoding is one to one.
pub proof fn lemma_encode_injective(a: Seq<char>, b: Seq<char>)
    requires
        encode_utf8(a) == encode_utf8(b),
    ensures
        a == b,
{
    encode_utf8_decode_utf8(a);
    encode_utf8_decode_utf8(b);
}

/// Where one encoded text ends and the next begins is a character boundary.
pub proof fn lemma_boundary_between(a: Seq<char>, b: Seq<char>)
    ensures
        is_char_boundary(encode_utf8(a + b), encode_utf8(a).len() as int),
    decreases a.len(),
{
    let c = a + b;
    encode_utf8_valid_utf8(c);
    if a.len() > 0 {
        encode_utf8_first_scalar(c);
        assert(c[0] == a[0]);
        assert(c.drop_first() =~= a.drop_first() + b);
        let l = encode_scalar(c[0] as u32).len() as int;
        assert(pop_first_scalar(encode_utf8(c)) =~= encode_utf8(c.drop_first()));
        lemma_boundary_between(a.drop_first(), b);
        assert(encode_utf8(a).len() == l + encode_utf8(a.drop_first()).len());
    }
}

/// The encoding of a character holds the byte of `@` exactly when the
/// character is `@`, and then it is that one byte.
pub proof fn lemma_scalar_at_sign(c: char)
    ensures
        c == '@' ==> encode_scalar(c as u32) == seq![64u8],
        c != '@' ==> !encode_scalar(c as u32).contains(64u8),
{
    let v = c as u32;
    char_is_scalar(c);
    if has_width_1_encoding(v) {
        assert(leading_byte_width_1(v) == 64u8 <==> v == 64) by (bit_vector)
            requires
                v <= 0x7f,
        ;
        if c == '@' {
            assert(encode_scalar(v) =~= seq![64u8]);
        } else {
            assert(v != 64);
            assert(encode_scalar(v) =~= seq![leading_byte_width_1(v)]);
            if encode_scalar(v).contains(64u8) {
                assert(encode_scalar(v)[0] == 64u8);
            }
        }
    } else {
        assert(leading_byte_width_2(v) != 64u8) by (bit_vector);
        assert(leading_byte_width_3(v) != 64u8) by (bit_vector);
        assert(leading_byte_width_4(v) != 64u8) by (bit_vector);
        assert(last_continuation_byte(v) != 64u8) by (bit_vector);
        assert(second_last_continuation_byte(v) != 64u8) by (bit_vector);
        assert(third_last_continuation_byte(v) != 64u8) by (bit_vector);
        assert(c != '@');
        let e = encode_scalar(v);
        if e.contains(64u8) {
            let j = choose|j: int| 0 <= j < e.len() && e[j] == 64u8;
            assert(false);
        }
    }
}

/// Text without `@` encodes to bytes without its byte.
pub proof fn lemma_no_at_sign(a: Seq<char>)
    requires
        !a.contains('@'),
    ensures
        !encode_utf8(a).contains(64u8),
    decreases a.len(),
{
    if a.len() > 0 {
        assert(!a.drop_first().contains('@')) by {
            if a.drop_first().contains('@') {
                let j = choose|j: int| 0 <= j < a.drop_first().len() && a.drop_first()[j] == '@';
                assert(a[j + 1] == '@');
            }
        }
        lemma_no_at_sign(a.drop_first());
        assert(a[0] != '@') by {
            if a[0] == '@' {
                assert(a.contains('@'));
            }
        }
        lemma_scalar_at_sign(a[0]);
        let e = encode_utf8(a);
        let h = encode_scalar(a[0] as u32);
        let t = encode_utf8(a.drop_first());
        assert(e =~= h + t);
        if e.contains(64u8) {
            let j = choose|j: int| 0 <= j < e.len() && e[j] == 64u8;
            if j < h.len() {
                assert(h[j] == 64u8);
            } else {
                assert(t[j - h.len()] == 64u8);
            }
        }
    }
}

/// How the first `@` of a text shows in its encoding: the bytes before the
/// first `@` byte encode the characters before the first `@`, and the bytes
/// after it encode the characters after it.
pub proof fn lemma_at_sign_in_encoding(a: Seq<char>)
    ensures
        ({
            let ci = first_index(a, '@');
            let bytes = encode_utf8(a);
            let bi = first_index(bytes, 64u8);
            &&& bi == encode_utf8(a.take(ci)).len()
            &&& bytes.take(bi) == encode_utf8(a.take(ci))
            &&& (ci < a.len() <==> bi < bytes.len())
            &&& ci < a.len() ==> bytes.skip(bi + 1) == encode_utf8(a.skip(ci + 1))
            &&& is_char_boundary(bytes, bi)
            &&& ci < a.len() ==> is_char_boundary(bytes, bi + 1)
        }),
{
    let ci = first_index(a, '@');
    let bytes = encode_utf8(a);
    lemma_first_index(a, '@');
    let pre = a.take(ci);
    let post = a.skip(ci);
    assert(a =~= pre + post);
    lemma_encode_concat(pre, post);
    lemma_boundary_between(pre, post);
    assert(!pre.contains('@')) by {
        if pre.contains('@') {
            let j = choose|j: int| 0 <= j < pre.len() && pre[j] == '@';
            assert(a[j] == '@');
        }
    }
    lemma_no_at_sign(pre);
    let ep = encode_utf8(pre);
    let bi = ep.len() as int;
    if ci < a.len() {
        lemma_scalar_at_sign(post[0]);
        assert(encode_utf8(post) =~= seq![64u8] + encode_utf8(post.drop_first()));
        assert(bytes[bi] == 64u8);
        assert(post.drop_first() =~= a.skip(ci + 1));
        assert(bytes.skip(bi + 1) =~= encode_utf8(a.skip(ci + 1)));
        let pre1 = a.take(ci + 1);
        assert(a =~= pre1 + a.skip(ci + 1));
        lemma_boundary_between(pre1, a.skip(ci + 1));
        assert(pre1 =~= pre + seq!['@']);
        lemma_encode_concat(pre, seq!['@']);
        lemma_scalar_at_sign('@');
        let one = seq!['@'];
        assert(one.drop_first() =~= Seq::<char>::empty());
        assert(encode_utf8(one.drop_first()) =~= Seq::<u8>::empty());
        assert(one[0] == '@');
        assert(encode_utf8(one) =~= seq![64u8]);
        assert(encode_utf8(pre1).len() == bi + 1);
    } else {
        assert(post.len() == 0);
        assert(bytes =~= ep);
    }
    lemma_first_index(bytes, 64u8);
    let fb = first_index(bytes, 64u8);
    if fb < bi {
        assert(ep[fb] == 64u8);
        assert(ep.contains(64u8));
    }
    if ci < a.len() {
        assert(fb <= bi);
    } else {
        assert(fb == bytes.len()) by {
            if fb < bytes.len() {
                assert(ep[fb] == 64u8);
                assert(ep.contains(64u8));
            }
        }
    }
    assert(bytes.take(bi) =~= ep);
}

/// The position of the first `@` byte in a byte slice, or its length.
pub fn find_at_sign(bytes: &[u8]) -> (r: usize)
    ensures
        r == first_index(bytes@, 64u8),
{
    proof {
        lemma_first_index(bytes@, 64u8);
    }
    let mut i: usize = 0;
    while i < bytes.len()
        invariant
            i <= bytes@.len(),
            i <= first_index(bytes@, 64u8),
            0 <= first_index(bytes@, 64u8) <= bytes@.len(),
            first_index(bytes@, 64u8) < bytes@.len() ==> bytes@[first_index(bytes@, 64u8)] == 64u8,
            forall|j: int| 0 <= j < first_index(bytes@, 64u8) ==> bytes@[j] != 64u8,
        decreases bytes@.len() - i,
    {
        if bytes[i] == 64u8 {
            return i;
        }
        i = i + 1;
    }
    i
}

/// Whether the text holds an `@`.
pub fn contains_at_sign(s: &str) -> (b: bool)
    ensures
        b == s@.contains('@'),
{
    let bytes = s.as_bytes();
    let i = find_at_sign(bytes);
    proof {
        lemma_at_sign_in_encoding(s@);
        lemma_first_index(s@, '@');
    }
    i < bytes.len()
}

} // verus!
