use vstd::prelude::*;
use vstd::utf8::*;
use vstd::string::StringSliceAdditionalSpecFns;
use crate::text::{first_index, find_at_sign, lemma_at_sign_in_encoding, lemma_first_index, lemma_encode_injective};

verus! {

/// The message that starts the client actor's polling loop.
#[derive(Debug)]
pub struct StartClient;

/// How a remote address `actor@host` splits: the actor's address before the
/// first `@`, and the host between it and the next `@` (or the end); an
/// address without `@` is all actor, with no host.
pub open spec fn address_parts(a: Seq<char>) -> (Seq<char>, Seq<char>) {
    let i = first_index(a, '@');
    if i == a.len() {
        (a, Seq::empty())
    } else {
        let rest = a.skip(i + 1);
        (a.take(i), rest.take(first_index(rest, '@')))
    }
}

/// Splits a remote address into the actor's address and the host.
pub fn split_address(address: String) -> (r: (String, String))
    ensures
        (r.0@, r.1@) == address_parts(address@),
{
    let s = address.as_str();
    let bytes = s.as_bytes();
    let i = find_at_sign(bytes);
    proof {
        lemma_at_sign_in_encoding(s@);
        lemma_first_index(s@, '@');
        lemma_first_index(bytes@, 64u8);
    }
    if i == bytes.len() {
        return (address, String::new());
    }
    let ghost a = s@;
    let ghost ci = first_index(a, '@');
    let (left, right) = s.split_at(i);
    proof {
        assert(left.spec_bytes() =~= encode_utf8(a.take(ci)));
        lemma_encode_injective(left@, a.take(ci));
        encode_utf8_valid_utf8(a);
        assert(right.spec_bytes() =~= encode_utf8(a).subrange(i as int, encode_utf8(a).len() as int));
        valid_utf8_split(encode_utf8(a), i as int);
        assert(is_char_boundary(right.spec_bytes(), 1)) by {
            reveal_with_fuel(is_char_boundary, 2);
            assert(right.spec_bytes()[0] == bytes@[i as int]);
            assert(right.spec_bytes()[0] == 64u8);
            assert(length_of_first_scalar(right.spec_bytes()) == 1);
        }
    }
    let (_, rest) = right.split_at(1);
    let ghost tail = a.skip(ci + 1);
    proof {
        assert(rest.spec_bytes() =~= encode_utf8(tail));
        lemma_encode_injective(rest@, tail);
        lemma_at_sign_in_encoding(tail);
    }
    let j = find_at_sign(rest.as_bytes());
    let (host, _) = rest.split_at(j);
    proof {
        assert(host.spec_bytes() =~= encode_utf8(tail.take(first_index(tail, '@'))));
        lemma_encode_injective(host@, tail.take(first_index(tail, '@')));
    }
    (left.to_owned(), host.to_owned())
}

} // verus!
