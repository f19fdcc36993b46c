use vstd::prelude::*;
use vstd::string::StringExecFns;

verus! {

/// The message that starts the server actor's polling loop.
#[derive(Debug)]
pub struct StartServer;

/// The longest packet a connection accepts: 12 bytes of header and at most
/// 4 KiB of payload.
pub const PACKET_SIZE_LIMIT: usize = 4096 + 12;

/// What a connection does after its I/O, given whether its socket is still
/// open and whether it keeps its socket alive: `(open, close)`. An open
/// connection stays open. A connection that does not keep its socket alive
/// counts as open again. One that keeps it alive and lost it closes: it drops
/// its socket and stops its actor.
pub fn keep_open(is_open: bool, keep_alive: bool) -> (r: (bool, bool))
    ensures
        r.0 == (is_open || !keep_alive),
        r.1 == (!is_open && keep_alive),
        r.0 != r.1,
{
    if !is_open {
        if !keep_alive {
            (true, false)
        } else {
            (false, true)
        }
    } else {
        (true, false)
    }
}

/// The character of a decimal digit.
pub open spec fn digit_char(d: nat) -> char {
    seq!['0', '1', '2', '3', '4', '5', '6', '7', '8', '9'][d as int]
}

/// The decimal digits of a number, most significant first, without leading zeros.
pub open spec fn decimal(n: nat) -> Seq<char>
    decreases n,
{
    if n < 10 {
        seq![digit_char(n)]
    } else {
        decimal(n / 10).push(digit_char(n % 10))
    }
}

/// `s` with zeros in front, up to `width` characters.
pub open spec fn zero_padded(s: Seq<char>, width: nat) -> Seq<char> {
    if s.len() >= width {
        s
    } else {
        Seq::new((width - s.len()) as nat, |i: int| '0') + s
    }
}

/// The address of the actor for the `id`-th connection accepted by the
/// server at `me`: `me#` and the id in decimal, zero-padded to 12 digits.
pub open spec fn connection_tag_of(me: Seq<char>, id: nat) -> Seq<char> {
    me + seq!['#'] + zero_padded(decimal(id), 12)
}

fn digit_str(d: usize) -> (r: &'static str)
    requires
        d < 10,
    ensures
        r@ == seq![digit_char(d as nat)],
{
    proof {
        reveal_strlit("0");
        reveal_strlit("1");
        reveal_strlit("2");
        reveal_strlit("3");
        reveal_strlit("4");
        reveal_strlit("5");
        reveal_strlit("6");
        reveal_strlit("7");
        reveal_strlit("8");
        reveal_strlit("9");
    }
    match d {
        0 => "0",
        1 => "1",
        2 => "2",
        3 => "3",
        4 => "4",
        5 => "5",
        6 => "6",
        7 => "7",
        8 => "8",
        _ => "9",
    }
}

fn push_decimal(s: &mut String, n: usize)
    ensures
        final(s)@ == old(s)@ + decimal(n as nat),
    decreases n,
{
    if n >= 10 {
        push_decimal(s, n / 10);
    }
    s.append(digit_str(n % 10));
    proof {
        if n >= 10 {
            assert(decimal(n as nat) == decimal((n / 10) as nat).push(digit_char((n % 10) as nat)));
        }
    }
    assert(s@ =~= old(s)@ + decimal(n as nat));
}

fn decimal_len(n: usize) -> (r: usize)
    ensures
        r == decimal(n as nat).len(),
        r <= n / 10 + 1,
    decreases n,
{
    if n < 10 {
        1
    } else {
        let r = decimal_len(n / 10);
        proof {
            assert(decimal(n as nat) == decimal((n / 10) as nat).push(digit_char((n % 10) as nat)));
        }
        r + 1
    }
}

/// The address of the actor for the `id`-th connection accepted by the
/// server at `me`.
pub fn connection_tag(me: &str, id: usize) -> (r: String)
    ensures
        r@ == connection_tag_of(me@, id as nat),
{
    let mut s = me.to_owned();
    s.append("#");
    let n = decimal_len(id);
    let mut k = n;
    let ghost start = s@;
    while k < 12
        invariant
            n <= k <= 12 || (n > 12 && k == n),
            n == decimal(id as nat).len(),
            s@ == start + Seq::new((k - n) as nat, |i: int| '0'),
        decreases 12 - k,
    {
        s.append("0");
        proof {
            reveal_strlit("0");
            assert(s@ =~= start + Seq::new((k + 1 - n) as nat, |i: int| '0'));
        }
        k = k + 1;
    }
    push_decimal(&mut s, id);
    proof {
        reveal_strlit("#");
        if n < 12 {
            assert(k == 12);
        }
        assert(s@ =~= connection_tag_of(me@, id as nat));
    }
    s
}

} // verus!
