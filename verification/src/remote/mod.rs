pub mod client;
pub mod packet;
pub mod server;

use vstd::prelude::*;

verus! {

/// The address of the host as reported: the first network interface that is
/// not a loopback one, else the loopback address. Each interface is given as
/// whether it is a loopback interface and its address.
pub open spec fn host_of(interfaces: Seq<(bool, String)>) -> Seq<char>
    decreases interfaces.len(),
{
    if interfaces.len() == 0 {
        "127.0.0.1"@
    } else if !interfaces[0].0 {
        interfaces[0].1@
    } else {
        host_of(interfaces.drop_first())
    }
}

/// Picks the host address among the interfaces, as `host_of` says.
pub fn choose_host(interfaces: Vec<(bool, String)>) -> (r: String)
    ensures
        r@ == host_of(interfaces@),
{
    let mut i: usize = 0;
    assert(interfaces@.skip(0) =~= interfaces@);
    while i < interfaces.len()
        invariant
            i <= interfaces@.len(),
            host_of(interfaces@) == host_of(interfaces@.skip(i as int)),
        decreases interfaces@.len() - i,
    {
        if !interfaces[i].0 {
            proof {
                assert(interfaces@.skip(i as int)[0] == interfaces@[i as int]);
            }
            return interfaces[i].1.clone();
        }
        proof {
            assert(interfaces@.skip(i as int).drop_first() =~= interfaces@.skip(i + 1));
        }
        i = i + 1;
    }
    proof {
        assert(interfaces@.skip(i as int).len() == 0);
    }
    "127.0.0.1".to_owned()
}

} // verus!
