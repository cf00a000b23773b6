//! The listener's address, from command-line tokens `addr <host>` and `port <port>`.
use vstd::prelude::*;

use crate::bytes::{ascii_bytes, copy_all, lit, push_all, same_bytes};
use crate::pages::views;

verus! {

/// The value given for `key`: the token after the last occurrence of `key` that has one,
/// or `default`.
pub open spec fn setting(args: Seq<Seq<u8>>, key: Seq<u8>, default: Seq<u8>) -> Seq<u8>
    decreases args.len(),
{
    if args.len() < 2 {
        default
    } else if args[args.len() - 2] == key {
        args.last()
    } else {
        setting(args.drop_last(), key, default)
    }
}

/// The address to listen on: `<host>:<port>`, by default `0.0.0.0:8000`.
pub open spec fn address_of(args: Seq<Seq<u8>>) -> Seq<u8> {
    setting(args, ascii_bytes("addr"@), ascii_bytes("0.0.0.0"@)) + ascii_bytes(":"@) + setting(
        args,
        ascii_bytes("port"@),
        ascii_bytes("8000"@),
    )
}

fn setting_value(args: &Vec<Vec<u8>>, key: &[u8], default: Vec<u8>) -> (r: Vec<u8>)
    ensures
        r@ == setting(views(args@), key@, default@),
{
    let ghost a = views(args@);
    let mut cur = default;
    if args.len() < 2 {
        return cur;
    }
    let mut i: usize = 1;
    while i < args.len()
        invariant
            1 <= i <= args@.len(),
            a == views(args@),
            cur@ == setting(a.take(i as int), key@, default@),
        decreases args@.len() - i,
    {
        let ghost t = a.take(i + 1);
        assert(t.drop_last() =~= a.take(i as int));
        assert(t[t.len() - 2] == args@[i - 1]@);
        assert(t.last() == args@[i as int]@);
        if same_bytes(args[i - 1].as_slice(), key) {
            cur = copy_all(args[i].as_slice());
        }
        i = i + 1;
    }
    assert(a.take(i as int) =~= a);
    cur
}

/// The address to listen on, from the command-line tokens (the program name left out).
pub fn bind_address(args: &Vec<Vec<u8>>) -> (r: Vec<u8>)
    ensures
        r@ == address_of(views(args@)),
{
    proof {
        reveal_strlit("addr");
        reveal_strlit("0.0.0.0");
        reveal_strlit(":");
        reveal_strlit("port");
        reveal_strlit("8000");
    }
    let addr_key = lit("addr");
    let port_key = lit("port");
    let mut r = setting_value(args, addr_key.as_slice(), lit("0.0.0.0"));
    let colon = lit(":");
    push_all(&mut r, colon.as_slice());
    let port = setting_value(args, port_key.as_slice(), lit("8000"));
    push_all(&mut r, port.as_slice());
    r
}

} // verus!
