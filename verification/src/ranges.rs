//! HTTP byte-range rendering for a bundle's chunks, one range per chunk in
//! order ("bytes=o1-e1,o2-e2" with e the inclusive last byte). Kept as an
//! available primitive for partial-bundle requests; the current download
//! path fetches whole blobs.

use vstd::prelude::*;
use crate::hex::{hex_digit, push_hex_digit};
use crate::models::{Bundle, ChunkModel};

verus! {

/// The decimal digits of `n`, most significant first.
pub open spec fn dec_of(n: nat) -> Seq<char>
    decreases n,
{
    if n < 10 {
        seq![hex_digit(n as int)]
    } else {
        dec_of(n / 10) + seq![hex_digit((n % 10) as int)]
    }
}

/// One chunk's range: first byte through last byte, both inclusive.
pub open spec fn range_of(c: ChunkModel) -> Seq<char>
    recommends
        c.size >= 1,
{
    dec_of(c.offset) + seq!['-'] + dec_of((c.offset + c.size - 1) as nat)
}

/// All ranges of a chunk list, comma-separated.
pub open spec fn ranges_of(chunks: Seq<ChunkModel>) -> Seq<char>
    decreases chunks.len(),
{
    if chunks.len() == 0 {
        Seq::empty()
    } else if chunks.len() == 1 {
        range_of(chunks[0])
    } else {
        ranges_of(chunks.drop_last()) + seq![','] + range_of(chunks.last())
    }
}

/// Render `n` in decimal.
fn u64_to_decimal(n: u64) -> (s: String)
    ensures
        s@ == dec_of(n as nat),
    decreases n,
{
    if n < 10 {
        let mut s = String::new();
        push_hex_digit(&mut s, n as u8);
        proof {
            assert(s@ =~= dec_of(n as nat));
        }
        s
    } else {
        let mut s = u64_to_decimal(n / 10);
        push_hex_digit(&mut s, (n % 10) as u8);
        s
    }
}

/// The range list naming every chunk of the bundle, for a ranged fetch of
/// exactly the bytes the manifest places somewhere.
pub fn get_bytes_ranges(bundle: &Bundle) -> (r: String)
    requires
        forall|i: int|
            0 <= i < bundle@.chunks.len() ==> 1 <= (#[trigger] bundle@.chunks[i]).size
                && bundle@.chunks[i].offset + bundle@.chunks[i].size <= u64::MAX,
    ensures
        r@ == "bytes="@ + ranges_of(bundle@.chunks),
{
    let ghost cm = bundle@.chunks;
    let mut s = String::new();
    s.append("bytes=");
    let mut i: usize = 0;
    while i < bundle.chunks.len()
        invariant
            i <= bundle.chunks.len(),
            cm == bundle@.chunks,
            forall|k: int|
                0 <= k < cm.len() ==> 1 <= (#[trigger] cm[k]).size && cm[k].offset + cm[k].size
                    <= u64::MAX,
            s@ == "bytes="@ + ranges_of(cm.take(i as int)),
        decreases bundle.chunks.len() - i,
    {
        let c = &bundle.chunks[i];
        proof {
            assert(cm[i as int] == c@);
        }
        if i > 0 {
            proof {
                reveal_strlit(",");
                assert(","@ =~= seq![',']);
            }
            s.append(",");
        }
        let off_s = u64_to_decimal(c.offset);
        s.append(off_s.as_str());
        proof {
            reveal_strlit("-");
            assert("-"@ =~= seq!['-']);
        }
        s.append("-");
        let end_s = u64_to_decimal(c.offset + c.size - 1);
        s.append(end_s.as_str());
        proof {
            assert(cm.take(i + 1).drop_last() =~= cm.take(i as int));
            assert(cm.take(i + 1).last() == cm[i as int]);
            if i == 0 {
                assert(cm.take(1)[0] == cm[0]);
                assert(s@ =~= "bytes="@ + ranges_of(cm.take(i + 1)));
            } else {
                assert(s@ =~= "bytes="@ + ranges_of(cm.take(i + 1)));
            }
        }
        i = i + 1;
    }
    proof {
        assert(cm.take(bundle.chunks@.len() as int) =~= cm);
    }
    s
}

} // verus!
