//! Query encoding for the store search, and the trimming of its results.

use vstd::prelude::*;

use crate::text::push_char;
use vstd::string::StringSliceAdditionalSpecFns;

verus! {

/// Whether a byte passes through URL encoding unchanged.
pub open spec fn spec_unreserved(b: u8) -> bool {
    (65 <= b && b <= 90) || (97 <= b && b <= 122) || (48 <= b && b <= 57) || b == 45 || b == 95
        || b == 46 || b == 126
}

/// The hexadecimal digit for a value below sixteen, upper case.
pub open spec fn spec_hex_digit(d: nat) -> char {
    if d < 10 {
        (48 + d) as u8 as char
    } else {
        (55 + d) as u8 as char
    }
}

/// The URL encoding of one byte: unreserved bytes stand for themselves, a
/// space becomes a plus, anything else a percent escape.
pub open spec fn spec_encode_byte(b: u8) -> Seq<char> {
    if spec_unreserved(b) {
        seq![b as char]
    } else if b == 32 {
        seq!['+']
    } else {
        seq!['%', spec_hex_digit((b / 16) as nat), spec_hex_digit((b % 16) as nat)]
    }
}

/// The URL encoding of a byte string.
pub open spec fn spec_encode(bytes: Seq<u8>) -> Seq<char>
    decreases bytes.len(),
{
    if bytes.len() == 0 {
        Seq::empty()
    } else {
        spec_encode(bytes.drop_last()) + spec_encode_byte(bytes.last())
    }
}

/// Encode a query string's bytes for use in a URL.
pub fn encode(input: &str) -> (r: String)
    ensures
        r@ == spec_encode(input.spec_bytes()),
{
    let bytes = input.as_bytes_vec();
    let n: usize = bytes.len();
    let mut out: String = String::new();
    let mut i: usize = 0;
    proof {
        assert(bytes@.subrange(0, 0) =~= Seq::<u8>::empty());
        assert(out@ =~= spec_encode(bytes@.subrange(0, 0)));
    }
    while i < n
        invariant
            n == bytes@.len(),
            bytes@ == input.spec_bytes(),
            i <= n,
            out@ == spec_encode(bytes@.subrange(0, i as int)),
        decreases n - i,
    {
        let b = bytes[i];
        proof {
            assert(bytes@.subrange(0, i + 1).drop_last() =~= bytes@.subrange(0, i as int));
            assert(bytes@.subrange(0, i + 1).last() == bytes@[i as int]);
        }
        if (65 <= b && b <= 90) || (97 <= b && b <= 122) || (48 <= b && b <= 57) || b == 45
            || b == 95 || b == 46 || b == 126 {
            push_char(&mut out, b as char);
        } else if b == 32 {
            push_char(&mut out, '+');
        } else {
            push_char(&mut out, '%');
            let hi: u8 = b / 16;
            let lo: u8 = b % 16;
            let hc: char = if hi < 10 {
                (48 + hi) as char
            } else {
                (55 + hi) as char
            };
            let lc: char = if lo < 10 {
                (48 + lo) as char
            } else {
                (55 + lo) as char
            };
            push_char(&mut out, hc);
            push_char(&mut out, lc);
        }
        i = i + 1;
    }
    proof {
        assert(bytes@.subrange(0, n as int) =~= bytes@);
    }
    out
}

/// One store search result.
#[derive(Debug, Clone)]
pub struct SearchHit {
    pub app_id: u32,
    pub name: String,
}

/// Keep at most `limit` results, in order.
pub fn take_results(items: Vec<SearchHit>, limit: usize) -> (r: Vec<SearchHit>)
    ensures
        r@.len() == (if items@.len() <= limit {
            items@.len()
        } else {
            limit as nat
        }),
        forall|i: int| 0 <= i < r@.len() ==> r@[i] == items@[i],
{
    let mut items = items;
    if items.len() > limit {
        items.truncate(limit);
    }
    items
}

} // verus!
