//! Fast integer-to-decimal conversion for key and value generation.  The
//! digits are produced by repeated division, so zero yields the empty digit
//! string.
use vstd::prelude::*;

verus! {

use crate::digits::{ascii_digits_to_string, chars_of, dec_rep, dec_rep_digits, lemma_dec_rep_digits};
use crate::fix_sized_key::AsRaw;

/// The decimal digits of an unsigned integer, kept as raw bytes.
#[derive(Debug, Clone)]
pub struct QuickIStr {
    buf: Vec<u8>,
}

impl View for QuickIStr {
    type V = Seq<u8>;

    closed spec fn view(&self) -> Seq<u8> {
        self.buf@
    }
}

impl QuickIStr {
    /// Every stored byte is an ASCII digit.
    pub open spec fn wf(&self) -> bool {
        forall|i: int| 0 <= i < self@.len() ==> 48 <= #[trigger] self@[i] <= 57
    }

    pub fn new(v: u64) -> (s: Self)
        ensures
            s@ == dec_rep(v as nat),
            s.wf(),
    {
        let s = QuickIStr { buf: dec_rep_digits(v as u128) };
        proof {
            lemma_dec_rep_digits(v as nat);
        }
        s
    }

    /// The digits as a string.
    pub fn to_string(&self) -> (r: String)
        requires
            self.wf(),
        ensures
            r@ == chars_of(self@),
    {
        let r = ascii_digits_to_string(&self.buf);
        proof {
            assert(r@ =~= chars_of(self@));
        }
        r
    }
}

impl AsRaw for QuickIStr {
    open spec fn raw_view(&self) -> Seq<u8> {
        self@
    }

    fn as_raw(&self) -> (r: &[u8]) {
        self.buf.as_slice()
    }
}

} // verus!
