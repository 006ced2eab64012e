//! Huffman code tables of Layer III, as the bitstream formatter reads them.

use vstd::prelude::*;

verus! {

/// One Huffman code table: for the pair or quadruple index `i`, the code
/// word `hb[i]` of `hlen[i]` bits. Tables that code values of 15 and more
/// send the excess in `linbits` further bits. A table without code words
/// codes nothing.
#[derive(Debug, Clone)]
pub struct HuffCodeTab {
    pub xlen: u32,
    pub ylen: u32,
    pub linbits: u32,
    pub linmax: u32,
    pub hb: Option<Vec<u16>>,
    pub hlen: Option<Vec<u8>>,
}

impl HuffCodeTab {
    /// The table is usable: code words and lengths come in equal numbers,
    /// every code word fits in its length with room for the sign bits that
    /// follow it, and escape values take at most 13 bits.
    pub open spec fn wf(&self) -> bool {
        &&& self.linbits <= 13
        &&& match (self.hb, self.hlen) {
            (Some(hb), Some(hlen)) => {
                &&& hb@.len() == hlen@.len()
                &&& forall|i: int|
                    0 <= i < hb@.len() ==> #[trigger] hlen@[i] <= 28 && (hb@[i] as u32) >> (
                    hlen@[i] as u32) == 0
            },
            _ => true,
        }
    }

    /// Whether the table has code words.
    pub open spec fn has_codes(&self) -> bool {
        self.hb is Some && self.hlen is Some
    }

    /// Number of code words of the table.
    pub open spec fn code_count(&self) -> int {
        match self.hb {
            Some(hb) => hb@.len() as int,
            None => 0,
        }
    }

    /// The bits of code word `i`.
    pub open spec fn code_bits(&self, i: int) -> Seq<bool> {
        crate::bits::value_bits(
            self.hb.unwrap()@[i] as u32,
            self.hlen.unwrap()@[i] as nat,
        )
    }
}

/// Every table of the set is usable.
pub open spec fn tables_wf(tables: Seq<HuffCodeTab>) -> bool {
    forall|i: int| 0 <= i < tables.len() ==> #[trigger] tables[i].wf()
}

} // verus!
