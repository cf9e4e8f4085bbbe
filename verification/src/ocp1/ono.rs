//! Object numbers (ONos): opaque to AES70 but for the few that it reserves for a device's
//! managers and its root block.
use vstd::prelude::*;

use crate::text;
use crate::text::push_hex;

pub mod reserved;

verus! {

/// A 32-bit AES70 object number.
#[derive(Debug, Clone, Copy, PartialEq, Eq, PartialOrd, Ord, Hash, Structural)]
pub struct Ono(pub u32);

impl vstd::std_specs::convert::FromSpecImpl<u32> for Ono {
    open spec fn obeys_from_spec() -> bool {
        true
    }

    open spec fn from_spec(v: u32) -> Self {
        Ono(v)
    }
}

impl From<u32> for Ono {
    fn from(v: u32) -> Self {
        Ono(v)
    }
}

impl vstd::std_specs::convert::FromSpecImpl<Ono> for u32 {
    open spec fn obeys_from_spec() -> bool {
        true
    }

    open spec fn from_spec(v: Ono) -> Self {
        v.0
    }
}

impl From<Ono> for u32 {
    fn from(v: Ono) -> Self {
        v.0
    }
}

impl Ono {
    /// The number as padded hexadecimal.
    pub open spec fn text(self) -> Seq<char> {
        "0x"@ + text::hex(self.0 as nat, 8)
    }

    /// The number as padded hexadecimal.
    pub fn to_text(&self) -> (r: String)
        ensures
            r@ == self.text(),
    {
        let mut out: String = String::new();
        out.append("0x");
        push_hex(&mut out, self.0, 8);
        assert(out@ =~= self.text());
        out
    }

    /// Whether the number is one that AES70 reserves: a manager or the root block. Everything
    /// above is the vendor's to allocate.
    pub fn is_reserved(self) -> (r: bool)
        ensures
            r == (self.0 <= 100),
    {
        self.0 <= reserved::ROOT_BLOCK
    }
}

/// A number is written as eight hexadecimal digits behind a prefix that says so.
pub proof fn a_number_is_spelled_out(ono: Ono)
    ensures
        ono.text().len() == 10,
        ono.text()[0] == '0' && ono.text()[1] == 'x',
        text::hex_value(ono.text().skip(2)) == ono.0,
{
    reveal_strlit("0x");
    text::hex_spells_the_number(ono.0 as nat, 8);
    assert(ono.text().skip(2) =~= text::hex(ono.0 as nat, 8));
}

} // verus!
