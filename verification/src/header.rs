//! The cartridge header: the game title a frontend shows.

use vstd::prelude::*;

verus! {

/// Offset and length of the title in the cartridge header.
pub const TITLE_START: usize = 0xA0;
pub const TITLE_END: usize = 0xAC;
/// The smallest image that holds a whole header.
pub const HEADER_SIZE: usize = 0xC0;

/// Bytes trimmed from the ends of the title: NUL and ASCII whitespace.
pub open spec fn title_pad(b: u8) -> bool {
    b == 0 || b == 0x20 || (9 <= b <= 13)
}

/// The title in `rom`: the header's twelve title bytes without the padding
/// at either end; `None` for an image too small to hold a header.
pub fn header_title(rom: &[u8]) -> (r: Option<Vec<u8>>)
    ensures
        r is None <==> rom@.len() < HEADER_SIZE,
        r is Some ==> exists|s: int, e: int| {
            &&& TITLE_START <= s <= e <= TITLE_END
            &&& r->0@ == rom@.subrange(s, e)
            &&& forall|i: int| TITLE_START <= i < s ==> #[trigger] title_pad(rom@[i])
            &&& forall|i: int| e <= i < TITLE_END ==> #[trigger] title_pad(rom@[i])
            &&& s < e ==> !title_pad(rom@[s]) && !title_pad(rom@[e - 1])
        },
{
    if rom.len() < HEADER_SIZE {
        return None;
    }
    let mut s: usize = TITLE_START;
    while s < TITLE_END && is_pad(rom[s])
        invariant
            rom@.len() >= HEADER_SIZE,
            TITLE_START <= s <= TITLE_END,
            forall|i: int| TITLE_START <= i < s ==> #[trigger] title_pad(rom@[i]),
        decreases TITLE_END - s,
    {
        s = s + 1;
    }
    let mut e: usize = TITLE_END;
    while e > s && is_pad(rom[e - 1])
        invariant
            rom@.len() >= HEADER_SIZE,
            TITLE_START <= s <= e <= TITLE_END,
            s < TITLE_END ==> !title_pad(rom@[s as int]),
            forall|i: int| TITLE_START <= i < s ==> #[trigger] title_pad(rom@[i]),
            forall|i: int| e <= i < TITLE_END ==> #[trigger] title_pad(rom@[i]),
        decreases e - s,
    {
        e = e - 1;
    }
    let mut out: Vec<u8> = Vec::new();
    let mut i: usize = s;
    while i < e
        invariant
            rom@.len() >= HEADER_SIZE,
            TITLE_START <= s <= i <= e <= TITLE_END,
            out@ == rom@.subrange(s as int, i as int),
        decreases e - i,
    {
        out.push(rom[i]);
        i = i + 1;
        assert(out@ =~= rom@.subrange(s as int, i as int));
    }
    proof {
        assert(s < e ==> !title_pad(rom@[s as int]) && !title_pad(rom@[e - 1]));
        assert(TITLE_START <= s <= e <= TITLE_END && out@ == rom@.subrange(s as int, e as int));
    }
    Some(out)
}

fn is_pad(b: u8) -> (r: bool)
    ensures
        r == title_pad(b),
{
    b == 0 || b == 0x20 || (9 <= b && b <= 13)
}

} // verus!
