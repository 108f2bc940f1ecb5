use vstd::prelude::*;

verus! {

/// The UTF-16 code units of one character.
pub open spec fn utf16_units(c: char) -> Seq<u16> {
    let v = c as u32;
    if v < 0x10000 {
        seq![v as u16]
    } else {
        let w = (v - 0x10000) as int;
        seq![(0xD800 + w / 0x400) as u16, (0xDC00 + w % 0x400) as u16]
    }
}

/// The UTF-16 encoding of a character sequence.
pub open spec fn utf16_of(s: Seq<char>) -> Seq<u16>
    decreases s.len(),
{
    if s.len() == 0 {
        Seq::empty()
    } else {
        utf16_of(s.drop_last()) + utf16_units(s.last())
    }
}

/// Appends the UTF-16 code units of `c` to `out`.
fn push_utf16(out: &mut Vec<u16>, c: char)
    ensures
        final(out)@ == old(out)@ + utf16_units(c),
{
    let v = c as u32;
    if v < 0x10000 {
        out.push(v as u16);
    } else {
        let w = v - 0x10000;
        out.push((0xD800 + w / 0x400) as u16);
        out.push((0xDC00 + w % 0x400) as u16);
    }
}

/// UTF-16 encoding of `s` without a terminator.
pub fn encode_utf16(s: &str) -> (r: Vec<u16>)
    ensures
        r@ == utf16_of(s@),
{
    let mut out: Vec<u16> = Vec::new();
    for c in it: s.chars()
        invariant
            it.seq() == s@,
            out@ == utf16_of(s@.take(it.index() as int)),
    {
        proof {
            assert(s@.take(it.index() + 1).drop_last() == s@.take(it.index() as int));
        }
        push_utf16(&mut out, c);
    }
    proof {
        assert(s@.take(s@.len() as int) == s@);
    }
    out
}


/// `s` as a NUL-terminated UTF-16 string, the form the Windows API takes text in.
pub open spec fn wide_chars(s: Seq<char>) -> Seq<u16> {
    utf16_of(s) + seq![0u16]
}

/// Encodes `s` as NUL-terminated UTF-16.
pub fn wide(s: &str) -> (r: Vec<u16>)
    ensures
        r@ == wide_chars(s@),
{
    let mut r = encode_utf16(s);
    r.push(0);
    r
}

/// The clipboard text that copying `path` places: the path as NUL-terminated UTF-16.
/// Its size in bytes, which the clipboard allocation takes, is twice its length.
pub fn copy_image_path(path: &str) -> (r: Vec<u16>)
    ensures
        r@ == wide_chars(path@),
{
    wide(path)
}

/// The longest tooltip, in UTF-16 code units, that the tray icon shows; one unit of its
/// 128 is kept for the terminating NUL.
pub const TIP_CAPACITY: usize = 127;

/// The tray tooltip buffer for `tooltip`: its UTF-16 units, cut to the first 127, then zeros.
pub open spec fn tip_units(tooltip: Seq<char>) -> Seq<u16> {
    let u = utf16_of(tooltip);
    let len = if u.len() < 127 { u.len() } else { 127 };
    Seq::new(128, |i: int| if i < len { u[i] } else { 0u16 })
}

/// Fills the fixed tooltip field of a tray icon.
pub fn fill_tip(tooltip: &str) -> (tip: [u16; 128])
    ensures
        tip@ == tip_units(tooltip@),
        tip@[127] == 0,
{
    let mut tip = [0u16; 128];
    let w = encode_utf16(tooltip);
    let len = if w.len() < TIP_CAPACITY { w.len() } else { TIP_CAPACITY };
    for i in 0..len
        invariant
            len <= 127,
            len <= w.len(),
            w@ == utf16_of(tooltip@),
            tip@.len() == 128,
            forall|j: int| 0 <= j < 128 ==> #[trigger] tip@[j] == if j < i { w@[j] } else { 0u16 },
    {
        tip[i] = w[i];
    }
    proof {
        assert(tip@ =~= tip_units(tooltip@));
    }
    tip
}


/// Reads UTF-16 text back into characters: a high surrogate followed by a low surrogate is
/// one character; any other unit is the character with that value.
pub open spec fn decode_utf16(u: Seq<u16>) -> Seq<char>
    decreases u.len(),
{
    if u.len() == 0 {
        Seq::empty()
    } else if u.len() >= 2 && 0xD800 <= u[0] < 0xDC00 && 0xDC00 <= u[1] < 0xE000 {
        seq![(0x10000 + (u[0] - 0xD800) * 0x400 + (u[1] - 0xDC00)) as char] + decode_utf16(
            u.skip(2),
        )
    } else {
        seq![u[0] as char] + decode_utf16(u.skip(1))
    }
}

proof fn lemma_utf16_of_prepend(c: char, s: Seq<char>)
    ensures
        utf16_of(seq![c] + s) == utf16_units(c) + utf16_of(s),
    decreases s.len(),
{
    if s.len() == 0 {
        assert(seq![c] + s =~= seq![c]);
        assert(seq![c].drop_last() =~= Seq::<char>::empty());
        assert(utf16_of(seq![c].drop_last()) =~= Seq::<u16>::empty());
        assert(utf16_of(seq![c]) =~= utf16_of(seq![c].drop_last()) + utf16_units(c));
        assert(utf16_units(c) + utf16_of(s) =~= utf16_units(c));
    } else {
        lemma_utf16_of_prepend(c, s.drop_last());
        assert((seq![c] + s).drop_last() =~= seq![c] + s.drop_last());
        assert((seq![c] + s).last() == s.last());
        assert(utf16_of(seq![c] + s) == utf16_of(seq![c] + s.drop_last()) + utf16_units(s.last()));
        assert(utf16_units(c) + utf16_of(s) =~= utf16_units(c) + utf16_of(s.drop_last())
            + utf16_units(s.last()));
    }
}

proof fn lemma_decode_units(c: char, rest: Seq<u16>)
    ensures
        decode_utf16(utf16_units(c) + rest) == seq![c] + decode_utf16(rest),
{
    let v = c as u32;
    let u = utf16_units(c) + rest;
    if v < 0x10000 {
        assert(!(0xD800 <= v < 0xE000));
        assert(u[0] == v as u16);
        assert(u.skip(1) =~= rest);
        assert((v as u16) as char == c);
    } else {
        let w = (v - 0x10000) as int;
        assert(v <= 0x10FFFF);
        assert(u[0] == (0xD800 + w / 0x400) as u16);
        assert(u[1] == (0xDC00 + w % 0x400) as u16);
        assert(u.skip(2) =~= rest);
        assert((0x10000 + (u[0] - 0xD800) * 0x400 + (u[1] - 0xDC00)) == v);
    }
}

/// Reading UTF-16 text back gives the characters it was encoded from, so the clipboard text
/// placed by copying a path (without its NUL) reads back as that path.
pub proof fn lemma_utf16_round_trip(s: Seq<char>)
    ensures
        decode_utf16(utf16_of(s)) == s,
        decode_utf16(wide_chars(s).drop_last()) == s,
    decreases s.len(),
{
    if s.len() > 0 {
        let c = s[0];
        let rest = s.drop_first();
        assert(s =~= seq![c] + rest);
        lemma_utf16_of_prepend(c, rest);
        lemma_decode_units(c, utf16_of(rest));
        lemma_utf16_round_trip(rest);
    } else {
        assert(utf16_of(s) =~= Seq::<u16>::empty());
    }
    assert(wide_chars(s).drop_last() =~= utf16_of(s));
}

} // verus!
